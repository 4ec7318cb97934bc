use rmenu::{
    parse_history_file, update, write_history_file, Commands, Effect, FormatErrorKind,
    HistoryItems,
};

#[test]
fn update_counts_from_one() {
    let mut history_items = HistoryItems::new();
    update(&mut history_items, "X".to_string());
    assert_eq!(history_items.get("X"), Some(1));
    assert_eq!(history_items.len(), 1);
    update(&mut history_items, "X".to_string());
    assert_eq!(history_items.get("X"), Some(2));
    assert_eq!(history_items.len(), 1);
}

#[test]
fn update_leaves_other_keys_alone() {
    let mut history_items = parse_history_file("4:a\n1:b\n").ok().unwrap();
    update(&mut history_items, "b".to_string());
    update(&mut history_items, "c".to_string());
    assert_eq!(history_items.get("a"), Some(4));
    assert_eq!(history_items.get("b"), Some(2));
    assert_eq!(history_items.get("c"), Some(1));
    assert_eq!(history_items.len(), 3);
}

#[test]
fn unseen_keys_count_as_zero() {
    let history_items = parse_history_file("4:a\n").ok().unwrap();
    assert_eq!(history_items.get("b"), None);
    assert_eq!(history_items.count("b"), 0);
    assert_eq!(history_items.count("a"), 4);
}

#[test]
fn insert_replaces_a_count() {
    let mut history_items = HistoryItems::new();
    history_items.insert("a".to_string(), 1);
    history_items.insert("b".to_string(), 2);
    history_items.insert("a".to_string(), 5);
    assert_eq!(history_items.get("a"), Some(5));
    assert_eq!(history_items.len(), 2);
    assert_eq!(write_history_file(&history_items), "2:b\n5:a\n");
}

#[test]
fn empty_content_is_an_empty_history() {
    let history_items = parse_history_file("").ok().unwrap();
    assert_eq!(history_items.len(), 0);
    assert_eq!(write_history_file(&history_items), "");
}

#[test]
fn parse_reads_count_and_key() {
    let history_items = parse_history_file("1:Insync\n2:Spotify\n").ok().unwrap();
    assert_eq!(history_items.len(), 2);
    assert_eq!(history_items.get("Insync"), Some(1));
    assert_eq!(history_items.get("Spotify"), Some(2));
    assert_eq!(history_items.get("Firefox"), None);
}

#[test]
fn parse_splits_at_the_first_colon() {
    let history_items = parse_history_file("3:a:b:c\n0:\n").ok().unwrap();
    assert_eq!(history_items.get("a:b:c"), Some(3));
    assert_eq!(history_items.get(""), Some(0));
    assert_eq!(history_items.len(), 2);
}

#[test]
fn parse_takes_the_last_line_of_a_key() {
    let history_items = parse_history_file("1:a\n2:b\n7:a\n").ok().unwrap();
    assert_eq!(history_items.get("a"), Some(7));
    assert_eq!(history_items.len(), 2);
}

#[test]
fn parse_needs_no_line_feed_at_the_end() {
    let history_items = parse_history_file("1:a\n2:b").ok().unwrap();
    assert_eq!(history_items.get("b"), Some(2));
    assert_eq!(history_items.len(), 2);
}

#[test]
fn parse_takes_a_carriage_return_before_a_line_feed_as_line_end() {
    let history_items = parse_history_file("1:a\r\n2:b\r\n").ok().unwrap();
    assert_eq!(history_items.get("a"), Some(1));
    assert_eq!(history_items.get("b"), Some(2));
    let history_items = parse_history_file("1:a\r").ok().unwrap();
    assert_eq!(history_items.get("a\r"), Some(1));
    let history_items = parse_history_file("1:a\r\r\n").ok().unwrap();
    assert_eq!(history_items.get("a\r"), Some(1));
}

#[test]
fn parse_reads_lines_as_std_does() {
    for content in ["", "\n", "1:a", "1:a\n", "1:a\r\n2:b\r", "a\n\nb", "\r\n", "x\r\r\ny\n\r"] {
        let lines: Vec<String> = content.lines().map(|line| line.to_string()).collect();
        let expected = lines.iter().position(|line| !line.contains(':'));
        match parse_history_file(content) {
            Ok(_) => assert_eq!(expected, None, "{content:?}"),
            Err(e) => {
                if e.kind == FormatErrorKind::MissingSeparator {
                    assert_eq!(Some(e.line_index), expected, "{content:?}");
                    assert_eq!(e.line, lines[e.line_index], "{content:?}");
                }
            }
        }
    }
}

#[test]
fn parse_rejects_a_count_that_is_no_number() {
    let error = parse_history_file("notanumber:Firefox").err().unwrap();
    assert_eq!(error.kind, FormatErrorKind::InvalidCount);
    assert_eq!(error.line_index, 0);
    assert_eq!(error.line, "notanumber:Firefox");
    assert_eq!(error.message(), "could not parse `notanumber` as an integer.");
}

#[test]
fn parse_rejects_a_line_without_a_colon() {
    let error = parse_history_file("1:a\nFirefox\n2:b\n").err().unwrap();
    assert_eq!(error.kind, FormatErrorKind::MissingSeparator);
    assert_eq!(error.line_index, 1);
    assert_eq!(error.line, "Firefox");
    assert_eq!(error.message(), "could not split `Firefox`.");
}

#[test]
fn parse_rejects_an_empty_line() {
    let error = parse_history_file("1:a\n\n2:b\n").err().unwrap();
    assert_eq!(error.kind, FormatErrorKind::MissingSeparator);
    assert_eq!(error.line_index, 1);
    assert_eq!(error.line, "");
}

#[test]
fn parse_reports_the_first_bad_line() {
    let error = parse_history_file("1:a\nx:b\nnothing\n").err().unwrap();
    assert_eq!(error.kind, FormatErrorKind::InvalidCount);
    assert_eq!(error.line_index, 1);
    assert_eq!(error.line, "x:b");
}

#[test]
fn parse_accepts_counts_as_i32_does_from_zero_on() {
    for (text, expected) in [
        ("0", Some(0)),
        ("007", Some(7)),
        ("+5", Some(5)),
        ("-0", Some(0)),
        ("-1", None),
        ("2147483647", Some(2147483647)),
        ("2147483648", None),
        ("99999999999999999999999", None),
        ("", None),
        ("+", None),
        ("-", None),
        (" 1", None),
        ("1 ", None),
        ("1_0", None),
        ("١", None),
        ("0x10", None),
        ("++1", None),
    ] {
        let content = format!("{text}:key");
        let parsed = parse_history_file(&content).ok().map(|h| h.get("key").unwrap());
        assert_eq!(parsed, expected, "{text:?}");
        let by_std = text.parse::<i32>().ok().filter(|n| *n >= 0);
        assert_eq!(parsed, by_std, "{text:?}");
    }
}

#[test]
fn write_puts_one_line_for_each_key_in_rising_order_of_counts() {
    let mut history_items = HistoryItems::new();
    history_items.insert("Spotify".to_string(), 2);
    history_items.insert("Insync".to_string(), 1);
    history_items.insert("Firefox".to_string(), 10);
    history_items.insert("Zero".to_string(), 0);
    assert_eq!(write_history_file(&history_items), "0:Zero\n1:Insync\n2:Spotify\n10:Firefox\n");
}

#[test]
fn write_keeps_keys_of_one_count_in_the_order_they_came() {
    let history_items = parse_history_file("1:b\n1:a\n1:c\n").ok().unwrap();
    assert_eq!(write_history_file(&history_items), "1:b\n1:a\n1:c\n");
}

#[test]
fn write_writes_the_largest_count() {
    let mut history_items = HistoryItems::new();
    history_items.insert("k".to_string(), i32::MAX);
    assert_eq!(write_history_file(&history_items), "2147483647:k\n");
}

#[test]
fn load_save_load_gives_the_same_history() {
    for content in ["", "1:a\n", "2:b\n1:a", "1:a\r\n3:b:c\r\n2:a\n", "5:\n0:x y\n+4:z\n-0:w"] {
        let first = parse_history_file(content).ok().unwrap();
        let saved = write_history_file(&first);
        let second = parse_history_file(&saved).ok().unwrap();
        assert_eq!(first.len(), second.len(), "{content:?}");
        for line in saved.lines() {
            let key = line.split_once(':').unwrap().1;
            assert_eq!(first.get(key), second.get(key), "{content:?}");
            assert!(first.get(key).is_some(), "{content:?}");
        }
    }
}

#[test]
fn a_key_that_ends_in_a_carriage_return_does_not_come_back() {
    let first = parse_history_file("1:x\r").ok().unwrap();
    assert_eq!(first.get("x\r"), Some(1));
    let second = parse_history_file(&write_history_file(&first)).ok().unwrap();
    assert_eq!(second.get("x\r"), None);
    assert_eq!(second.get("x"), Some(1));
}

#[test]
fn sort_command_prints_the_items_in_order() {
    let mut history_items = parse_history_file("1:Insync\n2:Spotify\n").ok().unwrap();
    let command = Commands::Sort {
        items: vec!["Insync".to_string(), "Firefox".to_string(), "Spotify".to_string()],
    };
    match command.run(&mut history_items) {
        Effect::Print(text) => assert_eq!(text, "Spotify\nInsync\nFirefox"),
        Effect::Write(_) => panic!("sorting writes nothing"),
    }
    assert_eq!(write_history_file(&history_items), "1:Insync\n2:Spotify\n");
}

#[test]
fn sort_command_prints_nothing_for_no_items() {
    let mut history_items = HistoryItems::new();
    match (Commands::Sort { items: Vec::new() }).run(&mut history_items) {
        Effect::Print(text) => assert_eq!(text, ""),
        Effect::Write(_) => panic!("sorting writes nothing"),
    }
}

#[test]
fn update_command_writes_the_new_history() {
    let mut history_items = parse_history_file("1:Insync\n2:Spotify\n").ok().unwrap();
    match (Commands::Update { entry: "Insync".to_string() }).run(&mut history_items) {
        Effect::Write(text) => assert_eq!(text, "2:Insync\n2:Spotify\n"),
        Effect::Print(_) => panic!("updating prints nothing"),
    }
    match (Commands::Update { entry: "Firefox".to_string() }).run(&mut history_items) {
        Effect::Write(text) => assert_eq!(text, "1:Firefox\n2:Insync\n2:Spotify\n"),
        Effect::Print(_) => panic!("updating prints nothing"),
    }
}
