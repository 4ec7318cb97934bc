use rmenu::{keyed_item, writes_largest_index, ExtractionError, Filter, Item};

#[test]
fn plain_text_is_its_own_key() {
    let filter = Filter::new(&None);
    assert!(filter.can_run());
    let item = filter.to_item("{\"name\": \"Firefox\"}".to_string()).unwrap();
    assert_eq!(item.key, "{\"name\": \"Firefox\"}");
    assert_eq!(item.value, "{\"name\": \"Firefox\"}");
    let item = Item::plain("Insync".to_string());
    assert_eq!(item.key, "Insync");
    assert_eq!(item.value, "Insync");
    let copy = item.clone();
    assert_eq!(copy.key, "Insync");
    assert_eq!(copy.value, "Insync");
}

#[test]
fn a_query_selects_the_key() {
    let filter = Filter::new(&Some("\"name\"".to_string()));
    assert!(filter.can_run());
    let line = "{\"name\": \"Firefox\", \"id\": 3}".to_string();
    let item = filter.to_item(line.clone()).unwrap();
    assert_eq!(item.key, "Firefox");
    assert_eq!(item.value, line);
}

#[test]
fn a_selected_number_is_written_out() {
    let filter = Filter::new(&Some("\"app\"\"id\"".to_string()));
    let line = "{\"app\": {\"id\": 42}}".to_string();
    let item = filter.to_item(line.clone()).unwrap();
    assert_eq!(item.key, "42");
    assert_eq!(item.value, line);
    let filter = Filter::new(&Some("[1]".to_string()));
    let item = filter.to_item("[\"a\", [1, \"b\"]]".to_string()).unwrap();
    assert_eq!(item.key, "[1,\"b\"]");
}

#[test]
fn a_line_that_is_no_json_gives_an_error() {
    let filter = Filter::new(&Some("\"name\"".to_string()));
    match filter.to_item("Firefox".to_string()) {
        Err(ExtractionError::InvalidJson(cause)) => {
            assert_eq!(cause, "expected value at line 1 column 1");
        }
        other => panic!("{other:?}"),
    }
    let error = filter.to_item("".to_string()).unwrap_err();
    assert!(error.message().starts_with("failed to parse item as json: "));
}

#[test]
fn a_query_that_selects_nothing_gives_an_error() {
    let filter = Filter::new(&Some("\"title\"".to_string()));
    match filter.to_item("{\"name\": \"Firefox\"}".to_string()) {
        Err(ExtractionError::FilterFailed(cause)) => assert!(cause.contains("KeyNotFound")),
        other => panic!("{other:?}"),
    }
    let filter = Filter::new(&Some("".to_string()));
    let error = filter.to_item("{}".to_string()).unwrap_err();
    assert!(matches!(error, ExtractionError::FilterFailed(_)));
    assert!(error.message().starts_with("failed to apply filter on item: "));
    let filter = Filter::new(&Some("not a query".to_string()));
    assert!(matches!(filter.to_item("{}".to_string()), Err(ExtractionError::FilterFailed(_))));
}

#[test]
fn a_query_with_the_largest_index_cannot_run() {
    let largest = usize::MAX.to_string();
    assert!(writes_largest_index(&largest));
    assert!(writes_largest_index(&format!("[{largest}:0]")));
    assert!(writes_largest_index(&format!("[00{largest}]")));
    assert!(!writes_largest_index("[0:3]"));
    assert!(!writes_largest_index(""));
    assert!(!writes_largest_index(&largest[1..]));
    assert!(!Filter::new(&Some(format!("[{largest}:]"))).can_run());
    assert!(Filter::new(&Some("[0:]".to_string())).can_run());
}

#[test]
fn a_key_loses_the_quotes_around_it() {
    let item = keyed_item("\"Firefox\"", "line".to_string());
    assert_eq!(item.key, "Firefox");
    assert_eq!(item.value, "line");
    assert_eq!(keyed_item("\"\"a\"b\"\"\"", String::new()).key, "a\"b");
    assert_eq!(keyed_item("\"\"", String::new()).key, "");
    assert_eq!(keyed_item("\"", String::new()).key, "");
    assert_eq!(keyed_item("", String::new()).key, "");
    assert_eq!(keyed_item("42", String::new()).key, "42");
    assert_eq!(keyed_item("a\"", String::new()).key, "a");
    for text in ["\"\"x\"", "x", "\"", "a\"b", "\"é\"", "\"\"\"\""] {
        assert_eq!(keyed_item(text, String::new()).key, text.trim_matches('"'), "{text:?}");
    }
}
