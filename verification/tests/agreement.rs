use rmenu::{
    parse_history_file, sort, write_history_file, AppData, ContainsFilter, HistoryItems, Item,
    ItemFilter, ItemFilters, SubstringFilter,
};

/// A small generator of repeatable numbers.
struct Numbers(u64);

impl Numbers {
    fn next(&mut self, below: usize) -> usize {
        self.0 = self.0.wrapping_mul(6364136223846793005).wrapping_add(1442695040888963407);
        ((self.0 >> 33) as usize) % below
    }

    fn text(&mut self, alphabet: &[char], longest: usize) -> String {
        let length = self.next(longest + 1);
        (0..length).map(|_| alphabet[self.next(alphabet.len())]).collect()
    }
}

fn is_subsequence(query: &str, key: &str) -> bool {
    let mut key = key.chars().map(|c| c.to_ascii_lowercase());
    query.chars().all(|q| key.any(|k| k == q.to_ascii_lowercase()))
}

#[test]
fn subsequence_filter_agrees_with_a_search_for_an_embedding() {
    let alphabet = ['a', 'A', 'b', 'B', 'é', 'É', '-'];
    let mut numbers = Numbers(7);
    let filter = SubstringFilter {};
    let mut matched = 0;
    for _ in 0..2000 {
        let query = numbers.text(&alphabet, 4);
        let key = numbers.text(&alphabet, 8);
        let expected = is_subsequence(&query, &key);
        assert_eq!(filter.filter(&query, &key), expected, "{query:?} {key:?}");
        if expected {
            matched += 1;
        }
    }
    assert!(matched > 100 && matched < 1900);
}

#[test]
fn contains_filter_agrees_with_a_search_for_a_run() {
    let alphabet = ['a', 'A', 'b', 'B', 'é', 'É', '-'];
    let mut numbers = Numbers(11);
    let filter = ContainsFilter {};
    let mut matched = 0;
    for _ in 0..2000 {
        let query = numbers.text(&alphabet, 3);
        let key = numbers.text(&alphabet, 8);
        let folded_query: Vec<char> = query.chars().map(|c| c.to_ascii_lowercase()).collect();
        let folded_key: Vec<char> = key.chars().map(|c| c.to_ascii_lowercase()).collect();
        let expected = folded_query.is_empty()
            || folded_key.windows(folded_query.len()).any(|run| run == folded_query.as_slice());
        assert_eq!(filter.filter(&query, &key), expected, "{query:?} {key:?}");
        if expected {
            matched += 1;
        }
    }
    assert!(matched > 100 && matched < 1900);
}

#[test]
fn visible_items_are_the_matching_items_in_order() {
    let alphabet = ['a', 'b', 'c', 'A'];
    let mut numbers = Numbers(3);
    for round in 0..200 {
        let keys: Vec<String> = (0..numbers.next(8)).map(|_| numbers.text(&alphabet, 5)).collect();
        let query = numbers.text(&alphabet, 2);
        let item_filter =
            if round % 2 == 0 { ItemFilters::Substring } else { ItemFilters::Contains };
        let items = keys.iter().map(|key| Item::plain(key.clone())).collect();
        let mut data = AppData::new(items, item_filter);
        data.insert(&query);
        let expected: Vec<String> =
            keys.iter().filter(|key| item_filter.filter(&query, key)).cloned().collect();
        let visible: Vec<String> = data.visible_items().into_iter().map(|item| item.key).collect();
        assert_eq!(visible, expected);
        assert!(visible.len() <= keys.len());
    }
}

#[test]
fn the_selection_stays_on_a_visible_item() {
    let alphabet = ['a', 'b', 'A'];
    let mut numbers = Numbers(5);
    for _ in 0..100 {
        let items: Vec<Item> =
            (0..numbers.next(6)).map(|_| Item::plain(numbers.text(&alphabet, 4))).collect();
        let mut data = AppData::new(items, ItemFilters::Substring);
        for _ in 0..30 {
            match numbers.next(5) {
                0 => data.insert(&numbers.text(&alphabet, 1)),
                1 => data.delete_backward(),
                2 => data.next(),
                3 => data.previous(),
                _ => data.complete(),
            }
            let visible = data.visible_items().len();
            let selection = data.get_selected_index();
            assert!(selection < visible || (visible == 0 && selection == 0));
            assert_eq!(data.get_selected_item().is_some(), visible > 0);
        }
    }
}

#[test]
fn sort_agrees_with_a_stable_sort_by_count_and_folded_text() {
    let alphabet = ['a', 'B', 'b', 'é', 'Z'];
    let mut numbers = Numbers(13);
    for _ in 0..200 {
        let mut history_items = HistoryItems::new();
        for _ in 0..numbers.next(5) {
            let count = numbers.next(4) as i32;
            history_items.insert(numbers.text(&alphabet, 2), count);
        }
        let mut items: Vec<String> =
            (0..numbers.next(8)).map(|_| numbers.text(&alphabet, 2)).collect();
        let mut expected = items.clone();
        expected.sort_by_key(|item| (-history_items.count(item), item.to_ascii_lowercase()));
        sort(&history_items, &mut items);
        assert_eq!(items, expected);
    }
}

#[test]
fn a_written_history_reads_back() {
    let alphabet = ['a', 'b', ':', ' ', '\r', 'é'];
    let mut numbers = Numbers(17);
    for _ in 0..200 {
        let mut history_items = HistoryItems::new();
        let mut keys = Vec::new();
        for _ in 0..numbers.next(6) {
            let mut key = numbers.text(&alphabet, 4);
            while key.ends_with('\r') {
                key.pop();
            }
            let count = numbers.next(1000) as i32;
            history_items.insert(key.clone(), count);
            keys.push(key);
        }
        let content = write_history_file(&history_items);
        assert_eq!(content.lines().count(), history_items.len());
        let counts: Vec<i32> = content
            .lines()
            .map(|line| line.split_once(':').unwrap().0.parse().unwrap())
            .collect();
        assert!(counts.windows(2).all(|pair| pair[0] <= pair[1]));
        let read = parse_history_file(&content).ok().unwrap();
        assert_eq!(read.len(), history_items.len());
        for key in &keys {
            assert_eq!(read.get(key), history_items.get(key), "{key:?}");
        }
    }
}
