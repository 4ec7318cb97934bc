//! How often each item was chosen: the record in memory, and the text that
//! keeps it between runs, one line `count:key` for each key.

use vstd::hash_map::StringHashMap;
use vstd::prelude::*;
use vstd::string::StringExecFns;
use crate::decimal::{count_of, decimal_digits, parse_count, push_decimal};
use crate::ranking::{arranges, ranked_views, sort_ranked, Ranked, RankedView};
use crate::text::{chars_of, fold_case, index_of, lemma_index_of_is, string_of};

verus! {

/// `line` without the carriage return at its end, if it has one.
pub open spec fn without_cr(line: Seq<char>) -> Seq<char> {
    if line.len() > 0 && line.last() == '\r' {
        line.drop_last()
    } else {
        line
    }
}

/// The lines of `content`. A line ends at a line feed, which is no part of
/// it, and neither is a carriage return just before that line feed. What
/// follows the last line feed is a line too unless it is empty.
pub open spec fn lines_of(content: Seq<char>) -> Seq<Seq<char>>
    decreases content.len(),
{
    let end = index_of(content, '\n');
    if content.len() == 0 {
        Seq::empty()
    } else if 0 <= end < content.len() {
        seq![without_cr(content.take(end))] + lines_of(content.skip(end + 1))
    } else {
        seq![content]
    }
}

/// What is wrong with a line of a history.
#[derive(Clone, Copy, Debug, PartialEq, Eq, Structural)]
pub enum FormatErrorKind {
    /// The line holds no `:`.
    MissingSeparator,
    /// What stands before the first `:` is no count.
    InvalidCount,
}

/// The key and the count that `line` records: the count stands before the
/// first `:`, the key is all that follows it.
pub open spec fn entry_of(line: Seq<char>) -> Result<(Seq<char>, i32), FormatErrorKind> {
    let at = index_of(line, ':');
    if 0 <= at < line.len() {
        match count_of(line.take(at)) {
            Some(count) => Ok((line.skip(at + 1), count)),
            None => Err(FormatErrorKind::InvalidCount),
        }
    } else {
        Err(FormatErrorKind::MissingSeparator)
    }
}

/// A [`FormatError`] as contracts see it.
pub ghost struct FormatErrorView {
    pub line_index: nat,
    pub line: Seq<char>,
    pub kind: FormatErrorKind,
}

/// The first line of a history that cannot be read.
#[derive(Clone, Debug, PartialEq, Eq)]
pub struct FormatError {
    /// How many lines stand before the line.
    pub line_index: usize,
    /// The line.
    pub line: String,
    /// What is wrong with it.
    pub kind: FormatErrorKind,
}

impl View for FormatError {
    type V = FormatErrorView;

    open spec fn view(&self) -> FormatErrorView {
        FormatErrorView { line_index: self.line_index as nat, line: self.line@, kind: self.kind }
    }
}

impl FormatErrorView {
    /// The error in words.
    pub open spec fn message_text(self) -> Seq<char> {
        match self.kind {
            FormatErrorKind::MissingSeparator => "could not split `"@ + self.line + "`."@,
            FormatErrorKind::InvalidCount => "could not parse `"@ + self.line.take(
                index_of(self.line, ':'),
            ) + "` as an integer."@,
        }
    }
}

impl FormatError {
    /// The error in words: the line that has no `:`, or what stands before
    /// the first `:` and is no count.
    pub fn message(&self) -> (r: String)
        ensures
            r@ == self@.message_text(),
    {
        match self.kind {
            FormatErrorKind::MissingSeparator => {
                let mut text = String::from_str("could not split `");
                text.append(self.line.as_str());
                text.append("`.");
                text
            },
            FormatErrorKind::InvalidCount => {
                let chars = chars_of(self.line.as_str());
                assert(chars@.subrange(0, chars@.len() as int) == chars@);
                let colon = find(&chars, 0, chars.len(), ':');
                let count = string_of(&chars, 0, colon);
                let mut text = String::from_str("could not parse `");
                text.append(count.as_str());
                text.append("` as an integer.");
                text
            },
        }
    }
}

/// The record that `lines` make, or the first of them that cannot be read.
/// Where a key stands on several lines, the last of them counts.
pub open spec fn history_of_lines(lines: Seq<Seq<char>>) -> Result<
    Map<Seq<char>, i32>,
    FormatErrorView,
>
    decreases lines.len(),
{
    if lines.len() == 0 {
        Ok(Map::empty())
    } else {
        match history_of_lines(lines.drop_last()) {
            Err(e) => Err(e),
            Ok(earlier) => match entry_of(lines.last()) {
                Ok((key, count)) => Ok(earlier.insert(key, count)),
                Err(kind) => Err(
                    FormatErrorView {
                        line_index: (lines.len() - 1) as nat,
                        line: lines.last(),
                        kind,
                    },
                ),
            },
        }
    }
}

/// The record that the text `content` keeps, or the first of its lines
/// that cannot be read. An empty text keeps an empty record.
pub open spec fn history_of(content: Seq<char>) -> Result<Map<Seq<char>, i32>, FormatErrorView> {
    history_of_lines(lines_of(content))
}

/// How often `key` was chosen according to `record`: what the record holds
/// for it, and 0 where it holds nothing.
pub open spec fn count_in(record: Map<Seq<char>, i32>, key: Seq<char>) -> i32 {
    if record.contains_key(key) {
        record[key]
    } else {
        0
    }
}

/// What `item` is ranked by under `record`: the more often it was chosen,
/// the lighter it is, and its text counts letter case aside.
pub open spec fn rank_of(record: Map<Seq<char>, i32>, item: Seq<char>) -> RankedView {
    RankedView { weight: (-count_in(record, item)) as i64, folded: fold_case(item), text: item }
}

/// The line that records `count` for `key`.
pub open spec fn entry_line(key: Seq<char>, count: i32) -> Seq<char> {
    decimal_digits(count as nat) + seq![':'] + key + seq!['\n']
}

/// The text that keeps `record`, with one line for each key of `order`.
pub open spec fn history_text(order: Seq<Seq<char>>, record: Map<Seq<char>, i32>) -> Seq<char>
    decreases order.len(),
{
    if order.len() == 0 {
        Seq::empty()
    } else {
        history_text(order.drop_last(), record) + entry_line(order.last(), record[order.last()])
    }
}

/// The counts of the keys do not fall along `order`.
pub open spec fn ascending(order: Seq<Seq<char>>, record: Map<Seq<char>, i32>) -> bool {
    forall|i: int, j: int|
        0 <= i < j < order.len() ==> record[#[trigger] order[i]] <= record[#[trigger] order[j]]
}

/// `order` holds each key of `record` once and nothing else.
pub open spec fn lists(order: Seq<Seq<char>>, record: Map<Seq<char>, i32>) -> bool {
    &&& forall|i: int, j: int| 0 <= i < j < order.len() ==> order[i] != order[j]
    &&& forall|i: int| 0 <= i < order.len() ==> record.contains_key(#[trigger] order[i])
    &&& forall|key: Seq<char>| #[trigger] record.contains_key(key) ==> order.contains(key)
}

/// No count of `record` is negative.
pub open spec fn counts_from_zero(record: Map<Seq<char>, i32>) -> bool {
    forall|key: Seq<char>| #[trigger] record.contains_key(key) ==> record[key] >= 0
}

/// How often each key was chosen. Contracts see it as a map from keys to
/// counts; no count is negative.
pub struct HistoryItems {
    keys: Vec<String>,
    counts: StringHashMap<i32>,
}

/// The views of `keys`, in order.
pub open spec fn key_views(keys: Seq<String>) -> Seq<Seq<char>> {
    keys.map_values(|key: String| key@)
}

impl View for HistoryItems {
    type V = Map<Seq<char>, i32>;

    closed spec fn view(&self) -> Map<Seq<char>, i32> {
        self.counts@
    }
}

impl HistoryItems {
    #[verifier::type_invariant]
    spec fn inv(self) -> bool {
        lists(key_views(self.keys@), self.counts@) && counts_from_zero(self.counts@)
    }

    /// The keys in the order in which they came into the record.
    pub closed spec fn order(&self) -> Seq<Seq<char>> {
        key_views(self.keys@)
    }

    /// A record of nothing.
    pub fn new() -> (r: Self)
        ensures
            r@ == Map::<Seq<char>, i32>::empty(),
    {
        HistoryItems { keys: Vec::new(), counts: StringHashMap::new() }
    }

    /// How many keys the record holds.
    pub fn len(&self) -> (r: usize)
        ensures
            r == self.order().len(),
            lists(self.order(), self@),
    {
        proof {
            use_type_invariant(self);
        }
        self.keys.len()
    }

    /// What the record holds for `key`.
    pub fn get(&self, key: &str) -> (r: Option<i32>)
        ensures
            r == if self@.contains_key(key@) {
                Some(self@[key@])
            } else {
                None
            },
            counts_from_zero(self@),
    {
        proof {
            use_type_invariant(self);
        }
        match self.counts.get(key) {
            Some(count) => Some(*count),
            None => None,
        }
    }

    /// How often `key` was chosen: 0 where the record does not hold it.
    pub fn count(&self, key: &str) -> (r: i32)
        ensures
            r == count_in(self@, key@),
            r >= 0,
    {
        match self.get(key) {
            Some(count) => count,
            None => 0,
        }
    }

    /// What `item` is ranked by.
    pub fn rank(&self, item: &str) -> (r: Ranked)
        ensures
            r@ == rank_of(self@, item@),
    {
        let count = self.count(item);
        Ranked { weight: -(count as i64), folded: item.to_ascii_lowercase(), text: item.to_owned() }
    }

    /// Makes `count` what the record holds for `key`.
    pub fn insert(&mut self, key: String, count: i32)
        requires
            count >= 0,
        ensures
            final(self)@ == old(self)@.insert(key@, count),
            counts_from_zero(final(self)@),
    {
        proof {
            use_type_invariant(&*self);
        }
        let mut taken = HistoryItems::new();
        core::mem::swap(self, &mut taken);
        let HistoryItems { mut keys, mut counts } = taken;
        let ghost old_keys = key_views(keys@);
        if !counts.contains_key(key.as_str()) {
            keys.push(key.clone());
            proof {
                assert(key_views(keys@) == old_keys.push(key@));
                assert forall|k: Seq<char>| #[trigger]
                    counts@.insert(key@, count).contains_key(k) implies key_views(keys@).contains(
                    k,
                ) by {
                    if k == key@ {
                        assert(key_views(keys@)[old_keys.len() as int] == k);
                    } else {
                        let i = choose|i: int| 0 <= i < old_keys.len() && old_keys[i] == k;
                        assert(key_views(keys@)[i] == k);
                    }
                }
            }
        }
        counts.insert(key, count);
        *self = HistoryItems { keys, counts };
    }
}

/// Once a line cannot be read, the lines after it change nothing: the
/// record of the whole is the error of its first part.
pub proof fn lemma_first_error_stands(lines: Seq<Seq<char>>, n: int)
    requires
        0 <= n <= lines.len(),
        history_of_lines(lines.take(n)) is Err,
    ensures
        history_of_lines(lines) == history_of_lines(lines.take(n)),
    decreases lines.len() - n,
{
    if n == lines.len() {
        assert(lines.take(n) == lines);
    } else {
        let longer = lines.take(n + 1);
        assert(longer.drop_last() == lines.take(n));
        lemma_first_error_stands(lines, n + 1);
    }
}

/// The place of the first `c` in `chars[from..to]`, or `to` where it holds
/// none.
fn find(chars: &Vec<char>, from: usize, to: usize, c: char) -> (at: usize)
    requires
        from <= to <= chars.len(),
    ensures
        from <= at <= to,
        at - from == index_of(chars@.subrange(from as int, to as int), c),
{
    let mut at: usize = from;
    while at < to && chars[at] != c
        invariant
            from <= at <= to <= chars.len(),
            forall|k: int| from <= k < at ==> chars@[k] != c,
        decreases to - at,
    {
        at += 1;
    }
    proof {
        lemma_index_of_is(chars@.subrange(from as int, to as int), c, at - from);
    }
    at
}

/// Reads the key and the count that the line `chars[from..to]` records.
fn parse_entry(chars: &Vec<char>, from: usize, to: usize) -> (r: Result<
    (String, i32),
    FormatErrorKind,
>)
    requires
        from <= to <= chars.len(),
    ensures
        match entry_of(chars@.subrange(from as int, to as int)) {
            Ok((key, count)) => r matches Ok(entry) && entry.0@ == key && entry.1 == count
                && count >= 0,
            Err(kind) => r == Err::<(String, i32), FormatErrorKind>(kind),
        },
{
    let ghost line = chars@.subrange(from as int, to as int);
    let colon = find(chars, from, to, ':');
    if colon == to {
        return Err(FormatErrorKind::MissingSeparator);
    }
    assert(line.take(colon - from) == chars@.subrange(from as int, colon as int));
    assert(line.skip(colon - from + 1) == chars@.subrange(colon as int + 1, to as int));
    match parse_count(chars, from, colon) {
        None => Err(FormatErrorKind::InvalidCount),
        Some(count) => Ok((string_of(chars, colon + 1, to), count)),
    }
}

/// The first line of what follows `pos` in `chars` is `chars[pos..stop]`,
/// and the lines after it are those of what follows `next`.
proof fn lemma_next_line(chars: Seq<char>, pos: int, end: int, stop: int, next: int)
    requires
        0 <= pos < chars.len(),
        pos <= end <= chars.len(),
        end - pos == index_of(chars.skip(pos), '\n'),
        stop == if end < chars.len() && end > pos && chars[end - 1] == '\r' {
            end - 1
        } else {
            end
        },
        next == if end < chars.len() {
            end + 1
        } else {
            end
        },
    ensures
        lines_of(chars.skip(pos)) == seq![chars.subrange(pos, stop)] + lines_of(chars.skip(next)),
{
    let rest = chars.skip(pos);
    if end < chars.len() {
        assert(rest.take(end - pos) == chars.subrange(pos, end));
        assert(rest.skip(end - pos + 1) == chars.skip(end + 1));
        assert(chars.subrange(pos, stop) == without_cr(rest.take(end - pos)));
    } else {
        assert(chars.subrange(pos, stop) == rest);
        assert(chars.skip(next).len() == 0);
        assert(seq![rest] + lines_of(chars.skip(next)) == seq![rest]);
    }
}

/// Reads the record that the text `content` keeps. Every line has to read
/// as `count:key`, where the count is a whole number from 0 to the largest
/// `i32` and the key is all that follows the first `:`. The first line
/// that does not read so is returned as the error, and no record with it.
pub fn parse_history_file(content: &str) -> (r: Result<HistoryItems, FormatError>)
    ensures
        match history_of(content@) {
            Ok(record) => r matches Ok(history_items) && history_items@ == record,
            Err(error) => r matches Err(e) && e@ == error,
        },
        r matches Ok(history_items) ==> counts_from_zero(history_items@),
{
    let chars = chars_of(content);
    let mut history_items = HistoryItems::new();
    let mut pos: usize = 0;
    let mut line_index: usize = 0;
    let ghost all = lines_of(content@);
    let ghost mut done: Seq<Seq<char>> = Seq::empty();
    proof {
        assert(chars@.skip(0) == chars@);
        assert(done + lines_of(chars@.skip(0)) == all);
    }
    while pos < chars.len()
        invariant
            pos <= chars.len(),
            line_index <= pos,
            line_index == done.len(),
            all == lines_of(content@),
            all == done + lines_of(chars@.skip(pos as int)),
            history_of_lines(done) == Ok::<Map<Seq<char>, i32>, FormatErrorView>(history_items@),
            counts_from_zero(history_items@),
        decreases chars.len() - pos,
    {
        assert(chars@.skip(pos as int) == chars@.subrange(pos as int, chars@.len() as int));
        let end = find(&chars, pos, chars.len(), '\n');
        let terminated = end < chars.len();
        let stop: usize = if terminated && end > pos && chars[end - 1] == '\r' {
            end - 1
        } else {
            end
        };
        let next: usize = if terminated { end + 1 } else { end };
        let ghost line = chars@.subrange(pos as int, stop as int);
        proof {
            lemma_next_line(chars@, pos as int, end as int, stop as int, next as int);
            assert(all == done.push(line) + lines_of(chars@.skip(next as int)));
            assert(all.take(done.len() as int + 1) == done.push(line));
            assert(done.push(line).drop_last() == done);
        }
        match parse_entry(&chars, pos, stop) {
            Err(kind) => {
                proof {
                    lemma_first_error_stands(all, done.len() as int + 1);
                }
                return Err(FormatError { line_index, line: string_of(&chars, pos, stop), kind });
            },
            Ok(entry) => {
                history_items.insert(entry.0, entry.1);
            },
        }
        proof {
            done = done.push(line);
        }
        pos = next;
        line_index += 1;
    }
    proof {
        assert(chars@.skip(pos as int).len() == 0);
        assert(all == done);
    }
    Ok(history_items)
}

/// Writes out `history_items` as the text that keeps it: one line
/// `count:key` for each key, the lines in rising order of their counts.
pub fn write_history_file(history_items: &HistoryItems) -> (r: String)
    ensures
        exists|order: Seq<Seq<char>>|
            lists(order, history_items@) && ascending(order, history_items@) && r@ == history_text(
                order,
                history_items@,
            ),
{
    proof {
        use_type_invariant(history_items);
    }
    let ghost record = history_items@;
    let ghost keys = key_views(history_items.keys@);
    let mut entries: Vec<Ranked> = Vec::new();
    let mut i: usize = 0;
    while i < history_items.keys.len()
        invariant
            i <= history_items.keys.len(),
            record == history_items.counts@,
            keys == key_views(history_items.keys@),
            lists(keys, record),
            entries@.len() == i,
            forall|k: int|
                0 <= k < i ==> (#[trigger] entries@[k])@ == (RankedView {
                    weight: record[keys[k]] as i64,
                    folded: Seq::empty(),
                    text: keys[k],
                }),
        decreases history_items.keys.len() - i,
    {
        let key = &history_items.keys[i];
        assert(key@ == keys[i as int]);
        let count = match history_items.counts.get(key.as_str()) {
            Some(count) => *count,
            None => 0,
        };
        entries.push(Ranked { weight: count as i64, folded: String::new(), text: key.clone() });
        i += 1;
    }
    let ghost before = ranked_views(entries@);
    sort_ranked(&mut entries);
    let ghost after = ranked_views(entries@);
    let ghost places = choose|places: Seq<int>| arranges(places, after, before);
    let ghost order = Seq::new(after.len(), |k: int| after[k].text);
    proof {
        assert forall|k: int| 0 <= k < after.len() implies #[trigger] order[k] == keys[places[k]]
            && after[k].weight == record[order[k]] && after[k].folded.len() == 0 by {
            assert(after[k] == before[places[k]]);
        }
        assert forall|key: Seq<char>| #[trigger] record.contains_key(key) implies order.contains(
            key,
        ) by {
            let at = choose|at: int| 0 <= at < keys.len() && keys[at] == key;
            assert(places.contains(at));
            let k = choose|k: int| 0 <= k < places.len() && places[k] == at;
            assert(order[k] == key);
        }
        assert forall|a: int, b: int| 0 <= a < b < order.len() implies record[#[trigger] order[a]]
            <= record[#[trigger] order[b]] by {
            assert(after[a].weight <= after[b].weight);
        }
    }
    let mut content = String::new();
    let mut j: usize = 0;
    assert(order.take(0) == Seq::<Seq<char>>::empty());
    while j < entries.len()
        invariant
            j <= entries.len(),
            order.len() == entries@.len(),
            counts_from_zero(record),
            forall|k: int|
                0 <= k < order.len() ==> (#[trigger] entries@[k]).text@ == order[k]
                    && entries@[k].weight == record[order[k]] && record.contains_key(order[k]),
            content@ == history_text(order.take(j as int), record),
        decreases entries.len() - j,
    {
        let entry = &entries[j];
        proof {
            let longer = order.take(j as int + 1);
            assert(longer.drop_last() == order.take(j as int));
            assert(longer.last() == order[j as int]);
            assert(entry.weight >= 0);
        }
        push_decimal(&mut content, entry.weight as u64);
        content.push(':');
        content.append(entry.text.as_str());
        content.push('\n');
        j += 1;
    }
    assert(order.take(j as int) == order);
    content
}

/// Counts one more choice of `entry`: a key that the record did not hold
/// gets the count 1.
pub fn update(history_items: &mut HistoryItems, entry: String)
    requires
        count_in(old(history_items)@, entry@) < i32::MAX,
    ensures
        final(history_items)@ == old(history_items)@.insert(
            entry@,
            (count_in(old(history_items)@, entry@) + 1) as i32,
        ),
        counts_from_zero(final(history_items)@),
{
    let n = match history_items.get(entry.as_str()) {
        Some(n) => n + 1,
        None => 1,
    };
    history_items.insert(entry, n);
}

} // verus!
