//! What holds of a history that is written out and read again.

use vstd::prelude::*;
use crate::decimal::{
    decimal_digits, is_digit, lemma_count_round_trip, lemma_decimal_round_trip,
};
use crate::history::{
    counts_from_zero, entry_line, entry_of, history_of, history_of_lines, history_text, lines_of,
    lists, without_cr, FormatErrorKind, FormatErrorView,
};
use crate::text::{index_of, lemma_index_of, lemma_index_of_is};

verus! {

/// A key that a line can hold and give back: it holds no line feed and
/// does not end in a carriage return.
pub open spec fn storable(key: Seq<char>) -> bool {
    !key.contains('\n') && !(key.len() > 0 && key.last() == '\r')
}

/// `text` is empty or ends in a line feed.
pub open spec fn ends_lines(text: Seq<char>) -> bool {
    text.len() == 0 || text.last() == '\n'
}

/// The line `count:key`, without a line feed.
pub open spec fn entry_body(key: Seq<char>, count: i32) -> Seq<char> {
    decimal_digits(count as nat) + seq![':'] + key
}

/// The lines `count:key` for the keys of `order`.
pub open spec fn entry_bodies(order: Seq<Seq<char>>, record: Map<Seq<char>, i32>) -> Seq<
    Seq<char>,
> {
    Seq::new(order.len(), |i: int| entry_body(order[i], record[order[i]]))
}

/// What `record` holds for the keys of `order`, and nothing else.
pub open spec fn record_of(order: Seq<Seq<char>>, record: Map<Seq<char>, i32>) -> Map<
    Seq<char>,
    i32,
> {
    Map::new(|key: Seq<char>| order.contains(key), |key: Seq<char>| record[key])
}

/// A text that starts with a line and its line feed has that line first and
/// then the lines of the rest.
proof fn lemma_lines_of_first(body: Seq<char>, rest: Seq<char>)
    requires
        !body.contains('\n'),
    ensures
        lines_of(body + seq!['\n'] + rest) == seq![without_cr(body)] + lines_of(rest),
{
    let text = body + seq!['\n'] + rest;
    assert forall|k: int| 0 <= k < body.len() implies text[k] != '\n' by {
        assert(text[k] == body[k]);
        assert(body.contains(body[k]));
    }
    assert(text[body.len() as int] == '\n');
    lemma_index_of_is(text, '\n', body.len() as int);
    assert(text.take(body.len() as int) == body);
    assert(text.skip(body.len() as int + 1) == rest);
}

/// The lines of two texts, the first of which ends its last line, are the
/// lines of the first and then the lines of the second.
proof fn lemma_lines_of_concat(first: Seq<char>, second: Seq<char>)
    requires
        ends_lines(first),
    ensures
        lines_of(first + second) == lines_of(first) + lines_of(second),
    decreases first.len(),
{
    if first.len() == 0 {
        assert(first + second == second);
        assert(lines_of(first) + lines_of(second) == lines_of(second));
    } else {
        lemma_index_of(first, '\n');
        let end = index_of(first, '\n');
        if end == first.len() {
            assert(first[first.len() - 1] != '\n');
        }
        let body = first.take(end);
        let rest = first.skip(end + 1);
        assert(first == body + seq!['\n'] + rest);
        assert(first + second == body + seq!['\n'] + (rest + second));
        assert(!body.contains('\n')) by {
            if body.contains('\n') {
                let k = choose|k: int| 0 <= k < body.len() && body[k] == '\n';
                assert(first[k] == '\n');
            }
        }
        if rest.len() > 0 {
            assert(rest.last() == first.last());
        }
        lemma_lines_of_first(body, rest + second);
        lemma_lines_of_first(body, rest);
        lemma_lines_of_concat(rest, second);
        assert(seq![without_cr(body)] + (lines_of(rest) + lines_of(second)) == (seq![
            without_cr(body),
        ] + lines_of(rest)) + lines_of(second));
    }
}

/// No line of a text holds a line feed.
pub proof fn lemma_lines_hold_no_line_feed(content: Seq<char>)
    ensures
        forall|i: int|
            0 <= i < lines_of(content).len() ==> !(#[trigger] lines_of(content)[i]).contains('\n'),
    decreases content.len(),
{
    if content.len() > 0 {
        lemma_index_of(content, '\n');
        let end = index_of(content, '\n');
        if end < content.len() {
            let raw = content.take(end);
            let first = without_cr(raw);
            let rest = content.skip(end + 1);
            lemma_lines_hold_no_line_feed(rest);
            assert(!first.contains('\n')) by {
                if first.contains('\n') {
                    let k = choose|k: int| 0 <= k < first.len() && first[k] == '\n';
                    assert(content[k] == '\n');
                }
            }
            let all = lines_of(content);
            assert forall|i: int| 0 <= i < all.len() implies !(#[trigger] all[i]).contains(
                '\n',
            ) by {
                if i > 0 {
                    assert(all[i] == lines_of(rest)[i - 1]);
                }
            }
        } else {
            assert(!content.contains('\n')) by {
                if content.contains('\n') {
                    let k = choose|k: int| 0 <= k < content.len() && content[k] == '\n';
                }
            }
        }
    }
}

/// The digits of a count hold neither a colon nor a line feed.
proof fn lemma_digits_are_plain(count: i32)
    requires
        count >= 0,
    ensures
        !decimal_digits(count as nat).contains(':'),
        !decimal_digits(count as nat).contains('\n'),
        decimal_digits(count as nat).len() > 0,
{
    lemma_decimal_round_trip(count as nat);
    let digits = decimal_digits(count as nat);
    if digits.contains(':') {
        let k = choose|k: int| 0 <= k < digits.len() && digits[k] == ':';
        assert(is_digit(digits[k]));
    }
    if digits.contains('\n') {
        let k = choose|k: int| 0 <= k < digits.len() && digits[k] == '\n';
        assert(is_digit(digits[k]));
    }
}

/// The line written for a key and a count reads as that key and that
/// count.
pub proof fn lemma_entry_round_trip(key: Seq<char>, count: i32)
    requires
        count >= 0,
    ensures
        entry_of(entry_body(key, count)) == Ok::<(Seq<char>, i32), FormatErrorKind>((key, count)),
{
    let digits = decimal_digits(count as nat);
    let line = entry_body(key, count);
    lemma_digits_are_plain(count);
    lemma_count_round_trip(count);
    assert forall|k: int| 0 <= k < digits.len() implies line[k] != ':' by {
        assert(line[k] == digits[k]);
        assert(digits.contains(digits[k]));
    }
    assert(line[digits.len() as int] == ':');
    lemma_index_of_is(line, ':', digits.len() as int);
    assert(line.take(digits.len() as int) == digits);
    assert(line.skip(digits.len() as int + 1) == key);
}

/// The text written for `order` has the lines `count:key` of its keys.
proof fn lemma_lines_of_history_text(order: Seq<Seq<char>>, record: Map<Seq<char>, i32>)
    requires
        forall|i: int|
            0 <= i < order.len() ==> record.contains_key(#[trigger] order[i]) && storable(order[i]),
        counts_from_zero(record),
    ensures
        lines_of(history_text(order, record)) == entry_bodies(order, record),
        ends_lines(history_text(order, record)),
    decreases order.len(),
{
    if order.len() == 0 {
        assert(lines_of(history_text(order, record)) == entry_bodies(order, record));
    } else {
        let front = order.drop_last();
        let key = order.last();
        let count = record[key];
        assert(record.contains_key(key) && storable(key));
        assert forall|i: int| 0 <= i < front.len() implies record.contains_key(#[trigger] front[i])
            && storable(front[i]) by {
            assert(front[i] == order[i]);
        }
        lemma_lines_of_history_text(front, record);
        let body = entry_body(key, count);
        let digits = decimal_digits(count as nat);
        lemma_digits_are_plain(count);
        assert(!body.contains('\n')) by {
            if body.contains('\n') {
                let k = choose|k: int| 0 <= k < body.len() && body[k] == '\n';
                if k < digits.len() {
                    assert(digits.contains(digits[k]));
                } else if k > digits.len() {
                    assert(key[k - digits.len() - 1] == '\n');
                    assert(key.contains('\n'));
                }
            }
        }
        assert(without_cr(body) == body) by {
            if key.len() > 0 {
                assert(body.last() == key.last());
            } else {
                assert(body.last() == ':');
            }
        }
        let empty = Seq::<char>::empty();
        lemma_lines_of_first(body, empty);
        assert(body + seq!['\n'] + empty == entry_line(key, count));
        assert(lines_of(empty) == Seq::<Seq<char>>::empty());
        assert(lines_of(entry_line(key, count)) == seq![body]);
        lemma_lines_of_concat(history_text(front, record), entry_line(key, count));
        assert(entry_bodies(front, record) + seq![body] == entry_bodies(order, record));
        assert(history_text(order, record).last() == '\n');
    }
}

/// The lines `count:key` of `order` read as what the record holds for the
/// keys of `order`.
proof fn lemma_history_of_entry_bodies(order: Seq<Seq<char>>, record: Map<Seq<char>, i32>)
    requires
        forall|i: int| 0 <= i < order.len() ==> record.contains_key(#[trigger] order[i]),
        counts_from_zero(record),
    ensures
        history_of_lines(entry_bodies(order, record)) == Ok::<_, FormatErrorView>(
            record_of(order, record),
        ),
    decreases order.len(),
{
    let lines = entry_bodies(order, record);
    if order.len() == 0 {
        assert(record_of(order, record) == Map::<Seq<char>, i32>::empty());
    } else {
        let front = order.drop_last();
        let key = order.last();
        assert(record.contains_key(key));
        assert forall|i: int| 0 <= i < front.len() implies record.contains_key(
            #[trigger] front[i],
        ) by {
            assert(front[i] == order[i]);
        }
        lemma_history_of_entry_bodies(front, record);
        assert(lines.drop_last() == entry_bodies(front, record));
        assert(lines.last() == entry_body(key, record[key]));
        lemma_entry_round_trip(key, record[key]);
        let earlier = record_of(front, record);
        assert(earlier.insert(key, record[key]) == record_of(order, record)) by {
            assert forall|k: Seq<char>| order.contains(k) <==> (front.contains(k) || k == key) by {
                if order.contains(k) {
                    let i = choose|i: int| 0 <= i < order.len() && order[i] == k;
                    if i < front.len() {
                        assert(front[i] == k);
                    }
                }
                if front.contains(k) {
                    let i = choose|i: int| 0 <= i < front.len() && front[i] == k;
                    assert(order[i] == k);
                }
                if k == key {
                    assert(order[order.len() - 1] == k);
                }
            }
        }
    }
}

/// A record that is written out reads back as itself: the text that
/// [`history_text`] gives for a record, with its keys in any order, is
/// read by [`history_of`] as that record. The keys have to be such as a
/// line can hold.
pub proof fn lemma_history_round_trip(order: Seq<Seq<char>>, record: Map<Seq<char>, i32>)
    requires
        lists(order, record),
        counts_from_zero(record),
        forall|key: Seq<char>| #[trigger] record.contains_key(key) ==> storable(key),
    ensures
        history_of(history_text(order, record)) == Ok::<_, FormatErrorView>(record),
{
    lemma_lines_of_history_text(order, record);
    lemma_history_of_entry_bodies(order, record);
    assert(record_of(order, record) == record);
}

/// What lines without line feeds record has counts from zero on and keys
/// without line feeds.
proof fn lemma_history_of_lines_is_plain(lines: Seq<Seq<char>>)
    requires
        forall|i: int| 0 <= i < lines.len() ==> !(#[trigger] lines[i]).contains('\n'),
    ensures
        history_of_lines(lines) matches Ok(record) ==> counts_from_zero(record) && forall|
            key: Seq<char>,
        | #[trigger] record.contains_key(key) ==> !key.contains('\n'),
    decreases lines.len(),
{
    if lines.len() > 0 {
        let front = lines.drop_last();
        let line = lines.last();
        assert forall|i: int| 0 <= i < front.len() implies !(#[trigger] front[i]).contains(
            '\n',
        ) by {
            assert(front[i] == lines[i]);
        }
        lemma_history_of_lines_is_plain(front);
        if let Ok(earlier) = history_of_lines(front) {
            if let Ok((key, count)) = entry_of(line) {
                let at = index_of(line, ':');
                assert(!key.contains('\n')) by {
                    if key.contains('\n') {
                        let k = choose|k: int| 0 <= k < key.len() && key[k] == '\n';
                        assert(line[k + at + 1] == '\n');
                        assert(line.contains('\n'));
                    }
                }
            }
        }
    }
}

/// What a text records has counts from zero on and keys without line
/// feeds.
pub proof fn lemma_history_of_is_plain(content: Seq<char>)
    ensures
        history_of(content) matches Ok(record) ==> counts_from_zero(record) && forall|
            key: Seq<char>,
        | #[trigger] record.contains_key(key) ==> !key.contains('\n'),
{
    lemma_lines_hold_no_line_feed(content);
    lemma_history_of_lines_is_plain(lines_of(content));
}

/// Reading a history, writing it out and reading it again gives what the
/// first reading gave: for a text that reads as a record, the text that
/// [`history_text`] writes for that record, with the keys in any order
/// `order`, reads as the same record. This holds where no key that was read
/// ends in a carriage return; a line feed behind such a key would take the
/// carriage return with it as part of the line's end.
pub proof fn lemma_load_save_load(content: Seq<char>, order: Seq<Seq<char>>)
    requires
        history_of(content) matches Ok(record) && lists(order, record) && forall|key: Seq<char>|
            #[trigger] record.contains_key(key) ==> !(key.len() > 0 && key.last() == '\r'),
    ensures
        history_of(content) matches Ok(record) && history_of(history_text(order, record))
            == history_of(content),
{
    lemma_history_of_is_plain(content);
    let record = history_of(content)->Ok_0;
    lemma_history_round_trip(order, record);
}

} // verus!
