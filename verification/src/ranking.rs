//! The order in which ranked entries stand: lighter entries first, and
//! among entries of one weight those whose folded text comes first.

use std::cmp::Ordering;
use vstd::prelude::*;
use vstd::std_specs::iter::IteratorSpec;
use crate::history::{rank_of, HistoryItems};
use crate::text::text_views;

verus! {

/// `a` comes before `b` when both are compared character by character:
/// at the first place where they differ `a` holds the smaller character,
/// or `a` ends there and `b` goes on.
pub open spec fn text_less(a: Seq<char>, b: Seq<char>) -> bool
    decreases a.len(),
{
    if b.len() == 0 {
        false
    } else if a.len() == 0 {
        true
    } else if a[0] == b[0] {
        text_less(a.drop_first(), b.drop_first())
    } else {
        a[0] < b[0]
    }
}

/// Texts that agree in their first `n` characters compare as what follows
/// those characters.
pub proof fn lemma_text_less_skips_common_prefix(a: Seq<char>, b: Seq<char>, n: int)
    requires
        0 <= n <= a.len(),
        n <= b.len(),
        a.take(n) == b.take(n),
    ensures
        text_less(a, b) == text_less(a.skip(n), b.skip(n)),
    decreases n,
{
    if n == 0 {
        assert(a.skip(0) == a);
        assert(b.skip(0) == b);
    } else {
        assert(a[0] == a.take(n)[0]);
        assert(b[0] == b.take(n)[0]);
        let x = a.drop_first();
        let y = b.drop_first();
        let front_x = x.take(n - 1);
        let front_y = y.take(n - 1);
        assert(front_x == front_y) by {
            assert forall|k: int| 0 <= k < n - 1 implies #[trigger] front_x[k] == front_y[k] by {
                assert(front_x[k] == a.take(n)[k + 1]);
                assert(front_y[k] == b.take(n)[k + 1]);
            }
        }
        lemma_text_less_skips_common_prefix(x, y, n - 1);
        assert(x.skip(n - 1) == a.skip(n));
        assert(y.skip(n - 1) == b.skip(n));
    }
}

/// No text comes before itself.
pub proof fn lemma_text_less_irreflexive(a: Seq<char>)
    ensures
        !text_less(a, a),
    decreases a.len(),
{
    if a.len() > 0 {
        lemma_text_less_irreflexive(a.drop_first());
    }
}

/// Of two different texts one comes before the other.
pub proof fn lemma_text_less_total(a: Seq<char>, b: Seq<char>)
    ensures
        text_less(a, b) || text_less(b, a) || a == b,
        !(text_less(a, b) && text_less(b, a)),
    decreases a.len(),
{
    if a.len() > 0 && b.len() > 0 && a[0] == b[0] {
        lemma_text_less_total(a.drop_first(), b.drop_first());
        if a.drop_first() == b.drop_first() {
            assert(a == seq![a[0]] + a.drop_first());
            assert(b == seq![b[0]] + b.drop_first());
        }
    } else if a.len() == 0 && b.len() == 0 {
        assert(a == b);
    }
}

/// What comes before a text that comes before a third comes before the
/// third.
pub proof fn lemma_text_less_transitive(a: Seq<char>, b: Seq<char>, c: Seq<char>)
    requires
        text_less(a, b),
        text_less(b, c),
    ensures
        text_less(a, c),
    decreases a.len(),
{
    if a.len() > 0 && a[0] == b[0] && b[0] == c[0] {
        lemma_text_less_transitive(a.drop_first(), b.drop_first(), c.drop_first());
    }
}

/// Compares two texts character by character.
pub fn compare_text(a: &str, b: &str) -> (o: Ordering)
    ensures
        o == Ordering::Less <==> text_less(a@, b@),
        o == Ordering::Greater <==> text_less(b@, a@),
        o == Ordering::Equal <==> a@ == b@,
{
    let mut other = b.chars();
    let ghost mut n: int = 0;
    proof {
        lemma_text_less_total(a@, b@);
        lemma_text_less_irreflexive(a@);
    }
    for x in it: a.chars()
        invariant
            n == it.index(),
            it.seq() == a@,
            n <= b@.len(),
            a@.take(n) == b@.take(n),
            other.remaining() == b@.skip(n),
            text_less(a@, b@) || text_less(b@, a@) || a@ == b@,
            !(text_less(a@, b@) && text_less(b@, a@)),
            !text_less(a@, a@),
    {
        proof {
            lemma_text_less_skips_common_prefix(a@, b@, n);
            lemma_text_less_skips_common_prefix(b@, a@, n);
        }
        match other.next() {
            None => {
                return Ordering::Greater;
            },
            Some(y) => {
                assert(a@.skip(n)[0] == x);
                assert(b@.skip(n)[0] == y);
                if x < y {
                    return Ordering::Less;
                } else if x > y {
                    return Ordering::Greater;
                }
            },
        }
        proof {
            assert(a@.take(n + 1) == a@.take(n).push(a@[n]));
            assert(b@.take(n + 1) == b@.take(n).push(b@[n]));
            n = n + 1;
        }
    }
    proof {
        lemma_text_less_skips_common_prefix(a@, b@, n);
        lemma_text_less_skips_common_prefix(b@, a@, n);
        assert(a@.take(n) == a@);
    }
    match other.next() {
        None => {
            assert(b@.take(n) == b@);
            Ordering::Equal
        },
        Some(_) => Ordering::Less,
    }
}

/// An entry to be put in order: it is ordered by `weight` first and by
/// `folded` second, and carries `text` along.
#[derive(Clone, Debug, PartialEq, Eq)]
pub struct Ranked {
    pub weight: i64,
    pub folded: String,
    pub text: String,
}

/// A [`Ranked`] entry as contracts see it.
pub ghost struct RankedView {
    pub weight: i64,
    pub folded: Seq<char>,
    pub text: Seq<char>,
}

impl View for Ranked {
    type V = RankedView;

    open spec fn view(&self) -> RankedView {
        RankedView { weight: self.weight, folded: self.folded@, text: self.text@ }
    }
}

/// The views of `entries`, in order.
pub open spec fn ranked_views(entries: Seq<Ranked>) -> Seq<RankedView> {
    entries.map_values(|entry: Ranked| entry@)
}

/// `a` stands before `b`: it is lighter, or as heavy with a folded text
/// that comes first.
pub open spec fn precedes(a: RankedView, b: RankedView) -> bool {
    a.weight < b.weight || (a.weight == b.weight && text_less(a.folded, b.folded))
}

/// Neither of `a` and `b` has to stand before the other.
pub open spec fn same_rank(a: RankedView, b: RankedView) -> bool {
    a.weight == b.weight && a.folded == b.folded
}

/// The order of ranked entries is total: of two entries exactly one of
/// three things holds, the first stands before the second, the second
/// before the first, or they are of the same rank.
pub proof fn lemma_rank_total(a: RankedView, b: RankedView)
    ensures
        precedes(a, b) || precedes(b, a) || same_rank(a, b),
        !(precedes(a, b) && precedes(b, a)),
        !(precedes(a, b) && same_rank(a, b)),
        !(precedes(b, a) && same_rank(a, b)),
{
    lemma_text_less_total(a.folded, b.folded);
    lemma_text_less_irreflexive(a.folded);
}

/// The order of ranked entries is transitive, and entries of the same rank
/// stand alike towards every third entry.
pub proof fn lemma_rank_transitive(a: RankedView, b: RankedView, c: RankedView)
    ensures
        precedes(a, b) && precedes(b, c) ==> precedes(a, c),
        same_rank(a, b) && same_rank(b, c) ==> same_rank(a, c),
        same_rank(a, b) ==> (precedes(a, c) <==> precedes(b, c)),
        same_rank(a, b) ==> (precedes(c, a) <==> precedes(c, b)),
{
    if text_less(a.folded, b.folded) && text_less(b.folded, c.folded) {
        lemma_text_less_transitive(a.folded, b.folded, c.folded);
    }
}

/// Says which of two entries stands first.
pub fn compare(a: &Ranked, b: &Ranked) -> (o: Ordering)
    ensures
        o == Ordering::Less <==> precedes(a@, b@),
        o == Ordering::Greater <==> precedes(b@, a@),
        o == Ordering::Equal <==> same_rank(a@, b@),
{
    proof {
        lemma_rank_total(a@, b@);
    }
    if a.weight < b.weight {
        Ordering::Less
    } else if a.weight > b.weight {
        Ordering::Greater
    } else {
        compare_text(a.folded.as_str(), b.folded.as_str())
    }
}

/// `places` says where each entry of `after` stood in `before`: `after`
/// holds the entries of `before`, each once, in an order in which no entry
/// stands behind one that it precedes, and entries of the same rank stand
/// as they stood in `before`.
pub open spec fn arranges(
    places: Seq<int>,
    after: Seq<RankedView>,
    before: Seq<RankedView>,
) -> bool {
    &&& places.len() == before.len()
    &&& after.len() == before.len()
    &&& forall|i: int| 0 <= i < places.len() ==> 0 <= #[trigger] places[i] < before.len()
    &&& forall|i: int, j: int|
        0 <= i < j < places.len() ==> #[trigger] places[i] != #[trigger] places[j]
    &&& forall|k: int| 0 <= k < before.len() ==> #[trigger] places.contains(k)
    &&& forall|i: int| 0 <= i < places.len() ==> after[i] == before[#[trigger] places[i]]
    &&& forall|i: int, j: int|
        0 <= i < j < after.len() ==> !precedes(#[trigger] after[j], #[trigger] after[i])
    &&& forall|i: int, j: int|
        0 <= i < j < after.len() && same_rank(after[i], after[j]) ==> #[trigger] places[i]
            < #[trigger] places[j]
}

/// `after` is `before` put in order without changing how entries of the
/// same rank stand to each other.
pub open spec fn is_stable_sort_of(after: Seq<RankedView>, before: Seq<RankedView>) -> bool {
    exists|places: Seq<int>| arranges(places, after, before)
}

/// The entry at place `x` of `before` has to stand before the entry at
/// place `y` in every stable order: it precedes it, or is of the same rank
/// and stands first.
pub open spec fn stands_first(before: Seq<RankedView>, x: int, y: int) -> bool {
    precedes(before[x], before[y]) || (same_rank(before[x], before[y]) && x < y)
}

/// Along `places` each entry has to stand before the ones behind it.
proof fn lemma_places_rise(
    places: Seq<int>,
    after: Seq<RankedView>,
    before: Seq<RankedView>,
    i: int,
    j: int,
)
    requires
        arranges(places, after, before),
        0 <= i < j < places.len(),
    ensures
        stands_first(before, places[i], places[j]),
{
    assert(after[i] == before[places[i]]);
    assert(after[j] == before[places[j]]);
    assert(!precedes(after[j], after[i]));
    lemma_rank_total(after[i], after[j]);
}

/// Two stable orders of the same entries agree up to any place.
proof fn lemma_stable_orders_agree(
    first: Seq<int>,
    first_after: Seq<RankedView>,
    second: Seq<int>,
    second_after: Seq<RankedView>,
    before: Seq<RankedView>,
    n: int,
)
    requires
        arranges(first, first_after, before),
        arranges(second, second_after, before),
        0 <= n <= before.len(),
    ensures
        forall|k: int| 0 <= k < n ==> first[k] == second[k],
    decreases n,
{
    if n > 0 {
        lemma_stable_orders_agree(first, first_after, second, second_after, before, n - 1);
        let i = n - 1;
        let x = first[i];
        let y = second[i];
        if x != y {
            assert(second.contains(x));
            let j = choose|j: int| 0 <= j < second.len() && second[j] == x;
            if j < i {
                assert(first[j] == x);
            }
            lemma_places_rise(second, second_after, before, i, j);
            assert(first.contains(y));
            let k = choose|k: int| 0 <= k < first.len() && first[k] == y;
            if k < i {
                assert(second[k] == y);
            }
            lemma_places_rise(first, first_after, before, i, k);
            lemma_rank_total(before[x], before[y]);
        }
    }
}

/// A stable sort has one result: two sequences that are both `before` put
/// in order, with entries of the same rank left as they stood, are the
/// same sequence.
pub proof fn lemma_stable_sort_is_unique(
    one: Seq<RankedView>,
    other: Seq<RankedView>,
    before: Seq<RankedView>,
)
    requires
        is_stable_sort_of(one, before),
        is_stable_sort_of(other, before),
    ensures
        one == other,
{
    let first = choose|places: Seq<int>| arranges(places, one, before);
    let second = choose|places: Seq<int>| arranges(places, other, before);
    lemma_stable_orders_agree(first, one, second, other, before, before.len() as int);
    assert forall|k: int| 0 <= k < one.len() implies one[k] == other[k] by {
        assert(one[k] == before[first[k]]);
        assert(other[k] == before[second[k]]);
    }
}

/// `sort_by` of std on a slice, with [`compare`] as the comparison. Its
/// documentation promises a sort that keeps the order of elements that
/// compare as equal: the slice afterwards holds the elements it held
/// before, ordered by the comparison. [`lemma_rank_total`] and
/// [`lemma_rank_transitive`] show that the comparison is a total order, as
/// `sort_by` asks.
#[verifier::external_body]
pub(crate) fn sort_ranked(entries: &mut Vec<Ranked>)
    ensures
        is_stable_sort_of(ranked_views(final(entries)@), ranked_views(old(entries)@)),
{
    entries.sort_by(|a, b| compare(a, b));
}

/// The ranks of `items` under `record`, in order.
pub open spec fn ranks(record: Map<Seq<char>, i32>, items: Seq<Seq<char>>) -> Seq<RankedView> {
    items.map_values(|item: Seq<char>| rank_of(record, item))
}

/// Puts `items` in the order of their use: an item that was chosen more
/// often stands before one that was chosen less often, and an item that
/// was never chosen counts as chosen 0 times. Items chosen equally often
/// stand by their text, letter case aside, and items that are alike in
/// both keep the order in which they came.
pub fn sort(history_items: &HistoryItems, items: &mut Vec<String>)
    ensures
        is_stable_sort_of(
            ranks(history_items@, text_views(final(items)@)),
            ranks(history_items@, text_views(old(items)@)),
        ),
{
    let ghost record = history_items@;
    let ghost before = ranks(record, text_views(items@));
    let mut entries: Vec<Ranked> = Vec::new();
    let mut i: usize = 0;
    while i < items.len()
        invariant
            i <= items.len(),
            record == history_items@,
            before == ranks(record, text_views(items@)),
            entries@.len() == i,
            forall|k: int| 0 <= k < i ==> (#[trigger] entries@[k])@ == before[k],
        decreases items.len() - i,
    {
        entries.push(history_items.rank(items[i].as_str()));
        i += 1;
    }
    assert(ranked_views(entries@) == before);
    sort_ranked(&mut entries);
    let ghost after = ranked_views(entries@);
    let ghost places = choose|places: Seq<int>| arranges(places, after, before);
    let mut sorted: Vec<String> = Vec::new();
    let mut j: usize = 0;
    while j < entries.len()
        invariant
            j <= entries.len(),
            sorted@.len() == j,
            after == ranked_views(entries@),
            forall|k: int| 0 <= k < j ==> (#[trigger] sorted@[k])@ == after[k].text,
        decreases entries.len() - j,
    {
        sorted.push(entries[j].text.clone());
        j += 1;
    }
    *items = sorted;
    proof {
        let result = ranks(record, text_views(items@));
        assert(result.len() == after.len());
        assert forall|k: int| 0 <= k < result.len() implies result[k] == after[k] by {
            assert(after[k] == before[places[k]]);
        }
        assert(result == after);
    }
}

} // verus!
