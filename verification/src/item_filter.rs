//! Whether the text typed so far matches an item's key. Both ways of
//! matching ignore ASCII letter case, and both accept the empty query.

use vstd::prelude::*;
use vstd::std_specs::iter::IteratorSpec;
use crate::text::{ascii_lower, fold_case, has_substring, str_contains};

verus! {

/// `places` names, for each character of `query` in turn, a position of
/// `key` that holds the same character but for letter case, each position
/// further right than the one before.
pub open spec fn is_embedding(places: Seq<int>, query: Seq<char>, key: Seq<char>) -> bool {
    &&& places.len() == query.len()
    &&& forall|i: int| 0 <= i < places.len() ==> 0 <= #[trigger] places[i] < key.len()
    &&& forall|i: int, j: int| 0 <= i < j < places.len() ==> places[i] < places[j]
    &&& forall|i: int|
        0 <= i < places.len() ==> ascii_lower(query[i]) == ascii_lower(key[#[trigger] places[i]])
}

/// The key contains the query as a contiguous run of characters, letter
/// case aside.
pub open spec fn contains_match(query: Seq<char>, key: Seq<char>) -> bool {
    has_substring(fold_case(key), fold_case(query))
}

/// The characters of the query occur in the key in the same order, not
/// necessarily next to each other, letter case aside.
pub open spec fn subsequence_match(query: Seq<char>, key: Seq<char>) -> bool {
    exists|places: Seq<int>| is_embedding(places, query, key)
}

/// The ways of matching that a caller can ask for.
#[derive(Clone, Copy, Debug, PartialEq, Eq, Structural)]
pub enum ItemFilters {
    Contains,
    Substring,
}

/// A way of deciding whether a query matches a key.
pub trait ItemFilter {
    /// What `filter` decides.
    spec fn matches(&self, filter: Seq<char>, item: Seq<char>) -> bool;

    /// Whether `filter`, the text typed so far, matches the key `item`.
    fn filter(&self, filter: &str, item: &str) -> (r: bool)
        ensures
            r == self.matches(filter@, item@),
    ;
}

/// Matches when the key contains the query.
pub struct ContainsFilter {}

impl ItemFilter for ContainsFilter {
    open spec fn matches(&self, filter: Seq<char>, item: Seq<char>) -> bool {
        contains_match(filter, item)
    }

    fn filter(&self, filter: &str, item: &str) -> (r: bool) {
        let key = item.to_ascii_lowercase();
        let query = filter.to_ascii_lowercase();
        str_contains(key.as_str(), query.as_str())
    }
}

/// Matches when the characters of the query occur in the key in order.
pub struct SubstringFilter {}

impl ItemFilter for SubstringFilter {
    open spec fn matches(&self, filter: Seq<char>, item: Seq<char>) -> bool {
        subsequence_match(filter, item)
    }

    fn filter(&self, filter: &str, item: &str) -> (r: bool) {
        let mut wanted = filter.chars();
        let mut pending = wanted.next();
        let ghost mut done: int = 0;
        let ghost mut places: Seq<int> = Seq::empty();
        let ghost mut seen: Seq<char> = Seq::empty();
        proof {
            assert forall|other: Seq<int>, n: int|
                0 <= n <= filter@.len() && #[trigger] is_embedding(
                    other,
                    filter@.take(n),
                    seen,
                ) implies n <= 0 by {
                if n > 0 {
                    assert(0 <= other[0] < seen.len());
                }
            }
            assert(filter@.take(filter@.len() as int) == filter@);
        }
        if pending.is_none() {
            assert(is_embedding(places, filter@, item@));
            return true;
        }
        for b in it: item.chars()
            invariant
                it.seq() == item@,
                seen == item@.take(it.index() as int),
                0 <= done < filter@.len(),
                pending == Some(filter@[done]),
                wanted.remaining() == filter@.skip(done + 1),
                is_embedding(places, filter@.take(done), seen),
                forall|other: Seq<int>, n: int|
                    0 <= n <= filter@.len() && #[trigger] is_embedding(other, filter@.take(n), seen)
                        ==> n <= done,
                filter@.take(filter@.len() as int) == filter@,
        {
            let ghost earlier = seen;
            proof {
                seen = seen.push(b);
            }
            if let Some(a) = pending {
                if a.to_ascii_lowercase() == b.to_ascii_lowercase() {
                    pending = wanted.next();
                    proof {
                        places = places.push(it.index() as int);
                        done = done + 1;
                    }
                    if pending.is_none() {
                        assert(is_embedding(places, filter@, item@));
                        return true;
                    }
                }
            }
            proof {
                assert forall|other: Seq<int>, n: int|
                    0 <= n <= filter@.len() && #[trigger] is_embedding(
                        other,
                        filter@.take(n),
                        seen,
                    ) implies n <= done by {
                    if n > 0 {
                        if other[n - 1] < it.index() {
                            assert(is_embedding(other, filter@.take(n), earlier));
                        } else {
                            let shorter = other.drop_last();
                            assert(is_embedding(shorter, filter@.take(n - 1), earlier));
                        }
                    }
                }
            }
        }
        assert(seen == item@);
        false
    }
}

impl ItemFilter for ItemFilters {
    open spec fn matches(&self, filter: Seq<char>, item: Seq<char>) -> bool {
        match self {
            ItemFilters::Contains => contains_match(filter, item),
            ItemFilters::Substring => subsequence_match(filter, item),
        }
    }

    fn filter(&self, filter: &str, item: &str) -> (r: bool) {
        match self {
            ItemFilters::Contains => (ContainsFilter {}).filter(filter, item),
            ItemFilters::Substring => (SubstringFilter {}).filter(filter, item),
        }
    }
}

/// Folding a text that is folded already changes nothing.
pub proof fn lemma_fold_case_twice(s: Seq<char>)
    ensures
        fold_case(fold_case(s)) == fold_case(s),
{
    assert(fold_case(fold_case(s)) =~= fold_case(s));
}

/// The empty query matches every key, whichever way of matching is asked
/// for.
pub proof fn lemma_empty_query_matches(item_filter: ItemFilters, key: Seq<char>)
    ensures
        item_filter.matches(Seq::empty(), key),
{
    let query = Seq::<char>::empty();
    assert(is_embedding(Seq::<int>::empty(), query, key));
    let needle = fold_case(query);
    assert(fold_case(key).subrange(0int, 0int + needle.len()) == needle);
    assert(has_substring(fold_case(key), needle));
}

/// Matching ignores letter case: a query and a key match exactly when
/// their folded forms match, so texts that differ in the case of ASCII
/// letters only are matched alike.
pub proof fn lemma_matching_ignores_case(
    item_filter: ItemFilters,
    query: Seq<char>,
    key: Seq<char>,
)
    ensures
        item_filter.matches(query, key) == item_filter.matches(fold_case(query), fold_case(key)),
{
    lemma_fold_case_twice(query);
    lemma_fold_case_twice(key);
    let folded_query = fold_case(query);
    let folded_key = fold_case(key);
    if subsequence_match(query, key) {
        let places = choose|places: Seq<int>| is_embedding(places, query, key);
        assert(is_embedding(places, folded_query, folded_key));
    }
    if subsequence_match(folded_query, folded_key) {
        let places = choose|places: Seq<int>| is_embedding(places, folded_query, folded_key);
        assert(is_embedding(places, query, key));
    }
}

impl Default for ItemFilters {
    /// Matching by subsequence, which is what a picker uses unless told
    /// otherwise.
    fn default() -> (r: Self)
        ensures
            r == ItemFilters::Substring,
    {
        ItemFilters::Substring
    }
}

} // verus!
