//! Characters and strings as the rest of the library reads them: a string is
//! its sequence of `char`s, and letter case is folded the ASCII way.

use vstd::prelude::*;
use vstd::string::StringExecFns;

verus! {

/// The ASCII lower-case form of `c`: `A` to `Z` become `a` to `z`, every
/// other character stays as it is.
pub open spec fn ascii_lower(c: char) -> char {
    if 'A' <= c && c <= 'Z' {
        ((c as u32) + 32) as char
    } else {
        c
    }
}

/// `s` with each character in its ASCII lower-case form.
pub open spec fn fold_case(s: Seq<char>) -> Seq<char> {
    s.map_values(|c: char| ascii_lower(c))
}

/// `char::to_ascii_lowercase` of std. Its documentation maps the ASCII
/// letters `A` to `Z` to `a` to `z` and leaves all other characters
/// unchanged; the contract says that and nothing more.
pub assume_specification[ char::to_ascii_lowercase ](c: &char) -> (r: char)
    ensures
        r == ascii_lower(*c),
;

/// `str::to_ascii_lowercase` of std. Its documentation returns a copy of the
/// string in which each character is mapped to its ASCII lower-case form.
pub assume_specification[ str::to_ascii_lowercase ](s: &str) -> (r: String)
    ensures
        r@ == fold_case(s@),
;

/// `String::push` of std, which appends one character to the end.
pub assume_specification[ String::push ](s: &mut String, ch: char)
    ensures
        final(s)@ == old(s)@.push(ch),
;

/// `String::pop` of std, which removes the last character and returns it, or
/// returns `None` and leaves an empty string empty.
pub assume_specification[ String::pop ](s: &mut String) -> (r: Option<char>)
    ensures
        old(s)@.len() == 0 ==> r is None && final(s)@ == old(s)@,
        old(s)@.len() > 0 ==> r == Some(old(s)@.last()) && final(s)@ == old(s)@.drop_last(),
;

/// `needle` occurs in `haystack` as one contiguous run.
pub open spec fn has_substring(haystack: Seq<char>, needle: Seq<char>) -> bool {
    exists|at: int|
        0 <= at && at + needle.len() <= haystack.len() && #[trigger] haystack.subrange(
            at,
            at + needle.len(),
        ) == needle
}

/// `str::contains` of std with a string as the pattern: whether the pattern
/// matches a sub-slice of the string, which for a string pattern means that
/// its characters occur in the string as one contiguous run.
#[verifier::external_body]
pub(crate) fn str_contains(haystack: &str, needle: &str) -> (r: bool)
    ensures
        r == has_substring(haystack@, needle@),
{
    haystack.contains(needle)
}

/// The place of the first `c` in `s`, or the length of `s` where it holds
/// none.
pub open spec fn index_of(s: Seq<char>, c: char) -> int
    decreases s.len(),
{
    if s.len() == 0 {
        0
    } else if s[0] == c {
        0
    } else {
        1 + index_of(s.drop_first(), c)
    }
}

/// What [`index_of`] gives lies within `s` or at its end, no `c` stands
/// before it, and a `c` stands at it unless it is the end.
pub proof fn lemma_index_of(s: Seq<char>, c: char)
    ensures
        0 <= index_of(s, c) <= s.len(),
        forall|k: int| 0 <= k < index_of(s, c) ==> s[k] != c,
        index_of(s, c) < s.len() ==> s[index_of(s, c)] == c,
    decreases s.len(),
{
    if s.len() > 0 && s[0] != c {
        let rest = s.drop_first();
        lemma_index_of(rest, c);
        assert forall|k: int| 0 <= k < index_of(s, c) implies s[k] != c by {
            if k > 0 {
                assert(s[k] == rest[k - 1]);
            }
        }
    }
}

/// A place with a `c` at it or the end behind it, and no `c` before it, is
/// what [`index_of`] gives.
pub proof fn lemma_index_of_is(s: Seq<char>, c: char, at: int)
    requires
        0 <= at <= s.len(),
        forall|k: int| 0 <= k < at ==> s[k] != c,
        at < s.len() ==> s[at] == c,
    ensures
        index_of(s, c) == at,
{
    lemma_index_of(s, c);
    let found = index_of(s, c);
    if found < at {
        assert(s[found] != c);
    } else if found > at {
        assert(s[at] != c);
    }
}

/// The view of an optional string.
pub open spec fn text_view(text: Option<String>) -> Option<Seq<char>> {
    match text {
        Some(text) => Some(text@),
        None => None,
    }
}

/// The views of `texts`, in order.
pub open spec fn text_views(texts: Seq<String>) -> Seq<Seq<char>> {
    texts.map_values(|text: String| text@)
}

/// The characters of `s`, in order.
pub fn chars_of(s: &str) -> (v: Vec<char>)
    ensures
        v@ == s@,
{
    let mut v: Vec<char> = Vec::new();
    for c in it: s.chars()
        invariant
            v@ == it.seq().take(it.index() as int),
    {
        v.push(c);
    }
    v
}

/// The string made of `chars[from..to]`.
pub fn string_of(chars: &Vec<char>, from: usize, to: usize) -> (s: String)
    requires
        from <= to <= chars.len(),
    ensures
        s@ == chars@.subrange(from as int, to as int),
{
    let mut s = String::new();
    let mut i: usize = from;
    while i < to
        invariant
            from <= i <= to <= chars.len(),
            s@ == chars@.subrange(from as int, i as int),
        decreases to - i,
    {
        s.push(chars[i]);
        i += 1;
    }
    s
}

/// `s` without the `c`s at its start.
pub open spec fn trim_start(s: Seq<char>, c: char) -> Seq<char>
    decreases s.len(),
{
    if s.len() > 0 && s[0] == c {
        trim_start(s.drop_first(), c)
    } else {
        s
    }
}

/// `s` without the `c`s at its end.
pub open spec fn trim_end(s: Seq<char>, c: char) -> Seq<char>
    decreases s.len(),
{
    if s.len() > 0 && s.last() == c {
        trim_end(s.drop_last(), c)
    } else {
        s
    }
}

/// `s` without the `c`s at its start and at its end.
pub open spec fn trimmed(s: Seq<char>, c: char) -> Seq<char> {
    trim_end(trim_start(s, c), c)
}

/// Where `c`s fill the first `n` places of `s` and no `c` follows them
/// directly, trimming the start leaves what stands behind those places.
proof fn lemma_trim_start(s: Seq<char>, c: char, n: int)
    requires
        0 <= n <= s.len(),
        forall|k: int| 0 <= k < n ==> s[k] == c,
        n < s.len() ==> s[n] != c,
    ensures
        trim_start(s, c) == s.skip(n),
    decreases n,
{
    if n == 0 {
        assert(s.skip(0) == s);
    } else {
        let rest = s.drop_first();
        assert forall|k: int| 0 <= k < n - 1 implies rest[k] == c by {
            assert(rest[k] == s[k + 1]);
        }
        lemma_trim_start(rest, c, n - 1);
        assert(rest.skip(n - 1) == s.skip(n));
    }
}

/// Where `c`s fill the places of `s` from `n` on and no `c` stands directly
/// before them, trimming the end leaves what stands before those places.
proof fn lemma_trim_end(s: Seq<char>, c: char, n: int)
    requires
        0 <= n <= s.len(),
        forall|k: int| n <= k < s.len() ==> s[k] == c,
        n > 0 ==> s[n - 1] != c,
    ensures
        trim_end(s, c) == s.take(n),
    decreases s.len() - n,
{
    if n == s.len() {
        assert(s.take(n) == s);
    } else {
        let front = s.drop_last();
        lemma_trim_end(front, c, n);
        assert(front.take(n) == s.take(n));
    }
}

/// `text` without the `c`s at its start and at its end.
pub fn trim_matches(text: &str, c: char) -> (r: String)
    ensures
        r@ == trimmed(text@, c),
{
    let chars = chars_of(text);
    let mut start: usize = 0;
    while start < chars.len() && chars[start] == c
        invariant
            start <= chars.len(),
            forall|k: int| 0 <= k < start ==> chars@[k] == c,
        decreases chars.len() - start,
    {
        start += 1;
    }
    let mut end: usize = chars.len();
    while end > start && chars[end - 1] == c
        invariant
            start <= end <= chars.len(),
            forall|k: int| end <= k < chars.len() ==> chars@[k] == c,
        decreases end - start,
    {
        end -= 1;
    }
    proof {
        lemma_trim_start(chars@, c, start as int);
        let rest = chars@.skip(start as int);
        assert forall|k: int| end - start <= k < rest.len() implies rest[k] == c by {
            assert(rest[k] == chars@[k + start]);
        }
        lemma_trim_end(rest, c, end - start);
        assert(rest.take(end - start) == chars@.subrange(start as int, end as int));
    }
    string_of(&chars, start, end)
}

/// The texts of `lines` in one text, with `separator` between each two of
/// them.
pub open spec fn joined(lines: Seq<Seq<char>>, separator: Seq<char>) -> Seq<char>
    decreases lines.len(),
{
    if lines.len() == 0 {
        Seq::empty()
    } else if lines.len() == 1 {
        lines[0]
    } else {
        joined(lines.drop_last(), separator) + separator + lines.last()
    }
}

/// The texts of `lines` in one text, with `separator` between each two of
/// them.
pub fn join(lines: &Vec<String>, separator: &str) -> (r: String)
    ensures
        r@ == joined(text_views(lines@), separator@),
{
    let mut out = String::new();
    let mut i: usize = 0;
    assert(text_views(lines@).take(0) == Seq::<Seq<char>>::empty());
    while i < lines.len()
        invariant
            i <= lines.len(),
            out@ == joined(text_views(lines@).take(i as int), separator@),
        decreases lines.len() - i,
    {
        proof {
            let longer = text_views(lines@).take(i as int + 1);
            assert(longer.drop_last() == text_views(lines@).take(i as int));
            assert(longer.last() == lines@[i as int]@);
            if i == 0 {
                assert(out@ + lines@[i as int]@ == lines@[i as int]@);
            }
        }
        if i > 0 {
            out.append(separator);
        }
        out.append(lines[i].as_str());
        i += 1;
    }
    assert(text_views(lines@).take(i as int) == text_views(lines@));
    out
}

} // verus!
