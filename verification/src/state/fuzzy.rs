//! Fuzzy matching of a query against a name.

use crate::text::{
    byte_at, chars_of, lemma_byte_at_ends, lemma_byte_at_monotonic, lemma_byte_at_step, matches_at, starts_with,
    str_eq, utf8_len, byte_len, char_len,
};
use crate::unicode::{
    all_space, is_ascii_text, lower_case_forgets_case, lowercase, trim_text, trimmed, trimming_ignores_padding, uppered,
};
use vstd::prelude::*;
use vstd::string::*;

verus! {

/// A number as a score: at most the largest `usize`.
pub open spec fn score(n: int) -> usize {
    if n > usize::MAX {
        usize::MAX
    } else {
        n as usize
    }
}

/// The first index at or behind `from` at which `needle` stands in `s`, or one behind the end.
pub open spec fn find_from(s: Seq<char>, needle: Seq<char>, from: int) -> int
    decreases s.len() + 1 - from,
{
    if from > s.len() || starts_with(s.skip(from), needle) {
        from
    } else {
        find_from(s, needle, from + 1)
    }
}

/// The places of the characters of `needle` in `s`, each the first behind the one before, as far as
/// they are found.
pub open spec fn places(s: Seq<char>, needle: Seq<char>, from: int) -> Seq<int>
    decreases s.len() - from,
{
    if needle.len() == 0 || from < 0 || from >= s.len() {
        seq![]
    } else if s[from] == needle[0] {
        seq![from] + places(s, needle.skip(1), from + 1)
    } else {
        places(s, needle, from + 1)
    }
}

/// How well `needle` matches `haystack`, both in lower case; smaller is better. The whole text scores
/// 0, its beginning 10 and more, a part of it 100 and more, and characters of it in order 1000 and
/// more.
pub open spec fn match_score(haystack: Seq<char>, needle: Seq<char>) -> Option<usize> {
    let at = find_from(haystack, needle, 0);
    let ps = places(haystack, needle, 0);
    if needle.len() == 0 || haystack == needle {
        Some(0)
    } else if starts_with(haystack, needle) {
        Some(score(10 + haystack.len() - needle.len()))
    } else if at <= haystack.len() {
        Some(score(100 + byte_at(haystack, at) as int))
    } else if ps.len() != needle.len() {
        None
    } else {
        let span = ps.last() - ps[0] + 1;
        Some(score(1000 + span * 10 + (span - needle.len()) + ps[0]))
    }
}

pub open spec fn fuzzy_score(value: Seq<char>, query: Seq<char>) -> Option<usize> {
    match_score(lowercase(value), lowercase(trimmed(query)))
}

/// Whether the characters of `needle` occur in `s`, in order, possibly with others between them.
pub open spec fn embeds(needle: Seq<char>, s: Seq<char>) -> bool
    decreases s.len(),
{
    ||| needle.len() == 0
    ||| s.len() > 0 && needle[0] == s[0] && embeds(needle.skip(1), s.skip(1))
    ||| s.len() > 0 && embeds(needle, s.skip(1))
}

proof fn lemma_embeds_tail(needle: Seq<char>, s: Seq<char>)
    requires
        needle.len() > 0,
        embeds(needle, s),
    ensures
        embeds(needle.skip(1), s),
    decreases s.len(),
{
    if s.len() > 0 {
        if needle[0] == s[0] && embeds(needle.skip(1), s.skip(1)) {
        } else {
            lemma_embeds_tail(needle, s.skip(1));
        }
    }
}

proof fn lemma_places(s: Seq<char>, needle: Seq<char>, from: int)
    requires
        0 <= from <= s.len(),
    ensures
        places(s, needle, from).len() <= needle.len(),
        places(s, needle, from).len() == needle.len() <==> embeds(needle, s.skip(from)),
        forall|i: int| 0 <= i < places(s, needle, from).len() ==> from + i <= #[trigger] places(s, needle, from)[i] < s.len(),
        forall|i: int, j: int|
            0 <= i < j < places(s, needle, from).len() ==> places(s, needle, from)[j] - places(s, needle, from)[i] >= j - i,
    decreases s.len() - from,
{
    let ps = places(s, needle, from);
    let rest = s.skip(from);
    if needle.len() > 0 && from < s.len() {
        assert(rest.skip(1) =~= s.skip(from + 1));
        assert(rest[0] == s[from]);
        if s[from] == needle[0] {
            lemma_places(s, needle.skip(1), from + 1);
            let tail = places(s, needle.skip(1), from + 1);
            if embeds(needle, rest) && !embeds(needle.skip(1), rest.skip(1)) {
                lemma_embeds_tail(needle, rest.skip(1));
            }
            assert forall|i: int| 0 <= i < ps.len() implies from + i <= #[trigger] ps[i] < s.len() by {
                if i > 0 {
                    assert(ps[i] == tail[i - 1]);
                }
            }
            assert forall|i: int, j: int| 0 <= i < j < ps.len() implies ps[j] - ps[i] >= j - i by {
                assert(ps[j] == tail[j - 1]);
                if i > 0 {
                    assert(ps[i] == tail[i - 1]);
                }
            }
        } else {
            lemma_places(s, needle, from + 1);
        }
    } else {
        assert(ps =~= Seq::<int>::empty());
    }
}

proof fn lemma_find_from(s: Seq<char>, needle: Seq<char>, from: int)
    requires
        0 <= from <= s.len() + 1,
    ensures
        from <= find_from(s, needle, from) <= s.len() + 1,
        find_from(s, needle, from) <= s.len() ==> starts_with(s.skip(find_from(s, needle, from)), needle),
    decreases s.len() + 1 - from,
{
    if from <= s.len() && !starts_with(s.skip(from), needle) {
        lemma_find_from(s, needle, from + 1);
    }
}

proof fn lemma_prefix_embeds(s: Seq<char>, needle: Seq<char>)
    requires
        starts_with(s, needle),
    ensures
        embeds(needle, s),
    decreases s.len(),
{
    if needle.len() > 0 {
        assert(s.take(needle.len() as int)[0] == s[0]);
        assert(s.skip(1).take(needle.len() - 1) =~= s.take(needle.len() as int).skip(1));
        lemma_prefix_embeds(s.skip(1), needle.skip(1));
    }
}

proof fn lemma_part_embeds(s: Seq<char>, needle: Seq<char>, at: int)
    requires
        0 <= at <= s.len(),
        embeds(needle, s.skip(at)),
    ensures
        embeds(needle, s),
    decreases at,
{
    if at == 0 {
        assert(s.skip(0) =~= s);
    } else {
        assert(s.skip(1).skip(at - 1) =~= s.skip(at));
        lemma_part_embeds(s.skip(1), needle, at - 1);
    }
}

/// A query matches exactly the names that hold its characters in order.
pub proof fn matches_are_subsequences(haystack: Seq<char>, needle: Seq<char>)
    ensures
        match_score(haystack, needle) is Some <==> embeds(needle, haystack),
{
    assert(haystack.skip(0) =~= haystack);
    lemma_places(haystack, needle, 0);
    lemma_find_from(haystack, needle, 0);
    let at = find_from(haystack, needle, 0);
    if haystack == needle {
        assert(haystack.take(needle.len() as int) =~= needle);
        lemma_prefix_embeds(haystack, needle);
    } else if starts_with(haystack, needle) {
        lemma_prefix_embeds(haystack, needle);
    } else if at <= haystack.len() {
        lemma_prefix_embeds(haystack.skip(at), needle);
        lemma_part_embeds(haystack, needle, at);
    }
}

/// The better kind of match scores lower: the whole name, then its beginning, then a part of it, then
/// scattered characters. A beginning goes before a part as long as at most 90 characters follow it,
/// and a part before scattered characters as long as it starts in the first 910 bytes.
pub proof fn better_matches_score_lower(haystack: Seq<char>, needle: Seq<char>)
    requires
        needle.len() > 0,
        match_score(haystack, needle) is Some,
    ensures
        ({
            let n = match_score(haystack, needle)->0;
            let at = find_from(haystack, needle, 0);
            &&& haystack == needle <==> n == 0
            &&& haystack != needle && starts_with(haystack, needle) && haystack.len() - needle.len() < 90 ==> 10 <= n < 100
            &&& !starts_with(haystack, needle) && at <= haystack.len() && byte_at(haystack, at) < 910 ==> 100 <= n < 1010
            &&& at > haystack.len() ==> n >= 1010
        }),
{
    lemma_places(haystack, needle, 0);
    lemma_find_from(haystack, needle, 0);
    let ps = places(haystack, needle, 0);
    if haystack == needle {
        assert(haystack.take(needle.len() as int) =~= needle);
        assert(haystack.skip(0) =~= haystack);
    }
    if ps.len() == needle.len() {
        assert(ps[ps.len() - 1] == ps.last());
        assert(ps.len() > 1 ==> ps[ps.len() - 1] - ps[0] >= ps.len() - 1);
    }
    if starts_with(haystack, needle) {
        assert(haystack.skip(0) =~= haystack);
    }
}

spec fn as_ints(v: Seq<usize>) -> Seq<int> {
    v.map_values(|i: usize| i as int)
}

fn clamp_score(n: u128) -> (r: usize)
    ensures
        r == score(n as int),
{
    if n > usize::MAX as u128 {
        usize::MAX
    } else {
        n as usize
    }
}

/// How well a needle matches a haystack.
pub fn score_match(haystack: &str, needle: &str) -> (r: Option<usize>)
    ensures
        r == match_score(haystack@, needle@),
{
    if needle.is_empty() || str_eq(haystack, needle) {
        return Some(0);
    }
    let h = chars_of(haystack);
    let n = chars_of(needle);
    let total: usize = byte_len(haystack);
    assert(h@.skip(0) =~= h@);
    if matches_at(&h, 0, &n) {
        return Some((h.len() - n.len()).saturating_add(10));
    }
    let mut at: usize = 0;
    let mut byte: usize = 0;
    proof {
        lemma_byte_at_ends(h@);
    }
    while at < h.len()
        invariant
            h@ == haystack@,
            n@ == needle@,
            total == utf8_len(h@),
            at <= h@.len(),
            byte == byte_at(h@, at as int),
            needle@.len() > 0,
            haystack@ != needle@,
            !starts_with(haystack@, needle@),
            find_from(haystack@, needle@, 0) == find_from(haystack@, needle@, at as int),
        decreases h@.len() - at,
    {
        if matches_at(&h, at, &n) {
            return Some(byte.saturating_add(100));
        }
        proof {
            lemma_byte_at_step(h@, at as int);
            lemma_byte_at_monotonic(h@, at + 1, h@.len() as int);
        }
        byte = byte + char_len(h[at]);
        at += 1;
    }
    proof {
        assert(haystack@.skip(at as int).len() == 0);
        lemma_find_from(haystack@, needle@, at as int);
        reveal_with_fuel(find_from, 2);
    }
    let mut positions: Vec<usize> = Vec::new();
    let mut i: usize = 0;
    proof {
        assert(n@.skip(0) =~= n@);
        assert(as_ints(positions@) + places(h@, n@, 0) =~= places(h@, n@, 0));
        lemma_places(h@, n@, 0);
    }
    while i < h.len() && positions.len() < n.len()
        invariant
            i <= h@.len(),
            positions@.len() <= n@.len(),
            as_ints(positions@) + places(h@, n@.skip(positions@.len() as int), i as int) == places(h@, n@, 0),
        decreases h@.len() - i,
    {
        let ghost k = positions@.len() as int;
        proof {
            assert(n@.skip(k)[0] == n@[k]);
            assert(n@.skip(k).skip(1) =~= n@.skip(k + 1));
        }
        if h[i] == n[positions.len()] {
            proof {
                assert(as_ints(positions@.push(i)) =~= as_ints(positions@).push(i as int));
                assert(as_ints(positions@).push(i as int) + places(h@, n@.skip(k + 1), i + 1) =~= as_ints(positions@) + (
                seq![i as int] + places(h@, n@.skip(k + 1), i + 1)));
            }
            positions.push(i);
        }
        i += 1;
    }
    proof {
        assert(as_ints(positions@) + Seq::<int>::empty() =~= as_ints(positions@));
        assert(as_ints(positions@) == places(h@, n@, 0));
    }
    if positions.len() != n.len() {
        return None;
    }
    let start: usize = positions[0];
    let end: usize = positions[positions.len() - 1];
    proof {
        let ps = places(h@, n@, 0);
        assert(ps[0] == start);
        assert(ps.last() == end);
        assert(ps.len() > 1 ==> ps[ps.len() - 1] - ps[0] >= ps.len() - 1);
    }
    let span: u128 = (end - start) as u128 + 1;
    let gaps: u128 = span - n.len() as u128;
    Some(clamp_score(1000 + span * 10 + gaps + start as u128))
}

/// How well a query matches a name, regardless of case; smaller is better.
pub fn fuzzy_text_score(value: &str, query: &str) -> (r: Option<usize>)
    ensures
        r == fuzzy_score(value@, query@),
{
    let query = trim_text(query);
    let needle = query.as_str().to_lowercase();
    let haystack = value.to_lowercase();
    score_match(haystack.as_str(), needle.as_str())
}

/// Of ASCII, the score is the same whatever case the letters of the name and of the query have.
pub proof fn scores_ignore_case(value: Seq<char>, query: Seq<char>)
    requires
        is_ascii_text(value),
        is_ascii_text(query),
    ensures
        fuzzy_score(uppered(value), query) == fuzzy_score(value, query),
        fuzzy_score(value, uppered(query)) == fuzzy_score(value, query),
{
    lower_case_forgets_case(value);
    lower_case_forgets_case(query);
}

/// The score is the same whatever white space stands around the query.
pub proof fn scores_ignore_padding(value: Seq<char>, before: Seq<char>, query: Seq<char>, after: Seq<char>)
    requires
        all_space(before),
        all_space(after),
    ensures
        fuzzy_score(value, before + query + after) == fuzzy_score(value, query),
{
    trimming_ignores_padding(before, query, after);
}

} // verus!
