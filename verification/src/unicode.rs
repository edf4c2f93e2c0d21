//! What Unicode says of a text: its grapheme clusters, its width on a terminal, and the classes of
//! its characters. The tables belong to other crates and to std; here their answers have names.

use crate::text::{chars_of, concat, string_of, texts};
use unicode_segmentation::UnicodeSegmentation;
use unicode_width::UnicodeWidthStr;
use vstd::prelude::*;
use vstd::string::*;

verus! {

/// Whether a text holds printable ASCII only.
pub open spec fn is_plain(text: Seq<char>) -> bool {
    forall|i: int| 0 <= i < text.len() ==> ' ' <= #[trigger] text[i] <= '~'
}

/// Each character of a text by itself.
pub open spec fn singles(text: Seq<char>) -> Seq<Seq<char>> {
    Seq::new(text.len(), |i: int| seq![text[i]])
}

/// The extended grapheme clusters of a text that is not plain, in order.
pub uninterp spec fn clusters(text: Seq<char>) -> Seq<Seq<char>>;

/// The extended grapheme clusters of a text, in order: of a plain one, its characters.
#[verifier::opaque]
pub open spec fn graphemes(text: Seq<char>) -> Seq<Seq<char>> {
    if is_plain(text) {
        singles(text)
    } else {
        clusters(text)
    }
}

/// The number of terminal columns that a text takes which is not plain.
pub uninterp spec fn columns_taken(text: Seq<char>) -> usize;

/// The number of terminal columns that a text takes: a plain one, one for each character.
#[verifier::opaque]
pub open spec fn display_width(text: Seq<char>) -> usize {
    if is_plain(text) {
        text.len() as usize
    } else {
        columns_taken(text)
    }
}

/// Whether a character has Unicode's `White_Space` property.
#[verifier::opaque]
pub open spec fn is_space(c: char) -> bool {
    ||| '\u{9}' <= c <= '\u{d}'
    ||| c == ' ' || c == '\u{85}' || c == '\u{a0}' || c == '\u{1680}'
    ||| '\u{2000}' <= c <= '\u{200a}'
    ||| c == '\u{2028}' || c == '\u{2029}' || c == '\u{202f}' || c == '\u{205f}' || c == '\u{3000}'
}

/// Whether every character of a text is white space.
pub open spec fn all_space(text: Seq<char>) -> bool {
    forall|i: int| 0 <= i < text.len() ==> is_space(#[trigger] text[i])
}

/// `UnicodeSegmentation::graphemes`, for the extended clusters. Claimed of it: the clusters depend on
/// the text alone, none of them is empty, and one after the other they are the text. Those of printable ASCII
/// are its characters, each by itself.
#[verifier::external_body]
pub(crate) fn split_graphemes(s: &str) -> (v: Vec<String>)
    ensures
        is_plain(s@) ==> texts(v@) == singles(s@),
        !is_plain(s@) ==> texts(v@) == clusters(s@),
        texts(v@) == graphemes(s@),
        concat(texts(v@)) == s@,
        forall|i: int| 0 <= i < v@.len() ==> (#[trigger] v@[i])@.len() > 0,
{
    s.graphemes(true).map(|g| g.to_owned()).collect()
}

/// `UnicodeWidthStr::width`. Claimed of it: the width depends on the text alone, and printable ASCII takes
/// one column for each character.
#[verifier::external_body]
pub(crate) fn str_width(s: &str) -> (n: usize)
    ensures
        is_plain(s@) ==> n == s@.len(),
        !is_plain(s@) ==> n == columns_taken(s@),
        n == display_width(s@),
{
    s.width()
}

/// `char::is_whitespace`. Claimed of it: it tells the characters that Unicode lists as `White_Space`.
pub assume_specification[ char::is_whitespace ](c: char) -> (r: bool)
    ensures
        r == is_space(c),
;

/// Whether a text holds ASCII only.
pub open spec fn is_ascii_text(text: Seq<char>) -> bool {
    forall|i: int| 0 <= i < text.len() ==> #[trigger] text[i] <= '\u{7f}'
}

/// An ASCII letter in lower case; other characters stay.
pub open spec fn ascii_lower(c: char) -> char {
    if 'A' <= c <= 'Z' {
        ((c as u32) + 32) as u8 as char
    } else {
        c
    }
}

/// An ASCII letter in upper case; other characters stay.
pub open spec fn ascii_upper(c: char) -> char {
    if 'a' <= c <= 'z' {
        ((c as u32) - 32) as u8 as char
    } else {
        c
    }
}

/// A text in lower case that is not all ASCII.
pub uninterp spec fn lowered_text(text: Seq<char>) -> Seq<char>;

/// A text in lower case: of ASCII, its letters are.
#[verifier::opaque]
pub open spec fn lowercase(text: Seq<char>) -> Seq<char> {
    if is_ascii_text(text) {
        text.map_values(|c: char| ascii_lower(c))
    } else {
        lowered_text(text)
    }
}

/// `str::to_lowercase`. Claimed of it: the result depends on the text alone, and of ASCII only the capital
/// letters change, each to the small one.
pub assume_specification[ str::to_lowercase ](s: &str) -> (r: std::string::String)
    ensures
        is_ascii_text(s@) ==> r@ == s@.map_values(|c: char| ascii_lower(c)),
        !is_ascii_text(s@) ==> r@ == lowered_text(s@),
        r@ == lowercase(s@),
;

/// The characters that a character becomes in lower case which is not ASCII.
pub uninterp spec fn lowered_char(c: char) -> Seq<char>;

/// The characters that a character becomes in lower case: of ASCII, one.
#[verifier::opaque]
pub open spec fn lowercase_char(c: char) -> Seq<char> {
    if c <= '\u{7f}' {
        seq![ascii_lower(c)]
    } else {
        lowered_char(c)
    }
}

/// `char::to_lowercase`. Claimed of it: the result depends on the character alone, and of ASCII only the capital
/// letters change, each to the small one.
#[verifier::external_body]
pub(crate) fn lower_char(c: char) -> (r: Vec<char>)
    ensures
        c <= '\u{7f}' ==> r@ == seq![ascii_lower(c)],
        c > '\u{7f}' ==> r@ == lowered_char(c),
        r@ == lowercase_char(c),
{
    c.to_lowercase().collect()
}

/// The characters that a character becomes in upper case which is not ASCII.
pub uninterp spec fn raised_char(c: char) -> Seq<char>;

/// The characters that a character becomes in upper case: of ASCII, one.
#[verifier::opaque]
pub open spec fn uppercase_char(c: char) -> Seq<char> {
    if c <= '\u{7f}' {
        seq![ascii_upper(c)]
    } else {
        raised_char(c)
    }
}

/// `char::to_uppercase`. Claimed of it: the result depends on the character alone, and of ASCII only the small
/// letters change, each to the capital one.
#[verifier::external_body]
pub(crate) fn upper_char(c: char) -> (r: Vec<char>)
    ensures
        c <= '\u{7f}' ==> r@ == seq![ascii_upper(c)],
        c > '\u{7f}' ==> r@ == raised_char(c),
        r@ == uppercase_char(c),
{
    c.to_uppercase().collect()
}

/// Whether a string holds nothing but white space.
pub fn is_all_space(s: &str) -> (r: bool)
    ensures
        r == all_space(s@),
{
    let cs = chars_of(s);
    let mut i: usize = 0;
    while i < cs.len()
        invariant
            i <= cs@.len(),
            cs@ == s@,
            forall|k: int| 0 <= k < i ==> is_space(#[trigger] cs@[k]),
        decreases cs@.len() - i,
    {
        if !cs[i].is_whitespace() {
            assert(!is_space(s@[i as int]));
            return false;
        }
        i += 1;
    }
    true
}

/// A text without the white space that it begins with.
pub open spec fn trimmed_start(s: Seq<char>) -> Seq<char>
    decreases s.len(),
{
    if s.len() > 0 && is_space(s[0]) {
        trimmed_start(s.drop_first())
    } else {
        s
    }
}

/// A text without the white space that it ends with.
pub open spec fn trimmed_end(s: Seq<char>) -> Seq<char>
    decreases s.len(),
{
    if s.len() > 0 && is_space(s.last()) {
        trimmed_end(s.drop_last())
    } else {
        s
    }
}

/// A text without the white space at both ends.
pub open spec fn trimmed(s: Seq<char>) -> Seq<char> {
    trimmed_end(trimmed_start(s))
}

pub fn trim_text(s: &str) -> (r: String)
    ensures
        r@ == trimmed(s@),
{
    let cs = chars_of(s);
    let mut from: usize = 0;
    assert(s@.skip(0) =~= s@);
    while from < cs.len() && cs[from].is_whitespace()
        invariant
            cs@ == s@,
            from <= cs@.len(),
            trimmed_start(s@) == trimmed_start(s@.skip(from as int)),
        decreases cs@.len() - from,
    {
        assert(s@.skip(from as int).drop_first() =~= s@.skip(from + 1));
        from += 1;
    }
    let mut to: usize = cs.len();
    assert(s@.subrange(from as int, to as int) =~= s@.skip(from as int));
    while to > from && cs[to - 1].is_whitespace()
        invariant
            cs@ == s@,
            from <= to <= cs@.len(),
            trimmed(s@) == trimmed_end(s@.subrange(from as int, to as int)),
        decreases to - from,
    {
        assert(s@.subrange(from as int, to as int).drop_last() =~= s@.subrange(from as int, to - 1));
        to -= 1;
    }
    string_of(&cs, from, to)
}

/// As many clusters from the front as fit into `limit` columns, `used` of which are taken.
pub open spec fn fitting(clusters: Seq<Seq<char>>, limit: usize, used: usize) -> Seq<char>
    decreases clusters.len(),
{
    if clusters.len() == 0 || used + display_width(clusters[0]) > limit {
        seq![]
    } else {
        clusters[0] + fitting(clusters.drop_first(), limit, (used + display_width(clusters[0])) as usize)
    }
}

/// The longest beginning of a text, cluster by cluster, that fits into `limit` columns.
pub fn truncate_display_width(s: &str, limit: usize) -> (r: String)
    ensures
        r@ == fitting(graphemes(s@), limit, 0),
{
    let clusters = split_graphemes(s);
    let ghost gs = graphemes(s@);
    let mut r = String::new();
    let mut used: usize = 0;
    let mut i: usize = 0;
    assert(gs.skip(0) =~= gs);
    assert(r@ + fitting(gs, limit, 0) =~= fitting(gs, limit, 0));
    while i < clusters.len()
        invariant
            gs == graphemes(s@),
            texts(clusters@) == gs,
            i <= clusters@.len(),
            used <= limit,
            r@ + fitting(gs.skip(i as int), limit, used) == fitting(gs, limit, 0),
        decreases clusters@.len() - i,
    {
        let w: usize = str_width(clusters[i].as_str());
        proof {
            assert(gs[i as int] == clusters@[i as int]@);
            assert(gs.skip(i as int)[0] == gs[i as int]);
            assert(gs.skip(i as int).drop_first() =~= gs.skip(i + 1));
        }
        if w > limit - used {
            assert(r@ + Seq::<char>::empty() =~= r@);
            return r;
        }
        proof {
            let rest = fitting(gs.skip(i + 1), limit, (used + w) as usize);
            assert(r@ + (gs[i as int] + rest) =~= (r@ + gs[i as int]) + rest);
        }
        r.append(clusters[i].as_str());
        used += w;
        i += 1;
    }
    assert(r@ + Seq::<char>::empty() =~= r@);
    r
}

/// The words of a text: the longest runs of characters that are no white space.
pub open spec fn words(s: Seq<char>) -> Seq<Seq<char>>
    decreases s.len(),
{
    if s.len() == 0 {
        Seq::empty()
    } else if is_space(s.last()) {
        words(s.drop_last())
    } else {
        let n = word_start(s);
        if 0 <= n < s.len() {
            words(s.take(n)).push(s.skip(n))
        } else {
            Seq::empty()
        }
    }
}

/// Where the run of characters that are no white space begins that a text ends with.
pub open spec fn word_start(s: Seq<char>) -> int
    decreases s.len(),
{
    if s.len() == 0 || is_space(s.last()) {
        s.len() as int
    } else {
        word_start(s.drop_last())
    }
}

proof fn lemma_word_start(s: Seq<char>)
    ensures
        0 <= word_start(s) <= s.len(),
        s.len() > 0 && !is_space(s.last()) ==> word_start(s) < s.len(),
    decreases s.len(),
{
    if s.len() > 0 && !is_space(s.last()) {
        lemma_word_start(s.drop_last());
    }
}

pub fn split_words(s: &str) -> (v: Vec<String>)
    ensures
        texts(v@) == words(s@),
{
    let cs = chars_of(s);
    let mut out: Vec<String> = Vec::new();
    let mut i: usize = 0;
    let mut start: usize = 0;
    assert(s@.take(0) =~= Seq::<char>::empty());
    assert(texts(out@) =~= Seq::<Seq<char>>::empty());
    while i < cs.len()
        invariant
            cs@ == s@,
            i <= cs@.len(),
            start == word_start(s@.take(i as int)),
            start <= i,
            texts(out@) == words(s@.take(start as int)),
        decreases cs@.len() - i,
    {
        let ghost now = s@.take(i as int);
        let ghost next = s@.take(i + 1);
        assert(next.drop_last() =~= now);
        assert(next.last() == s@[i as int]);
        if cs[i].is_whitespace() {
            proof {
                lemma_word_start(now);
                if start < i {
                    assert(now.take(start as int) =~= s@.take(start as int));
                    assert(now.skip(start as int) =~= s@.subrange(start as int, i as int));
                    assert(!is_space(now.last()));
                } else {
                    assert(now =~= s@.take(start as int));
                }
            }
            if start < i {
                let ghost before = out@;
                let word = string_of(&cs, start, i);
                out.push(word);
                assert(texts(out@) =~= texts(before).push(word@));
            }
            assert(texts(out@) == words(now));
            assert(words(next) == words(now));
            start = i + 1;
        }
        i += 1;
    }
    assert(s@.take(i as int) =~= s@);
    proof {
        lemma_word_start(s@);
    }
    if start < i {
        let ghost before = out@;
        let word = string_of(&cs, start, i);
        out.push(word);
        assert(texts(out@) =~= texts(before).push(word@));
        assert(s@.skip(start as int) =~= s@.subrange(start as int, i as int));
        assert(!is_space(s@.last()));
    }
    out
}

// ---- White space and case ----

proof fn lemma_trimmed_start_pad(pad: Seq<char>, text: Seq<char>)
    requires
        all_space(pad),
    ensures
        trimmed_start(pad + text) == trimmed_start(text),
    decreases pad.len(),
{
    if pad.len() == 0 {
        assert(pad + text =~= text);
    } else {
        assert(is_space(pad[0]));
        assert((pad + text).drop_first() =~= pad.drop_first() + text);
        lemma_trimmed_start_pad(pad.drop_first(), text);
    }
}

proof fn lemma_trimmed_end_pad(text: Seq<char>, pad: Seq<char>)
    requires
        all_space(pad),
    ensures
        trimmed_end(text + pad) == trimmed_end(text),
    decreases pad.len(),
{
    if pad.len() == 0 {
        assert(text + pad =~= text);
    } else {
        assert(is_space(pad[pad.len() - 1]));
        assert((text + pad).drop_last() =~= text + pad.drop_last());
        lemma_trimmed_end_pad(text, pad.drop_last());
    }
}

proof fn lemma_trimmed_start_tail(text: Seq<char>, pad: Seq<char>)
    requires
        all_space(pad),
    ensures
        trimmed_start(text).len() > 0 ==> trimmed_start(text + pad) == trimmed_start(text) + pad,
        trimmed_start(text).len() == 0 ==> trimmed_start(text + pad) == Seq::<char>::empty(),
    decreases text.len(),
{
    if text.len() == 0 {
        lemma_trimmed_start_pad(pad, Seq::empty());
        assert(pad + Seq::<char>::empty() =~= pad);
        assert(text + pad =~= pad);
    } else if is_space(text[0]) {
        assert((text + pad).drop_first() =~= text.drop_first() + pad);
        lemma_trimmed_start_tail(text.drop_first(), pad);
    }
}

/// White space around a text is trimmed away with what the text has of its own.
pub proof fn trimming_ignores_padding(before: Seq<char>, text: Seq<char>, after: Seq<char>)
    requires
        all_space(before),
        all_space(after),
    ensures
        trimmed(before + text + after) == trimmed(text),
{
    assert(before + text + after =~= before + (text + after));
    lemma_trimmed_start_pad(before, text + after);
    lemma_trimmed_start_tail(text, after);
    if trimmed_start(text).len() > 0 {
        lemma_trimmed_end_pad(trimmed_start(text), after);
    }
}

/// An ASCII text with its letters in upper case.
pub open spec fn uppered(text: Seq<char>) -> Seq<char> {
    text.map_values(|c: char| ascii_upper(c))
}

proof fn lemma_space_upper(c: char)
    requires
        c <= '\u{7f}',
    ensures
        is_space(ascii_upper(c)) == is_space(c),
        ascii_upper(c) <= '\u{7f}',
        ascii_lower(ascii_upper(c)) == ascii_lower(c),
{
    reveal(is_space);
}

proof fn lemma_trimmed_start_upper(text: Seq<char>)
    requires
        is_ascii_text(text),
    ensures
        trimmed_start(uppered(text)) == uppered(trimmed_start(text)),
        is_ascii_text(trimmed_start(text)),
    decreases text.len(),
{
    if text.len() > 0 {
        lemma_space_upper(text[0]);
        assert(uppered(text).drop_first() =~= uppered(text.drop_first()));
        lemma_trimmed_start_upper(text.drop_first());
    }
}

proof fn lemma_trimmed_end_upper(text: Seq<char>)
    requires
        is_ascii_text(text),
    ensures
        trimmed_end(uppered(text)) == uppered(trimmed_end(text)),
        is_ascii_text(trimmed_end(text)),
    decreases text.len(),
{
    if text.len() > 0 {
        lemma_space_upper(text.last());
        assert(uppered(text).drop_last() =~= uppered(text.drop_last()));
        lemma_trimmed_end_upper(text.drop_last());
    }
}

/// Of ASCII, the lower case is the same whatever case the letters had, with white space trimmed and without.
pub proof fn lower_case_forgets_case(text: Seq<char>)
    requires
        is_ascii_text(text),
    ensures
        lowercase(uppered(text)) == lowercase(text),
        lowercase(trimmed(uppered(text))) == lowercase(trimmed(text)),
{
    lemma_trimmed_start_upper(text);
    lemma_trimmed_end_upper(trimmed_start(text));
    lemma_lowercase_upper(text);
    lemma_lowercase_upper(trimmed(text));
}

proof fn lemma_lowercase_upper(text: Seq<char>)
    requires
        is_ascii_text(text),
    ensures
        lowercase(uppered(text)) == lowercase(text),
{
    reveal(lowercase);
    assert forall|i: int| 0 <= i < text.len() implies #[trigger] uppered(text)[i] <= '\u{7f}' && ascii_lower(
        uppered(text)[i],
    ) == ascii_lower(text[i]) by {
        lemma_space_upper(text[i]);
    }
    assert(uppered(text).map_values(|c: char| ascii_lower(c)) =~= text.map_values(|c: char| ascii_lower(c)));
}

} // verus!
