//! Plain text in lines: what fits stays together.

use crate::message::rendered::TextHighlight;
use crate::message::wrap::{
    break_at_separator, break_before, clusters_of, line_of, move_word, note_word_start, overflows,
    take_cluster, wrap_clusters, wrap_line, wrap_step, WrapState, WrappedView,
};
use crate::unicode::{all_space, display_width, graphemes, is_plain, is_space, singles};
use vstd::prelude::*;

verus! {

/// A cluster of plain text is a character that takes one column.
proof fn lemma_plain_cluster(line: Seq<char>, start: usize, k: int)
    requires
        is_plain(line),
        0 <= k < line.len(),
    ensures
        ({
            let c = clusters_of(singles(line), start, seq![], k);
            &&& c.text == seq![line[k]]
            &&& c.slot is None
            &&& c.needed_width() == 1
            &&& display_width(c.text) == 1
            &&& c.is_separator() <==> line[k] == ' '
        }),
{
    let text = seq![line[k]];
    reveal(display_width);
    reveal(is_space);
    assert(is_plain(text)) by {
        assert(' ' <= line[k] <= '~');
    }
    assert(singles(line)[k] =~= text);
    if line[k] == ' ' {
        assert(all_space(text));
    } else {
        assert(' ' <= line[k] <= '~');
        assert(!is_space(text[0]));
    }
}

// ---- Text that fits ----

proof fn lemma_fits(line: Seq<char>, start: usize, highlights: Seq<TextHighlight>, width: usize, k: nat)
    requires
        is_plain(line),
        k <= line.len() <= width,
    ensures
        ({
            let st = wrap_clusters(singles(line), start, highlights, seq![], width, k);
            &&& st.lines.len() == 0
            &&& st.text == line.take(k as int)
            &&& st.width == k
            &&& st.start == start
            &&& st.slots.len() == 0
        }),
    decreases k,
{
    let st = wrap_clusters(singles(line), start, highlights, seq![], width, k);
    if k == 0 {
        assert(st.text =~= line.take(0));
    } else {
        let j = (k - 1) as nat;
        lemma_fits(line, start, highlights, width, j);
        lemma_plain_cluster(line, start, j as int);
        assert(line.take(j as int) + seq![line[j as int]] =~= line.take(k as int));
    }
}

/// Plain text that fits the width is one line.
pub proof fn plain_text_that_fits_is_one_line(line: Seq<char>, start: usize, highlights: Seq<TextHighlight>, width: usize)
    requires
        is_plain(line),
        0 < line.len() <= width,
    ensures
        wrap_line(line, start, highlights, seq![], width).len() == 1,
        wrap_line(line, start, highlights, seq![], width)[0].text == line,
        wrap_line(line, start, highlights, seq![], width)[0].image_slots.len() == 0,
{
    reveal(graphemes);
    lemma_fits(line, start, highlights, width, line.len());
    assert(line.take(line.len() as int) =~= line);
}

// ---- Words that fit ----

/// Whether a text has a word from `a` to `b`: one behind a single space, or at the start of the text.
pub open spec fn has_word(line: Seq<char>, a: int, b: int) -> bool {
    &&& 0 <= a < b <= line.len()
    &&& forall|i: int| a <= i < b ==> #[trigger] line[i] != ' '
    &&& a == 0 || (a >= 2 && line[a - 1] == ' ' && line[a - 2] != ' ')
    &&& b == line.len() || line[b] == ' '
}

/// Whether a line holds the characters from `a` to `b` of a text, with what stands around them there.
pub open spec fn line_holds(l: WrappedView, line: Seq<char>, a: int, b: int) -> bool {
    exists|from: int, to: int|
        0 <= from <= a && b <= to <= line.len() && l.text == #[trigger] line.subrange(from, to)
}

/// Whether one of the lines does.
pub open spec fn hold_word(lines: Seq<WrappedView>, line: Seq<char>, a: int, b: int) -> bool {
    exists|i: int| 0 <= i < lines.len() && #[trigger] line_holds(lines[i], line, a, b)
}

/// The line being filled holds the characters from `from` to `k`, and a break can be made inside it.
spec fn filling_plain(st: WrapState, line: Seq<char>, from: int, k: int) -> bool {
    &&& 0 <= from <= k <= line.len()
    &&& st.text == line.subrange(from, k)
    &&& st.width == k - from
    &&& k > 0 ==> st.after_space == (line[k - 1] == ' ')
    &&& st.boundary matches Some(b) ==> 0 < b.chars <= k - from && b.width == b.chars
}

/// The word is not broken: before its end it begins the line being filled, or a break can be made before it. Behind
/// its end, a line holds it.
spec fn keeps_word(st: WrapState, line: Seq<char>, from: int, k: int, a: int, b: int) -> bool {
    &&& k + 1 == a ==> from < k
    &&& k == a ==> (from == a && st.boundary is None) || from + 1 < a
    &&& a < k < b ==> (from == a && st.boundary is None) || (from < a && (st.boundary matches Some(p) && from + p.chars
        == a))
    &&& b <= k ==> hold_word(st.lines, line, a, b) || (from <= a && (st.boundary matches Some(p) ==> from + p.chars == a
        || from + p.chars >= b))
}

proof fn lemma_more_lines(lines: Seq<WrappedView>, l: WrappedView, line: Seq<char>, a: int, b: int)
    ensures
        hold_word(lines, line, a, b) ==> hold_word(lines.push(l), line, a, b),
        line_holds(l, line, a, b) ==> hold_word(lines.push(l), line, a, b),
{
    let all = lines.push(l);
    if hold_word(lines, line, a, b) {
        let i = choose|i: int| 0 <= i < lines.len() && #[trigger] line_holds(lines[i], line, a, b);
        assert(line_holds(all[i], line, a, b));
    }
    if line_holds(l, line, a, b) {
        assert(line_holds(all[lines.len() as int], line, a, b));
    }
}

/// What noting the start of a word does.
proof fn lemma_note_plain(
    st0: WrapState,
    line: Seq<char>,
    start: usize,
    from: int,
    k: int,
    a: int,
    b: int,
)
    requires
        is_plain(line),
        has_word(line, a, b),
        k < line.len(),
        filling_plain(st0, line, from, k),
        keeps_word(st0, line, from, k, a, b),
    ensures
        ({
            let st = note_word_start(st0, clusters_of(singles(line), start, seq![], k));
            &&& st == (WrapState { boundary: st.boundary, ..st0 })
            &&& filling_plain(st, line, from, k)
            &&& k == a ==> (from == a && st.boundary is None) || (from < a && (st.boundary matches Some(p) && from
                + p.chars == a))
            &&& k != a ==> keeps_word(st, line, from, k, a, b)
        }),
{
    lemma_plain_cluster(line, start, k);
    let st = note_word_start(st0, clusters_of(singles(line), start, seq![], k));
    if k == a && from < a {
        assert(st0.text[a - 2 - from] == line[a - 2]);
        assert(!is_space(line[a - 2])) by {
            reveal(is_space);
            assert(' ' <= line[a - 2] <= '~');
        }
        assert(!all_space(st0.text));
    }
    if k == a && from == a {
        assert(st0.text.len() == 0);
        assert(all_space(st0.text));
    }
    if a < k < b {
        assert(line[k - 1] != ' ');
    }
}

/// One more cluster.
proof fn lemma_plain_step(
    st: WrapState,
    line: Seq<char>,
    start: usize,
    highlights: Seq<TextHighlight>,
    width: usize,
    from: int,
    k: int,
    a: int,
    b: int,
) -> (r: int)
    requires
        is_plain(line),
        has_word(line, a, b),
        b - a <= width,
        k < line.len() <= usize::MAX,
        filling_plain(st, line, from, k),
        k == a ==> (from == a && st.boundary is None) || (from < a && (st.boundary matches Some(p) && from + p.chars
            == a)),
        k != a ==> keeps_word(st, line, from, k, a, b),
    ensures
        ({
            let c = clusters_of(singles(line), start, seq![], k);
            let after = if !overflows(st, c, width) {
                take_cluster(st, c)
            } else if c.is_separator() {
                break_at_separator(st, c, highlights)
            } else {
                take_cluster(break_before(st, c, highlights, width), c)
            };
            &&& filling_plain(after, line, r, k + 1)
            &&& keeps_word(after, line, r, k + 1, a, b)
        }),
{
    let c = clusters_of(singles(line), start, seq![], k);
    lemma_plain_cluster(line, start, k);
    assert(line.subrange(from, k) + seq![line[k]] =~= line.subrange(from, k + 1));
    if !overflows(st, c, width) {
        let after = take_cluster(st, c);
        assert(filling_plain(after, line, from, k + 1));
        from
    } else if line[k] == ' ' {
        let done = line_of(st.text, st.start, st.end, highlights, st.slots);
        let after = break_at_separator(st, c, highlights);
        assert(after.text =~= line.subrange(k + 1, k + 1));
        if b <= k && from <= a {
            assert(line_holds(done, line, a, b));
        }
        lemma_more_lines(st.lines, done, line, a, b);
        k + 1
    } else {
        let next = move_word(st, c, highlights);
        match st.boundary {
            Some(p) if p.chars < st.text.len() => {
                let to = from + p.chars;
                let done = line_of(st.text.take(p.chars), st.start, p.source_start, highlights, st.slots.take(p.slot_count));
                assert(st.text.take(p.chars) =~= line.subrange(from, to));
                if b <= to && from <= a {
                    assert(line_holds(done, line, a, b));
                }
                lemma_more_lines(st.lines, done, line, a, b);
                assert(next.text + seq![line[k]] =~= line.subrange(to, k + 1));
                to
            },
            _ => {
                let done = line_of(st.text, st.start, st.end, highlights, st.slots);
                if b <= k && from <= a {
                    assert(line_holds(done, line, a, b));
                }
                lemma_more_lines(st.lines, done, line, a, b);
                assert(next.text + seq![line[k]] =~= line.subrange(k, k + 1));
                k
            },
        }
    }
}

proof fn lemma_word(
    line: Seq<char>,
    start: usize,
    highlights: Seq<TextHighlight>,
    width: usize,
    k: nat,
    a: int,
    b: int,
) -> (r: int)
    requires
        is_plain(line),
        has_word(line, a, b),
        b - a <= width,
        k <= line.len() <= usize::MAX,
    ensures
        ({
            let st = wrap_clusters(singles(line), start, highlights, seq![], width, k);
            &&& filling_plain(st, line, r, k as int)
            &&& keeps_word(st, line, r, k as int, a, b)
        }),
    decreases k,
{
    let st = wrap_clusters(singles(line), start, highlights, seq![], width, k);
    if k == 0 {
        assert(st.text =~= line.subrange(0, 0));
        0
    } else {
        let j = k - 1;
        let from = lemma_word(line, start, highlights, width, j as nat, a, b);
        let st0 = wrap_clusters(singles(line), start, highlights, seq![], width, j as nat);
        let c = clusters_of(singles(line), start, seq![], j);
        lemma_plain_cluster(line, start, j);
        lemma_note_plain(st0, line, start, from, j, a, b);
        assert(st == wrap_step(st0, c, highlights, width));
        lemma_plain_step(note_word_start(st0, c), line, start, highlights, width, from, j, a, b)
    }
}

/// A word of plain text that fits the width is not broken, whatever stands around it: one of the lines holds it.
pub proof fn words_that_fit_stay_whole(
    line: Seq<char>,
    start: usize,
    highlights: Seq<TextHighlight>,
    width: usize,
    a: int,
    b: int,
)
    requires
        is_plain(line),
        line.len() <= usize::MAX,
        has_word(line, a, b),
        b - a <= width,
    ensures
        hold_word(wrap_line(line, start, highlights, seq![], width), line, a, b),
{
    reveal(graphemes);
    let n = line.len();
    let from = lemma_word(line, start, highlights, width, n, a, b);
    let st = wrap_clusters(singles(line), start, highlights, seq![], width, n);
    let done = line_of(st.text, st.start, st.end, highlights, st.slots);
    if from <= a {
        assert(line_holds(done, line, a, b));
    }
    lemma_more_lines(st.lines, done, line, a, b);
}

} // verus!
