//! In which style a line is shown.

use crate::message::line::{
    covering_highlight, cuts_run_through_the_line, highlight_cuts, highlight_style, increasing, insert_cut, insert_range,
    lemma_insert_cut, line_cuts, line_spans, min_len, prefix_cuts, prefix_style, range_style, ranges_fit, LineView,
    StyledPrefix,
};
use crate::message::rendered::{TextHighlight, TextHighlightKind};
use crate::message::wrap::sat_add;
use crate::style::{Style, Theme};
use crate::text::{byte_slice, utf8_len};
use vstd::prelude::*;

verus! {

/// Whether the ends of a range, as far as the text goes, are cuts.
spec fn has_ends(cuts: Seq<usize>, start: usize, end: usize, len: usize) -> bool {
    min_len(start, len) < min_len(end, len) ==> cuts.contains(min_len(start, len)) && cuts.contains(min_len(end, len))
}

proof fn lemma_range(cuts: Seq<usize>, start: usize, end: usize, len: usize)
    requires
        increasing(cuts),
    ensures
        increasing(insert_range(cuts, start, end, len)),
        has_ends(insert_range(cuts, start, end, len), start, end, len),
        forall|y: usize| cuts.contains(y) ==> #[trigger] insert_range(cuts, start, end, len).contains(y),
{
    let (from, to) = (min_len(start, len), min_len(end, len));
    if from < to {
        lemma_insert_cut(cuts, from);
        lemma_insert_cut(insert_cut(cuts, from), to);
    }
}

proof fn lemma_highlight_ends(hs: Seq<TextHighlight>, len: usize)
    ensures
        increasing(highlight_cuts(hs, len)),
        forall|i: int| 0 <= i < hs.len() ==> has_ends(highlight_cuts(hs, len), (#[trigger] hs[i]).start, hs[i].end, len),
    decreases hs.len(),
{
    if hs.len() == 0 {
        lemma_insert_cut(seq![], 0);
        lemma_insert_cut(insert_cut(seq![], 0), len);
    } else {
        let rest = hs.drop_last();
        lemma_highlight_ends(rest, len);
        let before = highlight_cuts(rest, len);
        lemma_range(before, hs.last().start, hs.last().end, len);
        assert forall|i: int| 0 <= i < hs.len() implies has_ends(
            highlight_cuts(hs, len),
            (#[trigger] hs[i]).start,
            hs[i].end,
            len,
        ) by {
            if i < rest.len() {
                assert(rest[i] == hs[i]);
                assert(has_ends(before, rest[i].start, rest[i].end, len));
            }
        }
    }
}

proof fn lemma_prefix_ends(cuts: Seq<usize>, ps: Seq<StyledPrefix>, len: usize)
    requires
        increasing(cuts),
    ensures
        increasing(prefix_cuts(cuts, ps, len)),
        forall|y: usize| cuts.contains(y) ==> #[trigger] prefix_cuts(cuts, ps, len).contains(y),
        forall|i: int|
            0 <= i < ps.len() ==> has_ends(
                prefix_cuts(cuts, ps, len),
                (#[trigger] ps[i]).start,
                sat_add(ps[i].start, ps[i].len),
                len,
            ),
    decreases ps.len(),
{
    if ps.len() > 0 {
        let rest = ps.drop_last();
        lemma_prefix_ends(cuts, rest, len);
        let before = prefix_cuts(cuts, rest, len);
        let p = ps.last();
        lemma_range(before, p.start, sat_add(p.start, p.len), len);
        assert forall|i: int| 0 <= i < ps.len() implies has_ends(
            prefix_cuts(cuts, ps, len),
            (#[trigger] ps[i]).start,
            sat_add(ps[i].start, ps[i].len),
            len,
        ) by {
            if i < rest.len() {
                assert(rest[i] == ps[i]);
                assert(has_ends(before, rest[i].start, sat_add(rest[i].start, rest[i].len), len));
            }
        }
    }
}

/// A range covers the bytes between two cuts if and only if it holds any of them.
proof fn lemma_covers(cuts: Seq<usize>, k: int, b: int, start: usize, end: usize, len: usize)
    requires
        increasing(cuts),
        0 <= k < cuts.len() - 1,
        cuts[k] <= b < cuts[k + 1],
        cuts[k + 1] <= len,
        has_ends(cuts, start, end, len),
    ensures
        start <= cuts[k] && cuts[k + 1] <= end <==> start <= b < end,
{
    if start <= b < end {
        let (from, to) = (min_len(start, len), min_len(end, len));
        let i = choose|i: int| 0 <= i < cuts.len() && cuts[i] == from;
        let j = choose|j: int| 0 <= j < cuts.len() && cuts[j] == to;
        if i > k {
            assert(i == k + 1 || cuts[k + 1] < cuts[i]);
        }
        if j <= k {
            assert(j == k || cuts[j] < cuts[k]);
        }
        assert(i == k || cuts[i] < cuts[k]);
        assert(j == k + 1 || cuts[k + 1] < cuts[j]);
    }
}

/// Whether a range of bytes with a style holds a byte.
pub open spec fn is_ranged(p: StyledPrefix, b: int) -> bool {
    p.start <= b < p.start + p.len
}

/// Whether a highlight holds a byte.
pub open spec fn is_lit(h: TextHighlight, b: int) -> bool {
    h.start <= b < h.end
}

/// The style of a byte without its highlight: that of the last range that replaces it, with those of the later ranges
/// that are laid over it; or the style of the line with them.
pub open spec fn ground(ps: Seq<StyledPrefix>, base: Style, b: int) -> Style
    decreases ps.len(),
{
    if ps.len() == 0 {
        base
    } else {
        let (below, p) = (ground(ps.drop_last(), base, b), ps[ps.len() - 1]);
        if is_ranged(p, b) && p.patch_base {
            below.patched(p.style)
        } else if is_ranged(p, b) {
            p.style
        } else {
            below
        }
    }
}

proof fn lemma_ground(line: LineView, cuts: Seq<usize>, k: int, b: int, n: int)
    requires
        increasing(cuts),
        0 <= k < cuts.len() - 1,
        cuts[k] <= b < cuts[k + 1],
        cuts[k + 1] <= utf8_len(line.text) <= usize::MAX,
        forall|i: int|
            0 <= i < line.styled_prefixes.len() ==> has_ends(
                cuts,
                (#[trigger] line.styled_prefixes[i]).start,
                sat_add(line.styled_prefixes[i].start, line.styled_prefixes[i].len),
                utf8_len(line.text) as usize,
            ),
        0 <= n <= line.styled_prefixes.len(),
    ensures
        prefix_style(line.styled_prefixes.take(n), line.style, cuts[k], cuts[k + 1]) == ground(
            line.styled_prefixes.take(n),
            line.style,
            b,
        ),
    decreases n,
{
    if n > 0 {
        lemma_ground(line, cuts, k, b, n - 1);
        let ps = line.styled_prefixes.take(n);
        let p = line.styled_prefixes[n - 1];
        assert(ps.drop_last() =~= line.styled_prefixes.take(n - 1));
        assert(ps[n - 1] == p);
        lemma_covers(cuts, k, b, p.start, sat_add(p.start, p.len), utf8_len(line.text) as usize);
        assert(p.covers(cuts[k], cuts[k + 1]) == is_ranged(p, b));
    } else {
        assert(line.styled_prefixes.take(0) =~= Seq::<StyledPrefix>::empty());
    }
}

proof fn lemma_lit(hs: Seq<TextHighlight>, cuts: Seq<usize>, k: int, b: int, len: usize)
    requires
        increasing(cuts),
        0 <= k < cuts.len() - 1,
        cuts[k] <= b < cuts[k + 1],
        cuts[k + 1] <= len,
        forall|i: int| 0 <= i < hs.len() ==> has_ends(cuts, (#[trigger] hs[i]).start, hs[i].end, len),
    ensures
        match covering_highlight(hs, cuts[k], cuts[k + 1]) {
            None => forall|i: int| 0 <= i < hs.len() ==> !is_lit(#[trigger] hs[i], b),
            Some(h) => exists|i: int|
                0 <= i < hs.len() && #[trigger] hs[i] == h && is_lit(hs[i], b) && forall|j: int|
                    0 <= j < i ==> !is_lit(#[trigger] hs[j], b),
        },
    decreases hs.len(),
{
    if hs.len() > 0 {
        let rest = hs.drop_first();
        lemma_covers(cuts, k, b, hs[0].start, hs[0].end, len);
        assert forall|i: int| 0 <= i < rest.len() implies has_ends(cuts, (#[trigger] rest[i]).start, rest[i].end, len) by {
            assert(rest[i] == hs[i + 1]);
        }
        lemma_lit(rest, cuts, k, b, len);
        if is_lit(hs[0], b) {
            assert(hs[0] == covering_highlight(hs, cuts[k], cuts[k + 1])->0);
        } else {
            match covering_highlight(hs, cuts[k], cuts[k + 1]) {
                None => {
                    assert forall|i: int| 0 <= i < hs.len() implies !is_lit(#[trigger] hs[i], b) by {
                        if i > 0 {
                            assert(rest[i - 1] == hs[i]);
                        }
                    }
                },
                Some(h) => {
                    let i = choose|i: int|
                        0 <= i < rest.len() && #[trigger] rest[i] == h && is_lit(rest[i], b) && forall|j: int|
                            0 <= j < i ==> !is_lit(#[trigger] rest[j], b);
                    assert(hs[i + 1] == h);
                    assert forall|j: int| 0 <= j < i + 1 implies !is_lit(#[trigger] hs[j], b) by {
                        if j > 0 {
                            assert(rest[j - 1] == hs[j]);
                        }
                    }
                },
            }
        }
    }
}

/// Every byte of a line is shown in its style: that of the ranges that hold it, or of the line, and over it that of the
/// first highlight that holds the byte, if there is one. The spans are given by the places where they begin.
pub proof fn every_byte_has_its_style(line: LineView, theme: Theme, k: int, b: int) -> (cuts: Seq<usize>)
    requires
        ranges_fit(line),
        utf8_len(line.text) <= usize::MAX,
        0 <= k < line_spans(line, theme).len(),
        line_cuts(line)[k] <= b < line_cuts(line)[k + 1],
    ensures
        ({
            let own = ground(line.styled_prefixes, line.style, b);
            let span = line_spans(line, theme)[k];
            let hs = line.mention_highlights;
            &&& cuts.len() == line_spans(line, theme).len() + 1
            &&& increasing(cuts)
            &&& cuts[0] == 0 && cuts[cuts.len() - 1] == utf8_len(line.text)
            &&& cuts[k] <= b < cuts[k + 1]
            &&& span.content == byte_slice(line.text, cuts[k] as int, cuts[k + 1] as int)
            &&& (forall|i: int| 0 <= i < hs.len() ==> !is_lit(#[trigger] hs[i], b)) ==> span.style == own
            &&& forall|i: int|
                0 <= i < hs.len() && is_lit(#[trigger] hs[i], b) && (forall|j: int| 0 <= j < i ==> !is_lit(#[trigger] hs[j], b))
                    ==> span.style == own.patched(highlight_style(hs[i].kind, theme))
        }),
{
    cuts_run_through_the_line(line);
    let cuts = line_cuts(line);
    let len = utf8_len(line.text) as usize;
    let (hs, ps) = (line.mention_highlights, line.styled_prefixes);
    lemma_highlight_ends(hs, len);
    lemma_prefix_ends(highlight_cuts(hs, len), ps, len);
    assert(cuts[k + 1] <= len) by {
        assert(k + 1 == cuts.len() - 1 || cuts[k + 1] < cuts[cuts.len() - 1]);
    }
    assert forall|i: int| 0 <= i < hs.len() implies has_ends(cuts, (#[trigger] hs[i]).start, hs[i].end, len) by {
        assert(has_ends(highlight_cuts(hs, len), hs[i].start, hs[i].end, len));
    }
    lemma_ground(line, cuts, k, b, ps.len() as int);
    assert(ps.take(ps.len() as int) =~= ps);
    lemma_lit(hs, cuts, k, b, len);
    let own = ground(ps, line.style, b);
    let span = line_spans(line, theme)[k];
    assert(span.style == range_style(line, cuts[k], cuts[k + 1], theme));
    assert forall|i: int|
        0 <= i < hs.len() && is_lit(#[trigger] hs[i], b) && (forall|j: int| 0 <= j < i ==> !is_lit(#[trigger] hs[j], b)) implies span.style
        == own.patched(highlight_style(hs[i].kind, theme)) by {
        match covering_highlight(hs, cuts[k], cuts[k + 1]) {
            None => {},
            Some(h) => {
                let m = choose|m: int|
                    0 <= m < hs.len() && #[trigger] hs[m] == h && is_lit(hs[m], b) && forall|j: int|
                        0 <= j < m ==> !is_lit(#[trigger] hs[j], b);
                if m < i {
                    assert(!is_lit(hs[m], b));
                } else if i < m {
                    assert(!is_lit(hs[i], b));
                }
            },
        }
    }
    cuts
}

/// Mentions of oneself, of others and of roles, and links, each have the style of the theme; a role has its own color,
/// and its background, unless it calls the user or the theme says otherwise.
pub proof fn highlights_have_the_style_of_their_kind(kind: TextHighlightKind, theme: Theme)
    ensures
        kind is SelfMention ==> highlight_style(kind, theme) == theme.mention_self,
        kind is OtherMention ==> highlight_style(kind, theme) == theme.mention_other,
        kind is Url ==> highlight_style(kind, theme) == theme.message_link,
        kind matches TextHighlightKind::RoleMention { foreground, background, notifies_current_user } ==> {
            let style = highlight_style(kind, theme);
            let base = if notifies_current_user { theme.mention_self } else { theme.mention_role };
            &&& style.fg == (if foreground is Some {
                foreground
            } else {
                base.fg
            })
            &&& style.bg == (if !notifies_current_user && base.bg is None && !theme.mention_role_background_cleared {
                Some(background)
            } else {
                base.bg
            })
            &&& style.add_modifier == base.add_modifier && style.sub_modifier == base.sub_modifier
        },
{
}

} // verus!
