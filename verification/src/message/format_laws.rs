//! What formatting a text to lines keeps of it.

use crate::message::line::StyledPrefix;
use crate::message::rendered::{EmojiSlotView, RenderedView, TextHighlight, TextHighlightKind};
use crate::message::rich::{link_highlights, with_links};
use crate::message::styled::{clip_ranges, content_lines};
use crate::message::wrap::{
    clip_highlights, cuts_cover, lemma_slice_of_slice, lemma_split_offsets, line_is_slice, lines_are_slices,
    source_line_char, source_line_start, wrap_clusters, wrap_line, wrap_source_lines, wrap_width,
    wrapped_with_metadata, wrapping_drops_only_white_space, WrappedView,
};
use crate::message::wrap_words::{has_word, line_holds, plain_text_that_fits_is_one_line, words_that_fit_stay_whole};
use crate::style::Style;
use crate::text::{byte_at, concat, first_index, lemma_first_index, lemma_first_index_is, split_on, utf8_len};
use crate::unicode::{all_space, graphemes, is_plain, is_space};
use vstd::prelude::*;

verus! {

/// Whether the clusters of each line of a text, put together, are the line again. They are, for every text that was
/// split into clusters.
pub open spec fn clusters_join(text: Seq<char>) -> bool {
    forall|k: int|
        0 <= k < split_on(text, '\n').len() ==> concat(graphemes(#[trigger] split_on(text, '\n')[k])) == split_on(
            text,
            '\n',
        )[k]
}

/// Whether a text holds no line feed.
pub open spec fn is_one_line(s: Seq<char>) -> bool {
    forall|i: int| 0 <= i < s.len() ==> #[trigger] s[i] != '\n'
}

// ---- Source lines ----

proof fn lemma_source_shape(value: Seq<char>)
    ensures
        ({
            let source = split_on(value, '\n');
            &&& source.len() > 0
            &&& source_line_char(source, source.len() as int) == value.len() + 1
            &&& forall|k: int| 0 <= k < source.len() ==> is_one_line(#[trigger] source[k])
            &&& forall|k: int|
                0 < k < source.len() ==> value[#[trigger] source_line_char(source, k) - 1] == '\n'
        }),
    decreases value.len(),
{
    let source = split_on(value, '\n');
    let i = first_index(value, '\n');
    lemma_first_index(value, '\n');
    if i >= value.len() {
        reveal_with_fuel(source_line_char, 2);
    } else {
        let rest_text = value.skip(i + 1);
        let rest = split_on(rest_text, '\n');
        lemma_source_shape(rest_text);
        assert(source =~= seq![value.take(i)] + rest);
        assert forall|k: int| 1 <= k <= source.len() implies source_line_char(source, k) == i + 1 + source_line_char(
            rest,
            k - 1,
        ) by {
            lemma_char_shift(value.take(i), rest, k);
        }
        assert forall|k: int| 0 <= k < source.len() implies is_one_line(#[trigger] source[k]) by {
            if k > 0 {
                assert(source[k] == rest[k - 1]);
            }
        }
        assert forall|k: int| 0 < k < source.len() implies value[#[trigger] source_line_char(source, k) - 1] == '\n' by {
            if k == 1 {
                assert(source_line_char(rest, 0) == 0);
                assert(source_line_char(source, 1) == i + 1);
            } else {
                let at = source_line_char(rest, k - 1);
                lemma_split_offsets(rest_text, k - 1);
                assert(rest_text[at - 1] == '\n');
                lemma_char_positive(rest, k - 1);
                assert(value[i + 1 + at - 1] == rest_text[at - 1]);
            }
        }
    }
}

proof fn lemma_char_positive(source: Seq<Seq<char>>, k: int)
    requires
        1 <= k <= source.len(),
    ensures
        source_line_char(source, k) >= 1,
    decreases k,
{
    if k > 1 {
        lemma_char_positive(source, k - 1);
    } else {
        reveal_with_fuel(source_line_char, 2);
    }
}

proof fn lemma_char_shift(first: Seq<char>, rest: Seq<Seq<char>>, k: int)
    requires
        1 <= k <= rest.len() + 1,
    ensures
        source_line_char(seq![first] + rest, k) == first.len() + 1 + source_line_char(rest, k - 1),
    decreases k,
{
    let all = seq![first] + rest;
    if k > 1 {
        lemma_char_shift(first, rest, k - 1);
        assert(all[k - 1] == rest[k - 2]);
    } else {
        reveal_with_fuel(source_line_char, 2);
        assert(all[0] == first);
    }
}

/// Whether what lies between a cut and the next, or the end, is white space.
pub open spec fn gap_is_space(cuts: Seq<(int, int)>, end: int, text: Seq<char>, k: int) -> bool {
    let next = if k + 1 < cuts.len() { cuts[k + 1].0 } else { end };
    &&& 0 <= cuts[k].0 <= cuts[k].1 <= next <= text.len()
    &&& all_space(text.subrange(cuts[k].1, next))
}

/// Whether cuts run through a text to `end`, with white space between them.
spec fn run_through(cuts: Seq<(int, int)>, end: int, text: Seq<char>) -> bool {
    &&& cuts.len() == 0 ==> end == 0
    &&& cuts.len() > 0 ==> cuts[0].0 == 0
    &&& forall|k: int| 0 <= k < cuts.len() ==> #[trigger] gap_is_space(cuts, end, text, k)
}

proof fn lemma_run_through(cuts: Seq<(int, int)>, end: int, text: Seq<char>)
    requires
        cuts_cover(cuts, end, text),
    ensures
        run_through(cuts, end, text),
{
    assert forall|k: int| 0 <= k < cuts.len() implies #[trigger] gap_is_space(cuts, end, text, k) by {
        assert(cuts[k].0 == cuts[k].0);
    }
}

/// Whether each line is a piece of one line of a text.
spec fn are_pieces(lines: Seq<WrappedView>, cuts: Seq<(int, int)>, value: Seq<char>) -> bool {
    &&& lines.len() == cuts.len()
    &&& forall|k: int|
        0 <= k < lines.len() ==> line_is_slice(#[trigger] lines[k], cuts[k], value, 0) && is_one_line(lines[k].text)
}

spec fn moved(cuts: Seq<(int, int)>, at: int) -> Seq<(int, int)> {
    Seq::new(cuts.len(), |i: int| (at + cuts[i].0, at + cuts[i].1))
}

proof fn lemma_joined_pieces(
    before: Seq<WrappedView>,
    cuts: Seq<(int, int)>,
    value: Seq<char>,
    piece: Seq<char>,
    at: int,
    added: Seq<WrappedView>,
    more: Seq<(int, int)>,
)
    requires
        are_pieces(before, cuts, value),
        0 <= at,
        at + piece.len() <= value.len(),
        value.subrange(at, at + piece.len()) == piece,
        is_one_line(piece),
        lines_are_slices(added, more, piece, byte_at(value, at) as int),
    ensures
        are_pieces(before + added, cuts + moved(more, at), value),
{
    let all = cuts + moved(more, at);
    let lines = before + added;
    let n = cuts.len() as int;
    assert forall|k: int| 0 <= k < lines.len() implies line_is_slice(#[trigger] lines[k], all[k], value, 0)
        && is_one_line(lines[k].text) by {
        if k < n {
            assert(lines[k] == before[k] && all[k] == cuts[k]);
        } else {
            let j = k - n;
            assert(lines[k] == added[j] && all[k] == moved(more, at)[j]);
            assert(line_is_slice(added[j], more[j], piece, byte_at(value, at) as int));
            lemma_slice_of_slice(added[j], more[j], piece, at, value);
            let text = added[j].text;
            assert forall|i: int| 0 <= i < text.len() implies #[trigger] text[i] != '\n' by {
                assert(text[i] == piece[more[j].0 + i]);
            }
        }
    }
}

proof fn lemma_joined_cuts(
    cuts: Seq<(int, int)>,
    value: Seq<char>,
    piece: Seq<char>,
    at: int,
    more: Seq<(int, int)>,
    end: int,
)
    requires
        run_through(cuts, end, value),
        cuts.len() == 0 ==> at == 0,
        0 <= end <= at,
        all_space(value.subrange(end, at)),
        at + piece.len() <= value.len(),
        value.subrange(at, at + piece.len()) == piece,
        run_through(more, piece.len() as int, piece),
        more.len() > 0,
    ensures
        run_through(cuts + moved(more, at), at + piece.len(), value),
{
    let late = moved(more, at);
    let all = cuts + late;
    let n = cuts.len() as int;
    let to = at + piece.len();
    assert forall|k: int| 0 <= k < all.len() implies #[trigger] gap_is_space(all, to, value, k) by {
        if k < n {
            assert(gap_is_space(cuts, end, value, k));
            assert(all[k] == cuts[k]);
            if k + 1 < n {
                assert(all[k + 1] == cuts[k + 1]);
            } else {
                assert(all[k + 1] == late[0]);
                let gap = value.subrange(cuts[k].1, at);
                assert forall|i: int| 0 <= i < gap.len() implies is_space(#[trigger] gap[i]) by {
                    if i < end - cuts[k].1 {
                        assert(gap[i] == value.subrange(cuts[k].1, end)[i]);
                    } else {
                        assert(gap[i] == value.subrange(end, at)[i - (end - cuts[k].1)]);
                    }
                }
            }
        } else {
            let j = k - n;
            assert(gap_is_space(more, piece.len() as int, piece, j));
            assert(all[k] == late[j]);
            let inner = if j + 1 < more.len() { more[j + 1].0 } else { piece.len() as int };
            if j + 1 < more.len() {
                assert(all[k + 1] == late[j + 1]);
            }
            assert(value.subrange(at + more[j].1, at + inner) =~= piece.subrange(more[j].1, inner));
        }
    }
    if n > 0 {
        assert(all[0] == cuts[0]);
    } else {
        assert(all[0] == late[0]);
    }
}

proof fn lemma_source_lines(
    value: Seq<char>,
    highlights: Seq<TextHighlight>,
    slots: Seq<EmojiSlotView>,
    width: usize,
    k: int,
) -> (cuts: Seq<(int, int)>)
    requires
        clusters_join(value),
        utf8_len(value) <= usize::MAX,
        0 <= k <= split_on(value, '\n').len(),
    ensures
        are_pieces(wrap_source_lines(split_on(value, '\n'), highlights, slots, width, k), cuts, value),
        run_through(
            cuts,
            if k == 0 {
                0
            } else {
                source_line_char(split_on(value, '\n'), k) - 1
            },
            value,
        ),
        k > 0 ==> cuts.len() > 0 && cuts.last().1 == source_line_char(split_on(value, '\n'), k) - 1,
    decreases k,
{
    let source = split_on(value, '\n');
    lemma_source_shape(value);
    if k == 0 {
        seq![]
    } else {
        let cuts = lemma_source_lines(value, highlights, slots, width, k - 1);
        let before = wrap_source_lines(source, highlights, slots, width, k - 1);
        let piece = source[k - 1];
        let at = source_line_char(source, k - 1);
        lemma_split_offsets(value, k - 1);
        assert(concat(graphemes(split_on(value, '\n')[k - 1])) == piece);
        let base = source_line_start(source, k - 1) as usize;
        let added = wrap_line(piece, base, highlights, slots, width);
        let more = wrapping_drops_only_white_space(piece, base, highlights, slots, width);
        lemma_run_through(more, piece.len() as int, piece);
        let end = if k == 1 { 0 } else { at - 1 };
        if k > 1 {
            lemma_char_positive(source, k - 1);
            assert(value[at - 1] == '\n');
            let gap = value.subrange(at - 1, at);
            assert forall|i: int| 0 <= i < gap.len() implies is_space(#[trigger] gap[i]) by {
                assert(gap[i] == '\n');
                reveal(is_space);
            }
        }
        lemma_joined_pieces(before, cuts, value, piece, at, added, more);
        lemma_joined_cuts(cuts, value, piece, at, more, end);
        let all = cuts + moved(more, at);
        assert(all.last() == (at + more.last().0, at + more.last().1));
        assert(source_line_char(source, k) == at + piece.len() + 1);
        all
    }
}

// ---- Highlights and styles ----

/// Whether a byte of a line has a highlight of a kind.
pub open spec fn has_highlight(marks: Seq<TextHighlight>, byte: int, kind: TextHighlightKind) -> bool {
    exists|i: int| 0 <= i < marks.len() && (#[trigger] marks[i]).kind == kind && marks[i].start <= byte < marks[i].end
}

/// Whether a byte of a text has a highlight of a kind: one of the text, or that of a link.
pub open spec fn is_marked(r: RenderedView, links: Seq<(usize, usize)>, byte: int, kind: TextHighlightKind) -> bool {
    ||| has_highlight(r.highlights, byte, kind)
    ||| kind == TextHighlightKind::Url && exists|i: int|
        0 <= i < links.len() && (#[trigger] links[i]).0 <= byte < links[i].1
}

/// Whether a byte has the style of one of some ranges.
pub open spec fn has_style(ranges: Seq<StyledPrefix>, byte: int, style: Style, patch_base: bool) -> bool {
    exists|i: int|
        0 <= i < ranges.len() && (#[trigger] ranges[i]).style == style && ranges[i].patch_base == patch_base
            && ranges[i].start <= byte < ranges[i].start + ranges[i].len
}

proof fn lemma_has_drop(hs: Seq<TextHighlight>, byte: int, kind: TextHighlightKind)
    requires
        hs.len() > 0,
    ensures
        has_highlight(hs, byte, kind) == (has_highlight(hs.drop_last(), byte, kind) || (hs.last().kind == kind
            && hs.last().start <= byte < hs.last().end)),
{
    let rest = hs.drop_last();
    if has_highlight(hs, byte, kind) {
        let i = choose|i: int|
            0 <= i < hs.len() && (#[trigger] hs[i]).kind == kind && hs[i].start <= byte < hs[i].end;
        if i < rest.len() {
            assert(rest[i] == hs[i]);
        }
    }
    if has_highlight(rest, byte, kind) {
        let i = choose|i: int|
            0 <= i < rest.len() && (#[trigger] rest[i]).kind == kind && rest[i].start <= byte < rest[i].end;
        assert(hs[i] == rest[i]);
    }
    assert(hs[hs.len() - 1] == hs.last());
}

pub(crate) proof fn lemma_clip_keeps(hs: Seq<TextHighlight>, start: usize, end: usize, byte: int, kind: TextHighlightKind)
    requires
        start <= byte < end,
    ensures
        has_highlight(clip_highlights(hs, start, end), byte - start, kind) == has_highlight(hs, byte, kind),
    decreases hs.len(),
{
    if hs.len() > 0 {
        lemma_clip_keeps(hs.drop_last(), start, end, byte, kind);
        lemma_has_drop(hs, byte, kind);
        let all = clip_highlights(hs, start, end);
        let before = clip_highlights(hs.drop_last(), start, end);
        if all != before {
            lemma_has_drop(all, byte - start, kind);
            assert(all.drop_last() =~= before);
        }
    }
}

proof fn lemma_style_drop(ps: Seq<StyledPrefix>, byte: int, style: Style, patch: bool)
    requires
        ps.len() > 0,
    ensures
        has_style(ps, byte, style, patch) == (has_style(ps.drop_last(), byte, style, patch) || (ps.last().style == style
            && ps.last().patch_base == patch && ps.last().start <= byte < ps.last().start + ps.last().len)),
{
    let rest = ps.drop_last();
    if has_style(ps, byte, style, patch) {
        let i = choose|i: int|
            0 <= i < ps.len() && (#[trigger] ps[i]).style == style && ps[i].patch_base == patch && ps[i].start <= byte
                < ps[i].start + ps[i].len;
        if i < rest.len() {
            assert(rest[i] == ps[i]);
        }
    }
    if has_style(rest, byte, style, patch) {
        let i = choose|i: int|
            0 <= i < rest.len() && (#[trigger] rest[i]).style == style && rest[i].patch_base == patch && rest[i].start
                <= byte < rest[i].start + rest[i].len;
        assert(ps[i] == rest[i]);
    }
    assert(ps[ps.len() - 1] == ps.last());
}

proof fn lemma_clip_styles(ps: Seq<StyledPrefix>, start: usize, end: usize, byte: int, style: Style, patch: bool)
    requires
        start <= byte < end,
    ensures
        has_style(clip_ranges(ps, start, end), byte - start, style, patch) == has_style(ps, byte, style, patch),
    decreases ps.len(),
{
    if ps.len() > 0 {
        lemma_clip_styles(ps.drop_last(), start, end, byte, style, patch);
        lemma_style_drop(ps, byte, style, patch);
        let all = clip_ranges(ps, start, end);
        let before = clip_ranges(ps.drop_last(), start, end);
        if all != before {
            lemma_style_drop(all, byte - start, style, patch);
            assert(all.drop_last() =~= before);
        }
    }
}

proof fn lemma_linked(r: RenderedView, links: Seq<(usize, usize)>, byte: int, kind: TextHighlightKind)
    ensures
        has_highlight(with_links(r, links).highlights, byte, kind) == is_marked(r, links, byte, kind),
{
    let all = with_links(r, links).highlights;
    let marks = link_highlights(links);
    assert(all == r.highlights + marks);
    if has_highlight(all, byte, kind) {
        let i = choose|i: int|
            0 <= i < all.len() && (#[trigger] all[i]).kind == kind && all[i].start <= byte < all[i].end;
        if i < r.highlights.len() {
            assert(r.highlights[i] == all[i]);
        } else {
            let j = i - r.highlights.len();
            assert(all[i] == marks[j]);
            assert(links[j].0 <= byte < links[j].1);
        }
    }
    if has_highlight(r.highlights, byte, kind) {
        let i = choose|i: int|
            0 <= i < r.highlights.len() && (#[trigger] r.highlights[i]).kind == kind && r.highlights[i].start <= byte
                < r.highlights[i].end;
        assert(all[i] == r.highlights[i]);
    }
    if kind == TextHighlightKind::Url && exists|i: int|
        0 <= i < links.len() && (#[trigger] links[i]).0 <= byte < links[i].1 {
        let i = choose|i: int| 0 <= i < links.len() && (#[trigger] links[i]).0 <= byte < links[i].1;
        assert(all[r.highlights.len() + i] == marks[i]);
    }
}

/// A line clips the highlights to its own bytes.
proof fn lemma_line_clips(
    source: Seq<Seq<char>>,
    highlights: Seq<TextHighlight>,
    slots: Seq<EmojiSlotView>,
    width: usize,
    k: int,
    i: int,
)
    requires
        0 <= i < wrap_source_lines(source, highlights, slots, width, k).len(),
    ensures
        ({
            let l = wrap_source_lines(source, highlights, slots, width, k)[i];
            l.mention_highlights == clip_highlights(highlights, l.source_start, l.source_end)
        }),
    decreases k,
{
    let before = wrap_source_lines(source, highlights, slots, width, k - 1);
    if i < before.len() {
        lemma_line_clips(source, highlights, slots, width, k - 1, i);
    } else {
        let line = source[k - 1];
        let start = source_line_start(source, k - 1) as usize;
        if line.len() > 0 {
            let parts = graphemes(line);
            lemma_state_clips(parts, start, highlights, slots, width, parts.len());
        }
    }
}

proof fn lemma_state_clips(
    parts: Seq<Seq<char>>,
    start: usize,
    highlights: Seq<TextHighlight>,
    slots: Seq<EmojiSlotView>,
    width: usize,
    k: nat,
)
    ensures
        ({
            let st = wrap_clusters(parts, start, highlights, slots, width, k);
            forall|i: int|
                0 <= i < st.lines.len() ==> (#[trigger] st.lines[i]).mention_highlights == clip_highlights(
                    highlights,
                    st.lines[i].source_start,
                    st.lines[i].source_end,
                )
        }),
    decreases k,
{
    if k > 0 {
        lemma_state_clips(parts, start, highlights, slots, width, (k - 1) as nat);
    }
}

// ---- The laws ----

/// Lines show the text they are made of: each is a piece of one line of it, they follow each other from its start to
/// its end, and only white space falls between them. A line has the style that was asked for. Each of its bytes has
/// the highlights, of the text and of links, and the styles, that the byte has in the text, and no others.
pub proof fn lines_show_the_text(
    r: RenderedView,
    links: Seq<(usize, usize)>,
    width: usize,
    style: Style,
    ranges: Seq<StyledPrefix>,
) -> (cuts: Seq<(int, int)>)
    requires
        clusters_join(r.text),
        utf8_len(r.text) <= usize::MAX,
        r.text.len() > 0,
        forall|i: int| 0 <= i < ranges.len() ==> (#[trigger] ranges[i]).start + ranges[i].len <= usize::MAX,
    ensures
        ({
            let lines = content_lines(r, links, width, style, ranges);
            &&& lines.len() > 0
            &&& cuts.len() == lines.len()
            &&& cuts[0].0 == 0
            &&& cuts.last().1 == r.text.len()
            &&& forall|k: int|
                0 <= k < lines.len() ==> {
                    let (a, b) = #[trigger] cuts[k];
                    &&& 0 <= a <= b <= r.text.len()
                    &&& lines[k].text == r.text.subrange(a, b)
                    &&& is_one_line(lines[k].text)
                    &&& lines[k].style == style
                    &&& k + 1 < lines.len() ==> b <= cuts[k + 1].0 && all_space(r.text.subrange(b, cuts[k + 1].0))
                }
            &&& forall|k: int, byte: int, kind: TextHighlightKind|
                0 <= k < lines.len() && byte_at(r.text, cuts[k].0) <= byte < byte_at(r.text, cuts[k].1)
                    ==> #[trigger] has_highlight(
                    lines[k].mention_highlights,
                    byte - byte_at(r.text, cuts[k].0),
                    kind,
                ) == is_marked(r, links, byte, kind)
            &&& forall|k: int, byte: int, s: Style, patch: bool|
                0 <= k < lines.len() && byte_at(r.text, cuts[k].0) <= byte < byte_at(r.text, cuts[k].1)
                    ==> #[trigger] has_style(
                    lines[k].styled_prefixes,
                    byte - byte_at(r.text, cuts[k].0),
                    s,
                    patch,
                ) == has_style(ranges, byte, s, patch)
        }),
{
    let linked = with_links(r, links);
    let source = split_on(r.text, '\n');
    let w = wrap_width(width);
    let n = source.len() as int;
    lemma_source_shape(r.text);
    let cuts = lemma_source_lines(r.text, linked.highlights, linked.emoji_slots, w, n);
    let wrapped = wrapped_with_metadata(linked.text, linked.highlights, linked.emoji_slots, width);
    let lines = content_lines(r, links, width, style, ranges);
    assert(wrapped == wrap_source_lines(source, linked.highlights, linked.emoji_slots, w, n));
    assert forall|k: int| 0 <= k < lines.len() implies {
        let (a, b) = #[trigger] cuts[k];
        &&& 0 <= a <= b <= r.text.len()
        &&& lines[k].text == r.text.subrange(a, b)
        &&& is_one_line(lines[k].text)
        &&& lines[k].style == style
        &&& k + 1 < lines.len() ==> b <= cuts[k + 1].0 && all_space(r.text.subrange(b, cuts[k + 1].0))
    } by {
        assert(line_is_slice(wrapped[k], cuts[k], r.text, 0));
        assert(is_one_line(wrapped[k].text));
        assert(gap_is_space(cuts, r.text.len() as int, r.text, k));
    }
    assert forall|k: int, byte: int, kind: TextHighlightKind|
        0 <= k < lines.len() && byte_at(r.text, cuts[k].0) <= byte < byte_at(r.text, cuts[k].1) implies #[trigger]
        has_highlight(lines[k].mention_highlights, byte - byte_at(r.text, cuts[k].0), kind) == is_marked(
        r,
        links,
        byte,
        kind,
    ) by {
        assert(line_is_slice(wrapped[k], cuts[k], r.text, 0));
        lemma_line_clips(source, linked.highlights, linked.emoji_slots, w, n, k);
        lemma_clip_keeps(linked.highlights, wrapped[k].source_start, wrapped[k].source_end, byte, kind);
        lemma_linked(r, links, byte, kind);
    }
    assert forall|k: int, byte: int, s: Style, patch: bool|
        0 <= k < lines.len() && byte_at(r.text, cuts[k].0) <= byte < byte_at(r.text, cuts[k].1) implies #[trigger]
        has_style(lines[k].styled_prefixes, byte - byte_at(r.text, cuts[k].0), s, patch) == has_style(
        ranges,
        byte,
        s,
        patch,
    ) by {
        assert(line_is_slice(wrapped[k], cuts[k], r.text, 0));
        lemma_clip_styles(ranges, wrapped[k].source_start, wrapped[k].source_end, byte, s, patch);
    }
    cuts
}

/// Highlights and styles of a line lie in it.
pub proof fn marks_lie_in_their_line(
    r: RenderedView,
    links: Seq<(usize, usize)>,
    width: usize,
    style: Style,
    ranges: Seq<StyledPrefix>,
    k: int,
    i: int,
)
    requires
        clusters_join(r.text),
        utf8_len(r.text) <= usize::MAX,
        0 <= k < content_lines(r, links, width, style, ranges).len(),
    ensures
        ({
            let line = content_lines(r, links, width, style, ranges)[k];
            &&& 0 <= i < line.mention_highlights.len() ==> line.mention_highlights[i].start
                < line.mention_highlights[i].end && line.mention_highlights[i].end <= utf8_len(line.text)
        }),
{
    let linked = with_links(r, links);
    let source = split_on(r.text, '\n');
    let w = wrap_width(width);
    let n = source.len() as int;
    let cuts = lemma_source_lines(r.text, linked.highlights, linked.emoji_slots, w, n);
    let wrapped = wrapped_with_metadata(linked.text, linked.highlights, linked.emoji_slots, width);
    lemma_line_clips(source, linked.highlights, linked.emoji_slots, w, n, k);
    let l = wrapped[k];
    assert(line_is_slice(l, cuts[k], r.text, 0));
    crate::message::wrap::clipped_highlights_lie_in_the_line(linked.highlights, l.source_start, l.source_end);
    let (a, b) = cuts[k];
    assert(r.text.take(b) =~= r.text.take(a) + r.text.subrange(a, b));
    crate::text::lemma_utf8_len_concat(r.text.take(a), r.text.subrange(a, b));
}

/// Where words and lines break: plain text that fits the width is one line.
pub proof fn short_text_is_one_line(
    r: RenderedView,
    links: Seq<(usize, usize)>,
    width: usize,
    style: Style,
    ranges: Seq<StyledPrefix>,
)
    requires
        is_plain(r.text),
        r.emoji_slots.len() == 0,
        0 < r.text.len() <= width,
    ensures
        content_lines(r, links, width, style, ranges).len() == 1,
        content_lines(r, links, width, style, ranges)[0].text == r.text,
{
    let linked = with_links(r, links);
    lemma_plain_source(r.text);
    assert(linked.emoji_slots =~= seq![]);
    plain_text_that_fits_is_one_line(r.text, 0, linked.highlights, width);
    reveal_with_fuel(wrap_source_lines, 2);
    let wrapped = wrapped_with_metadata(linked.text, linked.highlights, linked.emoji_slots, width);
    assert(wrapped =~= wrap_line(r.text, 0, linked.highlights, seq![], width));
}

proof fn lemma_plain_source(text: Seq<char>)
    requires
        is_plain(text),
    ensures
        split_on(text, '\n') == seq![text],
{
    assert forall|k: int| 0 <= k < text.len() implies text[k] != '\n' by {
        assert(' ' <= text[k] <= '~');
    }
    lemma_first_index_is(text, '\n', text.len() as int);
    assert(split_on(text, '\n') =~= seq![text]);
}

/// A word of plain text that fits the width is in one line whole, whatever stands around it.
pub proof fn fitting_words_are_not_broken(
    r: RenderedView,
    links: Seq<(usize, usize)>,
    width: usize,
    style: Style,
    ranges: Seq<StyledPrefix>,
    a: int,
    b: int,
)
    requires
        is_plain(r.text),
        r.text.len() <= usize::MAX,
        r.emoji_slots.len() == 0,
        has_word(r.text, a, b),
        b - a <= width,
    ensures
        exists|i: int, from: int, to: int|
            0 <= i < content_lines(r, links, width, style, ranges).len() && 0 <= from <= a && b <= to <= r.text.len()
                && (#[trigger] content_lines(r, links, width, style, ranges)[i]).text == #[trigger] r.text.subrange(
                from,
                to,
            ),
{
    let linked = with_links(r, links);
    lemma_plain_source(r.text);
    assert(linked.emoji_slots =~= seq![]);
    words_that_fit_stay_whole(r.text, 0, linked.highlights, width, a, b);
    reveal_with_fuel(wrap_source_lines, 2);
    let wrapped = wrapped_with_metadata(linked.text, linked.highlights, linked.emoji_slots, width);
    assert(wrapped =~= wrap_line(r.text, 0, linked.highlights, seq![], width));
    let i = choose|i: int| 0 <= i < wrapped.len() && #[trigger] line_holds(wrapped[i], r.text, a, b);
    let (from, to) = choose|from: int, to: int|
        0 <= from <= a && b <= to <= r.text.len() && wrapped[i].text == #[trigger] r.text.subrange(from, to);
    let lines = content_lines(r, links, width, style, ranges);
    assert(lines[i].text == r.text.subrange(from, to));
}

} // verus!
