//! What wrapping and cutting keep of a text.

use crate::message::format_laws::{has_highlight, lemma_clip_keeps};
use crate::message::rendered::{RenderedView, TextHighlightKind};
use crate::message::rich::{rendered_slice, rendered_truncated};
use crate::message::styled::{
    region_clusters, region_fill, region_step, region_whole, with_region, wrapped_regions, Region, RegionState,
};
use crate::message::wrap::{fill, fill_line, fill_lines, wrap_width, wrapped_lines};
use crate::style::Style;
use crate::text::{byte_slice, concat, on_boundary, split_on, utf8_len};
use crate::unicode::graphemes;
use vstd::prelude::*;
use vstd::string::*;

verus! {

// ---- Lines of plain text ----

proof fn lemma_fill(clusters: Seq<Seq<char>>, width: usize)
    ensures
        concat(fill(clusters, width).lines) + fill(clusters, width).current == concat(clusters),
    decreases clusters.len(),
{
    let st = fill(clusters, width);
    if clusters.len() > 0 {
        lemma_fill(clusters.drop_last(), width);
        let before = fill(clusters.drop_last(), width);
        if st.lines.len() > before.lines.len() {
            assert(st.lines.drop_last() =~= before.lines);
        }
        assert(concat(st.lines) + st.current =~= concat(clusters));
    } else {
        assert(concat(st.lines) + st.current =~= concat(clusters));
    }
}

proof fn lemma_fill_line(line: Seq<char>, width: usize)
    requires
        concat(graphemes(line)) == line,
    ensures
        concat(fill_line(line, width)) == line,
        fill_line(line, width).len() > 0,
{
    let all = fill_line(line, width);
    if line.len() == 0 {
        assert(all.drop_last() =~= Seq::<Seq<char>>::empty());
        assert(concat(all.drop_last()) =~= Seq::<char>::empty());
        assert(concat(all) =~= line);
    } else {
        let st = fill(graphemes(line), width);
        lemma_fill(graphemes(line), width);
        assert(all.drop_last() =~= st.lines);
    }
}

/// Whether the lines between two cuts, put together, are a line of the source.
pub open spec fn is_source_line(lines: Seq<Seq<char>>, cuts: Seq<int>, source: Seq<Seq<char>>, k: int) -> bool {
    &&& 0 <= cuts[k] < cuts[k + 1] <= lines.len()
    &&& concat(lines.subrange(cuts[k], cuts[k + 1])) == source[k]
}

proof fn lemma_fill_lines(source: Seq<Seq<char>>, width: usize) -> (cuts: Seq<int>)
    requires
        forall|k: int| 0 <= k < source.len() ==> concat(graphemes(#[trigger] source[k])) == source[k],
    ensures
        cuts.len() == source.len() + 1,
        cuts[0] == 0,
        cuts[source.len() as int] == fill_lines(source, width).len(),
        forall|k: int| 0 <= k < source.len() ==> #[trigger] is_source_line(fill_lines(source, width), cuts, source, k),
    decreases source.len(),
{
    if source.len() == 0 {
        seq![0]
    } else {
        let rest = source.drop_last();
        let n = rest.len() as int;
        assert forall|k: int| 0 <= k < rest.len() implies concat(graphemes(#[trigger] rest[k])) == rest[k] by {
            assert(rest[k] == source[k]);
        }
        let front = lemma_fill_lines(rest, width);
        let before = fill_lines(rest, width);
        let all = fill_lines(source, width);
        let cuts = front.push(all.len() as int);
        assert(concat(graphemes(source[n])) == source[n]);
        lemma_fill_line(source[n], width);
        assert forall|k: int| 0 <= k < source.len() implies #[trigger] is_source_line(all, cuts, source, k) by {
            if k < n {
                assert(is_source_line(before, front, rest, k));
                assert(all.subrange(cuts[k], cuts[k + 1]) =~= before.subrange(front[k], front[k + 1]));
            } else {
                assert(all.subrange(cuts[k], cuts[k + 1]) =~= fill_line(source[n], width));
            }
        }
        cuts
    }
}

/// Wrapped text is the text: the lines of each line of it, put together, are that line again, in order, and a line that
/// is empty stays a line.
pub proof fn wrapped_lines_are_the_text(value: Seq<char>, width: usize) -> (cuts: Seq<int>)
    requires
        value.len() > 0,
        crate::message::format_laws::clusters_join(value),
    ensures
        ({
            let (lines, source) = (wrapped_lines(value, width), split_on(value, '\n'));
            &&& cuts.len() == source.len() + 1
            &&& cuts[0] == 0
            &&& cuts[source.len() as int] == lines.len()
            &&& forall|k: int| 0 <= k < source.len() ==> #[trigger] is_source_line(lines, cuts, source, k)
        }),
{
    let source = split_on(value, '\n');
    assert forall|k: int| 0 <= k < source.len() implies concat(graphemes(#[trigger] source[k])) == source[k] by {}
    lemma_fill_lines(source, wrap_width(width))
}

// ---- Regions ----

/// A character, by its code, in a style.
pub struct StyledChar {
    pub code: int,
    pub style: Style,
}

pub open spec fn styled_chars(text: Seq<char>, style: Style) -> Seq<StyledChar> {
    Seq::new(text.len(), |i: int| StyledChar { code: text[i] as int, style })
}

/// The characters of some regions, each with its style.
pub open spec fn chars_of_regions(rs: Seq<Region>) -> Seq<StyledChar>
    decreases rs.len(),
{
    if rs.len() == 0 {
        Seq::empty()
    } else {
        chars_of_regions(rs.drop_last()) + styled_chars(rs.last().text, rs.last().style)
    }
}

/// The characters of some lines of regions, each with its style.
pub open spec fn chars_of_lines(lines: Seq<Seq<Region>>) -> Seq<StyledChar>
    decreases lines.len(),
{
    if lines.len() == 0 {
        Seq::empty()
    } else {
        chars_of_lines(lines.drop_last()) + chars_of_regions(lines.last())
    }
}

spec fn chars_of_state(st: RegionState, style: Style) -> Seq<StyledChar> {
    chars_of_lines(st.lines) + chars_of_regions(st.current) + styled_chars(st.text, style)
}

proof fn lemma_with_region(line: Seq<Region>, style: Style, text: Seq<char>)
    ensures
        chars_of_regions(with_region(line, style, text)) == chars_of_regions(line) + styled_chars(text, style),
{
    let all = with_region(line, style, text);
    if text.len() == 0 {
        assert(chars_of_regions(line) + styled_chars(text, style) =~= chars_of_regions(line));
    } else {
        assert(all.drop_last() =~= line);
    }
}

proof fn lemma_region_step(st: RegionState, style: Style, cluster: Seq<char>, width: usize)
    ensures
        chars_of_state(region_step(st, style, cluster, width), style) == chars_of_state(st, style) + styled_chars(
            cluster,
            style,
        ),
{
    let after = region_step(st, style, cluster, width);
    if after.lines.len() > st.lines.len() {
        lemma_with_region(st.current, style, st.text);
        assert(after.lines.drop_last() =~= st.lines);
        assert(chars_of_regions(after.current) =~= Seq::<StyledChar>::empty());
        assert(chars_of_state(after, style) =~= chars_of_state(st, style) + styled_chars(cluster, style));
    } else {
        assert(styled_chars(st.text + cluster, style) =~= styled_chars(st.text, style) + styled_chars(cluster, style));
        assert(chars_of_state(after, style) =~= chars_of_state(st, style) + styled_chars(cluster, style));
    }
}

proof fn lemma_region_clusters(st: RegionState, style: Style, clusters: Seq<Seq<char>>, width: usize)
    ensures
        chars_of_state(region_clusters(st, style, clusters, width), style) == chars_of_state(st, style) + styled_chars(
            concat(clusters),
            style,
        ),
    decreases clusters.len(),
{
    if clusters.len() == 0 {
        assert(chars_of_state(st, style) + styled_chars(concat(clusters), style) =~= chars_of_state(st, style));
    } else {
        let rest = clusters.drop_last();
        lemma_region_clusters(st, style, rest, width);
        lemma_region_step(region_clusters(st, style, rest, width), style, clusters.last(), width);
        assert(styled_chars(concat(clusters), style) =~= styled_chars(concat(rest), style) + styled_chars(
            clusters.last(),
            style,
        ));
        assert(chars_of_state(st, style) + styled_chars(concat(rest), style) + styled_chars(clusters.last(), style)
            =~= chars_of_state(st, style) + styled_chars(concat(clusters), style));
    }
}

proof fn lemma_region_fill(rs: Seq<Region>, width: usize)
    requires
        forall|i: int| 0 <= i < rs.len() ==> concat(graphemes((#[trigger] rs[i]).text)) == rs[i].text,
    ensures
        chars_of_lines(region_fill(rs, width).lines) + chars_of_regions(region_fill(rs, width).current)
            == chars_of_regions(rs),
    decreases rs.len(),
{
    let st = region_fill(rs, width);
    if rs.len() == 0 {
        assert(chars_of_lines(st.lines) + chars_of_regions(st.current) =~= chars_of_regions(rs));
    } else {
        let rest = rs.drop_last();
        let r = rs.last();
        assert(rs[rs.len() - 1] == r);
        assert forall|i: int| 0 <= i < rest.len() implies concat(graphemes((#[trigger] rest[i]).text)) == rest[i].text by {
            assert(rest[i] == rs[i]);
        }
        lemma_region_fill(rest, width);
        let before = region_fill(rest, width);
        let start = RegionState { text: seq![], ..before };
        let after = region_clusters(start, r.style, graphemes(r.text), width);
        lemma_region_clusters(start, r.style, graphemes(r.text), width);
        lemma_with_region(after.current, r.style, after.text);
        assert(st == region_whole(before, r, width));
        assert(chars_of_state(start, r.style) =~= chars_of_regions(rest));
        assert(chars_of_lines(st.lines) + chars_of_regions(st.current) =~= chars_of_state(after, r.style));
    }
}

/// Wrapping text in several styles keeps every character and its style, in order.
pub proof fn regions_keep_text_and_style(rs: Seq<Region>, width: usize)
    requires
        forall|i: int| 0 <= i < rs.len() ==> concat(graphemes((#[trigger] rs[i]).text)) == rs[i].text,
    ensures
        chars_of_lines(wrapped_regions(rs, width)) == chars_of_regions(rs),
{
    lemma_region_fill(rs, wrap_width(width));
    let st = region_fill(rs, wrap_width(width));
    let all = wrapped_regions(rs, width);
    if st.current.len() == 0 {
        assert(chars_of_regions(st.current) =~= Seq::<StyledChar>::empty());
        assert(chars_of_lines(st.lines) + chars_of_regions(st.current) =~= chars_of_lines(st.lines));
    } else {
        assert(all.drop_last() =~= st.lines);
    }
}

// ---- Slices ----

/// A slice of a text holds its bytes, and each of them keeps its highlights.
pub proof fn slices_keep_text_and_highlights(r: RenderedView, start: usize, end: usize, byte: int, kind: TextHighlightKind)
    requires
        start <= byte < end,
        end <= utf8_len(r.text) <= usize::MAX,
        on_boundary(r.text, start as int),
        on_boundary(r.text, end as int),
    ensures
        ({
            let slice = rendered_slice(r, start, end);
            &&& slice.text == byte_slice(r.text, start as int, end as int)
            &&& has_highlight(slice.highlights, byte - start, kind) == has_highlight(r.highlights, byte, kind)
        }),
{
    lemma_clip_keeps(r.highlights, start, end, byte, kind);
}

/// A text that is short enough is not cut; another one is cut behind as many characters as it may have, and that is
/// shown.
pub proof fn long_texts_are_cut(r: RenderedView, limit: int)
    requires
        0 <= limit,
    ensures
        r.text.len() <= limit ==> rendered_truncated(r, limit) == r,
        r.text.len() > limit ==> rendered_truncated(r, limit).text == r.text.take(limit) + seq!['.', '.', '.'],
{
    reveal_strlit("...");
    assert("..."@ =~= seq!['.', '.', '.']);
}

} // verus!
