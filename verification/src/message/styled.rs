//! Wrapping of text that carries styles.

use crate::message::line::{lemma_line_views_push, line_views, LineView, MessageContentLine, StyledPrefix};
use crate::message::placeholder::{rendered_text_with_loaded_custom_emoji_placeholders, with_placeholders};
use crate::message::rendered::{RenderedText, RenderedView, TextHighlight};
use crate::message::rich::{rendered_text_with_url_highlights, with_links};
use crate::message::wrap::{
    sat_add, wrap_text_with_metadata, wrap_width, wrapped_views, wrapped_with_metadata, WrappedView,
};
use crate::style::Style;
use crate::text::texts;
use crate::unicode::{display_width, graphemes, split_graphemes, str_width, trim_text, trimmed};
use vstd::prelude::*;
use vstd::string::*;

verus! {

// ---- Styled ranges of a line ----

/// The part of a styled range that lies in `start..end`, relative to `start`.
pub open spec fn clip_range(p: StyledPrefix, start: usize, end: usize) -> Option<StyledPrefix> {
    let from = if p.start > start { p.start } else { start };
    let p_end = sat_add(p.start, p.len);
    let to = if p_end < end { p_end } else { end };
    if from < to {
        Some(StyledPrefix { start: (from - start) as usize, len: (to - from) as usize, ..p })
    } else {
        None
    }
}

pub open spec fn clip_ranges(ps: Seq<StyledPrefix>, start: usize, end: usize) -> Seq<StyledPrefix>
    decreases ps.len(),
{
    if ps.len() == 0 {
        seq![]
    } else {
        let before = clip_ranges(ps.drop_last(), start, end);
        match clip_range(ps.last(), start, end) {
            Some(p) => before.push(p),
            None => before,
        }
    }
}

pub fn styled_ranges_for_range(styled_ranges: &[StyledPrefix], start: usize, end: usize) -> (r: Vec<StyledPrefix>)
    ensures
        r@ == clip_ranges(styled_ranges@, start, end),
{
    let mut out: Vec<StyledPrefix> = Vec::new();
    let mut i: usize = 0;
    while i < styled_ranges.len()
        invariant
            i <= styled_ranges@.len(),
            out@ == clip_ranges(styled_ranges@.take(i as int), start, end),
        decreases styled_ranges@.len() - i,
    {
        let p = styled_ranges[i];
        proof {
            assert(styled_ranges@.take(i + 1).drop_last() =~= styled_ranges@.take(i as int));
        }
        let from: usize = if p.start > start { p.start } else { start };
        let p_end: usize = p.start.saturating_add(p.len);
        let to: usize = if p_end < end { p_end } else { end };
        if from < to {
            out.push(StyledPrefix { start: from - start, len: to - from, style: p.style, patch_base: p.patch_base });
        }
        i += 1;
    }
    assert(styled_ranges@.take(i as int) =~= styled_ranges@);
    out
}

// ---- Regions of one style each ----

/// A stretch of text in one style.
pub struct Region {
    pub style: Style,
    pub text: Seq<char>,
}

pub open spec fn regions(v: Seq<(Style, String)>) -> Seq<Region> {
    v.map_values(|r: (Style, String)| Region { style: r.0, text: r.1@ })
}

pub open spec fn region_lines(v: Seq<Vec<(Style, String)>>) -> Seq<Seq<Region>> {
    v.map_values(|l: Vec<(Style, String)>| regions(l@))
}

/// The state of filling lines with regions.
pub struct RegionState {
    pub lines: Seq<Seq<Region>>,
    pub current: Seq<Region>,
    pub text: Seq<char>,
    pub width: usize,
}

/// A line with the region at hand, if it holds anything.
pub open spec fn with_region(line: Seq<Region>, style: Style, text: Seq<char>) -> Seq<Region> {
    if text.len() == 0 {
        line
    } else {
        line.push(Region { style, text })
    }
}

/// One more cluster of a region.
pub open spec fn region_step(st: RegionState, style: Style, cluster: Seq<char>, width: usize) -> RegionState {
    let w = display_width(cluster);
    if st.width > 0 && w > 0 && sat_add(st.width, w) > width {
        RegionState {
            lines: st.lines.push(with_region(st.current, style, st.text)),
            current: seq![],
            text: cluster,
            width: w,
        }
    } else {
        RegionState { text: st.text + cluster, width: sat_add(st.width, w), ..st }
    }
}

pub open spec fn region_clusters(
    st: RegionState,
    style: Style,
    clusters: Seq<Seq<char>>,
    width: usize,
) -> RegionState
    decreases clusters.len(),
{
    if clusters.len() == 0 {
        st
    } else {
        region_step(region_clusters(st, style, clusters.drop_last(), width), style, clusters.last(), width)
    }
}

/// One more region: its clusters, and then what is left of it on the line at hand.
pub open spec fn region_whole(st: RegionState, r: Region, width: usize) -> RegionState {
    let after = region_clusters(RegionState { text: seq![], ..st }, r.style, graphemes(r.text), width);
    RegionState { current: with_region(after.current, r.style, after.text), text: seq![], ..after }
}

pub open spec fn region_fill(rs: Seq<Region>, width: usize) -> RegionState
    decreases rs.len(),
{
    if rs.len() == 0 {
        RegionState { lines: seq![], current: seq![], text: seq![], width: 0 }
    } else {
        region_whole(region_fill(rs.drop_last(), width), rs.last(), width)
    }
}

/// The lines that a list of regions wraps to.
pub open spec fn wrapped_regions(rs: Seq<Region>, width: usize) -> Seq<Seq<Region>> {
    let st = region_fill(rs, wrap_width(width));
    if st.current.len() == 0 {
        st.lines
    } else {
        st.lines.push(st.current)
    }
}

proof fn lemma_regions_push(v: Seq<(Style, String)>, r: (Style, String))
    ensures
        regions(v.push(r)) == regions(v).push(Region { style: r.0, text: r.1@ }),
{
    assert(regions(v.push(r)) =~= regions(v).push(Region { style: r.0, text: r.1@ }));
}

proof fn lemma_region_lines_push(v: Seq<Vec<(Style, String)>>, l: Vec<(Style, String)>)
    ensures
        region_lines(v.push(l)) == region_lines(v).push(regions(l@)),
{
    assert(region_lines(v.push(l)) =~= region_lines(v).push(regions(l@)));
}

/// Wraps one line of styled regions to `width` columns.
pub fn wrap_text_line_with_styles(value: &Vec<(Style, String)>, width: usize) -> (r: Vec<Vec<(Style, String)>>)
    ensures
        region_lines(r@) == wrapped_regions(regions(value@), width),
{
    let width: usize = if width == 0 { 1 } else { width };
    let ghost rs = regions(value@);
    let mut lines: Vec<Vec<(Style, String)>> = Vec::new();
    let mut current: Vec<(Style, String)> = Vec::new();
    let mut current_width: usize = 0;
    let mut i: usize = 0;
    proof {
        assert(rs.take(0) =~= Seq::<Region>::empty());
        assert(region_lines(lines@) =~= Seq::<Seq<Region>>::empty());
        assert(regions(current@) =~= Seq::<Region>::empty());
    }
    while i < value.len()
        invariant
            rs == regions(value@),
            i <= value@.len(),
            ({
                let st = region_fill(rs.take(i as int), width);
                &&& region_lines(lines@) == st.lines
                &&& regions(current@) == st.current
                &&& current_width == st.width
                &&& st.text.len() == 0
            }),
        decreases value@.len() - i,
    {
        let ghost st0 = region_fill(rs.take(i as int), width);
        let style = value[i].0;
        let clusters = split_graphemes(value[i].1.as_str());
        let ghost gs = graphemes(value@[i as int].1@);
        let ghost entry = RegionState { text: seq![], ..st0 };
        let mut region = String::new();
        let mut k: usize = 0;
        proof {
            assert(rs.take(i + 1).drop_last() =~= rs.take(i as int));
            assert(rs.take(i + 1).last() == Region { style, text: value@[i as int].1@ });
            assert(gs.take(0) =~= Seq::<Seq<char>>::empty());
        }
        while k < clusters.len()
            invariant
                texts(clusters@) == gs,
                k <= clusters@.len(),
                ({
                    let st = region_clusters(entry, style, gs.take(k as int), width);
                    &&& region_lines(lines@) == st.lines
                    &&& regions(current@) == st.current
                    &&& current_width == st.width
                    &&& region@ == st.text
                }),
            decreases clusters@.len() - k,
        {
            let grapheme = &clusters[k];
            proof {
                assert(gs.take(k + 1).drop_last() =~= gs.take(k as int));
                assert(gs.take(k + 1).last() == grapheme@);
            }
            let grapheme_width: usize = str_width(grapheme.as_str());
            if current_width > 0 && grapheme_width > 0 && current_width.saturating_add(grapheme_width) > width {
                if !region.as_str().is_empty() {
                    proof {
                        lemma_regions_push(current@, (style, region));
                    }
                    current.push((style, region));
                }
                proof {
                    lemma_region_lines_push(lines@, current);
                }
                lines.push(current);
                current = Vec::new();
                region = String::new();
                current_width = 0;
                proof {
                    assert(regions(current@) =~= Seq::<Region>::empty());
                    assert(region@ + grapheme@ =~= grapheme@);
                }
            }
            region.append(grapheme.as_str());
            current_width = current_width.saturating_add(grapheme_width);
            k += 1;
        }
        assert(gs.take(k as int) =~= gs);
        if !region.as_str().is_empty() {
            proof {
                lemma_regions_push(current@, (style, region));
            }
            current.push((style, region));
        }
        i += 1;
    }
    assert(rs.take(i as int) =~= rs);
    if current.len() > 0 {
        proof {
            lemma_region_lines_push(lines@, current);
        }
        lines.push(current);
    }
    lines
}

// ---- Lines of a message ----

/// The formatted line made of a wrapped one.
pub open spec fn content_line(w: WrappedView, style: Style, ranges: Seq<StyledPrefix>) -> LineView {
    LineView {
        text: w.text,
        style,
        mention_highlights: w.mention_highlights,
        styled_prefixes: clip_ranges(ranges, w.source_start, w.source_end),
        image_slots: w.image_slots,
        preview_slots: seq![],
    }
}

/// The formatted lines of a text, in which links were detected in `links`.
pub open spec fn content_lines(
    r: RenderedView,
    links: Seq<(usize, usize)>,
    width: usize,
    style: Style,
    ranges: Seq<StyledPrefix>,
) -> Seq<LineView> {
    let linked = with_links(r, links);
    wrapped_with_metadata(linked.text, linked.highlights, linked.emoji_slots, width).map_values(
        |w: WrappedView| content_line(w, style, ranges),
    )
}

/// Wraps a text with highlights, links and emoji places to formatted lines.
pub fn wrap_rendered_text_lines_with_styled_ranges(
    rendered: RenderedText,
    links: &[(usize, usize)],
    width: usize,
    style: Style,
    styled_ranges: &[StyledPrefix],
) -> (r: Vec<MessageContentLine>)
    ensures
        line_views(r@) == content_lines(rendered@, links@, width, style, styled_ranges@),
{
    let ghost expected = content_lines(rendered@, links@, width, style, styled_ranges@);
    let rendered = rendered_text_with_url_highlights(rendered, links);
    let wrapped = wrap_text_with_metadata(
        rendered.text.as_str(),
        rendered.highlights.as_slice(),
        rendered.emoji_slots.as_slice(),
        width,
    );
    let ghost all = wrapped@;
    let mut out: Vec<MessageContentLine> = Vec::new();
    assert(line_views(out@) =~= expected.take(0));
    for w in it: wrapped
        invariant
            it.seq() == all,
            expected == wrapped_views(all).map_values(|w: WrappedView| content_line(w, style, styled_ranges@)),
            line_views(out@) == expected.take(it.index()),
    {
        let ranges = styled_ranges_for_range(styled_ranges, w.source_start, w.source_end);
        let line = MessageContentLine {
            text: w.text,
            style,
            mention_highlights: w.mention_highlights,
            styled_prefixes: ranges,
            image_slots: w.image_slots,
            preview_slots: Vec::new(),
        };
        proof {
            assert(wrapped_views(all)[it.index()] == w@);
            assert(line@ == content_line(w@, style, styled_ranges@));
            assert(expected[it.index()] == line@);
            lemma_line_views_push(out@, line);
            assert(expected.take(it.index() + 1) =~= expected.take(it.index()).push(line@));
        }
        out.push(line);
    }
    assert(expected.take(all.len() as int) =~= expected);
    out
}

pub fn wrap_rendered_text_lines(rendered: RenderedText, links: &[(usize, usize)], width: usize, style: Style) -> (r:
    Vec<MessageContentLine>)
    ensures
        line_views(r@) == content_lines(rendered@, links@, width, style, seq![]),
{
    let none: Vec<StyledPrefix> = Vec::new();
    wrap_rendered_text_lines_with_styled_ranges(rendered, links, width, style, none.as_slice())
}

/// As [`wrap_rendered_text_lines`], with room made for the emojis whose images are loaded. The links
/// are those of the text with that room made.
pub fn wrap_rendered_text_lines_with_loaded_custom_emoji_urls(
    rendered: RenderedText,
    links: &[(usize, usize)],
    width: usize,
    style: Style,
    loaded: &[String],
    cells: u16,
) -> (r: Vec<MessageContentLine>)
    ensures
        line_views(r@) == content_lines(
            with_placeholders(rendered@, texts(loaded@), cells),
            links@,
            width,
            style,
            seq![],
        ),
{
    let rendered = rendered_text_with_loaded_custom_emoji_placeholders(rendered, loaded, cells);
    wrap_rendered_text_lines(rendered, links, width, style)
}

/// The lines of a text, broken at words, without the white space at their ends.
pub fn wrap_plain_text_at_words(value: &str, width: usize) -> (r: Vec<String>)
    ensures
        texts(r@) == wrapped_with_metadata(value@, seq![], seq![], width).map_values(
            |w: WrappedView| trimmed(w.text),
        ),
{
    let ghost expected = wrapped_with_metadata(value@, seq![], seq![], width).map_values(
        |w: WrappedView| trimmed(w.text),
    );
    let highlights: Vec<TextHighlight> = Vec::new();
    let slots: Vec<crate::message::rendered::InlineEmojiSlot> = Vec::new();
    let lines = wrap_text_with_metadata(value, highlights.as_slice(), slots.as_slice(), width);
    proof {
        assert(crate::message::rendered::emoji_slots(slots@) =~= seq![]);
        assert(expected =~= wrapped_views(lines@).map_values(|w: WrappedView| trimmed(w.text)));
    }
    let mut out: Vec<String> = Vec::new();
    let mut i: usize = 0;
    assert(texts(out@) =~= expected.take(0));
    while i < lines.len()
        invariant
            i <= lines@.len(),
            expected == wrapped_views(lines@).map_values(|w: WrappedView| trimmed(w.text)),
            texts(out@) == expected.take(i as int),
        decreases lines@.len() - i,
    {
        let text = trim_text(lines[i].text.as_str());
        proof {
            assert(expected[i as int] == text@);
            assert(texts(out@.push(text)) =~= texts(out@).push(text@));
            assert(expected.take(i + 1) =~= expected.take(i as int).push(text@));
        }
        out.push(text);
        i += 1;
    }
    assert(expected.take(i as int) =~= expected);
    out
}

} // verus!
