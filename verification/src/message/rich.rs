//! Operations on text with highlights and emoji places, and on the lines made of it.

use crate::message::line::{min_len, LineView, MessageContentLine, MessageContentPreviewSlot, StyledPrefix};
use crate::message::rendered::{
    emoji_slots, image_slots, EmojiImageSize, EmojiSlotView, ImageSlotView, InlineEmojiSlot,
    MessageContentImageSlot, RenderedText, RenderedView, TextHighlight, TextHighlightKind,
};
use crate::message::wrap::{clip_highlights, column, highlights_for_range, sat_add, to_col};
use crate::style::{Style, UNDERLINED};
use crate::text::{
    byte_at, byte_len, byte_slice, chars_of, is_boundary, lemma_boundary_ends, lemma_char_index, on_boundary,
    slice_bytes, string_of, truncated, utf8_len,
};
use crate::unicode::{display_width, str_width};
use vstd::prelude::*;
use vstd::string::*;

verus! {

// ---- Shifting ----

/// A highlight moved `n` bytes to the right.
pub open spec fn shift_highlight(h: TextHighlight, n: usize) -> TextHighlight {
    TextHighlight { start: sat_add(h.start, n), end: sat_add(h.end, n), kind: h.kind }
}

pub open spec fn shift_highlights(hs: Seq<TextHighlight>, n: usize) -> Seq<TextHighlight> {
    hs.map_values(|h: TextHighlight| shift_highlight(h, n))
}

pub open spec fn shift_emoji_slots(slots: Seq<EmojiSlotView>, n: usize) -> Seq<EmojiSlotView> {
    slots.map_values(|s: EmojiSlotView| EmojiSlotView { byte_start: sat_add(s.byte_start, n), ..s })
}

/// A text with another one in front of it.
pub open spec fn prepended(prefix: Seq<char>, r: RenderedView) -> RenderedView {
    let n = utf8_len(prefix) as usize;
    RenderedView {
        text: prefix + r.text,
        highlights: shift_highlights(r.highlights, n),
        emoji_slots: shift_emoji_slots(r.emoji_slots, n),
    }
}

fn shift_all_highlights(hs: &Vec<TextHighlight>, n: usize) -> (r: Vec<TextHighlight>)
    ensures
        r@ == shift_highlights(hs@, n),
{
    let mut out: Vec<TextHighlight> = Vec::new();
    let mut i: usize = 0;
    while i < hs.len()
        invariant
            i <= hs@.len(),
            out@ == shift_highlights(hs@, n).take(i as int),
        decreases hs@.len() - i,
    {
        let h = hs[i];
        out.push(TextHighlight { start: h.start.saturating_add(n), end: h.end.saturating_add(n), kind: h.kind });
        assert(out@ =~= shift_highlights(hs@, n).take(i + 1));
        i += 1;
    }
    assert(out@ =~= shift_highlights(hs@, n));
    out
}

/// Puts `prefix` in front of a text.
pub fn prepend_rendered_text(prefix: &str, rendered: RenderedText) -> (r: RenderedText)
    ensures
        r@ == prepended(prefix@, rendered@),
{
    let shift: usize = byte_len(prefix);
    let highlights = shift_all_highlights(&rendered.highlights, shift);
    let ghost old_slots = rendered.emoji_slots@;
    let mut slots: Vec<InlineEmojiSlot> = Vec::new();
    for slot in it: rendered.emoji_slots
        invariant
            it.seq() == old_slots,
            emoji_slots(slots@) == shift_emoji_slots(emoji_slots(old_slots), shift).take(it.index()),
    {
        let moved = InlineEmojiSlot {
            byte_start: slot.byte_start.saturating_add(shift),
            byte_len: slot.byte_len,
            display_width: slot.display_width,
            url: slot.url,
        };
        proof {
            let expected = shift_emoji_slots(emoji_slots(old_slots), shift);
            assert(emoji_slots(slots@.push(moved)) =~= emoji_slots(slots@).push(moved@));
            assert(expected[it.index()] == moved@);
            assert(expected.take(it.index() + 1) =~= expected.take(it.index()).push(moved@));
        }
        slots.push(moved);
    }
    assert(emoji_slots(slots@) =~= shift_emoji_slots(emoji_slots(old_slots), shift));
    let mut text = prefix.to_owned();
    text.append(rendered.text.as_str());
    RenderedText { text, highlights, emoji_slots: slots }
}

// ---- Slicing ----

/// The emoji places that lie wholly in `start..end`, relative to `start`.
pub open spec fn slots_within(slots: Seq<EmojiSlotView>, start: usize, end: usize) -> Seq<EmojiSlotView>
    decreases slots.len(),
{
    if slots.len() == 0 {
        seq![]
    } else {
        let before = slots_within(slots.drop_last(), start, end);
        let s = slots.last();
        if start <= s.byte_start && sat_add(s.byte_start, s.byte_len) <= end {
            before.push(EmojiSlotView { byte_start: (s.byte_start - start) as usize, ..s })
        } else {
            before
        }
    }
}

/// The bytes `start..end` of a text, as far as it goes, with what lies in them.
pub open spec fn rendered_slice(r: RenderedView, start: usize, end: usize) -> RenderedView {
    let len = utf8_len(r.text) as usize;
    let from = min_len(start, len);
    let to = min_len(end, len);
    RenderedView {
        text: byte_slice(r.text, from as int, to as int),
        highlights: clip_highlights(r.highlights, from, to),
        emoji_slots: slots_within(r.emoji_slots, from, to),
    }
}

pub fn rendered_text_slice(rendered: &RenderedText, start: usize, end: usize) -> (r: RenderedText)
    requires
        start <= end,
        on_boundary(rendered@.text, min_len(start, utf8_len(rendered@.text) as usize) as int),
        on_boundary(rendered@.text, min_len(end, utf8_len(rendered@.text) as usize) as int),
    ensures
        r@ == rendered_slice(rendered@, start, end),
{
    let len: usize = byte_len(rendered.text.as_str());
    let start: usize = if start < len { start } else { len };
    let end: usize = if end < len { end } else { len };
    let text = slice_bytes(rendered.text.as_str(), start, end);
    let highlights = highlights_for_range(rendered.highlights.as_slice(), start, end);
    let ghost views = emoji_slots(rendered.emoji_slots@);
    let mut slots: Vec<InlineEmojiSlot> = Vec::new();
    let mut i: usize = 0;
    assert(emoji_slots(slots@) =~= Seq::<EmojiSlotView>::empty());
    while i < rendered.emoji_slots.len()
        invariant
            views == emoji_slots(rendered.emoji_slots@),
            i <= rendered.emoji_slots@.len(),
            emoji_slots(slots@) == slots_within(views.take(i as int), start, end),
        decreases rendered.emoji_slots@.len() - i,
    {
        let slot = &rendered.emoji_slots[i];
        proof {
            assert(views.take(i + 1).drop_last() =~= views.take(i as int));
            assert(views.take(i + 1).last() == slot@);
        }
        if start <= slot.byte_start && slot.byte_start.saturating_add(slot.byte_len) <= end {
            let moved = InlineEmojiSlot {
                byte_start: slot.byte_start - start,
                byte_len: slot.byte_len,
                display_width: slot.display_width,
                url: slot.url.clone(),
            };
            assert(emoji_slots(slots@.push(moved)) =~= emoji_slots(slots@).push(moved@));
            slots.push(moved);
        }
        i += 1;
    }
    assert(views.take(i as int) =~= views);
    RenderedText { text, highlights, emoji_slots: slots }
}

pub fn rendered_text_without_prefix(rendered: RenderedText, prefix_len: usize) -> (r: RenderedText)
    requires
        prefix_len <= utf8_len(rendered@.text),
        on_boundary(rendered@.text, prefix_len as int),
    ensures
        r@ == rendered_slice(rendered@, prefix_len, utf8_len(rendered@.text) as usize),
{
    proof {
        lemma_boundary_ends(rendered@.text);
    }
    let len: usize = byte_len(rendered.text.as_str());
    rendered_text_slice(&rendered, prefix_len, len)
}

/// What `prepend_rendered_text` puts in front, slicing takes off again: text, emoji places and all
/// highlights that are ranges of the text come back as they were.
pub proof fn slicing_undoes_prepending(prefix: Seq<char>, r: RenderedView)
    requires
        utf8_len(prefix) + utf8_len(r.text) <= usize::MAX,
        forall|i: int|
            0 <= i < r.highlights.len() ==> {
                let h = #[trigger] r.highlights[i];
                h.start < h.end && h.end <= utf8_len(r.text)
            },
        forall|i: int|
            0 <= i < r.emoji_slots.len() ==> {
                let s = #[trigger] r.emoji_slots[i];
                s.byte_start + s.byte_len <= utf8_len(r.text)
            },
    ensures
        ({
            let p = prepended(prefix, r);
            let back = rendered_slice(p, utf8_len(prefix) as usize, utf8_len(p.text) as usize);
            &&& back.text == r.text
            &&& back.highlights == r.highlights
            &&& back.emoji_slots == r.emoji_slots
        }),
{
    let n = utf8_len(prefix) as usize;
    let p = prepended(prefix, r);
    crate::text::lemma_utf8_len_concat(prefix, r.text);
    assert(p.text.take(prefix.len() as int) =~= prefix);
    lemma_char_index(p.text, prefix.len() as int);
    lemma_boundary_ends(p.text);
    assert(p.text.subrange(prefix.len() as int, p.text.len() as int) =~= r.text);
    lemma_clip_undoes_shift(r.highlights, n, utf8_len(p.text) as usize);
    lemma_within_undoes_shift(r.emoji_slots, n, utf8_len(p.text) as usize);
}

proof fn lemma_clip_undoes_shift(hs: Seq<TextHighlight>, n: usize, end: usize)
    requires
        forall|i: int|
            0 <= i < hs.len() ==> {
                let h = #[trigger] hs[i];
                h.start < h.end && n + h.end <= end
            },
    ensures
        clip_highlights(shift_highlights(hs, n), n, end) == hs,
    decreases hs.len(),
{
    let shifted = shift_highlights(hs, n);
    if hs.len() == 0 {
        assert(clip_highlights(shifted, n, end) =~= hs);
    } else {
        assert(shifted.drop_last() =~= shift_highlights(hs.drop_last(), n));
        assert forall|i: int| 0 <= i < hs.drop_last().len() implies {
            let h = #[trigger] hs.drop_last()[i];
            h.start < h.end && n + h.end <= end
        } by {
            assert(hs.drop_last()[i] == hs[i]);
        }
        lemma_clip_undoes_shift(hs.drop_last(), n, end);
        assert(hs[hs.len() - 1] == hs.last());
        assert(hs.drop_last().push(hs.last()) =~= hs);
    }
}

proof fn lemma_within_undoes_shift(slots: Seq<EmojiSlotView>, n: usize, end: usize)
    requires
        forall|i: int|
            0 <= i < slots.len() ==> {
                let s = #[trigger] slots[i];
                n + s.byte_start + s.byte_len <= end
            },
    ensures
        slots_within(shift_emoji_slots(slots, n), n, end) == slots,
    decreases slots.len(),
{
    let shifted = shift_emoji_slots(slots, n);
    if slots.len() == 0 {
        assert(slots_within(shifted, n, end) =~= slots);
    } else {
        assert(shifted.drop_last() =~= shift_emoji_slots(slots.drop_last(), n));
        assert forall|i: int| 0 <= i < slots.drop_last().len() implies {
            let s = #[trigger] slots.drop_last()[i];
            n + s.byte_start + s.byte_len <= end
        } by {
            assert(slots.drop_last()[i] == slots[i]);
        }
        lemma_within_undoes_shift(slots.drop_last(), n, end);
        assert(slots[slots.len() - 1] == slots.last());
        assert(slots.drop_last().push(slots.last()) =~= slots);
    }
}

// ---- Truncating ----

/// The highlights that begin before `cutoff`, ended there at the latest.
pub open spec fn cut_highlights(hs: Seq<TextHighlight>, cutoff: usize) -> Seq<TextHighlight>
    decreases hs.len(),
{
    if hs.len() == 0 {
        seq![]
    } else {
        let before = cut_highlights(hs.drop_last(), cutoff);
        let h = hs.last();
        if h.start < cutoff {
            before.push(TextHighlight { start: h.start, end: min_len(h.end, cutoff), kind: h.kind })
        } else {
            before
        }
    }
}

/// The emoji places that end by `cutoff`.
pub open spec fn cut_slots(slots: Seq<EmojiSlotView>, cutoff: usize) -> Seq<EmojiSlotView>
    decreases slots.len(),
{
    if slots.len() == 0 {
        seq![]
    } else {
        let before = cut_slots(slots.drop_last(), cutoff);
        let s = slots.last();
        if sat_add(s.byte_start, s.byte_len) <= cutoff {
            before.push(s)
        } else {
            before
        }
    }
}

/// A text cut off behind `limit` characters, with an ellipsis where something was cut.
pub open spec fn rendered_truncated(r: RenderedView, limit: int) -> RenderedView {
    if r.text.len() <= limit {
        r
    } else {
        let cutoff = byte_at(r.text, limit) as usize;
        RenderedView {
            text: truncated(r.text, limit),
            highlights: cut_highlights(r.highlights, cutoff),
            emoji_slots: cut_slots(r.emoji_slots, cutoff),
        }
    }
}

pub fn truncate_rendered_text(rendered: RenderedText, limit: usize) -> (r: RenderedText)
    ensures
        r@ == rendered_truncated(rendered@, limit as int),
{
    let cs = chars_of(rendered.text.as_str());
    if cs.len() <= limit {
        return rendered;
    }
    let mut text = string_of(&cs, 0, limit);
    assert(text@ =~= rendered@.text.take(limit as int));
    let cutoff: usize = byte_len(text.as_str());
    text.append("...");
    let ghost hs = rendered.highlights@;
    let mut highlights: Vec<TextHighlight> = Vec::new();
    let mut i: usize = 0;
    while i < rendered.highlights.len()
        invariant
            hs == rendered.highlights@,
            i <= hs.len(),
            highlights@ == cut_highlights(hs.take(i as int), cutoff),
        decreases hs.len() - i,
    {
        let h = rendered.highlights[i];
        proof {
            assert(hs.take(i + 1).drop_last() =~= hs.take(i as int));
        }
        if h.start < cutoff {
            let end: usize = if h.end < cutoff { h.end } else { cutoff };
            highlights.push(TextHighlight { start: h.start, end, kind: h.kind });
        }
        i += 1;
    }
    assert(hs.take(i as int) =~= hs);
    let ghost old_slots = rendered.emoji_slots@;
    let ghost views = emoji_slots(old_slots);
    let mut slots: Vec<InlineEmojiSlot> = Vec::new();
    assert(emoji_slots(slots@) =~= Seq::<EmojiSlotView>::empty());
    for slot in it: rendered.emoji_slots
        invariant
            it.seq() == old_slots,
            views == emoji_slots(old_slots),
            emoji_slots(slots@) == cut_slots(views.take(it.index()), cutoff),
    {
        proof {
            assert(views.take(it.index() + 1).drop_last() =~= views.take(it.index()));
            assert(views.take(it.index() + 1).last() == slot@);
        }
        if slot.byte_start.saturating_add(slot.byte_len) <= cutoff {
            assert(emoji_slots(slots@.push(slot)) =~= emoji_slots(slots@).push(slot@));
            slots.push(slot);
        }
    }
    assert(views.take(old_slots.len() as int) =~= views);
    RenderedText { text, highlights, emoji_slots: slots }
}

// ---- Links ----

/// The highlights of detected links.
pub open spec fn link_highlights(ranges: Seq<(usize, usize)>) -> Seq<TextHighlight> {
    ranges.map_values(
        |r: (usize, usize)| TextHighlight { start: r.0, end: r.1, kind: TextHighlightKind::Url },
    )
}

/// Highlights for the byte ranges in which links were detected.
pub fn url_highlights(ranges: &[(usize, usize)]) -> (r: Vec<TextHighlight>)
    ensures
        r@ == link_highlights(ranges@),
{
    let mut out: Vec<TextHighlight> = Vec::new();
    let mut i: usize = 0;
    while i < ranges.len()
        invariant
            i <= ranges@.len(),
            out@ == link_highlights(ranges@).take(i as int),
        decreases ranges@.len() - i,
    {
        out.push(TextHighlight { start: ranges[i].0, end: ranges[i].1, kind: TextHighlightKind::Url });
        assert(out@ =~= link_highlights(ranges@).take(i + 1));
        i += 1;
    }
    assert(out@ =~= link_highlights(ranges@));
    out
}

pub open spec fn with_links(r: RenderedView, ranges: Seq<(usize, usize)>) -> RenderedView {
    RenderedView { highlights: r.highlights + link_highlights(ranges), ..r }
}

pub fn rendered_text_with_url_highlights(rendered: RenderedText, ranges: &[(usize, usize)]) -> (r: RenderedText)
    ensures
        r@ == with_links(rendered@, ranges@),
{
    let mut highlights = rendered.highlights;
    let mut links = url_highlights(ranges);
    highlights.append(&mut links);
    RenderedText { text: rendered.text, highlights, emoji_slots: rendered.emoji_slots }
}

// ---- Lines ----

/// The places of emoji images in a line that is not wrapped.
pub open spec fn line_image_slots(text: Seq<char>, slots: Seq<EmojiSlotView>) -> Seq<ImageSlotView> {
    slots.map_values(
        |s: EmojiSlotView|
            ImageSlotView {
                col: to_col(display_width(if on_boundary(text, s.byte_start as int) {
                    byte_slice(text, 0, s.byte_start as int)
                } else {
                    ""@
                })),
                byte_start: s.byte_start,
                byte_len: s.byte_len,
                display_width: s.display_width,
                image_size: EmojiImageSize::Compact,
                url: s.url,
            },
    )
}

pub fn emoji_slots_to_image_slots(text: &str, slots: &[InlineEmojiSlot]) -> (r: Vec<MessageContentImageSlot>)
    ensures
        image_slots(r@) == line_image_slots(text@, emoji_slots(slots@)),
{
    let ghost expected = line_image_slots(text@, emoji_slots(slots@));
    let mut out: Vec<MessageContentImageSlot> = Vec::new();
    let mut i: usize = 0;
    assert(image_slots(out@) =~= expected.take(0));
    while i < slots.len()
        invariant
            expected == line_image_slots(text@, emoji_slots(slots@)),
            i <= slots@.len(),
            image_slots(out@) == expected.take(i as int),
        decreases slots@.len() - i,
    {
        let slot = &slots[i];
        let width: usize = if is_boundary(text, slot.byte_start) {
            proof {
                lemma_boundary_ends(text@);
            }
            str_width(slice_bytes(text, 0, slot.byte_start).as_str())
        } else {
            str_width("")
        };
        let placed = MessageContentImageSlot {
            col: column(width),
            byte_start: slot.byte_start,
            byte_len: slot.byte_len,
            display_width: slot.display_width,
            image_size: EmojiImageSize::Compact,
            url: slot.url.clone(),
        };
        proof {
            assert(expected[i as int] == placed@);
            assert(image_slots(out@.push(placed)) =~= image_slots(out@).push(placed@));
            assert(expected.take(i + 1) =~= expected.take(i as int).push(placed@));
        }
        out.push(placed);
        i += 1;
    }
    assert(expected.take(i as int) =~= expected);
    out
}

pub open spec fn unwrapped_line(r: RenderedView, style: Style) -> LineView {
    LineView {
        text: r.text,
        style,
        mention_highlights: r.highlights,
        styled_prefixes: seq![],
        image_slots: line_image_slots(r.text, r.emoji_slots),
        preview_slots: seq![],
    }
}

/// A text as one line, without wrapping.
pub fn rendered_text_line(rendered: RenderedText, style: Style) -> (r: MessageContentLine)
    ensures
        r@ == unwrapped_line(rendered@, style),
{
    let slots = emoji_slots_to_image_slots(rendered.text.as_str(), rendered.emoji_slots.as_slice());
    MessageContentLine::styled_text(rendered.text, style, rendered.highlights).with_image_slots(slots)
}

/// Addition that stops at the last column.
pub open spec fn sat_add_col(a: u16, b: u16) -> u16 {
    if a + b > u16::MAX {
        u16::MAX
    } else {
        (a + b) as u16
    }
}

/// A line with text in front of it: everything in it moves to the right.
pub open spec fn prefixed_line(prefix: Seq<char>, line: LineView) -> LineView {
    let n = utf8_len(prefix) as usize;
    let cols = to_col(display_width(prefix));
    LineView {
        text: prefix + line.text,
        style: line.style,
        mention_highlights: shift_highlights(line.mention_highlights, n),
        styled_prefixes: line.styled_prefixes.map_values(
            |p: StyledPrefix| StyledPrefix { start: sat_add(p.start, n), ..p },
        ),
        image_slots: line.image_slots.map_values(
            |s: ImageSlotView|
                ImageSlotView { col: sat_add_col(s.col, cols), byte_start: sat_add(s.byte_start, n), ..s },
        ),
        preview_slots: line.preview_slots.map_values(
            |s: MessageContentPreviewSlot| MessageContentPreviewSlot { col: sat_add_col(s.col, cols), ..s },
        ),
    }
}

pub fn prefix_message_content_line(prefix: &str, line: MessageContentLine) -> (r: MessageContentLine)
    ensures
        r@ == prefixed_line(prefix@, line@),
{
    let shift: usize = byte_len(prefix);
    let cols: u16 = column(str_width(prefix));
    let ghost expected = prefixed_line(prefix@, line@);
    let ghost old_line = line@;
    let mention_highlights = shift_all_highlights(&line.mention_highlights, shift);
    let mut styled_prefixes: Vec<StyledPrefix> = Vec::new();
    let mut i: usize = 0;
    while i < line.styled_prefixes.len()
        invariant
            old_line == line@,
            shift == utf8_len(prefix@),
            expected == prefixed_line(prefix@, old_line),
            i <= line.styled_prefixes@.len(),
            styled_prefixes@ == expected.styled_prefixes.take(i as int),
        decreases line.styled_prefixes@.len() - i,
    {
        let p = line.styled_prefixes[i];
        styled_prefixes.push(
            StyledPrefix { start: p.start.saturating_add(shift), len: p.len, style: p.style, patch_base: p.patch_base },
        );
        assert(styled_prefixes@ =~= expected.styled_prefixes.take(i + 1));
        i += 1;
    }
    assert(styled_prefixes@ =~= expected.styled_prefixes);
    let mut preview_slots: Vec<MessageContentPreviewSlot> = Vec::new();
    let mut i: usize = 0;
    while i < line.preview_slots.len()
        invariant
            old_line == line@,
            cols == to_col(display_width(prefix@)),
            expected == prefixed_line(prefix@, old_line),
            i <= line.preview_slots@.len(),
            preview_slots@ == expected.preview_slots.take(i as int),
        decreases line.preview_slots@.len() - i,
    {
        let s = line.preview_slots[i];
        preview_slots.push(
            MessageContentPreviewSlot {
                section_thumbnail_index: s.section_thumbnail_index,
                col: s.col.saturating_add(cols),
                width: s.width,
                height: s.height,
            },
        );
        assert(preview_slots@ =~= expected.preview_slots.take(i + 1));
        i += 1;
    }
    assert(preview_slots@ =~= expected.preview_slots);
    let ghost old_slots = line.image_slots@;
    let mut slots: Vec<MessageContentImageSlot> = Vec::new();
    assert(image_slots(slots@) =~= expected.image_slots.take(0));
    for slot in it: line.image_slots
        invariant
            shift == utf8_len(prefix@),
            cols == to_col(display_width(prefix@)),
            expected == prefixed_line(prefix@, old_line),
            old_line.image_slots == image_slots(old_slots),
            it.seq() == old_slots,
            image_slots(slots@) == expected.image_slots.take(it.index()),
    {
        let moved = MessageContentImageSlot {
            col: slot.col.saturating_add(cols),
            byte_start: slot.byte_start.saturating_add(shift),
            byte_len: slot.byte_len,
            display_width: slot.display_width,
            image_size: slot.image_size,
            url: slot.url,
        };
        proof {
            assert(old_line.image_slots[it.index()] == slot@);
            assert(expected.image_slots[it.index()] == moved@);
            assert(image_slots(slots@.push(moved)) =~= image_slots(slots@).push(moved@));
            assert(expected.image_slots.take(it.index() + 1) =~= expected.image_slots.take(it.index()).push(moved@));
        }
        slots.push(moved);
    }
    assert(image_slots(slots@) =~= expected.image_slots);
    let mut text = prefix.to_owned();
    text.append(line.text.as_str());
    MessageContentLine {
        text,
        style: line.style,
        mention_highlights,
        styled_prefixes,
        image_slots: slots,
        preview_slots,
    }
}

pub open spec fn prefixed_line_styled(prefix: Seq<char>, style: Style, line: LineView) -> LineView {
    let moved = prefixed_line(prefix, line);
    LineView {
        styled_prefixes: moved.styled_prefixes.push(
            StyledPrefix { start: 0, len: utf8_len(prefix) as usize, style, patch_base: false },
        ),
        ..moved
    }
}

/// A line with text of another style in front of it.
pub fn prefix_message_content_line_with_style(prefix: &str, style: Style, line: MessageContentLine) -> (r:
    MessageContentLine)
    ensures
        r@ == prefixed_line_styled(prefix@, style, line@),
{
    let mut line = prefix_message_content_line(prefix, line);
    let len: usize = byte_len(prefix);
    line.styled_prefixes.push(StyledPrefix { start: 0, len, style, patch_base: false });
    line
}

/// A line with text in its own style, but never underlined, in front of it.
pub fn prefix_message_content_line_without_underline(prefix: &str, line: MessageContentLine) -> (r:
    MessageContentLine)
    ensures
        r@ == prefixed_line_styled(prefix@, line@.style.without_modifier(UNDERLINED), line@),
{
    let style = line.style.remove_modifier(UNDERLINED);
    prefix_message_content_line_with_style(prefix, style, line)
}

} // verus!
