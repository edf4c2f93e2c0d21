//! Wrapping of text to a display width, with highlights and emoji places distributed over the lines.

use crate::message::rendered::{
    emoji_slots, image_slots, EmojiImageSize, EmojiSlotView, ImageSlotView, InlineEmojiSlot,
    MessageContentImageSlot, TextHighlight,
};
use crate::text::{
    byte_at, byte_len, concat, first_index, lemma_byte_at_ends, lemma_byte_at_monotonic,
    lemma_first_index, lemma_utf8_len_concat, lemma_utf8_len_one, split_at_char, split_on, split_str, texts, utf8_len,
};
use crate::unicode::{all_space, display_width, graphemes, is_all_space, split_graphemes, str_width};
use vstd::prelude::*;
use vstd::string::*;

verus! {

/// Addition that stops at the largest `usize`.
pub open spec fn sat_add(a: usize, b: usize) -> usize {
    if a + b > usize::MAX {
        usize::MAX
    } else {
        (a + b) as usize
    }
}

/// A number as a column, or the last column if it does not fit.
pub open spec fn to_col(n: usize) -> u16 {
    if n > u16::MAX {
        u16::MAX
    } else {
        n as u16
    }
}

pub fn column(n: usize) -> (c: u16)
    ensures
        c == to_col(n),
{
    if n > u16::MAX as usize {
        u16::MAX
    } else {
        n as u16
    }
}

// ---- Highlights of a range ----

/// The part of a highlight that lies in `start..end`, relative to `start`.
pub open spec fn clip_highlight(h: TextHighlight, start: usize, end: usize) -> Option<TextHighlight> {
    let from = if h.start > start { h.start } else { start };
    let to = if h.end < end { h.end } else { end };
    if from < to {
        Some(TextHighlight { start: (from - start) as usize, end: (to - start) as usize, kind: h.kind })
    } else {
        None
    }
}

/// The highlights that meet `start..end`, clipped to it and relative to `start`.
pub open spec fn clip_highlights(hs: Seq<TextHighlight>, start: usize, end: usize) -> Seq<TextHighlight>
    decreases hs.len(),
{
    if hs.len() == 0 {
        seq![]
    } else {
        let before = clip_highlights(hs.drop_last(), start, end);
        match clip_highlight(hs.last(), start, end) {
            Some(h) => before.push(h),
            None => before,
        }
    }
}

pub fn highlights_for_range(highlights: &[TextHighlight], start: usize, end: usize) -> (r: Vec<
    TextHighlight,
>)
    ensures
        r@ == clip_highlights(highlights@, start, end),
{
    let mut out: Vec<TextHighlight> = Vec::new();
    let mut i: usize = 0;
    while i < highlights.len()
        invariant
            i <= highlights@.len(),
            out@ == clip_highlights(highlights@.take(i as int), start, end),
        decreases highlights@.len() - i,
    {
        let h = highlights[i];
        let from: usize = if h.start > start { h.start } else { start };
        let to: usize = if h.end < end { h.end } else { end };
        proof {
            assert(highlights@.take(i + 1).drop_last() =~= highlights@.take(i as int));
        }
        if from < to {
            out.push(TextHighlight { start: from - start, end: to - start, kind: h.kind });
        }
        i += 1;
    }
    proof {
        assert(highlights@.take(highlights@.len() as int) =~= highlights@);
    }
    out
}

/// Every clipped highlight is a nonempty range inside the line that it was clipped to.
pub proof fn clipped_highlights_lie_in_the_line(hs: Seq<TextHighlight>, start: usize, end: usize)
    ensures
        forall|i: int|
            0 <= i < clip_highlights(hs, start, end).len() ==> {
                let h = #[trigger] clip_highlights(hs, start, end)[i];
                h.start < h.end && start + h.end <= end
            },
    decreases hs.len(),
{
    if hs.len() > 0 {
        clipped_highlights_lie_in_the_line(hs.drop_last(), start, end);
    }
}

// ---- Lines of plain text ----

/// The state of filling lines cluster by cluster: the finished lines, the line being filled and its
/// width.
pub struct FillState {
    pub lines: Seq<Seq<char>>,
    pub current: Seq<char>,
    pub width: usize,
}

/// One more cluster: it opens a new line when the line at hand has some width and no room for it.
pub open spec fn fill_step(st: FillState, cluster: Seq<char>, width: usize) -> FillState {
    let w = display_width(cluster);
    if st.width > 0 && w > 0 && sat_add(st.width, w) > width {
        FillState { lines: st.lines.push(st.current), current: cluster, width: w }
    } else {
        FillState { lines: st.lines, current: st.current + cluster, width: sat_add(st.width, w) }
    }
}

pub open spec fn fill(clusters: Seq<Seq<char>>, width: usize) -> FillState
    decreases clusters.len(),
{
    if clusters.len() == 0 {
        FillState { lines: seq![], current: seq![], width: 0 }
    } else {
        fill_step(fill(clusters.drop_last(), width), clusters.last(), width)
    }
}

/// The lines that one source line wraps to.
pub open spec fn fill_line(line: Seq<char>, width: usize) -> Seq<Seq<char>> {
    if line.len() == 0 {
        seq![seq![]]
    } else {
        let st = fill(graphemes(line), width);
        st.lines.push(st.current)
    }
}

pub open spec fn fill_lines(source: Seq<Seq<char>>, width: usize) -> Seq<Seq<char>>
    decreases source.len(),
{
    if source.len() == 0 {
        seq![]
    } else {
        fill_lines(source.drop_last(), width) + fill_line(source.last(), width)
    }
}

/// The width that lines are wrapped to: at least one column.
pub open spec fn wrap_width(width: usize) -> usize {
    if width == 0 {
        1
    } else {
        width
    }
}

/// The lines of a text: none for the empty text, and a new one at each line feed.
pub open spec fn wrapped_lines(value: Seq<char>, width: usize) -> Seq<Seq<char>> {
    if value.len() == 0 {
        seq![]
    } else {
        fill_lines(split_on(value, '\n'), wrap_width(width))
    }
}

proof fn lemma_texts_push(v: Seq<String>, s: String)
    ensures
        texts(v.push(s)) == texts(v).push(s@),
{
    assert(texts(v.push(s)) =~= texts(v).push(s@));
}

fn fill_one_line(line: &str, width: usize, lines: &mut Vec<String>)
    requires
        line@.len() > 0,
    ensures
        texts(final(lines)@) == texts(old(lines)@) + fill_line(line@, width),
{
    let clusters = split_graphemes(line);
    let mut current = String::new();
    let mut current_width: usize = 0;
    let mut i: usize = 0;
    proof {
        assert(texts(clusters@).take(0) =~= Seq::<Seq<char>>::empty());
        assert(texts(lines@) + Seq::<Seq<char>>::empty() =~= texts(lines@));
    }
    while i < clusters.len()
        invariant
            i <= clusters@.len(),
            texts(clusters@) == graphemes(line@),
            ({
                let st = fill(graphemes(line@).take(i as int), width);
                &&& texts(lines@) == texts(old(lines)@) + st.lines
                &&& current@ == st.current
                &&& current_width == st.width
            }),
        decreases clusters@.len() - i,
    {
        let grapheme: &String = &clusters[i];
        let grapheme_width: usize = str_width(grapheme.as_str());
        proof {
            let before = graphemes(line@).take(i as int);
            assert(graphemes(line@).take(i + 1).drop_last() =~= before);
            assert(graphemes(line@)[i as int] == grapheme@);
            lemma_texts_push(lines@, current);
            assert(texts(lines@).push(current@) =~= texts(old(lines)@) + fill(before, width).lines.push(current@));
            assert(Seq::<char>::empty() + grapheme@ =~= grapheme@);
        }
        if current_width > 0 && grapheme_width > 0 && current_width.saturating_add(grapheme_width)
            > width {
            lines.push(current);
            current = String::new();
            current_width = 0;
        }
        current.append(grapheme.as_str());
        current_width = current_width.saturating_add(grapheme_width);
        i += 1;
    }
    proof {
        assert(graphemes(line@).take(i as int) =~= graphemes(line@));
        lemma_texts_push(lines@, current);
        let st = fill(graphemes(line@), width);
        assert(texts(lines@).push(current@) =~= texts(old(lines)@) + st.lines.push(st.current));
    }
    lines.push(current);
}

/// Wraps a text to `width` columns, breaking between grapheme clusters.
pub fn wrap_text_lines(value: &str, width: usize) -> (r: Vec<String>)
    ensures
        texts(r@) == wrapped_lines(value@, width),
{
    let mut lines: Vec<String> = Vec::new();
    if value.is_empty() {
        assert(texts(lines@) =~= Seq::<Seq<char>>::empty());
        return lines;
    }
    let width: usize = if width == 0 { 1 } else { width };
    let source = split_str(value, '\n');
    let mut k: usize = 0;
    proof {
        assert(texts(source@).take(0) =~= Seq::<Seq<char>>::empty());
        assert(texts(lines@) =~= Seq::<Seq<char>>::empty());
    }
    while k < source.len()
        invariant
            k <= source@.len(),
            texts(source@) == split_on(value@, '\n'),
            texts(lines@) == fill_lines(texts(source@).take(k as int), width),
        decreases source@.len() - k,
    {
        let ghost before = lines@;
        proof {
            assert(texts(source@).take(k + 1).drop_last() =~= texts(source@).take(k as int));
            assert(texts(source@)[k as int] == source@[k as int]@);
        }
        if source[k].as_str().is_empty() {
            let empty = String::new();
            proof {
                lemma_texts_push(before, empty);
                assert(source@[k as int]@ =~= Seq::<char>::empty());
                assert(texts(before).push(empty@) =~= texts(before) + fill_line(source@[k as int]@, width));
            }
            lines.push(empty);
        } else {
            fill_one_line(source[k].as_str(), width, &mut lines);
        }
        k += 1;
    }
    proof {
        assert(texts(source@).take(k as int) =~= texts(source@));
    }
    lines
}

// ---- Lines with highlights and emoji places ----

/// One line of wrapped text. Its text is the bytes `source_start..source_end` of the source.
#[derive(Debug, PartialEq, Eq)]
pub struct WrappedTextLine {
    pub text: String,
    pub source_start: usize,
    pub source_end: usize,
    pub mention_highlights: Vec<TextHighlight>,
    pub image_slots: Vec<MessageContentImageSlot>,
}

/// The value of a [`WrappedTextLine`].
pub struct WrappedView {
    pub text: Seq<char>,
    pub source_start: usize,
    pub source_end: usize,
    pub mention_highlights: Seq<TextHighlight>,
    pub image_slots: Seq<ImageSlotView>,
}

impl View for WrappedTextLine {
    type V = WrappedView;

    open spec fn view(&self) -> WrappedView {
        WrappedView {
            text: self.text@,
            source_start: self.source_start,
            source_end: self.source_end,
            mention_highlights: self.mention_highlights@,
            image_slots: image_slots(self.image_slots@),
        }
    }
}

pub open spec fn wrapped_views(v: Seq<WrappedTextLine>) -> Seq<WrappedView> {
    v.map_values(|l: WrappedTextLine| l@)
}

/// A place in the line being filled where a word begins.
struct WrapBoundary {
    source_start: usize,
    byte_start: usize,
    width: usize,
    slot_count: usize,
}

/// A place where a word begins, `chars` characters into the line being filled.
pub struct BoundaryView {
    pub source_start: usize,
    pub chars: int,
    pub width: usize,
    pub slot_count: int,
}

/// A grapheme cluster at its place in the source, with the emoji place that starts there, if any.
pub struct Cluster {
    pub text: Seq<char>,
    pub start: usize,
    pub slot: Option<EmojiSlotView>,
}

impl Cluster {
    pub open spec fn end(self) -> usize {
        (self.start + utf8_len(self.text)) as usize
    }

    /// White space at which a line may break without the space itself being kept.
    pub open spec fn is_separator(self) -> bool {
        self.slot is None && all_space(self.text)
    }

    /// The columns that the cluster needs: an emoji place is taken whole.
    pub open spec fn needed_width(self) -> usize {
        match self.slot {
            Some(slot) => slot.display_width as usize,
            None => display_width(self.text),
        }
    }
}

/// The state of wrapping one source line.
pub struct WrapState {
    pub lines: Seq<WrappedView>,
    pub text: Seq<char>,
    pub width: usize,
    pub start: usize,
    pub end: usize,
    pub slots: Seq<ImageSlotView>,
    pub boundary: Option<BoundaryView>,
    pub after_space: bool,
}

/// The first emoji place that starts at `at`.
pub open spec fn slot_starting_at(slots: Seq<EmojiSlotView>, at: usize) -> Option<EmojiSlotView>
    decreases slots.len(),
{
    if slots.len() == 0 {
        None
    } else if slots[0].byte_start == at {
        Some(slots[0])
    } else {
        slot_starting_at(slots.drop_first(), at)
    }
}

pub open spec fn line_of(
    text: Seq<char>,
    start: usize,
    end: usize,
    highlights: Seq<TextHighlight>,
    slots: Seq<ImageSlotView>,
) -> WrappedView {
    WrappedView {
        text,
        source_start: start,
        source_end: end,
        mention_highlights: clip_highlights(highlights, start, end),
        image_slots: slots,
    }
}

/// Emoji places of a line whose first `bytes` bytes and `width` columns are cut off.
pub open spec fn shift_slots(slots: Seq<ImageSlotView>, bytes: nat, width: usize) -> Seq<ImageSlotView> {
    slots.map_values(
        |s: ImageSlotView|
            ImageSlotView {
                col: (if s.col > to_col(width) {
                    s.col - to_col(width)
                } else {
                    0
                }) as u16,
                byte_start: (if s.byte_start > bytes {
                    s.byte_start - bytes
                } else {
                    0
                }) as usize,
                ..s
            },
    )
}

/// A word that begins here after white space is a place to break at, unless the line holds nothing
/// but white space so far.
pub open spec fn note_word_start(st: WrapState, c: Cluster) -> WrapState {
    if !c.is_separator() && st.after_space && !all_space(st.text) {
        WrapState {
            boundary: Some(
                BoundaryView {
                    source_start: c.start,
                    chars: st.text.len() as int,
                    width: st.width,
                    slot_count: st.slots.len() as int,
                },
            ),
            ..st
        }
    } else {
        st
    }
}

/// Whether the line has some width and no room for the cluster.
pub open spec fn overflows(st: WrapState, c: Cluster, width: usize) -> bool {
    st.width > 0 && c.needed_width() > 0 && sat_add(st.width, c.needed_width()) > width
}

/// The line is finished, and the separator that did not fit is dropped.
pub open spec fn break_at_separator(st: WrapState, c: Cluster, highlights: Seq<TextHighlight>) -> WrapState {
    WrapState {
        lines: st.lines.push(line_of(st.text, st.start, st.end, highlights, st.slots)),
        text: seq![],
        width: 0,
        start: c.end(),
        end: c.end(),
        slots: seq![],
        boundary: None,
        after_space: true,
    }
}

/// The line is finished as it stands, and the cluster begins the next one.
pub open spec fn end_line(st: WrapState, c: Cluster, highlights: Seq<TextHighlight>) -> WrapState {
    WrapState {
        lines: st.lines.push(line_of(st.text, st.start, st.end, highlights, st.slots)),
        text: seq![],
        width: 0,
        start: c.start,
        slots: seq![],
        boundary: None,
        ..st
    }
}

/// The line is finished before its last word, which moves to the next line; without such a word it
/// is finished as it stands.
pub open spec fn move_word(st: WrapState, c: Cluster, highlights: Seq<TextHighlight>) -> WrapState {
    match st.boundary {
        Some(b) if b.chars < st.text.len() => WrapState {
            lines: st.lines.push(
                line_of(st.text.take(b.chars), st.start, b.source_start, highlights, st.slots.take(b.slot_count)),
            ),
            text: st.text.skip(b.chars),
            width: (if st.width > b.width {
                st.width - b.width
            } else {
                0
            }) as usize,
            start: b.source_start,
            slots: shift_slots(st.slots.skip(b.slot_count), byte_at(st.text, b.chars), b.width),
            boundary: None,
            ..st
        },
        _ => end_line(st, c, highlights),
    }
}

/// The line is finished before the cluster or before its last word. An emoji that has no room behind the
/// word begins a line of its own, so that it is not broken.
pub open spec fn break_before(st: WrapState, c: Cluster, highlights: Seq<TextHighlight>, width: usize) -> WrapState {
    let moved = move_word(st, c, highlights);
    if c.slot is Some && overflows(moved, c, width) {
        end_line(moved, c, highlights)
    } else {
        moved
    }
}

/// The cluster joins the line.
pub open spec fn take_cluster(st: WrapState, c: Cluster) -> WrapState {
    WrapState {
        text: st.text + c.text,
        width: sat_add(st.width, display_width(c.text)),
        end: c.end(),
        slots: match c.slot {
            Some(slot) => st.slots.push(
                ImageSlotView {
                    col: to_col(st.width),
                    byte_start: utf8_len(st.text) as usize,
                    byte_len: slot.byte_len,
                    display_width: slot.display_width,
                    image_size: EmojiImageSize::Compact,
                    url: slot.url,
                },
            ),
            None => st.slots,
        },
        after_space: c.is_separator(),
        ..st
    }
}

pub open spec fn wrap_step(
    st: WrapState,
    c: Cluster,
    highlights: Seq<TextHighlight>,
    width: usize,
) -> WrapState {
    let st = note_word_start(st, c);
    if !overflows(st, c, width) {
        take_cluster(st, c)
    } else if c.is_separator() {
        break_at_separator(st, c, highlights)
    } else {
        take_cluster(break_before(st, c, highlights, width), c)
    }
}

/// The clusters of a source line that starts at byte `start`.
pub open spec fn clusters_of(
    parts: Seq<Seq<char>>,
    start: usize,
    slots: Seq<EmojiSlotView>,
    k: int,
) -> Cluster {
    let at = (start + utf8_len(concat(parts.take(k)))) as usize;
    Cluster { text: parts[k], start: at, slot: slot_starting_at(slots, at) }
}

/// The state after the first `k` clusters of a source line.
pub open spec fn wrap_clusters(
    parts: Seq<Seq<char>>,
    start: usize,
    highlights: Seq<TextHighlight>,
    slots: Seq<EmojiSlotView>,
    width: usize,
    k: nat,
) -> WrapState
    decreases k,
{
    if k == 0 {
        WrapState {
            lines: seq![],
            text: seq![],
            width: 0,
            start,
            end: start,
            slots: seq![],
            boundary: None,
            after_space: false,
        }
    } else {
        wrap_step(
            wrap_clusters(parts, start, highlights, slots, width, (k - 1) as nat),
            clusters_of(parts, start, slots, k - 1),
            highlights,
            width,
        )
    }
}

/// The lines that the source line starting at byte `start` wraps to.
pub open spec fn wrap_line(
    line: Seq<char>,
    start: usize,
    highlights: Seq<TextHighlight>,
    slots: Seq<EmojiSlotView>,
    width: usize,
) -> Seq<WrappedView> {
    if line.len() == 0 {
        seq![line_of(seq![], start, start, highlights, seq![])]
    } else {
        let st = wrap_clusters(graphemes(line), start, highlights, slots, width, graphemes(line).len());
        st.lines.push(line_of(st.text, st.start, st.end, highlights, st.slots))
    }
}

/// The byte at which source line `k` starts: each line before it is followed by one line feed.
pub open spec fn source_line_start(source: Seq<Seq<char>>, k: int) -> nat
    decreases k,
{
    if k <= 0 {
        0
    } else {
        source_line_start(source, k - 1) + utf8_len(source[k - 1]) + 1
    }
}

pub open spec fn wrap_source_lines(
    source: Seq<Seq<char>>,
    highlights: Seq<TextHighlight>,
    slots: Seq<EmojiSlotView>,
    width: usize,
    k: int,
) -> Seq<WrappedView>
    decreases k,
{
    if k <= 0 {
        seq![]
    } else {
        wrap_source_lines(source, highlights, slots, width, k - 1) + wrap_line(
            source[k - 1],
            source_line_start(source, k - 1) as usize,
            highlights,
            slots,
            width,
        )
    }
}

/// The lines of a text with highlights and emoji places.
pub open spec fn wrapped_with_metadata(
    value: Seq<char>,
    highlights: Seq<TextHighlight>,
    slots: Seq<EmojiSlotView>,
    width: usize,
) -> Seq<WrappedView> {
    if value.len() == 0 {
        seq![]
    } else {
        let source = split_on(value, '\n');
        wrap_source_lines(source, highlights, slots, wrap_width(width), source.len() as int)
    }
}

proof fn lemma_concat_step(parts: Seq<Seq<char>>, k: int)
    requires
        0 <= k < parts.len(),
    ensures
        concat(parts.take(k + 1)) == concat(parts.take(k)) + parts[k],
        utf8_len(concat(parts.take(k + 1))) == utf8_len(concat(parts.take(k))) + utf8_len(parts[k]),
{
    assert(parts.take(k + 1).drop_last() =~= parts.take(k));
    lemma_utf8_len_concat(concat(parts.take(k)), parts[k]);
}

proof fn lemma_concat_prefix(parts: Seq<Seq<char>>, k: int)
    requires
        0 <= k <= parts.len(),
    ensures
        utf8_len(concat(parts.take(k))) <= utf8_len(concat(parts)),
        concat(parts.take(k)).len() <= concat(parts).len(),
        concat(parts).take(concat(parts.take(k)).len() as int) == concat(parts.take(k)),
    decreases parts.len() - k,
{
    if k < parts.len() {
        lemma_concat_step(parts, k);
        lemma_concat_prefix(parts, k + 1);
        assert(concat(parts).take(concat(parts.take(k)).len() as int) =~= concat(parts).take(
            concat(parts.take(k + 1)).len() as int,
        ).take(concat(parts.take(k)).len() as int));
        assert(concat(parts.take(k + 1)).take(concat(parts.take(k)).len() as int) =~= concat(parts.take(k)));
    } else {
        assert(parts.take(k) =~= parts);
        assert(concat(parts).take(concat(parts).len() as int) =~= concat(parts));
    }
}

// ---- What wrapping keeps of the text ----

/// A line holds the characters `cut.0..cut.1` of `text`, whose first byte is at `base`.
pub open spec fn line_is_slice(line: WrappedView, cut: (int, int), text: Seq<char>, base: int) -> bool {
    &&& 0 <= cut.0 <= cut.1 <= text.len()
    &&& line.text == text.subrange(cut.0, cut.1)
    &&& line.source_start == base + byte_at(text, cut.0)
    &&& line.source_end == base + byte_at(text, cut.1)
}

/// The cuts follow one another from the start of the text to `end`, and what lies between two of
/// them is white space.
pub open spec fn cuts_cover(cuts: Seq<(int, int)>, end: int, text: Seq<char>) -> bool {
    &&& cuts.len() == 0 ==> end == 0
    &&& cuts.len() > 0 ==> cuts[0].0 == 0
    &&& forall|k: int| #![trigger cuts[k]]
        0 <= k < cuts.len() ==> {
            let next = if k + 1 < cuts.len() { cuts[k + 1].0 } else { end };
            &&& 0 <= cuts[k].0 <= cuts[k].1 <= next <= text.len()
            &&& all_space(text.subrange(cuts[k].1, next))
        }
}

pub open spec fn lines_are_slices(
    lines: Seq<WrappedView>,
    cuts: Seq<(int, int)>,
    text: Seq<char>,
    base: int,
) -> bool {
    &&& lines.len() == cuts.len()
    &&& forall|k: int| 0 <= k < lines.len() ==> line_is_slice(#[trigger] lines[k], cuts[k], text, base)
}

/// The line being filled holds the characters from `from` on.
spec fn filling_from(st: WrapState, from: int, text: Seq<char>, base: int) -> bool {
    &&& 0 <= from <= text.len()
    &&& st.text == text.skip(from)
    &&& st.start == base + byte_at(text, from)
    &&& st.end == base + utf8_len(text)
    &&& st.boundary matches Some(b) ==> {
        &&& 0 <= b.chars <= st.text.len()
        &&& b.source_start == base + byte_at(text, from + b.chars)
    }
}

proof fn lemma_longer_text(
    lines: Seq<WrappedView>,
    cuts: Seq<(int, int)>,
    end: int,
    text: Seq<char>,
    more: Seq<char>,
    base: int,
)
    requires
        lines_are_slices(lines, cuts, text, base),
        cuts_cover(cuts, end, text),
        end <= text.len(),
    ensures
        lines_are_slices(lines, cuts, text + more, base),
        cuts_cover(cuts, end, text + more),
{
    assert forall|k: int| 0 <= k < lines.len() implies line_is_slice(
        #[trigger] lines[k],
        cuts[k],
        text + more,
        base,
    ) by {
        assert((text + more).subrange(cuts[k].0, cuts[k].1) =~= text.subrange(cuts[k].0, cuts[k].1));
        assert((text + more).take(cuts[k].0) =~= text.take(cuts[k].0));
        assert((text + more).take(cuts[k].1) =~= text.take(cuts[k].1));
    }
    assert forall|k: int| #![trigger cuts[k]] 0 <= k < cuts.len() implies {
        let next = if k + 1 < cuts.len() { cuts[k + 1].0 } else { end };
        &&& 0 <= cuts[k].0 <= cuts[k].1 <= next <= (text + more).len()
        &&& all_space((text + more).subrange(cuts[k].1, next))
    } by {
        let next = if k + 1 < cuts.len() { cuts[k + 1].0 } else { end };
        assert((text + more).subrange(cuts[k].1, next) =~= text.subrange(cuts[k].1, next));
    }
}

/// One more cut, directly behind the last one but for white space, and a new end.
proof fn lemma_push_cut(cuts: Seq<(int, int)>, end: int, text: Seq<char>, to: int, new_end: int)
    requires
        cuts_cover(cuts, end, text),
        0 <= end <= to <= new_end <= text.len(),
        all_space(text.subrange(to, new_end)),
    ensures
        cuts_cover(cuts.push((end, to)), new_end, text),
{
    let pushed = cuts.push((end, to));
    assert forall|k: int| #![trigger pushed[k]] 0 <= k < pushed.len() implies {
        let next = if k + 1 < pushed.len() { pushed[k + 1].0 } else { new_end };
        &&& 0 <= pushed[k].0 <= pushed[k].1 <= next <= text.len()
        &&& all_space(text.subrange(pushed[k].1, next))
    } by {
        if k < cuts.len() {
            assert(pushed[k] == cuts[k]);
            if k + 1 < cuts.len() {
                assert(pushed[k + 1] == cuts[k + 1]);
            }
        }
    }
    if cuts.len() > 0 {
        assert(pushed[0] == cuts[0]);
    }
}

/// The finished lines and the one being filled hold the text, but for white space between them.
spec fn holds_text(st: WrapState, cuts: Seq<(int, int)>, from: int, text: Seq<char>, base: int) -> bool {
    &&& filling_from(st, from, text, base)
    &&& lines_are_slices(st.lines, cuts, text, base)
    &&& cuts_cover(cuts, from, text)
}

proof fn lemma_take_cluster(st: WrapState, c: Cluster, cuts: Seq<(int, int)>, from: int, text: Seq<char>, base: int)
    requires
        holds_text(st, cuts, from, text, base),
        c.end() == base + utf8_len(text + c.text),
    ensures
        holds_text(take_cluster(st, c), cuts, from, text + c.text, base),
{
    let longer = text + c.text;
    lemma_longer_text(st.lines, cuts, from, text, c.text, base);
    assert(longer.take(from) =~= text.take(from));
    assert(longer.skip(from) =~= text.skip(from) + c.text);
    if st.boundary is Some {
        let b = st.boundary->0;
        assert(longer.take(from + b.chars) =~= text.take(from + b.chars));
    }
}

proof fn lemma_end_line(
    st: WrapState,
    c: Cluster,
    highlights: Seq<TextHighlight>,
    cuts: Seq<(int, int)>,
    from: int,
    text: Seq<char>,
    base: int,
)
    requires
        holds_text(st, cuts, from, text, base),
        c.start == base + utf8_len(text),
    ensures
        holds_text(
            end_line(st, c, highlights),
            cuts.push((from, text.len() as int)),
            text.len() as int,
            text,
            base,
        ),
{
    let to = text.len() as int;
    lemma_byte_at_ends(text);
    assert(text.subrange(to, to) =~= Seq::<char>::empty());
    lemma_push_cut(cuts, from, text, to, to);
    assert(text.subrange(from, to) =~= st.text);
    assert(text.skip(to) =~= Seq::<char>::empty());
}

proof fn lemma_move_word(
    st: WrapState,
    c: Cluster,
    highlights: Seq<TextHighlight>,
    cuts: Seq<(int, int)>,
    from: int,
    text: Seq<char>,
    base: int,
) -> (r: (Seq<(int, int)>, int))
    requires
        holds_text(st, cuts, from, text, base),
        c.start == base + utf8_len(text),
    ensures
        holds_text(move_word(st, c, highlights), r.0, r.1, text, base),
{
    match st.boundary {
        Some(b) if b.chars < st.text.len() => {
            let to = from + b.chars;
            assert(text.subrange(to, to) =~= Seq::<char>::empty());
            lemma_push_cut(cuts, from, text, to, to);
            assert(text.subrange(from, to) =~= st.text.take(b.chars));
            assert(text.skip(to) =~= st.text.skip(b.chars));
            (cuts.push((from, to)), to)
        },
        _ => {
            lemma_end_line(st, c, highlights, cuts, from, text, base);
            (cuts.push((from, text.len() as int)), text.len() as int)
        },
    }
}

proof fn lemma_break_at_separator(
    st: WrapState,
    c: Cluster,
    highlights: Seq<TextHighlight>,
    cuts: Seq<(int, int)>,
    from: int,
    text: Seq<char>,
    base: int,
)
    requires
        holds_text(st, cuts, from, text, base),
        c.is_separator(),
        c.end() == base + utf8_len(text + c.text),
    ensures
        holds_text(
            break_at_separator(st, c, highlights),
            cuts.push((from, text.len() as int)),
            (text + c.text).len() as int,
            text + c.text,
            base,
        ),
{
    let longer = text + c.text;
    let to = text.len() as int;
    let end = longer.len() as int;
    lemma_byte_at_ends(text);
    lemma_byte_at_ends(longer);
    lemma_longer_text(st.lines, cuts, from, text, c.text, base);
    assert(longer.take(from) =~= text.take(from));
    assert(longer.take(to) =~= text);
    assert(longer.subrange(to, end) =~= c.text);
    lemma_push_cut(cuts, from, longer, to, end);
    assert(longer.subrange(from, to) =~= st.text);
    assert(longer.skip(end) =~= Seq::<char>::empty());
}

proof fn lemma_wrap_clusters(
    parts: Seq<Seq<char>>,
    start: usize,
    highlights: Seq<TextHighlight>,
    slots: Seq<EmojiSlotView>,
    width: usize,
    k: nat,
) -> (r: (Seq<(int, int)>, int))
    requires
        k <= parts.len(),
        start + utf8_len(concat(parts)) <= usize::MAX,
    ensures
        holds_text(
            wrap_clusters(parts, start, highlights, slots, width, k),
            r.0,
            r.1,
            concat(parts.take(k as int)),
            start as int,
        ),
    decreases k,
{
    if k == 0 {
        let text = concat(parts.take(0));
        assert(text =~= Seq::<char>::empty());
        assert(text.take(0) =~= text);
        assert(text.skip(0) =~= text);
        (seq![], 0)
    } else {
        let j = (k - 1) as nat;
        let (cuts, from) = lemma_wrap_clusters(parts, start, highlights, slots, width, j);
        let base = start as int;
        let text = concat(parts.take(j as int));
        lemma_concat_step(parts, j as int);
        lemma_concat_prefix(parts, k as int);
        lemma_concat_prefix(parts, j as int);
        let c = clusters_of(parts, start, slots, j as int);
        let st = note_word_start(wrap_clusters(parts, start, highlights, slots, width, j), c);
        lemma_byte_at_ends(text);
        assert(holds_text(st, cuts, from, text, base));
        assert(concat(parts.take(k as int)) == text + c.text);
        if !overflows(st, c, width) {
            lemma_take_cluster(st, c, cuts, from, text, base);
            (cuts, from)
        } else if c.is_separator() {
            lemma_break_at_separator(st, c, highlights, cuts, from, text, base);
            (cuts.push((from, text.len() as int)), (text + c.text).len() as int)
        } else {
            let moved = move_word(st, c, highlights);
            let (cuts2, from2) = lemma_move_word(st, c, highlights, cuts, from, text, base);
            if c.slot is Some && overflows(moved, c, width) {
                let cuts3 = cuts2.push((from2, text.len() as int));
                lemma_end_line(moved, c, highlights, cuts2, from2, text, base);
                lemma_take_cluster(end_line(moved, c, highlights), c, cuts3, text.len() as int, text, base);
                (cuts3, text.len() as int)
            } else {
                lemma_take_cluster(moved, c, cuts2, from2, text, base);
                (cuts2, from2)
            }
        }
    }
}

/// Wrapping keeps the text: the lines of a source line are slices of it, in order, from its start to
/// its end, and what falls between two of them is white space.
pub proof fn wrapping_drops_only_white_space(
    line: Seq<char>,
    start: usize,
    highlights: Seq<TextHighlight>,
    slots: Seq<EmojiSlotView>,
    width: usize,
) -> (cuts: Seq<(int, int)>)
    requires
        concat(graphemes(line)) == line,
        start + utf8_len(line) <= usize::MAX,
    ensures
        lines_are_slices(wrap_line(line, start, highlights, slots, width), cuts, line, start as int),
        cuts_cover(cuts, line.len() as int, line),
        cuts.len() > 0,
        cuts.last().1 == line.len(),
{
    let lines = wrap_line(line, start, highlights, slots, width);
    lemma_byte_at_ends(line);
    if line.len() == 0 {
        let cuts = seq![(0int, 0int)];
        assert(line.subrange(0, 0) =~= seq![]);
        assert forall|k: int| 0 <= k < lines.len() implies line_is_slice(#[trigger] lines[k], cuts[k], line, start as int) by {
            assert(lines[0].text =~= line.subrange(0, 0));
        }
        cuts
    } else {
        let parts = graphemes(line);
        let (cuts, from) = lemma_wrap_clusters(parts, start, highlights, slots, width, parts.len());
        assert(parts.take(parts.len() as int) =~= parts);
        let end = line.len() as int;
        assert(line.subrange(end, end) =~= Seq::<char>::empty());
        lemma_push_cut(cuts, from, line, end, end);
        assert(line.subrange(from, end) =~= line.skip(from));
        cuts.push((from, end))
    }
}

// ---- Wrapping itself ----

spec fn boundary_matches(b: Option<WrapBoundary>, v: Option<BoundaryView>, text: Seq<char>, slots: int) -> bool {
    match (b, v) {
        (None, None) => true,
        (Some(b), Some(v)) => {
            &&& b.source_start == v.source_start
            &&& b.width == v.width
            &&& b.slot_count == v.slot_count
            &&& 0 <= v.slot_count <= slots
            &&& 0 <= v.chars <= text.len()
            &&& b.byte_start == byte_at(text, v.chars)
        },
        _ => false,
    }
}

fn find_slot(emojis: &[InlineEmojiSlot], at: usize) -> (r: Option<usize>)
    ensures
        match r {
            Some(i) => i < emojis@.len() && slot_starting_at(emoji_slots(emojis@), at) == Some(emojis@[i as int]@),
            None => slot_starting_at(emoji_slots(emojis@), at) is None,
        },
{
    let mut i: usize = 0;
    proof {
        assert(emoji_slots(emojis@).skip(0) =~= emoji_slots(emojis@));
    }
    while i < emojis.len()
        invariant
            i <= emojis@.len(),
            slot_starting_at(emoji_slots(emojis@), at) == slot_starting_at(emoji_slots(emojis@).skip(i as int), at),
        decreases emojis@.len() - i,
    {
        proof {
            let rest = emoji_slots(emojis@).skip(i as int);
            assert(rest[0] == emojis@[i as int]@);
            assert(rest.drop_first() =~= emoji_slots(emojis@).skip(i + 1));
        }
        if emojis[i].byte_start == at {
            return Some(i);
        }
        i += 1;
    }
    None
}

fn wrapped_line(
    text: String,
    source_start: usize,
    source_end: usize,
    highlights: &[TextHighlight],
    slots: Vec<MessageContentImageSlot>,
) -> (r: WrappedTextLine)
    ensures
        r@ == line_of(text@, source_start, source_end, highlights@, image_slots(slots@)),
{
    WrappedTextLine {
        text,
        source_start,
        source_end,
        mention_highlights: highlights_for_range(highlights, source_start, source_end),
        image_slots: slots,
    }
}

/// The places left when the first `bytes` bytes and `width` columns of a line are cut off.
fn shifted(slots: Vec<MessageContentImageSlot>, bytes: usize, width: usize) -> (r: Vec<
    MessageContentImageSlot,
>)
    ensures
        image_slots(r@) == shift_slots(image_slots(slots@), bytes as nat, width),
{
    let mut out: Vec<MessageContentImageSlot> = Vec::new();
    let mut i: usize = 0;
    while i < slots.len()
        invariant
            i <= slots@.len(),
            out@.len() == i,
            forall|k: int| 0 <= k < i ==> (#[trigger] out@[k])@ == shift_slots(image_slots(slots@), bytes as nat, width)[k],
        decreases slots@.len() - i,
    {
        let slot = &slots[i];
        out.push(
            MessageContentImageSlot {
                col: slot.col.saturating_sub(column(width)),
                byte_start: slot.byte_start.saturating_sub(bytes),
                byte_len: slot.byte_len,
                display_width: slot.display_width,
                image_size: slot.image_size,
                url: slot.url.clone(),
            },
        );
        i += 1;
    }
    assert(image_slots(out@) =~= shift_slots(image_slots(slots@), bytes as nat, width));
    out
}

proof fn lemma_views_push(v: Seq<WrappedTextLine>, l: WrappedTextLine)
    ensures
        wrapped_views(v.push(l)) == wrapped_views(v).push(l@),
{
    assert(wrapped_views(v.push(l)) =~= wrapped_views(v).push(l@));
}

#[verifier::rlimit(60)]
#[verifier::loop_isolation(false)]
fn wrap_one_line(
    line: &str,
    line_start: usize,
    highlights: &[TextHighlight],
    emojis: &[InlineEmojiSlot],
    width: usize,
    lines: &mut Vec<WrappedTextLine>,
)
    requires
        line@.len() > 0,
        line_start + utf8_len(line@) <= usize::MAX,
    ensures
        wrapped_views(final(lines)@) == wrapped_views(old(lines)@) + wrap_line(
            line@,
            line_start,
            highlights@,
            emoji_slots(emojis@),
            width,
        ),
        concat(graphemes(line@)) == line@,
{
    let parts = split_graphemes(line);
    let ghost gs = graphemes(line@);
    let ghost slots_view = emoji_slots(emojis@);
    let mut current = String::new();
    let mut current_width: usize = 0;
    let mut current_start: usize = line_start;
    let mut current_end: usize = line_start;
    let mut current_slots: Vec<MessageContentImageSlot> = Vec::new();
    let mut word_boundary: Option<WrapBoundary> = None;
    let mut previous_was_whitespace = false;
    let mut relative_start: usize = 0;
    let mut i: usize = 0;
    proof {
        assert(gs.take(0) =~= Seq::<Seq<char>>::empty());
        assert(utf8_len(Seq::<char>::empty()) == 0);
        assert(image_slots(current_slots@) =~= Seq::<ImageSlotView>::empty());
        assert(wrapped_views(lines@) + Seq::<WrappedView>::empty() =~= wrapped_views(lines@));
    }
    while i < parts.len()
        invariant
            i <= parts@.len(),
            texts(parts@) == gs,
            concat(gs) == line@,
            relative_start == utf8_len(concat(gs.take(i as int))),
            ({
                let st = wrap_clusters(gs, line_start, highlights@, slots_view, width, i as nat);
                &&& wrapped_views(lines@) == wrapped_views(old(lines)@) + st.lines
                &&& current@ == st.text
                &&& current_width == st.width
                &&& current_start == st.start
                &&& current_end == st.end
                &&& image_slots(current_slots@) == st.slots
                &&& boundary_matches(word_boundary, st.boundary, st.text, st.slots.len() as int)
                &&& previous_was_whitespace == st.after_space
            }),
        decreases parts@.len() - i,
    {
        let ghost st0 = wrap_clusters(gs, line_start, highlights@, slots_view, width, i as nat);
        let ghost c = clusters_of(gs, line_start, slots_view, i as int);
        let ghost entry_lines = lines@;
        proof {
            lemma_concat_step(gs, i as int);
            lemma_concat_prefix(gs, i + 1);
            lemma_concat_prefix(gs, i as int);
            assert(gs[i as int] == parts@[i as int]@);
        }
        let grapheme: &String = &parts[i];
        let grapheme_start: usize = line_start.saturating_add(relative_start);
        let grapheme_len: usize = byte_len(grapheme.as_str());
        let grapheme_end: usize = grapheme_start.saturating_add(grapheme_len);
        let grapheme_width: usize = str_width(grapheme.as_str());
        let slot_at_grapheme = find_slot(emojis, grapheme_start);
        let grapheme_is_separator = slot_at_grapheme.is_none() && is_all_space(grapheme.as_str());
        proof {
            assert(c.text == grapheme@);
            assert(c.start == grapheme_start);
            assert(c.end() == grapheme_end);
            assert(c.is_separator() == grapheme_is_separator);
        }
        if !grapheme_is_separator && previous_was_whitespace && !is_all_space(current.as_str()) {
            word_boundary = Some(
                WrapBoundary {
                    source_start: grapheme_start,
                    byte_start: byte_len(current.as_str()),
                    width: current_width,
                    slot_count: current_slots.len(),
                },
            );
            proof {
                lemma_byte_at_ends(current@);
            }
        }
        let ghost st = note_word_start(st0, c);
        assert(boundary_matches(word_boundary, st.boundary, st.text, st.slots.len() as int));
        let effective_width: usize = match slot_at_grapheme {
            Some(s) => emojis[s].display_width as usize,
            None => grapheme_width,
        };
        assert(effective_width == c.needed_width());
        let mut dropped = false;
        if current_width > 0 && effective_width > 0 && current_width.saturating_add(effective_width)
            > width {
            assert(overflows(st, c, width));
            if grapheme_is_separator {
                let finished = wrapped_line(current, current_start, current_end, highlights, current_slots);
                proof {
                    lemma_views_push(lines@, finished);
                    assert(wrapped_views(lines@).push(finished@) =~= wrapped_views(old(lines)@)
                        + st.lines.push(finished@));
                }
                lines.push(finished);
                current = String::new();
                current_slots = Vec::new();
                current_width = 0;
                current_start = grapheme_end;
                current_end = grapheme_end;
                word_boundary = None;
                previous_was_whitespace = true;
                dropped = true;
                assert(image_slots(current_slots@) =~= Seq::<ImageSlotView>::empty());
            } else {
                let mut boundary: Option<WrapBoundary> = None;
                if let Some(b) = word_boundary {
                    proof {
                        lemma_byte_at_monotonic(current@, st.boundary->0.chars, current@.len() as int);
                        lemma_byte_at_ends(current@);
                    }
                    if b.byte_start < byte_len(current.as_str()) {
                        boundary = Some(b);
                    }
                }
                word_boundary = None;
                if let Some(b) = boundary {
                    let ghost chars = st.boundary->0.chars;
                    let (text, next) = split_at_char(current.as_str(), b.byte_start, Ghost(chars));
                    let ghost whole = current_slots@;
                    let next_slots = current_slots.split_off(b.slot_count);
                    proof {
                        assert(image_slots(next_slots@) =~= st.slots.skip(b.slot_count as int));
                        assert(image_slots(current_slots@) =~= st.slots.take(b.slot_count as int));
                    }
                    let next_slots = shifted(next_slots, b.byte_start, b.width);
                    let finished = wrapped_line(text, current_start, b.source_start, highlights, current_slots);
                    proof {
                        lemma_views_push(lines@, finished);
                        assert(wrapped_views(lines@).push(finished@) =~= wrapped_views(old(lines)@)
                            + st.lines.push(finished@));
                    }
                    lines.push(finished);
                    current = next;
                    current_slots = next_slots;
                    current_width = current_width.saturating_sub(b.width);
                    current_start = b.source_start;
                } else {
                    let finished = wrapped_line(current, current_start, current_end, highlights, current_slots);
                    proof {
                        lemma_views_push(lines@, finished);
                        assert(wrapped_views(lines@).push(finished@) =~= wrapped_views(old(lines)@)
                            + st.lines.push(finished@));
                    }
                    lines.push(finished);
                    current = String::new();
                    current_slots = Vec::new();
                    current_width = 0;
                    current_start = grapheme_start;
                    assert(image_slots(current_slots@) =~= Seq::<ImageSlotView>::empty());
                }
                let ghost moved = move_word(st, c, highlights@);
                assert(current@ == moved.text);
                assert(image_slots(current_slots@) == moved.slots);
                if slot_at_grapheme.is_some() && current_width > 0 && effective_width > 0
                    && current_width.saturating_add(effective_width) > width {
                    let finished = wrapped_line(current, current_start, current_end, highlights, current_slots);
                    proof {
                        lemma_views_push(lines@, finished);
                        assert(wrapped_views(lines@).push(finished@) =~= wrapped_views(old(lines)@)
                            + moved.lines.push(finished@));
                    }
                    lines.push(finished);
                    current = String::new();
                    current_slots = Vec::new();
                    current_width = 0;
                    current_start = grapheme_start;
                    assert(image_slots(current_slots@) =~= Seq::<ImageSlotView>::empty());
                }
            }
        }
        if !dropped {
            let ghost filled = if overflows(st, c, width) { break_before(st, c, highlights@, width) } else { st };
            assert(current@ == filled.text);
            assert(image_slots(current_slots@) == filled.slots);
            assert(boundary_matches(word_boundary, filled.boundary, filled.text, filled.slots.len() as int));
            if let Some(s) = slot_at_grapheme {
                let slot = &emojis[s];
                let ghost slots_before = current_slots@;
                let placed = MessageContentImageSlot {
                    col: column(current_width),
                    byte_start: byte_len(current.as_str()),
                    byte_len: slot.byte_len,
                    display_width: slot.display_width,
                    image_size: EmojiImageSize::Compact,
                    url: slot.url.clone(),
                };
                current_slots.push(placed);
                assert(image_slots(current_slots@) =~= image_slots(slots_before).push(placed@));
            }
            current.append(grapheme.as_str());
            current_width = current_width.saturating_add(grapheme_width);
            current_end = grapheme_end;
            previous_was_whitespace = grapheme_is_separator;
            proof {
                if filled.boundary is Some {
                    let chars = filled.boundary->0.chars;
                    assert((filled.text + c.text).take(chars) =~= filled.text.take(chars));
                }
            }
        }
        relative_start = relative_start.saturating_add(grapheme_len);
        i += 1;
    }
    proof {
        assert(gs.take(i as int) =~= gs);
    }
    let ghost st = wrap_clusters(gs, line_start, highlights@, slots_view, width, i as nat);
    let finished = wrapped_line(current, current_start, current_end, highlights, current_slots);
    proof {
        lemma_views_push(lines@, finished);
        assert(wrapped_views(lines@).push(finished@) =~= wrapped_views(old(lines)@) + st.lines.push(
            finished@,
        ));
    }
    lines.push(finished);
}

/// The character at which source line `k` starts.
pub open spec fn source_line_char(source: Seq<Seq<char>>, k: int) -> int
    decreases k,
{
    if k <= 0 {
        0
    } else {
        source_line_char(source, k - 1) + source[k - 1].len() + 1
    }
}

proof fn lemma_source_line_shift(first: Seq<char>, rest: Seq<Seq<char>>, k: int)
    requires
        1 <= k <= rest.len(),
    ensures
        source_line_char(seq![first] + rest, k) == first.len() + 1 + source_line_char(rest, k - 1),
        source_line_start(seq![first] + rest, k) == utf8_len(first) + 1 + source_line_start(rest, k - 1),
    decreases k,
{
    let all = seq![first] + rest;
    if k > 1 {
        lemma_source_line_shift(first, rest, k - 1);
        assert(all[k - 1] == rest[k - 2]);
    } else {
        reveal_with_fuel(source_line_char, 2);
        reveal_with_fuel(source_line_start, 2);
        assert(all[0] == first);
    }
}

pub(crate) proof fn lemma_split_offsets(value: Seq<char>, k: int)
    requires
        0 <= k < split_on(value, '\n').len(),
    ensures
        ({
            let source = split_on(value, '\n');
            let at = source_line_char(source, k);
            &&& 0 <= at
            &&& at + source[k].len() <= value.len()
            &&& value.subrange(at, at + source[k].len()) == source[k]
            &&& byte_at(value, at) == source_line_start(source, k)
            &&& source_line_start(source, k) + utf8_len(source[k]) <= utf8_len(value)
        }),
    decreases value.len(),
{
    let i = first_index(value, '\n');
    lemma_first_index(value, '\n');
    let source = split_on(value, '\n');
    lemma_byte_at_ends(value);
    if i >= value.len() {
        assert(k == 0);
        assert(value.subrange(0, value.len() as int) =~= value);
    } else {
        let rest_text = value.skip(i + 1);
        let rest = split_on(rest_text, '\n');
        assert(value =~= value.take(i) + seq!['\n'] + rest_text);
        lemma_utf8_len_concat(value.take(i) + seq!['\n'], rest_text);
        lemma_utf8_len_concat(value.take(i), seq!['\n']);
        lemma_utf8_len_one('\n');
        if k == 0 {
            assert(source[0] == value.take(i));
            assert(value.subrange(0, i) =~= value.take(i));
        } else {
            lemma_split_offsets(rest_text, k - 1);
            lemma_source_line_shift(value.take(i), rest, k);
            assert(source[k] == rest[k - 1]);
            let at = source_line_char(rest, k - 1);
            assert(value.subrange(i + 1 + at, i + 1 + at + rest[k - 1].len()) =~= rest_text.subrange(
                at,
                at + rest[k - 1].len(),
            ));
            assert(value.take(i + 1 + at) =~= value.take(i) + seq!['\n'] + rest_text.take(at));
            lemma_utf8_len_concat(value.take(i) + seq!['\n'], rest_text.take(at));
        }
    }
}

/// Every line is a slice of the text, from byte `source_start` to byte `source_end`.
pub open spec fn lines_slice_text(lines: Seq<WrappedView>, value: Seq<char>) -> bool {
    forall|i: int| 0 <= i < lines.len() ==> slices_text(#[trigger] lines[i], value)
}

pub open spec fn slices_text(line: WrappedView, value: Seq<char>) -> bool {
    exists|cut: (int, int)| line_is_slice(line, cut, value, 0)
}

pub(crate) proof fn lemma_slice_of_slice(line: WrappedView, cut: (int, int), piece: Seq<char>, at: int, value: Seq<char>)
    requires
        0 <= at,
        at + piece.len() <= value.len(),
        value.subrange(at, at + piece.len()) == piece,
        line_is_slice(line, cut, piece, byte_at(value, at) as int),
    ensures
        line_is_slice(line, (at + cut.0, at + cut.1), value, 0),
{
    assert(value.subrange(at + cut.0, at + cut.1) =~= piece.subrange(cut.0, cut.1));
    assert(value.take(at + cut.0) =~= value.take(at) + piece.take(cut.0));
    assert(value.take(at + cut.1) =~= value.take(at) + piece.take(cut.1));
    lemma_utf8_len_concat(value.take(at), piece.take(cut.0));
    lemma_utf8_len_concat(value.take(at), piece.take(cut.1));
}

proof fn lemma_slices_extend(
    before: Seq<WrappedView>,
    piece: Seq<char>,
    at: int,
    value: Seq<char>,
    base: usize,
    highlights: Seq<TextHighlight>,
    slots: Seq<EmojiSlotView>,
    width: usize,
)
    requires
        lines_slice_text(before, value),
        0 <= at,
        at + piece.len() <= value.len(),
        value.subrange(at, at + piece.len()) == piece,
        base == byte_at(value, at),
        base + utf8_len(piece) <= usize::MAX,
        piece.len() > 0 ==> concat(graphemes(piece)) == piece,
    ensures
        lines_slice_text(before + wrap_line(piece, base, highlights, slots, width), value),
{
    let added = wrap_line(piece, base, highlights, slots, width);
    let after = before + added;
    let cuts = if piece.len() == 0 {
        seq![(0int, 0int)]
    } else {
        wrapping_drops_only_white_space(piece, base, highlights, slots, width)
    };
    lemma_byte_at_ends(piece);
    assert(piece.len() == 0 ==> piece.subrange(0, 0) =~= added[0].text);
    assert(lines_are_slices(added, cuts, piece, base as int));
    assert forall|i: int| 0 <= i < after.len() implies slices_text(#[trigger] after[i], value) by {
        if i < before.len() {
            assert(after[i] == before[i]);
        } else {
            let j = i - before.len();
            assert(after[i] == added[j]);
            lemma_slice_of_slice(added[j], cuts[j], piece, at, value);
            assert(line_is_slice(after[i], (at + cuts[j].0, at + cuts[j].1), value, 0));
        }
    }
}

/// Wraps a text to `width` columns. A line breaks before its last word where it can, and between
/// grapheme clusters where it must; an emoji place is never broken. White space that does not fit at
/// a break is dropped.
pub fn wrap_text_with_metadata(
    value: &str,
    highlights: &[TextHighlight],
    emojis: &[InlineEmojiSlot],
    width: usize,
) -> (r: Vec<WrappedTextLine>)
    ensures
        wrapped_views(r@) == wrapped_with_metadata(value@, highlights@, emoji_slots(emojis@), width),
        lines_slice_text(wrapped_views(r@), value@),
{
    let mut lines: Vec<WrappedTextLine> = Vec::new();
    if value.is_empty() {
        assert(wrapped_views(lines@) =~= Seq::<WrappedView>::empty());
        return lines;
    }
    let total: usize = byte_len(value);
    let width: usize = if width == 0 { 1 } else { width };
    let source = split_str(value, '\n');
    let ghost pieces = split_on(value@, '\n');
    let ghost slots_view = emoji_slots(emojis@);
    let mut line_start: usize = 0;
    let mut k: usize = 0;
    proof {
        assert(wrapped_views(lines@) =~= Seq::<WrappedView>::empty());
    }
    while k < source.len()
        invariant
            k <= source@.len(),
            texts(source@) == pieces,
            pieces == split_on(value@, '\n'),
            total == utf8_len(value@),
            slots_view == emoji_slots(emojis@),
            k < source@.len() ==> line_start == source_line_start(pieces, k as int),
            wrapped_views(lines@) == wrap_source_lines(pieces, highlights@, slots_view, width, k as int),
            lines_slice_text(wrapped_views(lines@), value@),
        decreases source@.len() - k,
    {
        let line: &String = &source[k];
        let ghost before = wrapped_views(lines@);
        let ghost piece = pieces[k as int];
        let ghost at = source_line_char(pieces, k as int);
        proof {
            assert(pieces[k as int] == source@[k as int]@);
            lemma_split_offsets(value@, k as int);
        }
        if line.as_str().is_empty() {
            let finished = wrapped_line(String::new(), line_start, line_start, highlights, Vec::new());
            proof {
                lemma_views_push(lines@, finished);
                assert(line@ =~= Seq::<char>::empty());
                assert(finished@.image_slots =~= Seq::<ImageSlotView>::empty());
                assert(before.push(finished@) =~= before + wrap_line(line@, line_start, highlights@, slots_view, width));
            }
            lines.push(finished);
            line_start = line_start.saturating_add(1);
        } else {
            let len: usize = byte_len(line.as_str());
            wrap_one_line(line.as_str(), line_start, highlights, emojis, width, &mut lines);
            line_start = line_start.saturating_add(len).saturating_add(1);
        }
        proof {
            let base = source_line_start(pieces, k as int) as usize;
            lemma_slices_extend(before, piece, at, value@, base, highlights@, slots_view, width);
            if k + 1 < pieces.len() {
                lemma_split_offsets(value@, k + 1);
            }
        }
        k += 1;
    }
    lines
}

/// As [`wrap_text_with_metadata`], without the places of the lines in the source.
pub fn wrap_text_with_extras(
    value: &str,
    highlights: &[TextHighlight],
    emojis: &[InlineEmojiSlot],
    width: usize,
) -> (r: Vec<(String, Vec<TextHighlight>, Vec<MessageContentImageSlot>)>)
    ensures
        r@.len() == wrapped_with_metadata(value@, highlights@, emoji_slots(emojis@), width).len(),
        forall|i: int|
            0 <= i < r@.len() ==> {
                let line = wrapped_with_metadata(value@, highlights@, emoji_slots(emojis@), width)[i];
                &&& (#[trigger] r@[i]).0@ == line.text
                &&& r@[i].1@ == line.mention_highlights
                &&& image_slots(r@[i].2@) == line.image_slots
            },
{
    let ghost expected = wrapped_with_metadata(value@, highlights@, emoji_slots(emojis@), width);
    let lines = wrap_text_with_metadata(value, highlights, emojis, width);
    let mut out: Vec<(String, Vec<TextHighlight>, Vec<MessageContentImageSlot>)> = Vec::new();
    let ghost all = lines@;
    for line in it: lines
        invariant
            wrapped_views(all) == expected,
            it.seq() == all,
            out@.len() == it.index(),
            forall|i: int|
                0 <= i < out@.len() ==> {
                    &&& (#[trigger] out@[i]).0@ == expected[i].text
                    &&& out@[i].1@ == expected[i].mention_highlights
                    &&& image_slots(out@[i].2@) == expected[i].image_slots
                },
    {
        assert(expected[it.index()] == line@);
        out.push((line.text, line.mention_highlights, line.image_slots));
    }
    out
}

} // verus!
