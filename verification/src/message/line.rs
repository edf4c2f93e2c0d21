//! One line of a formatted message: its text, its style, and the ranges that are styled otherwise.

use crate::message::rendered::{image_slots, ImageSlotView, MessageContentImageSlot, TextHighlight, TextHighlightKind};
use crate::message::wrap::sat_add;
use crate::style::{Style, Theme};
use crate::text::{byte_len, byte_slice, lemma_boundary_ends, lemma_boundary_order, on_boundary, slice_bytes, utf8_len};
use vstd::prelude::*;
use vstd::string::*;

verus! {

/// A range of bytes with a style of its own, which replaces the style of the line or, with
/// `patch_base`, is laid over it.
#[derive(Clone, Copy, Debug, PartialEq, Eq)]
pub struct StyledPrefix {
    pub start: usize,
    pub len: usize,
    pub style: Style,
    pub patch_base: bool,
}

impl StyledPrefix {
    pub open spec fn covers(self, start: usize, end: usize) -> bool {
        self.start <= start && end <= sat_add(self.start, self.len)
    }

    pub fn contains(&self, start: usize, end: usize) -> (r: bool)
        ensures
            r == self.covers(start, end),
    {
        self.start <= start && end <= self.start.saturating_add(self.len)
    }
}

/// The place of an image beside the lines of a section.
#[derive(Clone, Copy, Debug, PartialEq, Eq)]
pub struct MessageContentPreviewSlot {
    pub section_thumbnail_index: usize,
    pub col: u16,
    pub width: u16,
    pub height: u16,
}

/// A line of a formatted message. All offsets are bytes of `text`.
#[derive(Debug, PartialEq, Eq)]
pub struct MessageContentLine {
    pub text: String,
    pub style: Style,
    pub mention_highlights: Vec<TextHighlight>,
    pub styled_prefixes: Vec<StyledPrefix>,
    pub image_slots: Vec<MessageContentImageSlot>,
    pub preview_slots: Vec<MessageContentPreviewSlot>,
}

/// The value of a [`MessageContentLine`].
pub struct LineView {
    pub text: Seq<char>,
    pub style: Style,
    pub mention_highlights: Seq<TextHighlight>,
    pub styled_prefixes: Seq<StyledPrefix>,
    pub image_slots: Seq<ImageSlotView>,
    pub preview_slots: Seq<MessageContentPreviewSlot>,
}

impl View for MessageContentLine {
    type V = LineView;

    open spec fn view(&self) -> LineView {
        LineView {
            text: self.text@,
            style: self.style,
            mention_highlights: self.mention_highlights@,
            styled_prefixes: self.styled_prefixes@,
            image_slots: image_slots(self.image_slots@),
            preview_slots: self.preview_slots@,
        }
    }
}

/// The values of a list of lines.
pub open spec fn line_views(v: Seq<MessageContentLine>) -> Seq<LineView> {
    v.map_values(|l: MessageContentLine| l@)
}

pub proof fn lemma_line_views_push(v: Seq<MessageContentLine>, l: MessageContentLine)
    ensures
        line_views(v.push(l)) == line_views(v).push(l@),
{
    assert(line_views(v.push(l)) =~= line_views(v).push(l@));
}

pub proof fn lemma_line_views_add(a: Seq<MessageContentLine>, b: Seq<MessageContentLine>)
    ensures
        line_views(a + b) == line_views(a) + line_views(b),
{
    assert(line_views(a + b) =~= line_views(a) + line_views(b));
}

/// A line in one style, with highlights.
pub open spec fn styled_line(text: Seq<char>, style: Style, highlights: Seq<TextHighlight>) -> LineView {
    LineView {
        text,
        style,
        mention_highlights: highlights,
        styled_prefixes: seq![],
        image_slots: seq![],
        preview_slots: seq![],
    }
}

/// A stretch of text in one style.
#[derive(Debug, PartialEq, Eq)]
pub struct StyledSpan {
    pub content: String,
    pub style: Style,
}

pub struct SpanView {
    pub content: Seq<char>,
    pub style: Style,
}

impl View for StyledSpan {
    type V = SpanView;

    open spec fn view(&self) -> SpanView {
        SpanView { content: self.content@, style: self.style }
    }
}

pub open spec fn span_views(v: Seq<StyledSpan>) -> Seq<SpanView> {
    v.map_values(|s: StyledSpan| s@)
}

/// The style that a highlight lays over the text.
pub open spec fn highlight_style(kind: TextHighlightKind, theme: Theme) -> Style {
    match kind {
        TextHighlightKind::SelfMention => theme.mention_self,
        TextHighlightKind::OtherMention => theme.mention_other,
        TextHighlightKind::RoleMention { foreground, background, notifies_current_user } => {
            let base = if notifies_current_user {
                theme.mention_self
            } else {
                theme.mention_role
            };
            let tinted = if !notifies_current_user && base.bg is None && !theme.mention_role_background_cleared {
                base.with_bg(background)
            } else {
                base
            };
            match foreground {
                Some(color) => tinted.with_fg(color),
                None => tinted,
            }
        },
        TextHighlightKind::Url => theme.message_link,
    }
}

pub fn mention_highlight_style(kind: TextHighlightKind, theme: &Theme) -> (s: Style)
    ensures
        s == highlight_style(kind, *theme),
{
    match kind {
        TextHighlightKind::SelfMention => theme.mention_self,
        TextHighlightKind::OtherMention => theme.mention_other,
        TextHighlightKind::RoleMention { foreground, background, notifies_current_user } => {
            let mut style = if notifies_current_user {
                theme.mention_self
            } else {
                theme.mention_role
            };
            if !notifies_current_user && style.bg.is_none() && !theme.mention_role_background_cleared {
                style = style.bg(background);
            }
            match foreground {
                Some(color) => style.fg(color),
                None => style,
            }
        },
        TextHighlightKind::Url => theme.message_link,
    }
}

// ---- Spans ----

pub open spec fn min_len(a: usize, b: usize) -> usize {
    if a < b {
        a
    } else {
        b
    }
}

/// `x` put into its place among increasing numbers, unless it is there.
pub open spec fn insert_cut(cuts: Seq<usize>, x: usize) -> Seq<usize>
    decreases cuts.len(),
{
    if cuts.len() == 0 {
        seq![x]
    } else if x > cuts.last() {
        cuts.push(x)
    } else if x == cuts.last() {
        cuts
    } else {
        insert_cut(cuts.drop_last(), x).push(cuts.last())
    }
}

/// The ends of a range, cut off at `len`, put in their places; an empty range adds nothing.
pub open spec fn insert_range(cuts: Seq<usize>, start: usize, end: usize, len: usize) -> Seq<usize> {
    let from = min_len(start, len);
    let to = min_len(end, len);
    if from < to {
        insert_cut(insert_cut(cuts, from), to)
    } else {
        cuts
    }
}

pub open spec fn highlight_cuts(hs: Seq<TextHighlight>, len: usize) -> Seq<usize>
    decreases hs.len(),
{
    if hs.len() == 0 {
        insert_cut(insert_cut(seq![], 0), len)
    } else {
        insert_range(highlight_cuts(hs.drop_last(), len), hs.last().start, hs.last().end, len)
    }
}

pub open spec fn prefix_cuts(cuts: Seq<usize>, ps: Seq<StyledPrefix>, len: usize) -> Seq<usize>
    decreases ps.len(),
{
    if ps.len() == 0 {
        cuts
    } else {
        insert_range(
            prefix_cuts(cuts, ps.drop_last(), len),
            ps.last().start,
            sat_add(ps.last().start, ps.last().len),
            len,
        )
    }
}

/// The places where the style of a line may change: both ends of the line, of each highlight and of
/// each styled range, in order.
pub open spec fn line_cuts(line: LineView) -> Seq<usize> {
    let len = utf8_len(line.text) as usize;
    prefix_cuts(highlight_cuts(line.mention_highlights, len), line.styled_prefixes, len)
}

/// The style that the styled ranges give to `start..end`: a later range goes over an earlier one.
pub open spec fn prefix_style(ps: Seq<StyledPrefix>, base: Style, start: usize, end: usize) -> Style
    decreases ps.len(),
{
    if ps.len() == 0 {
        base
    } else {
        let before = prefix_style(ps.drop_last(), base, start, end);
        let last = ps.last();
        if !last.covers(start, end) {
            before
        } else if last.patch_base {
            before.patched(last.style)
        } else {
            last.style
        }
    }
}

/// The first highlight that covers `start..end`.
pub open spec fn covering_highlight(hs: Seq<TextHighlight>, start: usize, end: usize) -> Option<TextHighlight>
    decreases hs.len(),
{
    if hs.len() == 0 {
        None
    } else if hs[0].start <= start && end <= hs[0].end {
        Some(hs[0])
    } else {
        covering_highlight(hs.drop_first(), start, end)
    }
}

/// The style of the bytes `start..end` of a line.
pub open spec fn range_style(line: LineView, start: usize, end: usize, theme: Theme) -> Style {
    let style = prefix_style(line.styled_prefixes, line.style, start, end);
    match covering_highlight(line.mention_highlights, start, end) {
        Some(h) => style.patched(highlight_style(h.kind, theme)),
        None => style,
    }
}

pub open spec fn span_at(line: LineView, cuts: Seq<usize>, k: int, theme: Theme) -> SpanView {
    SpanView {
        content: byte_slice(line.text, cuts[k] as int, cuts[k + 1] as int),
        style: range_style(line, cuts[k], cuts[k + 1], theme),
    }
}

/// The spans of a line: one from each cut to the next.
pub open spec fn line_spans(line: LineView, theme: Theme) -> Seq<SpanView> {
    let cuts = line_cuts(line);
    Seq::new((cuts.len() - 1) as nat, |k: int| span_at(line, cuts, k, theme))
}

/// Whether a range of a line, cut off at its end, begins and ends with a character.
pub open spec fn range_fits(text: Seq<char>, start: usize, end: usize) -> bool {
    let len = utf8_len(text) as usize;
    min_len(start, len) < min_len(end, len) ==> on_boundary(text, min_len(start, len) as int) && on_boundary(
        text,
        min_len(end, len) as int,
    )
}

/// No highlight and no styled range of the line splits a character.
pub open spec fn ranges_fit(line: LineView) -> bool {
    &&& forall|i: int|
        0 <= i < line.mention_highlights.len() ==> {
            let h = #[trigger] line.mention_highlights[i];
            range_fits(line.text, h.start, h.end)
        }
    &&& forall|i: int|
        0 <= i < line.styled_prefixes.len() ==> {
            let p = #[trigger] line.styled_prefixes[i];
            range_fits(line.text, p.start, sat_add(p.start, p.len))
        }
}

/// Strictly increasing.
pub open spec fn increasing(cuts: Seq<usize>) -> bool {
    forall|i: int, j: int| 0 <= i < j < cuts.len() ==> cuts[i] < cuts[j]
}

pub(crate) proof fn lemma_insert_cut(cuts: Seq<usize>, x: usize)
    requires
        increasing(cuts),
    ensures
        increasing(insert_cut(cuts, x)),
        forall|y: usize| #[trigger] insert_cut(cuts, x).contains(y) <==> cuts.contains(y) || y == x,
        insert_cut(cuts, x).len() > 0,
        insert_cut(cuts, x).last() == (if cuts.len() > 0 && cuts.last() > x {
            cuts.last()
        } else {
            x
        }),
    decreases cuts.len(),
{
    let r = insert_cut(cuts, x);
    if cuts.len() == 0 {
        assert(r[0] == x);
        assert forall|y: usize| #[trigger] r.contains(y) implies y == x by {
            let i = choose|i: int| 0 <= i < r.len() && r[i] == y;
            assert(i == 0);
        }
    } else if x > cuts.last() {
        assert(r.last() == x);
        assert forall|y: usize| #[trigger] r.contains(y) <==> cuts.contains(y) || y == x by {
            if r.contains(y) {
                let i = choose|i: int| 0 <= i < r.len() && r[i] == y;
                if i < cuts.len() {
                    assert(cuts[i] == y);
                }
            }
            if cuts.contains(y) {
                let i = choose|i: int| 0 <= i < cuts.len() && cuts[i] == y;
                assert(r[i] == y);
            }
            assert(r[cuts.len() as int] == x);
        }
    } else if x == cuts.last() {
        assert(cuts[cuts.len() - 1] == x);
    } else {
        let inner = insert_cut(cuts.drop_last(), x);
        lemma_insert_cut(cuts.drop_last(), x);
        let last = cuts.last();
        assert(cuts.len() > 1 ==> cuts.drop_last().last() == cuts[cuts.len() - 2]);
        assert(cuts.len() > 1 ==> cuts[cuts.len() - 2] < last);
        assert(inner.last() < last);
        assert forall|i: int, j: int| 0 <= i < j < r.len() implies r[i] < r[j] by {
            if j == inner.len() {
                assert(r[i] == inner[i]);
                assert(inner[i] <= inner.last());
            }
        }
        assert forall|y: usize| #[trigger] r.contains(y) <==> cuts.contains(y) || y == x by {
            if r.contains(y) {
                let i = choose|i: int| 0 <= i < r.len() && r[i] == y;
                if i < inner.len() {
                    assert(inner.contains(y));
                    if cuts.drop_last().contains(y) {
                        let m = choose|m: int| 0 <= m < cuts.drop_last().len() && cuts.drop_last()[m] == y;
                        assert(cuts[m] == y);
                    }
                } else {
                    assert(cuts[cuts.len() - 1] == y);
                }
            }
            if cuts.contains(y) || y == x {
                if y == last {
                    assert(r[inner.len() as int] == y);
                } else {
                    if cuts.contains(y) {
                        let m = choose|m: int| 0 <= m < cuts.len() && cuts[m] == y;
                        assert(cuts.drop_last()[m] == y);
                    }
                    assert(inner.contains(y));
                    let i = choose|i: int| 0 <= i < inner.len() && inner[i] == y;
                    assert(r[i] == y);
                }
            }
        }
    }
}

/// What holds of every list of cuts of a text.
spec fn good_cuts(cuts: Seq<usize>, text: Seq<char>) -> bool {
    let len = utf8_len(text) as usize;
    &&& increasing(cuts)
    &&& cuts.contains(0)
    &&& cuts.len() > 0
    &&& cuts.last() == len
    &&& forall|y: usize| #[trigger] cuts.contains(y) ==> y <= len && on_boundary(text, y as int)
}

proof fn lemma_insert_range(cuts: Seq<usize>, text: Seq<char>, start: usize, end: usize)
    requires
        good_cuts(cuts, text),
        utf8_len(text) <= usize::MAX,
        range_fits(text, start, end),
    ensures
        good_cuts(insert_range(cuts, start, end, utf8_len(text) as usize), text),
{
    let len = utf8_len(text) as usize;
    let from = min_len(start, len);
    let to = min_len(end, len);
    if from < to {
        lemma_insert_cut(cuts, from);
        lemma_insert_cut(insert_cut(cuts, from), to);
    }
}

proof fn lemma_highlight_cuts(hs: Seq<TextHighlight>, text: Seq<char>)
    requires
        utf8_len(text) <= usize::MAX,
        forall|i: int|
            0 <= i < hs.len() ==> {
                let h = #[trigger] hs[i];
                range_fits(text, h.start, h.end)
            },
    ensures
        good_cuts(highlight_cuts(hs, utf8_len(text) as usize), text),
    decreases hs.len(),
{
    let len = utf8_len(text) as usize;
    if hs.len() == 0 {
        lemma_boundary_ends(text);
        lemma_insert_cut(seq![], 0);
        lemma_insert_cut(insert_cut(seq![], 0), len);
        assert(insert_cut(seq![], 0).contains(0));
        assert(!Seq::<usize>::empty().contains(5));
        assert forall|y: usize| #[trigger] highlight_cuts(hs, len).contains(y) implies y <= len && on_boundary(
            text,
            y as int,
        ) by {
            assert(insert_cut(seq![], 0).contains(y) || y == len);
        }
        assert(insert_cut(insert_cut(seq![], 0), len).contains(0));
    } else {
        assert forall|i: int| 0 <= i < hs.drop_last().len() implies {
            let h = #[trigger] hs.drop_last()[i];
            range_fits(text, h.start, h.end)
        } by {
            assert(hs.drop_last()[i] == hs[i]);
        }
        lemma_highlight_cuts(hs.drop_last(), text);
        assert(hs[hs.len() - 1] == hs.last());
        lemma_insert_range(highlight_cuts(hs.drop_last(), len), text, hs.last().start, hs.last().end);
    }
}

proof fn lemma_prefix_cuts(cuts: Seq<usize>, ps: Seq<StyledPrefix>, text: Seq<char>)
    requires
        utf8_len(text) <= usize::MAX,
        good_cuts(cuts, text),
        forall|i: int|
            0 <= i < ps.len() ==> {
                let p = #[trigger] ps[i];
                range_fits(text, p.start, sat_add(p.start, p.len))
            },
    ensures
        good_cuts(prefix_cuts(cuts, ps, utf8_len(text) as usize), text),
    decreases ps.len(),
{
    let len = utf8_len(text) as usize;
    if ps.len() > 0 {
        assert forall|i: int| 0 <= i < ps.drop_last().len() implies {
            let p = #[trigger] ps.drop_last()[i];
            range_fits(text, p.start, sat_add(p.start, p.len))
        } by {
            assert(ps.drop_last()[i] == ps[i]);
        }
        lemma_prefix_cuts(cuts, ps.drop_last(), text);
        assert(ps[ps.len() - 1] == ps.last());
        let p = ps.last();
        lemma_insert_range(prefix_cuts(cuts, ps.drop_last(), len), text, p.start, sat_add(p.start, p.len));
    }
}

/// The cuts of a line increase from its start to its end, and none of them splits a character.
pub proof fn cuts_run_through_the_line(line: LineView)
    requires
        ranges_fit(line),
        utf8_len(line.text) <= usize::MAX,
    ensures
        increasing(line_cuts(line)),
        line_cuts(line).len() > 0,
        line_cuts(line)[0] == 0,
        line_cuts(line).last() == utf8_len(line.text),
        forall|k: int| 0 <= k < line_cuts(line).len() ==> on_boundary(line.text, #[trigger] line_cuts(line)[k] as int),
{
    let len = utf8_len(line.text) as usize;
    lemma_highlight_cuts(line.mention_highlights, line.text);
    lemma_prefix_cuts(highlight_cuts(line.mention_highlights, len), line.styled_prefixes, line.text);
    let cuts = line_cuts(line);
    let z = choose|i: int| 0 <= i < cuts.len() && cuts[i] == 0;
    if z > 0 {
        assert(cuts[0] < cuts[z]);
    }
    assert forall|k: int| 0 <= k < cuts.len() implies on_boundary(line.text, #[trigger] cuts[k] as int) by {
        assert(cuts.contains(cuts[k]));
    }
}

/// The texts of the spans of a line, one after the other.
pub open spec fn span_text(spans: Seq<SpanView>) -> Seq<char>
    decreases spans.len(),
{
    if spans.len() == 0 {
        seq![]
    } else {
        span_text(spans.drop_last()) + spans.last().content
    }
}

proof fn lemma_span_text(line: LineView, theme: Theme, k: int)
    requires
        ranges_fit(line),
        utf8_len(line.text) <= usize::MAX,
        0 <= k < line_cuts(line).len(),
    ensures
        span_text(line_spans(line, theme).take(k)) == byte_slice(line.text, 0, line_cuts(line)[k] as int),
    decreases k,
{
    cuts_run_through_the_line(line);
    let cuts = line_cuts(line);
    let spans = line_spans(line, theme);
    lemma_boundary_ends(line.text);
    if k == 0 {
        assert(spans.take(0) =~= Seq::<SpanView>::empty());
        assert(byte_slice(line.text, 0, 0) =~= Seq::<char>::empty());
    } else {
        lemma_span_text(line, theme, k - 1);
        assert(spans.take(k).drop_last() =~= spans.take(k - 1));
        assert(spans.take(k).last() == span_at(line, cuts, k - 1, theme));
        lemma_boundary_order(line.text, 0, cuts[k - 1] as int);
        lemma_boundary_order(line.text, cuts[k - 1] as int, cuts[k] as int);
        assert(byte_slice(line.text, 0, cuts[k] as int) =~= byte_slice(line.text, 0, cuts[k - 1] as int)
            + byte_slice(line.text, cuts[k - 1] as int, cuts[k] as int));
    }
}

/// The spans of a line hold its whole text, in order, and none of them is empty.
pub proof fn spans_tile_the_line(line: LineView, theme: Theme)
    requires
        ranges_fit(line),
        utf8_len(line.text) <= usize::MAX,
    ensures
        span_text(line_spans(line, theme)) == line.text,
        forall|k: int| 0 <= k < line_spans(line, theme).len() ==> (#[trigger] line_spans(line, theme)[k]).content.len() > 0,
{
    cuts_run_through_the_line(line);
    let cuts = line_cuts(line);
    let spans = line_spans(line, theme);
    lemma_span_text(line, theme, cuts.len() - 1);
    assert(spans.take(cuts.len() - 1) =~= spans);
    lemma_boundary_ends(line.text);
    assert(byte_slice(line.text, 0, utf8_len(line.text) as int) =~= line.text);
    assert forall|k: int| 0 <= k < spans.len() implies (#[trigger] spans[k]).content.len() > 0 by {
        lemma_boundary_order(line.text, cuts[k] as int, cuts[k + 1] as int);
        crate::text::lemma_utf8_len_bounds(spans[k].content);
    }
}

fn insert_boundary(cuts: &mut Vec<usize>, x: usize)
    requires
        increasing(old(cuts)@),
    ensures
        final(cuts)@ == insert_cut(old(cuts)@, x),
        increasing(final(cuts)@),
{
    let ghost c = cuts@;
    let mut p: usize = cuts.len();
    proof {
        lemma_insert_cut(c, x);
        assert(c.take(p as int) =~= c);
        assert(insert_cut(c, x) + c.skip(p as int) =~= insert_cut(c, x));
    }
    while p > 0 && cuts[p - 1] > x
        invariant
            cuts@ == c,
            p <= c.len(),
            insert_cut(c, x) == insert_cut(c.take(p as int), x) + c.skip(p as int),
        decreases p,
    {
        proof {
            assert(c.take(p as int).drop_last() =~= c.take(p - 1));
            assert(seq![c[p - 1]] + c.skip(p as int) =~= c.skip(p - 1));
            assert(insert_cut(c.take(p - 1), x).push(c[p - 1]) + c.skip(p as int) =~= insert_cut(c.take(p - 1), x)
                + c.skip(p - 1));
        }
        p -= 1;
    }
    if p > 0 && cuts[p - 1] == x {
        assert(c.take(p as int) + c.skip(p as int) =~= c);
    } else {
        cuts.insert(p, x);
        assert(cuts@ =~= insert_cut(c.take(p as int), x) + c.skip(p as int));
    }
}

pub fn push_range_boundaries(cuts: &mut Vec<usize>, start: usize, end: usize, text_len: usize)
    requires
        increasing(old(cuts)@),
    ensures
        final(cuts)@ == insert_range(old(cuts)@, start, end, text_len),
        increasing(final(cuts)@),
{
    let start: usize = if start < text_len { start } else { text_len };
    let end: usize = if end < text_len { end } else { text_len };
    if start < end {
        insert_boundary(cuts, start);
        insert_boundary(cuts, end);
    }
}

impl MessageContentLine {
    pub fn styled_text(text: String, style: Style, mention_highlights: Vec<TextHighlight>) -> (r: Self)
        ensures
            r@ == styled_line(text@, style, mention_highlights@),
    {
        let r = MessageContentLine {
            text,
            style,
            mention_highlights,
            styled_prefixes: Vec::new(),
            image_slots: Vec::new(),
            preview_slots: Vec::new(),
        };
        assert(r@.image_slots =~= seq![]);
        r
    }

    pub fn plain(text: String) -> (r: Self)
        ensures
            r@ == styled_line(text@, Style::none(), seq![]),
    {
        Self::styled_text(text, Style::plain(), Vec::new())
    }

    pub fn dim(text: String, theme: &Theme) -> (r: Self)
        ensures
            r@ == styled_line(text@, theme.message_secondary, seq![]),
    {
        Self::styled_text(text, theme.message_secondary, Vec::new())
    }

    pub fn accent(text: String, theme: &Theme) -> (r: Self)
        ensures
            r@ == styled_line(text@, theme.accent, seq![]),
    {
        Self::styled_text(text, theme.accent, Vec::new())
    }

    pub fn attachment(text: String, theme: &Theme) -> (r: Self)
        ensures
            r@ == styled_line(text@, theme.message_attachment, seq![]),
    {
        Self::styled_text(text, theme.message_attachment, Vec::new())
    }

    pub fn with_image_slots(self, slots: Vec<MessageContentImageSlot>) -> (r: Self)
        ensures
            r@ == (LineView { image_slots: image_slots(slots@), ..self@ }),
    {
        MessageContentLine {
            text: self.text,
            style: self.style,
            mention_highlights: self.mention_highlights,
            styled_prefixes: self.styled_prefixes,
            image_slots: slots,
            preview_slots: self.preview_slots,
        }
    }

    /// Gives `start..start + len`, as far as the text goes, a style of its own.
    pub fn styled_range(&mut self, start: usize, len: usize, style: Style)
        ensures
            final(self)@ == with_styled_range(old(self)@, start, len, style),
    {
        let end: usize = start.saturating_add(len);
        let total: usize = byte_len(self.text.as_str());
        let end: usize = if end < total { end } else { total };
        if start < end {
            self.styled_prefixes.push(StyledPrefix { start, len: end - start, style, patch_base: false });
        }
    }

    /// Appends text in a style of its own.
    pub fn append_styled_suffix(&mut self, suffix: &str, style: Style)
        ensures
            final(self)@ == with_suffix(old(self)@, suffix@, style),
    {
        let start: usize = byte_len(self.text.as_str());
        let len: usize = byte_len(suffix);
        self.text.append(suffix);
        self.styled_range(start, len, style);
    }

    fn style_for_range(&self, start: usize, end: usize, theme: &Theme) -> (r: Style)
        ensures
            r == range_style(self@, start, end, *theme),
    {
        let mut style = self.style;
        let mut i: usize = 0;
        while i < self.styled_prefixes.len()
            invariant
                i <= self.styled_prefixes@.len(),
                style == prefix_style(self.styled_prefixes@.take(i as int), self.style, start, end),
            decreases self.styled_prefixes@.len() - i,
        {
            proof {
                assert(self.styled_prefixes@.take(i + 1).drop_last() =~= self.styled_prefixes@.take(i as int));
            }
            let prefix = self.styled_prefixes[i];
            if prefix.contains(start, end) {
                if prefix.patch_base {
                    style = style.patch(prefix.style);
                } else {
                    style = prefix.style;
                }
            }
            i += 1;
        }
        assert(self.styled_prefixes@.take(i as int) =~= self.styled_prefixes@);
        let ghost hs = self.mention_highlights@;
        let mut k: usize = 0;
        assert(hs.skip(0) =~= hs);
        while k < self.mention_highlights.len()
            invariant
                hs == self.mention_highlights@,
                k <= hs.len(),
                style == prefix_style(self.styled_prefixes@, self.style, start, end),
                covering_highlight(hs, start, end) == covering_highlight(hs.skip(k as int), start, end),
            decreases hs.len() - k,
        {
            let h = self.mention_highlights[k];
            proof {
                assert(hs.skip(k as int)[0] == h);
                assert(hs.skip(k as int).drop_first() =~= hs.skip(k + 1));
            }
            if h.start <= start && end <= h.end {
                return style.patch(mention_highlight_style(h.kind, theme));
            }
            k += 1;
        }
        style
    }

    /// The line as spans of one style each.
    pub fn spans(&self, theme: &Theme) -> (r: Vec<StyledSpan>)
        requires
            ranges_fit(self@),
        ensures
            span_views(r@) == line_spans(self@, *theme),
    {
        let len: usize = byte_len(self.text.as_str());
        let mut cuts: Vec<usize> = Vec::new();
        insert_boundary(&mut cuts, 0);
        insert_boundary(&mut cuts, len);
        let ghost hs = self.mention_highlights@;
        let ghost ps = self.styled_prefixes@;
        let mut i: usize = 0;
        assert(hs.take(0) =~= Seq::<TextHighlight>::empty());
        while i < self.mention_highlights.len()
            invariant
                hs == self.mention_highlights@,
                i <= hs.len(),
                increasing(cuts@),
                cuts@ == highlight_cuts(hs.take(i as int), len),
            decreases hs.len() - i,
        {
            proof {
                assert(hs.take(i + 1).drop_last() =~= hs.take(i as int));
            }
            let h = self.mention_highlights[i];
            push_range_boundaries(&mut cuts, h.start, h.end, len);
            i += 1;
        }
        assert(hs.take(i as int) =~= hs);
        let ghost base = cuts@;
        let mut i: usize = 0;
        assert(ps.take(0) =~= Seq::<StyledPrefix>::empty());
        while i < self.styled_prefixes.len()
            invariant
                ps == self.styled_prefixes@,
                i <= ps.len(),
                increasing(cuts@),
                cuts@ == prefix_cuts(base, ps.take(i as int), len),
            decreases ps.len() - i,
        {
            proof {
                assert(ps.take(i + 1).drop_last() =~= ps.take(i as int));
            }
            let p = self.styled_prefixes[i];
            push_range_boundaries(&mut cuts, p.start, p.start.saturating_add(p.len), len);
            i += 1;
        }
        assert(ps.take(i as int) =~= ps);
        proof {
            cuts_run_through_the_line(self@);
        }
        let mut out: Vec<StyledSpan> = Vec::new();
        let mut k: usize = 0;
        while k < cuts.len() - 1
            invariant
                cuts@ == line_cuts(self@),
                cuts@.len() > 0,
                k < cuts@.len(),
                increasing(cuts@),
                forall|m: int| 0 <= m < cuts@.len() ==> on_boundary(self@.text, #[trigger] cuts@[m] as int),
                span_views(out@) == line_spans(self@, *theme).take(k as int),
            decreases cuts@.len() - k,
        {
            let start: usize = cuts[k];
            let end: usize = cuts[k + 1];
            let span = StyledSpan {
                content: slice_bytes(self.text.as_str(), start, end),
                style: self.style_for_range(start, end, theme),
            };
            proof {
                assert(span_views(out@.push(span)) =~= span_views(out@).push(span@));
                assert(line_spans(self@, *theme).take(k + 1) =~= line_spans(self@, *theme).take(k as int).push(span@));
            }
            out.push(span);
            k += 1;
        }
        assert(line_spans(self@, *theme).take(k as int) =~= line_spans(self@, *theme));
        out
    }
}

/// A line with one more styled range, as far as its text goes; an empty range is not added.
pub open spec fn with_styled_range(line: LineView, start: usize, len: usize, style: Style) -> LineView {
    let end = min_len(sat_add(start, len), utf8_len(line.text) as usize);
    if start < end {
        LineView {
            styled_prefixes: line.styled_prefixes.push(
                StyledPrefix { start, len: (end - start) as usize, style, patch_base: false },
            ),
            ..line
        }
    } else {
        line
    }
}

/// A line with text appended in a style of its own.
pub open spec fn with_suffix(line: LineView, suffix: Seq<char>, style: Style) -> LineView {
    with_styled_range(
        LineView { text: line.text + suffix, ..line },
        utf8_len(line.text) as usize,
        utf8_len(suffix) as usize,
        style,
    )
}

} // verus!
