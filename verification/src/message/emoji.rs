//! Messages made of emojis alone, which are shown as images, and the marker of edited messages.

use crate::message::line::{
    lemma_line_views_push, line_views, styled_line, with_suffix, LineView, MessageContentLine,
};
use crate::message::options::FormatOptions;
use crate::message::rendered::{
    emoji_slots, image_slots, EmojiImageSize, ImageSlotView, MessageContentImageSlot, RenderedText, RenderedView,
};
use crate::message::wrap::{column, sat_add, to_col};
use crate::style::{Style, Theme};
use crate::text::{
    byte_len, byte_slice, has_text, is_boundary, lemma_boundary_ends, lemma_boundary_order, list_contains,
    on_boundary, repeat_char, repeated, slice_bytes, str_eq, texts, utf8_len,
};
use crate::unicode::{
    all_space, display_width, fitting, graphemes, is_all_space, split_graphemes, str_width, trim_text, trimmed,
    truncate_display_width,
};
use vstd::prelude::*;
use vstd::string::*;

verus! {

/// The address of the image of an emoji.
#[derive(Debug, PartialEq, Eq)]
pub struct EmojiUrl {
    pub emoji: String,
    pub url: String,
}

/// The address that a table gives to an emoji; the first entry counts.
pub open spec fn url_of(table: Seq<EmojiUrl>, emoji: Seq<char>) -> Option<Seq<char>>
    decreases table.len(),
{
    if table.len() == 0 {
        None
    } else if table[0].emoji@ == emoji {
        Some(table[0].url@)
    } else {
        url_of(table.drop_first(), emoji)
    }
}

fn find_url(table: &[EmojiUrl], emoji: &str) -> (r: Option<String>)
    ensures
        crate::text::opt_text(r) == url_of(table@, emoji@),
{
    let mut i: usize = 0;
    assert(table@.skip(0) =~= table@);
    while i < table.len()
        invariant
            i <= table@.len(),
            url_of(table@, emoji@) == url_of(table@.skip(i as int), emoji@),
        decreases table@.len() - i,
    {
        assert(table@.skip(i as int)[0] == table@[i as int]);
        assert(table@.skip(i as int).drop_first() =~= table@.skip(i + 1));
        if str_eq(table[i].emoji.as_str(), emoji) {
            return Some(table[i].url.clone());
        }
        i += 1;
    }
    None
}

/// An emoji that stands alone: the text shown until its image is there, and the address of that.
#[derive(Debug, PartialEq, Eq)]
pub struct StandaloneEmoji {
    pub fallback: String,
    pub url: String,
}

pub struct StandaloneView {
    pub fallback: Seq<char>,
    pub url: Seq<char>,
}

impl View for StandaloneEmoji {
    type V = StandaloneView;

    open spec fn view(&self) -> StandaloneView {
        StandaloneView { fallback: self.fallback@, url: self.url@ }
    }
}

pub open spec fn standalone_views(v: Seq<StandaloneEmoji>) -> Seq<StandaloneView> {
    v.map_values(|e: StandaloneEmoji| e@)
}

/// The emojis among clusters, if every cluster is one or is white space.
pub open spec fn unicode_emojis(clusters: Seq<Seq<char>>, table: Seq<EmojiUrl>) -> Option<Seq<StandaloneView>>
    decreases clusters.len(),
{
    if clusters.len() == 0 {
        Some(seq![])
    } else {
        match unicode_emojis(clusters.drop_last(), table) {
            None => None,
            Some(before) => if all_space(clusters.last()) {
                Some(before)
            } else {
                match url_of(table, clusters.last()) {
                    Some(url) => Some(before.push(StandaloneView { fallback: clusters.last(), url })),
                    None => None,
                }
            },
        }
    }
}

/// How far a text was read, and the emojis found.
pub struct StandaloneState {
    pub cursor: usize,
    pub found: Seq<StandaloneView>,
}

/// The emojis up to the end of the first `k` places, if nothing else but white space stands there.
pub open spec fn standalone_upto(r: RenderedView, table: Seq<EmojiUrl>, k: int) -> Option<StandaloneState>
    decreases k,
{
    if k <= 0 {
        Some(StandaloneState { cursor: 0, found: seq![] })
    } else {
        match standalone_upto(r, table, k - 1) {
            None => None,
            Some(st) => {
                let slot = r.emoji_slots[k - 1];
                let end = slot.byte_start + slot.byte_len;
                if slot.byte_start < st.cursor || !on_boundary(r.text, slot.byte_start as int) || !on_boundary(
                    r.text,
                    end as int,
                ) {
                    None
                } else {
                    match unicode_emojis(
                        graphemes(byte_slice(r.text, st.cursor as int, slot.byte_start as int)),
                        table,
                    ) {
                        None => None,
                        Some(between) => Some(
                            StandaloneState {
                                cursor: end as usize,
                                found: (st.found + between).push(
                                    StandaloneView {
                                        fallback: byte_slice(r.text, slot.byte_start as int, end as int),
                                        url: slot.url,
                                    },
                                ),
                            },
                        ),
                    }
                }
            },
        }
    }
}

/// The emojis of a text that holds nothing else but white space, and at least one.
pub open spec fn standalone(r: RenderedView, table: Seq<EmojiUrl>) -> Option<Seq<StandaloneView>> {
    match standalone_upto(r, table, r.emoji_slots.len() as int) {
        None => None,
        Some(st) => match unicode_emojis(
            graphemes(byte_slice(r.text, st.cursor as int, utf8_len(r.text) as int)),
            table,
        ) {
            None => None,
            Some(tail) => if (st.found + tail).len() == 0 {
                None
            } else {
                Some(st.found + tail)
            },
        },
    }
}

proof fn lemma_standalone_push(v: Seq<StandaloneEmoji>, e: StandaloneEmoji)
    ensures
        standalone_views(v.push(e)) == standalone_views(v).push(e@),
{
    assert(standalone_views(v.push(e)) =~= standalone_views(v).push(e@));
}

/// Adds the emojis of a text to `output`, if it holds nothing else but white space.
pub fn push_standalone_unicode_emojis(value: &str, output: &mut Vec<StandaloneEmoji>, table: &[EmojiUrl]) -> (ok: bool)
    ensures
        ok == (unicode_emojis(graphemes(value@), table@) is Some),
        ok ==> standalone_views(final(output)@) == standalone_views(old(output)@) + unicode_emojis(
            graphemes(value@),
            table@,
        )->0,
{
    let clusters = split_graphemes(value);
    let ghost gs = graphemes(value@);
    let ghost start = standalone_views(output@);
    let mut i: usize = 0;
    assert(gs.take(0) =~= Seq::<Seq<char>>::empty());
    assert(start + Seq::<StandaloneView>::empty() =~= start);
    while i < clusters.len()
        invariant
            gs == graphemes(value@),
            texts(clusters@) == gs,
            i <= clusters@.len(),
            start == standalone_views(old(output)@),
            unicode_emojis(gs.take(i as int), table@) is Some,
            standalone_views(output@) == start + unicode_emojis(gs.take(i as int), table@)->0,
        decreases clusters@.len() - i,
    {
        proof {
            assert(gs.take(i + 1).drop_last() =~= gs.take(i as int));
            assert(gs.take(i + 1).last() == clusters@[i as int]@);
        }
        let cluster = &clusters[i];
        if !is_all_space(cluster.as_str()) {
            match find_url(table, cluster.as_str()) {
                Some(url) => {
                    let emoji = StandaloneEmoji { fallback: cluster.clone(), url };
                    proof {
                        lemma_standalone_push(output@, emoji);
                        let before = unicode_emojis(gs.take(i as int), table@)->0;
                        assert((start + before).push(emoji@) =~= start + before.push(emoji@));
                    }
                    output.push(emoji);
                },
                None => {
                    proof {
                        lemma_unicode_emojis_prefix(gs, table@, i + 1);
                    }
                    return false;
                },
            }
        }
        i += 1;
    }
    assert(gs.take(i as int) =~= gs);
    true
}

proof fn lemma_unicode_emojis_prefix(clusters: Seq<Seq<char>>, table: Seq<EmojiUrl>, k: int)
    requires
        0 <= k <= clusters.len(),
        unicode_emojis(clusters.take(k), table) is None,
    ensures
        unicode_emojis(clusters, table) is None,
    decreases clusters.len(),
{
    if k < clusters.len() {
        assert(clusters.drop_last().take(k) =~= clusters.take(k));
        lemma_unicode_emojis_prefix(clusters.drop_last(), table, k);
    } else {
        assert(clusters.take(k) =~= clusters);
    }
}

proof fn lemma_standalone_prefix(r: RenderedView, table: Seq<EmojiUrl>, k: int, n: int)
    requires
        0 <= k <= n,
        standalone_upto(r, table, k) is None,
    ensures
        standalone_upto(r, table, n) is None,
    decreases n - k,
{
    if k < n {
        lemma_standalone_prefix(r, table, k + 1, n);
    }
}

/// The emojis of a text that is made of emojis alone.
pub fn standalone_emojis(rendered: &RenderedText, table: &[EmojiUrl]) -> (r: Option<Vec<StandaloneEmoji>>)
    ensures
        match r {
            Some(v) => standalone(rendered@, table@) == Some(standalone_views(v@)),
            None => standalone(rendered@, table@) is None,
        },
{
    let ghost view = rendered@;
    let text_len: usize = byte_len(rendered.text.as_str());
    let mut emojis: Vec<StandaloneEmoji> = Vec::new();
    let mut cursor: usize = 0;
    let mut k: usize = 0;
    proof {
        assert(standalone_views(emojis@) =~= Seq::<StandaloneView>::empty());
        lemma_boundary_ends(view.text);
    }
    while k < rendered.emoji_slots.len()
        invariant
            view == rendered@,
            text_len == utf8_len(view.text),
            k <= rendered.emoji_slots@.len(),
            on_boundary(view.text, cursor as int),
            standalone_upto(view, table@, k as int) == Some(
                StandaloneState { cursor, found: standalone_views(emojis@) },
            ),
        decreases rendered.emoji_slots@.len() - k,
    {
        let slot = &rendered.emoji_slots[k];
        let ghost n = view.emoji_slots.len() as int;
        proof {
            assert(view.emoji_slots[k as int] == slot@);
        }
        if slot.byte_start < cursor || !is_boundary(rendered.text.as_str(), slot.byte_start) {
            proof {
                lemma_standalone_prefix(view, table@, k + 1, n);
            }
            return None;
        }
        if slot.byte_len > text_len || slot.byte_start > text_len - slot.byte_len {
            proof {
                if on_boundary(view.text, slot.byte_start + slot.byte_len) {
                    lemma_boundary_order(
                        view.text,
                        slot.byte_start + slot.byte_len,
                        slot.byte_start + slot.byte_len,
                    );
                }
                lemma_standalone_prefix(view, table@, k + 1, n);
            }
            return None;
        }
        let end: usize = slot.byte_start + slot.byte_len;
        if !is_boundary(rendered.text.as_str(), end) {
            proof {
                lemma_standalone_prefix(view, table@, k + 1, n);
            }
            return None;
        }
        let between = slice_bytes(rendered.text.as_str(), cursor, slot.byte_start);
        if !push_standalone_unicode_emojis(between.as_str(), &mut emojis, table) {
            proof {
                lemma_standalone_prefix(view, table@, k + 1, n);
            }
            return None;
        }
        let emoji = StandaloneEmoji {
            fallback: slice_bytes(rendered.text.as_str(), slot.byte_start, end),
            url: slot.url.clone(),
        };
        proof {
            lemma_standalone_push(emojis@, emoji);
        }
        emojis.push(emoji);
        cursor = end;
        k += 1;
    }
    proof {
        lemma_boundary_ends(view.text);
        lemma_boundary_order(view.text, cursor as int, cursor as int);
    }
    let tail = slice_bytes(rendered.text.as_str(), cursor, text_len);
    if !push_standalone_unicode_emojis(tail.as_str(), &mut emojis, table) {
        return None;
    }
    if emojis.len() == 0 {
        return None;
    }
    Some(emojis)
}

// ---- Rows of emojis ----

/// A cell of `width` columns with as much of a text as fits.
pub open spec fn fallback_cell(fallback: Seq<char>, width: usize) -> Seq<char> {
    let shown = fitting(graphemes(fallback), width, 0);
    shown + repeated(' ', (if width > display_width(shown) {
        width - display_width(shown)
    } else {
        0
    }) as nat)
}

pub fn standalone_emoji_fallback_cell(fallback: &str, width: usize) -> (r: String)
    ensures
        r@ == fallback_cell(fallback@, width),
{
    let mut cell = truncate_display_width(fallback, width);
    let used: usize = str_width(cell.as_str());
    let blanks = repeat_char(' ', width.saturating_sub(used));
    cell.append(blanks.as_str());
    cell
}

/// What stands in the cell of an emoji: blanks once its image is loaded.
pub open spec fn emoji_cell(e: StandaloneView, loaded: Seq<Seq<char>>, width: u16) -> Seq<char> {
    if has_text(loaded, e.url) {
        repeated(' ', width as nat)
    } else {
        fallback_cell(e.fallback, width as usize)
    }
}

/// A row of emojis, side by side.
pub open spec fn emoji_row(row: Seq<StandaloneView>, style: Style, loaded: Seq<Seq<char>>, width: u16) -> LineView
    decreases row.len(),
{
    if row.len() == 0 {
        styled_line(seq![], style, seq![])
    } else {
        let before = emoji_row(row.drop_last(), style, loaded, width);
        let cell = emoji_cell(row.last(), loaded, width);
        LineView {
            text: before.text + cell,
            image_slots: before.image_slots.push(
                ImageSlotView {
                    col: to_col(((row.len() - 1) * width) as usize),
                    byte_start: utf8_len(before.text) as usize,
                    byte_len: utf8_len(cell) as usize,
                    display_width: width,
                    image_size: EmojiImageSize::Standalone,
                    url: row.last().url,
                },
            ),
            ..before
        }
    }
}

pub open spec fn blank_lines(n: nat, style: Style) -> Seq<LineView> {
    Seq::new(n, |i: int| styled_line(seq![], style, seq![]))
}

/// How many emojis stand side by side: as many as fit, but at least one.
pub open spec fn emojis_per_row(width: usize, emoji_width: u16) -> int {
    if width < emoji_width {
        1
    } else {
        width as int / emoji_width as int
    }
}

/// Rows of emojis, each followed by the lines that the images reach down to.
pub open spec fn emoji_rows(
    emojis: Seq<StandaloneView>,
    per_row: int,
    style: Style,
    loaded: Seq<Seq<char>>,
    width: u16,
    height: u16,
) -> Seq<LineView>
    decreases emojis.len(),
{
    if emojis.len() == 0 || per_row <= 0 {
        seq![]
    } else {
        let n = if emojis.len() < per_row { emojis.len() as int } else { per_row };
        seq![emoji_row(emojis.take(n), style, loaded, width)] + blank_lines((height - 1) as nat, style) + emoji_rows(
            emojis.skip(n),
            per_row,
            style,
            loaded,
            width,
            height,
        )
    }
}

fn format_emoji_row(
    emojis: &Vec<StandaloneEmoji>,
    from: usize,
    to: usize,
    style: Style,
    loaded: &[String],
    width: u16,
) -> (r: MessageContentLine)
    requires
        from <= to <= emojis@.len(),
        (to - from) * width <= usize::MAX,
    ensures
        r@ == emoji_row(standalone_views(emojis@).subrange(from as int, to as int), style, texts(loaded@), width),
{
    let ghost all = standalone_views(emojis@);
    let ghost row = all.subrange(from as int, to as int);
    let mut text = String::new();
    let mut slots: Vec<MessageContentImageSlot> = Vec::new();
    let mut i: usize = from;
    let mut col: usize = 0;
    proof {
        assert(row.take(0) =~= Seq::<StandaloneView>::empty());
        assert(image_slots(slots@) =~= Seq::<ImageSlotView>::empty());
        assert(text@ =~= Seq::<char>::empty());
    }
    while i < to
        invariant
            from <= i <= to <= emojis@.len(),
            all == standalone_views(emojis@),
            row == all.subrange(from as int, to as int),
            (to - from) * width <= usize::MAX,
            col == (i - from) * width,
            ({
                let done = emoji_row(row.take(i - from), style, texts(loaded@), width);
                &&& done.text == text@
                &&& done.image_slots == image_slots(slots@)
                &&& done.style == style
                &&& done.mention_highlights.len() == 0
                &&& done.styled_prefixes.len() == 0
                &&& done.preview_slots.len() == 0
            }),
        decreases to - i,
    {
        let emoji = &emojis[i];
        proof {
            assert(row.take(i + 1 - from).drop_last() =~= row.take(i - from));
            assert(row.take(i + 1 - from).last() == emoji@);
            assert((i - from) * width + width == (i + 1 - from) * width) by (nonlinear_arith);
            assert((i + 1 - from) * width <= (to - from) * width) by (nonlinear_arith)
                requires
                    i + 1 - from <= to - from,
            ;
        }
        let cell = if list_contains(loaded, emoji.url.as_str()) {
            repeat_char(' ', width as usize)
        } else {
            standalone_emoji_fallback_cell(emoji.fallback.as_str(), width as usize)
        };
        let byte_start: usize = byte_len(text.as_str());
        let slot = MessageContentImageSlot {
            col: column(col),
            byte_start,
            byte_len: byte_len(cell.as_str()),
            display_width: width,
            image_size: EmojiImageSize::Standalone,
            url: emoji.url.clone(),
        };
        proof {
            assert(image_slots(slots@.push(slot)) =~= image_slots(slots@).push(slot@));
        }
        slots.push(slot);
        text.append(cell.as_str());
        col = col + width as usize;
        i += 1;
    }
    assert(row.take(to - from) =~= row);
    let line = MessageContentLine::styled_text(text, style, Vec::new()).with_image_slots(slots);
    proof {
        let done = emoji_row(row, style, texts(loaded@), width);
        assert(done.mention_highlights =~= seq![]);
        assert(done.styled_prefixes =~= seq![]);
        assert(done.preview_slots =~= seq![]);
    }
    line
}

/// The lines of a message made of emojis alone.
pub fn format_standalone_emoji_lines(
    emojis: &Vec<StandaloneEmoji>,
    width: usize,
    style: Style,
    loaded: &[String],
    options: &FormatOptions,
) -> (r: Vec<MessageContentLine>)
    requires
        options.wf(),
    ensures
        line_views(r@) == emoji_rows(
            standalone_views(emojis@),
            emojis_per_row(width, options.standalone_emoji_width),
            style,
            texts(loaded@),
            options.standalone_emoji_width,
            options.standalone_emoji_height,
        ),
{
    let image_width: usize = options.standalone_emoji_width as usize;
    let per_row: usize = if width < image_width { 1 } else { width / image_width };
    let ghost all = standalone_views(emojis@);
    let ghost urls = texts(loaded@);
    let ghost w = options.standalone_emoji_width;
    let ghost h = options.standalone_emoji_height;
    proof {
        assert(per_row * w <= usize::MAX) by {
            if width >= image_width {
                assert((width as int / w as int) * w <= width) by (nonlinear_arith)
                    requires
                        w > 0,
                        width >= 0,
                ;
            }
        }
        assert(per_row >= 1) by {
            if width >= image_width {
                assert(width as int / w as int >= 1) by (nonlinear_arith)
                    requires
                        w > 0,
                        width >= w,
                ;
            }
        }
    }
    let mut lines: Vec<MessageContentLine> = Vec::new();
    let mut from: usize = 0;
    proof {
        assert(all.skip(0) =~= all);
        assert(line_views(lines@) + emoji_rows(all, per_row as int, style, urls, w, h) =~= emoji_rows(
            all,
            per_row as int,
            style,
            urls,
            w,
            h,
        ));
    }
    while from < emojis.len()
        invariant
            from <= emojis@.len(),
            all == standalone_views(emojis@),
            urls == texts(loaded@),
            w == options.standalone_emoji_width,
            h == options.standalone_emoji_height,
            options.wf(),
            per_row >= 1,
            per_row * w <= usize::MAX,
            line_views(lines@) + emoji_rows(all.skip(from as int), per_row as int, style, urls, w, h) == emoji_rows(
                all,
                per_row as int,
                style,
                urls,
                w,
                h,
            ),
        decreases emojis@.len() - from,
    {
        let left: usize = emojis.len() - from;
        let n: usize = if left < per_row { left } else { per_row };
        let ghost before = line_views(lines@);
        let ghost rest = all.skip(from as int);
        proof {
            assert(n * w <= per_row * w) by (nonlinear_arith)
                requires
                    n <= per_row,
            ;
            assert(rest.take(n as int) =~= all.subrange(from as int, from + n));
            assert(rest.skip(n as int) =~= all.skip(from + n));
        }
        let line = format_emoji_row(emojis, from, from + n, style, loaded, options.standalone_emoji_width);
        proof {
            lemma_line_views_push(lines@, line);
        }
        lines.push(line);
        let ghost row = emoji_row(rest.take(n as int), style, urls, w);
        let mut k: u16 = 1;
        assert(before.push(row) + blank_lines(0, style) =~= before.push(row));
        while k < options.standalone_emoji_height
            invariant
                1 <= k <= options.standalone_emoji_height,
                line_views(lines@) == before.push(row) + blank_lines((k - 1) as nat, style),
            decreases options.standalone_emoji_height - k,
        {
            let blank = MessageContentLine::styled_text(String::new(), style, Vec::new());
            proof {
                assert(blank@.text =~= seq![]);
                lemma_line_views_push(lines@, blank);
                assert(before.push(row) + blank_lines((k - 1) as nat, style).push(blank@) =~= before.push(row)
                    + blank_lines(k as nat, style));
                assert(line_views(lines@).push(blank@) =~= before.push(row) + blank_lines((k - 1) as nat, style).push(
                    blank@,
                ));
            }
            lines.push(blank);
            k += 1;
        }
        proof {
            let tail = emoji_rows(rest.skip(n as int), per_row as int, style, urls, w, h);
            assert(before.push(row) + blank_lines((h - 1) as nat, style) + tail =~= before + (seq![row] + blank_lines(
                (h - 1) as nat,
                style,
            ) + tail));
        }
        from = from + n;
    }
    assert(all.skip(from as int) =~= Seq::<StandaloneView>::empty());
    assert(line_views(lines@) + Seq::<LineView>::empty() =~= line_views(lines@));
    lines
}

// ---- The marker of edited messages ----

/// The marker, with the blank that separates it from what it follows.
pub open spec fn edited_marker() -> Seq<char> {
    " (edited)"@
}

/// Whether the marker fits behind a line.
pub open spec fn marker_fits(line: LineView, width: usize) -> bool {
    sat_add(display_width(line.text), display_width(edited_marker())) <= width
}

pub open spec fn marker_line(theme: Theme) -> LineView {
    styled_line(trimmed(edited_marker()), theme.edited, seq![])
}

/// The marker goes behind the last line where it fits, and on a line of its own otherwise.
pub open spec fn with_edited_marker(lines: Seq<LineView>, width: usize, theme: Theme) -> Seq<LineView> {
    if lines.len() > 0 && marker_fits(lines.last(), width) {
        lines.drop_last().push(with_suffix(lines.last(), edited_marker(), theme.edited))
    } else {
        lines.push(marker_line(theme))
    }
}

pub fn append_edited_marker(lines: Vec<MessageContentLine>, width: usize, theme: &Theme) -> (r: Vec<MessageContentLine>)
    ensures
        line_views(r@) == with_edited_marker(line_views(lines@), width, *theme),
{
    let mut lines = lines;
    let ghost all = lines@;
    let marker_width: usize = str_width(" (edited)");
    if lines.len() > 0 {
        let last: usize = lines.len() - 1;
        assert(line_views(all).last() == all[last as int]@);
        if str_width(lines[last].text.as_str()).saturating_add(marker_width) <= width {
            let popped = lines.pop();
            if let Some(mut line) = popped {
                assert(line_views(lines@) =~= line_views(all).drop_last());
                line.append_styled_suffix(" (edited)", theme.edited);
                proof {
                    lemma_line_views_push(lines@, line);
                }
                lines.push(line);
            }
            return lines;
        }
    }
    let text = trim_text(" (edited)");
    let line = MessageContentLine::styled_text(text, theme.edited, Vec::new());
    proof {
        lemma_line_views_push(lines@, line);
    }
    lines.push(line);
    lines
}

/// The marker goes behind the row of emojis at `index` where it fits, and otherwise on a line of its
/// own below the images of that row.
pub open spec fn with_emoji_edited_marker(
    lines: Seq<LineView>,
    index: int,
    width: usize,
    theme: Theme,
    height: u16,
) -> Seq<LineView> {
    if index < lines.len() && marker_fits(lines[index], width) {
        lines.update(index, with_suffix(lines[index], edited_marker(), theme.edited))
    } else {
        lines.insert(if index + height < lines.len() {
            index + height
        } else {
            lines.len() as int
        }, marker_line(theme))
    }
}

pub fn append_standalone_emoji_edited_marker(
    lines: Vec<MessageContentLine>,
    line_index: usize,
    width: usize,
    options: &FormatOptions,
) -> (r: Vec<MessageContentLine>)
    ensures
        line_views(r@) == with_emoji_edited_marker(
            line_views(lines@),
            line_index as int,
            width,
            options.theme,
            options.standalone_emoji_height,
        ),
{
    let mut lines = lines;
    let ghost all = lines@;
    let marker_width: usize = str_width(" (edited)");
    if line_index < lines.len() {
        assert(line_views(all)[line_index as int] == all[line_index as int]@);
        if str_width(lines[line_index].text.as_str()).saturating_add(marker_width) <= width {
            let mut line = lines.remove(line_index);
            line.append_styled_suffix(" (edited)", options.theme.edited);
            lines.insert(line_index, line);
            assert(line_views(lines@) =~= line_views(all).update(line_index as int, line@));
            return lines;
        }
    }
    let below: usize = line_index.saturating_add(options.standalone_emoji_height as usize);
    let marker_index: usize = if below < lines.len() { below } else { lines.len() };
    let text = trim_text(" (edited)");
    let line = MessageContentLine::styled_text(text, options.theme.edited, Vec::new());
    lines.insert(marker_index, line);
    assert(line_views(lines@) =~= line_views(all).insert(marker_index as int, line@));
    lines
}

} // verus!
