//! What messages show, and in which order.

use crate::message::components::AttachmentInfo;
use crate::message::emoji::{
    emoji_cell, emoji_row, emoji_rows, with_edited_marker, with_emoji_edited_marker, EmojiUrl, StandaloneView,
};
use crate::message::embed_laws::lemma_join_contains;
use crate::message::line::{line_views, LineView};
use crate::message::options::FormatOptions;
use crate::message::part_laws::{chip_text, every_reaction_has_its_chip, ChipPlace};
use crate::message::rendered::{RenderedView, TextHighlight};
use crate::message::sections::{display_text, reply_line, reply_text, sticker_label, MessageParts};
use crate::message::system::{system_lines, SystemMessage};
use crate::message::whole::{MessageState, Rendering};
use crate::style::{Style, Theme};
use crate::text::{contains_text, decimal, join_with, utf8_len};
use crate::unicode::display_width;
use vstd::prelude::*;
use vstd::string::*;

verus! {

/// Whether some lines stand among others from a place on.
pub open spec fn stand_at(lines: Seq<LineView>, at: int, some: Seq<LineView>) -> bool {
    0 <= at && at + some.len() <= lines.len() && lines.subrange(at, at + some.len()) == some
}

/// A message shows, in this order: the command that it answers, the message that it replies to or its poll or its kind,
/// its text, its embeds, its components, its attachments, and what it forwards. Of these, nothing is left out, and
/// nothing else is shown.
pub proof fn messages_show_their_parts(
    p: MessageParts,
    embeds: Seq<LineView>,
    components: Seq<LineView>,
    options: FormatOptions,
    urls: Seq<EmojiUrl>,
    loaded: Seq<Seq<char>>,
    width: usize,
) -> (at: Seq<int>)
    requires
        p.unmarked(embeds, components, options, urls, loaded, width).len() > 1 || embeds.len() + components.len() > 0
            || p.command_line is Some || p.reply_line is Some,
    ensures
        ({
            let lines = p.unmarked(embeds, components, options, urls, loaded, width);
            let first = if p.command_line is Some { 1int } else { 0 };
            &&& at.len() == 6
            &&& p.command_line matches Some(l) ==> lines[0] == l@
            &&& p.reply_line matches Some(l) ==> lines[first] == l@ && at[0] == first + 1
            &&& p.reply_line is None && p.poll_lines is Some ==> stand_at(lines, first, line_views((p.poll_lines->0)@))
                && at[0] == first + line_views((p.poll_lines->0)@).len()
            &&& p.reply_line is None && p.poll_lines is None && p.kind_line is Some && p.command_line is None ==> lines[0]
                == (p.kind_line->0)@ && at[0] == 1
            &&& p.reply_line is None && p.poll_lines is None && (p.kind_line is None || p.command_line is Some) ==> at[0]
                == first
            &&& p.body matches Some(b) ==> !options.show_custom_emoji && !p.is_components_v2 && (p.reply_line is Some
                || p.poll_lines is None) ==> stand_at(lines, at[0], line_views(b.markdown_lines@)) && at[1] == at[0]
                + line_views(b.markdown_lines@).len()
            &&& p.body is None || p.is_components_v2 || p.reply_line is None && p.poll_lines is Some ==> at[1] == at[0]
            &&& stand_at(lines, at[1], embeds) && at[2] == at[1] + embeds.len()
            &&& stand_at(lines, at[2], components) && at[3] == at[2] + components.len()
            &&& p.is_components_v2 ==> at[4] == at[3]
            &&& !p.is_components_v2 ==> at[4] == at[3] + p.attachment_summaries@.len() && forall|i: int|
                0 <= i < p.attachment_summaries@.len() && p.attachment_summaries@[i]@.len() <= width ==> (
                #[trigger] lines[at[3] + i]).text == p.attachment_summaries@[i]@ && lines[at[3] + i].style
                    == options.theme.message_attachment
            &&& p.forwarded_lines is None ==> at[5] == at[4]
            &&& p.forwarded_lines matches Some(f) ==> stand_at(lines, at[4], line_views(f@)) && at[5] == at[4]
                + line_views(f@).len()
            &&& at[5] == lines.len()
        }),
{
    let lines = p.unmarked(embeds, components, options, urls, loaded, width);
    let head = p.head();
    let body = p.body_lines(options, urls, loaded, width);
    let files = p.attachment_part(options, width);
    let forwarded = match p.forwarded_lines {
        Some(lines) => line_views(lines@),
        None => seq![],
    };
    let all = head + body + embeds + components + files + forwarded;
    assert(all.len() > 0) by {
        if all.len() == 0 {
            assert(lines.len() == 1);
        }
    }
    assert(lines == all);
    let first = if p.command_line is Some { 1int } else { 0 };
    let a0 = head.len() as int;
    let a1 = a0 + body.len();
    let a2 = a1 + embeds.len();
    let a3 = a2 + components.len();
    let a4 = a3 + files.len();
    if p.command_line is Some {
        assert(lines[0] == head[0]);
    }
    if p.reply_line is Some {
        assert(lines[first] == head[first]);
    }
    if p.reply_line is None && p.poll_lines is Some {
        assert(lines.subrange(first, a0) =~= line_views((p.poll_lines->0)@));
    }
    if p.reply_line is None && p.poll_lines is None && p.kind_line is Some && p.command_line is None {
        assert(lines[0] == head[0]);
    }
    assert(lines.subrange(a0, a1) =~= body);
    assert(lines.subrange(a1, a2) =~= embeds);
    assert(lines.subrange(a2, a3) =~= components);
    assert(lines.subrange(a4, a4 + forwarded.len()) =~= forwarded);
    if !p.is_components_v2 {
        assert forall|i: int| 0 <= i < p.attachment_summaries@.len() && p.attachment_summaries@[i]@.len() <= width implies (
        #[trigger] lines[a3 + i]).text == p.attachment_summaries@[i]@ && lines[a3 + i].style
            == options.theme.message_attachment by {
            assert(lines[a3 + i] == files[i]);
        }
    }
    seq![a0, a1, a2, a3, a4, a4 + forwarded.len()]
}

/// A message with nothing to show says so, or that what it says is not known.
pub proof fn empty_messages_say_so(
    p: MessageParts,
    options: FormatOptions,
    urls: Seq<EmojiUrl>,
    loaded: Seq<Seq<char>>,
    width: usize,
)
    requires
        p.command_line is None && p.reply_line is None && p.poll_lines is None && p.kind_line is None,
        p.body is None && p.forwarded_lines is None,
        p.attachment_summaries@.len() == 0,
    ensures
        ({
            let lines = p.unmarked(seq![], seq![], options, urls, loaded, width);
            &&& lines.len() == 1
            &&& p.content_known ==> lines[0].text == "<empty message>"@
            &&& !p.content_known ==> lines[0].text == "<message content unavailable>"@
            &&& lines[0].style == options.theme.message_muted
        }),
{
}

/// An edited message is marked: behind its last line, if there is room, or else below it. Nothing else changes.
pub proof fn edited_messages_are_marked(lines: Seq<LineView>, width: usize, theme: Theme)
    requires
        width < usize::MAX,
    ensures
        ({
            let marked = with_edited_marker(lines, width, theme);
            let n = lines.len() as int;
            if n > 0 && display_width(lines[n - 1].text) + display_width(" (edited)"@) <= width {
                &&& marked.len() == n
                &&& forall|i: int| 0 <= i < n - 1 ==> #[trigger] marked[i] == lines[i]
                &&& marked[n - 1].text == lines[n - 1].text + " (edited)"@
                &&& marked[n - 1].style == lines[n - 1].style
                &&& marked[n - 1].mention_highlights == lines[n - 1].mention_highlights
            } else {
                &&& marked.len() == n + 1
                &&& forall|i: int| 0 <= i < n ==> #[trigger] marked[i] == lines[i]
                &&& marked[n].text == "(edited)"@
                &&& marked[n].style == theme.edited
            }
        }),
{
    reveal_strlit(" (edited)");
    reveal_strlit("(edited)");
    let text = " (edited)"@;
    let after = "(edited)"@;
    reveal(crate::unicode::is_space);
    crate::unicode::trimming_ignores_padding(seq![' '], after, seq![]);
    assert(seq![' '] + after + Seq::<char>::empty() =~= text);
    lemma_untrimmed(after);
}

proof fn lemma_untrimmed(s: Seq<char>)
    requires
        s == "(edited)"@,
    ensures
        crate::unicode::trimmed(s) == s,
{
    reveal_strlit("(edited)");
    reveal(crate::unicode::is_space);
    assert(s[0] == '(' && s[s.len() - 1] == ')');
    reveal_with_fuel(crate::unicode::trimmed_start, 2);
    reveal_with_fuel(crate::unicode::trimmed_end, 2);
}

/// The marker of an edited message of emojis stands behind the row of emojis, if there is room, or else on a line below
/// the images.
pub proof fn edited_emojis_are_marked(lines: Seq<LineView>, row: int, width: usize, theme: Theme, height: u16)
    requires
        width < usize::MAX,
        0 <= row < lines.len(),
    ensures
        ({
            let marked = with_emoji_edited_marker(lines, row, width, theme, height);
            let n = lines.len() as int;
            let below = if row + height < n { row + height } else { n };
            if display_width(lines[row].text) + display_width(" (edited)"@) <= width {
                &&& marked.len() == n
                &&& forall|i: int| 0 <= i < n && i != row ==> #[trigger] marked[i] == lines[i]
                &&& marked[row].text == lines[row].text + " (edited)"@
                &&& marked[row].image_slots == lines[row].image_slots
            } else {
                &&& marked.len() == n + 1
                &&& forall|i: int| 0 <= i < below ==> #[trigger] marked[i] == lines[i]
                &&& forall|i: int| below <= i < n ==> #[trigger] marked[i + 1] == lines[i]
                &&& marked[below].style == theme.edited
            }
        }),
{
}

/// The line above a reply shows the author and the text of the message, if there is room for both, and the highlights
/// of the text where the text stands.
pub proof fn replies_show_author_and_text(author: Seq<char>, content: RenderedView, width: usize, theme: Theme)
    requires
        3 + author.len() + 3 + content.text.len() <= width,
        utf8_len("╭─ "@ + author + " : "@) + utf8_len(content.text) <= usize::MAX,
    ensures
        ({
            let line = reply_line(author, content, width, theme);
            let front = "╭─ "@ + author + " : "@;
            &&& line.text == front + content.text
            &&& line.style == theme.message_secondary
            &&& line.mention_highlights.len() == content.highlights.len()
            &&& forall|i: int|
                0 <= i < content.highlights.len() && content.highlights[i].end <= utf8_len(content.text)
                    && content.highlights[i].start <= utf8_len(content.text) ==> (
                #[trigger] line.mention_highlights[i]) == (TextHighlight {
                    start: (content.highlights[i].start + utf8_len(front)) as usize,
                    end: (content.highlights[i].end + utf8_len(front)) as usize,
                    kind: content.highlights[i].kind,
                })
        }),
{
    reveal_strlit("╭─ ");
    reveal_strlit(" : ");
}

/// What a message says holds its content and the label of every sticker, the content first.
pub proof fn texts_hold_content_and_stickers(content: Option<String>, stickers: Seq<String>, i: int)
    requires
        0 <= i < stickers.len(),
    ensures
        display_text(content, stickers) matches Some(text) && contains_text(
            text,
            "[Sticker: "@ + stickers[i]@ + "]"@,
        ) && (content matches Some(c) ==> crate::text::starts_with(text, c@)),
        content matches Some(c) ==> c@.len() > 0 ==> display_text(content, Seq::<String>::empty()) == Some(c@),
        content is None ==> display_text(content, Seq::<String>::empty()) is None,
{
    let labels = stickers.map_values(|n: String| sticker_label(n@));
    lemma_join_contains(labels, " "@, i);
    let joined = join_with(labels, " "@);
    assert(labels[i] == "[Sticker: "@ + stickers[i]@ + "]"@);
    let k = choose|k: int| 0 <= k <= joined.len() && #[trigger] crate::text::starts_with(joined.skip(k), labels[i]);
    match content {
        Some(c) => {
            if c@.len() > 0 {
                let text = c@ + "\n"@ + joined;
                let n = c@.len() + "\n"@.len() + k;
                assert(text.skip(n) =~= joined.skip(k));
                assert(crate::text::starts_with(text.skip(n), labels[i]));
                assert(text.take(c@.len() as int) =~= c@);
            } else {
                assert(joined.take(0) =~= c@);
            }
        },
        None => {},
    }
}

/// A reply to a message that says nothing tells so.
pub proof fn replies_to_empty_messages_say_so(content: Option<String>)
    requires
        content is None || (content->0)@.len() == 0,
    ensures
        reply_text(content, Seq::<String>::empty()) == "<empty message>"@,
{
}

// ---- Rows of emojis ----

proof fn lemma_emoji_row(row: Seq<StandaloneView>, style: Style, loaded: Seq<Seq<char>>, width: u16, i: int)
    requires
        0 <= i < row.len(),
    ensures
        emoji_row(row, style, loaded, width).image_slots.len() == row.len(),
        emoji_row(row, style, loaded, width).image_slots[i].url == row[i].url,
        emoji_row(row, style, loaded, width).image_slots[i].display_width == width,
        emoji_row(row, style, loaded, width).image_slots[i].col == crate::message::wrap::to_col((i * width) as usize),
        contains_text(emoji_row(row, style, loaded, width).text, emoji_cell(row[i], loaded, width)),
    decreases row.len(),
{
    let rest = row.drop_last();
    let before = emoji_row(rest, style, loaded, width);
    let all = emoji_row(row, style, loaded, width);
    let cell = emoji_cell(row.last(), loaded, width);
    lemma_emoji_count(rest, style, loaded, width);
    if i < rest.len() {
        lemma_emoji_row(rest, style, loaded, width, i);
        assert(all.image_slots[i] == before.image_slots[i]);
        let own = emoji_cell(row[i], loaded, width);
        let k = choose|k: int| 0 <= k <= before.text.len() && #[trigger] crate::text::starts_with(before.text.skip(k), own);
        assert(all.text.skip(k).take(own.len() as int) =~= before.text.skip(k).take(own.len() as int));
        assert(crate::text::starts_with(all.text.skip(k), own));
    } else {
        let k = before.text.len() as int;
        assert(all.text.skip(k) =~= cell);
        assert(cell.take(cell.len() as int) =~= cell);
        assert(crate::text::starts_with(all.text.skip(k), cell));
    }
}

proof fn lemma_emoji_count(row: Seq<StandaloneView>, style: Style, loaded: Seq<Seq<char>>, width: u16)
    ensures
        emoji_row(row, style, loaded, width).image_slots.len() == row.len(),
    decreases row.len(),
{
    if row.len() > 0 {
        lemma_emoji_count(row.drop_last(), style, loaded, width);
    }
}

/// Emojis that make up a message stand in rows, as many side by side as there may be, each with its image in its
/// column, and below each row there is room for the images.
pub proof fn emojis_stand_in_rows(
    emojis: Seq<StandaloneView>,
    per_row: int,
    style: Style,
    loaded: Seq<Seq<char>>,
    width: u16,
    height: u16,
    i: int,
) -> (r: (int, int))
    requires
        per_row > 0,
        height > 0,
        0 <= i < emojis.len(),
    ensures
        ({
            let lines = emoji_rows(emojis, per_row, style, loaded, width, height);
            let (row, place) = r;
            &&& 0 <= row && 0 <= place < per_row
            &&& i == row * per_row + place
            &&& row * height + height <= lines.len()
            &&& place < lines[row * height].image_slots.len()
            &&& lines[row * height].image_slots[place].url == emojis[i].url
            &&& lines[row * height].image_slots[place].col == crate::message::wrap::to_col((place * width) as usize)
            &&& contains_text(lines[row * height].text, emoji_cell(emojis[i], loaded, width))
        }),
    decreases emojis.len(),
{
    let n = if emojis.len() < per_row { emojis.len() as int } else { per_row };
    let lines = emoji_rows(emojis, per_row, style, loaded, width, height);
    let first = emoji_row(emojis.take(n), style, loaded, width);
    let rest = emoji_rows(emojis.skip(n), per_row, style, loaded, width, height);
    if i < n {
        lemma_emoji_row(emojis.take(n), style, loaded, width, i);
        assert(lines[0] == first);
        let row = 0int;
        assert(row * per_row == 0 && row * height == 0) by (nonlinear_arith)
            requires
                row == 0,
        ;
        (row, i)
    } else {
        assert(n == per_row);
        let (row, place) = emojis_stand_in_rows(emojis.skip(n), per_row, style, loaded, width, height, i - n);
        assert(emojis.skip(n)[i - n] == emojis[i]);
        assert((row + 1) * per_row + place == i && (row + 1) * height == row * height + height) by (nonlinear_arith)
            requires
                i - per_row == row * per_row + place,
        ;
        assert(row * height >= 0) by (nonlinear_arith)
            requires
                row >= 0,
        ;
        assert(lines[(row + 1) * height] == rest[row * height]);
        (row + 1, place)
    }
}

// ---- System messages ----

/// What a system message tells, where there is room for it.
pub proof fn system_messages_tell_what_happened(m: SystemMessage, width: usize, theme: Theme)
    ensures
        ({
            let lines = system_lines(m, width, theme);
            let (boost, level) = (
                m.author@ + " boosted the server"@,
                m.author@ + " boosted the server to Level "@ + decimal((m.code - 8) as nat),
            );
            &&& m.code == 8 ==> lines is Some && lines->0.len() == 1 && (boost.len() <= width ==> lines->0[0].text == boost)
            &&& 9 <= m.code <= 11 ==> lines is Some && lines->0.len() == 1 && (level.len() <= width ==> lines->0[0].text
                == level)
            &&& m.code == 18 ==> lines is Some && lines->0.len() == 3 && {
                let title = m.author@ + " started a thread"@;
                let name = "# "@ + (if m.thread is Some {
                    (m.thread->0).name@
                } else if m.content is Some && (m.content->0)@.len() > 0 {
                    (m.content->0)@
                } else {
                    "thread"@
                });
                &&& title.len() <= width ==> lines->0[0].text == title
                &&& name.len() <= width ==> lines->0[1].text == name
            }
            &&& m.code == 21 ==> lines is Some && lines->0.len() == 2 && (m.reply_line matches Some(l) ==> lines->0[1] == l@)
            &&& m.code < 8 || 11 < m.code < 18 || 18 < m.code < 21 || 21 < m.code < 46 || m.code > 46 ==> lines is None
        }),
{
}

/// What is told of a thread: how many messages it has, whether it is archived and locked.
pub proof fn threads_are_summed_up(s: crate::state::model::ThreadSummary, width: usize, theme: Theme)
    ensures
        ({
            let line = crate::message::system::summary_line(s, width, theme);
            let text = (if s.message_count is Some || s.total_message_sent is Some {
                let n = if s.message_count is Some { s.message_count->0 } else { s.total_message_sent->0 };
                decimal(n as nat) + (if n == 1 {
                    " message · "@
                } else {
                    " messages · "@
                })
            } else {
                seq![]
            }) + (if s.archived == Some(true) {
                "archived · "@
            } else {
                seq![]
            }) + (if s.locked == Some(true) {
                "locked · "@
            } else {
                seq![]
            }) + "Open thread to view messages"@;
            text.len() <= width ==> line.text == text && line.style == theme.message_secondary
        }),
{
    reveal_strlit(" ");
    reveal_strlit("message");
    reveal_strlit("messages");
    reveal_strlit(" · ");
    reveal_strlit(" message · ");
    reveal_strlit(" messages · ");
    reveal_strlit("archived");
    reveal_strlit("archived · ");
    reveal_strlit("locked");
    reveal_strlit("locked · ");
    assert(" "@ + "message"@ + " · "@ =~= " message · "@);
    assert(" "@ + "messages"@ + " · "@ =~= " messages · "@);
    assert("archived"@ + " · "@ =~= "archived · "@);
    assert("locked"@ + " · "@ =~= "locked · "@);
    let parts = crate::message::system::summary_parts(s);
    let bar = " · "@;
    let last = "Open thread to view messages"@;
    let n = parts.len() as int;
    assert(parts[n - 1] == last);
    lemma_front(parts, bar);
    let text = (if s.message_count is Some || s.total_message_sent is Some {
        let n = if s.message_count is Some { s.message_count->0 } else { s.total_message_sent->0 };
        decimal(n as nat) + (if n == 1 {
            " message · "@
        } else {
            " messages · "@
        })
    } else {
        seq![]
    }) + (if s.archived == Some(true) {
        "archived · "@
    } else {
        seq![]
    }) + (if s.locked == Some(true) {
        "locked · "@
    } else {
        seq![]
    }) + last;
    if n > 1 {
        lemma_front(parts.skip(1), bar);
        assert(parts.skip(1)[0] == parts[1]);
    }
    if n > 2 {
        lemma_front(parts.skip(2), bar);
        assert(parts.skip(1).skip(1) =~= parts.skip(2));
        assert(parts.skip(2)[0] == parts[2]);
    }
    if n > 3 {
        lemma_front(parts.skip(3), bar);
        assert(parts.skip(2).skip(1) =~= parts.skip(3));
        assert(parts.skip(3)[0] == parts[3]);
    }
    if n == 2 {
        assert(parts.skip(1).len() == 1);
    }
    if n == 3 {
        assert(parts.skip(1).skip(1) =~= parts.skip(2));
    }
    assert(join_with(parts, bar) =~= text);
}

proof fn lemma_front(parts: Seq<Seq<char>>, sep: Seq<char>)
    requires
        parts.len() > 0,
    ensures
        parts.len() == 1 ==> join_with(parts, sep) == parts[0],
        parts.len() > 1 ==> join_with(parts, sep) == parts[0] + sep + join_with(parts.skip(1), sep),
    decreases parts.len(),
{
    if parts.len() > 2 {
        lemma_front(parts.drop_last(), sep);
        assert(parts.drop_last().skip(1) =~= parts.skip(1).drop_last());
        assert(parts[0] + sep + join_with(parts.skip(1).drop_last(), sep) + sep + parts.last() =~= parts[0] + sep + (
        join_with(parts.skip(1).drop_last(), sep) + sep + parts.last()));
    } else if parts.len() == 2 {
        assert(parts.drop_last() =~= seq![parts[0]]);
        assert(parts.skip(1) =~= seq![parts[1]]);
        reveal_with_fuel(join_with, 2);
    }
}

// ---- Whole messages ----

/// Every reaction to a message that someone gave has its chip below the message.
pub proof fn messages_show_their_reactions(how: Rendering, m: MessageState, p: MessageParts) -> (places: Seq<ChipPlace>)
    requires
        how.is_made_of(m, p),
        p.system_lines is None,
    ensures
        places.len() == m.reactions@.len(),
        forall|i: int|
            0 <= i < places.len() && m.reactions@[i].count > 0 ==> 0 <= (#[trigger] places[i]).row < p.reactions().len()
                && contains_text(p.reactions()[places[i].row].text, chip_text(m.reactions@[i])),
{
    assert(m.reactions@.len() == m.reactions.len());
    let places = every_reaction_has_its_chip(m.reactions@, how.width);
    let rows = crate::message::reactions::reaction_rows(m.reactions@, how.width);
    assert forall|i: int| 0 <= i < places.len() && m.reactions@[i].count > 0 implies 0 <= (#[trigger] places[i]).row
        < p.reactions().len() && contains_text(p.reactions()[places[i].row].text, chip_text(m.reactions@[i])) by {
        let (place, text) = (places[i], chip_text(m.reactions@[i]));
        let row = rows[place.row];
        assert(p.reactions()[place.row].text == row);
        assert(row.skip(place.at).take(text.len() as int) =~= row.subrange(place.at, place.at + text.len()));
        assert(crate::text::starts_with(row.skip(place.at), text));
    }
    places
}

/// The parts of a message are those that it has: its embeds, components and attachments, its mark as edited, and
/// whether it replies, polls, forwards or says something.
pub proof fn parts_are_those_of_the_message(how: Rendering, m: MessageState, p: MessageParts)
    requires
        how.is_made_of(m, p),
    ensures
        p.edited == m.edited,
        p.embeds@ == m.embeds@ && p.components@ == m.components@ && p.attachments@ == m.attachments@,
        p.attachment_summaries@.len() == m.attachments@.len(),
        forall|i: int|
            0 <= i < m.attachments@.len() ==> contains_text(
                (#[trigger] p.attachment_summaries@[i])@,
                m.attachments@[i].filename@,
            ),
        m.reply is Some <==> p.reply_line is Some,
        m.poll is Some <==> p.poll_lines is Some,
        m.forwarded is Some <==> p.forwarded_lines is Some,
        p.command_line == m.command_line,
        m.content matches Some(c) ==> c@.len() > 0 ==> p.body is Some,
        m.stickers@.len() > 0 ==> p.body is Some,
        m.kind.regular <==> p.kind_line is None,
{
    let all = m.attachments@.map_values(|a: AttachmentInfo| crate::message::attachments::attachment_text(a));
    assert(crate::text::texts(p.attachment_summaries@).len() == p.attachment_summaries@.len());
    assert forall|i: int| 0 <= i < m.attachments@.len() implies contains_text(
        (#[trigger] p.attachment_summaries@[i])@,
        m.attachments@[i].filename@,
    ) by {
        let a = m.attachments@[i];
        let text = p.attachment_summaries@[i]@;
        assert(crate::text::texts(p.attachment_summaries@)[i] == text);
        assert(all[i] == text);
        let n = ("["@ + crate::message::attachments::attachment_kind(a) + ": "@).len() as int;
        assert(text.skip(n).take(a.filename@.len() as int) =~= a.filename@);
        assert(crate::text::starts_with(text.skip(n), a.filename@));
    }
}

} // verus!
