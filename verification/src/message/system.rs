//! Messages that tell of something that happened, and messages forwarded from elsewhere.
use crate::message::attachments::{attachment_summary, format_attachment_summary};
use crate::message::components::AttachmentInfo;
use crate::message::embed::{are_embed_lines, format_embed_lines, EmbedFormatContext, EmbedInfo, Preparation};
use crate::message::line::{
    lemma_line_views_add, lemma_line_views_push, line_views, styled_line, LineView, MessageContentLine,
};
use crate::message::poll::{counted_votes, format_poll_result_lines, line_in, result_lines, PollInfo};
use crate::message::rendered::RenderedText;
use crate::message::rich::{prefix_message_content_line_without_underline, prefixed_line_styled};
use crate::message::styled::{content_lines, wrap_rendered_text_lines};
use crate::style::{Style, Theme, UNDERLINED};
use crate::text::{
    byte_slice, chars_of, decimal, decimal_string, find_char, first_index, is_boundary, join_strings, join_with,
    lemma_boundary_ends, on_boundary, slice_bytes, string_of, texts, truncate_text,
};
use crate::state::model::ThreadSummary;
use vstd::prelude::*;
use vstd::string::*;

verus! {

/// What is known of a kind of message: its number, whether it is an ordinary one, and what it is
/// called.
#[derive(Debug, PartialEq, Eq)]
pub struct MessageKind {
    pub code: u8,
    pub regular: bool,
    pub known_label: Option<String>,
}

/// What is said of messages of an unusual kind.
pub open spec fn kind_label(kind: MessageKind) -> Seq<char> {
    if kind.code == 7 {
        "joined the server"@
    } else if kind.code == 19 {
        "↳ Reply"@
    } else {
        match kind.known_label {
            Some(label) => label@,
            None => "<unsupported message type>"@,
        }
    }
}

pub fn format_message_kind_line(kind: &MessageKind, theme: &Theme) -> (r: Option<MessageContentLine>)
    ensures
        r is None <==> kind.regular,
        r matches Some(line) ==> line@ == styled_line(kind_label(*kind), theme.message_secondary, seq![]),
{
    if kind.regular {
        return None;
    }
    let label = if kind.code == 7 {
        "joined the server".to_owned()
    } else if kind.code == 19 {
        "↳ Reply".to_owned()
    } else {
        match &kind.known_label {
            Some(label) => label.clone(),
            None => "<unsupported message type>".to_owned(),
        }
    };
    Some(MessageContentLine::dim(label, theme))
}

/// The number of messages in a thread, as far as it is known.
pub open spec fn thread_count(s: ThreadSummary) -> Option<u64> {
    if s.message_count is Some {
        s.message_count
    } else {
        s.total_message_sent
    }
}

/// What is told of a thread, from left to right.
pub open spec fn summary_parts(s: ThreadSummary) -> Seq<Seq<char>> {
    let count = match thread_count(s) {
        Some(n) => seq![decimal(n as nat) + " "@ + (if n == 1 {
            "message"@
        } else {
            "messages"@
        })],
        None => seq![],
    };
    let archived = if s.archived == Some(true) { seq!["archived"@] } else { seq![] };
    let locked = if s.locked == Some(true) { seq!["locked"@] } else { seq![] };
    count + archived + locked + seq!["Open thread to view messages"@]
}

pub open spec fn summary_line(s: ThreadSummary, width: usize, theme: Theme) -> LineView {
    line_in(join_with(summary_parts(s), " · "@), width, theme.message_secondary)
}

fn push_text(parts: &mut Vec<String>, text: String)
    ensures
        texts(final(parts)@) == texts(old(parts)@).push(text@),
{
    proof {
        assert(texts(parts@.push(text)) =~= texts(parts@).push(text@));
    }
    parts.push(text);
}

pub fn format_thread_summary_line(summary: &ThreadSummary, width: usize, theme: &Theme) -> (r: MessageContentLine)
    ensures
        r@ == summary_line(*summary, width, *theme),
{
    let mut parts: Vec<String> = Vec::new();
    assert(texts(parts@) =~= Seq::<Seq<char>>::empty());
    let count = if summary.message_count.is_some() {
        summary.message_count
    } else {
        summary.total_message_sent
    };
    if let Some(n) = count {
        let mut text = decimal_string(n);
        text.append(" ");
        text.append(
            if n == 1 {
                "message"
            } else {
                "messages"
            },
        );
        push_text(&mut parts, text);
    }
    if let Some(archived) = summary.archived {
        if archived {
            push_text(&mut parts, "archived".to_owned());
        }
    }
    if let Some(locked) = summary.locked {
        if locked {
            push_text(&mut parts, "locked".to_owned());
        }
    }
    push_text(&mut parts, "Open thread to view messages".to_owned());
    assert(texts(parts@) =~= summary_parts(*summary));
    let joined = join_strings(&parts, " · ");
    MessageContentLine::styled_text(truncate_text(joined.as_str(), width), theme.message_secondary, Vec::new())
}

/// The name of a thread: its own, or what the message says, or just that it is one.
pub open spec fn thread_name(summary: Option<ThreadSummary>, content: Option<String>) -> Seq<char> {
    match (summary, content) {
        (Some(s), _) => s.name@,
        (None, Some(c)) => if c@.len() > 0 {
            c@
        } else {
            "thread"@
        },
        (None, None) => "thread"@,
    }
}

pub open spec fn thread_created_lines(
    author: Seq<char>,
    content: Option<String>,
    summary: Option<ThreadSummary>,
    width: usize,
    theme: Theme,
) -> Seq<LineView> {
    seq![
        line_in(author + " started a thread"@, width, theme.accent),
        line_in("# "@ + thread_name(summary, content), width, Style::none()),
        match summary {
            Some(s) => summary_line(s, width, theme),
            None => line_in("Thread details unavailable"@, width, theme.message_secondary),
        },
    ]
}

fn push_line(lines: &mut Vec<MessageContentLine>, line: MessageContentLine)
    ensures
        line_views(final(lines)@) == line_views(old(lines)@).push(line@),
{
    proof {
        lemma_line_views_push(lines@, line);
    }
    lines.push(line);
}

fn truncated_line(text: &str, width: usize, style: Style) -> (r: MessageContentLine)
    ensures
        r@ == line_in(text@, width, style),
{
    MessageContentLine::styled_text(truncate_text(text, width), style, Vec::new())
}

pub fn format_thread_created_lines(
    author: &str,
    content: &Option<String>,
    summary: &Option<ThreadSummary>,
    width: usize,
    theme: &Theme,
) -> (r: Vec<MessageContentLine>)
    ensures
        line_views(r@) == thread_created_lines(author@, *content, *summary, width, *theme),
{
    let mut lines: Vec<MessageContentLine> = Vec::new();
    assert(line_views(lines@) =~= Seq::<LineView>::empty());
    let mut title = author.to_owned();
    title.append(" started a thread");
    push_line(&mut lines, truncated_line(title.as_str(), width, theme.accent));
    let name = match summary {
        Some(s) => s.name.clone(),
        None => match content {
            Some(c) => if c.as_str().is_empty() {
                "thread".to_owned()
            } else {
                c.clone()
            },
            None => "thread".to_owned(),
        },
    };
    let mut heading = "# ".to_owned();
    heading.append(name.as_str());
    push_line(&mut lines, truncated_line(heading.as_str(), width, Style::plain()));
    match summary {
        Some(s) => {
            push_line(&mut lines, format_thread_summary_line(s, width, theme));
        },
        None => {
            push_line(&mut lines, truncated_line("Thread details unavailable", width, theme.message_secondary));
        },
    }
    assert(line_views(lines@) =~= thread_created_lines(author@, *content, *summary, width, *theme));
    lines
}

/// The lines of the message that a thread started from. `reply` is the line of that message.
pub open spec fn thread_starter_lines(reply: Option<LineView>, width: usize, theme: Theme) -> Seq<LineView> {
    seq![
        line_in("Thread starter message"@, width, theme.accent),
        match reply {
            Some(line) => line,
            None => line_in("Started from an unavailable message"@, width, theme.message_secondary),
        },
    ]
}

pub open spec fn opt_line(l: Option<MessageContentLine>) -> Option<LineView> {
    match l {
        Some(l) => Some(l@),
        None => None,
    }
}

pub fn format_thread_starter_lines(reply: Option<MessageContentLine>, width: usize, theme: &Theme) -> (r: Vec<
    MessageContentLine,
>)
    ensures
        line_views(r@) == thread_starter_lines(opt_line(reply), width, *theme),
{
    let mut lines: Vec<MessageContentLine> = Vec::new();
    assert(line_views(lines@) =~= Seq::<LineView>::empty());
    push_line(&mut lines, truncated_line("Thread starter message", width, theme.accent));
    let ghost expected = thread_starter_lines(opt_line(reply), width, *theme);
    match reply {
        Some(line) => {
            push_line(&mut lines, line);
        },
        None => {
            push_line(
                &mut lines,
                truncated_line("Started from an unavailable message", width, theme.message_secondary),
            );
        },
    }
    assert(line_views(lines@) =~= expected);
    lines
}

/// What a system message is about.
pub struct SystemMessage {
    pub code: u8,
    pub author: String,
    pub content: Option<String>,
    pub thread: Option<ThreadSummary>,
    pub reply_line: Option<MessageContentLine>,
    pub poll: Option<PollInfo>,
}

/// The lines of a system message; other messages have none.
pub open spec fn system_lines(m: SystemMessage, width: usize, theme: Theme) -> Option<Seq<LineView>> {
    if m.code == 8 {
        Some(seq![line_in(m.author@ + " boosted the server"@, width, theme.accent)])
    } else if 9 <= m.code <= 11 {
        Some(
            seq![
                line_in(
                    m.author@ + " boosted the server to Level "@ + decimal((m.code - 8) as nat),
                    width,
                    theme.accent,
                ),
            ],
        )
    } else if m.code == 18 {
        Some(thread_created_lines(m.author@, m.content, m.thread, width, theme))
    } else if m.code == 21 {
        Some(thread_starter_lines(opt_line(m.reply_line), width, theme))
    } else if m.code == 46 {
        Some(result_lines(m.poll, width, theme))
    } else {
        None
    }
}

pub fn format_system_message_lines(message: SystemMessage, width: usize, theme: &Theme) -> (r: Option<
    Vec<MessageContentLine>,
>)
    requires
        message.poll matches Some(p) ==> counted_votes(p.answers@) <= u64::MAX,
    ensures
        match r {
            Some(lines) => system_lines(message, width, *theme) == Some(line_views(lines@)),
            None => system_lines(message, width, *theme) is None,
        },
{
    match message.code {
        8 => {
            let mut text = message.author;
            text.append(" boosted the server");
            let mut lines: Vec<MessageContentLine> = Vec::new();
            lines.push(truncated_line(text.as_str(), width, theme.accent));
            assert(line_views(lines@) =~= seq![line_in(text@, width, theme.accent)]);
            Some(lines)
        },
        9..=11 => {
            let tier = decimal_string((message.code - 8) as u64);
            let mut text = message.author;
            text.append(" boosted the server to Level ");
            text.append(tier.as_str());
            let mut lines: Vec<MessageContentLine> = Vec::new();
            lines.push(truncated_line(text.as_str(), width, theme.accent));
            assert(line_views(lines@) =~= seq![line_in(text@, width, theme.accent)]);
            Some(lines)
        },
        18 => Some(
            format_thread_created_lines(message.author.as_str(), &message.content, &message.thread, width, theme),
        ),
        21 => Some(format_thread_starter_lines(message.reply_line, width, theme)),
        46 => Some(format_poll_result_lines(&message.poll, width, theme)),
        _ => None,
    }
}

// ---- Forwarded messages ----

/// The time of day in a timestamp: the five bytes behind the `T`, where there are such.
pub open spec fn forwarded_time(timestamp: Seq<char>) -> Seq<char> {
    let t = first_index(timestamp, 'T');
    let time = timestamp.skip(t + 1);
    if 0 <= t < timestamp.len() && on_boundary(time, 5) {
        byte_slice(time, 0, 5)
    } else {
        timestamp
    }
}

pub fn format_forwarded_time(timestamp: &str) -> (r: String)
    ensures
        r@ == forwarded_time(timestamp@),
{
    let v = chars_of(timestamp);
    assert(v@.skip(0) =~= timestamp@);
    let t: usize = find_char(&v, 0, 'T');
    if t < v.len() {
        let time = string_of(&v, t + 1, v.len());
        assert(time@ =~= timestamp@.skip(t + 1));
        if is_boundary(time.as_str(), 5) {
            proof {
                lemma_boundary_ends(time@);
            }
            return slice_bytes(time.as_str(), 0, 5);
        }
    }
    timestamp.to_owned()
}

/// A message as it was when it was forwarded. `rendered` is its content with the mentions rendered,
/// and `source_channel` the label of the channel that it comes from.
pub struct MessageSnapshotInfo {
    pub content: Option<String>,
    pub rendered: Option<RenderedText>,
    pub links: Vec<(usize, usize)>,
    pub attachments: Vec<AttachmentInfo>,
    pub embeds: Vec<EmbedInfo>,
    pub source_channel: Option<String>,
    pub timestamp: Option<String>,
}

impl MessageSnapshotInfo {
    /// Content that is there and not empty is rendered.
    pub open spec fn wf(self) -> bool {
        self.rendered is Some <==> (self.content matches Some(c) && c@.len() > 0)
    }
}

/// The width beside the bar of forwarded messages.
pub open spec fn forwarded_width(width: usize) -> usize {
    if width > 2 {
        (width - 2) as usize
    } else {
        1
    }
}

/// Lines with the bar of forwarded messages on their left.
pub open spec fn with_bar(lines: Seq<LineView>) -> Seq<LineView> {
    lines.map_values(|l: LineView| prefixed_line_styled("│ "@, l.style.without_modifier(UNDERLINED), l))
}

fn add_bar(lines: Vec<MessageContentLine>) -> (r: Vec<MessageContentLine>)
    ensures
        line_views(r@) == with_bar(line_views(lines@)),
{
    let ghost all = lines@;
    let ghost expected = with_bar(line_views(all));
    let mut out: Vec<MessageContentLine> = Vec::new();
    assert(line_views(out@) =~= expected.take(0));
    for line in it: lines
        invariant
            it.seq() == all,
            expected == with_bar(line_views(all)),
            line_views(out@) == expected.take(it.index()),
    {
        let prefixed = prefix_message_content_line_without_underline("│ ", line);
        proof {
            assert(line_views(all)[it.index()] == line@);
            assert(expected[it.index()] == prefixed@);
            lemma_line_views_push(out@, prefixed);
            assert(expected.take(it.index() + 1) =~= expected.take(it.index()).push(prefixed@));
        }
        out.push(prefixed);
    }
    assert(expected.take(all.len() as int) =~= expected);
    out
}

pub open spec fn snapshot_content(s: MessageSnapshotInfo, width: usize) -> Seq<LineView> {
    match s.rendered {
        Some(r) => with_bar(content_lines(r@, s.links@, forwarded_width(width), Style::none(), seq![])),
        None => seq![],
    }
}

pub open spec fn snapshot_attachments(s: MessageSnapshotInfo, width: usize, theme: Theme) -> Seq<LineView> {
    if s.attachments@.len() == 0 {
        seq![]
    } else {
        seq![line_in("│ "@ + attachment_summary(s.attachments@), width, theme.accent)]
    }
}

/// Where and when a forwarded message was written, as far as it is known.
pub open spec fn snapshot_origin(s: MessageSnapshotInfo) -> Seq<Seq<char>> {
    let channel = match s.source_channel {
        Some(label) => seq![label@],
        None => seq![],
    };
    let time = match s.timestamp {
        Some(t) => seq![forwarded_time(t@)],
        None => seq![],
    };
    channel + time
}

/// The lines of a forwarded message, given those of its embeds.
pub open spec fn snapshot_lines(s: MessageSnapshotInfo, embeds: Seq<LineView>, width: usize, theme: Theme) -> Seq<
    LineView,
> {
    let inside = snapshot_content(s, width) + snapshot_attachments(s, width, theme) + with_bar(embeds);
    let shown = if inside.len() == 0 {
        seq![styled_line("│ <empty message>"@, Style::none(), seq![])]
    } else {
        inside
    };
    let origin = if snapshot_origin(s).len() == 0 {
        seq![]
    } else {
        seq![line_in("│ "@ + join_with(snapshot_origin(s), " · "@), width, theme.message_secondary)]
    };
    seq![styled_line("↱ Forwarded"@, Style::none(), seq![])] + shown + origin
}

/// Whether these are the lines of a forwarded message.
pub open spec fn is_snapshot_lines(
    lines: Seq<LineView>,
    s: MessageSnapshotInfo,
    how: Preparation,
    width: usize,
) -> bool {
    exists|embeds: Seq<LineView>| #[trigger]
        are_embed_lines(embeds, s.embeds@, s.content, how, forwarded_width(width)) && lines == snapshot_lines(
            s,
            embeds,
            width,
            how.options.theme,
        )
}

/// Formats a forwarded message.
pub fn format_forwarded_snapshot(snapshot: MessageSnapshotInfo, context: &EmbedFormatContext<'_>, width: usize) -> (r:
    Vec<MessageContentLine>)
    requires
        snapshot.wf(),
    ensures
        is_snapshot_lines(line_views(r@), snapshot, context.value(), width),
{
    let theme = &context.options.theme;
    let inner: usize = if width > 2 { width - 2 } else { 1 };
    let mut lines: Vec<MessageContentLine> = Vec::new();
    assert(line_views(lines@) =~= Seq::<LineView>::empty());
    push_line(&mut lines, MessageContentLine::plain("↱ Forwarded".to_owned()));
    let ghost head = line_views(lines@);
    let ghost title = styled_line("↱ Forwarded"@, Style::none(), seq![]);
    assert(head =~= seq![title]);
    let ghost content = snapshot_content(snapshot, width);
    let ghost attachments = snapshot_attachments(snapshot, width, *theme);
    assert(head + Seq::<LineView>::empty() =~= head);
    if let Some(rendered) = snapshot.rendered {
        let wrapped = wrap_rendered_text_lines(rendered, snapshot.links.as_slice(), inner, Style::plain());
        let mut barred = add_bar(wrapped);
        proof {
            lemma_line_views_add(lines@, barred@);
        }
        lines.append(&mut barred);
    }
    assert(line_views(lines@) == head + content);
    assert(head + content + Seq::<LineView>::empty() =~= head + content);
    if snapshot.attachments.len() > 0 {
        let mut text = "│ ".to_owned();
        let summary = format_attachment_summary(&snapshot.attachments);
        text.append(summary.as_str());
        push_line(&mut lines, truncated_line(text.as_str(), width, theme.accent));
        assert(line_views(lines@) =~= head + content + attachments);
    }
    assert(line_views(lines@) == head + content + attachments);
    let formatted = format_embed_lines(&snapshot.embeds, &snapshot.content, context, inner);
    let ghost shown_embeds = line_views(formatted@);
    let ghost embeds = with_bar(shown_embeds);
    assert(are_embed_lines(
        shown_embeds,
        snapshot.embeds@,
        snapshot.content,
        context.value(),
        forwarded_width(width),
    ));
    let mut barred = add_bar(formatted);
    proof {
        lemma_line_views_add(lines@, barred@);
    }
    lines.append(&mut barred);
    let ghost inside = content + attachments + embeds;
    assert(line_views(lines@) =~= head + inside);
    assert(line_views(lines@).len() == lines@.len());
    if lines.len() == 1 {
        assert(inside.len() == 0);
        push_line(&mut lines, MessageContentLine::plain("│ <empty message>".to_owned()));
    }
    let ghost shown = if inside.len() == 0 {
        seq![styled_line("│ <empty message>"@, Style::none(), seq![])]
    } else {
        inside
    };
    assert(line_views(lines@) =~= head + shown);
    let mut metadata: Vec<String> = Vec::new();
    assert(texts(metadata@) =~= Seq::<Seq<char>>::empty());
    if let Some(label) = &snapshot.source_channel {
        push_text(&mut metadata, label.clone());
    }
    if let Some(timestamp) = &snapshot.timestamp {
        push_text(&mut metadata, format_forwarded_time(timestamp.as_str()));
    }
    assert(texts(metadata@) =~= snapshot_origin(snapshot));
    assert(texts(metadata@).len() == metadata@.len());
    if metadata.len() > 0 {
        let mut text = "│ ".to_owned();
        let joined = join_strings(&metadata, " · ");
        text.append(joined.as_str());
        push_line(&mut lines, truncated_line(text.as_str(), width, theme.message_secondary));
    }
    assert(line_views(lines@) =~= snapshot_lines(snapshot, shown_embeds, width, *theme));
    lines
}

} // verus!
