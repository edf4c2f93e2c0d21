//! From a message, as the service tells it, to its lines.
//!
//! Mentions and markdown are rendered elsewhere: [`MessageTexts`] holds the texts in which there are such, with the
//! times of embeds and components told, and a text that is not in it is shown as it is.

use crate::message::attachments::{attachment_text, format_attachment};
use crate::message::components::{
    clone_line, format_text, text_lines, AttachmentInfo, MessageComponentInfo, RenderedBlock,
};
use crate::message::embed::{
    look_up, no_embeds_no_lines, prepared, EmbedFormatContext, EmbedInfo, Preparation, PreparedText,
};
use crate::message::emoji::{standalone, url_of, EmojiUrl};
use crate::message::line::{line_views, styled_line, LineView, MessageContentLine};
use crate::message::options::FormatOptions;
use crate::message::placeholder::{rendered_text_with_loaded_custom_emoji_placeholders, with_placeholders};
use crate::message::poll::{counted_votes, format_poll_lines, poll_lines, PollContent, PollInfo};
use crate::message::reactions::{format_reaction_lines, reaction_rows, ReactionInfo};
use crate::message::sections::{
    display_text, display_text_with_stickers, format_parts_lines, format_reply_line, reply_content, reply_line,
    reply_text, sticker_label, MessageBody, MessageParts,
};
use crate::message::system::{
    format_forwarded_snapshot, format_message_kind_line, format_system_message_lines, kind_label, opt_line,
    is_snapshot_lines, system_lines, MessageKind, MessageSnapshotInfo, SystemMessage,
};
use crate::message::rendered::RenderedView;
use crate::message::rich::with_links;
use crate::message::time::TimeFormat;
use crate::message::wrap::{wrap_line, wrap_source_lines, wrapped_with_metadata};
use crate::message::wrap_words::plain_text_that_fits_is_one_line;
use crate::state::model::ThreadSummary;
use crate::style::Theme;
use crate::text::{byte_slice, lemma_boundary_ends, lemma_first_index_is, split_on, texts, utf8_len};
use crate::unicode::{graphemes, is_plain, is_space, singles};
use vstd::prelude::*;
use vstd::string::*;

verus! {

/// The message that is replied to.
#[derive(Debug, PartialEq, Eq)]
pub struct ReplyInfo {
    pub author: String,
    pub content: Option<String>,
    pub stickers: Vec<String>,
}

/// A message that was forwarded.
#[derive(Debug, PartialEq, Eq)]
pub struct ForwardedInfo {
    pub content: Option<String>,
    pub attachments: Vec<AttachmentInfo>,
    pub embeds: Vec<EmbedInfo>,
    pub source_channel: Option<String>,
    pub timestamp: Option<String>,
}

/// A message. Of its stickers the names are known, and of the command that it answers the line.
pub struct MessageState {
    pub author: String,
    pub kind: MessageKind,
    pub content: Option<String>,
    pub stickers: Vec<String>,
    pub edited: bool,
    pub is_components_v2: bool,
    pub command_line: Option<MessageContentLine>,
    pub reply: Option<ReplyInfo>,
    pub poll: Option<PollInfo>,
    pub thread: Option<ThreadSummary>,
    pub embeds: Vec<EmbedInfo>,
    pub components: Vec<MessageComponentInfo>,
    pub attachments: Vec<AttachmentInfo>,
    pub forwarded: Option<ForwardedInfo>,
    pub reactions: Vec<ReactionInfo>,
}

impl MessageState {
    /// The votes of its poll can be counted.
    pub open spec fn wf(self) -> bool {
        self.poll matches Some(p) ==> counted_votes(p.answers@) <= u64::MAX
    }
}

/// The texts with mentions, emoji markup or links; the texts of embeds with emoji markup or links, in which no one
/// is mentioned; and the texts with markdown.
pub struct MessageTexts {
    pub prepared: Vec<PreparedText>,
    pub markup: Vec<PreparedText>,
    pub blocks: Vec<RenderedBlock>,
}

/// What the lines of a message depend on besides it.
pub struct Rendering {
    pub prepared: Seq<PreparedText>,
    pub markup: Seq<PreparedText>,
    pub blocks: Seq<RenderedBlock>,
    pub options: FormatOptions,
    pub loaded: Seq<Seq<char>>,
    pub time: TimeFormat,
    pub width: usize,
}

impl Rendering {
    pub open spec fn preparation(self) -> Preparation {
        Preparation {
            markup: self.markup,
            loaded: self.loaded,
            options: self.options,
            time: self.time,
        }
    }

    /// A text with its mentions and emoji markup rendered, and room for the images that are loaded.
    pub open spec fn with_images(self, text: Seq<char>) -> RenderedView {
        with_placeholders(prepared(self.prepared, text).rendered, self.loaded, self.options.compact_emoji_width)
    }

    /// The line of the message that is replied to.
    pub open spec fn reply(self, reply: Option<ReplyInfo>) -> Option<LineView> {
        match reply {
            Some(r) => Some(
                reply_line(
                    r.author@,
                    prepared(self.prepared, reply_text(r.content, r.stickers@)).rendered,
                    self.width,
                    self.options.theme,
                ),
            ),
            None => None,
        }
    }

    /// Whether something is what a system message is about.
    pub open spec fn is_system(self, s: SystemMessage, m: MessageState) -> bool {
        &&& s.code == m.kind.code
        &&& s.author@ == m.author@
        &&& s.content == m.content
        &&& s.thread == m.thread
        &&& s.poll == m.poll
        &&& opt_line(s.reply_line) == self.reply(m.reply)
    }

    /// Whether something is the text in the card of a poll.
    pub open spec fn is_poll_content(self, c: Option<PollContent>, m: MessageState) -> bool {
        match display_text(m.content, m.stickers@) {
            Some(text) => c matches Some(c) && c.rendered@ == self.with_images(text) && c.links@ == prepared(
                self.prepared,
                text,
            ).links,
            None => c is None,
        }
    }

    /// Whether something is the text of a message.
    pub open spec fn is_body(self, b: Option<MessageBody>, m: MessageState) -> bool {
        match display_text(m.content, m.stickers@) {
            Some(text) => b matches Some(b) && b.rendered@ == prepared(self.prepared, text).rendered && line_views(
                b.markdown_lines@,
            ) == text_lines(self.blocks, text, self.width, self.options.theme.message_body),
            None => b is None,
        }
    }

    /// Whether something is a forwarded message with its texts.
    pub open spec fn is_snapshot(self, s: MessageSnapshotInfo, f: ForwardedInfo) -> bool {
        &&& s.wf()
        &&& s.content == f.content
        &&& s.attachments == f.attachments
        &&& s.embeds == f.embeds
        &&& s.source_channel == f.source_channel
        &&& s.timestamp == f.timestamp
        &&& s.rendered matches Some(rendered) ==> rendered@ == self.with_images((f.content->0)@) && s.links@ == prepared(
            self.prepared,
            (f.content->0)@,
        ).links
    }

    /// Whether a message is made of these parts.
    pub open spec fn is_made_of(self, m: MessageState, p: MessageParts) -> bool {
        let theme = self.options.theme;
        &&& p.content_known == (m.content is Some)
        &&& p.edited == m.edited
        &&& p.is_components_v2 == m.is_components_v2
        &&& exists|s: SystemMessage|
            self.is_system(s, m) && #[trigger] system_lines(s, self.width, theme) == opt_lines(p.system_lines)
        &&& p.command_line == m.command_line
        &&& opt_line(p.reply_line) == self.reply(m.reply)
        &&& m.poll is None ==> p.poll_lines is None
        &&& m.poll matches Some(poll) ==> exists|c: Option<PollContent>|
            self.is_poll_content(c, m) && Some(#[trigger] poll_lines(poll, c, self.width, theme)) == opt_lines(
                p.poll_lines,
            )
        &&& opt_line(p.kind_line) == (if m.kind.regular {
            None
        } else {
            Some(styled_line(kind_label(m.kind), theme.message_secondary, seq![]))
        })
        &&& self.is_body(p.body, m)
        &&& p.content == m.content
        &&& p.embeds == m.embeds
        &&& p.markup@ == self.markup
        &&& p.components == m.components
        &&& p.component_texts@ == self.blocks
        &&& p.attachments == m.attachments
        &&& texts(p.attachment_summaries@) == m.attachments@.map_values(|a: AttachmentInfo| attachment_text(a))
        &&& m.forwarded is None ==> p.forwarded_lines is None
        &&& m.forwarded matches Some(f) ==> p.forwarded_lines is Some && exists|s: MessageSnapshotInfo| #[trigger]
            self.is_snapshot(s, f) && is_snapshot_lines(
                line_views((p.forwarded_lines->0)@),
                s,
                self.preparation(),
                self.width,
            )
        &&& line_views(p.reaction_lines@) == reaction_rows(m.reactions@, self.width).map_values(
            |t: Seq<char>| styled_line(t, theme.accent, seq![]),
        )
    }
}

pub open spec fn opt_lines(lines: Option<Vec<MessageContentLine>>) -> Option<Seq<LineView>> {
    match lines {
        Some(lines) => Some(line_views(lines@)),
        None => None,
    }
}

fn copy_text(text: &Option<String>) -> (r: Option<String>)
    ensures
        r == *text,
{
    match text {
        Some(text) => Some(text.clone()),
        None => None,
    }
}

fn message_reply_line(reply: &Option<ReplyInfo>, prepared_texts: &[PreparedText], width: usize, theme: &Theme) -> (r:
    Option<MessageContentLine>)
    ensures
        opt_line(r) == (match *reply {
            Some(reply) => Some(
                reply_line(
                    reply.author@,
                    prepared(prepared_texts@, reply_text(reply.content, reply.stickers@)).rendered,
                    width,
                    *theme,
                ),
            ),
            None => None,
        }),
{
    match reply {
        Some(reply) => {
            let text = reply_content(&reply.content, &reply.stickers);
            let (rendered, _) = look_up(prepared_texts, text.as_str());
            Some(format_reply_line(reply.author.as_str(), rendered, width, theme))
        },
        None => None,
    }
}

fn attachment_summaries(attachments: &Vec<AttachmentInfo>) -> (r: Vec<String>)
    ensures
        texts(r@) == attachments@.map_values(|a: AttachmentInfo| attachment_text(a)),
{
    let ghost expected = attachments@.map_values(|a: AttachmentInfo| attachment_text(a));
    let mut r: Vec<String> = Vec::new();
    let mut i: usize = 0;
    assert(texts(r@) =~= expected.take(0));
    while i < attachments.len()
        invariant
            expected == attachments@.map_values(|a: AttachmentInfo| attachment_text(a)),
            i <= attachments@.len(),
            texts(r@) == expected.take(i as int),
        decreases attachments@.len() - i,
    {
        let text = format_attachment(&attachments[i]);
        proof {
            assert(texts(r@.push(text)) =~= texts(r@).push(text@));
            assert(expected.take(i + 1) =~= expected.take(i as int).push(text@));
        }
        r.push(text);
        i += 1;
    }
    assert(expected.take(i as int) =~= expected);
    r
}

fn forwarded_snapshot(
    forwarded: ForwardedInfo,
    prepared_texts: &[PreparedText],
    options: &FormatOptions,
    loaded: &[String],
    how: Ghost<Rendering>,
) -> (s: MessageSnapshotInfo)
    requires
        how@.prepared == prepared_texts@,
        how@.options == *options,
        how@.loaded == texts(loaded@),
    ensures
        how@.is_snapshot(s, forwarded),
{
    let mut rendered = None;
    let mut links: Vec<(usize, usize)> = Vec::new();
    if let Some(content) = &forwarded.content {
        if !content.as_str().is_empty() {
            let (text, found) = look_up(prepared_texts, content.as_str());
            rendered = Some(
                rendered_text_with_loaded_custom_emoji_placeholders(text, loaded, options.compact_emoji_width),
            );
            links = found;
        }
    }
    MessageSnapshotInfo {
        content: forwarded.content,
        rendered,
        links,
        attachments: forwarded.attachments,
        embeds: forwarded.embeds,
        source_channel: forwarded.source_channel,
        timestamp: forwarded.timestamp,
    }
}

/// The parts that a message is made of.
pub fn message_parts(
    message: MessageState,
    message_texts: MessageTexts,
    options: &FormatOptions,
    loaded: &[String],
    time: TimeFormat,
    width: usize,
) -> (p: MessageParts)
    requires
        message.wf(),
    ensures
        (Rendering {
            prepared: message_texts.prepared@,
        markup: message_texts.markup@,
            blocks: message_texts.blocks@,
            options: *options,
            loaded: texts(loaded@),
            time,
            width,
        }).is_made_of(message, p),
{
    let ghost m = message;
    let ghost how = Rendering {
        prepared: message_texts.prepared@,
        markup: message_texts.markup@,
        blocks: message_texts.blocks@,
        options: *options,
        loaded: texts(loaded@),
        time,
        width,
    };
    let theme = &options.theme;
    let table = message_texts.prepared.as_slice();
    let reply_line = message_reply_line(&message.reply, table, width, theme);
    let text = display_text_with_stickers(&message.content, &message.stickers);
    let mut poll_content: Option<PollContent> = None;
    let mut body: Option<MessageBody> = None;
    if let Some(text) = &text {
        let (rendered, links) = look_up(table, text.as_str());
        let rendered = rendered_text_with_loaded_custom_emoji_placeholders(
            rendered,
            loaded,
            options.compact_emoji_width,
        );
        poll_content = Some(PollContent { rendered, links });
        let (rendered, _) = look_up(table, text.as_str());
        let markdown_lines = format_text(
            message_texts.blocks.as_slice(),
            text.as_str(),
            width,
            options.theme.message_body,
        );
        body = Some(MessageBody { rendered, markdown_lines });
    }
    assert(how.is_poll_content(poll_content, m));
    assert(how.is_body(body, m));
    let ghost card = poll_content;
    let poll_lines = match &message.poll {
        Some(poll) => Some(format_poll_lines(poll, poll_content, width, theme)),
        None => None,
    };
    let kind_line = format_message_kind_line(&message.kind, theme);
    let summaries = attachment_summaries(&message.attachments);
    let forwarded_lines = match message.forwarded {
        Some(forwarded) => {
            let snapshot = forwarded_snapshot(forwarded, table, options, loaded, Ghost(how));
            let context = EmbedFormatContext { markup: message_texts.markup.as_slice(), loaded, options, time };
            let lines = format_forwarded_snapshot(snapshot, &context, width);
            assert(how.is_snapshot(snapshot, m.forwarded->0) && is_snapshot_lines(
                line_views(lines@),
                snapshot,
                how.preparation(),
                width,
            ));
            Some(lines)
        },
        None => None,
    };
    let reaction_lines = format_reaction_lines(message.reactions.as_slice(), width, theme);
    let system = SystemMessage {
        code: message.kind.code,
        author: message.author,
        content: copy_text(&message.content),
        thread: message.thread,
        reply_line: match &reply_line {
            Some(line) => Some(clone_line(line)),
            None => None,
        },
        poll: message.poll,
    };
    assert(how.is_system(system, m));
    let system_lines = format_system_message_lines(system, width, theme);
    MessageParts {
        content_known: message.content.is_some(),
        edited: message.edited,
        is_components_v2: message.is_components_v2,
        system_lines,
        command_line: message.command_line,
        reply_line,
        poll_lines,
        kind_line,
        body,
        content: message.content,
        embeds: message.embeds,
        markup: message_texts.markup,
        components: message.components,
        component_texts: message_texts.blocks,
        attachments: message.attachments,
        attachment_summaries: summaries,
        forwarded_lines,
        reaction_lines,
    }
}

/// The lines of a message, with those of the reactions below them.
pub fn format_message_content_lines(
    message: MessageState,
    message_texts: MessageTexts,
    options: &FormatOptions,
    emoji_urls: &[EmojiUrl],
    loaded: &[String],
    time: TimeFormat,
    width: usize,
) -> (r: Vec<MessageContentLine>)
    requires
        message.wf(),
        options.wf(),
    ensures
        exists|p: MessageParts, lines: Seq<LineView>| #[trigger]
            (Rendering {
                prepared: message_texts.prepared@,
        markup: message_texts.markup@,
                blocks: message_texts.blocks@,
                options: *options,
                loaded: texts(loaded@),
                time,
                width,
            }).is_made_of(message, p) && #[trigger] p.shows(
                lines,
                *options,
                emoji_urls@,
                texts(loaded@),
                time,
                width,
            ) && line_views(r@) == lines + p.reactions(),
{
    let parts = message_parts(message, message_texts, options, loaded, time, width);
    let ghost p = parts;
    let ghost how = Rendering {
        prepared: message_texts.prepared@,
        markup: message_texts.markup@,
        blocks: message_texts.blocks@,
        options: *options,
        loaded: texts(loaded@),
        time,
        width,
    };
    let r = format_parts_lines(parts, options, emoji_urls, loaded, time, width);
    proof {
        let lines = choose|lines: Seq<LineView>| #[trigger]
            p.shows(lines, *options, emoji_urls@, texts(loaded@), time, width) && line_views(r@) == lines
                + p.reactions();
        assert(how.is_made_of(message, p) && p.shows(lines, *options, emoji_urls@, texts(loaded@), time, width));
    }
    r
}

/// Whether a message is nothing but its stickers, and not of a kind of its own.
pub open spec fn is_stickers_only(m: MessageState) -> bool {
    &&& m.content is None
    &&& m.kind.regular
    &&& !(8 <= m.kind.code <= 11) && m.kind.code != 18 && m.kind.code != 21 && m.kind.code != 46
    &&& !m.edited && !m.is_components_v2
    &&& m.command_line is None && m.reply is None && m.poll is None && m.forwarded is None
    &&& m.embeds@.len() == 0 && m.components@.len() == 0 && m.attachments@.len() == 0 && m.reactions@.len() == 0
}

/// A message with nothing but a sticker shows the label of the sticker, as one line where it fits. (A bracket is no
/// emoji.)
pub proof fn a_sticker_is_shown_by_its_label(
    how: Rendering,
    m: MessageState,
    p: MessageParts,
    urls: Seq<EmojiUrl>,
    shown: Seq<LineView>,
)
    requires
        how.is_made_of(m, p),
        p.shows(shown, how.options, urls, how.loaded, how.time, how.width),
        is_stickers_only(m),
        m.stickers@.len() == 1,
        is_plain(sticker_label(m.stickers@[0]@)),
        sticker_label(m.stickers@[0]@).len() <= how.width,
        how.prepared.len() == 0,
        how.blocks.len() == 0,
        url_of(urls, seq![']']) is None,
    ensures
        shown.len() == 1,
        shown[0].text == sticker_label(m.stickers@[0]@),
        p.reactions().len() == 0,
{
    let name = m.stickers@[0]@;
    let label = sticker_label(name);
    reveal_strlit("[Sticker: ");
    let labels = m.stickers@.map_values(|n: String| sticker_label(n@));
    assert(labels =~= seq![label]);
    assert(display_text(m.content, m.stickers@) == Some(label));
    let source = split_on(label, '\n');
    assert forall|k: int| 0 <= k < label.len() implies label[k] != '\n' by {
        assert(' ' <= label[k] <= '~');
    }
    lemma_first_index_is(label, '\n', label.len() as int);
    assert(source =~= seq![label]);
    let none = Seq::<(usize, usize)>::empty();
    let r = RenderedView { text: label, highlights: seq![], emoji_slots: seq![] };
    let linked = with_links(r, none);
    plain_text_that_fits_is_one_line(label, 0, linked.highlights, how.width);
    let wrapped = wrapped_with_metadata(label, linked.highlights, seq![], how.width);
    reveal_with_fuel(wrap_source_lines, 2);
    assert(wrapped =~= wrap_line(label, 0, linked.highlights, seq![], how.width));
    let style = how.options.theme.message_body;
    let lines = text_lines(how.blocks, label, how.width, style);
    assert(lines.len() == 1);
    assert(lines[0].text == label);
    assert(standalone(r, urls) is None) by {
        reveal_strlit("]");
        reveal(graphemes);
        reveal(is_space);
        lemma_boundary_ends(label);
        assert(byte_slice(label, 0, utf8_len(label) as int) =~= label);
        let last = singles(label).last();
        assert(last =~= seq![']']);
        assert(!is_space(last[0]));
    }
    let body = p.body_lines(how.options, urls, how.loaded, how.width);
    assert(body == lines);
    assert(p.head() =~= seq![]);
    let (embeds, components) = choose|embeds: Seq<LineView>, components: Seq<LineView>| #[trigger]
        p.is_embed_part(embeds, how.options, how.loaded, how.time, how.width) && #[trigger] p.is_component_part(
            components,
            how.options,
            how.time,
            how.width,
        ) && shown == p.lines(embeds, components, how.options, urls, how.loaded, how.width);
    no_embeds_no_lines(embeds, p.embeds@, p.content, how.preparation(), how.width);
    assert(embeds =~= seq![]);
    assert(components =~= seq![]);
    assert(texts(p.attachment_summaries@).len() == 0);
    assert(p.attachment_part(how.options, how.width) =~= seq![]);
    assert(p.unmarked(embeds, components, how.options, urls, how.loaded, how.width) =~= lines);
    assert(reaction_rows(m.reactions@, how.width).len() == 0);
}

} // verus!
