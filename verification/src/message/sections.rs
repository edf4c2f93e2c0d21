//! A whole message: its parts put together to lines.

use crate::message::components::{
    all_component_lines, all_told, format_component_lines, AttachmentInfo, ComponentContext, ComponentFormatContext,
    MessageComponentInfo, RenderedBlock,
};
use crate::message::embed::{
    are_embed_lines, format_embed_lines, EmbedFormatContext, EmbedInfo, Preparation, PreparedText,
};
use crate::message::emoji::{
    append_edited_marker, append_standalone_emoji_edited_marker, emoji_rows, emojis_per_row,
    format_standalone_emoji_lines, standalone, standalone_emojis, standalone_views, with_edited_marker,
    with_emoji_edited_marker, EmojiUrl, StandaloneView,
};
use crate::message::line::{
    lemma_line_views_add, lemma_line_views_push, line_views, styled_line, LineView, MessageContentLine,
};
use crate::message::options::FormatOptions;
use crate::message::rendered::{RenderedText, RenderedView};
use crate::message::rich::{
    prepend_rendered_text, prepended, rendered_text_line, rendered_truncated, truncate_rendered_text, unwrapped_line,
};
use crate::message::time::TimeFormat;
use crate::style::{Style, Theme};
use crate::text::{join_strings, join_with, opt_text, texts, truncate_text, truncated};
use vstd::prelude::*;
use vstd::string::*;

verus! {

// ---- Stickers ----

/// The label of a sticker.
pub open spec fn sticker_label(name: Seq<char>) -> Seq<char> {
    "[Sticker: "@ + name + "]"@
}

/// The labels of stickers, if there are any.
pub open spec fn stickers_text(names: Seq<String>) -> Option<Seq<char>> {
    if names.len() == 0 {
        None
    } else {
        Some(join_with(names.map_values(|n: String| sticker_label(n@)), " "@))
    }
}

pub fn sticker_display_text(names: &Vec<String>) -> (r: Option<String>)
    ensures
        opt_text(r) == stickers_text(names@),
{
    if names.len() == 0 {
        return None;
    }
    let ghost expected = names@.map_values(|n: String| sticker_label(n@));
    let mut labels: Vec<String> = Vec::new();
    let mut i: usize = 0;
    assert(texts(labels@) =~= expected.take(0));
    while i < names.len()
        invariant
            expected == names@.map_values(|n: String| sticker_label(n@)),
            i <= names@.len(),
            texts(labels@) == expected.take(i as int),
        decreases names@.len() - i,
    {
        let mut label = "[Sticker: ".to_owned();
        label.append(names[i].as_str());
        label.append("]");
        proof {
            assert(texts(labels@.push(label)) =~= texts(labels@).push(label@));
            assert(expected[i as int] == label@);
            assert(expected.take(i + 1) =~= expected.take(i as int).push(label@));
        }
        labels.push(label);
        i += 1;
    }
    assert(expected.take(i as int) =~= expected);
    Some(join_strings(&labels, " "))
}

/// What a message says: its content and the labels of its stickers, as far as they are there.
pub open spec fn display_text(content: Option<String>, stickers: Seq<String>) -> Option<Seq<char>> {
    let said = match content {
        Some(c) => if c@.len() == 0 {
            None
        } else {
            Some(c@)
        },
        None => None,
    };
    match (said, stickers_text(stickers)) {
        (Some(content), Some(labels)) => Some(content + "\n"@ + labels),
        (Some(content), None) => Some(content),
        (None, Some(labels)) => Some(labels),
        (None, None) => None,
    }
}

pub fn display_text_with_stickers(content: &Option<String>, stickers: &Vec<String>) -> (r: Option<String>)
    ensures
        opt_text(r) == display_text(*content, stickers@),
{
    let labels = sticker_display_text(stickers);
    match content {
        Some(content) if !content.as_str().is_empty() => {
            let mut text = content.clone();
            if let Some(labels) = labels {
                text.append("\n");
                text.append(labels.as_str());
            }
            Some(text)
        },
        _ => labels,
    }
}

// ---- Replies ----

/// What is shown of the message that was replied to.
pub open spec fn reply_text(content: Option<String>, stickers: Seq<String>) -> Seq<char> {
    match display_text(content, stickers) {
        Some(text) => text,
        None => "<empty message>"@,
    }
}

pub fn reply_content(content: &Option<String>, stickers: &Vec<String>) -> (r: String)
    ensures
        r@ == reply_text(*content, stickers@),
{
    match display_text_with_stickers(content, stickers) {
        Some(text) => text,
        None => "<empty message>".to_owned(),
    }
}

pub open spec fn reply_prefix(author: Seq<char>) -> Seq<char> {
    "╭─ "@ + author + " : "@
}

/// The line above a reply. `content` is what [`reply_content`] gives, with its mentions rendered.
pub open spec fn reply_line(author: Seq<char>, content: RenderedView, width: usize, theme: Theme) -> LineView {
    unwrapped_line(
        rendered_truncated(prepended(reply_prefix(author), content), width as int),
        theme.message_secondary,
    )
}

pub fn format_reply_line(author: &str, content: RenderedText, width: usize, theme: &Theme) -> (r: MessageContentLine)
    ensures
        r@ == reply_line(author@, content@, width, *theme),
{
    let mut prefix = "╭─ ".to_owned();
    prefix.append(author);
    prefix.append(" : ");
    let content = prepend_rendered_text(prefix.as_str(), content);
    rendered_text_line(truncate_rendered_text(content, width), theme.message_secondary)
}

// ---- Messages ----

/// The text of a message with its mentions rendered, and the lines of it as markdown.
#[derive(Debug, PartialEq, Eq)]
pub struct MessageBody {
    pub rendered: RenderedText,
    pub markdown_lines: Vec<MessageContentLine>,
}

/// What a message is made of. The lines of its simpler parts are formatted already: those of a system
/// message, of the command it answers, of the message it replies to, of its poll, of its kind, of what
/// it forwards and of the reactions to it.
#[derive(Debug, PartialEq, Eq)]
pub struct MessageParts {
    pub content_known: bool,
    pub edited: bool,
    pub is_components_v2: bool,
    pub system_lines: Option<Vec<MessageContentLine>>,
    pub command_line: Option<MessageContentLine>,
    pub reply_line: Option<MessageContentLine>,
    pub poll_lines: Option<Vec<MessageContentLine>>,
    pub kind_line: Option<MessageContentLine>,
    pub body: Option<MessageBody>,
    pub content: Option<String>,
    pub embeds: Vec<EmbedInfo>,
    /// The texts with emoji markup and links.
    pub markup: Vec<PreparedText>,
    pub components: Vec<MessageComponentInfo>,
    pub component_texts: Vec<RenderedBlock>,
    pub attachments: Vec<AttachmentInfo>,
    pub attachment_summaries: Vec<String>,
    pub forwarded_lines: Option<Vec<MessageContentLine>>,
    pub reaction_lines: Vec<MessageContentLine>,
}

impl MessageParts {
    /// What stands at the top: the command, and then the message replied to, or the poll, or, where
    /// there is no command, the kind of the message.
    pub open spec fn head(self) -> Seq<LineView> {
        let command = match self.command_line {
            Some(line) => seq![line@],
            None => seq![],
        };
        let below = match (self.reply_line, self.poll_lines, self.kind_line) {
            (Some(line), _, _) => seq![line@],
            (None, Some(lines), _) => line_views(lines@),
            (None, None, Some(line)) => if self.command_line is None {
                seq![line@]
            } else {
                seq![]
            },
            (None, None, None) => seq![],
        };
        command + below
    }

    /// Whether the text stands by itself: a poll and newer components show it in their own place.
    pub open spec fn shows_body(self) -> bool {
        self.body is Some && !(self.reply_line is None && self.poll_lines is Some) && !self.is_components_v2
    }

    /// The emojis of a text that is made of them alone, if they are shown as images.
    pub open spec fn emojis(self, options: FormatOptions, urls: Seq<EmojiUrl>) -> Option<Seq<StandaloneView>> {
        if self.shows_body() && options.show_custom_emoji {
            standalone((self.body->0).rendered@, urls)
        } else {
            None
        }
    }

    pub open spec fn body_lines(self, options: FormatOptions, urls: Seq<EmojiUrl>, loaded: Seq<Seq<char>>, width: usize) -> Seq<
        LineView,
    > {
        match self.emojis(options, urls) {
            Some(emojis) => emoji_rows(
                emojis,
                emojis_per_row(width, options.standalone_emoji_width),
                options.theme.message_body,
                loaded,
                options.standalone_emoji_width,
                options.standalone_emoji_height,
            ),
            None => if self.shows_body() {
                line_views((self.body->0).markdown_lines@)
            } else {
                seq![]
            },
        }
    }

    /// Whether these are the lines of the embeds, where they are shown.
    pub open spec fn is_embed_part(
        self,
        lines: Seq<LineView>,
        options: FormatOptions,
        loaded: Seq<Seq<char>>,
        time: TimeFormat,
        width: usize,
    ) -> bool {
        if self.is_components_v2 {
            lines.len() == 0
        } else {
            are_embed_lines(
                lines,
                self.embeds@,
                self.content,
                Preparation { markup: self.markup@, loaded, options, time },
                width,
            )
        }
    }

    /// Whether these are the lines of the components, once their times are told.
    pub open spec fn is_component_part(
        self,
        lines: Seq<LineView>,
        options: FormatOptions,
        time: TimeFormat,
        width: usize,
    ) -> bool {
        exists|told: Vec<MessageComponentInfo>| #[trigger]
            all_told(self.components, told, time) && lines == all_component_lines(
                told,
                ComponentContext { attachments: self.attachments@, table: self.component_texts@, options, time },
                width,
                0,
            ).lines
    }

    pub open spec fn attachment_part(self, options: FormatOptions, width: usize) -> Seq<LineView> {
        if self.is_components_v2 {
            seq![]
        } else {
            self.attachment_summaries@.map_values(
                |s: String| styled_line(truncated(s@, width as int), options.theme.message_attachment, seq![]),
            )
        }
    }

    /// All lines but the reactions, before the marker of edited messages, given those of the embeds and of the
    /// components.
    pub open spec fn unmarked(
        self,
        embeds: Seq<LineView>,
        components: Seq<LineView>,
        options: FormatOptions,
        urls: Seq<EmojiUrl>,
        loaded: Seq<Seq<char>>,
        width: usize,
    ) -> Seq<LineView> {
        let forwarded = match self.forwarded_lines {
            Some(lines) => line_views(lines@),
            None => seq![],
        };
        let lines = self.head() + self.body_lines(options, urls, loaded, width) + embeds + components
            + self.attachment_part(options, width) + forwarded;
        if lines.len() == 0 {
            seq![
                styled_line(
                    if self.content_known {
                        "<empty message>"@
                    } else {
                        "<message content unavailable>"@
                    },
                    options.theme.message_muted,
                    seq![],
                ),
            ]
        } else {
            lines
        }
    }

    /// The lines of a message that is no system message.
    pub open spec fn lines(
        self,
        embeds: Seq<LineView>,
        components: Seq<LineView>,
        options: FormatOptions,
        urls: Seq<EmojiUrl>,
        loaded: Seq<Seq<char>>,
        width: usize,
    ) -> Seq<LineView> {
        let unmarked = self.unmarked(embeds, components, options, urls, loaded, width);
        if !self.edited {
            unmarked
        } else if self.emojis(options, urls) is Some {
            let row = self.head().len() + self.body_lines(options, urls, loaded, width).len()
                - options.standalone_emoji_height;
            with_emoji_edited_marker(unmarked, row, width, options.theme, options.standalone_emoji_height)
        } else {
            with_edited_marker(unmarked, width, options.theme)
        }
    }

    /// Whether these are the lines of a message.
    pub open spec fn shows(
        self,
        lines: Seq<LineView>,
        options: FormatOptions,
        urls: Seq<EmojiUrl>,
        loaded: Seq<Seq<char>>,
        time: TimeFormat,
        width: usize,
    ) -> bool {
        match self.system_lines {
            Some(system) => lines == line_views(system@),
            None => exists|embeds: Seq<LineView>, components: Seq<LineView>| #[trigger]
                self.is_embed_part(embeds, options, loaded, time, width) && #[trigger] self.is_component_part(
                    components,
                    options,
                    time,
                    width,
                ) && lines == self.lines(embeds, components, options, urls, loaded, width),
        }
    }

    /// The lines of the reactions; a system message shows none.
    pub open spec fn reactions(self) -> Seq<LineView> {
        if self.system_lines is Some {
            seq![]
        } else {
            line_views(self.reaction_lines@)
        }
    }
}

proof fn lemma_emoji_rows_len(
    emojis: Seq<StandaloneView>,
    per_row: int,
    style: Style,
    loaded: Seq<Seq<char>>,
    width: u16,
    height: u16,
)
    requires
        per_row >= 1,
        height > 0,
        emojis.len() > 0,
    ensures
        emoji_rows(emojis, per_row, style, loaded, width, height).len() >= height,
{
}

/// The lines of a message, and apart from them those of the reactions to it.
#[verifier::rlimit(60)]
pub fn format_message_content_sections_with_loaded_custom_emoji_urls(
    parts: MessageParts,
    options: &FormatOptions,
    emoji_urls: &[EmojiUrl],
    loaded: &[String],
    time: TimeFormat,
    width: usize,
) -> (r: (Vec<MessageContentLine>, Vec<MessageContentLine>))
    requires
        options.wf(),
    ensures
        parts.shows(line_views(r.0@), *options, emoji_urls@, texts(loaded@), time, width),
        line_views(r.1@) == parts.reactions(),
{
    let ghost urls = emoji_urls@;
    let ghost ready = texts(loaded@);
    if let Some(system_lines) = parts.system_lines {
        let none: Vec<MessageContentLine> = Vec::new();
        assert(line_views(none@) =~= Seq::<LineView>::empty());
        return (system_lines, none);
    }
    let has_command = parts.command_line.is_some();
    let shows_body = parts.body.is_some() && !(parts.reply_line.is_none() && parts.poll_lines.is_some())
        && !parts.is_components_v2;
    let mut lines: Vec<MessageContentLine> = Vec::new();
    assert(line_views(lines@) =~= Seq::<LineView>::empty());
    if let Some(line) = parts.command_line {
        lines.push(line);
        assert(line_views(lines@) =~= seq![line@]);
    }
    let ghost above = line_views(lines@);
    assert(above + Seq::<LineView>::empty() =~= above);
    if let Some(line) = parts.reply_line {
        proof {
            lemma_line_views_push(lines@, line);
            assert(above.push(line@) =~= above + seq![line@]);
        }
        lines.push(line);
    } else if let Some(poll) = parts.poll_lines {
        let mut poll = poll;
        proof {
            lemma_line_views_add(lines@, poll@);
        }
        lines.append(&mut poll);
    } else if let Some(line) = parts.kind_line {
        if !has_command {
            proof {
                lemma_line_views_push(lines@, line);
                assert(above.push(line@) =~= above + seq![line@]);
            }
            lines.push(line);
        }
    }
    let ghost head = line_views(lines@);
    assert(head == parts.head());
    assert(head + Seq::<LineView>::empty() =~= head);
    let mut emoji_row: Option<usize> = None;
    if let Some(body) = parts.body {
        if shows_body {
            let emojis = if options.show_custom_emoji {
                standalone_emojis(&body.rendered, emoji_urls)
            } else {
                None
            };
            if let Some(emojis) = emojis {
                let mut emoji_lines = format_standalone_emoji_lines(
                    &emojis,
                    width,
                    options.theme.message_body,
                    loaded,
                    options,
                );
                proof {
                    lemma_line_views_add(lines@, emoji_lines@);
                    let per_row = emojis_per_row(width, options.standalone_emoji_width);
                    if width >= options.standalone_emoji_width {
                        assert(width as int / options.standalone_emoji_width as int >= 1) by (nonlinear_arith)
                            requires
                                width >= options.standalone_emoji_width,
                                options.standalone_emoji_width > 0,
                        ;
                    }
                    lemma_emoji_rows_len(
                        standalone_views(emojis@),
                        per_row,
                        options.theme.message_body,
                        ready,
                        options.standalone_emoji_width,
                        options.standalone_emoji_height,
                    );
                    assert(line_views(emoji_lines@).len() == emoji_lines@.len());
                }
                lines.append(&mut emoji_lines);
                emoji_row = Some(lines.len() - options.standalone_emoji_height as usize);
            } else {
                let mut markdown_lines = body.markdown_lines;
                proof {
                    lemma_line_views_add(lines@, markdown_lines@);
                }
                lines.append(&mut markdown_lines);
            }
        }
    }
    let ghost with_body = line_views(lines@);
    assert(with_body == head + parts.body_lines(*options, urls, ready, width));
    assert(with_body + Seq::<LineView>::empty() =~= with_body);
    let ghost mut embeds: Seq<LineView> = Seq::empty();
    if !parts.is_components_v2 {
        let context = EmbedFormatContext { markup: parts.markup.as_slice(), loaded, options, time };
        let mut embed_lines = format_embed_lines(&parts.embeds, &parts.content, &context, width);
        proof {
            embeds = line_views(embed_lines@);
            lemma_line_views_add(lines@, embed_lines@);
        }
        lines.append(&mut embed_lines);
    }
    assert(parts.is_embed_part(embeds, *options, ready, time, width));
    let context = ComponentFormatContext {
        attachments: &parts.attachments,
        table: &parts.component_texts,
        options,
        time,
    };
    let mut next: usize = 0;
    let mut component_lines = format_component_lines(&parts.components, &context, width, &mut next);
    let ghost components = line_views(component_lines@);
    assert(parts.is_component_part(components, *options, time, width));
    proof {
        lemma_line_views_add(lines@, component_lines@);
    }
    lines.append(&mut component_lines);
    let ghost with_components = line_views(lines@);
    assert(with_components + Seq::<LineView>::empty() =~= with_components);
    if !parts.is_components_v2 {
        let ghost expected = parts.attachment_part(*options, width);
        let summaries = &parts.attachment_summaries;
        let mut i: usize = 0;
        assert(with_components + expected.take(0) =~= with_components);
        while i < summaries.len()
            invariant
                expected == summaries@.map_values(
                    |s: String| styled_line(truncated(s@, width as int), options.theme.message_attachment, seq![]),
                ),
                i <= summaries@.len(),
                line_views(lines@) == with_components + expected.take(i as int),
            decreases summaries@.len() - i,
        {
            let line = MessageContentLine::attachment(truncate_text(summaries[i].as_str(), width), &options.theme);
            proof {
                lemma_line_views_push(lines@, line);
                assert(expected[i as int] == line@);
                assert(expected.take(i + 1) =~= expected.take(i as int).push(line@));
                assert((with_components + expected.take(i as int)).push(line@) =~= with_components + expected.take(i + 1));
            }
            lines.push(line);
            i += 1;
        }
        assert(expected.take(i as int) =~= expected);
    }
    let ghost with_attachments = line_views(lines@);
    assert(with_attachments + Seq::<LineView>::empty() =~= with_attachments);
    if let Some(forwarded) = parts.forwarded_lines {
        let mut forwarded = forwarded;
        proof {
            lemma_line_views_add(lines@, forwarded@);
        }
        lines.append(&mut forwarded);
    }
    if lines.len() == 0 {
        let text = if parts.content_known {
            "<empty message>".to_owned()
        } else {
            "<message content unavailable>".to_owned()
        };
        let line = MessageContentLine::styled_text(text, options.theme.message_muted, Vec::new());
        lines.push(line);
        assert(line_views(lines@) =~= seq![line@]);
    }
    assert(line_views(lines@) == parts.unmarked(embeds, components, *options, urls, ready, width));
    if parts.edited {
        if let Some(row) = emoji_row {
            lines = append_standalone_emoji_edited_marker(lines, row, width, options);
        } else {
            lines = append_edited_marker(lines, width, &options.theme);
        }
    }
    assert(line_views(lines@) == parts.lines(embeds, components, *options, urls, ready, width));
    (lines, parts.reaction_lines)
}

/// The lines of a message, with those of the reactions below them.
pub fn format_parts_lines(
    parts: MessageParts,
    options: &FormatOptions,
    emoji_urls: &[EmojiUrl],
    loaded: &[String],
    time: TimeFormat,
    width: usize,
) -> (r: Vec<MessageContentLine>)
    requires
        options.wf(),
    ensures
        exists|lines: Seq<LineView>| #[trigger]
            parts.shows(lines, *options, emoji_urls@, texts(loaded@), time, width) && line_views(r@) == lines
                + parts.reactions(),
{
    let (mut lines, mut reactions) = format_message_content_sections_with_loaded_custom_emoji_urls(
        parts,
        options,
        emoji_urls,
        loaded,
        time,
        width,
    );
    assert(parts.shows(line_views(lines@), *options, emoji_urls@, texts(loaded@), time, width));
    proof {
        lemma_line_views_add(lines@, reactions@);
    }
    lines.append(&mut reactions);
    lines
}

/// No message is shown as nothing.
pub proof fn every_message_has_a_line(
    parts: MessageParts,
    lines: Seq<LineView>,
    options: FormatOptions,
    urls: Seq<EmojiUrl>,
    loaded: Seq<Seq<char>>,
    time: TimeFormat,
    width: usize,
)
    requires
        parts.system_lines is None,
        options.wf(),
        parts.shows(lines, options, urls, loaded, time, width),
    ensures
        lines.len() > 0,
{
    if let Some(emojis) = parts.emojis(options, urls) {
        let per_row = emojis_per_row(width, options.standalone_emoji_width);
        if width >= options.standalone_emoji_width {
            assert(width as int / options.standalone_emoji_width as int >= 1) by (nonlinear_arith)
                requires
                    width >= options.standalone_emoji_width,
                    options.standalone_emoji_width > 0,
            ;
        }
        lemma_emoji_rows_len(
            emojis,
            per_row,
            options.theme.message_body,
            loaded,
            options.standalone_emoji_width,
            options.standalone_emoji_height,
        );
    }
}

} // verus!
