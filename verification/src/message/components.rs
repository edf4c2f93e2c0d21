//! Components: buttons, menus, sections, galleries and containers of a message.

use crate::message::embed::{
    add_gutter, embed_line_style, gutter_style, inner_width, is_present, not_blank, width_inside_gutter, with_gutter,
};
use crate::message::line::{
    lemma_line_views_add, lemma_line_views_push, line_views, styled_line, LineView, MessageContentLine,
    MessageContentPreviewSlot, StyledPrefix,
};
use crate::message::options::FormatOptions;
use crate::message::rendered::{
    image_slots, MessageContentImageSlot, RenderedText, RenderedView, TextHighlight,
};
use crate::message::styled::{content_lines, wrap_rendered_text_lines};
use crate::message::time::{is_rendered, render_discord_timestamps_at, TimeFormat};
use crate::message::wrap::{column, sat_add, to_col};
use crate::style::{Style, Theme};
use crate::text::{
    decimal, decimal_string, join_strings, join_with, repeat_char, repeated, str_eq, texts, truncate_text, truncated,
};
use vstd::prelude::*;
use vstd::string::*;

verus! {

pub const SECTION_THUMBNAIL_MAX_WIDTH: u16 = 18;

pub const SECTION_THUMBNAIL_MIN_WIDTH: u16 = 8;

pub const SECTION_THUMBNAIL_HEIGHT: u16 = 6;

pub const SECTION_THUMBNAIL_GAP: usize = 2;

pub const SECTION_TEXT_MIN_WIDTH: usize = 16;

#[derive(Clone, Copy, Debug, PartialEq, Eq, Structural)]
pub enum AttachmentMediaType {
    Image,
    Video,
    Audio,
}

#[derive(Clone, Copy, Debug, PartialEq, Eq, Structural)]
pub enum ComponentSelectKind {
    String,
    User,
    Role,
    Mentionable,
    Channel,
}

/// A file that is attached to a message.
#[derive(Debug, PartialEq, Eq)]
pub struct AttachmentInfo {
    pub filename: String,
    pub media_type: Option<AttachmentMediaType>,
    pub width: Option<u64>,
    pub height: Option<u64>,
    pub size: u64,
}

/// A medium that a component refers to: the attachment it names, if it names one, the name to show
/// otherwise, and what is known of it.
#[derive(Debug, PartialEq, Eq)]
pub struct ComponentMediaInfo {
    pub attachment_filename: Option<String>,
    pub display_filename: String,
    pub media_type: Option<AttachmentMediaType>,
    pub width: Option<u64>,
    pub height: Option<u64>,
}

#[derive(Debug, PartialEq, Eq)]
pub struct GalleryItem {
    pub media: ComponentMediaInfo,
    pub description: Option<String>,
}

/// A component of a message.
#[derive(Debug, PartialEq, Eq)]
pub enum MessageComponentInfo {
    ActionRow { components: Vec<MessageComponentInfo> },
    Button { label: Option<String>, emoji: Option<String>, url: Option<String>, disabled: bool },
    Select { kind: ComponentSelectKind, placeholder: Option<String>, options: Vec<String>, disabled: bool },
    Section { components: Vec<MessageComponentInfo>, accessory: Option<Box<MessageComponentInfo>> },
    TextDisplay { content: String },
    Thumbnail { media: ComponentMediaInfo, description: Option<String> },
    MediaGallery { items: Vec<GalleryItem> },
    File { file: ComponentMediaInfo, name: Option<String>, size: Option<u64> },
    Separator { divider: bool, spacing: u32 },
    Container { components: Vec<MessageComponentInfo>, accent_color: Option<u32> },
    Unknown,
}

/// A text with the lines that it was rendered to at a width.
#[derive(Debug, PartialEq, Eq)]
pub struct RenderedBlock {
    pub text: String,
    pub width: usize,
    pub lines: Vec<MessageContentLine>,
}

// ---- Labels ----

/// What a button says: its emoji and its label, as far as they are there.
pub open spec fn button_label(label: Option<String>, emoji: Option<String>) -> Seq<char> {
    match (not_blank(emoji), not_blank(label)) {
        (Some(emoji), Some(label)) => emoji + " "@ + label,
        (Some(emoji), None) => emoji,
        (None, Some(label)) => label,
        (None, None) => "Button"@,
    }
}

pub fn component_button_label(label: &Option<String>, emoji: &Option<String>) -> (r: String)
    ensures
        r@ == button_label(*label, *emoji),
{
    let has_label = is_present(label);
    let has_emoji = is_present(emoji);
    match emoji {
        Some(emoji) if has_emoji => {
            let mut text = emoji.clone();
            match label {
                Some(label) if has_label => {
                    text.append(" ");
                    text.append(label.as_str());
                },
                _ => {},
            }
            text
        },
        _ => match label {
            Some(label) if has_label => label.clone(),
            _ => "Button".to_owned(),
        },
    }
}

pub open spec fn select_kind_label(kind: ComponentSelectKind) -> Seq<char> {
    match kind {
        ComponentSelectKind::String => "options"@,
        ComponentSelectKind::User => "user"@,
        ComponentSelectKind::Role => "role"@,
        ComponentSelectKind::Mentionable => "mentionable"@,
        ComponentSelectKind::Channel => "channel"@,
    }
}

pub fn component_select_kind_label(kind: ComponentSelectKind) -> (r: &'static str)
    ensures
        r@ == select_kind_label(kind),
{
    match kind {
        ComponentSelectKind::String => "options",
        ComponentSelectKind::User => "user",
        ComponentSelectKind::Role => "role",
        ComponentSelectKind::Mentionable => "mentionable",
        ComponentSelectKind::Channel => "channel",
    }
}

pub open spec fn media_kind(media_type: Option<AttachmentMediaType>) -> Seq<char> {
    match media_type {
        Some(AttachmentMediaType::Image) => "image"@,
        Some(AttachmentMediaType::Video) => "video"@,
        Some(AttachmentMediaType::Audio) => "audio"@,
        None => "media"@,
    }
}

pub fn component_media_kind(media_type: Option<AttachmentMediaType>) -> (r: &'static str)
    ensures
        r@ == media_kind(media_type),
{
    match media_type {
        Some(AttachmentMediaType::Image) => "image",
        Some(AttachmentMediaType::Video) => "video",
        Some(AttachmentMediaType::Audio) => "audio",
        None => "media",
    }
}

pub open spec fn disabled_note(disabled: bool) -> Seq<char> {
    if disabled {
        " (disabled)"@
    } else {
        ""@
    }
}

pub open spec fn button_text(label: Option<String>, emoji: Option<String>, url: Option<String>, disabled: bool) -> Seq<
    char,
> {
    let shown = "["@ + button_label(label, emoji) + "]"@ + disabled_note(disabled);
    match url {
        Some(url) => shown + " "@ + url@,
        None => shown,
    }
}

fn format_button_text(label: &Option<String>, emoji: &Option<String>, url: &Option<String>, disabled: bool) -> (r: String)
    ensures
        r@ == button_text(*label, *emoji, *url, disabled),
{
    let mut text = "[".to_owned();
    let shown = component_button_label(label, emoji);
    text.append(shown.as_str());
    text.append("]");
    text.append(
        if disabled {
            " (disabled)"
        } else {
            ""
        },
    );
    if let Some(url) = url {
        text.append(" ");
        text.append(url.as_str());
    }
    text
}

/// What a menu says: its placeholder, or up to three of its options, or what it selects.
pub open spec fn select_label(kind: ComponentSelectKind, placeholder: Option<String>, options: Seq<String>) -> Seq<char> {
    let n = if options.len() < 3 { options.len() as int } else { 3 };
    match not_blank(placeholder) {
        Some(placeholder) => placeholder,
        None => if options.len() > 0 {
            join_with(texts(options.take(n)), ", "@)
        } else {
            select_kind_label(kind)
        },
    }
}

pub open spec fn select_text(
    kind: ComponentSelectKind,
    placeholder: Option<String>,
    options: Seq<String>,
    disabled: bool,
) -> Seq<char> {
    "[Select: "@ + select_label(kind, placeholder, options) + "]"@ + disabled_note(disabled)
}

fn format_select_text(
    kind: ComponentSelectKind,
    placeholder: &Option<String>,
    options: &Vec<String>,
    disabled: bool,
) -> (r: String)
    ensures
        r@ == select_text(kind, *placeholder, options@, disabled),
{
    let has_placeholder = is_present(placeholder);
    let label = match placeholder {
        Some(placeholder) if has_placeholder => placeholder.clone(),
        _ => if options.len() > 0 {
            let n: usize = if options.len() < 3 { options.len() } else { 3 };
            let mut shown: Vec<String> = Vec::new();
            let mut i: usize = 0;
            while i < n
                invariant
                    i <= n <= options@.len(),
                    texts(shown@) == texts(options@.take(i as int)),
                decreases n - i,
            {
                let option = options[i].clone();
                proof {
                    assert(texts(shown@.push(option)) =~= texts(shown@).push(option@));
                    assert(texts(options@.take(i + 1)) =~= texts(options@.take(i as int)).push(option@));
                }
                shown.push(option);
                i += 1;
            }
            join_strings(&shown, ", ")
        } else {
            component_select_kind_label(kind).to_owned()
        },
    };
    let mut text = "[Select: ".to_owned();
    text.append(label.as_str());
    text.append("]");
    text.append(
        if disabled {
            " (disabled)"
        } else {
            ""
        },
    );
    text
}

// ---- Media ----

/// The attachment that a medium names.
pub open spec fn attachment_of(media: ComponentMediaInfo, attachments: Seq<AttachmentInfo>) -> Option<AttachmentInfo>
    decreases attachments.len(),
{
    if attachments.len() == 0 || media.attachment_filename is None {
        None
    } else if attachments[0].filename@ == (media.attachment_filename->0)@ {
        Some(attachments[0])
    } else {
        attachment_of(media, attachments.drop_first())
    }
}

fn find_attachment(media: &ComponentMediaInfo, attachments: &[AttachmentInfo]) -> (r: Option<usize>)
    ensures
        match r {
            Some(i) => i < attachments@.len() && attachment_of(*media, attachments@) == Some(attachments@[i as int]),
            None => attachment_of(*media, attachments@) is None,
        },
{
    match &media.attachment_filename {
        None => None,
        Some(filename) => {
            let mut i: usize = 0;
            assert(attachments@.skip(0) =~= attachments@);
            while i < attachments.len()
                invariant
                    media.attachment_filename == Some(*filename),
                    i <= attachments@.len(),
                    attachment_of(*media, attachments@) == attachment_of(*media, attachments@.skip(i as int)),
                decreases attachments@.len() - i,
            {
                assert(attachments@.skip(i as int)[0] == attachments@[i as int]);
                assert(attachments@.skip(i as int).drop_first() =~= attachments@.skip(i + 1));
                if str_eq(attachments[i].filename.as_str(), filename.as_str()) {
                    return Some(i);
                }
                i += 1;
            }
            None
        },
    }
}

/// What kind of medium it is: what the attachment says, or what is known otherwise.
pub open spec fn media_type_of(media: ComponentMediaInfo, attachments: Seq<AttachmentInfo>) -> Option<
    AttachmentMediaType,
> {
    match attachment_of(media, attachments) {
        Some(a) if a.media_type is Some => a.media_type,
        _ => media.media_type,
    }
}

fn find_media_type(media: &ComponentMediaInfo, attachments: &[AttachmentInfo]) -> (r: Option<AttachmentMediaType>)
    ensures
        r == media_type_of(*media, attachments@),
{
    match find_attachment(media, attachments) {
        Some(i) => if attachments[i].media_type.is_some() {
            attachments[i].media_type
        } else {
            media.media_type
        },
        None => media.media_type,
    }
}

pub open spec fn dimensions(width: Option<u64>, height: Option<u64>) -> Seq<char> {
    match (width, height) {
        (Some(w), Some(h)) => " "@ + decimal(w as nat) + "x"@ + decimal(h as nat),
        _ => ""@,
    }
}

pub fn format_dimensions(width: Option<u64>, height: Option<u64>) -> (r: String)
    ensures
        r@ == dimensions(width, height),
{
    match (width, height) {
        (Some(w), Some(h)) => {
            let mut text = " ".to_owned();
            let w = decimal_string(w);
            let h = decimal_string(h);
            text.append(w.as_str());
            text.append("x");
            text.append(h.as_str());
            text
        },
        _ => "".to_owned(),
    }
}

/// What a medium is called: what is said of it, or the name of the file.
pub open spec fn media_label(
    media: ComponentMediaInfo,
    description: Option<String>,
    attachments: Seq<AttachmentInfo>,
) -> Seq<char> {
    match (not_blank(description), attachment_of(media, attachments)) {
        (Some(d), _) => d,
        (None, Some(a)) => a.filename@,
        (None, None) => media.display_filename@,
    }
}

pub open spec fn media_text(media: ComponentMediaInfo, description: Option<String>, attachments: Seq<AttachmentInfo>) -> Seq<
    char,
> {
    "["@ + media_kind(media_type_of(media, attachments)) + ": "@ + media_label(media, description, attachments) + "]"@
        + (match attachment_of(media, attachments) {
        Some(a) => dimensions(a.width, a.height),
        None => dimensions(media.width, media.height),
    })
}

pub open spec fn media_line(
    media: ComponentMediaInfo,
    description: Option<String>,
    attachments: Seq<AttachmentInfo>,
    width: usize,
    theme: Theme,
) -> LineView {
    styled_line(truncated(media_text(media, description, attachments), width as int), theme.message_attachment, seq![])
}

pub fn format_component_media_line(
    media: &ComponentMediaInfo,
    description: &Option<String>,
    attachments: &[AttachmentInfo],
    width: usize,
    theme: &Theme,
) -> (r: MessageContentLine)
    ensures
        r@ == media_line(*media, *description, attachments@, width, *theme),
{
    let attachment = find_attachment(media, attachments);
    let kind = component_media_kind(find_media_type(media, attachments));
    let has_description = is_present(description);
    let label = match description {
        Some(description) if has_description => description.clone(),
        _ => match attachment {
            Some(i) => attachments[i].filename.clone(),
            None => media.display_filename.clone(),
        },
    };
    let size = match attachment {
        Some(i) => format_dimensions(attachments[i].width, attachments[i].height),
        None => format_dimensions(media.width, media.height),
    };
    let mut text = "[".to_owned();
    text.append(kind);
    text.append(": ");
    text.append(label.as_str());
    text.append("]");
    text.append(size.as_str());
    MessageContentLine::attachment(truncate_text(text.as_str(), width), theme)
}

/// The size of a file, if it is known and not zero.
pub open spec fn file_size(media: ComponentMediaInfo, size: Option<u64>, attachments: Seq<AttachmentInfo>) -> Seq<char> {
    let known = match (size, attachment_of(media, attachments)) {
        (Some(n), _) => n,
        (None, Some(a)) => a.size,
        (None, None) => 0,
    };
    if known > 0 {
        " · "@ + decimal(known as nat) + " bytes"@
    } else {
        ""@
    }
}

pub open spec fn file_text(
    media: ComponentMediaInfo,
    name: Option<String>,
    size: Option<u64>,
    attachments: Seq<AttachmentInfo>,
) -> Seq<char> {
    "[file: "@ + media_label(media, name, attachments) + "]"@ + file_size(media, size, attachments)
}

pub open spec fn file_line(
    media: ComponentMediaInfo,
    name: Option<String>,
    size: Option<u64>,
    attachments: Seq<AttachmentInfo>,
    width: usize,
    theme: Theme,
) -> LineView {
    styled_line(truncated(file_text(media, name, size, attachments), width as int), theme.message_attachment, seq![])
}

pub fn format_component_file_line(
    media: &ComponentMediaInfo,
    name: &Option<String>,
    size: Option<u64>,
    attachments: &[AttachmentInfo],
    width: usize,
    theme: &Theme,
) -> (r: MessageContentLine)
    ensures
        r@ == file_line(*media, *name, size, attachments@, width, *theme),
{
    let attachment = find_attachment(media, attachments);
    let has_name = is_present(name);
    let label = match name {
        Some(name) if has_name => name.clone(),
        _ => match attachment {
            Some(i) => attachments[i].filename.clone(),
            None => media.display_filename.clone(),
        },
    };
    let known: u64 = match size {
        Some(n) => n,
        None => match attachment {
            Some(i) => attachments[i].size,
            None => 0,
        },
    };
    let mut text = "[file: ".to_owned();
    text.append(label.as_str());
    text.append("]");
    let mut note = "".to_owned();
    if known > 0 {
        let mut shown = " · ".to_owned();
        let digits = decimal_string(known);
        shown.append(digits.as_str());
        shown.append(" bytes");
        note = shown;
    }
    text.append(note.as_str());
    MessageContentLine::attachment(truncate_text(text.as_str(), width), theme)
}

// ---- Thumbnails of sections ----

/// How wide the thumbnail of a section can be.
pub open spec fn thumbnail_width(width: usize) -> u16 {
    let least = SECTION_TEXT_MIN_WIDTH + SECTION_THUMBNAIL_GAP;
    let available = to_col((if width > least {
        width - least
    } else {
        0
    }) as usize);
    if available < SECTION_THUMBNAIL_MAX_WIDTH {
        available
    } else {
        SECTION_THUMBNAIL_MAX_WIDTH
    }
}

/// The width of the text beside a thumbnail.
pub open spec fn section_text_width(width: usize) -> usize {
    let taken = thumbnail_width(width) + SECTION_THUMBNAIL_GAP;
    if width > taken {
        (width - taken) as usize
    } else {
        1
    }
}

/// The place of the thumbnail of a section beside its text, if images are shown, the medium is an
/// image and there is room for it.
pub open spec fn thumbnail_slot(
    index: usize,
    media: ComponentMediaInfo,
    attachments: Seq<AttachmentInfo>,
    show_images: bool,
    width: usize,
) -> Option<MessageContentPreviewSlot> {
    if show_images && media_type_of(media, attachments) == Some(AttachmentMediaType::Image) && thumbnail_width(width)
        >= SECTION_THUMBNAIL_MIN_WIDTH {
        Some(
            MessageContentPreviewSlot {
                section_thumbnail_index: index,
                col: to_col((section_text_width(width) + SECTION_THUMBNAIL_GAP) as usize),
                width: thumbnail_width(width),
                height: SECTION_THUMBNAIL_HEIGHT,
            },
        )
    } else {
        None
    }
}

pub fn section_thumbnail_slot(
    index: usize,
    media: &ComponentMediaInfo,
    attachments: &[AttachmentInfo],
    show_images: bool,
    width: usize,
) -> (r: Option<(usize, MessageContentPreviewSlot)>)
    ensures
        match r {
            Some((text_width, slot)) => {
                &&& text_width == section_text_width(width)
                &&& thumbnail_slot(index, *media, attachments@, show_images, width) == Some(slot)
            },
            None => thumbnail_slot(index, *media, attachments@, show_images, width) is None,
        },
{
    if !show_images {
        return None;
    }
    if find_media_type(media, attachments) != Some(AttachmentMediaType::Image) {
        return None;
    }
    let available: u16 = column(width.saturating_sub(SECTION_TEXT_MIN_WIDTH + SECTION_THUMBNAIL_GAP));
    let slot_width: u16 = if available < SECTION_THUMBNAIL_MAX_WIDTH {
        available
    } else {
        SECTION_THUMBNAIL_MAX_WIDTH
    };
    if slot_width < SECTION_THUMBNAIL_MIN_WIDTH {
        return None;
    }
    let text_width: usize = width.saturating_sub(slot_width as usize + SECTION_THUMBNAIL_GAP);
    let text_width: usize = if text_width == 0 { 1 } else { text_width };
    let col: u16 = column(text_width + SECTION_THUMBNAIL_GAP);
    Some((
        text_width,
        MessageContentPreviewSlot {
            section_thumbnail_index: index,
            col,
            width: slot_width,
            height: SECTION_THUMBNAIL_HEIGHT,
        },
    ))
}

/// The text of a section and the thumbnail beside it never meet, and together they fit the width.
pub proof fn thumbnails_stand_beside_the_text(
    index: usize,
    media: ComponentMediaInfo,
    attachments: Seq<AttachmentInfo>,
    show_images: bool,
    width: usize,
)
    requires
        thumbnail_slot(index, media, attachments, show_images, width) is Some,
        width <= u16::MAX,
    ensures
        ({
            let slot = thumbnail_slot(index, media, attachments, show_images, width)->0;
            &&& section_text_width(width) >= SECTION_TEXT_MIN_WIDTH
            &&& section_text_width(width) + SECTION_THUMBNAIL_GAP == slot.col
            &&& slot.col + slot.width == width
        }),
{
}

// ---- Texts of components ----

/// The lines of a text: those it was rendered to at this width, or the plain text wrapped.
pub open spec fn block_lines(table: Seq<RenderedBlock>, text: Seq<char>, width: usize, style: Style) -> Seq<LineView>
    decreases table.len(),
{
    if table.len() == 0 {
        content_lines(
            RenderedView { text, highlights: seq![], emoji_slots: seq![] },
            seq![],
            width,
            style,
            seq![],
        )
    } else if table[0].text@ == text && table[0].width == width {
        line_views(table[0].lines@)
    } else {
        block_lines(table.drop_first(), text, width, style)
    }
}

/// The lines of a text, if it is not empty, at a width of at least one column.
pub open spec fn text_lines(table: Seq<RenderedBlock>, text: Seq<char>, width: usize, style: Style) -> Seq<LineView> {
    if text.len() == 0 {
        seq![]
    } else {
        block_lines(table, text, if width == 0 {
            1
        } else {
            width
        }, style)
    }
}

pub fn clone_line(line: &MessageContentLine) -> (r: MessageContentLine)
    ensures
        r@ == line@,
{
    let mut mention_highlights: Vec<TextHighlight> = Vec::new();
    let mut i: usize = 0;
    while i < line.mention_highlights.len()
        invariant
            i <= line.mention_highlights@.len(),
            mention_highlights@ == line.mention_highlights@.take(i as int),
        decreases line.mention_highlights@.len() - i,
    {
        mention_highlights.push(line.mention_highlights[i]);
        assert(mention_highlights@ =~= line.mention_highlights@.take(i + 1));
        i += 1;
    }
    assert(mention_highlights@ =~= line.mention_highlights@);
    let mut styled_prefixes: Vec<StyledPrefix> = Vec::new();
    let mut i: usize = 0;
    while i < line.styled_prefixes.len()
        invariant
            i <= line.styled_prefixes@.len(),
            styled_prefixes@ == line.styled_prefixes@.take(i as int),
        decreases line.styled_prefixes@.len() - i,
    {
        styled_prefixes.push(line.styled_prefixes[i]);
        assert(styled_prefixes@ =~= line.styled_prefixes@.take(i + 1));
        i += 1;
    }
    assert(styled_prefixes@ =~= line.styled_prefixes@);
    let mut preview_slots: Vec<MessageContentPreviewSlot> = Vec::new();
    let mut i: usize = 0;
    while i < line.preview_slots.len()
        invariant
            i <= line.preview_slots@.len(),
            preview_slots@ == line.preview_slots@.take(i as int),
        decreases line.preview_slots@.len() - i,
    {
        preview_slots.push(line.preview_slots[i]);
        assert(preview_slots@ =~= line.preview_slots@.take(i + 1));
        i += 1;
    }
    assert(preview_slots@ =~= line.preview_slots@);
    let ghost all = image_slots(line.image_slots@);
    let mut slots: Vec<MessageContentImageSlot> = Vec::new();
    let mut i: usize = 0;
    assert(image_slots(slots@) =~= all.take(0));
    while i < line.image_slots.len()
        invariant
            all == image_slots(line.image_slots@),
            i <= line.image_slots@.len(),
            image_slots(slots@) == all.take(i as int),
        decreases line.image_slots@.len() - i,
    {
        let s = &line.image_slots[i];
        let copy = MessageContentImageSlot {
            col: s.col,
            byte_start: s.byte_start,
            byte_len: s.byte_len,
            display_width: s.display_width,
            image_size: s.image_size,
            url: s.url.clone(),
        };
        proof {
            assert(image_slots(slots@.push(copy)) =~= image_slots(slots@).push(copy@));
            assert(all.take(i + 1) =~= all.take(i as int).push(copy@));
        }
        slots.push(copy);
        i += 1;
    }
    assert(image_slots(slots@) =~= all);
    MessageContentLine {
        text: line.text.clone(),
        style: line.style,
        mention_highlights,
        styled_prefixes,
        image_slots: slots,
        preview_slots,
    }
}

pub fn clone_lines(lines: &Vec<MessageContentLine>) -> (r: Vec<MessageContentLine>)
    ensures
        line_views(r@) == line_views(lines@),
{
    let mut out: Vec<MessageContentLine> = Vec::new();
    let mut i: usize = 0;
    let ghost all = line_views(lines@);
    assert(line_views(out@) =~= all.take(0));
    while i < lines.len()
        invariant
            all == line_views(lines@),
            i <= lines@.len(),
            line_views(out@) == all.take(i as int),
        decreases lines@.len() - i,
    {
        let copy = clone_line(&lines[i]);
        proof {
            lemma_line_views_push(out@, copy);
            assert(all.take(i + 1) =~= all.take(i as int).push(copy@));
        }
        out.push(copy);
        i += 1;
    }
    assert(all.take(i as int) =~= all);
    out
}

/// Formats a text, given the texts that were rendered.
pub fn format_text(table: &[RenderedBlock], text: &str, width: usize, style: Style) -> (r: Vec<MessageContentLine>)
    ensures
        line_views(r@) == text_lines(table@, text@, width, style),
{
    if text.is_empty() {
        let none: Vec<MessageContentLine> = Vec::new();
        assert(line_views(none@) =~= seq![]);
        return none;
    }
    let columns: usize = if width == 0 { 1 } else { width };
    let mut i: usize = 0;
    assert(table@.skip(0) =~= table@);
    while i < table.len()
        invariant
            i <= table@.len(),
            text@.len() > 0,
            columns == (if width == 0 { 1 } else { width }),
            block_lines(table@, text@, columns, style) == block_lines(table@.skip(i as int), text@, columns, style),
        decreases table@.len() - i,
    {
        assert(table@.skip(i as int)[0] == table@[i as int]);
        assert(table@.skip(i as int).drop_first() =~= table@.skip(i + 1));
        if table[i].width == columns && str_eq(table[i].text.as_str(), text) {
            return clone_lines(&table[i].lines);
        }
        i += 1;
    }
    let rendered = RenderedText { text: text.to_owned(), highlights: Vec::new(), emoji_slots: Vec::new() };
    let links: Vec<(usize, usize)> = Vec::new();
    assert(rendered@.emoji_slots =~= seq![]);
    wrap_rendered_text_lines(rendered, links.as_slice(), columns, style)
}

// ---- Times in components ----

/// Whether a component becomes another when its times are told: those in its text displays, in whatever it holds
/// them. All else stays.
pub open spec fn is_told(c: MessageComponentInfo, told: MessageComponentInfo, time: TimeFormat) -> bool
    decreases c, 0int,
{
    match c {
        MessageComponentInfo::ActionRow { components } => told matches MessageComponentInfo::ActionRow {
            components: inner,
        } && components_told(components, inner, time, components@.len() as int),
        MessageComponentInfo::Section { components, accessory } => told matches MessageComponentInfo::Section {
            components: inner,
            accessory: beside,
        } && components_told(components, inner, time, components@.len() as int) && match accessory {
            Some(a) => beside matches Some(b) && is_told(*a, *b, time),
            None => beside is None,
        },
        MessageComponentInfo::TextDisplay { content } => told matches MessageComponentInfo::TextDisplay {
            content: text,
        } && is_rendered(content@, text@, time.hour_format_24, time.now),
        MessageComponentInfo::Container { components, accent_color } => told matches MessageComponentInfo::Container {
            components: inner,
            accent_color: color,
        } && color == accent_color && components_told(components, inner, time, components@.len() as int),
        MessageComponentInfo::Select { kind, placeholder, options, disabled } => told
            matches MessageComponentInfo::Select { kind: k, placeholder: p, options: o, disabled: d } && k == kind && p
            == placeholder && o@ == options@ && d == disabled,
        MessageComponentInfo::MediaGallery { items } => told matches MessageComponentInfo::MediaGallery {
            items: same,
        } && same@ == items@,
        _ => told == c,
    }
}

/// Whether the times of the first `k` components are told.
pub open spec fn components_told(
    v: Vec<MessageComponentInfo>,
    told: Vec<MessageComponentInfo>,
    time: TimeFormat,
    k: int,
) -> bool
    decreases v, k,
{
    &&& told@.len() == v@.len()
    &&& 0 < k <= v@.len() ==> components_told(v, told, time, k - 1) && is_told(v[k - 1], told[k - 1], time)
}

/// Whether the times of components are told.
pub open spec fn all_told(v: Vec<MessageComponentInfo>, told: Vec<MessageComponentInfo>, time: TimeFormat) -> bool {
    components_told(v, told, time, v@.len() as int)
}

fn copy_text(text: &Option<String>) -> (r: Option<String>)
    ensures
        r == *text,
{
    match text {
        Some(text) => Some(text.clone()),
        None => None,
    }
}

fn copy_media(media: &ComponentMediaInfo) -> (r: ComponentMediaInfo)
    ensures
        r == *media,
{
    ComponentMediaInfo {
        attachment_filename: copy_text(&media.attachment_filename),
        display_filename: media.display_filename.clone(),
        media_type: media.media_type,
        width: media.width,
        height: media.height,
    }
}

fn copy_items(items: &Vec<GalleryItem>) -> (r: Vec<GalleryItem>)
    ensures
        r@ == items@,
{
    let mut r: Vec<GalleryItem> = Vec::new();
    let mut i: usize = 0;
    while i < items.len()
        invariant
            i <= items@.len(),
            r@ == items@.take(i as int),
        decreases items@.len() - i,
    {
        r.push(GalleryItem { media: copy_media(&items[i].media), description: copy_text(&items[i].description) });
        assert(r@ =~= items@.take(i + 1));
        i += 1;
    }
    assert(r@ =~= items@);
    r
}

fn copy_strings(v: &Vec<String>) -> (r: Vec<String>)
    ensures
        r@ == v@,
{
    let mut r: Vec<String> = Vec::new();
    let mut i: usize = 0;
    while i < v.len()
        invariant
            i <= v@.len(),
            r@ == v@.take(i as int),
        decreases v@.len() - i,
    {
        r.push(v[i].clone());
        assert(r@ =~= v@.take(i + 1));
        i += 1;
    }
    assert(r@ =~= v@);
    r
}

/// A component with its times told.
pub fn tell_component(component: &MessageComponentInfo, time: TimeFormat) -> (r: MessageComponentInfo)
    ensures
        is_told(*component, r, time),
    decreases *component, 0int,
{
    match component {
        MessageComponentInfo::ActionRow { components } => MessageComponentInfo::ActionRow {
            components: tell_components(components, time),
        },
        MessageComponentInfo::Button { label, emoji, url, disabled } => MessageComponentInfo::Button {
            label: copy_text(label),
            emoji: copy_text(emoji),
            url: copy_text(url),
            disabled: *disabled,
        },
        MessageComponentInfo::Select { kind, placeholder, options, disabled } => MessageComponentInfo::Select {
            kind: *kind,
            placeholder: copy_text(placeholder),
            options: copy_strings(options),
            disabled: *disabled,
        },
        MessageComponentInfo::Section { components, accessory } => {
            let inner = tell_components(components, time);
            let beside = match accessory {
                Some(a) => Some(Box::new(tell_component(&**a, time))),
                None => None,
            };
            MessageComponentInfo::Section { components: inner, accessory: beside }
        },
        MessageComponentInfo::TextDisplay { content } => MessageComponentInfo::TextDisplay {
            content: render_discord_timestamps_at(content.as_str(), time.hour_format_24, time.now),
        },
        MessageComponentInfo::Thumbnail { media, description } => MessageComponentInfo::Thumbnail {
            media: copy_media(media),
            description: copy_text(description),
        },
        MessageComponentInfo::MediaGallery { items } => MessageComponentInfo::MediaGallery { items: copy_items(items) },
        MessageComponentInfo::File { file, name, size } => MessageComponentInfo::File {
            file: copy_media(file),
            name: copy_text(name),
            size: *size,
        },
        MessageComponentInfo::Separator { divider, spacing } => MessageComponentInfo::Separator {
            divider: *divider,
            spacing: *spacing,
        },
        MessageComponentInfo::Container { components, accent_color } => MessageComponentInfo::Container {
            components: tell_components(components, time),
            accent_color: *accent_color,
        },
        MessageComponentInfo::Unknown => MessageComponentInfo::Unknown,
    }
}

proof fn lemma_told_prefix(
    v: Vec<MessageComponentInfo>,
    a: Vec<MessageComponentInfo>,
    time: TimeFormat,
    k: int,
)
    requires
        0 <= k <= v@.len(),
        a@.len() == v@.len(),
        forall|i: int| 0 <= i < k ==> is_told(v@[i], #[trigger] a@[i], time),
    ensures
        components_told(v, a, time, k),
    decreases k,
{
    if k > 0 {
        lemma_told_prefix(v, a, time, k - 1);
        assert(is_told(v@[k - 1], a@[k - 1], time));
    }
}

/// Components with their times told.
pub fn tell_components(components: &Vec<MessageComponentInfo>, time: TimeFormat) -> (r: Vec<MessageComponentInfo>)
    ensures
        all_told(*components, r, time),
    decreases *components, components@.len() + 1,
{
    let mut r: Vec<MessageComponentInfo> = Vec::new();
    let mut i: usize = 0;
    while i < components.len()
        invariant
            i <= components@.len(),
            r@.len() == i,
            forall|k: int| 0 <= k < i ==> is_told(components@[k], #[trigger] r@[k], time),
        decreases components@.len() - i,
    {
        r.push(tell_component(&components[i], time));
        i += 1;
    }
    proof {
        lemma_told_prefix(*components, r, time, components@.len() as int);
    }
    r
}

// ---- Components ----

/// What the lines of components depend on.
pub struct ComponentContext {
    pub attachments: Seq<AttachmentInfo>,
    pub table: Seq<RenderedBlock>,
    pub options: FormatOptions,
    pub time: TimeFormat,
}

/// Lines, and the index that the next thumbnail of a section gets.
pub struct Formatted {
    pub lines: Seq<LineView>,
    pub next: usize,
}

pub open spec fn empty_line() -> LineView {
    styled_line(seq![], Style::none(), seq![])
}

/// Lines with a thumbnail beside them: as many as the thumbnail is high, at least, and the first of
/// them carries it.
pub open spec fn beside_thumbnail(lines: Seq<LineView>, slot: MessageContentPreviewSlot) -> Seq<LineView> {
    let height = if slot.height == 0 { 1 } else { slot.height as int };
    let missing = if lines.len() < height { height - lines.len() } else { 0 };
    let padded = lines + Seq::new(missing as nat, |i: int| empty_line());
    padded.update(0, LineView { preview_slots: padded[0].preview_slots.push(slot), ..padded[0] })
}

/// The lines of a separator.
pub open spec fn separator_lines(divider: bool, spacing: u32, width: usize, theme: Theme) -> Seq<LineView> {
    let rule = if divider {
        seq![
            styled_line(
                repeated('─', (if width == 0 {
                    1
                } else {
                    width as int
                }) as nat),
                theme.message_secondary,
                seq![],
            ),
        ]
    } else {
        seq![]
    };
    let space = if spacing >= 2 { seq![empty_line()] } else { seq![] };
    rule + space
}

pub open spec fn gallery_lines(items: Seq<GalleryItem>, ctx: ComponentContext, width: usize) -> Seq<LineView> {
    items.map_values(|i: GalleryItem| media_line(i.media, i.description, ctx.attachments, width, ctx.options.theme))
}

/// The lines of a component. Thumbnails of sections are numbered in the order in which they are met.
pub open spec fn component_lines(c: MessageComponentInfo, ctx: ComponentContext, width: usize, next: usize) -> Formatted
    decreases c, 0int,
{
    let body = ctx.options.theme.message_body;
    match c {
        MessageComponentInfo::ActionRow { components } => components_lines(components, ctx, width, next, components@.len() as int),
        MessageComponentInfo::Button { label, emoji, url, disabled } => Formatted {
            lines: text_lines(ctx.table, button_text(label, emoji, url, disabled), width, body),
            next,
        },
        MessageComponentInfo::Select { kind, placeholder, options, disabled } => Formatted {
            lines: text_lines(ctx.table, select_text(kind, placeholder, options@, disabled), width, body),
            next,
        },
        MessageComponentInfo::Section { components, accessory } => {
            let thumbnail = match accessory {
                Some(a) => match *a {
                    MessageComponentInfo::Thumbnail { media, .. } => Some(media),
                    _ => None,
                },
                None => None,
            };
            let slot = match thumbnail {
                Some(media) => thumbnail_slot(next, media, ctx.attachments, ctx.options.show_images, width),
                None => None,
            };
            let after = if thumbnail is Some { sat_add(next, 1) } else { next };
            match slot {
                Some(slot) => {
                    let inner = components_lines(
                        components,
                        ctx,
                        section_text_width(width),
                        after,
                        components@.len() as int,
                    );
                    Formatted { lines: beside_thumbnail(inner.lines, slot), next: inner.next }
                },
                None => {
                    let inner = components_lines(components, ctx, width, after, components@.len() as int);
                    match accessory {
                        Some(a) => {
                            let last = component_lines(*a, ctx, width, inner.next);
                            Formatted { lines: inner.lines + last.lines, next: last.next }
                        },
                        None => inner,
                    }
                },
            }
        },
        MessageComponentInfo::TextDisplay { content } => Formatted {
            lines: text_lines(ctx.table, content@, width, body),
            next,
        },
        MessageComponentInfo::Thumbnail { media, description } => Formatted {
            lines: seq![media_line(media, description, ctx.attachments, width, ctx.options.theme)],
            next,
        },
        MessageComponentInfo::MediaGallery { items } => Formatted { lines: gallery_lines(items@, ctx, width), next },
        MessageComponentInfo::File { file, name, size } => Formatted {
            lines: seq![file_line(file, name, size, ctx.attachments, width, ctx.options.theme)],
            next,
        },
        MessageComponentInfo::Separator { divider, spacing } => Formatted {
            lines: separator_lines(divider, spacing, width, ctx.options.theme),
            next,
        },
        MessageComponentInfo::Container { components, accent_color } => {
            let inner = components_lines(components, ctx, inner_width(width), next, components@.len() as int);
            Formatted { lines: with_gutter(inner.lines, gutter_style(accent_color, ctx.options.theme)), next: inner.next }
        },
        MessageComponentInfo::Unknown => Formatted { lines: seq![], next },
    }
}

/// The lines of the first `k` components.
pub open spec fn components_lines(
    v: Vec<MessageComponentInfo>,
    ctx: ComponentContext,
    width: usize,
    next: usize,
    k: int,
) -> Formatted
    decreases v, k,
{
    if k <= 0 || k > v@.len() {
        Formatted { lines: seq![], next }
    } else {
        let before = components_lines(v, ctx, width, next, k - 1);
        let this = component_lines(v[k - 1], ctx, width, before.next);
        Formatted { lines: before.lines + this.lines, next: this.next }
    }
}

/// What the lines of components depend on, besides the components.
pub struct ComponentFormatContext<'a> {
    pub attachments: &'a Vec<AttachmentInfo>,
    pub table: &'a Vec<RenderedBlock>,
    pub options: &'a FormatOptions,
    pub time: TimeFormat,
}

impl<'a> ComponentFormatContext<'a> {
    pub open spec fn value(self) -> ComponentContext {
        ComponentContext {
            attachments: self.attachments@,
            table: self.table@,
            options: *self.options,
            time: self.time,
        }
    }
}

fn stand_beside(lines: Vec<MessageContentLine>, slot: MessageContentPreviewSlot) -> (r: Vec<MessageContentLine>)
    ensures
        line_views(r@) == beside_thumbnail(line_views(lines@), slot),
{
    let ghost start = line_views(lines@);
    let mut lines = lines;
    let height: usize = if slot.height == 0 { 1 } else { slot.height as usize };
    let ghost missing = if start.len() < height { height - start.len() } else { 0 };
    assert(line_views(lines@) =~= start + Seq::new(0, |i: int| empty_line()));
    while lines.len() < height
        invariant
            start.len() <= lines@.len(),
            line_views(lines@) == start + Seq::new((lines@.len() - start.len()) as nat, |i: int| empty_line()),
            lines@.len() <= height || lines@.len() == start.len(),
        decreases height - lines@.len(),
    {
        let blank = MessageContentLine::plain(String::new());
        proof {
            assert(blank@.text =~= seq![]);
            lemma_line_views_push(lines@, blank);
            let n = (lines@.len() - start.len()) as nat;
            assert(start + Seq::new(n + 1, |i: int| empty_line()) =~= (start + Seq::new(n, |i: int| empty_line())).push(
                empty_line(),
            ));
        }
        lines.push(blank);
    }
    let ghost padded = line_views(lines@);
    let ghost before = lines@;
    let mut first = lines.remove(0);
    assert(padded[0] == before[0]@);
    first.preview_slots.push(slot);
    lines.insert(0, first);
    proof {
        assert(line_views(lines@) =~= padded.update(0, first@));
        assert(missing == lines@.len() - start.len());
    }
    lines
}

/// Lays out a component whose times are told.
#[verifier::rlimit(40)]
fn lay_out_component(
    component: &MessageComponentInfo,
    context: &ComponentFormatContext<'_>,
    width: usize,
    next_section_thumbnail_index: &mut usize,
) -> (r: Vec<MessageContentLine>)
    ensures
        ({
            let done = component_lines(*component, context.value(), width, *old(next_section_thumbnail_index));
            line_views(r@) == done.lines && *final(next_section_thumbnail_index) == done.next
        }),
    decreases *component, 0int,
{
    let theme = &context.options.theme;
    match component {
        MessageComponentInfo::ActionRow { components } => lay_out_components(
            components,
            context,
            width,
            next_section_thumbnail_index,
        ),
        MessageComponentInfo::Button { label, emoji, url, disabled } => {
            let text = format_button_text(label, emoji, url, *disabled);
            format_text(context.table.as_slice(), text.as_str(), width, theme.message_body)
        },
        MessageComponentInfo::Select { kind, placeholder, options, disabled } => {
            let text = format_select_text(*kind, placeholder, options, *disabled);
            format_text(context.table.as_slice(), text.as_str(), width, theme.message_body)
        },
        MessageComponentInfo::Section { components, accessory } => {
            let mut slot: Option<(usize, MessageContentPreviewSlot)> = None;
            if let Some(a) = accessory {
                if let MessageComponentInfo::Thumbnail { media, .. } = &**a {
                    let index: usize = *next_section_thumbnail_index;
                    *next_section_thumbnail_index = index.saturating_add(1);
                    slot = section_thumbnail_slot(
                        index,
                        media,
                        context.attachments.as_slice(),
                        context.options.show_images,
                        width,
                    );
                }
            }
            if let Some((text_width, slot)) = slot {
                let lines = lay_out_components(components, context, text_width, next_section_thumbnail_index);
                return stand_beside(lines, slot);
            }
            let mut lines = lay_out_components(components, context, width, next_section_thumbnail_index);
            if let Some(a) = accessory {
                let mut last = lay_out_component(&**a, context, width, next_section_thumbnail_index);
                proof {
                    lemma_line_views_add(lines@, last@);
                }
                lines.append(&mut last);
            }
            lines
        },
        MessageComponentInfo::TextDisplay { content } => format_text(
            context.table.as_slice(),
            content.as_str(),
            width,
            theme.message_body,
        ),
        MessageComponentInfo::Thumbnail { media, description } => {
            let line = format_component_media_line(media, description, context.attachments.as_slice(), width, theme);
            let mut lines: Vec<MessageContentLine> = Vec::new();
            lines.push(line);
            assert(line_views(lines@) =~= seq![line@]);
            lines
        },
        MessageComponentInfo::MediaGallery { items } => {
            let ghost expected = gallery_lines(items@, context.value(), width);
            let mut lines: Vec<MessageContentLine> = Vec::new();
            let mut i: usize = 0;
            assert(line_views(lines@) =~= expected.take(0));
            while i < items.len()
                invariant
                    *theme == context.options.theme,
                    expected == gallery_lines(items@, context.value(), width),
                    i <= items@.len(),
                    line_views(lines@) == expected.take(i as int),
                decreases items@.len() - i,
            {
                let line = format_component_media_line(
                    &items[i].media,
                    &items[i].description,
                    context.attachments.as_slice(),
                    width,
                    theme,
                );
                proof {
                    lemma_line_views_push(lines@, line);
                    assert(expected[i as int] == line@);
                    assert(expected.take(i + 1) =~= expected.take(i as int).push(line@));
                }
                lines.push(line);
                i += 1;
            }
            assert(expected.take(i as int) =~= expected);
            lines
        },
        MessageComponentInfo::File { file, name, size } => {
            let line = format_component_file_line(file, name, *size, context.attachments.as_slice(), width, theme);
            let mut lines: Vec<MessageContentLine> = Vec::new();
            lines.push(line);
            assert(line_views(lines@) =~= seq![line@]);
            lines
        },
        MessageComponentInfo::Separator { divider, spacing } => {
            let mut lines: Vec<MessageContentLine> = Vec::new();
            assert(line_views(lines@) =~= Seq::<LineView>::empty());
            if *divider {
                let rule = MessageContentLine::dim(repeat_char('─', if width == 0 { 1 } else { width }), theme);
                lines.push(rule);
                assert(line_views(lines@) =~= seq![rule@]);
            }
            let ghost ruled = line_views(lines@);
            if *spacing >= 2 {
                let blank = MessageContentLine::plain(String::new());
                proof {
                    assert(blank@.text =~= seq![]);
                    lemma_line_views_push(lines@, blank);
                    assert(ruled.push(blank@) =~= ruled + seq![empty_line()]);
                }
                lines.push(blank);
            }
            assert(line_views(lines@) =~= separator_lines(*divider, *spacing, width, *theme));
            lines
        },
        MessageComponentInfo::Container { components, accent_color } => {
            let inside: usize = width_inside_gutter(width);
            let lines = lay_out_components(components, context, inside, next_section_thumbnail_index);
            add_gutter(lines, embed_line_style(*accent_color, theme))
        },
        MessageComponentInfo::Unknown => {
            let lines: Vec<MessageContentLine> = Vec::new();
            assert(line_views(lines@) =~= Seq::<LineView>::empty());
            lines
        },
    }
}

fn lay_out_components(
    components: &Vec<MessageComponentInfo>,
    context: &ComponentFormatContext<'_>,
    width: usize,
    next_section_thumbnail_index: &mut usize,
) -> (r: Vec<MessageContentLine>)
    ensures
        ({
            let done = components_lines(
                *components,
                context.value(),
                width,
                *old(next_section_thumbnail_index),
                components@.len() as int,
            );
            line_views(r@) == done.lines && *final(next_section_thumbnail_index) == done.next
        }),
    decreases *components, components@.len() + 1,
{
    let mut lines: Vec<MessageContentLine> = Vec::new();
    let mut k: usize = 0;
    assert(line_views(lines@) =~= Seq::<LineView>::empty());
    while k < components.len()
        invariant
            k <= components@.len(),
            ({
                let done = components_lines(
                    *components,
                    context.value(),
                    width,
                    *old(next_section_thumbnail_index),
                    k as int,
                );
                line_views(lines@) == done.lines && *next_section_thumbnail_index == done.next
            }),
        decreases components@.len() - k,
    {
        let mut formatted = lay_out_component(&components[k], context, width, next_section_thumbnail_index);
        proof {
            lemma_line_views_add(lines@, formatted@);
        }
        lines.append(&mut formatted);
        k += 1;
    }
    lines
}

/// The lines of all components of a message: what cannot be shown at all is said to be unsupported.
pub open spec fn all_component_lines(
    components: Vec<MessageComponentInfo>,
    ctx: ComponentContext,
    width: usize,
    next: usize,
) -> Formatted {
    let done = components_lines(components, ctx, width, next, components@.len() as int);
    if done.lines.len() == 0 && components@.len() > 0 {
        Formatted {
            lines: seq![
                styled_line(
                    truncated("<unsupported message components>"@, width as int),
                    ctx.options.theme.message_muted,
                    seq![],
                ),
            ],
            ..done
        }
    } else {
        done
    }
}

/// Formats a component at `width` columns: its times are told, and then it is laid out.
pub fn format_component(
    component: &MessageComponentInfo,
    context: &ComponentFormatContext<'_>,
    width: usize,
    next_section_thumbnail_index: &mut usize,
) -> (r: Vec<MessageContentLine>)
    ensures
        exists|told: MessageComponentInfo| #[trigger]
            is_told(*component, told, context.time) && ({
                let done = component_lines(told, context.value(), width, *old(next_section_thumbnail_index));
                line_views(r@) == done.lines && *final(next_section_thumbnail_index) == done.next
            }),
{
    let told = tell_component(component, context.time);
    let lines = lay_out_component(&told, context, width, next_section_thumbnail_index);
    assert(is_told(*component, told, context.time));
    lines
}

/// Formats all components of a message.
pub fn format_component_lines(
    components: &Vec<MessageComponentInfo>,
    context: &ComponentFormatContext<'_>,
    width: usize,
    next_section_thumbnail_index: &mut usize,
) -> (r: Vec<MessageContentLine>)
    ensures
        exists|told: Vec<MessageComponentInfo>| #[trigger]
            all_told(*components, told, context.time) && ({
                let done = all_component_lines(told, context.value(), width, *old(next_section_thumbnail_index));
                line_views(r@) == done.lines && *final(next_section_thumbnail_index) == done.next
            }),
{
    let told = tell_components(components, context.time);
    let mut lines = lay_out_components(&told, context, width, next_section_thumbnail_index);
    assert(all_told(*components, told, context.time));
    if lines.len() == 0 && told.len() > 0 {
        let text = truncate_text("<unsupported message components>", width);
        let line = MessageContentLine::styled_text(text, context.options.theme.message_muted, Vec::new());
        lines.push(line);
        assert(line_views(lines@) =~= seq![line@]);
    }
    lines
}

} // verus!
