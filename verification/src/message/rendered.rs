//! Text that carries highlighted ranges and the places of inline emoji images.

use crate::style::Color;
use vstd::prelude::*;

verus! {

/// Why a range of a text is highlighted.
#[derive(Clone, Copy, Debug, PartialEq, Eq, Structural)]
pub enum TextHighlightKind {
    SelfMention,
    OtherMention,
    /// A role with the colour of its name and the tint behind it.
    RoleMention { foreground: Option<Color>, background: Color, notifies_current_user: bool },
    Url,
}

/// A highlighted range of bytes.
#[derive(Clone, Copy, Debug, PartialEq, Eq, Structural)]
pub struct TextHighlight {
    pub start: usize,
    pub end: usize,
    pub kind: TextHighlightKind,
}

/// The two sizes in which an emoji image is drawn.
#[derive(Clone, Copy, Debug, PartialEq, Eq, Structural)]
pub enum EmojiImageSize {
    Compact,
    Standalone,
}

/// An emoji whose image may replace `byte_len` bytes of the text. It takes `display_width` columns
/// and is never broken across lines.
#[derive(Debug, PartialEq, Eq)]
pub struct InlineEmojiSlot {
    pub byte_start: usize,
    pub byte_len: usize,
    pub display_width: u16,
    pub url: String,
}

/// The value of an [`InlineEmojiSlot`].
pub struct EmojiSlotView {
    pub byte_start: usize,
    pub byte_len: usize,
    pub display_width: u16,
    pub url: Seq<char>,
}

impl View for InlineEmojiSlot {
    type V = EmojiSlotView;

    open spec fn view(&self) -> EmojiSlotView {
        EmojiSlotView {
            byte_start: self.byte_start,
            byte_len: self.byte_len,
            display_width: self.display_width,
            url: self.url@,
        }
    }
}

/// Where an emoji image lands in a formatted line: `col` is its column, and the bytes
/// `byte_start..byte_start + byte_len` are the placeholder that it replaces.
#[derive(Debug, PartialEq, Eq)]
pub struct MessageContentImageSlot {
    pub col: u16,
    pub byte_start: usize,
    pub byte_len: usize,
    pub display_width: u16,
    pub image_size: EmojiImageSize,
    pub url: String,
}

/// The value of a [`MessageContentImageSlot`].
pub struct ImageSlotView {
    pub col: u16,
    pub byte_start: usize,
    pub byte_len: usize,
    pub display_width: u16,
    pub image_size: EmojiImageSize,
    pub url: Seq<char>,
}

impl View for MessageContentImageSlot {
    type V = ImageSlotView;

    open spec fn view(&self) -> ImageSlotView {
        ImageSlotView {
            col: self.col,
            byte_start: self.byte_start,
            byte_len: self.byte_len,
            display_width: self.display_width,
            image_size: self.image_size,
            url: self.url@,
        }
    }
}

pub open spec fn emoji_slots(v: Seq<InlineEmojiSlot>) -> Seq<EmojiSlotView> {
    v.map_values(|s: InlineEmojiSlot| s@)
}

pub open spec fn image_slots(v: Seq<MessageContentImageSlot>) -> Seq<ImageSlotView> {
    v.map_values(|s: MessageContentImageSlot| s@)
}

/// A text with its highlights and emoji places; all offsets are bytes of `text`.
#[derive(Debug, PartialEq, Eq)]
pub struct RenderedText {
    pub text: String,
    pub highlights: Vec<TextHighlight>,
    pub emoji_slots: Vec<InlineEmojiSlot>,
}

/// The value of a [`RenderedText`].
pub struct RenderedView {
    pub text: Seq<char>,
    pub highlights: Seq<TextHighlight>,
    pub emoji_slots: Seq<EmojiSlotView>,
}

impl View for RenderedText {
    type V = RenderedView;

    open spec fn view(&self) -> RenderedView {
        RenderedView {
            text: self.text@,
            highlights: self.highlights@,
            emoji_slots: emoji_slots(self.emoji_slots@),
        }
    }
}

} // verus!
