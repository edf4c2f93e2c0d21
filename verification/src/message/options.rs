//! What formatting a message depends on besides the message.

use crate::style::{default_theme, Theme};
use vstd::prelude::*;

verus! {

/// The theme, the preferences of the reader, and the sizes of emoji images in cells.
#[derive(Clone, Copy, Debug, PartialEq, Eq)]
pub struct FormatOptions {
    pub theme: Theme,
    pub show_custom_emoji: bool,
    pub show_images: bool,
    pub compact_emoji_width: u16,
    pub standalone_emoji_width: u16,
    pub standalone_emoji_height: u16,
}

impl FormatOptions {
    /// An emoji that stands alone takes at least one cell.
    pub open spec fn wf(self) -> bool {
        self.standalone_emoji_width > 0 && self.standalone_emoji_height > 0
    }
}

impl Default for FormatOptions {
    fn default() -> (r: FormatOptions)
        ensures
            r.wf(),
            r.theme == default_theme(),
            r.show_custom_emoji,
            r.show_images,
            r.compact_emoji_width == 2,
            r.standalone_emoji_width == 4,
            r.standalone_emoji_height == 2,
    {
        FormatOptions {
            theme: Theme::default(),
            show_custom_emoji: true,
            show_images: true,
            compact_emoji_width: 2,
            standalone_emoji_width: 4,
            standalone_emoji_height: 2,
        }
    }
}

} // verus!
