//! Colours and text styles of the terminal, and the theme that names the styles of a message.

use vstd::prelude::*;

verus! {

#[derive(Clone, Copy, Debug, PartialEq, Eq, Structural)]
pub enum Color {
    Reset,
    Black,
    Red,
    Green,
    Yellow,
    Blue,
    Magenta,
    Cyan,
    Gray,
    DarkGray,
    White,
    Indexed(u8),
    Rgb(u8, u8, u8),
}

pub const BOLD: u16 = 0x01;

pub const ITALIC: u16 = 0x04;

pub const UNDERLINED: u16 = 0x08;

/// What a style changes: colours where it names them, and sets of modifier bits that it switches on
/// and off.
#[derive(Clone, Copy, Debug, PartialEq, Eq, Structural)]
pub struct Style {
    pub fg: Option<Color>,
    pub bg: Option<Color>,
    pub add_modifier: u16,
    pub sub_modifier: u16,
}

impl Style {
    /// The style that changes nothing.
    pub open spec fn none() -> Style {
        Style { fg: None, bg: None, add_modifier: 0, sub_modifier: 0 }
    }

    pub fn plain() -> (s: Style)
        ensures
            s == Style::none(),
    {
        Style { fg: None, bg: None, add_modifier: 0, sub_modifier: 0 }
    }

    pub open spec fn with_fg(self, color: Color) -> Style {
        Style { fg: Some(color), ..self }
    }

    pub fn fg(self, color: Color) -> (s: Style)
        ensures
            s == self.with_fg(color),
    {
        Style { fg: Some(color), bg: self.bg, add_modifier: self.add_modifier, sub_modifier: self.sub_modifier }
    }

    pub open spec fn with_bg(self, color: Color) -> Style {
        Style { bg: Some(color), ..self }
    }

    pub fn bg(self, color: Color) -> (s: Style)
        ensures
            s == self.with_bg(color),
    {
        Style { fg: self.fg, bg: Some(color), add_modifier: self.add_modifier, sub_modifier: self.sub_modifier }
    }

    pub open spec fn with_modifier(self, m: u16) -> Style {
        Style { add_modifier: self.add_modifier | m, sub_modifier: self.sub_modifier & !m, ..self }
    }

    pub fn add_modifier(self, m: u16) -> (s: Style)
        ensures
            s == self.with_modifier(m),
    {
        Style {
            fg: self.fg,
            bg: self.bg,
            add_modifier: self.add_modifier | m,
            sub_modifier: self.sub_modifier & !m,
        }
    }

    pub open spec fn without_modifier(self, m: u16) -> Style {
        Style { add_modifier: self.add_modifier & !m, sub_modifier: self.sub_modifier | m, ..self }
    }

    pub fn remove_modifier(self, m: u16) -> (s: Style)
        ensures
            s == self.without_modifier(m),
    {
        Style {
            fg: self.fg,
            bg: self.bg,
            add_modifier: self.add_modifier & !m,
            sub_modifier: self.sub_modifier | m,
        }
    }

    /// This style with `other` on top: what `other` says wins, the rest stays.
    pub open spec fn patched(self, other: Style) -> Style {
        Style {
            fg: if other.fg is Some {
                other.fg
            } else {
                self.fg
            },
            bg: if other.bg is Some {
                other.bg
            } else {
                self.bg
            },
            add_modifier: (self.add_modifier & !other.sub_modifier) | other.add_modifier,
            sub_modifier: (self.sub_modifier & !other.add_modifier) | other.sub_modifier,
        }
    }

    pub fn patch(self, other: Style) -> (s: Style)
        ensures
            s == self.patched(other),
    {
        Style {
            fg: if other.fg.is_some() {
                other.fg
            } else {
                self.fg
            },
            bg: if other.bg.is_some() {
                other.bg
            } else {
                self.bg
            },
            add_modifier: (self.add_modifier & !other.sub_modifier) | other.add_modifier,
            sub_modifier: (self.sub_modifier & !other.add_modifier) | other.sub_modifier,
        }
    }
}

/// A style laid over itself changes nothing more.
pub proof fn patching_twice_is_patching_once(base: Style, over: Style)
    ensures
        base.patched(over).patched(over) == base.patched(over),
        base.patched(Style::none()) == base,
{
    let a = base.add_modifier;
    let s = base.sub_modifier;
    let x = over.add_modifier;
    let y = over.sub_modifier;
    assert((((a & !y) | x) & !y) | x == (a & !y) | x) by (bit_vector);
    assert((((s & !x) | y) & !x) | y == (s & !x) | y) by (bit_vector);
    assert((a & !0u16) | 0u16 == a) by (bit_vector);
    assert((s & !0u16) | 0u16 == s) by (bit_vector);
}

/// The colour that a 24-bit number stands for.
pub open spec fn color_of(color: u32) -> Color {
    Color::Rgb((color / 0x10000 % 0x100) as u8, (color / 0x100 % 0x100) as u8, (color % 0x100) as u8)
}

pub fn embed_color(color: u32) -> (c: Color)
    ensures
        c == color_of(color),
{
    assert((color >> 16) & 0xff == color / 0x10000 % 0x100) by (bit_vector);
    assert((color >> 8) & 0xff == color / 0x100 % 0x100) by (bit_vector);
    assert(color & 0xff == color % 0x100) by (bit_vector);
    Color::Rgb(((color >> 16) & 0xff) as u8, ((color >> 8) & 0xff) as u8, (color & 0xff) as u8)
}

/// The styles that the parts of a message are drawn in.
#[derive(Clone, Copy, Debug, PartialEq, Eq)]
pub struct Theme {
    pub accent: Style,
    pub message_body: Style,
    pub message_muted: Style,
    pub message_secondary: Style,
    pub message_attachment: Style,
    pub message_link: Style,
    pub edited: Style,
    pub mention_self: Style,
    pub mention_other: Style,
    pub mention_role: Style,
    pub mention_role_background_cleared: bool,
    pub embed_author: Style,
    pub embed_title: Style,
    pub embed_field_name: Style,
    pub embed_footer: Style,
    pub embed_link: Style,
    pub embed_gutter: Style,
}

/// The built-in theme.
pub open spec fn default_theme() -> Theme {
    let none = Style::none();
    let dim = none.with_fg(Color::DarkGray);
    Theme {
        accent: none.with_fg(Color::Cyan),
        message_body: none,
        message_muted: none,
        message_secondary: dim,
        message_attachment: none.with_fg(Color::Cyan),
        message_link: none.with_fg(Color::Blue).with_modifier(UNDERLINED),
        edited: dim,
        mention_self: none.with_bg(Color::Rgb(92, 76, 35)).with_fg(Color::Yellow),
        mention_other: none.with_bg(Color::Rgb(40, 50, 92)).with_fg(Color::Rgb(193, 206, 247)),
        mention_role: none,
        mention_role_background_cleared: false,
        embed_author: none.with_modifier(ITALIC),
        embed_title: none.with_fg(Color::Blue).with_modifier(BOLD),
        embed_field_name: none.with_modifier(BOLD).with_modifier(UNDERLINED),
        embed_footer: dim.with_modifier(ITALIC),
        embed_link: none.with_fg(Color::Blue).with_modifier(UNDERLINED),
        embed_gutter: none.with_fg(Color::Red),
    }
}

impl Default for Theme {
    fn default() -> (t: Theme)
        ensures
            t == default_theme(),
    {
        let none = Style::plain();
        let dim = none.fg(Color::DarkGray);
        Theme {
            accent: none.fg(Color::Cyan),
            message_body: none,
            message_muted: none,
            message_secondary: dim,
            message_attachment: none.fg(Color::Cyan),
            message_link: none.fg(Color::Blue).add_modifier(UNDERLINED),
            edited: dim,
            mention_self: none.bg(Color::Rgb(92, 76, 35)).fg(Color::Yellow),
            mention_other: none.bg(Color::Rgb(40, 50, 92)).fg(Color::Rgb(193, 206, 247)),
            mention_role: none,
            mention_role_background_cleared: false,
            embed_author: none.add_modifier(ITALIC),
            embed_title: none.fg(Color::Blue).add_modifier(BOLD),
            embed_field_name: none.add_modifier(BOLD).add_modifier(UNDERLINED),
            embed_footer: dim.add_modifier(ITALIC),
            embed_link: none.fg(Color::Blue).add_modifier(UNDERLINED),
            embed_gutter: none.fg(Color::Red),
        }
    }
}

} // verus!
