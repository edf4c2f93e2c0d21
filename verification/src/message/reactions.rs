//! The reactions to a message, laid out as chips.

use crate::ids::EmojiId;
use crate::message::line::{lemma_line_views_push, line_views, styled_line, MessageContentLine};
use crate::message::wrap::{column, sat_add, to_col};
use crate::style::Theme;
use crate::text::{decimal, decimal_string, opt_text, repeat_char, repeated, texts};
use crate::unicode::{display_width, str_width};
use vstd::prelude::*;
use vstd::string::*;

verus! {

pub const EMOJI_REACTION_IMAGE_WIDTH: u16 = 2;

/// An emoji that a message can be reacted to with. A custom one has an image at an address.
#[derive(Debug, PartialEq, Eq)]
pub enum ReactionEmoji {
    Unicode(String),
    Custom { id: EmojiId, name: Option<String>, animated: bool, image_url: Option<String> },
}

impl ReactionEmoji {
    /// The address of the image of a custom emoji.
    pub open spec fn image_url(self) -> Option<Seq<char>> {
        match self {
            ReactionEmoji::Unicode(_) => None,
            ReactionEmoji::Custom { image_url, .. } => opt_text(image_url),
        }
    }

    pub fn custom_image_url(&self) -> (r: Option<String>)
        ensures
            opt_text(r) == self.image_url(),
    {
        match self {
            ReactionEmoji::Unicode(_) => None,
            ReactionEmoji::Custom { image_url, .. } => match image_url {
                Some(url) => Some(url.clone()),
                None => None,
            },
        }
    }

    pub fn copy(&self) -> (r: ReactionEmoji)
        ensures
            r == *self,
    {
        match self {
            ReactionEmoji::Unicode(text) => ReactionEmoji::Unicode(text.clone()),
            ReactionEmoji::Custom { id, name, animated, image_url } => ReactionEmoji::Custom {
                id: *id,
                name: copy_opt(name),
                animated: *animated,
                image_url: copy_opt(image_url),
            },
        }
    }
}

fn copy_opt(text: &Option<String>) -> (r: Option<String>)
    ensures
        r == *text,
{
    match text {
        Some(text) => Some(text.clone()),
        None => None,
    }
}

#[derive(Debug, PartialEq, Eq)]
pub struct ReactionInfo {
    pub emoji: ReactionEmoji,
    pub count: u64,
    pub me: bool,
}

/// A chip: its text, and for a custom emoji the column of the image in it and the address of that.
pub struct Chip {
    pub text: Seq<char>,
    pub image_offset: Option<usize>,
    pub url: Option<Seq<char>>,
}

/// The chip of a reaction. The image of a custom emoji gets a fixed number of blanks, so that nothing
/// moves when it is loaded.
pub open spec fn chip_of(r: ReactionInfo) -> Chip {
    let count = decimal(r.count as nat);
    let prefix = if r.me { "[● "@ } else { "["@ };
    match r.emoji {
        ReactionEmoji::Unicode(emoji) => Chip {
            text: prefix + emoji@ + " "@ + count + "]"@,
            image_offset: None,
            url: None,
        },
        ReactionEmoji::Custom { .. } => Chip {
            text: prefix + repeated(' ', EMOJI_REACTION_IMAGE_WIDTH as nat) + " "@ + count + "]"@,
            image_offset: Some(display_width(prefix)),
            url: r.emoji.image_url(),
        },
    }
}

pub fn build_reaction_chip(reaction: &ReactionInfo) -> (r: (String, Option<usize>, Option<String>))
    ensures
        ({
            let chip = chip_of(*reaction);
            r.0@ == chip.text && r.1 == chip.image_offset && opt_text(r.2) == chip.url
        }),
{
    let count = decimal_string(reaction.count);
    let prefix = if reaction.me {
        "[● "
    } else {
        "["
    };
    let mut text = prefix.to_owned();
    let mut offset: Option<usize> = None;
    let mut url: Option<String> = None;
    match &reaction.emoji {
        ReactionEmoji::Unicode(emoji) => {
            text.append(emoji.as_str());
        },
        ReactionEmoji::Custom { .. } => {
            let blanks = repeat_char(' ', EMOJI_REACTION_IMAGE_WIDTH as usize);
            text.append(blanks.as_str());
            offset = Some(str_width(prefix));
            url = reaction.emoji.custom_image_url();
        },
    }
    text.append(" ");
    text.append(count.as_str());
    text.append("]");
    (text, offset, url)
}

/// The place of an emoji image in the rows of reactions.
#[derive(Debug, PartialEq, Eq)]
pub struct ReactionImageSlot {
    pub line: u16,
    pub col: u16,
    pub url: String,
}

pub struct ReactionSlotView {
    pub line: u16,
    pub col: u16,
    pub url: Seq<char>,
}

impl View for ReactionImageSlot {
    type V = ReactionSlotView;

    open spec fn view(&self) -> ReactionSlotView {
        ReactionSlotView { line: self.line, col: self.col, url: self.url@ }
    }
}

pub open spec fn slot_views(v: Seq<ReactionImageSlot>) -> Seq<ReactionSlotView> {
    v.map_values(|s: ReactionImageSlot| s@)
}

/// The rows of reactions, and the places of the emoji images in them.
#[derive(Debug, PartialEq, Eq)]
pub struct ReactionLayout {
    pub lines: Vec<String>,
    pub slots: Vec<ReactionImageSlot>,
}

/// The state of laying out chips.
pub struct ChipState {
    pub lines: Seq<Seq<char>>,
    pub current: Seq<char>,
    pub width: usize,
    pub slots: Seq<ReactionSlotView>,
}

/// The row at hand is finished where it holds something and the chip does not fit behind it.
pub open spec fn break_row(st: ChipState, chip: Chip, width: usize) -> ChipState {
    let separator: usize = if st.width == 0 { 0 } else { 2 };
    if st.width > 0 && sat_add(sat_add(st.width, separator), display_width(chip.text)) > width {
        ChipState { lines: st.lines.push(st.current), current: seq![], width: 0, ..st }
    } else {
        st
    }
}

/// The chip joins the row, two blanks behind the one before it.
pub open spec fn put_chip(st: ChipState, chip: Chip) -> ChipState {
    let start = if st.width == 0 { 0 } else { sat_add(st.width, 2) };
    let text = if st.width == 0 { st.current } else { st.current + "  "@ };
    ChipState {
        lines: st.lines,
        current: text + chip.text,
        width: sat_add(start, display_width(chip.text)),
        slots: match (chip.image_offset, chip.url) {
            (Some(offset), Some(url)) => st.slots.push(
                ReactionSlotView { line: to_col(st.lines.len() as usize), col: to_col(sat_add(start, offset)), url },
            ),
            _ => st.slots,
        },
    }
}

pub open spec fn lay_out(reactions: Seq<ReactionInfo>, width: usize) -> ChipState
    decreases reactions.len(),
{
    if reactions.len() == 0 {
        ChipState { lines: seq![], current: seq![], width: 0, slots: seq![] }
    } else {
        let before = lay_out(reactions.drop_last(), width);
        let last = reactions.last();
        if last.count > 0 {
            put_chip(break_row(before, chip_of(last), width), chip_of(last))
        } else {
            before
        }
    }
}

/// The rows of the reactions that someone gave.
pub open spec fn reaction_rows(reactions: Seq<ReactionInfo>, width: usize) -> Seq<Seq<char>> {
    let st = lay_out(reactions, if width == 0 { 1 } else { width });
    if st.current.len() == 0 {
        st.lines
    } else {
        st.lines.push(st.current)
    }
}

pub open spec fn reaction_slots(reactions: Seq<ReactionInfo>, width: usize) -> Seq<ReactionSlotView> {
    lay_out(reactions, if width == 0 { 1 } else { width }).slots
}

/// Lays out the reactions to a message in rows of at most `width` columns; a chip is never split.
pub fn lay_out_reaction_chips(reactions: &[ReactionInfo], width: usize) -> (r: ReactionLayout)
    ensures
        texts(r.lines@) == reaction_rows(reactions@, width),
        slot_views(r.slots@) == reaction_slots(reactions@, width),
{
    let width: usize = if width == 0 { 1 } else { width };
    let mut lines: Vec<String> = Vec::new();
    let mut slots: Vec<ReactionImageSlot> = Vec::new();
    let mut current = String::new();
    let mut current_width: usize = 0;
    let mut i: usize = 0;
    proof {
        assert(reactions@.take(0) =~= Seq::<ReactionInfo>::empty());
        assert(texts(lines@) =~= Seq::<Seq<char>>::empty());
        assert(slot_views(slots@) =~= Seq::<ReactionSlotView>::empty());
        assert(current@ =~= Seq::<char>::empty());
    }
    while i < reactions.len()
        invariant
            i <= reactions@.len(),
            ({
                let st = lay_out(reactions@.take(i as int), width);
                &&& texts(lines@) == st.lines
                &&& current@ == st.current
                &&& current_width == st.width
                &&& slot_views(slots@) == st.slots
            }),
        decreases reactions@.len() - i,
    {
        let ghost st = lay_out(reactions@.take(i as int), width);
        proof {
            assert(reactions@.take(i + 1).drop_last() =~= reactions@.take(i as int));
            assert(reactions@.take(i + 1).last() == reactions@[i as int]);
        }
        if reactions[i].count > 0 {
            let (chip, offset, url) = build_reaction_chip(&reactions[i]);
            let chip_width: usize = str_width(chip.as_str());
            let separator: usize = if current_width == 0 { 0 } else { 2 };
            let projected: usize = current_width.saturating_add(separator).saturating_add(chip_width);
            if current_width > 0 && projected > width {
                proof {
                    assert(texts(lines@.push(current)) =~= texts(lines@).push(current@));
                }
                lines.push(current);
                current = String::new();
                current_width = 0;
                assert(current@ =~= Seq::<char>::empty());
            }
            let start: usize = if current_width == 0 {
                0
            } else {
                current.append("  ");
                current_width.saturating_add(2)
            };
            current.append(chip.as_str());
            current_width = start.saturating_add(chip_width);
            if let Some(offset) = offset {
                if let Some(url) = url {
                    let row: usize = lines.len();
                    let slot = ReactionImageSlot { line: column(row), col: column(start.saturating_add(offset)), url };
                    proof {
                        assert(texts(lines@).len() == lines@.len());
                        assert(slot_views(slots@.push(slot)) =~= slot_views(slots@).push(slot@));
                    }
                    slots.push(slot);
                }
            }
        }
        i += 1;
    }
    assert(reactions@.take(i as int) =~= reactions@);
    if !current.as_str().is_empty() {
        proof {
            assert(texts(lines@.push(current)) =~= texts(lines@).push(current@));
        }
        lines.push(current);
    }
    ReactionLayout { lines, slots }
}

/// The rows of reactions as lines of the message.
pub fn format_reaction_lines(reactions: &[ReactionInfo], width: usize, theme: &Theme) -> (r: Vec<MessageContentLine>)
    ensures
        line_views(r@) == reaction_rows(reactions@, width).map_values(
            |t: Seq<char>| styled_line(t, theme.accent, seq![]),
        ),
{
    let layout = lay_out_reaction_chips(reactions, width);
    let ghost all = layout.lines@;
    let ghost expected = texts(all).map_values(|t: Seq<char>| styled_line(t, theme.accent, seq![]));
    let mut out: Vec<MessageContentLine> = Vec::new();
    assert(line_views(out@) =~= expected.take(0));
    for text in it: layout.lines
        invariant
            it.seq() == all,
            expected == texts(all).map_values(|t: Seq<char>| styled_line(t, theme.accent, seq![])),
            line_views(out@) == expected.take(it.index()),
    {
        let line = MessageContentLine::accent(text, theme);
        proof {
            assert(texts(all)[it.index()] == text@);
            lemma_line_views_push(out@, line);
            assert(expected[it.index()] == line@);
            assert(expected.take(it.index() + 1) =~= expected.take(it.index()).push(line@));
        }
        out.push(line);
    }
    assert(expected.take(all.len() as int) =~= expected);
    out
}

/// Reactions that nobody gives any more are not shown.
pub proof fn counts_of_zero_are_not_shown(reactions: Seq<ReactionInfo>, width: usize)
    requires
        forall|i: int| 0 <= i < reactions.len() ==> (#[trigger] reactions[i]).count == 0,
    ensures
        reaction_rows(reactions, width).len() == 0,
        reaction_slots(reactions, width).len() == 0,
{
    lemma_zero_counts(reactions, if width == 0 { 1 } else { width });
}

proof fn lemma_zero_counts(reactions: Seq<ReactionInfo>, width: usize)
    requires
        forall|i: int| 0 <= i < reactions.len() ==> (#[trigger] reactions[i]).count == 0,
    ensures
        lay_out(reactions, width).lines.len() == 0,
        lay_out(reactions, width).current.len() == 0,
        lay_out(reactions, width).slots.len() == 0,
    decreases reactions.len(),
{
    if reactions.len() > 0 {
        assert forall|i: int| 0 <= i < reactions.drop_last().len() implies (#[trigger] reactions.drop_last()[i]).count
            == 0 by {
            assert(reactions.drop_last()[i] == reactions[i]);
        }
        lemma_zero_counts(reactions.drop_last(), width);
        assert(reactions[reactions.len() - 1] == reactions.last());
    }
}

} // verus!
