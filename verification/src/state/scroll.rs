//! Moving a cursor through a list, and the part of the list that is shown.

use vstd::prelude::*;

verus! {

/// How many rows are kept visible above and below the cursor, where there is room.
pub const SCROLL_OFF: usize = 3;

pub open spec fn last_of(len: int) -> int {
    if len > 0 {
        len - 1
    } else {
        0
    }
}

pub open spec fn least(a: int, b: int) -> int {
    if a <= b {
        a
    } else {
        b
    }
}

/// `a - b`, but not below zero.
pub open spec fn minus(a: int, b: int) -> int {
    if a >= b {
        a - b
    } else {
        0
    }
}

pub fn min_of(a: usize, b: usize) -> (r: usize)
    ensures
        r == least(a as int, b as int),
{
    if a <= b {
        a
    } else {
        b
    }
}

/// The last index of a list, or zero where it is empty.
pub fn last_index(len: usize) -> (r: usize)
    ensures
        r == last_of(len as int),
{
    len.saturating_sub(1)
}

/// An index that does not lie behind the list.
pub fn clamp_selected_index(selected: usize, len: usize) -> (r: usize)
    ensures
        r == least(selected as int, last_of(len as int)),
{
    min_of(selected, last_index(len))
}

/// The rows of a pane, at least one.
pub open spec fn content_rows(height: usize) -> usize {
    if height == 0 {
        1
    } else {
        height
    }
}

pub fn pane_content_height(height: usize) -> (r: usize)
    ensures
        r == content_rows(height),
{
    if height == 0 {
        1
    } else {
        height
    }
}

pub fn move_index_down(index: &mut usize, len: usize)
    ensures
        *final(index) == least(*old(index) + 1, last_of(len as int)),
{
    *index = min_of(index.saturating_add(1), last_index(len));
}

pub fn move_index_up(index: &mut usize)
    ensures
        *final(index) == minus(*old(index) as int, 1),
{
    *index = index.saturating_sub(1);
}

pub fn move_index_down_by(index: &mut usize, len: usize, distance: usize)
    ensures
        *final(index) == least(*old(index) + distance, last_of(len as int)),
{
    *index = min_of(index.saturating_add(distance), last_index(len));
}

pub fn move_index_up_by(index: &mut usize, distance: usize)
    ensures
        *final(index) == minus(*old(index) as int, distance as int),
{
    *index = index.saturating_sub(distance);
}

/// How many rows are kept around the cursor in a pane of some height.
pub open spec fn margin(height: int) -> int {
    least(SCROLL_OFF as int, minus(height, 1) / 2)
}

/// The first row that is shown: as near to `scroll` as the cursor, with its margin, and the end of the
/// list allow.
pub open spec fn list_scroll(cursor: int, scroll: int, height: int, len: int) -> int {
    let highest = minus(cursor, margin(height));
    let lowest = minus(cursor + margin(height) + 1, height);
    let near = if scroll > highest {
        highest
    } else if scroll < lowest {
        lowest
    } else {
        scroll
    };
    least(near, minus(len, height))
}

pub fn clamp_list_scroll(cursor: usize, scroll: usize, height: usize, len: usize) -> (r: usize)
    requires
        height > 0,
        cursor < len || len == 0 && cursor == 0,
    ensures
        r == list_scroll(cursor as int, scroll as int, height as int, len as int),
{
    let off: usize = min_of(SCROLL_OFF, (height - 1) / 2);
    let highest = cursor.saturating_sub(off);
    // The margin is less than half of the height.
    let lowest: usize = if cursor >= height - off - 1 { cursor - (height - off - 1) } else { 0 };
    let near = if scroll > highest {
        highest
    } else if scroll < lowest {
        lowest
    } else {
        scroll
    };
    min_of(near, len.saturating_sub(height))
}

/// The cursor is among the rows that are shown, and no row behind the list is shown where the list fills
/// the pane.
pub proof fn cursor_is_visible(cursor: int, scroll: int, height: int, len: int)
    requires
        0 <= cursor < len,
        0 <= scroll,
        height > 0,
    ensures
        list_scroll(cursor, scroll, height, len) <= cursor < list_scroll(cursor, scroll, height, len) + height,
        0 <= list_scroll(cursor, scroll, height, len) <= minus(len, height),
{
}

/// A list that was scrolled into place stays there.
pub proof fn scrolling_into_place_settles(cursor: int, scroll: int, height: int, len: int)
    requires
        0 <= cursor < len,
        0 <= scroll,
        height > 0,
    ensures
        list_scroll(cursor, list_scroll(cursor, scroll, height, len), height, len) == list_scroll(
            cursor,
            scroll,
            height,
            len,
        ),
{
}

/// Where a message pane begins: the first message, and the rows of it that are cut off.
#[derive(Clone, Copy, Debug, PartialEq, Eq, Structural)]
pub struct RowPosition {
    pub message: usize,
    pub line: usize,
}

/// One row further down: within the message, or to the next message if there is one.
pub open spec fn row_down(at: RowPosition, len: int, height: Option<usize>) -> RowPosition {
    match height {
        None => at,
        Some(h) => if at.line + 1 < h {
            RowPosition { line: (at.line + 1) as usize, ..at }
        } else if at.message + 1 < len {
            RowPosition { message: (at.message + 1) as usize, line: 0 }
        } else {
            at
        },
    }
}

pub fn scroll_message_row_down(at: RowPosition, len: usize, height: Option<usize>) -> (r: RowPosition)
    ensures
        r == row_down(at, len as int, height),
{
    match height {
        None => at,
        Some(h) => {
            if h > 0 && at.line < h - 1 {
                RowPosition { message: at.message, line: at.line + 1 }
            } else if len > 0 && at.message < len - 1 {
                RowPosition { message: at.message + 1, line: 0 }
            } else {
                at
            }
        },
    }
}

/// One row further up: within the message, or to the last row of the message before.
pub open spec fn row_up(at: RowPosition, previous: Option<usize>) -> RowPosition {
    if at.line > 0 {
        RowPosition { line: (at.line - 1) as usize, ..at }
    } else {
        match previous {
            None => at,
            Some(h) => RowPosition {
                message: minus(at.message as int, 1) as usize,
                line: minus(h as int, 1) as usize,
            },
        }
    }
}

pub fn scroll_message_row_up(at: RowPosition, previous: Option<usize>) -> (r: RowPosition)
    ensures
        r == row_up(at, previous),
{
    if at.line > 0 {
        return RowPosition { message: at.message, line: at.line - 1 };
    }
    match previous {
        None => at,
        Some(h) => RowPosition { message: at.message.saturating_sub(1), line: h.saturating_sub(1) },
    }
}

/// The rows cut off of a message leave at least one.
pub open spec fn kept_line(line: usize, height: Option<usize>) -> usize {
    match height {
        None => 0,
        Some(h) => least(line as int, minus(h as int, 1)) as usize,
    }
}

pub fn normalize_message_line_scroll(line: usize, height: Option<usize>) -> (r: usize)
    ensures
        r == kept_line(line, height),
{
    match height {
        None => 0,
        Some(h) => min_of(line, h.saturating_sub(1)),
    }
}

/// A step down and a step up lead back, wherever the step down moved.
pub proof fn up_undoes_down(at: RowPosition, len: usize, height: usize)
    requires
        height > 0,
        at.line < height,
        row_down(at, len as int, Some(height)) != at,
    ensures
        row_up(row_down(at, len as int, Some(height)), Some(height)) == at,
{
}

} // verus!
