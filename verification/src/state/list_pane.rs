//! A list with a cursor, of which a part is shown.

use crate::state::scroll::{
    clamp_list_scroll, clamp_selected_index, content_rows, last_of, least, list_scroll, min_of, minus,
    pane_content_height,
};
use vstd::prelude::*;

verus! {

#[derive(Clone, Copy, Debug, PartialEq, Eq, Structural)]
pub struct ListPane {
    pub selected: usize,
    pub scroll: usize,
    pub view_height: usize,
}

/// Half of the rows of a pane, at least one.
pub open spec fn half_page(view_height: usize) -> int {
    if content_rows(view_height) / 2 >= 1 {
        content_rows(view_height) as int / 2
    } else {
        1
    }
}

pub fn half_page_rows(view_height: usize) -> (r: usize)
    ensures
        r == half_page(view_height),
{
    let half = pane_content_height(view_height) / 2;
    if half >= 1 {
        half
    } else {
        1
    }
}

impl ListPane {
    pub fn new(selected: usize) -> (r: ListPane)
        ensures
            r == (ListPane { selected, scroll: 0, view_height: 1 }),
    {
        ListPane { selected, scroll: 0, view_height: 1 }
    }

    /// The cursor among `len` rows.
    pub open spec fn cursor(self, len: int) -> int {
        least(self.selected as int, last_of(len))
    }

    pub fn index(&self, len: usize) -> (r: usize)
        ensures
            r == self.cursor(len as int),
    {
        clamp_selected_index(self.selected, len)
    }

    /// Scrolled so that a line is shown, of `len`.
    pub open spec fn showing(self, line: int, len: int) -> ListPane {
        ListPane {
            scroll: list_scroll(line, self.scroll as int, content_rows(self.view_height) as int, len) as usize,
            ..self
        }
    }

    pub fn show_line(&mut self, line: usize, len: usize)
        requires
            line < len || len == 0 && line == 0,
        ensures
            *final(self) == old(self).showing(line as int, len as int),
    {
        self.scroll = clamp_list_scroll(line, self.scroll, pane_content_height(self.view_height), len);
    }

    /// With the cursor on a row of `len` and that row shown.
    pub open spec fn on_row(self, row: int, len: int) -> ListPane {
        let row = least(row, last_of(len));
        (ListPane { selected: row as usize, ..self }).showing(row, len)
    }

    pub fn go_to_row(&mut self, row: usize, len: usize)
        ensures
            *final(self) == old(self).on_row(row as int, len as int),
    {
        self.selected = clamp_selected_index(row, len);
        self.show_line(self.selected, len);
    }

    /// The rows that are shown, the first and the one behind the last.
    pub fn visible_rows(&self, len: usize) -> (r: (usize, usize))
        ensures
            r.0 == least(self.scroll as int, len as int),
            r.1 == least(self.scroll + content_rows(self.view_height), len as int),
    {
        let end = self.scroll.saturating_add(pane_content_height(self.view_height));
        (min_of(self.scroll, len), min_of(end, len))
    }

    /// The place of the cursor among the rows that are shown.
    pub fn focused_selection(&self, focused: bool, len: usize) -> (r: Option<usize>)
        ensures
            r == (if focused && len > 0 {
                Some(minus(self.cursor(len as int), self.scroll as int) as usize)
            } else {
                None
            }),
    {
        if !focused || len == 0 {
            return None;
        }
        Some(self.index(len).saturating_sub(self.scroll))
    }
}

/// Wherever the cursor goes, its row is shown.
pub proof fn the_cursor_row_is_shown(pane: ListPane, row: int, len: int)
    requires
        0 <= row,
        0 < len <= usize::MAX,
    ensures
        ({
            let after = pane.on_row(row, len);
            &&& after.selected == least(row, len - 1)
            &&& after.scroll <= after.selected < after.scroll + content_rows(pane.view_height)
        }),
{
}

} // verus!
