//! The part of a list that a popup shows.

use crate::state::scroll::{least, min_of, minus};
use vstd::prelude::*;

verus! {

pub const MAX_EMOJI_REACTION_VISIBLE_ITEMS: usize = 10;

/// How many items are shown: at least one, and not more than there are.
pub open spec fn window_size(visible: int, len: int) -> int {
    least(if visible >= 1 { visible } else { 1 }, if len >= 1 { len } else { 1 })
}

/// The items that are shown, the first and the one behind the last.
pub fn visible_window(scroll: usize, visible_items: usize, items_len: usize) -> (r: (usize, usize))
    ensures
        r.0 == least(scroll as int, minus(items_len as int, window_size(visible_items as int, items_len as int))),
        r.1 == least(r.0 + window_size(visible_items as int, items_len as int), items_len as int),
{
    let visible = if visible_items >= 1 { visible_items } else { 1 };
    let visible = min_of(visible, if items_len >= 1 { items_len } else { 1 });
    let start = min_of(scroll, items_len.saturating_sub(visible));
    (start, min_of(start.saturating_add(visible), items_len))
}

/// The window lies in the list, and is full where the list is long enough.
pub proof fn windows_lie_in_the_list(scroll: int, visible: int, len: int)
    requires
        0 <= scroll,
        0 <= visible,
        0 <= len,
    ensures
        ({
            let start = least(scroll, minus(len, window_size(visible, len)));
            let end = least(start + window_size(visible, len), len);
            0 <= start <= end <= len && (1 <= visible <= len ==> end - start == visible)
        }),
{
}

} // verus!
