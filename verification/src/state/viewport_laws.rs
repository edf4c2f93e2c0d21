//! What the message pane shows, counted in rows.

use crate::ids::MessageId;
use crate::state::message_viewport::{first_newer, message_at_row, newer_count, MessageViewport, PaneContent};
use crate::state::scroll::{least, margin, minus, row_down, row_up, RowPosition, SCROLL_OFF};
use vstd::prelude::*;

verus! {

// ---- Rows ----

/// The rows of the first `n` messages: those of each, and one for each line with a date.
pub open spec fn rows_above(c: PaneContent, n: int) -> int
    decreases n,
{
    if n <= 0 {
        0
    } else {
        rows_above(c, n - 1) + (if n <= c.ids@.len() {
            c.heights@[n - 1] + (if c.new_day@[n - 1] { 1int } else { 0int })
        } else {
            0
        })
    }
}

/// The rows of the messages without the lines with dates.
pub open spec fn plain_rows(heights: Seq<usize>) -> int
    decreases heights.len(),
{
    if heights.len() == 0 {
        0
    } else {
        plain_rows(heights.drop_last()) + heights.last()
    }
}

/// The row that the pane begins with, counted from the first row of the first message.
pub open spec fn top_row(v: MessageViewport, c: PaneContent) -> int {
    rows_above(c, v.message_scroll as int) + v.message_line_scroll
}

/// How many rows the pane has.
pub open spec fn pane_rows(v: MessageViewport) -> int {
    if v.message_view_height == 0 {
        1
    } else {
        v.message_view_height as int
    }
}

/// Whether the pane begins within a message.
pub open spec fn begins_in_a_message(v: MessageViewport, c: PaneContent) -> bool {
    &&& v.message_scroll < c.ids@.len()
    &&& top_row(v, c) < rows_above(c, v.message_scroll + 1)
}

/// Whether some row of a message is shown.
pub open spec fn is_on_screen(v: MessageViewport, c: PaneContent, i: int) -> bool {
    rows_above(c, i) < top_row(v, c) + pane_rows(v) && rows_above(c, i + 1) > top_row(v, c)
}

/// Whether all rows of a message are shown.
pub open spec fn is_wholly_on_screen(v: MessageViewport, c: PaneContent, i: int) -> bool {
    top_row(v, c) <= rows_above(c, i) && rows_above(c, i + 1) <= top_row(v, c) + pane_rows(v)
}

proof fn lemma_rows_above(c: PaneContent, n: int)
    ensures
        rows_above(c, n) == c.rows(0, n),
    decreases n,
{
    if n > 0 {
        lemma_rows_above(c, n - 1);
    }
}

proof fn lemma_heights(c: PaneContent, n: int)
    requires
        c.wf(),
        0 <= n < c.len(),
    ensures
        rows_above(c, n + 1) == rows_above(c, n) + c.height_at(n),
        1 <= c.height_at(n) <= usize::MAX,
        0 <= rows_above(c, n),
        rows_above(c, n + 1) <= rows_above(c, c.len()),
        rows_above(c, c.len()) <= usize::MAX,
        rows_above(c, c.len()) == c.total(),
{
    lemma_rows_above(c, n);
    lemma_rows_above(c, n + 1);
    lemma_rows_above(c, c.len());
    c.lemma_height_bounds(n);
    c.lemma_rows_bounds(0, n);
    c.lemma_rows_bounds(0, n + 1);
}

/// Messages further down begin further down.
proof fn lemma_monotonic(c: PaneContent, a: int, b: int)
    requires
        c.wf(),
        0 <= a <= b <= c.len(),
    ensures
        b - a <= rows_above(c, b) - rows_above(c, a),
        rows_above(c, b) - rows_above(c, a) == c.rows(a, b),
{
    lemma_rows_above(c, a);
    lemma_rows_above(c, b);
    c.lemma_rows_split(0, a, b);
    c.lemma_rows_bounds(a, b);
}

proof fn lemma_plain_rows(heights: Seq<usize>)
    ensures
        plain_rows(heights) == MessageViewport::height_sum(heights),
        plain_rows(heights) >= 0,
    decreases heights.len(),
{
    if heights.len() > 0 {
        lemma_plain_rows(heights.drop_last());
    }
}

// ---- Settling ----

/// A place of the pane, as it is moved towards the selected message.
spec fn is_place(v: MessageViewport, c: PaneContent) -> bool {
    &&& c.wf()
    &&& !c.forum
    &&& v.message_scroll < c.len()
    &&& v.selected_message < c.len()
    &&& v.message_line_scroll < c.height_at(v.message_scroll as int)
}

spec fn distance(v: MessageViewport, c: PaneContent) -> int {
    rows_above(c, v.selected_message as int) - top_row(v, c)
}

spec fn own_height(v: MessageViewport, c: PaneContent) -> int {
    c.height_at(v.selected_message as int)
}

/// The selected message lies in the pane.
spec fn is_good(v: MessageViewport, c: PaneContent) -> bool {
    is_place(v, c) && 0 <= distance(v, c) && distance(v, c) + own_height(v, c) <= pane_rows(v)
}

proof fn lemma_place(v: MessageViewport, c: PaneContent)
    requires
        is_place(v, c),
    ensures
        v.content_height() == pane_rows(v),
        1 <= pane_rows(v) <= usize::MAX,
        1 <= own_height(v, c) <= usize::MAX,
        distance(v, c) > 0 <==> v.message_scroll < v.selected_message,
        distance(v, c) == 0 <==> v.message_scroll == v.selected_message && v.message_line_scroll == 0,
        v.selected_row(c) == (if distance(v, c) >= 0 { distance(v, c) } else { 0 }),
        v.selected_bottom(c) == least(v.selected_row(c) + own_height(v, c) - 1, usize::MAX as int),
        distance(v, c) <= usize::MAX,
{
    let (a, s) = (v.message_scroll as int, v.selected_message as int);
    lemma_heights(c, a);
    lemma_heights(c, s);
    if a < s {
        lemma_monotonic(c, a + 1, s);
        lemma_monotonic(c, a, s);
    } else {
        lemma_monotonic(c, s, a);
        if s < a {
            lemma_monotonic(c, s + 1, a);
        }
        assert(c.rows(a, s) == 0);
    }
}

proof fn lemma_down(v: MessageViewport, c: PaneContent)
    requires
        is_place(v, c),
        v.message_scroll < v.selected_message,
    ensures
        ({
            let w = v.placed(row_down(v.at(), c.len(), v.height_of_first(c)));
            is_place(w, c) && distance(w, c) == distance(v, c) - 1 && pane_rows(w) == pane_rows(v) && w.selected_message
                == v.selected_message && own_height(w, c) == own_height(v, c)
        }),
{
    let a = v.message_scroll as int;
    lemma_heights(c, a);
    lemma_heights(c, a + 1);
}

proof fn lemma_up(v: MessageViewport, c: PaneContent)
    requires
        is_place(v, c),
        v.message_scroll > 0,
    ensures
        ({
            let w = v.placed(row_up(v.at(), Some(c.height_at(v.message_scroll - 1) as usize)));
            is_place(w, c) && distance(w, c) == distance(v, c) + 1 && pane_rows(w) == pane_rows(v) && w.selected_message
                == v.selected_message && own_height(w, c) == own_height(v, c) && w.message_scroll <= v.message_scroll
        }),
{
    let a = v.message_scroll as int;
    lemma_heights(c, a);
    lemma_heights(c, a - 1);
}

/// What lies in the pane stays in it.
proof fn lemma_good(v: MessageViewport, c: PaneContent, steps: int)
    requires
        is_good(v, c),
    ensures
        is_good(v.settled(c, steps), c),
        v.settled(c, steps).selected_message == v.selected_message,
        pane_rows(v.settled(c, steps)) == pane_rows(v),
    decreases steps,
{
    if steps > 0 {
        lemma_place(v, c);
        match v.settle_step(c) {
            None => {},
            Some(at) => {
                if v.message_scroll < v.selected_message {
                    lemma_down(v, c);
                }
                if v.message_scroll > 0 {
                    lemma_up(v, c);
                    lemma_heights(c, v.message_scroll - 1);
                }
                lemma_good(v.placed(at), c, steps - 1);
            },
        }
    }
}

/// A message that is higher than the pane stays at its top.
proof fn lemma_tall(v: MessageViewport, c: PaneContent, steps: int)
    requires
        is_place(v, c),
        distance(v, c) == 0,
        own_height(v, c) > pane_rows(v),
    ensures
        v.settled(c, steps) == v,
{
    lemma_place(v, c);
    if v.message_scroll > 0 {
        lemma_heights(c, v.message_scroll - 1);
    }
}

/// The end of going down.
spec fn is_reached(v: MessageViewport, c: PaneContent) -> bool {
    is_good(v, c) || (is_place(v, c) && distance(v, c) == 0)
}

proof fn lemma_descend(v: MessageViewport, c: PaneContent, steps: int)
    requires
        is_place(v, c),
        distance(v, c) >= 0,
        steps >= 0,
    ensures
        ({
            let w = v.settled(c, steps);
            &&& is_reached(w, c) || (is_place(w, c) && distance(w, c) == distance(v, c) - steps && steps < distance(v, c))
            &&& w.selected_message == v.selected_message
            &&& pane_rows(w) == pane_rows(v)
        }),
    decreases steps,
{
    lemma_place(v, c);
    if is_good(v, c) {
        lemma_good(v, c, steps);
    } else if distance(v, c) == 0 {
        lemma_tall(v, c, steps);
    } else if steps > 0 {
        lemma_down(v, c);
        let w = v.placed(row_down(v.at(), c.len(), v.height_of_first(c)));
        let s = v.selected_message as int;
        c.lemma_rows_bounds(s + 1, least(s + 1 + SCROLL_OFF, c.len()));
        assert(v.settle_step(c) == Some(w.at()));
        assert(v.placed(w.at()) == w);
        lemma_descend(w, c, steps - 1);
    }
}

/// Whether each message from `a` to before `b` leaves room for the selected one beside it.
pub open spec fn leave_room(c: PaneContent, selected: int, a: int, b: int, rows: int) -> bool {
    forall|i: int|
        a <= i < b ==> (#[trigger] rows_above(c, i + 1) - rows_above(c, i)) + (rows_above(c, selected + 1) - rows_above(
            c,
            selected,
        )) <= rows
}

/// Going up from behind the beginning of the selected message.
proof fn lemma_ascend(v: MessageViewport, c: PaneContent, steps: int)
    requires
        is_place(v, c),
        distance(v, c) < 0,
        v.selected_message > 0,
        pane_rows(v) >= 3,
        steps >= -distance(v, c),
        leave_room(
            c,
            v.selected_message as int,
            v.selected_message as int,
            v.message_scroll as int,
            pane_rows(v),
        ),
    ensures
        ({
            let w = v.settled(c, steps);
            &&& w.selected_message == v.selected_message
            &&& pane_rows(w) == pane_rows(v)
            &&& is_place(w, c)
            &&& w.message_scroll <= w.selected_message
            &&& is_good(w, c) || (distance(w, c) < 0 && w.message_scroll == w.selected_message)
            &&& leave_room(
                c,
                v.selected_message as int,
                v.selected_message - 1,
                v.message_scroll as int,
                pane_rows(v),
            ) ==> is_good(w, c)
        }),
    decreases steps,
{
    lemma_place(v, c);
    let a = v.message_scroll as int;
    let s = v.selected_message as int;
    lemma_heights(c, a - 1);
    lemma_heights(c, s);
    lemma_up(v, c);
    let previous = c.height_at(a - 1);
    let w = v.placed(row_up(v.at(), Some(previous as usize)));
    assert(rows_above(c, (a - 1) + 1) - rows_above(c, a - 1) == previous);
    assert(rows_above(c, s + 1) - rows_above(c, s) == own_height(v, c));
    assert(margin(v.content_height()) >= 1);
    if previous + own_height(v, c) <= pane_rows(v) {
        assert(v.settle_step(c) == Some(w.at()));
        assert(v.placed(w.at()) == w);
        if distance(w, c) == 0 {
            lemma_good(w, c, steps - 1);
            lemma_place(v.settled(c, steps), c);
        } else {
            lemma_place(w, c);
            lemma_ascend(w, c, steps - 1);
        }
    } else {
        assert(a == s);
        assert(v.settle_step(c) is None);
        if leave_room(c, s, s - 1, a, pane_rows(v)) {
            assert(rows_above(c, (s - 1) + 1) - rows_above(c, s - 1) + own_height(v, c) <= pane_rows(v));
        }
    }
}

/// In a small pane the selected message can always be in the middle.
proof fn lemma_small_pane(v: MessageViewport, c: PaneContent)
    requires
        is_place(v, c),
        v.selected_message > 0,
        v.centered(c) is None,
    ensures
        pane_rows(v) >= 3,
{
    let s = v.selected_message as int;
    lemma_place(v, c);
    lemma_heights(c, s);
    lemma_monotonic(c, 0, s);
    lemma_rows_above(c, s);
    assert(rows_above(c, 0) == 0);
}

proof fn lemma_centered(v: MessageViewport, c: PaneContent)
    requires
        is_place(v, c),
        v.centered(c) is Some,
    ensures
        ({
            let w = v.placed(v.centered(c)->0);
            &&& is_place(w, c)
            &&& distance(w, c) == (if pane_rows(v) / 2 >= own_height(v, c) / 2 {
                pane_rows(v) / 2 - own_height(v, c) / 2
            } else {
                0
            })
            &&& is_reached(w, c)
            &&& rows_above(c, c.len()) - top_row(w, c) >= pane_rows(v)
        }),
{
    let s = v.selected_message as int;
    lemma_place(v, c);
    lemma_heights(c, s);
    lemma_rows_above(c, s);
    lemma_rows_above(c, c.len());
    let row = c.rows(0, s) - v.rows_above_center(c);
    MessageViewport::lemma_position_exists(c, row, 0);
    let at = v.centered(c)->0;
    lemma_rows_above(c, at.message as int);
}

// ---- The laws ----

/// Whether the pane is to open at the first unread message: that is due, and there is one.
pub open spec fn opens_at_unread(v: MessageViewport, c: PaneContent) -> bool {
    &&& v.pending_unread_anchor_scroll
    &&& !c.pinned
    &&& v.unread_divider_last_acked_id matches Some(id) && exists|i: int|
        0 <= i < c.ids@.len() && #[trigger] c.ids@[i] > id
}

proof fn lemma_not_anchored(v: MessageViewport, c: PaneContent)
    requires
        !opens_at_unread(v, c),
    ensures
        v.anchored(c) == v,
{
    if v.unread_divider_last_acked_id is Some {
        let id = v.unread_divider_last_acked_id->0;
        MessageViewport::lemma_first_newer(c.ids@, id);
    }
}

/// Before a frame is drawn, a pane that keeps the selected message visible moves to it. The message is then shown
/// whole where it fits, and from its first row where it does not. There are two exceptions. The pane moves by at most
/// as many rows as the messages have without dates. And where it begins behind the first row of the selected message,
/// it goes up only past messages that fit into it together with the selected one.
pub proof fn the_selected_message_is_shown(
    v: MessageViewport,
    c: PaneContent,
    content_width: usize,
    preview_width: u16,
    max_preview_height: u16,
)
    requires
        c.wf(),
        !c.forum,
        c.ids@.len() > 0,
        content_width < usize::MAX,
        v.message_keep_selection_visible,
        !v.message_auto_follow,
        !opens_at_unread(v, c),
        begins_in_a_message(v, c),
    ensures
        ({
            let w = v.framed(c, content_width, preview_width, max_preview_height);
            let last = c.ids@.len() - 1;
            let s: int = if v.selected_message <= last { v.selected_message as int } else { last };
            let way = rows_above(c, s) - top_row(v, c);
            let most = if plain_rows(c.heights@) > 1 { plain_rows(c.heights@) } else { 1 };
            &&& w.selected_message == s
            &&& pane_rows(w) == pane_rows(v)
            &&& begins_in_a_message(w, c)
            &&& -most <= way <= most && leave_room(c, s, s - 1, v.message_scroll as int, pane_rows(v)) ==> is_shown_best(
                w,
                c,
                s,
            )
            &&& 0 <= way <= most ==> is_shown_best(w, c, s)
            &&& -most <= way < 0 && leave_room(c, s, s, v.message_scroll as int, pane_rows(v)) ==> is_on_screen(w, c, s)
            &&& way > most ==> is_shown_best(w, c, s) || top_row(w, c) == top_row(v, c) + most
        }),
{
    let w0 = MessageViewport {
        message_content_width: content_width,
        message_preview_width: preview_width,
        message_max_preview_height: max_preview_height,
        ..v
    };
    assert(opens_at_unread(w0, c) == opens_at_unread(v, c));
    lemma_not_anchored(w0, c);
    let u = w0.clamped(c);
    let n = c.ids@.len() as int;
    let a = v.message_scroll as int;
    lemma_heights(c, a);
    let n0 = u.normalized(c);
    assert(n0.message_scroll == v.message_scroll && n0.message_line_scroll == v.message_line_scroll);
    assert(is_place(n0, c));
    assert(top_row(n0, c) == top_row(v, c));
    let s = n0.selected_message as int;
    assert(n0.cursor(c) == s);
    let w = v.framed(c, content_width, preview_width, max_preview_height);
    let steps = MessageViewport::most_steps(c);
    lemma_plain_rows(c.heights@);
    lemma_place(n0, c);
    lemma_heights(c, s);
    assert(distance(n0, c) == rows_above(c, s) - top_row(v, c));
    assert(rows_above(c, 0) == 0);
    if s == 0 {
        lemma_heights(c, 0);
        lemma_shown_best(w, c);
    } else if n0.second_message_fits(c) {
        lemma_shown_best(w, c);
    } else if n0.centered(c) is Some {
        lemma_centered(n0, c);
        lemma_shown_best(w, c);
    } else if distance(n0, c) >= 0 {
        lemma_descend(n0, c, steps);
        assert(w == n0.settled(c, steps));
        lemma_heights(c, w.message_scroll as int);
        if is_reached(w, c) {
            lemma_shown_best(w, c);
        }
    } else {
        lemma_small_pane(n0, c);
        assert(w == n0.settled(c, steps));
        if leave_room(c, s, s - 1, v.message_scroll as int, pane_rows(v)) {
            assert(leave_room(c, s, s, v.message_scroll as int, pane_rows(v))) by {
                assert forall|i: int| s <= i < v.message_scroll implies (#[trigger] rows_above(c, i + 1) - rows_above(c, i))
                    + (rows_above(c, s + 1) - rows_above(c, s)) <= pane_rows(v) by {}
            }
        }
        lemma_stays_a_place(n0, c, steps);
        lemma_heights(c, w.message_scroll as int);
        if -distance(n0, c) <= steps && leave_room(c, s, s, v.message_scroll as int, pane_rows(v)) {
            lemma_ascend(n0, c, steps);
            if is_good(w, c) {
                lemma_shown_best(w, c);
            }
        }
    }
}

proof fn lemma_stays_a_place(v: MessageViewport, c: PaneContent, steps: int)
    requires
        is_place(v, c),
    ensures
        is_place(v.settled(c, steps), c),
        v.settled(c, steps).selected_message == v.selected_message,
        pane_rows(v.settled(c, steps)) == pane_rows(v),
    decreases steps,
{
    if steps > 0 {
        match v.settle_step(c) {
            None => {},
            Some(at) => {
                if v.message_scroll < v.selected_message {
                    lemma_down(v, c);
                }
                if v.message_scroll > 0 {
                    lemma_up(v, c);
                }
                lemma_stays_a_place(v.placed(at), c, steps - 1);
            },
        }
    }
}

/// Whether a message is shown whole, or from its first row where it is higher than the pane.
pub open spec fn is_shown_best(v: MessageViewport, c: PaneContent, i: int) -> bool {
    if rows_above(c, i + 1) - rows_above(c, i) <= pane_rows(v) {
        is_wholly_on_screen(v, c, i)
    } else {
        top_row(v, c) == rows_above(c, i)
    }
}

proof fn lemma_shown_best(v: MessageViewport, c: PaneContent)
    requires
        is_reached(v, c),
    ensures
        is_shown_best(v, c, v.selected_message as int),
{
    lemma_place(v, c);
    lemma_heights(c, v.selected_message as int);
}

/// Before a frame is drawn, a pane that follows the newest message ends with its last row, or shows all rows where
/// there are not enough to fill it. One with a single row shows the selected message.
pub proof fn a_following_pane_shows_the_newest_row(
    v: MessageViewport,
    c: PaneContent,
    content_width: usize,
    preview_width: u16,
    max_preview_height: u16,
)
    requires
        c.wf(),
        !c.forum,
        c.ids@.len() > 0,
        content_width < usize::MAX,
        v.message_auto_follow,
        !opens_at_unread(v, c),
    ensures
        ({
            let w = v.framed(c, content_width, preview_width, max_preview_height);
            let all = rows_above(c, c.ids@.len() as int);
            &&& w.message_auto_follow
            &&& pane_rows(w) == pane_rows(v)
            &&& v.message_view_height > 1 && all >= pane_rows(v) ==> top_row(w, c) + pane_rows(v) == all
            &&& v.message_view_height > 1 && all < pane_rows(v) ==> top_row(w, c) == 0
            &&& v.message_view_height <= 1 ==> w.message_scroll == w.selected_message && w.message_line_scroll == 0
            &&& w.selected_message == (if v.selected_message < c.ids@.len() {
                v.selected_message as int
            } else {
                c.ids@.len() - 1
            })
        }),
{
    let w0 = MessageViewport {
        message_content_width: content_width,
        message_preview_width: preview_width,
        message_max_preview_height: max_preview_height,
        ..v
    };
    assert(opens_at_unread(w0, c) == opens_at_unread(v, c));
    lemma_not_anchored(w0, c);
    let u = w0.clamped(c);
    u.the_bottom_is_the_last_rows(c);
    lemma_rows_above(c, c.len());
    lemma_rows_above(c, u.bottom(c).message as int);
    assert(rows_above(c, 0) == 0);
    c.lemma_rows_bounds(0, c.len());
}

/// A pane that opens at the first unread message begins with the last one that was read, and the cursor is on the
/// first that was not. It follows nothing.
pub proof fn unread_messages_open_the_pane(
    v: MessageViewport,
    c: PaneContent,
    content_width: usize,
    preview_width: u16,
    max_preview_height: u16,
)
    requires
        c.wf(),
        !c.forum,
        content_width < usize::MAX,
        opens_at_unread(v, c),
    ensures
        ({
            let w = v.framed(c, content_width, preview_width, max_preview_height);
            let id = v.unread_divider_last_acked_id->0;
            &&& w.selected_message < c.ids@.len()
            &&& c.ids@[w.selected_message as int] > id
            &&& forall|i: int| 0 <= i < w.selected_message ==> #[trigger] c.ids@[i] <= id
            &&& w.message_scroll == (if w.selected_message > 0 { w.selected_message - 1 } else { 0 })
            &&& w.message_line_scroll == 0
            &&& !w.message_auto_follow
            &&& !w.pending_unread_anchor_scroll
        }),
{
    let id = v.unread_divider_last_acked_id->0;
    MessageViewport::lemma_first_newer(c.ids@, id);
    let i = choose|i: int| 0 <= i < c.ids@.len() && #[trigger] c.ids@[i] > id;
    if first_newer(c.ids@, id) >= c.ids@.len() {
        assert(c.ids@[i] <= id);
    }
    assert(c.ids.len() == c.ids@.len());
    let d = first_newer(c.ids@, id);
    lemma_heights(c, if d > 0 { d - 1 } else { 0 });
}

/// A frame leaves everything but the place of the pane, the cursor and what was just given as it is.
pub proof fn frames_change_the_place_only(
    v: MessageViewport,
    c: PaneContent,
    content_width: usize,
    preview_width: u16,
    max_preview_height: u16,
)
    requires
        c.wf(),
        !c.forum,
    ensures
        ({
            let w = v.framed(c, content_width, preview_width, max_preview_height);
            &&& w.message_view_height == v.message_view_height
            &&& w.message_content_width == content_width
            &&& w.message_preview_width == preview_width
            &&& w.message_max_preview_height == max_preview_height
            &&& w.new_messages_marker_message_id == v.new_messages_marker_message_id
            &&& w.unread_divider_last_acked_id == v.unread_divider_last_acked_id
            &&& !opens_at_unread(v, c) ==> w.message_keep_selection_visible == v.message_keep_selection_visible
                && w.message_auto_follow == v.message_auto_follow && w.pending_unread_anchor_scroll
                == v.pending_unread_anchor_scroll
        }),
{
    let w0 = MessageViewport {
        message_content_width: content_width,
        message_preview_width: preview_width,
        message_max_preview_height: max_preview_height,
        ..v
    };
    assert(opens_at_unread(w0, c) == opens_at_unread(v, c));
    if !opens_at_unread(v, c) {
        lemma_not_anchored(w0, c);
    }
    let u = w0.anchored(c).clamped(c).normalized(c);
    lemma_settled_frame(u, c, MessageViewport::most_steps(c));
}

proof fn lemma_settled_frame(v: MessageViewport, c: PaneContent, steps: int)
    ensures
        v.settled(c, steps) == v.placed(v.settled(c, steps).at()),
    decreases steps,
{
    if steps > 0 {
        if let Some(at) = v.settle_step(c) {
            lemma_settled_frame(v.placed(at), c, steps - 1);
        }
    }
}

// ---- Scrolling by hand ----

/// Scrolling down moves the pane by one row as long as that fills it, and else not at all. The cursor stays.
pub proof fn scrolling_down_moves_one_row(v: MessageViewport, c: PaneContent)
    requires
        c.wf(),
        !c.forum,
        c.focused,
        v.message_content_width < usize::MAX,
        begins_in_a_message(v, c),
    ensures
        ({
            let w = v.scrolled_down(c);
            let fills = top_row(v, c) + 1 + pane_rows(v) <= rows_above(c, c.ids@.len() as int);
            &&& fills ==> top_row(w, c) == top_row(v, c) + 1 && !w.message_auto_follow
                && !w.message_keep_selection_visible
            &&& !fills ==> w == v
            &&& w.selected_message == v.selected_message
            &&& begins_in_a_message(w, c)
            &&& pane_rows(w) == pane_rows(v)
        }),
{
    let a = v.message_scroll as int;
    lemma_heights(c, a);
    lemma_rows_above(c, c.len());
    lemma_monotonic(c, a + 1, c.len());
    let h = c.height_at(a);
    let next = v.next_row(h as usize);
    let all = rows_above(c, c.len());
    assert(c.ids.len() == c.ids@.len());
    assert(v.height_of_first(c) == Some(h as usize));
    assert(v.content_height() == pane_rows(v));
    if v.message_line_scroll + 1 < h {
        assert(minus(h, next.line as int) + c.rows(a + 1, c.len()) == all - top_row(v, c) - 1);
    } else if a + 1 < c.len() {
        lemma_heights(c, a + 1);
        lemma_monotonic(c, a + 2, c.len());
        assert(next == (RowPosition { message: (a + 1) as usize, line: 0 }));
        assert(minus(c.height_at(a + 1), 0) + c.rows(a + 2, c.len()) == all - top_row(v, c) - 1);
    } else {
        assert(!v.fills(c, next, v.content_height()));
    }
    let w = v.scrolled_down(c);
    if v.fills(c, next, v.content_height()) {
        let moved = v.by_hand().placed(row_down(v.at(), c.len(), Some(h as usize)));
        assert(moved.at() == next);
        assert(moved.normalized(c).at() == next);
        assert(w.at() == next);
        assert(top_row(w, c) == top_row(v, c) + 1);
    }
}

/// Scrolling up moves the pane by one row, unless it begins with the first. The cursor stays.
pub proof fn scrolling_up_moves_one_row(v: MessageViewport, c: PaneContent)
    requires
        c.wf(),
        !c.forum,
        c.focused,
        v.message_content_width < usize::MAX,
        begins_in_a_message(v, c),
    ensures
        ({
            let w = v.scrolled_up(c);
            &&& top_row(w, c) == (if top_row(v, c) > 0 { top_row(v, c) - 1 } else { 0 })
            &&& w.selected_message == v.selected_message
            &&& !w.message_auto_follow && !w.message_keep_selection_visible
            &&& begins_in_a_message(w, c)
            &&& pane_rows(w) == pane_rows(v)
        }),
{
    let a = v.message_scroll as int;
    lemma_heights(c, a);
    assert(rows_above(c, 0) == 0);
    if a > 0 {
        lemma_heights(c, a - 1);
    }
}

/// Scrolling to the end shows the last row, and the pane follows from then on where the cursor is on the last message.
pub proof fn scrolling_to_the_end_shows_the_last_row(v: MessageViewport, c: PaneContent)
    requires
        c.wf(),
        !c.forum,
        !c.pinned,
        c.focused,
        v.message_content_width < usize::MAX,
    ensures
        ({
            let w = v.scrolled_to_bottom(c);
            let all = rows_above(c, c.ids@.len() as int);
            &&& top_row(w, c) == (if all >= pane_rows(v) { all - pane_rows(v) } else { 0 })
            &&& w.new_messages_marker_message_id is None
            &&& w.selected_message == v.selected_message
            &&& w.message_auto_follow == (v.selected_message + 1 >= c.ids@.len())
        }),
{
    v.the_bottom_is_the_last_rows(c);
    v.the_bottom_shows_the_latest(c);
    lemma_rows_above(c, c.len());
    lemma_rows_above(c, v.bottom(c).message as int);
    let u = (MessageViewport { new_messages_marker_message_id: None, ..v.by_hand() }).aligned(c);
    (MessageViewport { new_messages_marker_message_id: None, ..v.by_hand() }).the_bottom_shows_the_latest(c);
    assert(rows_above(c, 0) == 0);
    c.lemma_rows_bounds(0, c.len());
}

proof fn lemma_message_at_row(c: PaneContent, i: int, to: int, above: int, cut: int, row: int)
    requires
        c.wf(),
        0 <= i <= to <= c.len(),
        0 <= cut,
        i < to ==> cut < c.height_at(i) || cut == 0,
        above <= row,
    ensures
        message_at_row(c, i, to, above, cut, row) matches Some(k) ==> i <= k < to && rows_above(c, k) <= rows_above(c, i)
            + cut + (row - above) < rows_above(c, k + 1),
        message_at_row(c, i, to, above, cut, row) is None ==> rows_above(c, to) <= rows_above(c, i) + cut + (row - above)
            || i == to,
    decreases to - i,
{
    if i < to {
        lemma_heights(c, i);
        let shown = minus(c.height_at(i), cut);
        if row >= above + shown {
            if i + 1 < to {
                lemma_heights(c, i + 1);
            }
            lemma_message_at_row(c, i + 1, to, above + shown, 0, row);
        }
    }
}

/// A row of the pane belongs to the message whose rows it is among, and every row with a message has one.
pub proof fn rows_belong_to_their_messages(v: MessageViewport, c: PaneContent, row: int)
    requires
        c.wf(),
        !c.forum,
        v.message_content_width < usize::MAX,
        begins_in_a_message(v, c),
        0 <= row < pane_rows(v),
    ensures
        v.item_at_row(c, row) matches Some(i) ==> 0 <= i < c.ids@.len() && rows_above(c, i) <= top_row(v, c) + row
            < rows_above(c, i + 1),
        v.item_at_row(c, row) is Some <==> top_row(v, c) + row < rows_above(c, c.ids@.len() as int),
{
    let a = v.message_scroll as int;
    lemma_heights(c, a);
    lemma_message_at_row(c, v.visible_from(c), v.visible_to(c), 0, v.message_line_scroll as int, row);
    if v.item_at_row(c, row) is Some {
        let i = v.item_at_row(c, row)->0;
        lemma_monotonic(c, i + 1, c.len());
    } else {
        lemma_monotonic(c, a + 1, v.visible_to(c));
        lemma_monotonic(c, v.visible_to(c), c.len());
    }
}

/// Whether the newest row is shown: it is among the rows of the pane.
pub proof fn the_latest_is_shown_with_the_last_row(v: MessageViewport, c: PaneContent)
    requires
        c.wf(),
        !c.forum,
        !c.pinned,
        c.ids@.len() > 0,
        v.message_content_width < usize::MAX,
        begins_in_a_message(v, c),
    ensures
        v.at_latest(c) <==> top_row(v, c) + pane_rows(v) >= rows_above(c, c.ids@.len() as int),
{
    let a = v.message_scroll as int;
    lemma_heights(c, a);
    lemma_rows_above(c, a);
    lemma_rows_above(c, c.len());
}

/// Where messages are in order, the unread ones are those from the divider on, and the banner counts them.
pub proof fn the_banner_counts_from_the_divider(v: MessageViewport, c: PaneContent)
    requires
        v.unread_divider_last_acked_id is Some,
        forall|a: int, b: int| #![trigger c.ids@[a], c.ids@[b]] 0 <= a <= b < c.len() ==> c.ids@[a] <= c.ids@[b],
    ensures
        newer_count(c.ids@, v.unread_divider_last_acked_id->0) == c.len() - first_newer(
            c.ids@,
            v.unread_divider_last_acked_id->0,
        ),
{
    let id = v.unread_divider_last_acked_id->0;
    MessageViewport::lemma_first_newer(c.ids@, id);
    let d = first_newer(c.ids@, id);
    lemma_newer_count(c.ids@, id, d);
}

proof fn lemma_newer_count(ids: Seq<MessageId>, id: MessageId, d: int)
    requires
        0 <= d <= ids.len(),
        forall|i: int| 0 <= i < d ==> #[trigger] ids[i] <= id,
        d < ids.len() ==> ids[d] > id,
        forall|a: int, b: int| #![trigger ids[a], ids[b]] 0 <= a <= b < ids.len() ==> ids[a] <= ids[b],
    ensures
        newer_count(ids, id) == ids.len() - d,
    decreases ids.len(),
{
    if ids.len() > 0 {
        let rest = ids.drop_last();
        let n = ids.len() as int;
        if d < n {
            assert(ids[d] <= ids[n - 1]);
            lemma_newer_count(rest, id, d);
        } else {
            assert(ids[n - 1] <= id);
            lemma_newer_count(rest, id, d - 1);
        }
    }
}

} // verus!
