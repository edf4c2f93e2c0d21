//! Which part of a channel the message pane shows, and where its cursor is.
//!
//! Messages take different numbers of rows. The pane begins at a message, some rows of which may be cut
//! off above; everything else follows from the heights.

use crate::ids::MessageId;
use crate::message::time::{is_day_start, message_starts_new_day};
use crate::message::wrap::sat_add;
use crate::state::scroll::{
    clamp_list_scroll, clamp_selected_index, content_rows, kept_line, last_of, least, list_scroll, margin, min_of, minus,
    normalize_message_line_scroll, pane_content_height, row_down, row_up, scroll_message_row_down, scroll_message_row_up,
    RowPosition, SCROLL_OFF,
};
use vstd::prelude::*;

verus! {

/// What the message pane shows: the messages with their heights, or the cards of a forum.
pub struct PaneContent {
    /// The identifiers of the loaded messages, oldest first.
    pub ids: Vec<MessageId>,
    /// The rows of each message, at the width and the preview size in use.
    pub heights: Vec<usize>,
    /// Whether a line with the date stands above a message.
    pub new_day: Vec<bool>,
    pub forum: bool,
    /// The rows of each card of a forum.
    pub cards: Vec<usize>,
    /// Whether the label of a section stands above a card, in the first of its rows.
    pub card_labels: Vec<bool>,
    pub pinned: bool,
    /// Whether keys go to the message pane.
    pub focused: bool,
}

impl PaneContent {
    pub open spec fn len(self) -> int {
        self.ids@.len() as int
    }

    /// The rows of a message with the line above it.
    pub open spec fn height_at(self, i: int) -> int {
        if 0 <= i < self.len() {
            self.heights@[i] + (if self.new_day@[i] { 1int } else { 0int })
        } else {
            0
        }
    }

    /// The rows of the messages from `from` to before `to`.
    pub open spec fn rows(self, from: int, to: int) -> int
        decreases to - from,
    {
        if to <= from {
            0
        } else {
            self.rows(from, to - 1) + self.height_at(to - 1)
        }
    }

    pub open spec fn total(self) -> int {
        self.rows(0, self.len())
    }

    /// Every message has a row, and all rows can be counted.
    pub open spec fn wf(self) -> bool {
        &&& self.heights@.len() == self.ids@.len()
        &&& self.new_day@.len() == self.ids@.len()
        &&& forall|i: int| 0 <= i < self.heights@.len() ==> #[trigger] self.heights@[i] >= 1
        &&& self.total() <= usize::MAX
    }

    /// The number of messages or cards.
    pub open spec fn items(self) -> int {
        if self.forum {
            self.cards@.len() as int
        } else {
            self.len()
        }
    }

    /// The message that row `row`, counted from message `i` on, belongs to, and the rows of it above.
    pub open spec fn position_from(self, row: int, i: int) -> RowPosition
        decreases self.len() - i,
    {
        if i >= self.len() {
            RowPosition { message: i as usize, line: 0 }
        } else if row < self.height_at(i) {
            RowPosition { message: i as usize, line: row as usize }
        } else {
            self.position_from(row - self.height_at(i), i + 1)
        }
    }

    /// The message that a row belongs to, and the rows of it above.
    pub open spec fn position(self, row: int) -> RowPosition {
        self.position_from(row, 0)
    }

    pub proof fn lemma_rows_split(self, a: int, b: int, c: int)
        requires
            a <= b <= c,
        ensures
            self.rows(a, c) == self.rows(a, b) + self.rows(b, c),
        decreases c - b,
    {
        if b < c {
            self.lemma_rows_split(a, b, c - 1);
        }
    }

    pub proof fn lemma_rows_bounds(self, a: int, b: int)
        requires
            self.wf(),
        ensures
            0 <= self.rows(a, b),
            0 <= a <= b <= self.len() ==> b - a <= self.rows(a, b) <= self.total() <= usize::MAX,
        decreases b - a,
    {
        if a < b {
            self.lemma_rows_bounds(a, b - 1);
            if 0 <= b - 1 < self.len() {
                assert(self.heights@[b - 1] >= 1);
            }
        }
        if 0 <= a <= b <= self.len() {
            self.lemma_rows_split(0, a, b);
            self.lemma_rows_split(0, b, self.len());
            self.lemma_rows_nonneg(0, a);
            self.lemma_rows_nonneg(b, self.len());
        }
    }

    proof fn lemma_rows_nonneg(self, a: int, b: int)
        requires
            self.wf(),
        ensures
            0 <= self.rows(a, b),
        decreases b - a,
    {
        if a < b {
            self.lemma_rows_nonneg(a, b - 1);
        }
    }

    pub(crate) proof fn lemma_height_bounds(self, i: int)
        requires
            self.wf(),
            0 <= i < self.len(),
        ensures
            1 <= self.height_at(i) <= usize::MAX,
    {
        assert(self.heights@[i] >= 1);
        assert(self.rows(i, i) == 0);
        assert(self.rows(i, i + 1) == self.height_at(i));
        self.lemma_rows_bounds(i, i + 1);
    }

    /// A row belongs to one place.
    pub proof fn lemma_position(self, row: int, i: int, at: RowPosition)
        requires
            self.wf(),
            0 <= i <= at.message < self.len(),
            at.line < self.height_at(at.message as int),
            row == self.rows(i, at.message as int) + at.line,
        ensures
            self.position_from(row, i) == at,
        decreases at.message - i,
    {
        self.lemma_height_bounds(i);
        if i < at.message {
            self.lemma_rows_split(i, i + 1, at.message as int);
            assert(self.rows(i, i) == 0);
            assert(self.rows(i, i + 1) == self.height_at(i));
            self.lemma_rows_bounds(i + 1, at.message as int);
            self.lemma_position(row - self.height_at(i), i + 1, at);
        }
    }

    fn height(&self, i: usize) -> (r: usize)
        requires
            self.wf(),
        ensures
            r == self.height_at(i as int),
    {
        if i >= self.ids.len() {
            return 0;
        }
        proof {
            self.lemma_height_bounds(i as int);
        }
        if self.new_day[i] {
            self.heights[i] + 1
        } else {
            self.heights[i]
        }
    }

    /// Behind the last message there are no rows.
    pub(crate) proof fn lemma_rows_beyond(self, from: int, to: int)
        requires
            0 <= from,
        ensures
            to > self.len() ==> self.rows(from, to) == self.rows(from, self.len()),
        decreases to,
    {
        if to > self.len() {
            if from < to {
                self.lemma_rows_beyond(from, to - 1);
            }
        }
    }

    fn row_count(&self, from: usize, to: usize) -> (r: usize)
        requires
            self.wf(),
        ensures
            r == self.rows(from as int, to as int),
    {
        proof {
            self.lemma_rows_beyond(from as int, to as int);
        }
        let end = min_of(to, self.ids.len());
        if from >= end {
            return 0;
        }
        let mut sum: usize = 0;
        let mut i: usize = from;
        while i < end
            invariant
                self.wf(),
                from <= i <= end <= self.len(),
                sum == self.rows(from as int, i as int),
            decreases end - i,
        {
            proof {
                self.lemma_rows_bounds(from as int, i + 1);
            }
            sum = sum + self.height(i);
            i += 1;
        }
        sum
    }

    pub fn item_count(&self) -> (r: usize)
        ensures
            r == self.items(),
    {
        if self.forum {
            self.cards.len()
        } else {
            self.ids.len()
        }
    }
}

/// The first place of an identifier in a list, or its end.
pub open spec fn place_of(ids: Seq<MessageId>, id: MessageId) -> int
    decreases ids.len(),
{
    if ids.len() == 0 {
        0
    } else if ids[0] == id {
        0
    } else {
        1 + place_of(ids.drop_first(), id)
    }
}

/// The first place of an identifier that is newer than `id`, or the end.
pub open spec fn first_newer(ids: Seq<MessageId>, id: MessageId) -> int
    decreases ids.len(),
{
    if ids.len() == 0 {
        0
    } else if ids[0] > id {
        0
    } else {
        1 + first_newer(ids.drop_first(), id)
    }
}

pub open spec fn newer_count(ids: Seq<MessageId>, id: MessageId) -> int
    decreases ids.len(),
{
    if ids.len() == 0 {
        0
    } else {
        newer_count(ids.drop_last(), id) + (if ids.last() > id { 1int } else { 0int })
    }
}

/// Whether a line with the date stands above a message: it is the first of its day, and not the first that is
/// loaded, for which no other day is known.
pub open spec fn is_dated(ids: Seq<MessageId>, index: int, r: bool) -> bool {
    if 0 < index < ids.len() {
        is_day_start(ids[index], Some(ids[index - 1]), r)
    } else {
        !r
    }
}

pub fn message_starts_new_day_at(ids: &Vec<MessageId>, index: usize) -> (r: bool)
    ensures
        is_dated(ids@, index as int, r),
{
    if index == 0 || index >= ids.len() {
        false
    } else {
        message_starts_new_day(ids[index], Some(ids[index - 1]))
    }
}

/// The rows that a message takes above its header: one where a line with the date stands there.
pub fn message_extra_top_lines(ids: &Vec<MessageId>, index: usize) -> (r: usize)
    ensures
        r <= 1,
        is_dated(ids@, index as int, r == 1),
{
    if message_starts_new_day_at(ids, index) {
        1
    } else {
        0
    }
}

/// Above which messages a line with the date stands.
pub fn days_started(ids: &Vec<MessageId>) -> (r: Vec<bool>)
    ensures
        r@.len() == ids@.len(),
        forall|i: int| 0 <= i < r@.len() ==> is_dated(ids@, i, #[trigger] r@[i]),
{
    let mut r: Vec<bool> = Vec::new();
    let mut i: usize = 0;
    while i < ids.len()
        invariant
            i <= ids@.len(),
            r@.len() == i,
            forall|k: int| 0 <= k < i ==> is_dated(ids@, k, #[trigger] r@[k]),
        decreases ids@.len() - i,
    {
        let dated = message_starts_new_day_at(ids, i);
        r.push(dated);
        i += 1;
    }
    r
}

pub fn find_id(ids: &Vec<MessageId>, id: MessageId) -> (r: Option<usize>)
    ensures
        match r {
            Some(i) => i < ids@.len() && i == place_of(ids@, id) && ids@[i as int] == id,
            None => place_of(ids@, id) == ids@.len(),
        },
{
    let mut i: usize = 0;
    assert(ids@.skip(0) =~= ids@);
    while i < ids.len()
        invariant
            i <= ids@.len(),
            place_of(ids@, id) == i + place_of(ids@.skip(i as int), id),
        decreases ids@.len() - i,
    {
        if ids[i] == id {
            return Some(i);
        }
        assert(ids@.skip(i as int).drop_first() =~= ids@.skip(i + 1));
        i += 1;
    }
    None
}

fn find_newer(ids: &Vec<MessageId>, id: MessageId) -> (r: Option<usize>)
    ensures
        match r {
            Some(i) => i < ids@.len() && i == first_newer(ids@, id) && ids@[i as int] > id,
            None => first_newer(ids@, id) == ids@.len(),
        },
{
    let mut i: usize = 0;
    assert(ids@.skip(0) =~= ids@);
    while i < ids.len()
        invariant
            i <= ids@.len(),
            first_newer(ids@, id) == i + first_newer(ids@.skip(i as int), id),
        decreases ids@.len() - i,
    {
        if ids[i] > id {
            return Some(i);
        }
        assert(ids@.skip(i as int).drop_first() =~= ids@.skip(i + 1));
        i += 1;
    }
    None
}

/// The notice above the pane: since when, and how many messages are unread.
#[derive(Clone, Copy, Debug, PartialEq, Eq, Structural)]
pub struct UnreadBanner {
    pub since_message_id: MessageId,
    pub unread_count: usize,
}

/// The message pane.
#[derive(Clone, Copy, Debug, PartialEq, Eq, Structural)]
pub struct MessageViewport {
    pub selected_message: usize,
    pub message_scroll: usize,
    pub message_line_scroll: usize,
    pub message_keep_selection_visible: bool,
    pub message_auto_follow: bool,
    pub message_view_height: usize,
    /// The width of the content, or the largest number before anything was drawn.
    pub message_content_width: usize,
    pub message_preview_width: u16,
    pub message_max_preview_height: u16,
    pub new_messages_marker_message_id: Option<MessageId>,
    pub unread_divider_last_acked_id: Option<MessageId>,
    pub pending_unread_anchor_scroll: bool,
}

/// The pane before anything was drawn. It follows the newest message.
pub open spec fn fresh_viewport() -> MessageViewport {
    MessageViewport {
        selected_message: 0,
        message_scroll: 0,
        message_line_scroll: 0,
        message_keep_selection_visible: true,
        message_auto_follow: true,
        message_view_height: 1,
        message_content_width: usize::MAX,
        message_preview_width: 0,
        message_max_preview_height: 0,
        new_messages_marker_message_id: None,
        unread_divider_last_acked_id: None,
        pending_unread_anchor_scroll: false,
    }
}

impl Default for MessageViewport {
    fn default() -> (r: MessageViewport)
        ensures
            r == fresh_viewport(),
    {
        MessageViewport {
            selected_message: 0,
            message_scroll: 0,
            message_line_scroll: 0,
            message_keep_selection_visible: true,
            message_auto_follow: true,
            message_view_height: 1,
            message_content_width: usize::MAX,
            message_preview_width: 0,
            message_max_preview_height: 0,
            new_messages_marker_message_id: None,
            unread_divider_last_acked_id: None,
            pending_unread_anchor_scroll: false,
        }
    }
}

impl MessageViewport {
    pub open spec fn at(self) -> RowPosition {
        RowPosition { message: self.message_scroll, line: self.message_line_scroll }
    }

    pub open spec fn placed(self, at: RowPosition) -> MessageViewport {
        MessageViewport { message_scroll: at.message, message_line_scroll: at.line, ..self }
    }

    /// The rows of the pane.
    pub open spec fn content_height(self) -> int {
        content_rows(self.message_view_height) as int
    }

    pub open spec fn cursor(self, c: PaneContent) -> int {
        least(self.selected_message as int, last_of(c.items()))
    }

    fn position(&self) -> (r: RowPosition)
        ensures
            r == self.at(),
    {
        RowPosition { message: self.message_scroll, line: self.message_line_scroll }
    }

    fn place(&mut self, at: RowPosition)
        ensures
            *final(self) == old(self).placed(at),
    {
        self.message_scroll = at.message;
        self.message_line_scroll = at.line;
    }

    pub fn message_content_height(&self) -> (r: usize)
        ensures
            r == self.content_height(),
    {
        pane_content_height(self.message_view_height)
    }

    /// The message or card that the cursor is on.
    pub fn selected(&self, content: &PaneContent) -> (r: usize)
        ensures
            r == self.cursor(*content),
    {
        clamp_selected_index(self.selected_message, content.item_count())
    }

    /// How many messages arrived since the marker was set, that message included.
    pub fn new_messages_count(&self, content: &PaneContent) -> (r: usize)
        ensures
            r == (match self.new_messages_marker_message_id {
                None => 0,
                Some(id) => content.len() - place_of(content.ids@, id),
            }),
    {
        match self.new_messages_marker_message_id {
            None => 0,
            Some(id) => match find_id(&content.ids, id) {
                Some(i) => content.ids.len() - i,
                None => 0,
            },
        }
    }

    /// Where the first unread message is.
    pub open spec fn divider(self, c: PaneContent) -> Option<usize> {
        if c.pinned {
            None
        } else {
            match self.unread_divider_last_acked_id {
                None => None,
                Some(id) => if first_newer(c.ids@, id) < c.len() {
                    Some(first_newer(c.ids@, id) as usize)
                } else {
                    None
                },
            }
        }
    }

    pub fn unread_divider_message_index(&self, content: &PaneContent) -> (r: Option<usize>)
        ensures
            r == self.divider(*content),
    {
        if content.pinned {
            return None;
        }
        match self.unread_divider_last_acked_id {
            None => None,
            Some(id) => find_newer(&content.ids, id),
        }
    }

    pub fn should_draw_unread_divider_at(&self, content: &PaneContent, index: usize) -> (r: bool)
        ensures
            r == (self.divider(*content) == Some(index)),
    {
        match self.unread_divider_message_index(content) {
            Some(i) => i == index,
            None => false,
        }
    }

    /// The notice that there are unread messages.
    pub fn unread_banner(&self, content: &PaneContent) -> (r: Option<UnreadBanner>)
        ensures
            r == (match self.unread_divider_last_acked_id {
                Some(id) => if !content.pinned && newer_count(content.ids@, id) > 0 {
                    Some(UnreadBanner { since_message_id: id, unread_count: newer_count(content.ids@, id) as usize })
                } else {
                    None
                },
                None => None,
            }),
    {
        if content.pinned {
            return None;
        }
        let id: MessageId = match self.unread_divider_last_acked_id {
            Some(id) => id,
            None => {
                return None;
            },
        };
        let mut count: usize = 0;
        let mut i: usize = 0;
        assert(content.ids@.take(0) =~= Seq::<MessageId>::empty());
        while i < content.ids.len()
            invariant
                i <= content.ids@.len(),
                count <= i,
                count == newer_count(content.ids@.take(i as int), id),
            decreases content.ids@.len() - i,
        {
            assert(content.ids@.take(i + 1).drop_last() =~= content.ids@.take(i as int));
            if content.ids[i] > id {
                count += 1;
            }
            i += 1;
        }
        assert(content.ids@.take(i as int) =~= content.ids@);
        if count == 0 {
            None
        } else {
            Some(UnreadBanner { since_message_id: id, unread_count: count })
        }
    }

    pub open spec fn visible_from(self, c: PaneContent) -> int {
        least(self.message_scroll as int, c.len())
    }

    pub open spec fn visible_to(self, c: PaneContent) -> int {
        least(self.visible_from(c) + self.content_height(), c.len())
    }

    /// The messages that may be visible: the first, and the one behind the last. There are at most as
    /// many as the pane has rows.
    pub fn visible_messages(&self, content: &PaneContent) -> (r: (usize, usize))
        ensures
            r.0 == self.visible_from(*content),
            r.1 == self.visible_to(*content),
    {
        let from = min_of(self.message_scroll, content.ids.len());
        let to = min_of(from.saturating_add(self.message_content_height()), content.ids.len());
        (from, to)
    }

    /// Whether the rest of the messages fills the pane that begins at `at`.
    pub open spec fn fills(self, c: PaneContent, at: RowPosition, height: int) -> bool {
        at.message < c.len() && minus(c.height_at(at.message as int), at.line as int) + c.rows(at.message + 1, c.len())
            >= height
    }

    fn message_viewport_has_rows_below(&self, content: &PaneContent, at: RowPosition, height: usize) -> (r: bool)
        requires
            content.wf(),
        ensures
            r == self.fills(*content, at, height as int),
    {
        if at.message >= content.ids.len() {
            return false;
        }
        proof {
            content.lemma_rows_split(at.message as int, at.message + 1, content.len());
            content.lemma_rows_bounds(at.message as int, content.len());
            content.lemma_rows_bounds(at.message + 1, content.len());
            assert(content.rows(at.message as int, at.message as int) == 0);
            assert(content.rows(at.message as int, at.message + 1) == content.height_at(at.message as int));
        }
        let first = content.height(at.message).saturating_sub(at.line);
        let rest = content.row_count(at.message + 1, content.ids.len());
        first + rest >= height
    }

    /// Where the pane begins when its last row is the last row of the last message, or the first message
    /// where there are too few rows.
    pub open spec fn bottom(self, c: PaneContent) -> RowPosition {
        if c.total() < self.content_height() {
            RowPosition { message: 0, line: 0 }
        } else {
            c.position(c.total() - self.content_height())
        }
    }

    fn bottom_position(&self, content: &PaneContent) -> (r: RowPosition)
        requires
            content.wf(),
        ensures
            r == self.bottom(*content),
    {
        let height = self.message_content_height();
        let mut remaining = height;
        let mut i: usize = content.ids.len();
        while i > 0
            invariant
                content.wf(),
                height == self.content_height(),
                i <= content.len(),
                remaining > 0,
                remaining == height - content.rows(i as int, content.len()),
            decreases i,
        {
            proof {
                content.lemma_rows_split(i - 1, i as int, content.len());
                assert(content.rows(i - 1, i - 1) == 0);
                assert(content.rows(i - 1, i as int) == content.height_at(i - 1));
                content.lemma_height_bounds(i - 1);
            }
            let h = content.height(i - 1);
            if h >= remaining {
                let at = RowPosition { message: i - 1, line: h - remaining };
                proof {
                    content.lemma_rows_split(0, i - 1, content.len());
                    content.lemma_rows_bounds(0, i - 1);
                    content.lemma_position(content.total() - height, 0, at);
                }
                return at;
            }
            remaining = remaining - h;
            i = i - 1;
        }
        RowPosition { message: 0, line: 0 }
    }

    /// The pane with its end at the end of the messages. Cards are scrolled to the cursor.
    pub open spec fn aligned(self, c: PaneContent) -> MessageViewport {
        if c.forum {
            MessageViewport { message_line_scroll: 0, ..self.cards_in_view(c) }
        } else {
            self.placed(self.bottom(c))
        }
    }

    fn align_message_viewport_to_bottom(&mut self, content: &PaneContent)
        requires
            content.wf(),
        ensures
            *final(self) == old(self).aligned(*content),
    {
        if content.forum {
            self.clamp_thread_card_viewport(content);
            self.message_line_scroll = 0;
            return;
        }
        let at = self.bottom_position(content);
        self.place(at);
    }

    /// The first card that can be shown together with the selected one, going up from card `at` with
    /// `rows` rows taken.
    pub open spec fn earliest_card(cards: Seq<usize>, at: int, rows: usize, height: int) -> int
        decreases at,
    {
        if at <= 0 {
            0
        } else {
            let more = sat_add(rows, cards[at - 1]);
            if more > height {
                at
            } else {
                Self::earliest_card(cards, at - 1, more, height)
            }
        }
    }

    /// The cards scrolled as little as needed for the selected one to be visible.
    pub open spec fn cards_in_view(self, c: PaneContent) -> MessageViewport {
        if c.cards@.len() == 0 {
            MessageViewport { message_scroll: 0, ..self }
        } else {
            let selected = least(self.selected_message as int, c.cards@.len() - 1);
            let earliest = Self::earliest_card(c.cards@, selected, c.cards@[selected], self.content_height());
            let near = least(self.message_scroll as int, selected);
            MessageViewport { message_scroll: (if near >= earliest { near } else { earliest }) as usize, ..self }
        }
    }

    pub fn clamp_thread_card_viewport(&mut self, content: &PaneContent)
        ensures
            *final(self) == old(self).cards_in_view(*content),
    {
        if content.cards.len() == 0 {
            self.message_scroll = 0;
            return;
        }
        let selected = min_of(self.selected_message, content.cards.len() - 1);
        let height = self.message_content_height();
        let mut earliest: usize = selected;
        let mut rows: usize = content.cards[selected];
        let ghost goal = Self::earliest_card(content.cards@, selected as int, rows, height as int);
        while earliest > 0
            invariant
                earliest <= selected < content.cards@.len(),
                goal == Self::earliest_card(content.cards@, earliest as int, rows, height as int),
            ensures
                earliest <= selected,
                earliest == goal,
            decreases earliest,
        {
            let more = rows.saturating_add(content.cards[earliest - 1]);
            if more > height {
                break;
            }
            earliest = earliest - 1;
            rows = more;
        }
        let near = min_of(self.message_scroll, selected);
        self.message_scroll = if near >= earliest { near } else { earliest };
    }

    /// The pane with its cursor and its beginning within what there is. Before anything was drawn, each
    /// message counts as one row.
    pub open spec fn clamped(self, c: PaneContent) -> MessageViewport {
        if c.items() == 0 {
            MessageViewport { selected_message: 0, message_scroll: 0, message_line_scroll: 0, ..self }
        } else {
            let v = MessageViewport {
                selected_message: least(self.selected_message as int, c.items() - 1) as usize,
                message_scroll: least(self.message_scroll as int, c.items() - 1) as usize,
                ..self
            };
            if c.forum {
                MessageViewport { message_line_scroll: 0, ..v.cards_in_view(c) }
            } else if v.message_content_width == usize::MAX {
                let scroll = list_scroll(
                    v.selected_message as int,
                    v.message_scroll as int,
                    v.content_height(),
                    c.items(),
                ) as usize;
                MessageViewport {
                    message_scroll: scroll,
                    message_line_scroll: if scroll != v.selected_message { 0 } else { v.message_line_scroll },
                    ..v
                }
            } else {
                v
            }
        }
    }

    pub fn clamp_message_viewport(&mut self, content: &PaneContent)
        ensures
            *final(self) == old(self).clamped(*content),
    {
        let count = content.item_count();
        if count == 0 {
            self.selected_message = 0;
            self.message_scroll = 0;
            self.message_line_scroll = 0;
            return;
        }
        self.selected_message = min_of(self.selected_message, count - 1);
        self.message_scroll = min_of(self.message_scroll, count - 1);
        if content.forum {
            self.clamp_thread_card_viewport(content);
            self.message_line_scroll = 0;
            return;
        }
        if self.message_content_width == usize::MAX {
            self.message_scroll = clamp_list_scroll(
                self.selected_message,
                self.message_scroll,
                self.message_content_height(),
                count,
            );
            if self.message_scroll != self.selected_message {
                self.message_line_scroll = 0;
            }
        }
    }

    pub fn set_message_view_height(&mut self, content: &PaneContent, height: usize)
        ensures
            *final(self) == (MessageViewport { message_view_height: height, ..*old(self) }).clamped(*content),
    {
        self.message_view_height = height;
        self.clamp_message_viewport(content);
    }

    /// The pane opened at the last message that was read, once that place is known.
    pub open spec fn anchored(self, c: PaneContent) -> MessageViewport {
        match self.divider(c) {
            Some(index) => if self.pending_unread_anchor_scroll && c.items() > 0 {
                MessageViewport {
                    message_scroll: minus(index as int, 1) as usize,
                    message_line_scroll: 0,
                    selected_message: least(index as int, minus(c.items(), 1)) as usize,
                    message_keep_selection_visible: false,
                    message_auto_follow: false,
                    pending_unread_anchor_scroll: false,
                    ..self
                }
            } else {
                self
            },
            None => self,
        }
    }

    pub fn try_apply_unread_anchor_scroll(&mut self, content: &PaneContent)
        ensures
            *final(self) == old(self).anchored(*content),
    {
        if !self.pending_unread_anchor_scroll {
            return;
        }
        let index: usize = match self.unread_divider_message_index(content) {
            Some(index) => index,
            None => {
                return;
            },
        };
        let count = content.item_count();
        if count == 0 {
            return;
        }
        self.message_scroll = index.saturating_sub(1);
        self.message_line_scroll = 0;
        self.selected_message = min_of(index, count - 1);
        self.message_keep_selection_visible = false;
        self.message_auto_follow = false;
        self.pending_unread_anchor_scroll = false;
    }

    pub open spec fn height_of_first(self, c: PaneContent) -> Option<usize> {
        if self.message_scroll < c.len() {
            Some(c.height_at(self.message_scroll as int) as usize)
        } else {
            None
        }
    }

    fn first_height(&self, content: &PaneContent) -> (r: Option<usize>)
        requires
            content.wf(),
        ensures
            r == self.height_of_first(*content),
    {
        if self.message_scroll < content.ids.len() {
            Some(content.height(self.message_scroll))
        } else {
            None
        }
    }

    pub open spec fn normalized(self, c: PaneContent) -> MessageViewport {
        MessageViewport { message_line_scroll: kept_line(self.message_line_scroll, self.height_of_first(c)), ..self }
    }

    fn normalize_line_scroll(&mut self, content: &PaneContent)
        requires
            content.wf(),
        ensures
            *final(self) == old(self).normalized(*content),
    {
        let first = self.first_height(content);
        self.message_line_scroll = normalize_message_line_scroll(self.message_line_scroll, first);
    }

    /// How many rows lie above the selected message when it is in the middle.
    pub open spec fn rows_above_center(self, c: PaneContent) -> int {
        minus(self.content_height() / 2, c.height_at(self.cursor(c)) / 2)
    }

    /// Where the pane begins with the selected message in the middle. There is no such place near the
    /// ends of the messages.
    pub open spec fn centered(self, c: PaneContent) -> Option<RowPosition> {
        let above = c.rows(0, self.cursor(c));
        let row = above - self.rows_above_center(c);
        if self.cursor(c) < c.len() && row >= 0 && c.total() - row >= self.content_height() {
            Some(c.position(row))
        } else {
            None
        }
    }

    fn center_selected_message(&mut self, content: &PaneContent) -> (done: bool)
        requires
            content.wf(),
        ensures
            done == old(self).centered(*content) is Some,
            *final(self) == (match old(self).centered(*content) {
                Some(at) => old(self).placed(at),
                None => *old(self),
            }),
    {
        let selected = self.selected(content);
        let height = self.message_content_height();
        if selected >= content.ids.len() {
            return false;
        }
        proof {
            content.lemma_height_bounds(selected as int);
        }
        let selected_height = content.height(selected);
        let want = (height / 2).saturating_sub(selected_height / 2);
        let mut top = selected;
        let mut offset: usize = 0;
        let mut remaining = want;
        while remaining > 0 && top > 0
            invariant
                content.wf(),
                top <= selected < content.len(),
                offset < content.height_at(top as int),
                remaining > 0 ==> offset == 0,
                content.rows(top as int, selected as int) - offset == want - remaining,
            decreases top,
        {
            proof {
                content.lemma_height_bounds(top - 1);
                content.lemma_rows_split(top - 1, top as int, selected as int);
                assert(content.rows(top - 1, top - 1) == 0);
                assert(content.rows(top - 1, top as int) == content.height_at(top - 1));
            }
            let previous = content.height(top - 1);
            top = top - 1;
            if remaining >= previous {
                remaining = remaining - previous;
                offset = 0;
            } else {
                offset = previous - remaining;
                remaining = 0;
            }
        }
        let at = RowPosition { message: top, line: offset };
        proof {
            content.lemma_rows_split(0, top as int, selected as int);
            content.lemma_rows_bounds(0, top as int);
            content.lemma_rows_split(0, top as int, content.len());
            content.lemma_rows_split(top as int, top + 1, content.len());
            assert(content.rows(top as int, top as int) == 0);
            assert(content.rows(top as int, top + 1) == content.height_at(top as int));
            if remaining == 0 {
                content.lemma_position(content.rows(0, selected as int) - want, 0, at);
            }
        }
        if remaining > 0 || !self.message_viewport_has_rows_below(content, at, height) {
            return false;
        }
        self.place(at);
        true
    }

    /// The rows between the beginning of the pane and the selected message.
    pub open spec fn selected_row(self, c: PaneContent) -> int {
        minus(c.rows(self.message_scroll as int, self.selected_message as int), self.message_line_scroll as int)
    }

    pub open spec fn selected_height(self, c: PaneContent) -> int {
        if self.selected_message < c.len() {
            c.height_at(self.selected_message as int)
        } else {
            1
        }
    }

    pub open spec fn selected_bottom(self, c: PaneContent) -> int {
        least(self.selected_row(c) + minus(self.selected_height(c), 1), usize::MAX as int)
    }

    /// The rows of the few messages behind the selected one.
    pub open spec fn rows_following(self, c: PaneContent) -> int {
        c.rows(self.selected_message + 1, least(self.selected_message + 1 + SCROLL_OFF, c.len()))
    }

    /// A step towards the selected message with its margins: a row down where it lies too low, a row up
    /// where it lies too high and that would not push it out below.
    pub open spec fn settle_step(self, c: PaneContent) -> Option<RowPosition> {
        let height = self.content_height();
        let lower_bound = height - 1 - least(self.rows_following(c), height - 1);
        let previous = c.height_at(self.message_scroll - 1);
        if self.selected_bottom(c) > lower_bound && self.message_scroll < self.selected_message {
            Some(row_down(self.at(), c.len(), self.height_of_first(c)))
        } else if self.selected_row(c) < margin(height) && self.message_scroll > 0 && least(
            self.selected_bottom(c) + previous,
            usize::MAX as int,
        ) < height {
            Some(row_up(self.at(), Some(previous as usize)))
        } else {
            None
        }
    }

    /// At most `steps` such steps.
    pub open spec fn settled(self, c: PaneContent, steps: int) -> MessageViewport
        decreases steps,
    {
        if steps <= 0 {
            self
        } else {
            match self.settle_step(c) {
                None => self,
                Some(at) => self.placed(at).settled(c, steps - 1),
            }
        }
    }

    fn selected_rows(&self, content: &PaneContent) -> (r: (usize, usize))
        requires
            content.wf(),
        ensures
            r.0 == self.selected_row(*content),
            r.1 == self.selected_bottom(*content),
    {
        let row = content.row_count(self.message_scroll, self.selected_message).saturating_sub(self.message_line_scroll);
        let height: usize = if self.selected_message < content.ids.len() {
            content.height(self.selected_message)
        } else {
            1
        };
        (row, row.saturating_add(height.saturating_sub(1)))
    }

    fn settle_once(&self, content: &PaneContent) -> (r: Option<RowPosition>)
        requires
            content.wf(),
        ensures
            r == self.settle_step(*content),
    {
        let height = self.message_content_height();
        let count = content.ids.len();
        let next = self.selected_message.saturating_add(1);
        let below = min_of(next.saturating_add(SCROLL_OFF), count);
        let following = content.row_count(next, below);
        let lower_bound = height - 1 - min_of(following, height - 1);
        let (selected_row, selected_bottom) = self.selected_rows(content);
        if selected_bottom > lower_bound && self.message_scroll < self.selected_message {
            let first = self.first_height(content);
            return Some(scroll_message_row_down(self.position(), count, first));
        }
        let upper = min_of(SCROLL_OFF, (height - 1) / 2);
        if selected_row < upper && self.message_scroll > 0 {
            let previous = content.height(self.message_scroll - 1);
            if selected_bottom.saturating_add(previous) < height {
                return Some(scroll_message_row_up(self.position(), Some(previous)));
            }
        }
        None
    }

    /// How many steps are made at most: one for each row of the messages.
    pub open spec fn most_steps(c: PaneContent) -> int {
        let sum = Self::height_sum(c.heights@);
        if sum > 1 {
            sum
        } else {
            1
        }
    }

    pub open spec fn height_sum(heights: Seq<usize>) -> int
        decreases heights.len(),
    {
        if heights.len() == 0 {
            0
        } else {
            Self::height_sum(heights.drop_last()) + heights.last()
        }
    }

    proof fn lemma_height_sum(c: PaneContent, k: int)
        requires
            c.wf(),
            0 <= k <= c.len(),
        ensures
            0 <= Self::height_sum(c.heights@.take(k)) <= c.rows(0, k),
        decreases k,
    {
        if k > 0 {
            Self::lemma_height_sum(c, k - 1);
            assert(c.heights@.take(k).drop_last() =~= c.heights@.take(k - 1));
        } else {
            assert(c.heights@.take(0) =~= Seq::<usize>::empty());
        }
    }

    fn settle(&mut self, content: &PaneContent)
        requires
            content.wf(),
        ensures
            *final(self) == old(self).settled(*content, Self::most_steps(*content)),
    {
        let mut steps: usize = 0;
        let mut i: usize = 0;
        assert(content.heights@.take(0) =~= Seq::<usize>::empty());
        while i < content.heights.len()
            invariant
                content.wf(),
                i <= content.heights@.len(),
                steps == Self::height_sum(content.heights@.take(i as int)),
                *self == *old(self),
            decreases content.heights@.len() - i,
        {
            proof {
                Self::lemma_height_sum(*content, i + 1);
                content.lemma_rows_bounds(0, i + 1);
                assert(content.heights@.take(i + 1).drop_last() =~= content.heights@.take(i as int));
            }
            steps = steps + content.heights[i];
            i += 1;
        }
        assert(content.heights@.take(i as int) =~= content.heights@);
        if steps < 1 {
            steps = 1;
        }
        let ghost goal = self.settled(*content, steps as int);
        while steps > 0
            invariant
                content.wf(),
                goal == self.settled(*content, steps as int),
            ensures
                *self == goal,
            decreases steps,
        {
            match self.settle_once(content) {
                None => {
                    break;
                },
                Some(at) => {
                    self.place(at);
                },
            }
            steps = steps - 1;
        }
    }

    /// Whether the second message is selected and fits below the first, so that nothing needs to move.
    pub open spec fn second_message_fits(self, c: PaneContent) -> bool {
        self.cursor(c) == 1 && self.message_scroll == 0 && self.message_line_scroll == 0 && self.selected_bottom(c)
            < self.content_height()
    }

    /// The pane before a frame is drawn: opened at the first unread message where that is due, at the end
    /// where it follows the newest message, and otherwise with the selected message in the middle, or as
    /// near to it as the ends allow.
    pub open spec fn framed(self, c: PaneContent, content_width: usize, preview_width: u16, max_preview_height: u16)
        -> MessageViewport {
        let v = (MessageViewport {
            message_content_width: content_width,
            message_preview_width: preview_width,
            message_max_preview_height: max_preview_height,
            ..self
        }).anchored(c).clamped(c);
        if v.message_auto_follow {
            if v.message_view_height <= 1 {
                v.placed(RowPosition { message: v.cursor(c) as usize, line: 0 })
            } else {
                v.aligned(c)
            }
        } else {
            let w = v.normalized(c);
            if c.len() == 0 || !w.message_keep_selection_visible {
                w
            } else if w.cursor(c) == 0 {
                w.placed(RowPosition { message: 0, line: 0 })
            } else if w.second_message_fits(c) {
                w
            } else {
                match w.centered(c) {
                    Some(at) => w.placed(at),
                    None => w.settled(c, Self::most_steps(c)),
                }
            }
        }
    }

    pub fn clamp_message_viewport_for_image_previews(
        &mut self,
        content: &PaneContent,
        content_width: usize,
        preview_width: u16,
        max_preview_height: u16,
    )
        requires
            content.wf(),
        ensures
            *final(self) == old(self).framed(*content, content_width, preview_width, max_preview_height),
    {
        self.message_content_width = content_width;
        self.message_preview_width = preview_width;
        self.message_max_preview_height = max_preview_height;
        self.try_apply_unread_anchor_scroll(content);
        self.clamp_message_viewport(content);
        if self.message_auto_follow {
            if self.message_view_height <= 1 {
                self.message_scroll = self.selected(content);
                self.message_line_scroll = 0;
            } else {
                self.align_message_viewport_to_bottom(content);
            }
            return;
        }
        self.normalize_line_scroll(content);
        if content.ids.len() == 0 || !self.message_keep_selection_visible {
            return;
        }
        if self.selected(content) == 0 {
            self.message_scroll = 0;
            self.message_line_scroll = 0;
            return;
        }
        let height = self.message_content_height();
        if self.selected(content) == 1 && self.message_scroll == 0 && self.message_line_scroll == 0 {
            let (_, selected_bottom) = self.selected_rows(content);
            if selected_bottom < height {
                return;
            }
        }
        if self.center_selected_message(content) {
            return;
        }
        self.settle(content);
    }
}

/// How many of some cards fit into a pane, `rows` rows of which are taken. The first card is shown in any
/// case.
pub open spec fn cards_shown(cards: Seq<usize>, rows: usize, first: bool, height: int) -> int
    decreases cards.len(),
{
    if cards.len() == 0 || (!first && sat_add(rows, cards[0]) > height) {
        0
    } else {
        let taken = sat_add(rows, cards[0]);
        1 + (if taken >= height { 0 } else { cards_shown(cards.drop_first(), taken, false, height) })
    }
}

/// The card that shows row `row`, of cards some of which have a label above them. A label belongs to no
/// card.
pub open spec fn card_at_row(cards: Seq<usize>, labels: Seq<bool>, i: int, to: int, above: int, row: int) -> Option<int>
    decreases to - i,
{
    if i >= to {
        None
    } else {
        let label: int = if labels[i] { 1 } else { 0 };
        let body = minus(cards[i] as int, label);
        if labels[i] && row == above {
            None
        } else if row < above + label + body {
            Some(i)
        } else {
            card_at_row(cards, labels, i + 1, to, above + label + body, row)
        }
    }
}

/// The message that shows row `row`; of the first one `cut` rows are cut off.
pub open spec fn message_at_row(c: PaneContent, i: int, to: int, above: int, cut: int, row: int) -> Option<int>
    decreases to - i,
{
    if i >= to {
        None
    } else {
        let shown = minus(c.height_at(i), cut);
        if row < above + shown {
            Some(i)
        } else {
            message_at_row(c, i + 1, to, above + shown, 0, row)
        }
    }
}

impl MessageViewport {
    /// The first card that is shown, and the one behind the last.
    pub open spec fn visible_cards(self, c: PaneContent) -> (int, int) {
        let from = least(self.message_scroll as int, c.cards@.len() as int);
        (from, from + cards_shown(c.cards@.skip(from), 0, true, self.content_height()))
    }

    proof fn lemma_cards_shown(cards: Seq<usize>, rows: usize, first: bool, height: int)
        ensures
            0 <= cards_shown(cards, rows, first, height) <= cards.len(),
        decreases cards.len(),
    {
        if cards.len() > 0 {
            Self::lemma_cards_shown(cards.drop_first(), sat_add(rows, cards[0]), false, height);
        }
    }

    pub fn visible_thread_cards(&self, content: &PaneContent) -> (r: (usize, usize))
        ensures
            r.0 == self.visible_cards(*content).0,
            r.1 == self.visible_cards(*content).1,
            r.0 <= r.1 <= content.cards@.len(),
    {
        let height = self.message_content_height();
        let from = min_of(self.message_scroll, content.cards.len());
        let ghost goal = cards_shown(content.cards@.skip(from as int), 0, true, height as int);
        let mut to: usize = from;
        let mut rows: usize = 0;
        let mut done = false;
        while to < content.cards.len() && !done
            invariant
                from <= to <= content.cards@.len(),
                goal == (to - from) + (if done {
                    0
                } else {
                    cards_shown(content.cards@.skip(to as int), rows, to == from, height as int)
                }),
            decreases content.cards@.len() - to, if done { 0int } else { 1int },
        {
            assert(content.cards@.skip(to as int).drop_first() =~= content.cards@.skip(to + 1));
            assert(content.cards@.skip(to as int)[0] == content.cards@[to as int]);
            let taken = rows.saturating_add(content.cards[to]);
            if to > from && taken > height {
                done = true;
            } else {
                rows = taken;
                to += 1;
                if rows >= height {
                    done = true;
                }
            }
        }
        (from, to)
    }

    /// The row of the list, counted from its first visible item, that the cursor is on.
    pub open spec fn focused_row(self, c: PaneContent) -> Option<usize> {
        let (from, to) = if c.forum {
            self.visible_cards(c)
        } else {
            (self.message_scroll as int, self.message_scroll + (self.visible_to(c) - self.visible_from(c)))
        };
        if c.focused && self.message_scroll <= self.cursor(c) && self.cursor(c) < to && c.items() > 0 {
            Some((self.cursor(c) - self.message_scroll) as usize)
        } else {
            None
        }
    }

    pub fn focused_message_selection(&self, content: &PaneContent) -> (r: Option<usize>)
        ensures
            r == self.focused_row(*content),
    {
        if !content.focused || content.item_count() == 0 {
            return None;
        }
        let selected = self.selected(content);
        if selected < self.message_scroll {
            return None;
        }
        let shown = if content.forum {
            let (from, to) = self.visible_thread_cards(content);
            to - from
        } else {
            let (from, to) = self.visible_messages(content);
            to - from
        };
        if selected - self.message_scroll < shown {
            Some(selected - self.message_scroll)
        } else {
            None
        }
    }

    /// The number of the first row that is shown.
    pub open spec fn row_position(self, c: PaneContent) -> int {
        least(c.rows(0, self.message_scroll as int) + self.message_line_scroll, usize::MAX as int)
    }

    pub fn message_scroll_row_position(&self, content: &PaneContent) -> (r: usize)
        requires
            content.wf(),
        ensures
            r == self.row_position(*content),
    {
        content.row_count(0, self.message_scroll).saturating_add(self.message_line_scroll)
    }

    /// Whether the last row of the last message is shown.
    pub open spec fn at_latest(self, c: PaneContent) -> bool {
        if c.forum || c.pinned {
            false
        } else if c.len() == 0 {
            true
        } else if self.message_content_width == usize::MAX {
            self.message_scroll + self.content_height() >= c.len()
        } else {
            minus(c.total(), self.row_position(c)) <= self.content_height()
        }
    }

    pub fn is_viewport_at_latest_message(&self, content: &PaneContent) -> (r: bool)
        requires
            content.wf(),
        ensures
            r == self.at_latest(*content),
    {
        if content.forum || content.pinned {
            return false;
        }
        if content.ids.len() == 0 {
            return true;
        }
        let height = self.message_content_height();
        if self.message_content_width == usize::MAX {
            return self.message_scroll.saturating_add(height) >= content.ids.len();
        }
        let total = content.row_count(0, content.ids.len());
        total.saturating_sub(self.message_scroll_row_position(content)) <= height
    }

    /// Whether the cursor is on the last message.
    pub open spec fn on_last(self, c: PaneContent) -> bool {
        !c.forum && !c.pinned && (c.len() == 0 || self.selected_message >= c.len() - 1)
    }

    pub fn cursor_on_last_message(&self, content: &PaneContent) -> (r: bool)
        ensures
            r == self.on_last(*content),
    {
        if content.forum || content.pinned {
            return false;
        }
        content.ids.len() == 0 || self.selected_message >= content.ids.len() - 1
    }

    /// The pane follows the newest message where the cursor is on it and it is shown. Then nothing is
    /// unread.
    pub open spec fn follow_refreshed(self, c: PaneContent) -> MessageViewport {
        if self.on_last(c) && self.at_latest(c) {
            MessageViewport {
                message_auto_follow: true,
                new_messages_marker_message_id: None,
                unread_divider_last_acked_id: None,
                pending_unread_anchor_scroll: false,
                ..self
            }
        } else {
            MessageViewport { message_auto_follow: false, ..self }
        }
    }

    pub fn refresh_message_auto_follow(&mut self, content: &PaneContent)
        requires
            content.wf(),
        ensures
            *final(self) == old(self).follow_refreshed(*content),
    {
        self.message_auto_follow = self.cursor_on_last_message(content) && self.is_viewport_at_latest_message(content);
        if self.message_auto_follow {
            self.new_messages_marker_message_id = None;
            self.unread_divider_last_acked_id = None;
            self.pending_unread_anchor_scroll = false;
        }
    }

    pub fn clear_new_messages_marker(&mut self)
        ensures
            *final(self) == (MessageViewport { new_messages_marker_message_id: None, ..*old(self) }),
    {
        self.new_messages_marker_message_id = None;
    }

    /// Forgets the marker where its message is gone.
    pub fn clear_missing_new_messages_marker(&mut self, content: &PaneContent)
        ensures
            *final(self) == (match old(self).new_messages_marker_message_id {
                Some(id) => if place_of(content.ids@, id) < content.len() {
                    *old(self)
                } else {
                    MessageViewport { new_messages_marker_message_id: None, ..*old(self) }
                },
                None => *old(self),
            }),
    {
        if let Some(id) = self.new_messages_marker_message_id {
            if find_id(&content.ids, id).is_none() {
                self.new_messages_marker_message_id = None;
            }
        }
    }

    /// Puts the cursor on the newest message. What is shown is decided with the next frame.
    pub fn follow_latest_message(&mut self, content: &PaneContent)
        ensures
            *final(self) == (MessageViewport {
                selected_message: last_of(content.items()) as usize,
                message_keep_selection_visible: true,
                ..*old(self)
            }),
    {
        self.selected_message = content.item_count().saturating_sub(1);
        self.message_keep_selection_visible = true;
    }

    /// Puts the cursor and the beginning of the pane back on the messages they were on, where those are
    /// still there.
    pub open spec fn restored(self, c: PaneContent, selected: Option<MessageId>, scroll: Option<MessageId>)
        -> MessageViewport {
        MessageViewport {
            selected_message: match selected {
                Some(id) => if place_of(c.ids@, id) < c.len() {
                    place_of(c.ids@, id) as usize
                } else {
                    self.selected_message
                },
                None => self.selected_message,
            },
            message_scroll: match scroll {
                Some(id) => if place_of(c.ids@, id) < c.len() {
                    place_of(c.ids@, id) as usize
                } else {
                    self.message_scroll
                },
                None => self.message_scroll,
            },
            ..self
        }
    }

    pub fn restore_message_position(
        &mut self,
        content: &PaneContent,
        selected: Option<MessageId>,
        scroll: Option<MessageId>,
    )
        ensures
            *final(self) == old(self).restored(*content, selected, scroll),
    {
        if let Some(id) = selected {
            if let Some(i) = find_id(&content.ids, id) {
                self.selected_message = i;
            }
        }
        if let Some(id) = scroll {
            if let Some(i) = find_id(&content.ids, id) {
                self.message_scroll = i;
            }
        }
    }

    /// The pane no longer follows anything: it was moved by hand.
    pub open spec fn by_hand(self) -> MessageViewport {
        MessageViewport { message_auto_follow: false, message_keep_selection_visible: false, ..self }
    }

    /// Where a row further down would be, even behind the last message.
    pub open spec fn next_row(self, height: usize) -> RowPosition {
        if self.message_line_scroll + 1 < height {
            RowPosition { message: self.message_scroll, line: (self.message_line_scroll + 1) as usize }
        } else {
            RowPosition { message: least(self.message_scroll + 1, usize::MAX as int) as usize, line: 0 }
        }
    }

    /// The pane a row further down, as long as it stays filled.
    pub open spec fn scrolled_down(self, c: PaneContent) -> MessageViewport {
        if !c.focused || self.message_content_width == usize::MAX {
            self
        } else if c.forum {
            MessageViewport {
                message_scroll: least(self.message_scroll + 1, last_of(c.items())) as usize,
                ..self.by_hand()
            }
        } else {
            match self.height_of_first(c) {
                None => self,
                Some(h) => if !self.fills(c, self.next_row(h), self.content_height()) {
                    self
                } else {
                    let v = self.by_hand().placed(row_down(self.at(), c.len(), Some(h)));
                    if v.at_latest(c) {
                        (MessageViewport { new_messages_marker_message_id: None, ..v }).normalized(c)
                    } else {
                        v
                    }
                },
            }
        }
    }

    pub fn scroll_message_viewport_down(&mut self, content: &PaneContent)
        requires
            content.wf(),
        ensures
            *final(self) == old(self).scrolled_down(*content),
    {
        if !content.focused || self.message_content_width == usize::MAX {
            return;
        }
        if content.forum {
            self.message_scroll = min_of(self.message_scroll.saturating_add(1), content.item_count().saturating_sub(1));
            self.message_auto_follow = false;
            self.message_keep_selection_visible = false;
            return;
        }
        let first = self.first_height(content);
        let h: usize = match first {
            None => {
                return;
            },
            Some(h) => h,
        };
        proof {
            content.lemma_height_bounds(self.message_scroll as int);
        }
        let next = if self.message_line_scroll < h - 1 {
            RowPosition { message: self.message_scroll, line: self.message_line_scroll + 1 }
        } else {
            RowPosition { message: self.message_scroll.saturating_add(1), line: 0 }
        };
        if !self.message_viewport_has_rows_below(content, next, self.message_content_height()) {
            return;
        }
        self.message_auto_follow = false;
        self.message_keep_selection_visible = false;
        let at = scroll_message_row_down(self.position(), content.ids.len(), first);
        self.place(at);
        if self.is_viewport_at_latest_message(content) {
            self.new_messages_marker_message_id = None;
            self.normalize_line_scroll(content);
        }
    }

    pub open spec fn scrolled_up(self, c: PaneContent) -> MessageViewport {
        if !c.focused || self.message_content_width == usize::MAX {
            self
        } else if c.forum {
            MessageViewport { message_scroll: minus(self.message_scroll as int, 1) as usize, ..self.by_hand() }
        } else {
            let previous: Option<usize> = if self.message_scroll > 0 {
                Some(c.height_at(self.message_scroll - 1) as usize)
            } else {
                None
            };
            self.by_hand().placed(row_up(self.at(), previous))
        }
    }

    pub fn scroll_message_viewport_up(&mut self, content: &PaneContent)
        requires
            content.wf(),
        ensures
            *final(self) == old(self).scrolled_up(*content),
    {
        if !content.focused || self.message_content_width == usize::MAX {
            return;
        }
        self.message_auto_follow = false;
        self.message_keep_selection_visible = false;
        if content.forum {
            self.message_scroll = self.message_scroll.saturating_sub(1);
            return;
        }
        let previous: Option<usize> = if self.message_scroll > 0 {
            Some(content.height(self.message_scroll - 1))
        } else {
            None
        };
        let at = scroll_message_row_up(self.position(), previous);
        self.place(at);
    }

    pub fn scroll_message_viewport_top(&mut self, content: &PaneContent)
        ensures
            *final(self) == (if content.focused {
                old(self).by_hand().placed(RowPosition { message: 0, line: 0 })
            } else {
                *old(self)
            }),
    {
        if !content.focused {
            return;
        }
        self.message_auto_follow = false;
        self.message_keep_selection_visible = false;
        self.message_scroll = 0;
        self.message_line_scroll = 0;
    }

    pub open spec fn scrolled_to_bottom(self, c: PaneContent) -> MessageViewport {
        if !c.focused || self.message_content_width == usize::MAX {
            self
        } else {
            (MessageViewport { new_messages_marker_message_id: None, ..self.by_hand() }).aligned(c).follow_refreshed(c)
        }
    }

    pub fn scroll_message_viewport_bottom(&mut self, content: &PaneContent)
        requires
            content.wf(),
        ensures
            *final(self) == old(self).scrolled_to_bottom(*content),
    {
        if !content.focused || self.message_content_width == usize::MAX {
            return;
        }
        self.message_auto_follow = false;
        self.message_keep_selection_visible = false;
        self.new_messages_marker_message_id = None;
        self.align_message_viewport_to_bottom(content);
        self.refresh_message_auto_follow(content);
    }

    /// The message or card that shows a row of the pane.
    pub open spec fn item_at_row(self, c: PaneContent, row: int) -> Option<int> {
        if c.forum {
            let (from, to) = self.visible_cards(c);
            card_at_row(c.cards@, c.card_labels@, from, to, 0, row)
        } else if self.message_content_width == usize::MAX {
            None
        } else {
            message_at_row(c, self.visible_from(c), self.visible_to(c), 0, self.message_line_scroll as int, row)
        }
    }

    /// Puts the cursor on what shows a row, if anything does.
    pub fn select_visible_message_row(&mut self, content: &PaneContent, row: usize) -> (done: bool)
        requires
            content.wf(),
            content.card_labels@.len() == content.cards@.len(),
        ensures
            done == old(self).item_at_row(*content, row as int) is Some,
            *final(self) == (match old(self).item_at_row(*content, row as int) {
                Some(i) => MessageViewport { selected_message: i as usize, ..old(self).by_hand() },
                None => *old(self),
            }),
    {
        if content.forum {
            let (from, to) = self.visible_thread_cards(content);
            return self.select_card_row(content, from, to, row);
        }
        if self.message_content_width == usize::MAX {
            return false;
        }
        let (from, to) = self.visible_messages(content);
        let ghost goal = message_at_row(*content, from as int, to as int, 0, self.message_line_scroll as int, row as int);
        let mut above: usize = 0;
        let mut cut: usize = self.message_line_scroll;
        let mut i: usize = from;
        proof {
            assert(content.rows(from as int, from as int) == 0);
        }
        while i < to
            invariant
                content.wf(),
                from <= i <= to <= content.len(),
                *self == *old(self),
                above <= content.rows(from as int, i as int),
                goal == message_at_row(*content, i as int, to as int, above as int, cut as int, row as int),
                goal == old(self).item_at_row(*content, row as int),
            decreases to - i,
        {
            proof {
                content.lemma_rows_bounds(from as int, i + 1);
            }
            let shown = content.height(i).saturating_sub(cut);
            if row < above + shown {
                self.selected_message = i;
                self.message_auto_follow = false;
                self.message_keep_selection_visible = false;
                return true;
            }
            above = above + shown;
            cut = 0;
            i += 1;
        }
        false
    }

    fn select_card_row(&mut self, content: &PaneContent, from: usize, to: usize, row: usize) -> (done: bool)
        requires
            content.card_labels@.len() == content.cards@.len(),
            from <= to <= content.cards@.len(),
        ensures
            done == card_at_row(content.cards@, content.card_labels@, from as int, to as int, 0, row as int) is Some,
            *final(self) == (match card_at_row(
                content.cards@,
                content.card_labels@,
                from as int,
                to as int,
                0,
                row as int,
            ) {
                Some(i) => MessageViewport { selected_message: i as usize, ..old(self).by_hand() },
                None => *old(self),
            }),
    {
        let ghost goal = card_at_row(content.cards@, content.card_labels@, from as int, to as int, 0, row as int);
        let mut above: usize = 0;
        let mut i: usize = from;
        while i < to
            invariant
                content.card_labels@.len() == content.cards@.len(),
                from <= i <= to <= content.cards@.len(),
                *self == *old(self),
                above <= row,
                goal == card_at_row(content.cards@, content.card_labels@, i as int, to as int, above as int, row as int),
                goal == card_at_row(content.cards@, content.card_labels@, from as int, to as int, 0, row as int),
            decreases to - i,
        {
            let mut body: usize = content.cards[i];
            if content.card_labels[i] {
                if row == above {
                    return false;
                }
                above = above + 1;
                body = body.saturating_sub(1);
            }
            if row - above < body {
                self.selected_message = i;
                self.message_auto_follow = false;
                self.message_keep_selection_visible = false;
                return true;
            }
            above = above + body;
            i += 1;
        }
        false
    }

    /// Clamping leaves the cursor and the beginning of the pane on items that exist, where there are any.
    pub proof fn clamping_stays_in_range(self, c: PaneContent)
        ensures
            c.items() > 0 ==> self.clamped(c).selected_message < c.items() && self.clamped(c).message_scroll < c.items(),
            c.items() == 0 ==> self.clamped(c).selected_message == 0 && self.clamped(c).message_scroll == 0,
    {
        if c.items() > 0 {
            let v = MessageViewport {
                selected_message: least(self.selected_message as int, c.items() - 1) as usize,
                message_scroll: least(self.message_scroll as int, c.items() - 1) as usize,
                ..self
            };
            if c.forum {
                Self::lemma_earliest(
                    c.cards@,
                    v.selected_message as int,
                    c.cards@[v.selected_message as int],
                    v.content_height(),
                );
            } else if v.message_content_width == usize::MAX {
                crate::state::scroll::cursor_is_visible(
                    v.selected_message as int,
                    v.message_scroll as int,
                    v.content_height(),
                    c.items(),
                );
            }
        }
    }

    pub(crate) proof fn lemma_earliest(cards: Seq<usize>, at: int, rows: usize, height: int)
        requires
            0 <= at < cards.len(),
        ensures
            0 <= Self::earliest_card(cards, at, rows, height) <= at,
        decreases at,
    {
        if at > 0 {
            let more = sat_add(rows, cards[at - 1]);
            if more <= height {
                Self::lemma_earliest(cards, at - 1, more, height);
            }
        }
    }

    /// Clamping a pane that was clamped changes nothing.
    pub proof fn clamping_settles(self, c: PaneContent)
        ensures
            self.clamped(c).clamped(c) == self.clamped(c),
    {
        self.clamping_stays_in_range(c);
        if c.items() > 0 {
            let v = MessageViewport {
                selected_message: least(self.selected_message as int, c.items() - 1) as usize,
                message_scroll: least(self.message_scroll as int, c.items() - 1) as usize,
                ..self
            };
            if c.forum {
                Self::lemma_earliest(
                    c.cards@,
                    v.selected_message as int,
                    c.cards@[v.selected_message as int],
                    v.content_height(),
                );
            } else if v.message_content_width == usize::MAX {
                crate::state::scroll::cursor_is_visible(
                    v.selected_message as int,
                    v.message_scroll as int,
                    v.content_height(),
                    c.items(),
                );
                crate::state::scroll::scrolling_into_place_settles(
                    v.selected_message as int,
                    v.message_scroll as int,
                    v.content_height(),
                    c.items(),
                );
            }
        }
    }

    /// A pane at the end shows as many rows as it has, or all there are.
    pub proof fn the_bottom_is_the_last_rows(self, c: PaneContent)
        requires
            c.wf(),
        ensures
            c.total() - (c.rows(0, self.bottom(c).message as int) + self.bottom(c).line) == least(
                c.total(),
                self.content_height(),
            ),
    {
        if c.total() >= self.content_height() {
            Self::lemma_position_exists(c, c.total() - self.content_height(), 0);
        }
    }

    pub(crate) proof fn lemma_position_exists(c: PaneContent, row: int, i: int)
        requires
            c.wf(),
            0 <= i <= c.len(),
            0 <= row < c.rows(i, c.len()),
        ensures
            i <= c.position_from(row, i).message < c.len(),
            c.position_from(row, i).line < c.height_at(c.position_from(row, i).message as int),
            c.rows(i, c.position_from(row, i).message as int) + c.position_from(row, i).line == row,
        decreases c.len() - i,
    {
        c.lemma_rows_split(i, i + 1, c.len());
        assert(c.rows(i, i) == 0);
        assert(c.rows(i, i + 1) == c.height_at(i));
        c.lemma_height_bounds(i);
        c.lemma_rows_bounds(0, c.len());
        if row >= c.height_at(i) {
            Self::lemma_position_exists(c, row - c.height_at(i), i + 1);
            c.lemma_rows_split(i, i + 1, c.position_from(row, i).message as int);
        }
    }

    /// A pane at the end shows the newest message.
    pub proof fn the_bottom_shows_the_latest(self, c: PaneContent)
        requires
            c.wf(),
            !c.forum,
            !c.pinned,
            self.message_content_width != usize::MAX,
        ensures
            self.aligned(c).at_latest(c),
    {
        self.the_bottom_is_the_last_rows(c);
        c.lemma_rows_bounds(0, self.bottom(c).message as int);
        if c.total() >= self.content_height() {
            Self::lemma_position_exists(c, c.total() - self.content_height(), 0);
        }
    }

    /// A pane with the selected message in the middle has half of its rows above the middle of the
    /// message, and is filled.
    pub proof fn centering_puts_the_message_in_the_middle(self, c: PaneContent)
        requires
            c.wf(),
            self.centered(c) is Some,
            self.selected_message == self.cursor(c),
        ensures
            self.placed(self.centered(c)->0).selected_row(c) == self.rows_above_center(c),
            self.fills(c, self.centered(c)->0, self.content_height()),
    {
        let sel = self.cursor(c);
        let row = c.rows(0, sel) - self.rows_above_center(c);
        let at = self.centered(c)->0;
        c.lemma_rows_split(0, sel, c.len());
        c.lemma_rows_bounds(0, sel);
        c.lemma_rows_split(sel, sel + 1, c.len());
        assert(c.rows(sel, sel) == 0);
        assert(c.rows(sel, sel + 1) == c.height_at(sel));
        c.lemma_height_bounds(sel);
        c.lemma_rows_bounds(sel + 1, c.len());
        Self::lemma_position_exists(c, row, 0);
        if at.message > sel {
            c.lemma_rows_split(0, sel, at.message as int);
            c.lemma_rows_bounds(sel, at.message as int);
        } else {
            c.lemma_rows_split(0, at.message as int, sel);
        }
        c.lemma_rows_split(0, at.message as int, c.len());
        c.lemma_rows_split(at.message as int, at.message + 1, c.len());
        assert(c.rows(at.message as int, at.message as int) == 0);
        assert(c.rows(at.message as int, at.message + 1) == c.height_at(at.message as int));
    }

    /// Where messages are in order, those from the divider on are the unread ones.
    pub proof fn the_divider_parts_read_from_unread(self, c: PaneContent, i: int)
        requires
            self.divider(c) is Some,
            0 <= i < c.len(),
            forall|a: int, b: int| #![trigger c.ids@[a], c.ids@[b]] 0 <= a <= b < c.len() ==> c.ids@[a] <= c.ids@[b],
        ensures
            c.ids@[i] > self.unread_divider_last_acked_id->0 <==> i >= self.divider(c)->0,
    {
        let id = self.unread_divider_last_acked_id->0;
        Self::lemma_first_newer(c.ids@, id);
        let d = first_newer(c.ids@, id);
        assert(c.ids.len() == c.ids@.len());
        assert(c.ids@[d] > id);
    }

    pub(crate) proof fn lemma_first_newer(ids: Seq<MessageId>, id: MessageId)
        ensures
            0 <= first_newer(ids, id) <= ids.len(),
            first_newer(ids, id) < ids.len() ==> ids[first_newer(ids, id)] > id,
            forall|k: int| 0 <= k < first_newer(ids, id) ==> #[trigger] ids[k] <= id,
        decreases ids.len(),
    {
        if ids.len() > 0 && ids[0] <= id {
            Self::lemma_first_newer(ids.drop_first(), id);
            let rest = ids.drop_first();
            assert forall|k: int| 0 <= k < first_newer(ids, id) implies #[trigger] ids[k] <= id by {
                if k > 0 {
                    assert(rest[k - 1] == ids[k]);
                }
            }
        }
    }
}

} // verus!
