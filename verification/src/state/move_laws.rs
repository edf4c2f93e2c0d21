//! Where moves, events and opening a channel lead.

use crate::ids::MessageId;
use crate::state::channel_pane::{first_from, last_before, near, ChannelPaneRow};
use crate::state::dashboard::{line_of_row, DashboardState, PaneLists, PaneMove};
use crate::state::event_viewport::{captured, EventViewportContext, NewMessage};
use crate::state::message_viewport::{
    card_at_row, cards_shown, first_newer, place_of, MessageViewport, PaneContent,
};
use crate::state::model::FocusPane;
use crate::state::navigation::{opened, ChannelFacts};
use crate::state::scroll::list_scroll;
use vstd::prelude::*;

verus! {

// ---- Lists ----

/// A list is scrolled so that up to three rows above and below the cursor are shown, as many as there are and as the
/// height allows; and not at all, where they are shown already and no row behind the list is.
pub proof fn rows_around_the_cursor_are_shown(cursor: int, scroll: int, height: int, len: int, row: int)
    requires
        0 <= cursor < len,
        0 <= scroll,
        height > 0,
        0 <= row < len,
    ensures
        ({
            let first = list_scroll(cursor, scroll, height, len);
            let room = if (height - 1) / 2 < 3 { (height - 1) / 2 } else { 3 };
            let shown = scroll <= (if cursor > room { cursor - room } else { 0 }) && (if cursor + room < len {
                cursor + room
            } else {
                len - 1
            }) < scroll + height;
            &&& cursor - room <= row <= cursor + room ==> first <= row < first + height
            &&& shown && scroll + height <= len && cursor + room < len ==> first == scroll
            &&& len <= height ==> first == 0
        }),
{
}

/// The moves in the list of guilds: one row, half a page or to an end, as far as the list goes. The row of the cursor
/// is shown.
pub proof fn guild_moves_lead_to_their_rows(s: DashboardState, lists: PaneLists, mv: PaneMove)
    requires
        s.focus == FocusPane::Guilds,
        s.guilds.selected < lists.guild_rows,
        s.guilds.view_height < usize::MAX,
    ensures
        ({
            let after = s.moved(lists, mv);
            let (at, to, last) = (s.guilds.selected as int, after.guilds.selected as int, lists.guild_rows - 1);
            let half = if s.guilds.view_height < 2 { 1 } else { s.guilds.view_height as int / 2 };
            &&& mv is Down ==> to == (if at < last { at + 1 } else { last })
            &&& mv is Up ==> to == (if at > 0 { at - 1 } else { 0 })
            &&& mv is Top ==> to == 0
            &&& mv is Bottom ==> to == last
            &&& mv is HalfDown ==> to == (if at + half <= last { at + half } else { last })
            &&& mv is HalfUp ==> to == (if at >= half { at - half } else { 0 })
            &&& after.guilds.scroll <= to < after.guilds.scroll + (if s.guilds.view_height == 0 {
                1
            } else {
                s.guilds.view_height as int
            })
            &&& after == (DashboardState { guilds: after.guilds, ..s })
        }),
{
}

/// The same moves in the messages. Going up, the pane ceases to follow the newest; what is selected is to be shown.
pub proof fn message_moves_lead_to_their_messages(s: DashboardState, lists: PaneLists, mv: PaneMove)
    requires
        s.focus == FocusPane::Messages,
        s.navigation.viewport.selected_message < lists.content.items(),
        !lists.content.forum,
        s.navigation.viewport.message_content_width < usize::MAX,
    ensures
        ({
            let (v, w) = (s.navigation.viewport, s.moved(lists, mv).navigation.viewport);
            let (at, to, last) = (v.selected_message as int, w.selected_message as int, lists.content.ids@.len() - 1);
            let half = if v.message_view_height < 2 { 1 } else { v.message_view_height as int / 2 };
            &&& mv is Down ==> to == (if at < last { at + 1 } else { last })
            &&& mv is Up ==> to == (if at > 0 { at - 1 } else { 0 })
            &&& mv is Top ==> to == 0
            &&& mv is Bottom ==> to == last
            &&& mv is HalfDown ==> to == (if at + half <= last { at + half } else { last })
            &&& mv is HalfUp ==> to == (if at >= half { at - half } else { 0 })
            &&& w.message_keep_selection_visible
            &&& mv is Up || mv is Top || mv is HalfUp ==> !w.message_auto_follow
            &&& mv is Down || mv is Bottom || mv is HalfDown ==> w.message_auto_follow == v.message_auto_follow
            &&& w.new_messages_marker_message_id == v.new_messages_marker_message_id
        }),
{
    assert(lists.content.ids.len() == lists.content.ids@.len());
}

/// The moves in the members, but for half pages, which are counted in lines.
pub proof fn member_moves_lead_to_their_members(s: DashboardState, lists: PaneLists, mv: PaneMove)
    requires
        lists.wf(),
        s.focus == FocusPane::Members,
        s.members.selected < lists.members(),
        !(mv is HalfDown) && !(mv is HalfUp),
    ensures
        ({
            let (at, to, last) = (s.members.selected as int, s.moved(lists, mv).members.selected as int, lists.members() - 1);
            &&& mv is Down ==> to == (if at < last { at + 1 } else { last })
            &&& mv is Up ==> to == (if at > 0 { at - 1 } else { 0 })
            &&& mv is Top ==> to == 0
            &&& mv is Bottom ==> to == last
        }),
{
}

proof fn lemma_first_from(rows: Seq<bool>, i: int)
    requires
        0 <= i <= rows.len(),
    ensures
        i <= first_from(rows, i) <= rows.len(),
        first_from(rows, i) < rows.len() ==> rows[first_from(rows, i)],
        forall|k: int| i <= k < first_from(rows, i) ==> !#[trigger] rows[k],
    decreases rows.len() - i,
{
    if i < rows.len() && !rows[i] {
        lemma_first_from(rows, i + 1);
    }
}

proof fn lemma_last_before(rows: Seq<bool>, i: int)
    requires
        0 <= i <= rows.len(),
    ensures
        -1 <= last_before(rows, i) < i,
        last_before(rows, i) >= 0 ==> rows[last_before(rows, i)],
        forall|k: int| last_before(rows, i) < k < i ==> !#[trigger] rows[k],
    decreases i,
{
    if i > 0 && !rows[i - 1] {
        lemma_last_before(rows, i - 1);
    }
}

proof fn lemma_near(rows: Seq<bool>, index: int, forward: bool)
    requires
        0 <= index,
        rows.len() <= usize::MAX,
    ensures
        match near(rows, index, forward) {
            Some(row) => row < rows.len() && rows[row as int] && ({
                let at = if index < rows.len() { index } else { rows.len() - 1 };
                &&& row > at ==> forall|k: int| at <= k < row ==> !#[trigger] rows[k]
                &&& row < at ==> forall|k: int| row < k <= at ==> !#[trigger] rows[k]
                &&& forward && row < at ==> forall|k: int| at <= k < rows.len() ==> !#[trigger] rows[k]
                &&& !forward && row > at ==> forall|k: int| 0 <= k <= at ==> !#[trigger] rows[k]
            }),
            None => forall|k: int| 0 <= k < rows.len() ==> !#[trigger] rows[k],
        },
{
    if rows.len() > 0 {
        let at = if index < rows.len() { index } else { rows.len() - 1 };
        lemma_first_from(rows, at);
        lemma_last_before(rows, at);
    }
}

/// The moves in the list of channels lead to rows that can be selected: the next one below or above the cursor, if
/// there is one, the first and the last.
pub proof fn channel_moves_lead_to_their_rows(s: DashboardState, lists: PaneLists, mv: PaneMove, k: int)
    requires
        s.focus == FocusPane::Channels,
        s.channels.selected < lists.channel_selectable@.len(),
        lists.channel_selectable@[s.channels.selected as int],
        0 <= k < lists.channel_selectable@.len(),
        lists.channel_selectable@[k],
    ensures
        ({
            let rows = lists.channel_selectable@;
            let (at, to) = (s.channels.selected as int, s.moved(lists, mv).channels.selected as int);
            &&& 0 <= to < rows.len() && rows[to]
            &&& mv is Down ==> to >= at && (k > at ==> at < to <= k)
            &&& mv is Up ==> to <= at && (k < at ==> k <= to < at)
            &&& mv is Top ==> to <= k
            &&& mv is Bottom ==> k <= to
            &&& mv is HalfDown ==> to >= at
            &&& mv is HalfUp ==> to <= at
        }),
{
    let rows = lists.channel_selectable@;
    assert(lists.channel_selectable.len() == rows.len());
    let at = s.channels.selected as int;
    let half = crate::state::list_pane::half_page(s.channels.view_height);
    assert(s.channel_cursor(lists) == at);
    let next = if at + 1 <= usize::MAX { at + 1 } else { usize::MAX as int };
    let far = if at + half <= usize::MAX { at + half } else { usize::MAX as int };
    lemma_near(rows, next, true);
    lemma_near(rows, if at >= 1 { at - 1 } else { 0 }, false);
    lemma_near(rows, 0, true);
    lemma_near(rows, rows.len() - 1, false);
    lemma_near(rows, far, true);
    lemma_near(rows, if at >= half { at - half } else { 0 }, false);
}

proof fn lemma_line_of_row(rows: Seq<ChannelPaneRow>, row: usize)
    ensures
        0 <= line_of_row(rows, row) <= rows.len(),
        line_of_row(rows, row) < rows.len() ==> rows[line_of_row(rows, row)] == (ChannelPaneRow::Entry { entry_index: row }),
    decreases rows.len(),
{
    if rows.len() > 0 && rows[0] != (ChannelPaneRow::Entry { entry_index: row }) {
        lemma_line_of_row(rows.drop_first(), row);
    }
}

proof fn lemma_has_line(rows: Seq<ChannelPaneRow>, row: usize, i: int)
    requires
        0 <= i < rows.len(),
        rows[i] == (ChannelPaneRow::Entry { entry_index: row }),
    ensures
        line_of_row(rows, row) <= i,
    decreases i,
{
    if i > 0 && rows[0] != (ChannelPaneRow::Entry { entry_index: row }) {
        assert(rows.drop_first()[i - 1] == rows[i]);
        lemma_has_line(rows.drop_first(), row, i - 1);
    }
}

/// Wherever a move in the list of channels leads, the line of the row is shown.
pub proof fn the_selected_channel_is_shown(s: DashboardState, lists: PaneLists, mv: PaneMove, i: int) -> (line: int)
    requires
        s.focus == FocusPane::Channels,
        s.channels.view_height > 0,
        0 <= i < lists.channel_rows@.len(),
        lists.channel_rows@[i] == (ChannelPaneRow::Entry { entry_index: s.moved(lists, mv).channels.selected }),
    ensures
        ({
            let after = s.moved(lists, mv).channels;
            &&& 0 <= line < lists.channel_rows@.len()
            &&& lists.channel_rows@[line] == (ChannelPaneRow::Entry { entry_index: after.selected })
            &&& after.scroll <= line < after.scroll + after.view_height
        }),
{
    let rows = lists.channel_rows@;
    let row = s.moved(lists, mv).channels.selected;
    lemma_line_of_row(rows, row);
    lemma_has_line(rows, row, i);
    assert(lists.channel_rows.len() == rows.len());
    let line = line_of_row(rows, row);
    crate::state::scroll::cursor_is_visible(
        line,
        s.channels.scroll as int,
        s.channels.view_height as int,
        rows.len() as int,
    );
    line
}

// ---- Cards ----

/// The rows of the cards from one to another.
pub open spec fn card_rows(cards: Seq<usize>, from: int, to: int) -> int
    decreases to - from,
{
    if to <= from {
        0
    } else {
        cards[from] + card_rows(cards, from + 1, to)
    }
}

proof fn lemma_card_rows(cards: Seq<usize>, from: int, to: int)
    requires
        0 <= from <= to < cards.len(),
    ensures
        card_rows(cards, from, to + 1) == card_rows(cards, from, to) + cards[to],
        card_rows(cards, from, to) >= 0,
    decreases to - from,
{
    if from < to {
        lemma_card_rows(cards, from + 1, to);
    } else {
        assert(card_rows(cards, to + 1, to + 1) == 0);
    }
}

proof fn lemma_card_rows_nonneg(cards: Seq<usize>, from: int, to: int)
    ensures
        card_rows(cards, from, to) >= 0,
    decreases to - from,
{
    if from < to {
        lemma_card_rows_nonneg(cards, from + 1, to);
    }
}

proof fn lemma_earliest(cards: Seq<usize>, at: int, s: int, rows: usize, height: int)
    requires
        0 <= at <= s < cards.len(),
        rows == card_rows(cards, at, s + 1),
        at == s || rows <= height,
        0 < height < usize::MAX,
    ensures
        ({
            let e = MessageViewport::earliest_card(cards, at, rows, height);
            &&& 0 <= e <= at
            &&& e == s || card_rows(cards, e, s + 1) <= height
            &&& e > 0 ==> card_rows(cards, e - 1, s + 1) > height
        }),
    decreases at,
{
    if at > 0 {
        assert(card_rows(cards, at - 1, s + 1) == cards[at - 1] + card_rows(cards, at, s + 1));
        if rows + cards[at - 1] <= height {
            lemma_earliest(cards, at - 1, s, (rows + cards[at - 1]) as usize, height);
        }
    }
}

proof fn lemma_fewer_rows(cards: Seq<usize>, a: int, b: int, to: int)
    requires
        0 <= a <= b,
    ensures
        card_rows(cards, b, to) <= card_rows(cards, a, to),
    decreases b - a,
{
    if a < b {
        lemma_fewer_rows(cards, a + 1, b, to);
        lemma_card_rows_nonneg(cards, a + 1, to);
        lemma_card_rows_nonneg(cards, b, to);
    }
}

/// The cards of a forum are scrolled as little as needed for the selected one to be shown whole, or first, where it is
/// too high.
pub proof fn the_selected_card_is_shown(v: MessageViewport, c: PaneContent)
    requires
        c.forum,
        c.cards@.len() > 0,
        0 < v.message_view_height < usize::MAX,
    ensures
        ({
            let w = v.clamped(c);
            let last = c.cards@.len() - 1;
            let s: int = if v.selected_message <= last { v.selected_message as int } else { last };
            let height = v.message_view_height;
            &&& w.selected_message == s
            &&& w.message_scroll <= s
            &&& w.message_scroll == s || card_rows(c.cards@, w.message_scroll as int, s + 1) <= height
            &&& v.message_scroll <= s && card_rows(c.cards@, v.message_scroll as int, s + 1) <= height ==> w.message_scroll
                == v.message_scroll
            &&& v.message_scroll > s ==> w.message_scroll == s
            &&& w.message_line_scroll == 0
        }),
{
    assert(c.cards.len() == c.cards@.len());
    let last = c.cards@.len() - 1;
    let s: int = if v.selected_message <= last { v.selected_message as int } else { last };
    let height = v.message_view_height as int;
    assert(card_rows(c.cards@, s + 1, s + 1) == 0);
    assert(card_rows(c.cards@, s, s + 1) == c.cards@[s]);
    lemma_earliest(c.cards@, s, s, c.cards@[s], height);
    let e = MessageViewport::earliest_card(c.cards@, s, c.cards@[s], height);
    let w = v.clamped(c);
    lemma_fewer_rows(c.cards@, e, w.message_scroll as int, s + 1);
    if v.message_scroll < e {
        lemma_fewer_rows(c.cards@, v.message_scroll as int, e - 1, s + 1);
    }
}

proof fn lemma_cards_shown(cards: Seq<usize>, from: int, at: int, rows: usize, height: int)
    requires
        0 <= from <= at <= cards.len(),
        rows == card_rows(cards, from, at),
        rows < height < usize::MAX,
    ensures
        ({
            let to = at + cards_shown(cards.skip(at), rows, at == from, height);
            &&& at <= to <= cards.len()
            &&& at == from && from < cards.len() ==> to > from
            &&& to > from + 1 ==> card_rows(cards, from, to) <= height
            &&& to < cards.len() ==> card_rows(cards, from, to + 1) >= height
        }),
    decreases cards.len() - at,
{
    if at < cards.len() {
        let rest = cards.skip(at);
        assert(rest[0] == cards[at]);
        assert(rest.drop_first() =~= cards.skip(at + 1));
        lemma_card_rows(cards, from, at);
        if at == from || rows + cards[at] <= height {
            if rows + cards[at] < height {
                lemma_cards_shown(cards, from, at + 1, (rows + cards[at]) as usize, height);
            } else if at + 1 < cards.len() {
                lemma_card_rows(cards, from, at + 1);
            }
        }
    }
}

/// The cards that are shown: from the first one on as many as fit, and the first one in any case.
pub proof fn as_many_cards_are_shown_as_fit(v: MessageViewport, c: PaneContent)
    requires
        v.message_scroll < c.cards@.len(),
        0 < v.message_view_height < usize::MAX,
    ensures
        ({
            let (from, to) = v.visible_cards(c);
            let height = v.message_view_height;
            &&& from == v.message_scroll
            &&& from < to <= c.cards@.len()
            &&& to > from + 1 ==> card_rows(c.cards@, from, to) <= height
            &&& to < c.cards@.len() ==> card_rows(c.cards@, from, to + 1) >= height
        }),
{
    let from = v.message_scroll as int;
    assert(card_rows(c.cards@, from, from) == 0);
    lemma_cards_shown(c.cards@, from, from, 0, v.message_view_height as int);
}

proof fn lemma_card_at_row(cards: Seq<usize>, labels: Seq<bool>, i: int, to: int, above: int, row: int)
    requires
        0 <= i <= to <= cards.len(),
        labels.len() == cards.len(),
        forall|k: int| 0 <= k < cards.len() ==> #[trigger] cards[k] >= 2,
        0 <= above <= row,
    ensures
        match card_at_row(cards, labels, i, to, above, row) {
            Some(k) => {
                &&& i <= k < to
                &&& above + card_rows(cards, i, k) <= row < above + card_rows(cards, i, k + 1)
                &&& labels[k] ==> row > above + card_rows(cards, i, k)
            },
            None => {
                ||| row >= above + card_rows(cards, i, to)
                ||| exists|k: int| i <= k < to && #[trigger] labels[k] && row == above + card_rows(cards, i, k)
            },
        },
    decreases to - i,
{
    if i < to {
        assert(cards[i] >= 2);
        assert(card_rows(cards, i, i) == 0);
        assert(card_rows(cards, i + 1, i + 1) == 0);
        assert(card_rows(cards, i, i + 1) == cards[i]);
        lemma_card_rows_nonneg(cards, i + 1, to);
        if labels[i] && row == above {
            assert(row == above + card_rows(cards, i, i));
        } else if row >= above + cards[i] {
            lemma_card_at_row(cards, labels, i + 1, to, above + cards[i], row);
            match card_at_row(cards, labels, i + 1, to, above + cards[i], row) {
                Some(k) => {
                    assert(card_rows(cards, i, k) == cards[i] + card_rows(cards, i + 1, k));
                    assert(card_rows(cards, i, k + 1) == cards[i] + card_rows(cards, i + 1, k + 1));
                },
                None => {
                    if row < above + cards[i] + card_rows(cards, i + 1, to) {
                        let k = choose|k: int|
                            i + 1 <= k < to && #[trigger] labels[k] && row == above + cards[i] + card_rows(cards, i + 1, k);
                        assert(card_rows(cards, i, k) == cards[i] + card_rows(cards, i + 1, k));
                        assert(labels[k] && row == above + card_rows(cards, i, k));
                    }
                },
            }
        }
    }
}

/// A row of a forum belongs to the card that takes it. The labels of sections belong to no card.
pub proof fn rows_belong_to_their_cards(v: MessageViewport, c: PaneContent, row: int)
    requires
        c.forum,
        c.card_labels@.len() == c.cards@.len(),
        forall|k: int| 0 <= k < c.cards@.len() ==> #[trigger] c.cards@[k] >= 2,
        v.message_scroll < c.cards@.len(),
        0 < v.message_view_height < usize::MAX,
        0 <= row,
    ensures
        ({
            let from = v.message_scroll as int;
            match v.item_at_row(c, row) {
                Some(k) => {
                    &&& from <= k < c.cards@.len()
                    &&& card_rows(c.cards@, from, k) <= row < card_rows(c.cards@, from, k + 1)
                    &&& c.card_labels@[k] ==> row > card_rows(c.cards@, from, k)
                },
                None => {
                    ||| row >= card_rows(c.cards@, from, v.visible_cards(c).1)
                    ||| exists|k: int|
                        from <= k < c.cards@.len() && #[trigger] c.card_labels@[k] && row == card_rows(c.cards@, from, k)
                },
            }
        }),
{
    as_many_cards_are_shown_as_fit(v, c);
    lemma_card_at_row(c.cards@, c.card_labels@, v.visible_cards(c).0, v.visible_cards(c).1, 0, row);
}

// ---- Events ----

/// A message that comes to where the user looks is told to be read, unless the user sent it. Elsewhere nothing is.
pub proof fn seen_messages_are_read(v: MessageViewport, before: PaneContent, sent: bool, new: Option<NewMessage>)
    ensures
        ({
            let ack = captured(v, before, sent, new).acks(true);
            let looks = v.message_auto_follow || v.at_latest(before);
            &&& new matches Some(m) ==> looks && !sent ==> ack == Some(m.channel_id)
            &&& new is None || sent || !looks ==> ack is None
        }),
{
}

/// Whoever sends a message has read all that was there: the line above the unread messages goes.
pub proof fn sending_reads_the_channel(v: MessageViewport, before: PaneContent, c: PaneContent, new: NewMessage)
    requires
        v.message_auto_follow || v.at_latest(before),
    ensures
        ({
            let after = captured(v, before, true, Some(new)).repaired(v, c, true, None);
            after.unread_divider_last_acked_id is None && !after.pending_unread_anchor_scroll
                && after.new_messages_marker_message_id is None && after.message_auto_follow
        }),
{
}

proof fn lemma_place(ids: Seq<MessageId>, id: MessageId, i: int)
    requires
        0 <= i < ids.len(),
        ids[i] == id,
    ensures
        0 <= place_of(ids, id) <= i,
        ids[place_of(ids, id)] == id,
    decreases ids.len(),
{
    if ids[0] != id {
        assert(ids.drop_first()[i - 1] == id);
        lemma_place(ids.drop_first(), id, i - 1);
    }
}

/// A message that was asked for and came is selected and to be shown.
pub proof fn messages_asked_for_are_selected(context: EventViewportContext, v: MessageViewport, c: PaneContent, id: MessageId, i: int)
    requires
        !c.forum,
        v.message_content_width < usize::MAX,
        0 <= i < c.ids@.len(),
        c.ids@[i] == id,
    ensures
        ({
            let after = context.repaired(v, c, true, Some(id));
            &&& after.selected_message < c.ids@.len()
            &&& c.ids@[after.selected_message as int] == id
            &&& after.message_keep_selection_visible
        }),
{
    assert(c.ids.len() == c.ids@.len());
    lemma_place(c.ids@, id, i);
}

// ---- Opening a channel ----

/// A channel with unread messages opens at the first of them, once it is loaded. Another one opens at its newest
/// message and follows it. A forum opens at its top.
pub proof fn channels_open_where_reading_goes_on(v: MessageViewport, f: ChannelFacts, c: PaneContent)
    requires
        v.message_content_width < usize::MAX,
        f.is_forum == c.forum,
        !c.pinned,
    ensures
        ({
            let w = opened(v, f, c);
            let unread = f.last_acked_message_id is Some && f.last_message_id is Some && f.last_message_id->0
                > f.last_acked_message_id->0;
            let last = c.ids@.len() - 1;
            &&& !c.forum && !unread ==> w.message_auto_follow && w.message_keep_selection_visible
                && w.unread_divider_last_acked_id is None && !w.pending_unread_anchor_scroll && (last >= 0
                ==> w.selected_message == last)
            &&& !c.forum && unread ==> !w.message_auto_follow && w.unread_divider_last_acked_id
                == f.last_acked_message_id
            &&& !c.forum && unread && (exists|i: int| 0 <= i <= last && #[trigger] c.ids@[i] > f.last_acked_message_id->0) ==> {
                let s = w.selected_message as int;
                &&& !w.pending_unread_anchor_scroll
                &&& s <= last && c.ids@[s] > f.last_acked_message_id->0
                &&& forall|i: int| 0 <= i < s ==> #[trigger] c.ids@[i] <= f.last_acked_message_id->0
                &&& w.message_scroll == (if s > 0 { s - 1 } else { 0 })
            }
            &&& !c.forum && unread && !(exists|i: int|
                0 <= i <= last && #[trigger] c.ids@[i] > f.last_acked_message_id->0) ==> w.pending_unread_anchor_scroll
            &&& c.forum ==> w.selected_message == 0 && w.message_scroll == 0 && !w.message_auto_follow
                && w.unread_divider_last_acked_id is None
            &&& w.new_messages_marker_message_id is None
            &&& w.message_line_scroll == 0
        }),
{
    assert(c.ids.len() == c.ids@.len());
    assert(c.cards.len() == c.cards@.len());
    if f.last_acked_message_id is Some {
        let id = f.last_acked_message_id->0;
        MessageViewport::lemma_first_newer(c.ids@, id);
        let d = first_newer(c.ids@, id);
        if d < c.ids@.len() {
            assert(c.ids@[d] > id);
        }
    }
}

} // verus!
