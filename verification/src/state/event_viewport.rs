//! Keeping the message pane in its place while events change what it shows.
//!
//! Who reads the newest messages sees those that come in. Who reads older ones is not moved, and a marker
//! tells where the new ones begin.

use crate::ids::{ChannelId, MessageId};
use crate::state::message_viewport::{find_id, place_of, MessageViewport, PaneContent};
use crate::state::scroll::last_of;
use vstd::prelude::*;

verus! {

/// A message that came into the channel that is shown.
#[derive(Clone, Copy, Debug, PartialEq, Eq, Structural)]
pub struct NewMessage {
    pub channel_id: ChannelId,
    pub message_id: MessageId,
}

/// What is remembered of the pane over an event.
#[derive(Clone, Copy, Debug, PartialEq, Eq, Structural)]
pub struct EventViewportContext {
    pub was_at_latest: bool,
    pub was_following_cursor: bool,
    pub user_just_sent: bool,
    pub active_new_message: Option<NewMessage>,
    pub selected_message_id: Option<MessageId>,
    pub scroll_message_id: Option<MessageId>,
}

pub open spec fn id_at(ids: Seq<MessageId>, index: int) -> Option<MessageId> {
    if 0 <= index < ids.len() {
        Some(ids[index])
    } else {
        None
    }
}

fn find_at(ids: &Vec<MessageId>, index: usize) -> (r: Option<MessageId>)
    ensures
        r == id_at(ids@, index as int),
{
    if index < ids.len() {
        Some(ids[index])
    } else {
        None
    }
}

/// What is remembered of a pane.
pub open spec fn captured(
    v: MessageViewport,
    c: PaneContent,
    user_just_sent: bool,
    active_new_message: Option<NewMessage>,
) -> EventViewportContext {
    let at_latest = v.message_auto_follow || v.at_latest(c);
    let following = at_latest && v.on_last(c);
    EventViewportContext {
        was_at_latest: at_latest,
        was_following_cursor: following,
        user_just_sent,
        active_new_message,
        selected_message_id: if following {
            None
        } else {
            id_at(c.ids@, v.cursor(c))
        },
        scroll_message_id: if at_latest {
            None
        } else {
            id_at(c.ids@, v.message_scroll as int)
        },
    }
}

impl EventViewportContext {
    /// Remembers the pane as it is before an event.
    pub fn capture(
        viewport: &MessageViewport,
        content: &PaneContent,
        user_just_sent: bool,
        active_new_message: Option<NewMessage>,
    ) -> (r: EventViewportContext)
        requires
            content.wf(),
        ensures
            r == captured(*viewport, *content, user_just_sent, active_new_message),
    {
        let was_at_latest = viewport.message_auto_follow || viewport.is_viewport_at_latest_message(content);
        let was_following_cursor = was_at_latest && viewport.cursor_on_last_message(content);
        let selected_message_id = if was_following_cursor {
            None
        } else {
            find_at(&content.ids, viewport.selected(content))
        };
        let scroll_message_id = if was_at_latest { None } else { find_at(&content.ids, viewport.message_scroll) };
        EventViewportContext {
            was_at_latest,
            was_following_cursor,
            user_just_sent,
            active_new_message,
            selected_message_id,
            scroll_message_id,
        }
    }

    pub open spec fn follows(self, supports_follow: bool) -> bool {
        self.was_following_cursor && supports_follow
    }

    /// Whether the pane shows the newest message afterwards.
    pub open spec fn scrolls(self, supports_follow: bool) -> bool {
        (self.was_following_cursor || self.was_at_latest) && supports_follow
    }

    /// The channel that is read with this event: a message came to where the user looks.
    pub open spec fn acks(self, supports_follow: bool) -> Option<ChannelId> {
        match self.active_new_message {
            Some(m) => if self.scrolls(supports_follow) && !self.user_just_sent {
                Some(m.channel_id)
            } else {
                None
            },
            None => None,
        }
    }

    /// The marker of new messages, without one that stands at a message that is gone.
    pub open spec fn kept_marker(v: MessageViewport, c: PaneContent) -> Option<MessageId> {
        match v.new_messages_marker_message_id {
            Some(id) => if place_of(c.ids@, id) < c.len() {
                Some(id)
            } else {
                None
            },
            None => None,
        }
    }

    /// The pane with its cursor where it was, or on the newest message.
    pub open spec fn placed(self, v: MessageViewport, c: PaneContent, supports_follow: bool) -> MessageViewport {
        let kept = MessageViewport { new_messages_marker_message_id: Self::kept_marker(v, c), ..v };
        if self.follows(supports_follow) {
            MessageViewport {
                selected_message: last_of(c.items()) as usize,
                message_keep_selection_visible: true,
                ..kept
            }
        } else {
            kept.restored(c, self.selected_message_id, self.scroll_message_id)
        }
    }

    /// The pane with its marks of what is new.
    pub open spec fn marked(self, v: MessageViewport, supports_follow: bool) -> MessageViewport {
        if self.scrolls(supports_follow) {
            let own = self.active_new_message is Some && self.user_just_sent;
            MessageViewport {
                message_auto_follow: true,
                new_messages_marker_message_id: None,
                unread_divider_last_acked_id: if own {
                    None
                } else {
                    v.unread_divider_last_acked_id
                },
                pending_unread_anchor_scroll: v.pending_unread_anchor_scroll && !own,
                ..v
            }
        } else if supports_follow && !self.was_at_latest && !self.user_just_sent
            && v.new_messages_marker_message_id is None {
            MessageViewport {
                new_messages_marker_message_id: match self.active_new_message {
                    Some(m) => Some(m.message_id),
                    None => None,
                },
                ..v
            }
        } else {
            v
        }
    }

    /// The pane on a message that was asked for, if that came.
    pub open spec fn found(v: MessageViewport, c: PaneContent, referenced: Option<MessageId>) -> MessageViewport {
        match referenced {
            Some(id) => if place_of(c.ids@, id) < c.len() {
                MessageViewport {
                    selected_message: place_of(c.ids@, id) as usize,
                    message_keep_selection_visible: true,
                    message_auto_follow: false,
                    ..v
                }
            } else {
                v
            },
            None => v,
        }
    }

    /// The pane after an event.
    pub open spec fn repaired(
        self,
        v: MessageViewport,
        c: PaneContent,
        supports_follow: bool,
        referenced: Option<MessageId>,
    ) -> MessageViewport {
        let placed = self.placed(v.clamped(c), c, supports_follow);
        let settled = Self::found(self.marked(placed, supports_follow), c, referenced).clamped(c);
        if self.scrolls(supports_follow) {
            settled
        } else {
            settled.follow_refreshed(c)
        }
    }

    /// Brings the pane in order after an event. `supports_follow` tells whether it shows a channel's newest
    /// messages, and `referenced` a message of that channel that was asked for. Gives the channel that was
    /// read with this.
    pub fn repair_after_event(
        self,
        viewport: &mut MessageViewport,
        content: &PaneContent,
        supports_follow: bool,
        referenced: Option<MessageId>,
    ) -> (r: Option<ChannelId>)
        requires
            content.wf(),
        ensures
            *final(viewport) == self.repaired(*old(viewport), *content, supports_follow, referenced),
            r == self.acks(supports_follow),
    {
        viewport.clamp_message_viewport(content);
        viewport.clear_missing_new_messages_marker(content);
        let should_follow = self.was_following_cursor && supports_follow;
        let should_scroll = should_follow || (self.was_at_latest && supports_follow);
        if should_follow {
            viewport.follow_latest_message(content);
        } else {
            viewport.restore_message_position(content, self.selected_message_id, self.scroll_message_id);
        }
        let mut ack: Option<ChannelId> = None;
        if should_scroll {
            viewport.message_auto_follow = true;
            viewport.clear_new_messages_marker();
            if let Some(message) = self.active_new_message {
                if self.user_just_sent {
                    viewport.unread_divider_last_acked_id = None;
                    viewport.pending_unread_anchor_scroll = false;
                } else {
                    ack = Some(message.channel_id);
                }
            }
        } else if supports_follow && !self.was_at_latest && !self.user_just_sent
            && viewport.new_messages_marker_message_id.is_none() {
            viewport.new_messages_marker_message_id = match self.active_new_message {
                Some(message) => Some(message.message_id),
                None => None,
            };
        }
        if let Some(id) = referenced {
            if let Some(index) = find_id(&content.ids, id) {
                viewport.selected_message = index;
                viewport.message_keep_selection_visible = true;
                viewport.message_auto_follow = false;
            }
        }
        viewport.clamp_message_viewport(content);
        if !should_scroll {
            viewport.refresh_message_auto_follow(content);
        }
        ack
    }
}

/// Whoever reads older messages stays with them: as long as they are loaded, the cursor is on the same
/// message and the pane begins with the same one.
pub proof fn readers_of_older_messages_stay(
    v: MessageViewport,
    before: PaneContent,
    c: PaneContent,
    sent: bool,
    new: Option<NewMessage>,
    supports_follow: bool,
)
    requires
        !before.forum,
        !c.forum,
        before.len() > 0,
        v.message_content_width != usize::MAX,
        !v.message_auto_follow,
        !v.at_latest(before),
        v.message_scroll < before.len(),
        place_of(c.ids@, before.ids@[v.cursor(before)]) < c.len(),
        place_of(c.ids@, before.ids@[v.message_scroll as int]) < c.len(),
    ensures
        ({
            let after = captured(v, before, sent, new).repaired(v, c, supports_follow, None);
            &&& c.ids@[after.selected_message as int] == before.ids@[v.cursor(before)]
            &&& c.ids@[after.message_scroll as int] == before.ids@[v.message_scroll as int]
            &&& after.message_line_scroll == v.message_line_scroll
        }),
{
    let selected = before.ids@[v.cursor(before)];
    let first = before.ids@[v.message_scroll as int];
    lemma_place_holds(c.ids@, selected);
    lemma_place_holds(c.ids@, first);
    assert(c.ids.len() == c.ids@.len());
    let context = captured(v, before, sent, new);
    assert(context.selected_message_id == Some(selected));
    assert(context.scroll_message_id == Some(first));
    let placed = context.placed(v.clamped(c), c, supports_follow);
    assert(placed.selected_message == place_of(c.ids@, selected));
    assert(placed.message_scroll == place_of(c.ids@, first));
}

proof fn lemma_place_holds(ids: Seq<MessageId>, id: MessageId)
    ensures
        0 <= place_of(ids, id) <= ids.len(),
        place_of(ids, id) < ids.len() ==> ids[place_of(ids, id)] == id,
    decreases ids.len(),
{
    if ids.len() > 0 && ids[0] != id {
        lemma_place_holds(ids.drop_first(), id);
    }
}

/// Whoever is on the newest message is taken along to the new one, and no marker is left.
pub proof fn followers_see_the_newest(
    v: MessageViewport,
    before: PaneContent,
    c: PaneContent,
    sent: bool,
    new: Option<NewMessage>,
)
    requires
        !c.forum,
        v.on_last(before),
        v.message_auto_follow || v.at_latest(before),
    ensures
        ({
            let after = captured(v, before, sent, new).repaired(v, c, true, None);
            &&& after.on_last(c) || c.pinned
            &&& after.message_auto_follow
            &&& after.new_messages_marker_message_id is None
        }),
{
    assert(c.ids.len() == c.ids@.len());
}

/// A message that comes while older ones are read is marked as the first new one, if none was.
pub proof fn new_messages_are_marked(
    v: MessageViewport,
    before: PaneContent,
    c: PaneContent,
    new: NewMessage,
)
    requires
        !c.forum,
        !v.message_auto_follow,
        !v.at_latest(before),
        v.new_messages_marker_message_id is None,
    ensures
        ({
            let after = captured(v, before, false, Some(new)).repaired(v, c, true, None);
            after.message_auto_follow || after.new_messages_marker_message_id == Some(new.message_id)
        }),
{
}

} // verus!
