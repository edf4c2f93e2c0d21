//! Going from channel to channel, and back from a thread.

use crate::ids::{ChannelId, MessageId};
use crate::state::channel_text::MessagePaneSource;
use crate::state::message_viewport::{fresh_viewport, MessageViewport, PaneContent};
use crate::state::scroll::last_of;
use vstd::prelude::*;

verus! {

/// How many channels are remembered as recent.
pub const RECENT_CHANNEL_LIMIT: usize = 10;

/// Where the user was before a thread was opened.
#[derive(Clone, Copy, Debug, PartialEq, Eq, Structural)]
pub struct ThreadReturnTarget {
    pub thread_channel_id: ChannelId,
    pub channel_id: ChannelId,
    pub selected_message: usize,
    pub message_scroll: usize,
    pub message_line_scroll: usize,
    pub message_keep_selection_visible: bool,
    pub message_auto_follow: bool,
    pub new_messages_marker_message_id: Option<MessageId>,
    pub unread_divider_last_acked_id: Option<MessageId>,
    pub pending_unread_anchor_scroll: bool,
}

/// What is known of a channel that is about to be opened.
#[derive(Clone, Copy, Debug, PartialEq, Eq, Structural)]
pub struct ChannelFacts {
    pub known: bool,
    pub is_forum: bool,
    pub is_category: bool,
    pub is_thread: bool,
    pub last_acked_message_id: Option<MessageId>,
    pub last_message_id: Option<MessageId>,
}

/// The active channel, the recent ones, and what the message pane shows of the active one.
pub struct ChannelNavigation {
    pub active_channel_id: Option<ChannelId>,
    pub recent_channel_ids: Vec<ChannelId>,
    pub viewport: MessageViewport,
    pub thread_return_target: Option<ThreadReturnTarget>,
    pub pinned_message_view_channel_id: Option<ChannelId>,
    pub thread_list_view_channel_id: Option<ChannelId>,
}

pub open spec fn pane_source(
    active: Option<ChannelId>,
    pinned: Option<ChannelId>,
    threads: Option<ChannelId>,
    active_is_forum: bool,
) -> Option<MessagePaneSource> {
    match active {
        None => None,
        Some(channel_id) => if pinned == Some(channel_id) {
            Some(MessagePaneSource::PinnedMessages { channel_id })
        } else if threads == Some(channel_id) {
            Some(MessagePaneSource::ChannelThreads { channel_id })
        } else if active_is_forum {
            Some(MessagePaneSource::ForumPosts { channel_id })
        } else {
            Some(MessagePaneSource::ChannelMessages { channel_id })
        },
    }
}

/// A list without an item.
pub open spec fn without(ids: Seq<ChannelId>, id: ChannelId) -> Seq<ChannelId>
    decreases ids.len(),
{
    if ids.len() == 0 {
        Seq::empty()
    } else if ids.last() == id {
        without(ids.drop_last(), id)
    } else {
        without(ids.drop_last(), id).push(ids.last())
    }
}

/// The recent channels with the newest first, and not more than the limit.
pub open spec fn recent(ids: Seq<ChannelId>, id: ChannelId) -> Seq<ChannelId> {
    let all = seq![id] + without(ids, id);
    if all.len() > RECENT_CHANNEL_LIMIT {
        all.take(RECENT_CHANNEL_LIMIT as int)
    } else {
        all
    }
}

fn same(a: Option<u64>, b: Option<u64>) -> (r: bool)
    ensures
        r == (a == b),
{
    match (a, b) {
        (Some(a), Some(b)) => a == b,
        (None, None) => true,
        _ => false,
    }
}

/// The pane as it opens with a channel: where something is unread it waits for the place of the last read
/// message, and otherwise it follows the newest. A forum begins at its top.
pub open spec fn opened(v: MessageViewport, f: ChannelFacts, c: PaneContent) -> MessageViewport {
    let acked: Option<MessageId> = if f.is_forum { None } else { f.last_acked_message_id };
    let unread = acked is Some && f.last_message_id is Some && f.last_message_id->0 > acked->0;
    let fresh = MessageViewport {
        selected_message: if f.is_forum { 0 } else { last_of(c.len()) as usize },
        message_scroll: 0,
        message_line_scroll: 0,
        new_messages_marker_message_id: None,
        unread_divider_last_acked_id: if unread { acked } else { None },
        pending_unread_anchor_scroll: unread,
        message_auto_follow: !unread && !f.is_forum,
        message_keep_selection_visible: !unread,
        ..v
    };
    fresh.anchored(c).clamped(c)
}

/// What follows from opening a channel.
#[derive(Clone, Copy, Debug, PartialEq, Eq, Structural)]
pub struct ActivationEffects {
    /// The latest messages are awaited.
    pub record_loading: bool,
    /// The channel is told to be read.
    pub queue_ack: bool,
}

/// What follows from leaving a channel for another.
#[derive(Clone, Copy, Debug, PartialEq, Eq, Structural)]
pub struct ViewTransition {
    /// The channel that is no longer looked at.
    pub left: Option<ChannelId>,
    /// Whether the age of the loaded messages matters.
    pub mark_stale_if_elapsed: bool,
}

impl ChannelNavigation {
    /// Recent channels are listed once each, and not too many.
    pub open spec fn wf(self) -> bool {
        self.recent_channel_ids@.no_duplicates() && self.recent_channel_ids@.len() <= RECENT_CHANNEL_LIMIT
    }

    pub open spec fn source(self, active_is_forum: bool) -> Option<MessagePaneSource> {
        pane_source(
            self.active_channel_id,
            self.pinned_message_view_channel_id,
            self.thread_list_view_channel_id,
            active_is_forum,
        )
    }

    pub fn new() -> (r: ChannelNavigation)
        ensures
            r.wf(),
            r.active_channel_id is None,
            r.recent_channel_ids@.len() == 0,
            r.viewport == fresh_viewport(),
            r.thread_return_target is None,
            r.pinned_message_view_channel_id is None,
            r.thread_list_view_channel_id is None,
    {
        ChannelNavigation {
            active_channel_id: None,
            recent_channel_ids: Vec::new(),
            viewport: MessageViewport::default(),
            thread_return_target: None,
            pinned_message_view_channel_id: None,
            thread_list_view_channel_id: None,
        }
    }

    pub fn message_pane_source(&self, active_is_forum: bool) -> (r: Option<MessagePaneSource>)
        ensures
            r == self.source(active_is_forum),
    {
        let channel_id: ChannelId = match self.active_channel_id {
            Some(id) => id,
            None => {
                return None;
            },
        };
        if same(self.pinned_message_view_channel_id, Some(channel_id)) {
            Some(MessagePaneSource::PinnedMessages { channel_id })
        } else if same(self.thread_list_view_channel_id, Some(channel_id)) {
            Some(MessagePaneSource::ChannelThreads { channel_id })
        } else if active_is_forum {
            Some(MessagePaneSource::ForumPosts { channel_id })
        } else {
            Some(MessagePaneSource::ChannelMessages { channel_id })
        }
    }

    pub open spec fn history(self, active_is_forum: bool) -> Option<ChannelId> {
        match self.source(active_is_forum) {
            Some(MessagePaneSource::ChannelMessages { channel_id }) => Some(channel_id),
            _ => None,
        }
    }

    /// The channel whose messages are shown.
    pub fn selected_message_history_channel_id(&self, active_is_forum: bool) -> (r: Option<ChannelId>)
        ensures
            r == self.history(active_is_forum),
    {
        match self.message_pane_source(active_is_forum) {
            Some(MessagePaneSource::ChannelMessages { channel_id }) => Some(channel_id),
            _ => None,
        }
    }

    /// What follows from leaving the channel that is shown.
    pub fn record_message_channel_view_transition(
        &self,
        channel_id: ChannelId,
        active_is_forum: bool,
        facts: ChannelFacts,
    ) -> (r: ViewTransition)
        ensures
            r.left == (if self.history(active_is_forum) is Some && self.history(active_is_forum) != Some(channel_id) {
                self.history(active_is_forum)
            } else {
                None
            }),
            r.mark_stale_if_elapsed == (facts.known && !facts.is_forum && !facts.is_category && !facts.is_thread),
    {
        let shown = self.selected_message_history_channel_id(active_is_forum);
        ViewTransition {
            left: match shown {
                Some(previous) => if previous != channel_id {
                    Some(previous)
                } else {
                    None
                },
                None => None,
            },
            mark_stale_if_elapsed: facts.known && !facts.is_forum && !facts.is_category && !facts.is_thread,
        }
    }

    /// Remembers a channel as recent. Categories and threads are not.
    pub fn record_recent_channel(&mut self, channel_id: ChannelId, facts: ChannelFacts)
        requires
            old(self).wf(),
        ensures
            final(self).wf(),
            final(self).recent_channel_ids@ == (if facts.known && !facts.is_category && !facts.is_thread {
                recent(old(self).recent_channel_ids@, channel_id)
            } else {
                old(self).recent_channel_ids@
            }),
            final(self).active_channel_id == old(self).active_channel_id,
            final(self).viewport == old(self).viewport,
            final(self).thread_return_target == old(self).thread_return_target,
            final(self).pinned_message_view_channel_id == old(self).pinned_message_view_channel_id,
            final(self).thread_list_view_channel_id == old(self).thread_list_view_channel_id,
    {
        if !facts.known || facts.is_category || facts.is_thread {
            return;
        }
        let ghost ids = self.recent_channel_ids@;
        let mut out: Vec<ChannelId> = Vec::new();
        out.push(channel_id);
        let mut i: usize = 0;
        assert(ids.take(0) =~= Seq::<ChannelId>::empty());
        assert(out@ =~= seq![channel_id] + without(ids.take(0), channel_id));
        while i < self.recent_channel_ids.len()
            invariant
                i <= ids.len(),
                ids == self.recent_channel_ids@,
                out@ == seq![channel_id] + without(ids.take(i as int), channel_id),
            decreases ids.len() - i,
        {
            assert(ids.take(i + 1).drop_last() =~= ids.take(i as int));
            if self.recent_channel_ids[i] != channel_id {
                out.push(self.recent_channel_ids[i]);
            }
            assert(out@ =~= seq![channel_id] + without(ids.take(i + 1), channel_id));
            i += 1;
        }
        assert(ids.take(i as int) =~= ids);
        proof {
            lemma_without(ids, channel_id);
        }
        if out.len() > RECENT_CHANNEL_LIMIT {
            out.truncate(RECENT_CHANNEL_LIMIT);
        }
        assert(out@ =~= recent(ids, channel_id));
        proof {
            recent_channels_are_listed_once(ids, channel_id);
        }
        self.recent_channel_ids = out;
    }

    /// Whether a thread that is opened keeps the way back.
    pub open spec fn keeps_return(self, channel_id: ChannelId) -> bool {
        match self.thread_return_target {
            Some(t) => self.active_channel_id == Some(t.channel_id) && channel_id == t.thread_channel_id,
            None => false,
        }
    }

    /// Opens a channel. `cold` says that none of its messages are loaded, `stale` that they are old, and
    /// `content` is what the pane will show.
    pub fn activate_channel(
        &mut self,
        channel_id: ChannelId,
        facts: ChannelFacts,
        cold: bool,
        stale: bool,
        content: &PaneContent,
    ) -> (effects: ActivationEffects)
        requires
            old(self).wf(),
        ensures
            final(self).wf(),
            final(self).active_channel_id == Some(channel_id),
            final(self).recent_channel_ids@ == (if facts.known && !facts.is_category && !facts.is_thread {
                recent(old(self).recent_channel_ids@, channel_id)
            } else {
                old(self).recent_channel_ids@
            }),
            final(self).thread_return_target == (if old(self).keeps_return(channel_id) {
                old(self).thread_return_target
            } else {
                None
            }),
            final(self).pinned_message_view_channel_id is None,
            final(self).thread_list_view_channel_id is None,
            final(self).viewport == opened(old(self).viewport, facts, *content),
            effects == (ActivationEffects { record_loading: cold || stale, queue_ack: !facts.is_forum }),
    {
        self.record_recent_channel(channel_id, facts);
        let keeps = match self.thread_return_target {
            Some(t) => same(self.active_channel_id, Some(t.channel_id)) && channel_id == t.thread_channel_id,
            None => false,
        };
        if !keeps {
            self.thread_return_target = None;
        }
        self.active_channel_id = Some(channel_id);
        self.pinned_message_view_channel_id = None;
        self.thread_list_view_channel_id = None;
        let acked: Option<MessageId> = if facts.is_forum { None } else { facts.last_acked_message_id };
        let unread = match (acked, facts.last_message_id) {
            (Some(acked), Some(latest)) => latest > acked,
            _ => false,
        };
        let mut v = self.viewport;
        v.new_messages_marker_message_id = None;
        v.message_line_scroll = 0;
        if unread {
            v.unread_divider_last_acked_id = acked;
            v.pending_unread_anchor_scroll = true;
            v.message_auto_follow = false;
            v.message_keep_selection_visible = false;
        } else {
            v.unread_divider_last_acked_id = None;
            v.pending_unread_anchor_scroll = false;
            v.message_auto_follow = !facts.is_forum;
            v.message_keep_selection_visible = true;
        }
        v.selected_message = if facts.is_forum { 0 } else { content.ids.len().saturating_sub(1) };
        v.message_scroll = 0;
        v.try_apply_unread_anchor_scroll(content);
        v.clamp_message_viewport(content);
        self.viewport = v;
        ActivationEffects { record_loading: cold || stale, queue_ack: !facts.is_forum }
    }

    /// The way back from a thread that is about to be opened.
    pub open spec fn return_target(self, thread: ChannelId) -> Option<ThreadReturnTarget> {
        match self.active_channel_id {
            Some(channel_id) => if channel_id == thread {
                self.thread_return_target
            } else {
                Some(
                    ThreadReturnTarget {
                        thread_channel_id: thread,
                        channel_id,
                        selected_message: self.viewport.selected_message,
                        message_scroll: self.viewport.message_scroll,
                        message_line_scroll: self.viewport.message_line_scroll,
                        message_keep_selection_visible: self.viewport.message_keep_selection_visible,
                        message_auto_follow: self.viewport.message_auto_follow,
                        new_messages_marker_message_id: self.viewport.new_messages_marker_message_id,
                        unread_divider_last_acked_id: self.viewport.unread_divider_last_acked_id,
                        pending_unread_anchor_scroll: self.viewport.pending_unread_anchor_scroll,
                    },
                )
            },
            None => self.thread_return_target,
        }
    }

    /// Remembers where the user is before a thread is opened.
    pub fn record_thread_return_target(&mut self, thread: ChannelId)
        ensures
            final(self).thread_return_target == old(self).return_target(thread),
            final(self).active_channel_id == old(self).active_channel_id,
            final(self).recent_channel_ids == old(self).recent_channel_ids,
            final(self).viewport == old(self).viewport,
            final(self).pinned_message_view_channel_id == old(self).pinned_message_view_channel_id,
            final(self).thread_list_view_channel_id == old(self).thread_list_view_channel_id,
    {
        let channel_id: ChannelId = match self.active_channel_id {
            Some(id) => id,
            None => {
                return;
            },
        };
        if channel_id == thread {
            return;
        }
        self.thread_return_target = Some(
            ThreadReturnTarget {
                thread_channel_id: thread,
                channel_id,
                selected_message: self.viewport.selected_message,
                message_scroll: self.viewport.message_scroll,
                message_line_scroll: self.viewport.message_line_scroll,
                message_keep_selection_visible: self.viewport.message_keep_selection_visible,
                message_auto_follow: self.viewport.message_auto_follow,
                new_messages_marker_message_id: self.viewport.new_messages_marker_message_id,
                unread_divider_last_acked_id: self.viewport.unread_divider_last_acked_id,
                pending_unread_anchor_scroll: self.viewport.pending_unread_anchor_scroll,
            },
        );
    }

    /// Where returning from the active thread leads, if anywhere.
    pub open spec fn way_back(self) -> Option<ThreadReturnTarget> {
        match self.thread_return_target {
            Some(t) => if self.active_channel_id == Some(t.thread_channel_id) {
                Some(t)
            } else {
                None
            },
            None => None,
        }
    }

    /// Goes back to where the user was before the active thread was opened. `active_is_thread` says
    /// whether the active channel still is a thread, `target_known` whether the channel is still there;
    /// `facts` and `content` are those of the channel that is gone back to.
    pub fn return_from_opened_thread(
        &mut self,
        active_is_thread: bool,
        target_known: bool,
        facts: ChannelFacts,
        cold: bool,
        stale: bool,
        content: &PaneContent,
    ) -> (done: Option<ActivationEffects>)
        requires
            old(self).wf(),
        ensures
            final(self).wf(),
            done is Some == (old(self).way_back() is Some && active_is_thread && target_known),
            done matches Some(effects) ==> effects == (ActivationEffects {
                record_loading: cold || stale,
                queue_ack: !facts.is_forum,
            }),
            done is Some ==> {
                &&& *final(self) == (ChannelNavigation {
                    active_channel_id: Some(old(self).way_back()->0.channel_id),
                    recent_channel_ids: final(self).recent_channel_ids,
                    viewport: put_back(
                        opened(old(self).viewport, facts, *content),
                        old(self).way_back()->0,
                    ).clamped(*content),
                    thread_return_target: None,
                    pinned_message_view_channel_id: None,
                    thread_list_view_channel_id: None,
                })
                &&& final(self).recent_channel_ids@ == (if facts.known && !facts.is_category && !facts.is_thread {
                    recent(old(self).recent_channel_ids@, old(self).way_back()->0.channel_id)
                } else {
                    old(self).recent_channel_ids@
                })
            },
            done is None ==> *final(self) == (ChannelNavigation {
                thread_return_target: if old(self).way_back() is Some {
                    None
                } else {
                    old(self).thread_return_target
                },
                ..*old(self)
            }),
    {
        let target: ThreadReturnTarget = match self.thread_return_target {
            Some(t) => t,
            None => {
                return None;
            },
        };
        if !same(self.active_channel_id, Some(target.thread_channel_id)) {
            return None;
        }
        if !active_is_thread || !target_known {
            self.thread_return_target = None;
            return None;
        }
        let effects = self.activate_channel(target.channel_id, facts, cold, stale, content);
        let mut v = self.viewport;
        v.selected_message = target.selected_message;
        v.message_scroll = target.message_scroll;
        v.message_line_scroll = target.message_line_scroll;
        v.message_keep_selection_visible = target.message_keep_selection_visible;
        v.message_auto_follow = target.message_auto_follow;
        v.new_messages_marker_message_id = target.new_messages_marker_message_id;
        v.unread_divider_last_acked_id = target.unread_divider_last_acked_id;
        v.pending_unread_anchor_scroll = target.pending_unread_anchor_scroll;
        v.clamp_message_viewport(content);
        self.viewport = v;
        self.thread_return_target = None;
        Some(effects)
    }

    /// Forgets what is unread where the channel that was read is the active one.
    pub fn mark_channel_as_read(&mut self, channel_id: ChannelId)
        ensures
            final(self).active_channel_id == old(self).active_channel_id,
            final(self).recent_channel_ids == old(self).recent_channel_ids,
            final(self).thread_return_target == old(self).thread_return_target,
            final(self).pinned_message_view_channel_id == old(self).pinned_message_view_channel_id,
            final(self).thread_list_view_channel_id == old(self).thread_list_view_channel_id,
            final(self).viewport == (if old(self).active_channel_id == Some(channel_id) {
                MessageViewport {
                    unread_divider_last_acked_id: None,
                    pending_unread_anchor_scroll: false,
                    new_messages_marker_message_id: None,
                    ..old(self).viewport
                }
            } else {
                old(self).viewport
            }),
    {
        if same(self.active_channel_id, Some(channel_id)) {
            self.viewport.unread_divider_last_acked_id = None;
            self.viewport.pending_unread_anchor_scroll = false;
            self.viewport.new_messages_marker_message_id = None;
        }
    }
}

/// A pane put back to where it was.
pub open spec fn put_back(v: MessageViewport, t: ThreadReturnTarget) -> MessageViewport {
    MessageViewport {
        selected_message: t.selected_message,
        message_scroll: t.message_scroll,
        message_line_scroll: t.message_line_scroll,
        message_keep_selection_visible: t.message_keep_selection_visible,
        message_auto_follow: t.message_auto_follow,
        new_messages_marker_message_id: t.new_messages_marker_message_id,
        unread_divider_last_acked_id: t.unread_divider_last_acked_id,
        pending_unread_anchor_scroll: t.pending_unread_anchor_scroll,
        ..v
    }
}

/// A channel and the message up to which it is read.
#[derive(Clone, Copy, Debug, PartialEq, Eq, Structural)]
pub struct AckTarget {
    pub channel_id: ChannelId,
    pub message_id: MessageId,
}

/// What is told to be read with a forum: itself, and its posts.
pub fn forum_ack_targets(own: Option<AckTarget>, children: Vec<AckTarget>) -> (r: Vec<AckTarget>)
    ensures
        r@ == (match own {
            Some(t) => seq![t] + children@,
            None => children@,
        }),
{
    let mut out: Vec<AckTarget> = Vec::new();
    if let Some(t) = own {
        out.push(t);
    }
    let mut rest = children;
    let ghost front = out@;
    out.append(&mut rest);
    assert(out@ =~= front + children@);
    out
}

proof fn lemma_without(ids: Seq<ChannelId>, id: ChannelId)
    ensures
        without(ids, id).len() <= ids.len(),
        !without(ids, id).contains(id),
        ids.no_duplicates() ==> without(ids, id).no_duplicates(),
        forall|x: ChannelId| x != id ==> #[trigger] without(ids, id).contains(x) == ids.contains(x),
    decreases ids.len(),
{
    if ids.len() > 0 {
        let rest = ids.drop_last();
        lemma_without(rest, id);
        let w = without(ids, id);
        let less = without(rest, id);
        if ids.no_duplicates() {
            assert(rest.no_duplicates()) by {
                assert forall|a: int, b: int| 0 <= a < rest.len() && 0 <= b < rest.len() && a != b implies rest[a]
                    != rest[b] by {
                    assert(rest[a] == ids[a] && rest[b] == ids[b]);
                }
            }
        }
        assert forall|x: ChannelId| x != id implies #[trigger] w.contains(x) == ids.contains(x) by {
            assert(less.contains(x) == rest.contains(x));
            if ids.contains(x) {
                let k = choose|k: int| 0 <= k < ids.len() && ids[k] == x;
                if k < rest.len() {
                    assert(rest[k] == x);
                    let m = choose|m: int| 0 <= m < less.len() && less[m] == x;
                    assert(w[m] == x);
                } else {
                    assert(w[w.len() - 1] == x);
                }
            }
            if w.contains(x) {
                let k = choose|k: int| 0 <= k < w.len() && w[k] == x;
                if k < less.len() {
                    assert(less[k] == x);
                    let m = choose|m: int| 0 <= m < rest.len() && rest[m] == x;
                    assert(ids[m] == x);
                } else {
                    assert(ids[ids.len() - 1] == x);
                }
            }
        }
        if ids.last() != id {
            assert(!w.contains(id)) by {
                if w.contains(id) {
                    let k = choose|k: int| 0 <= k < w.len() && w[k] == id;
                    if k < less.len() {
                        assert(less[k] == id);
                    }
                }
            }
            if ids.no_duplicates() {
                assert(w.no_duplicates()) by {
                    assert forall|a: int, b: int| 0 <= a < w.len() && 0 <= b < w.len() && a != b implies w[a] != w[b] by {
                        if a == less.len() {
                            if w[b] == ids.last() {
                                assert(less[b] == ids.last());
                                assert(less.contains(ids.last()));
                                let m = choose|m: int| 0 <= m < rest.len() && rest[m] == ids.last();
                                assert(ids[m] == ids[ids.len() - 1]);
                            }
                        } else if b == less.len() {
                            if w[a] == ids.last() {
                                assert(less[a] == ids.last());
                                assert(less.contains(ids.last()));
                                let m = choose|m: int| 0 <= m < rest.len() && rest[m] == ids.last();
                                assert(ids[m] == ids[ids.len() - 1]);
                            }
                        } else {
                            assert(less[a] == w[a] && less[b] == w[b]);
                        }
                    }
                }
            }
        }
    }
}

/// Recent channels are listed once, the newest first, and not too many.
pub proof fn recent_channels_are_listed_once(ids: Seq<ChannelId>, id: ChannelId)
    requires
        ids.no_duplicates(),
    ensures
        recent(ids, id).no_duplicates(),
        recent(ids, id).len() <= RECENT_CHANNEL_LIMIT,
        recent(ids, id)[0] == id,
{
    lemma_without(ids, id);
    let all = seq![id] + without(ids, id);
    let w = without(ids, id);
    assert(all.no_duplicates()) by {
        assert forall|a: int, b: int| 0 <= a < all.len() && 0 <= b < all.len() && a != b implies all[a] != all[b] by {
            if a == 0 {
                assert(w[b - 1] == all[b]);
                assert(w.contains(all[b]));
            } else if b == 0 {
                assert(w[a - 1] == all[a]);
                assert(w.contains(all[a]));
            } else {
                assert(w[a - 1] != w[b - 1]);
            }
        }
    }
    let r = recent(ids, id);
    assert forall|a: int, b: int| 0 <= a < r.len() && 0 <= b < r.len() && a != b implies r[a] != r[b] by {
        assert(r[a] == all[a] && r[b] == all[b]);
    }
}

/// A thread that is opened from another channel has a way back to it, which leads to the place in it.
pub proof fn threads_lead_back(nav: ChannelNavigation, thread: ChannelId, v: MessageViewport)
    requires
        nav.active_channel_id is Some,
        nav.active_channel_id != Some(thread),
    ensures
        ({
            let target = nav.return_target(thread);
            let ready = ChannelNavigation { thread_return_target: target, ..nav };
            let inside = ChannelNavigation { active_channel_id: Some(thread), ..ready };
            &&& ready.keeps_return(thread)
            &&& inside.way_back() == target
            &&& Some(target->0.channel_id) == nav.active_channel_id
            &&& put_back(v, target->0).selected_message == nav.viewport.selected_message
            &&& put_back(v, target->0).at() == nav.viewport.at()
        }),
{
}

} // verus!
