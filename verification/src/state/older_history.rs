//! Asking for messages older than those that are loaded, when the user comes to the first of them.

use crate::discord::AppCommand;
use crate::ids::{ChannelId, MessageId};
use std::collections::HashMap;
use vstd::prelude::*;

verus! {

broadcast use vstd::std_specs::hash::group_hash_axioms;

/// What is known of the messages before some message: they were asked for, or there are none.
#[derive(Clone, Copy, Debug, PartialEq, Eq, Structural)]
pub enum OlderHistoryRequestState {
    Requested { before: MessageId },
    Exhausted { before: MessageId },
}

/// The requests, by channel.
pub struct OlderHistoryRequests {
    requests: HashMap<u64, OlderHistoryRequestState>,
}

impl View for OlderHistoryRequests {
    type V = Map<ChannelId, OlderHistoryRequestState>;

    closed spec fn view(&self) -> Map<ChannelId, OlderHistoryRequestState> {
        self.requests@
    }
}

/// Whether the messages before one are to be asked for: not while others are awaited, and not where there
/// are none.
pub open spec fn wants_older(st: Map<ChannelId, OlderHistoryRequestState>, channel: ChannelId, before: MessageId)
    -> bool {
    st.contains_key(channel) ==> match st[channel] {
        OlderHistoryRequestState::Requested { .. } => false,
        OlderHistoryRequestState::Exhausted { before: exhausted } => exhausted != before,
    }
}

/// What is known after messages came, none of them if `empty`.
pub open spec fn after_loaded(
    st: Map<ChannelId, OlderHistoryRequestState>,
    channel: ChannelId,
    response_before: Option<MessageId>,
    empty: bool,
) -> Map<ChannelId, OlderHistoryRequestState> {
    if !st.contains_key(channel) {
        st
    } else {
        match st[channel] {
            OlderHistoryRequestState::Requested { before } => if response_before != Some(before) {
                st
            } else if empty {
                st.insert(channel, OlderHistoryRequestState::Exhausted { before })
            } else {
                st.remove(channel)
            },
            OlderHistoryRequestState::Exhausted { .. } => st,
        }
    }
}

/// The first message that is loaded, where the cursor is on it and keys go to the messages.
pub fn older_history_cursor(focused: bool, messages: &Vec<MessageId>, selected: usize) -> (r: Option<MessageId>)
    ensures
        r == (if focused && messages@.len() > 0 && selected == 0 {
            Some(messages@[0])
        } else {
            None
        }),
{
    if !focused || messages.len() == 0 || selected != 0 {
        return None;
    }
    Some(messages[0])
}

impl OlderHistoryRequests {
    pub fn new() -> (r: OlderHistoryRequests)
        ensures
            r@ == Map::<ChannelId, OlderHistoryRequestState>::empty(),
    {
        OlderHistoryRequests { requests: HashMap::new() }
    }

    /// Asks for the messages before the cursor, if they are to be asked for.
    pub fn next_older_history_command(&mut self, channel: Option<ChannelId>, cursor: Option<MessageId>) -> (r: Option<
        AppCommand,
    >)
        ensures
            ({
                let wanted = channel is Some && cursor is Some && wants_older(old(self)@, channel->0, cursor->0);
                &&& r == (if wanted {
                    Some(AppCommand::LoadMessageHistory { channel_id: channel->0, before: cursor })
                } else {
                    None
                })
                &&& final(self)@ == (if wanted {
                    old(self)@.insert(channel->0, OlderHistoryRequestState::Requested { before: cursor->0 })
                } else {
                    old(self)@
                })
            }),
    {
        let channel_id: ChannelId = match channel {
            Some(channel_id) => channel_id,
            None => {
                return None;
            },
        };
        let before: MessageId = match cursor {
            Some(before) => before,
            None => {
                return None;
            },
        };
        let wanted = match self.requests.get(&channel_id) {
            None => true,
            Some(state) => match *state {
                OlderHistoryRequestState::Requested { .. } => false,
                OlderHistoryRequestState::Exhausted { before: exhausted } => exhausted != before,
            },
        };
        if !wanted {
            return None;
        }
        self.requests.insert(channel_id, OlderHistoryRequestState::Requested { before });
        Some(AppCommand::LoadMessageHistory { channel_id, before: Some(before) })
    }

    /// Takes note of messages that came. Those that were not asked for change nothing.
    pub fn record_older_history_loaded(&mut self, channel_id: ChannelId, response_before: Option<MessageId>, empty: bool)
        ensures
            final(self)@ == after_loaded(old(self)@, channel_id, response_before, empty),
    {
        let state: Option<OlderHistoryRequestState> = match self.requests.get(&channel_id) {
            None => None,
            Some(state) => Some(*state),
        };
        if let Some(OlderHistoryRequestState::Requested { before }) = state {
            let awaited = match response_before {
                Some(response_before) => response_before == before,
                None => false,
            };
            if awaited {
                if empty {
                    self.requests.insert(channel_id, OlderHistoryRequestState::Exhausted { before });
                } else {
                    self.requests.remove(&channel_id);
                }
            }
        }
    }

    /// Forgets a request that failed, so that it can be made again.
    pub fn record_history_load_failed(&mut self, channel_id: ChannelId)
        ensures
            final(self)@ == old(self)@.remove(channel_id),
    {
        self.requests.remove(&channel_id);
    }
}

/// While an answer is awaited, nothing more is asked for.
pub proof fn older_messages_are_requested_once(
    st: Map<ChannelId, OlderHistoryRequestState>,
    channel: ChannelId,
    before: MessageId,
    other: MessageId,
)
    ensures
        !wants_older(st.insert(channel, OlderHistoryRequestState::Requested { before }), channel, other),
{
}

/// Where an answer was empty, the same messages are not asked for again; those before another message are.
pub proof fn exhausted_history_is_not_requested_again(
    st: Map<ChannelId, OlderHistoryRequestState>,
    channel: ChannelId,
    before: MessageId,
    other: MessageId,
)
    requires
        st.contains_key(channel),
        st[channel] == (OlderHistoryRequestState::Requested { before }),
    ensures
        wants_older(after_loaded(st, channel, Some(before), true), channel, other) == (other != before),
        wants_older(after_loaded(st, channel, Some(before), false), channel, other),
{
}

} // verus!
