//! The menu of what can be done with a message.

use crate::discord::AppCommand;
use crate::ids::{ChannelId, GuildId, MessageId, UserId};
use crate::message::poll::{PollAnswerInfo, PollInfo};
use crate::message::reactions::ReactionEmoji;
use crate::state::model::{FocusPane, MessageActionItem, MessageActionKind};
use crate::state::popups::MessageActionMenuState;
use crate::state::scroll::{clamp_selected_index, last_of, least, minus, move_index_down, move_index_up};
use vstd::prelude::*;
use vstd::string::*;

verus! {

/// A reaction, and how its emoji is called.
#[derive(Debug, PartialEq, Eq)]
pub struct ActionReaction {
    pub emoji: ReactionEmoji,
    pub label: String,
    pub me: bool,
}

/// What of a message decides what can be done with it.
#[derive(Debug, PartialEq, Eq)]
pub struct ActionMessage {
    pub guild_id: Option<GuildId>,
    pub channel_id: ChannelId,
    pub message_id: MessageId,
    pub author_id: UserId,
    /// Whether it is an ordinary message, written by someone.
    pub regular: bool,
    pub has_content: bool,
    /// The thread that it started.
    pub thread: Option<ChannelId>,
    pub has_image: bool,
    pub pinned: bool,
    pub reactions: Vec<ActionReaction>,
    pub poll: Option<PollInfo>,
}

/// The value of a [`MessageActionItem`].
pub struct ActionView {
    pub kind: MessageActionKind,
    pub label: Seq<char>,
    pub enabled: bool,
}

impl View for MessageActionItem {
    type V = ActionView;

    open spec fn view(&self) -> ActionView {
        ActionView { kind: self.kind, label: self.label@, enabled: self.enabled }
    }
}

pub open spec fn action_views(v: Seq<MessageActionItem>) -> Seq<ActionView> {
    v.map_values(|i: MessageActionItem| i@)
}

pub open spec fn action(kind: MessageActionKind, label: Seq<char>) -> ActionView {
    ActionView { kind, label, enabled: true }
}

// ---- What is offered ----

/// Behind some actions, one for each of the first reactions that the user can take back.
pub open spec fn with_removals(v: Seq<ActionView>, reactions: Seq<ActionReaction>, k: int) -> Seq<ActionView>
    decreases k,
{
    if k <= 0 {
        v
    } else {
        let before = with_removals(v, reactions, k - 1);
        if reactions[k - 1].me {
            before.push(
                action(
                    MessageActionKind::RemoveReaction((k - 1) as usize),
                    "Remove "@ + reactions[k - 1].label@ + " reaction"@,
                ),
            )
        } else {
            before
        }
    }
}

pub open spec fn vote_label(a: PollAnswerInfo) -> Seq<char> {
    if a.me_voted {
        "Remove poll vote: "@ + a.text@
    } else {
        "Vote poll: "@ + a.text@
    }
}

/// Behind some actions, one for each of the first answers of a poll.
pub open spec fn with_votes(v: Seq<ActionView>, answers: Seq<PollAnswerInfo>, k: int) -> Seq<ActionView>
    decreases k,
{
    if k <= 0 {
        v
    } else {
        with_votes(v, answers, k - 1).push(
            action(MessageActionKind::VotePollAnswer(answers[k - 1].answer_id), vote_label(answers[k - 1])),
        )
    }
}

/// Whether the user wrote a message.
pub open spec fn is_own(m: ActionMessage, current_user: Option<UserId>) -> bool {
    current_user == Some(m.author_id)
}

/// The actions up to the one that shows images.
pub open spec fn first_actions(m: ActionMessage, current_user: Option<UserId>) -> Seq<ActionView> {
    let own = is_own(m, current_user) && m.regular;
    let a = seq![action(MessageActionKind::Reply, "Reply"@)];
    let b = if own && m.has_content {
        a.push(action(MessageActionKind::Edit, "Edit message"@))
    } else {
        a
    };
    let c = if own {
        b.push(action(MessageActionKind::Delete, "Delete message"@))
    } else {
        b
    };
    let d = if m.thread is Some {
        c.push(action(MessageActionKind::OpenThread, "Open thread"@))
    } else {
        c
    };
    if m.has_image {
        d.push(action(MessageActionKind::ViewImage, "View image"@))
    } else {
        d
    }
}

/// What can be done with a message.
pub open spec fn offered(m: ActionMessage, current_user: Option<UserId>) -> Seq<ActionView> {
    let a = first_actions(m, current_user).push(action(MessageActionKind::AddReaction, "Add reaction"@)).push(
        action(MessageActionKind::ShowProfile, "Show profile"@),
    ).push(
        action(
            MessageActionKind::SetPinned(!m.pinned),
            if m.pinned {
                "Unpin message"@
            } else {
                "Pin message"@
            },
        ),
    );
    let b = if m.reactions@.len() > 0 {
        a.push(action(MessageActionKind::ShowReactionUsers, "Show reacted users"@))
    } else {
        a
    };
    let c = with_removals(b, m.reactions@, m.reactions@.len() as int);
    match m.poll {
        Some(poll) => if poll.results_finalized == Some(true) {
            c
        } else if poll.allow_multiselect {
            c.push(action(MessageActionKind::OpenPollVotePicker, "Choose poll votes"@))
        } else {
            with_votes(c, poll.answers@, poll.answers@.len() as int)
        },
        None => c,
    }
}

fn push_action(actions: &mut Vec<MessageActionItem>, kind: MessageActionKind, label: String)
    ensures
        action_views(final(actions)@) == action_views(old(actions)@).push(action(kind, label@)),
{
    let ghost before = actions@;
    actions.push(MessageActionItem { kind, label, enabled: true });
    assert(action_views(actions@) =~= action_views(before).push(action(kind, label@)));
}

fn joined(a: &str, b: &str, c: &str) -> (r: String)
    ensures
        r@ == a@ + b@ + c@,
{
    let mut r = a.to_string();
    r.append(b);
    r.append(c);
    r
}

fn push_removals(actions: &mut Vec<MessageActionItem>, reactions: &Vec<ActionReaction>)
    ensures
        action_views(final(actions)@) == with_removals(
            action_views(old(actions)@),
            reactions@,
            reactions@.len() as int,
        ),
{
    let mut i: usize = 0;
    while i < reactions.len()
        invariant
            i <= reactions@.len(),
            action_views(actions@) == with_removals(action_views(old(actions)@), reactions@, i as int),
        decreases reactions@.len() - i,
    {
        let reaction = &reactions[i];
        if reaction.me {
            push_action(
                actions,
                MessageActionKind::RemoveReaction(i),
                joined("Remove ", reaction.label.as_str(), " reaction"),
            );
        }
        i += 1;
    }
}

fn push_votes(actions: &mut Vec<MessageActionItem>, answers: &Vec<PollAnswerInfo>)
    ensures
        action_views(final(actions)@) == with_votes(action_views(old(actions)@), answers@, answers@.len() as int),
{
    let mut i: usize = 0;
    while i < answers.len()
        invariant
            i <= answers@.len(),
            action_views(actions@) == with_votes(action_views(old(actions)@), answers@, i as int),
        decreases answers@.len() - i,
    {
        let answer = &answers[i];
        let mut label = if answer.me_voted { "Remove poll vote: ".to_string() } else { "Vote poll: ".to_string() };
        label.append(answer.text.as_str());
        push_action(actions, MessageActionKind::VotePollAnswer(answer.answer_id), label);
        i += 1;
    }
}

fn same_user(a: Option<UserId>, b: UserId) -> (r: bool)
    ensures
        r == (a == Some(b)),
{
    match a {
        Some(a) => a == b,
        None => false,
    }
}

/// The menu of a message; of no message it is empty.
pub fn selected_message_action_items(message: Option<&ActionMessage>, current_user: Option<UserId>) -> (r: Vec<
    MessageActionItem,
>)
    ensures
        message is None ==> r@.len() == 0,
        message is Some ==> action_views(r@) == offered(*message->0, current_user),
{
    let mut actions: Vec<MessageActionItem> = Vec::new();
    let message = match message {
        Some(message) => message,
        None => {
            return actions;
        },
    };
    push_action(&mut actions, MessageActionKind::Reply, "Reply".to_string());
    assert(action_views(actions@) =~= seq![action(MessageActionKind::Reply, "Reply"@)]);
    let own = same_user(current_user, message.author_id) && message.regular;
    if own {
        if message.has_content {
            push_action(&mut actions, MessageActionKind::Edit, "Edit message".to_string());
        }
        push_action(&mut actions, MessageActionKind::Delete, "Delete message".to_string());
    }
    if message.thread.is_some() {
        push_action(&mut actions, MessageActionKind::OpenThread, "Open thread".to_string());
    }
    if message.has_image {
        push_action(&mut actions, MessageActionKind::ViewImage, "View image".to_string());
    }
    assert(action_views(actions@) == first_actions(*message, current_user));
    push_action(&mut actions, MessageActionKind::AddReaction, "Add reaction".to_string());
    push_action(&mut actions, MessageActionKind::ShowProfile, "Show profile".to_string());
    let label = if message.pinned { "Unpin message".to_string() } else { "Pin message".to_string() };
    push_action(&mut actions, MessageActionKind::SetPinned(!message.pinned), label);
    if message.reactions.len() > 0 {
        push_action(&mut actions, MessageActionKind::ShowReactionUsers, "Show reacted users".to_string());
    }
    push_removals(&mut actions, &message.reactions);
    if let Some(poll) = &message.poll {
        let closed = match poll.results_finalized {
            Some(closed) => closed,
            None => false,
        };
        if !closed {
            if poll.allow_multiselect {
                push_action(&mut actions, MessageActionKind::OpenPollVotePicker, "Choose poll votes".to_string());
            } else {
                push_votes(&mut actions, &poll.answers);
            }
        }
    }
    actions
}

// ---- What is done ----

/// What follows from doing something with a message.
#[derive(Debug, PartialEq, Eq)]
pub enum MessageActionOutcome {
    /// Nothing was done, and the menu stays as it is.
    Ignored,
    /// The menu closes, and nothing more.
    Closed,
    /// The menu closes, and something is sent.
    Send(AppCommand),
    /// The menu closes, and something opens.
    ReplyComposer,
    EditComposer,
    Thread(ChannelId),
    ImageViewer,
    ReactionPicker,
    Profile { user_id: UserId, guild_id: Option<GuildId> },
    PollVotePicker,
}

/// The answers that the user voted for, but for one.
pub open spec fn other_votes(answers: Seq<PollAnswerInfo>, answer_id: u8) -> Seq<u8>
    decreases answers.len(),
{
    if answers.len() == 0 {
        Seq::empty()
    } else {
        let before = other_votes(answers.drop_last(), answer_id);
        let a = answers.last();
        if a.me_voted && a.answer_id != answer_id {
            before.push(a.answer_id)
        } else {
            before
        }
    }
}

pub open spec fn voted_for(answers: Seq<PollAnswerInfo>, answer_id: u8) -> bool {
    exists|i: int| 0 <= i < answers.len() && (#[trigger] answers[i]).answer_id == answer_id && answers[i].me_voted
}

/// The votes after one for an answer was given or, if it was there, taken back.
pub open spec fn votes_after(poll: PollInfo, answer_id: u8) -> Seq<u8> {
    let kept = if poll.allow_multiselect {
        other_votes(poll.answers@, answer_id)
    } else {
        Seq::empty()
    };
    if voted_for(poll.answers@, answer_id) {
        kept
    } else {
        kept.push(answer_id)
    }
}

fn votes_of(poll: &PollInfo, answer_id: u8) -> (r: Vec<u8>)
    ensures
        r@ == votes_after(*poll, answer_id),
{
    let mut ids: Vec<u8> = Vec::new();
    let mut voted = false;
    let mut i: usize = 0;
    assert(poll.answers@.take(0) =~= Seq::<PollAnswerInfo>::empty());
    while i < poll.answers.len()
        invariant
            i <= poll.answers@.len(),
            ids@ == (if poll.allow_multiselect {
                other_votes(poll.answers@.take(i as int), answer_id)
            } else {
                Seq::empty()
            }),
            voted == voted_for(poll.answers@.take(i as int), answer_id),
        decreases poll.answers@.len() - i,
    {
        let answer = &poll.answers[i];
        let ghost seen = poll.answers@.take(i as int);
        let ghost next = poll.answers@.take(i + 1);
        assert(next.drop_last() =~= seen);
        assert(next[i as int] == *answer);
        proof {
            if voted {
                let k = choose|k: int|
                    0 <= k < seen.len() && (#[trigger] seen[k]).answer_id == answer_id && seen[k].me_voted;
                assert(next[k] == seen[k]);
            }
        }
        assert(voted_for(next, answer_id) ==> voted || answer.answer_id == answer_id && answer.me_voted) by {
            if voted_for(next, answer_id) {
                let k = choose|k: int|
                    0 <= k < next.len() && (#[trigger] next[k]).answer_id == answer_id && next[k].me_voted;
                if k < i {
                    assert(seen[k] == next[k]);
                }
            }
        }
        if poll.allow_multiselect && answer.me_voted && answer.answer_id != answer_id {
            ids.push(answer.answer_id);
        }
        if answer.me_voted && answer.answer_id == answer_id {
            voted = true;
        }
        i += 1;
    }
    assert(poll.answers@.take(i as int) =~= poll.answers@);
    if !voted {
        ids.push(answer_id);
    }
    ids
}

pub open spec fn emojis_of(reactions: Seq<ActionReaction>) -> Seq<ReactionEmoji> {
    reactions.map_values(|r: ActionReaction| r.emoji)
}

/// Whether doing something with a message leads to an outcome.
pub open spec fn is_outcome(
    outcome: MessageActionOutcome,
    kind: MessageActionKind,
    m: ActionMessage,
    current_user: Option<UserId>,
) -> bool {
    match kind {
        MessageActionKind::Reply => outcome is ReplyComposer,
        MessageActionKind::Edit => outcome is EditComposer,
        MessageActionKind::Delete => outcome == (if is_own(m, current_user) {
            MessageActionOutcome::Send(
                AppCommand::DeleteMessage { channel_id: m.channel_id, message_id: m.message_id },
            )
        } else {
            MessageActionOutcome::Closed
        }),
        MessageActionKind::OpenThread => outcome == (match m.thread {
            Some(channel_id) => MessageActionOutcome::Thread(channel_id),
            None => MessageActionOutcome::Ignored,
        }),
        MessageActionKind::ViewImage => outcome is ImageViewer,
        MessageActionKind::DownloadImage => outcome is Closed,
        MessageActionKind::LoadPinnedMessages => outcome == MessageActionOutcome::Send(
            AppCommand::LoadPinnedMessages { channel_id: m.channel_id },
        ),
        MessageActionKind::AddReaction => outcome is ReactionPicker,
        MessageActionKind::RemoveReaction(index) => outcome == (if index < m.reactions@.len() {
            MessageActionOutcome::Send(
                AppCommand::RemoveReaction {
                    channel_id: m.channel_id,
                    message_id: m.message_id,
                    emoji: m.reactions@[index as int].emoji,
                },
            )
        } else {
            MessageActionOutcome::Ignored
        }),
        MessageActionKind::ShowProfile => outcome == (MessageActionOutcome::Profile {
            user_id: m.author_id,
            guild_id: m.guild_id,
        }),
        MessageActionKind::ShowReactionUsers => if m.reactions@.len() == 0 {
            outcome is Closed
        } else {
            match outcome {
                MessageActionOutcome::Send(AppCommand::LoadReactionUsers { channel_id, message_id, reactions }) => {
                    channel_id == m.channel_id && message_id == m.message_id && reactions@ == emojis_of(m.reactions@)
                },
                _ => false,
            }
        },
        MessageActionKind::SetPinned(pinned) => outcome == MessageActionOutcome::Send(
            AppCommand::SetMessagePinned { channel_id: m.channel_id, message_id: m.message_id, pinned },
        ),
        MessageActionKind::OpenPollVotePicker => outcome is PollVotePicker,
        MessageActionKind::VotePollAnswer(answer_id) => match m.poll {
            None => outcome is Ignored,
            Some(poll) => match outcome {
                MessageActionOutcome::Send(AppCommand::VotePoll { channel_id, message_id, answer_ids }) => {
                    channel_id == m.channel_id && message_id == m.message_id && answer_ids@ == votes_after(
                        poll,
                        answer_id,
                    )
                },
                _ => false,
            },
        },
    }
}

fn copy_emojis(reactions: &Vec<ActionReaction>) -> (r: Vec<ReactionEmoji>)
    ensures
        r@ == emojis_of(reactions@),
{
    let mut out: Vec<ReactionEmoji> = Vec::new();
    let mut i: usize = 0;
    while i < reactions.len()
        invariant
            i <= reactions@.len(),
            out@ == emojis_of(reactions@).take(i as int),
        decreases reactions@.len() - i,
    {
        out.push(reactions[i].emoji.copy());
        assert(emojis_of(reactions@).take(i + 1) =~= emojis_of(reactions@).take(i as int).push(
            emojis_of(reactions@)[i as int],
        ));
        i += 1;
    }
    assert(out@ =~= emojis_of(reactions@));
    out
}

/// What doing something with a message leads to.
pub fn message_action_outcome(kind: MessageActionKind, m: &ActionMessage, current_user: Option<UserId>) -> (r:
    MessageActionOutcome)
    ensures
        is_outcome(r, kind, *m, current_user),
{
    match kind {
        MessageActionKind::Reply => MessageActionOutcome::ReplyComposer,
        MessageActionKind::Edit => MessageActionOutcome::EditComposer,
        MessageActionKind::Delete => {
            if same_user(current_user, m.author_id) {
                MessageActionOutcome::Send(
                    AppCommand::DeleteMessage { channel_id: m.channel_id, message_id: m.message_id },
                )
            } else {
                MessageActionOutcome::Closed
            }
        },
        MessageActionKind::OpenThread => match m.thread {
            Some(channel_id) => MessageActionOutcome::Thread(channel_id),
            None => MessageActionOutcome::Ignored,
        },
        MessageActionKind::ViewImage => MessageActionOutcome::ImageViewer,
        MessageActionKind::DownloadImage => MessageActionOutcome::Closed,
        MessageActionKind::LoadPinnedMessages => MessageActionOutcome::Send(
            AppCommand::LoadPinnedMessages { channel_id: m.channel_id },
        ),
        MessageActionKind::AddReaction => MessageActionOutcome::ReactionPicker,
        MessageActionKind::RemoveReaction(index) => {
            if index < m.reactions.len() {
                MessageActionOutcome::Send(
                    AppCommand::RemoveReaction {
                        channel_id: m.channel_id,
                        message_id: m.message_id,
                        emoji: m.reactions[index].emoji.copy(),
                    },
                )
            } else {
                MessageActionOutcome::Ignored
            }
        },
        MessageActionKind::ShowProfile => MessageActionOutcome::Profile {
            user_id: m.author_id,
            guild_id: m.guild_id,
        },
        MessageActionKind::ShowReactionUsers => {
            if m.reactions.len() == 0 {
                MessageActionOutcome::Closed
            } else {
                MessageActionOutcome::Send(
                    AppCommand::LoadReactionUsers {
                        channel_id: m.channel_id,
                        message_id: m.message_id,
                        reactions: copy_emojis(&m.reactions),
                    },
                )
            }
        },
        MessageActionKind::SetPinned(pinned) => MessageActionOutcome::Send(
            AppCommand::SetMessagePinned { channel_id: m.channel_id, message_id: m.message_id, pinned },
        ),
        MessageActionKind::OpenPollVotePicker => MessageActionOutcome::PollVotePicker,
        MessageActionKind::VotePollAnswer(answer_id) => match &m.poll {
            Some(poll) => MessageActionOutcome::Send(
                AppCommand::VotePoll {
                    channel_id: m.channel_id,
                    message_id: m.message_id,
                    answer_ids: votes_of(poll, answer_id),
                },
            ),
            None => MessageActionOutcome::Ignored,
        },
    }
}

// ---- The menu ----

/// The menu, opened for a message in the pane that keys go to.
pub fn open_selected_message_actions(
    menu: Option<MessageActionMenuState>,
    focus: FocusPane,
    has_message: bool,
) -> (r: Option<MessageActionMenuState>)
    ensures
        r == (if focus == FocusPane::Messages && has_message {
            Some(MessageActionMenuState { selected: 0 })
        } else {
            menu
        }),
{
    if matches!(focus, FocusPane::Messages) && has_message {
        Some(MessageActionMenuState { selected: 0 })
    } else {
        menu
    }
}

/// The place in the menu, among some actions.
pub open spec fn chosen(menu: MessageActionMenuState, count: int) -> int {
    least(menu.selected as int, last_of(count))
}

impl MessageActionMenuState {
    pub fn move_message_action_down(&mut self, actions: usize)
        ensures
            final(self).selected == least(old(self).selected + 1, last_of(actions as int)),
    {
        move_index_down(&mut self.selected, actions);
    }

    pub fn move_message_action_up(&mut self)
        ensures
            final(self).selected == minus(old(self).selected as int, 1),
    {
        move_index_up(&mut self.selected);
    }

    pub fn select_message_action_row(&mut self, row: usize, actions: usize) -> (done: bool)
        ensures
            done == (row < actions),
            final(self).selected == (if done {
                row
            } else {
                old(self).selected
            }),
    {
        if row >= actions {
            return false;
        }
        self.selected = row;
        true
    }

    pub fn selected_message_action_index(&self, actions: usize) -> (r: usize)
        ensures
            r == chosen(*self, actions as int),
    {
        clamp_selected_index(self.selected, actions)
    }

    /// Does what is selected in the menu.
    pub fn activate_selected_message_action(&self, m: &ActionMessage, current_user: Option<UserId>) -> (r:
        MessageActionOutcome)
        ensures
            is_outcome(
                r,
                offered(*m, current_user)[chosen(*self, offered(*m, current_user).len() as int)].kind,
                *m,
                current_user,
            ),
    {
        let actions = selected_message_action_items(Some(m), current_user);
        proof {
            a_message_can_be_answered(*m, current_user);
            assert(action_views(actions@).len() == actions@.len());
        }
        let index = self.selected_message_action_index(actions.len());
        assert(action_views(actions@)[index as int] == actions@[index as int]@);
        message_action_outcome(actions[index].kind, m, current_user)
    }
}

proof fn lemma_removals_keep(v: Seq<ActionView>, reactions: Seq<ActionReaction>, k: int)
    requires
        v.len() > 0,
    ensures
        with_removals(v, reactions, k).len() >= v.len(),
        with_removals(v, reactions, k)[0] == v[0],
    decreases k,
{
    if k > 0 {
        lemma_removals_keep(v, reactions, k - 1);
    }
}

proof fn lemma_votes_keep(v: Seq<ActionView>, answers: Seq<PollAnswerInfo>, k: int)
    requires
        v.len() > 0,
    ensures
        with_votes(v, answers, k).len() >= v.len(),
        with_votes(v, answers, k)[0] == v[0],
    decreases k,
{
    if k > 0 {
        lemma_votes_keep(v, answers, k - 1);
    }
}

/// The menu of a message is never empty, and its first action is the answer.
pub proof fn a_message_can_be_answered(m: ActionMessage, current_user: Option<UserId>)
    ensures
        offered(m, current_user).len() > 0,
        offered(m, current_user)[0].kind == MessageActionKind::Reply,
{
    let a = first_actions(m, current_user);
    assert(a.len() > 0 && a[0].kind == MessageActionKind::Reply);
    let b = a.push(action(MessageActionKind::AddReaction, "Add reaction"@)).push(
        action(MessageActionKind::ShowProfile, "Show profile"@),
    ).push(
        action(
            MessageActionKind::SetPinned(!m.pinned),
            if m.pinned {
                "Unpin message"@
            } else {
                "Pin message"@
            },
        ),
    );
    let c = if m.reactions@.len() > 0 {
        b.push(action(MessageActionKind::ShowReactionUsers, "Show reacted users"@))
    } else {
        b
    };
    lemma_removals_keep(c, m.reactions@, m.reactions@.len() as int);
    let d = with_removals(c, m.reactions@, m.reactions@.len() as int);
    if m.poll is Some {
        lemma_votes_keep(d, m.poll->0.answers@, m.poll->0.answers@.len() as int);
    }
}

/// In a poll that takes one vote, a vote for the answer that has it takes it back.
pub proof fn a_second_vote_takes_the_first_back(poll: PollInfo, answer_id: u8)
    requires
        !poll.allow_multiselect,
        voted_for(poll.answers@, answer_id),
    ensures
        votes_after(poll, answer_id).len() == 0,
{
}

} // verus!
