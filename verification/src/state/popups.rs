//! What the popups remember.

use crate::discord::ReactionUsersInfo;
use crate::ids::{ChannelId, GuildId, MessageId, UserId};
use crate::state::model::PollVotePickerItem;
use crate::state::scroll::{least, min_of, minus};
use vstd::prelude::*;

verus! {

#[derive(Clone, Copy, Debug, PartialEq, Eq, Structural)]
pub struct MessageActionMenuState {
    pub selected: usize,
}

/// The popup with a profile. `mutual_cursor` is the place in the list of shared guilds, once the user
/// moved into it.
#[derive(Debug, PartialEq, Eq)]
pub struct UserProfilePopupState {
    pub user_id: UserId,
    pub guild_id: Option<GuildId>,
    pub load_error: Option<String>,
    pub mutual_cursor: Option<usize>,
}

#[derive(Clone, Copy, Debug, PartialEq, Eq, Structural)]
pub struct MemberActionMenuState {
    pub user_id: UserId,
    pub guild_id: Option<GuildId>,
    pub selected: usize,
}

#[derive(Clone, Copy, Debug, PartialEq, Eq, Structural)]
pub enum ChannelActionMenuState {
    Actions { channel_id: ChannelId, selected: usize },
    Threads { channel_id: ChannelId, selected: usize },
}

#[derive(Clone, Copy, Debug, PartialEq, Eq, Structural)]
pub struct EmojiReactionPickerState {
    pub selected: usize,
    pub guild_id: Option<GuildId>,
    pub channel_id: ChannelId,
    pub message_id: MessageId,
}

#[derive(Debug, PartialEq, Eq)]
pub struct PollVotePickerState {
    pub selected: usize,
    pub channel_id: ChannelId,
    pub message_id: MessageId,
    pub answers: Vec<PollVotePickerItem>,
}

impl PollVotePickerState {
    pub fn answers(&self) -> (r: &[PollVotePickerItem])
        ensures
            r@ == self.answers@,
    {
        self.answers.as_slice()
    }
}

/// The popup with those who reacted.
#[derive(Debug, PartialEq, Eq)]
pub struct ReactionUsersPopupState {
    pub channel_id: ChannelId,
    pub message_id: MessageId,
    pub reactions: Vec<ReactionUsersInfo>,
    pub scroll: usize,
    pub view_height: usize,
}

/// The lines of some reactions: a heading each, and a line for each user or one that says there is none.
pub open spec fn reaction_lines(reactions: Seq<ReactionUsersInfo>) -> int
    decreases reactions.len(),
{
    if reactions.len() == 0 {
        0
    } else {
        reaction_lines(reactions.drop_last()) + 1 + (if reactions.last().users@.len() >= 1 {
            reactions.last().users@.len() as int
        } else {
            1
        })
    }
}

proof fn lemma_reaction_lines(reactions: Seq<ReactionUsersInfo>, k: int)
    requires
        0 <= k <= reactions.len(),
    ensures
        0 <= reaction_lines(reactions.take(k)) <= reaction_lines(reactions),
    decreases reactions.len() - k, k,
{
    if k < reactions.len() {
        lemma_reaction_lines(reactions, k + 1);
        assert(reactions.take(k + 1).drop_last() =~= reactions.take(k));
        lemma_reaction_lines_nonneg(reactions.take(k));
    } else {
        assert(reactions.take(k) =~= reactions);
        lemma_reaction_lines_nonneg(reactions);
    }
}

proof fn lemma_reaction_lines_nonneg(reactions: Seq<ReactionUsersInfo>)
    ensures
        0 <= reaction_lines(reactions),
    decreases reactions.len(),
{
    if reactions.len() > 0 {
        lemma_reaction_lines_nonneg(reactions.drop_last());
    }
}

impl ReactionUsersPopupState {
    /// All lines can be counted.
    pub open spec fn wf(self) -> bool {
        reaction_lines(self.reactions@) <= usize::MAX
    }

    pub open spec fn lines(self) -> int {
        if self.reactions@.len() == 0 {
            1
        } else {
            reaction_lines(self.reactions@)
        }
    }

    pub open spec fn last_scroll(self) -> int {
        minus(self.lines(), self.view_height as int)
    }

    pub fn reactions(&self) -> (r: &[ReactionUsersInfo])
        ensures
            r@ == self.reactions@,
    {
        self.reactions.as_slice()
    }

    pub fn scroll(&self) -> (r: usize)
        ensures
            r == self.scroll,
    {
        self.scroll
    }

    /// How many lines the popup has.
    pub fn data_line_count(&self) -> (r: usize)
        requires
            self.wf(),
        ensures
            r == self.lines(),
    {
        if self.reactions.len() == 0 {
            return 1;
        }
        let mut sum: usize = 0;
        let mut i: usize = 0;
        assert(self.reactions@.take(0) =~= Seq::<ReactionUsersInfo>::empty());
        while i < self.reactions.len()
            invariant
                self.wf(),
                i <= self.reactions@.len(),
                sum == reaction_lines(self.reactions@.take(i as int)),
            decreases self.reactions@.len() - i,
        {
            proof {
                lemma_reaction_lines(self.reactions@, i + 1);
                lemma_reaction_lines_nonneg(self.reactions@.take(i as int));
                assert(self.reactions@.take(i + 1).drop_last() =~= self.reactions@.take(i as int));
            }
            let users = self.reactions[i].users.len();
            sum = sum + 1 + (if users >= 1 { users } else { 1 });
            i += 1;
        }
        assert(self.reactions@.take(i as int) =~= self.reactions@);
        sum
    }

    fn max_scroll(&self) -> (r: usize)
        requires
            self.wf(),
        ensures
            r == self.last_scroll(),
    {
        let lines = self.data_line_count();
        let visible = min_of(self.view_height, lines);
        lines.saturating_sub(visible)
    }

    /// Keeps the last line at the bottom at the most.
    pub fn clamp_scroll(&mut self)
        requires
            old(self).wf(),
        ensures
            *final(self) == (ReactionUsersPopupState {
                scroll: least(old(self).scroll as int, old(self).last_scroll()) as usize,
                ..*old(self)
            }),
    {
        self.scroll = min_of(self.scroll, self.max_scroll());
    }

    /// Scrolls down by some lines, but not beyond the end.
    pub fn scroll_down(&mut self, lines: usize)
        requires
            old(self).wf(),
        ensures
            *final(self) == (ReactionUsersPopupState {
                scroll: least(old(self).scroll + lines, old(self).last_scroll()) as usize,
                ..*old(self)
            }),
    {
        self.scroll = self.scroll.saturating_add(lines);
        self.clamp_scroll();
    }

    pub fn scroll_up(&mut self, lines: usize)
        ensures
            *final(self) == (ReactionUsersPopupState {
                scroll: minus(old(self).scroll as int, lines as int) as usize,
                ..*old(self)
            }),
    {
        self.scroll = self.scroll.saturating_sub(lines);
    }

    pub fn set_view_height(&mut self, height: usize)
        requires
            old(self).wf(),
        ensures
            *final(self) == (ReactionUsersPopupState {
                view_height: height,
                scroll: least(old(self).scroll as int, minus(old(self).lines(), height as int)) as usize,
                ..*old(self)
            }),
    {
        self.view_height = height;
        self.clamp_scroll();
    }
}

} // verus!
