//! The commands that follow from what the dashboard shows.

use crate::discord::{AppCommand, MemberRange};
use crate::ids::{ChannelId, GuildId, MessageId};
use vstd::prelude::*;

verus! {

/// The guild and the channel that were last reported as active.
pub struct DashboardCommandScheduler {
    pub last_reported_active_guild: Option<GuildId>,
    pub last_reported_message_channel: Option<ChannelId>,
}

impl Default for DashboardCommandScheduler {
    fn default() -> (r: DashboardCommandScheduler)
        ensures
            r.last_reported_active_guild is None,
            r.last_reported_message_channel is None,
    {
        DashboardCommandScheduler { last_reported_active_guild: None, last_reported_message_channel: None }
    }
}

/// Members of a guild that are searched for by name.
#[derive(Debug, PartialEq, Eq)]
pub struct MemberSearch {
    pub guild_id: GuildId,
    pub query: String,
    pub limit: u16,
}

/// Posts of a forum that are to be loaded.
#[derive(Debug, PartialEq, Eq)]
pub struct ForumPostDataRequestTarget {
    pub guild_id: GuildId,
    pub channel_id: ChannelId,
    pub thread_ids: Vec<ChannelId>,
}

/// A page of archived threads that is to be loaded.
#[derive(Debug, PartialEq, Eq)]
pub struct ArchivedThreadRequestTarget {
    pub guild_id: GuildId,
    pub channel_id: ChannelId,
    pub before: Option<String>,
}

/// The newest message of a thread.
#[derive(Clone, Copy, Debug, PartialEq, Eq, Structural)]
pub struct ThreadPreviewTarget {
    pub channel_id: ChannelId,
    pub message_id: MessageId,
}

/// The rows of a member list that are shown.
#[derive(Debug, PartialEq, Eq)]
pub struct MemberListSubscription {
    pub guild_id: GuildId,
    pub channel_id: ChannelId,
    pub thread_id: Option<ChannelId>,
    pub ranges: Vec<MemberRange>,
}

/// What is due to be asked for.
pub struct DueRequests {
    pub autocomplete_search: Option<MemberSearch>,
    pub popup_search: Option<MemberSearch>,
    pub message_history: Option<ChannelId>,
    pub message_history_is_stale: bool,
    pub pinned_messages: Option<ChannelId>,
    pub archived_threads: Option<ArchivedThreadRequestTarget>,
    pub forum_post_data: Option<ForumPostDataRequestTarget>,
    pub thread_previews: Vec<ThreadPreviewTarget>,
    pub member_list: Option<MemberListSubscription>,
}

pub open spec fn search_command(search: Option<MemberSearch>) -> Seq<AppCommand> {
    match search {
        Some(s) => seq![AppCommand::SearchGuildMembers { guild_id: s.guild_id, query: s.query, limit: s.limit }],
        None => Seq::empty(),
    }
}

/// A stale history is refreshed, one that was never there is loaded.
pub open spec fn history_command(channel: Option<ChannelId>, stale: bool) -> Seq<AppCommand> {
    match channel {
        Some(channel_id) => if stale {
            seq![AppCommand::RefreshMessageHistory { channel_id }]
        } else {
            seq![AppCommand::LoadMessageHistory { channel_id, before: None }]
        },
        None => Seq::empty(),
    }
}

pub open spec fn pinned_command(channel: Option<ChannelId>) -> Seq<AppCommand> {
    match channel {
        Some(channel_id) => seq![AppCommand::LoadPinnedMessages { channel_id }],
        None => Seq::empty(),
    }
}

pub open spec fn archived_command(target: Option<ArchivedThreadRequestTarget>) -> Seq<AppCommand> {
    match target {
        Some(t) => seq![
            AppCommand::LoadArchivedThreads { guild_id: t.guild_id, channel_id: t.channel_id, before: t.before },
        ],
        None => Seq::empty(),
    }
}

pub open spec fn forum_command(target: Option<ForumPostDataRequestTarget>) -> Seq<AppCommand> {
    match target {
        Some(t) => seq![
            AppCommand::LoadForumPostData { guild_id: t.guild_id, channel_id: t.channel_id, thread_ids: t.thread_ids },
        ],
        None => Seq::empty(),
    }
}

pub open spec fn preview_commands(targets: Seq<ThreadPreviewTarget>) -> Seq<AppCommand> {
    targets.map_values(
        |t: ThreadPreviewTarget| AppCommand::LoadThreadPreview { channel_id: t.channel_id, message_id: t.message_id },
    )
}

pub open spec fn member_list_command(target: Option<MemberListSubscription>) -> Seq<AppCommand> {
    match target {
        Some(t) => seq![
            AppCommand::UpdateMemberListSubscription {
                guild_id: t.guild_id,
                channel_id: t.channel_id,
                thread_id: t.thread_id,
                ranges: t.ranges,
            },
        ],
        None => Seq::empty(),
    }
}

/// The commands for what is due, in order, behind those that come first.
pub open spec fn with_due_commands(first: Seq<AppCommand>, due: DueRequests) -> Seq<AppCommand> {
    first + search_command(due.autocomplete_search) + search_command(due.popup_search) + history_command(
        due.message_history,
        due.message_history_is_stale,
    ) + pinned_command(due.pinned_messages) + archived_command(due.archived_threads) + forum_command(due.forum_post_data)
        + preview_commands(due.thread_previews@) + member_list_command(due.member_list)
}

/// The commands that report what is active, if that changed.
pub open spec fn selection_commands(
    last_guild: Option<GuildId>,
    last_channel: Option<ChannelId>,
    guild: Option<GuildId>,
    channel: Option<ChannelId>,
) -> Seq<AppCommand> {
    (if guild != last_guild { seq![AppCommand::SetSelectedGuild { guild_id: guild }] } else { Seq::empty() }) + (if channel
        != last_channel {
        seq![AppCommand::SetSelectedMessageChannel { channel_id: channel }]
    } else {
        Seq::empty()
    })
}

pub fn same_id(a: Option<u64>, b: Option<u64>) -> (r: bool)
    ensures
        r == (a == b),
{
    match (a, b) {
        (Some(a), Some(b)) => a == b,
        (None, None) => true,
        _ => false,
    }
}

impl DashboardCommandScheduler {
    /// Reports the active guild and channel, where they changed.
    pub fn report_active_selection(&mut self, guild: Option<GuildId>, channel: Option<ChannelId>) -> (r: Vec<AppCommand>)
        ensures
            r@ == selection_commands(
                old(self).last_reported_active_guild,
                old(self).last_reported_message_channel,
                guild,
                channel,
            ),
            final(self).last_reported_active_guild == guild,
            final(self).last_reported_message_channel == channel,
    {
        let mut out: Vec<AppCommand> = Vec::new();
        if !same_id(guild, self.last_reported_active_guild) {
            self.last_reported_active_guild = guild;
            out.push(AppCommand::SetSelectedGuild { guild_id: guild });
        }
        if !same_id(channel, self.last_reported_message_channel) {
            self.last_reported_message_channel = channel;
            out.push(AppCommand::SetSelectedMessageChannel { channel_id: channel });
        }
        assert(out@ =~= selection_commands(
            old(self).last_reported_active_guild,
            old(self).last_reported_message_channel,
            guild,
            channel,
        ));
        out
    }

    /// Everything that is to be sent now: what is active, then what is due.
    pub fn schedule_state_driven_commands(
        &mut self,
        guild: Option<GuildId>,
        channel: Option<ChannelId>,
        due: DueRequests,
    ) -> (r: Vec<AppCommand>)
        ensures
            r@ == with_due_commands(
                selection_commands(
                    old(self).last_reported_active_guild,
                    old(self).last_reported_message_channel,
                    guild,
                    channel,
                ),
                due,
            ),
            final(self).last_reported_active_guild == guild,
            final(self).last_reported_message_channel == channel,
    {
        let mut out = self.report_active_selection(guild, channel);
        push_search(&mut out, due.autocomplete_search);
        push_search(&mut out, due.popup_search);
        push_history(&mut out, due.message_history, due.message_history_is_stale);
        push_pinned(&mut out, due.pinned_messages);
        push_archived(&mut out, due.archived_threads);
        push_forum(&mut out, due.forum_post_data);
        push_previews(&mut out, &due.thread_previews);
        push_member_list(&mut out, due.member_list);
        out
    }
}

fn push_search(out: &mut Vec<AppCommand>, search: Option<MemberSearch>)
    ensures
        final(out)@ == old(out)@ + search_command(search),
{
    if let Some(s) = search {
        out.push(AppCommand::SearchGuildMembers { guild_id: s.guild_id, query: s.query, limit: s.limit });
    }
    assert(out@ =~= old(out)@ + search_command(search));
}

fn push_history(out: &mut Vec<AppCommand>, channel: Option<ChannelId>, stale: bool)
    ensures
        final(out)@ == old(out)@ + history_command(channel, stale),
{
    if let Some(channel_id) = channel {
        if stale {
            out.push(AppCommand::RefreshMessageHistory { channel_id });
        } else {
            out.push(AppCommand::LoadMessageHistory { channel_id, before: None });
        }
    }
    assert(out@ =~= old(out)@ + history_command(channel, stale));
}

fn push_pinned(out: &mut Vec<AppCommand>, channel: Option<ChannelId>)
    ensures
        final(out)@ == old(out)@ + pinned_command(channel),
{
    if let Some(channel_id) = channel {
        out.push(AppCommand::LoadPinnedMessages { channel_id });
    }
    assert(out@ =~= old(out)@ + pinned_command(channel));
}

fn push_archived(out: &mut Vec<AppCommand>, target: Option<ArchivedThreadRequestTarget>)
    ensures
        final(out)@ == old(out)@ + archived_command(target),
{
    if let Some(t) = target {
        out.push(AppCommand::LoadArchivedThreads { guild_id: t.guild_id, channel_id: t.channel_id, before: t.before });
    }
    assert(out@ =~= old(out)@ + archived_command(target));
}

fn push_forum(out: &mut Vec<AppCommand>, target: Option<ForumPostDataRequestTarget>)
    ensures
        final(out)@ == old(out)@ + forum_command(target),
{
    if let Some(t) = target {
        out.push(
            AppCommand::LoadForumPostData { guild_id: t.guild_id, channel_id: t.channel_id, thread_ids: t.thread_ids },
        );
    }
    assert(out@ =~= old(out)@ + forum_command(target));
}

fn push_previews(out: &mut Vec<AppCommand>, targets: &Vec<ThreadPreviewTarget>)
    ensures
        final(out)@ == old(out)@ + preview_commands(targets@),
{
    let ghost previews = preview_commands(targets@);
    let mut i: usize = 0;
    assert(out@ =~= old(out)@ + previews.take(0));
    while i < targets.len()
        invariant
            i <= targets@.len(),
            previews == preview_commands(targets@),
            out@ == old(out)@ + previews.take(i as int),
        decreases targets@.len() - i,
    {
        let t = targets[i];
        out.push(AppCommand::LoadThreadPreview { channel_id: t.channel_id, message_id: t.message_id });
        assert(previews.take(i + 1) =~= previews.take(i as int).push(previews[i as int]));
        assert(out@ =~= old(out)@ + previews.take(i + 1));
        i += 1;
    }
    assert(previews.take(i as int) =~= previews);
}

fn push_member_list(out: &mut Vec<AppCommand>, target: Option<MemberListSubscription>)
    ensures
        final(out)@ == old(out)@ + member_list_command(target),
{
    if let Some(t) = target {
        out.push(
            AppCommand::UpdateMemberListSubscription {
                guild_id: t.guild_id,
                channel_id: t.channel_id,
                thread_id: t.thread_id,
                ranges: t.ranges,
            },
        );
    }
    assert(out@ =~= old(out)@ + member_list_command(target));
}

/// What must be taken back where a command could not be sent.
#[derive(Debug, PartialEq, Eq)]
pub enum FailedRequest {
    MessageHistory { channel_id: ChannelId },
    PinnedMessages { channel_id: ChannelId },
    ArchivedThreads { channel_id: ChannelId, before: Option<String> },
    ForumPostData { channel_id: ChannelId, thread_ids: Vec<ChannelId> },
    ThreadPreview { channel_id: ChannelId, message_id: MessageId },
}

pub open spec fn taken_back(command: AppCommand) -> Option<FailedRequest> {
    match command {
        AppCommand::LoadMessageHistory { channel_id, before: _ } => Some(FailedRequest::MessageHistory { channel_id }),
        AppCommand::RefreshMessageHistory { channel_id } => Some(FailedRequest::MessageHistory { channel_id }),
        AppCommand::LoadPinnedMessages { channel_id } => Some(FailedRequest::PinnedMessages { channel_id }),
        AppCommand::LoadArchivedThreads { guild_id: _, channel_id, before } => Some(
            FailedRequest::ArchivedThreads { channel_id, before },
        ),
        AppCommand::LoadForumPostData { guild_id: _, channel_id, thread_ids } => Some(
            FailedRequest::ForumPostData { channel_id, thread_ids },
        ),
        AppCommand::LoadThreadPreview { channel_id, message_id } => Some(
            FailedRequest::ThreadPreview { channel_id, message_id },
        ),
        _ => None,
    }
}

/// The request that is taken back where a command could not be sent.
pub fn failed_request(command: AppCommand) -> (r: Option<FailedRequest>)
    ensures
        r == taken_back(command),
{
    match command {
        AppCommand::LoadMessageHistory { channel_id, before: _ } => Some(FailedRequest::MessageHistory { channel_id }),
        AppCommand::RefreshMessageHistory { channel_id } => Some(FailedRequest::MessageHistory { channel_id }),
        AppCommand::LoadPinnedMessages { channel_id } => Some(FailedRequest::PinnedMessages { channel_id }),
        AppCommand::LoadArchivedThreads { guild_id: _, channel_id, before } => Some(
            FailedRequest::ArchivedThreads { channel_id, before },
        ),
        AppCommand::LoadForumPostData { guild_id: _, channel_id, thread_ids } => Some(
            FailedRequest::ForumPostData { channel_id, thread_ids },
        ),
        AppCommand::LoadThreadPreview { channel_id, message_id } => Some(
            FailedRequest::ThreadPreview { channel_id, message_id },
        ),
        _ => None,
    }
}

/// The thread whose members are shown, where it is a thread of the guild that is shown.
pub fn member_list_thread(guild_id: GuildId, thread_guild: Option<GuildId>, thread: ChannelId) -> (r: Option<ChannelId>)
    ensures
        r == (if thread_guild == Some(guild_id) { Some(thread) } else { None }),
{
    match thread_guild {
        Some(other) => if other == guild_id {
            Some(thread)
        } else {
            None
        },
        None => None,
    }
}

/// What was reported is not reported again until it changes.
pub proof fn selections_are_reported_once(guild: Option<GuildId>, channel: Option<ChannelId>)
    ensures
        selection_commands(guild, channel, guild, channel).len() == 0,
{
}

} // verus!
