//! What the dashboard knows of the service: channels, messages, and the events and commands that are
//! exchanged with it.

use crate::ids::{ChannelId, GuildId, MessageId, UserId};
use crate::message::reactions::ReactionEmoji;
use vstd::prelude::*;

verus! {

#[derive(Clone, Copy, Debug, PartialEq, Eq, Structural)]
pub enum ForumPostArchiveState {
    Active,
    Archived,
}

/// A channel as it arrives with an event.
#[derive(Debug, PartialEq, Eq)]
pub struct ChannelInfo {
    pub channel_id: ChannelId,
    pub guild_id: Option<GuildId>,
    pub parent_id: Option<ChannelId>,
    pub name: String,
}

/// A message as it arrives with an event.
#[derive(Debug, PartialEq, Eq)]
pub struct MessageInfo {
    pub guild_id: Option<GuildId>,
    pub channel_id: ChannelId,
    pub message_id: MessageId,
    pub author_id: UserId,
    pub nonce: Option<u64>,
}

#[derive(Clone, Copy, Debug, PartialEq, Eq, Structural)]
pub enum VoiceScope {
    Guild(GuildId),
    Private,
}

#[derive(Clone, Copy, Debug, PartialEq, Eq, Structural)]
pub enum VoiceConnectionStatus {
    Connecting,
    Connected,
    Disconnected,
    Failed,
}

#[derive(Clone, Copy, Debug, PartialEq, Eq, Structural)]
pub enum VoiceSoundKind {
    Join,
    Leave,
    StreamStart,
    StreamViewerJoin,
    StreamViewerLeave,
}

/// Which part of the history of a channel was to be loaded.
#[derive(Clone, Copy, Debug, PartialEq, Eq, Structural)]
pub enum MessageHistoryLoadTarget {
    Latest,
    Older,
    Around,
}

/// Why newer messages are loaded.
#[derive(Clone, Copy, Debug, PartialEq, Eq, Structural)]
pub enum MessageHistoryAfterMode {
    GapFill,
    CatchUp,
}

/// Some rows of a member list: the first and the last.
#[derive(Clone, Copy, Debug, PartialEq, Eq, Structural)]
pub struct MemberRange {
    pub first: u32,
    pub last: u32,
}

/// Someone who reacted to a message.
#[derive(Debug, PartialEq, Eq)]
pub struct ReactionUserInfo {
    pub user_id: UserId,
    pub display_name: String,
}

/// Those who reacted to a message with one emoji.
#[derive(Debug, PartialEq, Eq)]
pub struct ReactionUsersInfo {
    pub emoji: ReactionEmoji,
    pub users: Vec<ReactionUserInfo>,
}

/// Something that happened.
#[allow(inconsistent_fields)]
#[derive(Debug, PartialEq, Eq)]
pub enum AppEvent {
    Ready { user: String, user_id: Option<UserId> },
    GatewayError { message: String },
    GatewayResumed,
    GatewayReidentified,
    GatewayClosed,
    SignedOut,
    CaptchaRequired { action: String },
    MessageSendRateLimited { channel_id: ChannelId, retry_after_millis: u64 },
    MessageSendCooldownStarted { channel_id: ChannelId, duration_millis: u64 },
    MessageSendFailed { channel_id: ChannelId, nonce: u64 },
    MediaPlaybackWindowReady { request_id: u64 },
    StreamPlaybackWindowReady { scope: VoiceScope, channel_id: ChannelId, user_id: UserId },
    StreamPlaybackEnded { scope: VoiceScope, channel_id: ChannelId, user_id: UserId, reconnecting: bool },
    StreamCaptureTargetsLoaded {
        request_id: u64,
        scope: VoiceScope,
        channel_id: ChannelId,
        targets: Vec<String>,
        error: Option<String>,
    },
    VoiceAudioSourcesLoaded {
        request_id: u64,
        inputs: Vec<String>,
        outputs: Vec<String>,
        error: Option<String>,
    },
    VoiceAudioSourcesApplyFailed {
        requested_input_source: Option<String>,
        requested_output_source: Option<String>,
        active_input_source: Option<String>,
        active_output_source: Option<String>,
        message: String,
    },
    StreamBroadcastStarted { scope: VoiceScope, channel_id: ChannelId },
    StreamBroadcastAudioUnavailable { message: String },
    StreamBroadcastStartFailed { scope: VoiceScope, channel_id: ChannelId },
    StreamBroadcastEnded { scope: VoiceScope, channel_id: ChannelId },
    CurrentUserCapabilities { premium_tier: u8 },
    CurrentUserVerification,
    ApplicationCommandsLoaded { guild_id: Option<GuildId>, commands: Vec<String> },
    ApplicationCommandIndexUpdated { guild_id: GuildId },
    InteractionFailed { reason_code: u64, correlated: bool },
    InteractionSucceeded,
    ApplicationCommandAutocompleteResponse { nonce: Option<String>, choices: Vec<String> },
    /// `source` numbers what the download was started from.
    AttachmentDownloadStarted { id: u64, filename: String, total_bytes: Option<u64>, source: u64 },
    AttachmentDownloadProgress { id: u64, downloaded_bytes: u64, total_bytes: Option<u64> },
    AttachmentDownloadCompleted { id: u64, path: String },
    AttachmentDownloadFailed { id: u64, filename: String, message: String },
    AttachmentPreviewLoaded { url: String, bytes: Vec<u8> },
    AttachmentPreviewLoadFailed { url: String, message: String },
    UpdateAvailable { latest_version: String },
    ReactionUsersLoaded {
        channel_id: ChannelId,
        message_id: MessageId,
        emoji: ReactionEmoji,
        users: Vec<ReactionUserInfo>,
        next_after: Option<UserId>,
        after: Option<UserId>,
    },
    ReactionUsersLoadFailed { channel_id: ChannelId, message_id: MessageId, emoji: ReactionEmoji },
    MessageHistoryLoaded { channel_id: ChannelId, before: Option<MessageId>, messages: Vec<MessageInfo> },
    MessageHistoryLoadFailed { channel_id: ChannelId, target: MessageHistoryLoadTarget, message: String },
    MessageHistoryAfterLoaded { channel_id: ChannelId, messages: Vec<MessageInfo> },
    MessageHistoryAroundLoaded { channel_id: ChannelId, message_id: MessageId, messages: Vec<MessageInfo> },
    MessageHistoryRefreshed { channel_id: ChannelId, messages: Vec<MessageInfo> },
    MessageSearchLoaded { messages: Vec<MessageInfo> },
    MessageSearchLoadFailed { message: String },
    InboxMentionsLoaded { request_id: u64, before: Option<MessageId>, messages: Vec<MessageInfo>, has_more: bool },
    InboxMentionsLoadFailed { request_id: u64, before: Option<MessageId> },
    InboxRecentMentionDeleted { message_id: MessageId },
    InboxRecentMentionDeleteFailed { message_id: MessageId, message: String },
    InboxChannelMessagesLoaded { request_id: u64, channel_id: ChannelId, messages: Vec<MessageInfo> },
    InboxChannelMessagesLoadFailed { request_id: u64, channel_id: ChannelId },
    PinnedMessagesLoaded { channel_id: ChannelId, messages: Vec<MessageInfo> },
    PinnedMessagesLoadFailed { channel_id: ChannelId, message: String },
    ForumPostsLoaded {
        channel_id: ChannelId,
        archive_state: ForumPostArchiveState,
        offset: usize,
        next_offset: usize,
        posts: Vec<ChannelInfo>,
        first_messages: Vec<MessageInfo>,
        has_more: bool,
    },
    ForumPostsLoadFailed {
        channel_id: ChannelId,
        archive_state: ForumPostArchiveState,
        offset: usize,
        message: String,
    },
    ThreadPreviewLoaded { channel_id: ChannelId, message: MessageInfo },
    ThreadPreviewLoadFailed { channel_id: ChannelId, message_id: MessageId },
    UserProfileLoaded { guild_id: Option<GuildId>, user_id: UserId },
    UserProfileLoadFailed { user_id: UserId, guild_id: Option<GuildId>, message: String },
    UserProfileUpdateFailed { user_id: UserId, guild_id: Option<GuildId>, message: String },
    VoiceConnectionStatusChanged {
        scope: VoiceScope,
        channel_id: Option<ChannelId>,
        status: VoiceConnectionStatus,
        message: Option<String>,
    },
    VoiceSound { kind: VoiceSoundKind },
    ChannelUpsert { channel: ChannelInfo },
    MessageCreate { message: MessageInfo },
    MessageUpdateDispatch { channel_id: ChannelId, guild_id: Option<GuildId>, mentions: Option<Vec<UserId>> },
    GuildEmojisUpdate { guild_id: GuildId },
    RichPresenceDetected { activities: Vec<String> },
}

/// Something to be done.
#[allow(inconsistent_fields)]
#[derive(Debug, PartialEq, Eq)]
pub enum AppCommand {
    LoadMessageHistory { channel_id: ChannelId, before: Option<MessageId> },
    LoadMessageHistoryAfter { channel_id: ChannelId, after: MessageId, mode: MessageHistoryAfterMode },
    RefreshMessageHistory { channel_id: ChannelId },
    LoadForumPostData { guild_id: GuildId, channel_id: ChannelId, thread_ids: Vec<ChannelId> },
    LoadArchivedThreads { guild_id: GuildId, channel_id: ChannelId, before: Option<String> },
    LoadPinnedMessages { channel_id: ChannelId },
    LoadThreadPreview { channel_id: ChannelId, message_id: MessageId },
    LoadGuildMembersByIds { guild_id: GuildId, user_ids: Vec<UserId> },
    SearchGuildMembers { guild_id: GuildId, query: String, limit: u16 },
    SetSelectedGuild { guild_id: Option<GuildId> },
    SetSelectedMessageChannel { channel_id: Option<ChannelId> },
    SubscribeGuildChannel { guild_id: GuildId, channel_id: ChannelId },
    SubscribeDirectMessage { channel_id: ChannelId },
    UpdateMemberListSubscription {
        guild_id: GuildId,
        channel_id: ChannelId,
        thread_id: Option<ChannelId>,
        ranges: Vec<MemberRange>,
    },
    LoadAttachmentPreview { url: String },
    LoadProfileAvatarPreview { key: String },
    DownloadAttachment { url: String, filename: String },
    AddReaction { channel_id: ChannelId, message_id: MessageId, emoji: ReactionEmoji },
    RemoveReaction { channel_id: ChannelId, message_id: MessageId, emoji: ReactionEmoji },
    LoadReactionUsers { channel_id: ChannelId, message_id: MessageId, reactions: Vec<ReactionEmoji> },
    SetMessagePinned { channel_id: ChannelId, message_id: MessageId, pinned: bool },
    VotePoll { channel_id: ChannelId, message_id: MessageId, answer_ids: Vec<u8> },
    DeleteMessage { channel_id: ChannelId, message_id: MessageId },
    SendMessage { channel_id: ChannelId, content: String, reply_to: Option<MessageId> },
}

} // verus!
