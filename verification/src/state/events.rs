//! What the dashboard makes of an event, apart from the message pane.
//!
//! Some of it changes what is held here. The rest is a list of things to be done elsewhere, in order.

use crate::discord::{
    AppEvent, ChannelInfo, ForumPostArchiveState, MessageHistoryLoadTarget, MessageInfo, ReactionUserInfo,
    VoiceConnectionStatus, VoiceScope,
};
use crate::ids::{ChannelId, GuildId, MessageId, UserId};
use crate::message::reactions::ReactionEmoji;
use crate::text::{opt_text, str_eq};
use vstd::prelude::*;
use vstd::string::*;

verus! {

// ---- What the user is told ----

/// Something that the user is told.
#[derive(Debug, PartialEq, Eq)]
pub enum Notice {
    Text(String),
    CaptchaRequired(String),
    RateLimited,
    NoStreamTargets,
    InteractionFailed(u64),
    Downloaded(String),
    DownloadFailed { filename: String, message: String },
    ProfileReloadFailed(String),
    VoiceStatus(VoiceConnectionStatus),
}

/// Why an application command failed.
pub open spec fn failure_reason(code: u64) -> Seq<char> {
    if code == 1 {
        "Discord returned an unknown interaction error"@
    } else if code == 2 {
        "the command timed out"@
    } else if code == 3 {
        "the application is unknown"@
    } else if code == 16 {
        "the activity is not released on this platform"@
    } else if code == 17 {
        "the activity failed to launch"@
    } else if code == 18 {
        "the user does not have access to the activity"@
    } else if code == 19 {
        "the activity cannot launch from this location"@
    } else if code == 20 {
        "the activity is not supported in this region"@
    } else {
        "Discord returned an interaction error"@
    }
}

pub fn interaction_failure_reason(reason_code: u64) -> (r: &'static str)
    ensures
        r@ == failure_reason(reason_code),
{
    match reason_code {
        1 => "Discord returned an unknown interaction error",
        2 => "the command timed out",
        3 => "the application is unknown",
        16 => "the activity is not released on this platform",
        17 => "the activity failed to launch",
        18 => "the user does not have access to the activity",
        19 => "the activity cannot launch from this location",
        20 => "the activity is not supported in this region",
        _ => "Discord returned an interaction error",
    }
}

impl Notice {
    pub open spec fn words(self) -> Seq<char> {
        match self {
            Notice::Text(text) => text@,
            Notice::CaptchaRequired(action) => "Discord needs a CAPTCHA to "@ + action@
                + ". Finish it in the official Discord app, then try again."@,
            Notice::RateLimited => "Discord rate limited this channel. Wait for the composer timer."@,
            Notice::NoStreamTargets => "No displays or shareable windows were found."@,
            Notice::InteractionFailed(code) => "Discord could not complete the application command: "@
                + failure_reason(code) + "."@,
            Notice::Downloaded(path) => "Downloaded to "@ + path@,
            Notice::DownloadFailed { filename, message } => "Download "@ + filename@ + " failed: "@ + message@,
            Notice::ProfileReloadFailed(message) => "Save succeeded, but profile reload failed: "@ + message@,
            Notice::VoiceStatus(status) => match status {
                VoiceConnectionStatus::Connecting => "Voice join requested"@,
                VoiceConnectionStatus::Connected => "Voice connected"@,
                VoiceConnectionStatus::Disconnected => "Voice leave requested"@,
                VoiceConnectionStatus::Failed => "Voice request failed"@,
            },
        }
    }

    /// The text of a notice.
    pub fn text(&self) -> (r: String)
        ensures
            r@ == self.words(),
    {
        match self {
            Notice::Text(text) => text.clone(),
            Notice::CaptchaRequired(action) => {
                let mut r = "Discord needs a CAPTCHA to ".to_string();
                r.append(action.as_str());
                r.append(". Finish it in the official Discord app, then try again.");
                r
            },
            Notice::RateLimited => "Discord rate limited this channel. Wait for the composer timer.".to_string(),
            Notice::NoStreamTargets => "No displays or shareable windows were found.".to_string(),
            Notice::InteractionFailed(code) => {
                let mut r = "Discord could not complete the application command: ".to_string();
                r.append(interaction_failure_reason(*code));
                r.append(".");
                r
            },
            Notice::Downloaded(path) => {
                let mut r = "Downloaded to ".to_string();
                r.append(path.as_str());
                r
            },
            Notice::DownloadFailed { filename, message } => {
                let mut r = "Download ".to_string();
                r.append(filename.as_str());
                r.append(" failed: ");
                r.append(message.as_str());
                r
            },
            Notice::ProfileReloadFailed(message) => {
                let mut r = "Save succeeded, but profile reload failed: ".to_string();
                r.append(message.as_str());
                r
            },
            Notice::VoiceStatus(status) => match status {
                VoiceConnectionStatus::Connecting => "Voice join requested".to_string(),
                VoiceConnectionStatus::Connected => "Voice connected".to_string(),
                VoiceConnectionStatus::Disconnected => "Voice leave requested".to_string(),
                VoiceConnectionStatus::Failed => "Voice request failed".to_string(),
            },
        }
    }
}

// ---- What is done ----

/// Something to be done after an event.
#[allow(inconsistent_fields)]
#[derive(Debug, PartialEq, Eq)]
pub enum UiAction {
    ErrorToast(Notice),
    SuccessToast(Notice),
    CaptchaToast(Notice),
    /// Nothing can be sent to a channel for a while.
    SlowMode { channel_id: ChannelId, millis: u64 },
    RemovePendingMessage { channel_id: ChannelId, nonce: u64 },
    MediaPlaybackReady { request_id: u64 },
    StreamPlaybackReady { scope: VoiceScope, channel_id: ChannelId, user_id: UserId },
    StreamPlaybackEnded { scope: VoiceScope, channel_id: ChannelId, user_id: UserId, reconnecting: bool },
    ClearCaptureLoading,
    OpenStreamTargets { scope: VoiceScope, channel_id: ChannelId, targets: Vec<String> },
    BroadcastStarted { scope: VoiceScope, channel_id: ChannelId },
    BroadcastStartFailed { scope: VoiceScope, channel_id: ChannelId },
    BroadcastEnded { scope: VoiceScope, channel_id: ChannelId },
    StoreApplicationCommands { guild_id: Option<GuildId>, commands: Vec<String> },
    RefreshMentionQuery,
    DropApplicationCommands { guild_id: GuildId },
    InvalidateAutocomplete,
    LoadApplicationCommands { guild_id: GuildId },
    Autocomplete { nonce: Option<String>, choices: Vec<String> },
    DownloadStarted { id: u64, filename: String, total_bytes: Option<u64>, source: u64 },
    DownloadProgress { id: u64, downloaded_bytes: u64, total_bytes: Option<u64> },
    RemoveDownload { id: u64 },
    /// A download ended; the user is told under the name it was started with, or else the one given.
    DownloadFailed { id: u64, filename: String, message: String },
    ReactionUsers {
        channel_id: ChannelId,
        message_id: MessageId,
        emoji: ReactionEmoji,
        users: Vec<ReactionUserInfo>,
        next_after: Option<UserId>,
        after: Option<UserId>,
    },
    ReactionUsersFailed { channel_id: ChannelId, message_id: MessageId, emoji: ReactionEmoji },
    LatestHistoryLoaded { channel_id: ChannelId },
    LatestHistoryFailed { channel_id: ChannelId },
    HistoryRefreshed { channel_id: ChannelId },
    /// Messages came that may show that a conversation is one of the user's own.
    MessagesSeen { channel_id: ChannelId, messages: Vec<MessageInfo> },
    MessageSeen { message: MessageInfo },
    /// The posts of a forum; the first ones are for the inbox too.
    ForumPosts {
        channel_id: ChannelId,
        archive_state: ForumPostArchiveState,
        offset: usize,
        posts: Vec<ChannelInfo>,
        first_messages: Vec<MessageInfo>,
        has_more: bool,
        for_inbox: bool,
    },
    InboxForumPostsFailed { channel_id: ChannelId },
    SearchLoaded { messages: Vec<MessageInfo> },
    SearchFailed { message: String },
    InboxMentions { request_id: u64, before: Option<MessageId>, messages: Vec<MessageInfo>, has_more: bool },
    InboxMentionsFailed { request_id: u64, before: Option<MessageId> },
    InboxMentionDeleted { message_id: MessageId },
    InboxMessages { request_id: u64, channel_id: ChannelId, messages: Vec<MessageInfo> },
    InboxMessagesFailed { request_id: u64, channel_id: ChannelId },
    ProfileUpdated { user_id: UserId, guild_id: Option<GuildId> },
    ProfileUpdateFailed { user_id: UserId, guild_id: Option<GuildId>, message: String },
    ThreadUpserted { channel: ChannelInfo },
    RefreshEmojiCandidates,
}

/// The displays and windows that were asked for.
#[derive(Clone, Copy, Debug, PartialEq, Eq, Structural)]
pub struct CaptureRequest {
    pub request_id: u64,
    pub scope: VoiceScope,
    pub channel_id: ChannelId,
}

#[derive(Clone, Copy, Debug, PartialEq, Eq, Structural)]
pub struct VoiceConnectionUiState {
    pub scope: VoiceScope,
    pub channel_id: Option<ChannelId>,
}

/// A stream in a call.
#[derive(Clone, Copy, Debug, PartialEq, Eq, Structural)]
pub struct StreamKey {
    pub scope: VoiceScope,
    pub channel_id: ChannelId,
}

/// The open profile: whose it is, why it could not be loaded, and how saving it went.
#[derive(Debug, PartialEq, Eq)]
pub struct ProfileState {
    pub user_id: UserId,
    pub guild_id: Option<GuildId>,
    pub load_error: Option<String>,
    pub saving: bool,
    pub status: Option<Notice>,
}

/// What events change.
#[derive(Debug, PartialEq, Eq)]
pub struct EventUiState {
    pub current_user: Option<String>,
    pub current_user_id: Option<UserId>,
    pub premium_tier: Option<u8>,
    pub update_available_version: Option<String>,
    pub gateway_error: Option<String>,
    pub capture_request: Option<CaptureRequest>,
    pub stream_playback_preparing: Option<StreamKey>,
    pub active_stream_playback: Option<StreamKey>,
    pub stream_broadcast_preparing: Option<StreamKey>,
    pub active_stream_broadcast: Option<StreamKey>,
    pub voice_connection: Option<VoiceConnectionUiState>,
    pub audio_sources_request: Option<u64>,
    pub audio_inputs: Vec<String>,
    pub audio_outputs: Vec<String>,
    pub input_source: Option<String>,
    pub output_source: Option<String>,
    pub config_save_pending: bool,
    pub modal_open: bool,
    pub profile: Option<ProfileState>,
}

impl EventUiState {
    pub fn new() -> (r: EventUiState)
        ensures
            r.current_user is None,
            r.current_user_id is None,
            r.premium_tier is None,
            r.update_available_version is None,
            r.gateway_error is None,
            r.capture_request is None,
            r.stream_playback_preparing is None,
            r.active_stream_playback is None,
            r.stream_broadcast_preparing is None,
            r.active_stream_broadcast is None,
            r.voice_connection is None,
            r.audio_sources_request is None,
            r.audio_inputs@.len() == 0,
            r.audio_outputs@.len() == 0,
            r.input_source is None,
            r.output_source is None,
            !r.config_save_pending,
            !r.modal_open,
            r.profile is None,
    {
        EventUiState {
            current_user: None,
            current_user_id: None,
            premium_tier: None,
            update_available_version: None,
            gateway_error: None,
            capture_request: None,
            stream_playback_preparing: None,
            active_stream_playback: None,
            stream_broadcast_preparing: None,
            active_stream_broadcast: None,
            voice_connection: None,
            audio_sources_request: None,
            audio_inputs: Vec::new(),
            audio_outputs: Vec::new(),
            input_source: None,
            output_source: None,
            config_save_pending: false,
            modal_open: false,
            profile: None,
        }
    }

    /// Whether the displays and windows that came are those that were asked for.
    pub open spec fn awaits_targets(self, request_id: u64, scope: VoiceScope, channel_id: ChannelId) -> bool {
        self.capture_request == Some(CaptureRequest { request_id, scope, channel_id })
    }

    /// Whether the user is in a call.
    pub open spec fn in_voice(self, scope: VoiceScope, channel_id: ChannelId) -> bool {
        self.voice_connection == Some(VoiceConnectionUiState { scope, channel_id: Some(channel_id) })
    }

    pub open spec fn shows_profile(self, user_id: UserId, guild_id: Option<GuildId>) -> bool {
        self.profile is Some && (self.profile->0).user_id == user_id && (self.profile->0).guild_id == guild_id
    }

    /// Out of a call: nothing is streamed or watched any more.
    pub open spec fn left_voice(self, scope: VoiceScope) -> EventUiState {
        EventUiState {
            capture_request: None,
            stream_playback_preparing: None,
            active_stream_playback: None,
            stream_broadcast_preparing: None,
            active_stream_broadcast: None,
            voice_connection: if self.voice_connection is Some && (self.voice_connection->0).scope == scope {
                None
            } else {
                self.voice_connection
            },
            ..self
        }
    }

    pub open spec fn with_profile_error(self, message: String) -> EventUiState {
        let p = self.profile->0;
        EventUiState {
            profile: Some(
                ProfileState {
                    load_error: Some(message),
                    saving: false,
                    status: if p.saving {
                        Some(Notice::ProfileReloadFailed(message))
                    } else {
                        p.status
                    },
                    ..p
                },
            ),
            ..self
        }
    }

    /// What is held after an event. The devices are not told by this where a list of them came, see
    /// [`EventUiState::devices_after`].
    pub open spec fn after(self, event: AppEvent) -> EventUiState {
        match event {
            AppEvent::Ready { user, user_id } => EventUiState {
                current_user: Some(user),
                current_user_id: user_id,
                gateway_error: None,
                ..self
            },
            AppEvent::GatewayError { message } => EventUiState { gateway_error: Some(message), ..self },
            AppEvent::StreamCaptureTargetsLoaded { request_id, scope, channel_id, .. } => if self.awaits_targets(
                request_id,
                scope,
                channel_id,
            ) {
                EventUiState { capture_request: None, ..self }
            } else {
                self
            },
            AppEvent::VoiceAudioSourcesLoaded { request_id, .. } => if self.audio_sources_request == Some(request_id) {
                EventUiState { audio_sources_request: None, ..self }
            } else {
                self
            },
            AppEvent::VoiceAudioSourcesApplyFailed {
                requested_input_source,
                requested_output_source,
                active_input_source,
                active_output_source,
                ..
            } => if opt_text(self.input_source) == opt_text(requested_input_source) && opt_text(self.output_source)
                == opt_text(requested_output_source) {
                EventUiState {
                    input_source: active_input_source,
                    output_source: active_output_source,
                    config_save_pending: true,
                    ..self
                }
            } else {
                self
            },
            AppEvent::CurrentUserCapabilities { premium_tier } => EventUiState {
                premium_tier: Some(premium_tier),
                ..self
            },
            AppEvent::UpdateAvailable { latest_version } => EventUiState {
                update_available_version: Some(latest_version),
                ..self
            },
            AppEvent::UserProfileLoadFailed { user_id, guild_id, message } => if self.shows_profile(user_id, guild_id) {
                self.with_profile_error(message)
            } else {
                self
            },
            AppEvent::VoiceConnectionStatusChanged { scope, channel_id, status, .. } => match status {
                VoiceConnectionStatus::Connecting | VoiceConnectionStatus::Connected => EventUiState {
                    voice_connection: Some(VoiceConnectionUiState { scope, channel_id }),
                    ..self
                },
                _ => self.left_voice(scope),
            },
            _ => self,
        }
    }

    /// The devices after an event. A list that could not be made leaves none.
    pub open spec fn devices_after(self, event: AppEvent) -> (Seq<String>, Seq<String>) {
        match event {
            AppEvent::VoiceAudioSourcesLoaded { request_id, inputs, outputs, error } => {
                if self.audio_sources_request != Some(request_id) {
                    (self.audio_inputs@, self.audio_outputs@)
                } else if error is Some {
                    (Seq::empty(), Seq::empty())
                } else {
                    (inputs@, outputs@)
                }
            },
            _ => (self.audio_inputs@, self.audio_outputs@),
        }
    }

    /// What an event leads to elsewhere, in order.
    pub open spec fn actions(self, event: AppEvent) -> Seq<UiAction> {
        match event {
            AppEvent::GatewayError { message } => seq![UiAction::ErrorToast(Notice::Text(message))],
            AppEvent::CaptchaRequired { action } => seq![UiAction::CaptchaToast(Notice::CaptchaRequired(action))],
            AppEvent::MessageSendRateLimited { channel_id, retry_after_millis } => seq![
                UiAction::SlowMode { channel_id, millis: retry_after_millis },
                UiAction::ErrorToast(Notice::RateLimited),
            ],
            AppEvent::MessageSendCooldownStarted { channel_id, duration_millis } => seq![
                UiAction::SlowMode { channel_id, millis: duration_millis },
            ],
            AppEvent::MessageSendFailed { channel_id, nonce } => seq![
                UiAction::RemovePendingMessage { channel_id, nonce },
            ],
            AppEvent::MediaPlaybackWindowReady { request_id } => seq![UiAction::MediaPlaybackReady { request_id }],
            AppEvent::StreamPlaybackWindowReady { scope, channel_id, user_id } => seq![
                UiAction::StreamPlaybackReady { scope, channel_id, user_id },
            ],
            AppEvent::StreamPlaybackEnded { scope, channel_id, user_id, reconnecting } => seq![
                UiAction::StreamPlaybackEnded { scope, channel_id, user_id, reconnecting },
            ],
            AppEvent::StreamCaptureTargetsLoaded { request_id, scope, channel_id, targets, error } => {
                if !self.awaits_targets(request_id, scope, channel_id) {
                    seq![]
                } else if error is Some {
                    seq![UiAction::ClearCaptureLoading, UiAction::ErrorToast(Notice::Text(error->0))]
                } else if targets@.len() == 0 {
                    seq![UiAction::ClearCaptureLoading, UiAction::ErrorToast(Notice::NoStreamTargets)]
                } else if !self.modal_open && self.in_voice(scope, channel_id) {
                    seq![
                        UiAction::ClearCaptureLoading,
                        UiAction::OpenStreamTargets { scope, channel_id, targets },
                    ]
                } else {
                    seq![UiAction::ClearCaptureLoading]
                }
            },
            AppEvent::VoiceAudioSourcesLoaded { request_id, error, .. } => if self.audio_sources_request == Some(
                request_id,
            ) && error is Some {
                seq![UiAction::ErrorToast(Notice::Text(error->0))]
            } else {
                seq![]
            },
            AppEvent::VoiceAudioSourcesApplyFailed { message, .. } => seq![UiAction::ErrorToast(Notice::Text(message))],
            AppEvent::StreamBroadcastStarted { scope, channel_id } => seq![
                UiAction::BroadcastStarted { scope, channel_id },
            ],
            AppEvent::StreamBroadcastAudioUnavailable { message } => seq![UiAction::ErrorToast(Notice::Text(message))],
            AppEvent::StreamBroadcastStartFailed { scope, channel_id } => seq![
                UiAction::BroadcastStartFailed { scope, channel_id },
            ],
            AppEvent::StreamBroadcastEnded { scope, channel_id } => seq![UiAction::BroadcastEnded { scope, channel_id }],
            AppEvent::ApplicationCommandsLoaded { guild_id, commands } => seq![
                UiAction::StoreApplicationCommands { guild_id, commands },
                UiAction::RefreshMentionQuery,
            ],
            AppEvent::ApplicationCommandIndexUpdated { guild_id } => seq![
                UiAction::DropApplicationCommands { guild_id },
                UiAction::InvalidateAutocomplete,
                UiAction::LoadApplicationCommands { guild_id },
            ],
            AppEvent::InteractionFailed { reason_code, correlated } => if correlated {
                seq![UiAction::ErrorToast(Notice::InteractionFailed(reason_code))]
            } else {
                seq![]
            },
            AppEvent::ApplicationCommandAutocompleteResponse { nonce, choices } => seq![
                UiAction::Autocomplete { nonce, choices },
            ],
            AppEvent::AttachmentDownloadStarted { id, filename, total_bytes, source } => seq![
                UiAction::DownloadStarted { id, filename, total_bytes, source },
            ],
            AppEvent::AttachmentDownloadProgress { id, downloaded_bytes, total_bytes } => seq![
                UiAction::DownloadProgress { id, downloaded_bytes, total_bytes },
            ],
            AppEvent::AttachmentDownloadCompleted { id, path } => seq![
                UiAction::RemoveDownload { id },
                UiAction::SuccessToast(Notice::Downloaded(path)),
            ],
            AppEvent::AttachmentDownloadFailed { id, filename, message } => seq![
                UiAction::DownloadFailed { id, filename, message },
            ],
            AppEvent::ReactionUsersLoaded { channel_id, message_id, emoji, users, next_after, after } => seq![
                UiAction::ReactionUsers { channel_id, message_id, emoji, users, next_after, after },
            ],
            AppEvent::ReactionUsersLoadFailed { channel_id, message_id, emoji } => seq![
                UiAction::ReactionUsersFailed { channel_id, message_id, emoji },
            ],
            AppEvent::MessageHistoryLoadFailed { channel_id, target, .. } => if target is Latest {
                seq![UiAction::LatestHistoryFailed { channel_id }]
            } else {
                seq![]
            },
            AppEvent::ForumPostsLoaded { channel_id, archive_state, offset, posts, first_messages, has_more, .. } => seq![
                UiAction::ForumPosts {
                    channel_id,
                    archive_state,
                    offset,
                    posts,
                    first_messages,
                    has_more,
                    for_inbox: archive_state is Active && offset == 0,
                },
            ],
            AppEvent::ForumPostsLoadFailed { channel_id, archive_state, offset, .. } => if archive_state is Active
                && offset == 0 {
                seq![UiAction::InboxForumPostsFailed { channel_id }]
            } else {
                seq![]
            },
            AppEvent::MessageSearchLoaded { messages } => seq![UiAction::SearchLoaded { messages }],
            AppEvent::MessageSearchLoadFailed { message } => seq![UiAction::SearchFailed { message }],
            AppEvent::MessageHistoryLoaded { channel_id, before, messages } => if before is None {
                seq![
                    UiAction::LatestHistoryLoaded { channel_id },
                    UiAction::MessagesSeen { channel_id, messages },
                ]
            } else {
                seq![]
            },
            AppEvent::InboxMentionsLoaded { request_id, before, messages, has_more } => seq![
                UiAction::InboxMentions { request_id, before, messages, has_more },
            ],
            AppEvent::InboxMentionsLoadFailed { request_id, before } => seq![
                UiAction::InboxMentionsFailed { request_id, before },
            ],
            AppEvent::InboxRecentMentionDeleted { message_id } => seq![UiAction::InboxMentionDeleted { message_id }],
            AppEvent::InboxRecentMentionDeleteFailed { message, .. } => seq![UiAction::ErrorToast(Notice::Text(message))],
            AppEvent::InboxChannelMessagesLoaded { request_id, channel_id, messages } => seq![
                UiAction::InboxMessages { request_id, channel_id, messages },
            ],
            AppEvent::InboxChannelMessagesLoadFailed { request_id, channel_id } => seq![
                UiAction::InboxMessagesFailed { request_id, channel_id },
            ],
            AppEvent::MessageHistoryRefreshed { channel_id, messages } => seq![
                UiAction::LatestHistoryLoaded { channel_id },
                UiAction::MessagesSeen { channel_id, messages },
                UiAction::HistoryRefreshed { channel_id },
            ],
            AppEvent::UserProfileLoaded { guild_id, user_id } => seq![UiAction::ProfileUpdated { user_id, guild_id }],
            AppEvent::UserProfileUpdateFailed { user_id, guild_id, message } => seq![
                UiAction::ProfileUpdateFailed { user_id, guild_id, message },
            ],
            AppEvent::VoiceConnectionStatusChanged { status, message, .. } => {
                let notice = match message {
                    Some(message) => Notice::Text(message),
                    None => Notice::VoiceStatus(status),
                };
                if status is Failed {
                    seq![UiAction::ErrorToast(notice)]
                } else {
                    seq![UiAction::SuccessToast(notice)]
                }
            },
            AppEvent::ChannelUpsert { channel } => seq![UiAction::ThreadUpserted { channel }],
            AppEvent::MessageCreate { message } => match message.nonce {
                Some(nonce) => seq![
                    UiAction::RemovePendingMessage { channel_id: message.channel_id, nonce },
                    UiAction::MessageSeen { message },
                ],
                None => seq![UiAction::MessageSeen { message }],
            },
            AppEvent::CurrentUserCapabilities { .. } => seq![UiAction::RefreshEmojiCandidates],
            AppEvent::GuildEmojisUpdate { .. } => seq![UiAction::RefreshEmojiCandidates],
            _ => seq![],
        }
    }

    fn leave_voice(&mut self, scope: VoiceScope)
        ensures
            *final(self) == old(self).left_voice(scope),
    {
        self.capture_request = None;
        self.stream_playback_preparing = None;
        self.active_stream_playback = None;
        self.stream_broadcast_preparing = None;
        self.active_stream_broadcast = None;
        if let Some(voice) = self.voice_connection {
            if voice.scope == scope {
                self.voice_connection = None;
            }
        }
    }

    /// Enters or leaves a call.
    pub fn record_voice_connection_status(
        &mut self,
        scope: VoiceScope,
        channel_id: Option<ChannelId>,
        status: VoiceConnectionStatus,
        message: Option<String>,
    ) -> (r: UiAction)
        ensures
            *final(self) == old(self).after(
                AppEvent::VoiceConnectionStatusChanged { scope, channel_id, status, message },
            ),
            seq![r] == old(self).actions(
                AppEvent::VoiceConnectionStatusChanged { scope, channel_id, status, message },
            ),
    {
        let notice = match message {
            Some(message) => Notice::Text(message),
            None => Notice::VoiceStatus(status),
        };
        match status {
            VoiceConnectionStatus::Connecting | VoiceConnectionStatus::Connected => {
                self.voice_connection = Some(VoiceConnectionUiState { scope, channel_id });
                UiAction::SuccessToast(notice)
            },
            VoiceConnectionStatus::Disconnected => {
                self.leave_voice(scope);
                UiAction::SuccessToast(notice)
            },
            VoiceConnectionStatus::Failed => {
                self.leave_voice(scope);
                UiAction::ErrorToast(notice)
            },
        }
    }

    /// Takes an event.
    pub fn apply_event_ui_effects(&mut self, event: AppEvent) -> (r: Vec<UiAction>)
        ensures
            *final(self) == (EventUiState {
                audio_inputs: final(self).audio_inputs,
                audio_outputs: final(self).audio_outputs,
                ..old(self).after(event)
            }),
            final(self).audio_inputs@ == old(self).devices_after(event).0,
            final(self).audio_outputs@ == old(self).devices_after(event).1,
            r@ == old(self).actions(event),
    {
        let mut out: Vec<UiAction> = Vec::new();
        match event {
            AppEvent::Ready { user, user_id } => {
                self.current_user = Some(user);
                self.current_user_id = user_id;
                self.gateway_error = None;
            },
            AppEvent::GatewayError { message } => {
                self.gateway_error = Some(message.clone());
                out.push(UiAction::ErrorToast(Notice::Text(message)));
            },
            AppEvent::CaptchaRequired { action } => {
                out.push(UiAction::CaptchaToast(Notice::CaptchaRequired(action)));
            },
            AppEvent::MessageSendRateLimited { channel_id, retry_after_millis } => {
                out.push(UiAction::SlowMode { channel_id, millis: retry_after_millis });
                out.push(UiAction::ErrorToast(Notice::RateLimited));
            },
            AppEvent::MessageSendCooldownStarted { channel_id, duration_millis } => {
                out.push(UiAction::SlowMode { channel_id, millis: duration_millis });
            },
            AppEvent::MessageSendFailed { channel_id, nonce } => {
                out.push(UiAction::RemovePendingMessage { channel_id, nonce });
            },
            AppEvent::MediaPlaybackWindowReady { request_id } => {
                out.push(UiAction::MediaPlaybackReady { request_id });
            },
            AppEvent::StreamPlaybackWindowReady { scope, channel_id, user_id } => {
                out.push(UiAction::StreamPlaybackReady { scope, channel_id, user_id });
            },
            AppEvent::StreamPlaybackEnded { scope, channel_id, user_id, reconnecting } => {
                out.push(UiAction::StreamPlaybackEnded { scope, channel_id, user_id, reconnecting });
            },
            AppEvent::StreamCaptureTargetsLoaded { request_id, scope, channel_id, targets, error } => {
                let awaited = match self.capture_request {
                    Some(request) => request.request_id == request_id && request.scope == scope && request.channel_id
                        == channel_id,
                    None => false,
                };
                if awaited {
                    self.capture_request = None;
                    out.push(UiAction::ClearCaptureLoading);
                    let in_voice = match self.voice_connection {
                        Some(voice) => voice.scope == scope && match voice.channel_id {
                            Some(id) => id == channel_id,
                            None => false,
                        },
                        None => false,
                    };
                    match error {
                        Some(error) => {
                            out.push(UiAction::ErrorToast(Notice::Text(error)));
                        },
                        None => {
                            if targets.len() == 0 {
                                out.push(UiAction::ErrorToast(Notice::NoStreamTargets));
                            } else if !self.modal_open && in_voice {
                                out.push(UiAction::OpenStreamTargets { scope, channel_id, targets });
                            }
                        },
                    }
                }
            },
            AppEvent::VoiceAudioSourcesLoaded { request_id, inputs, outputs, error } => {
                let awaited = match self.audio_sources_request {
                    Some(request) => request == request_id,
                    None => false,
                };
                if awaited {
                    self.audio_sources_request = None;
                    match error {
                        Some(error) => {
                            self.audio_inputs = Vec::new();
                            self.audio_outputs = Vec::new();
                            out.push(UiAction::ErrorToast(Notice::Text(error)));
                        },
                        None => {
                            self.audio_inputs = inputs;
                            self.audio_outputs = outputs;
                        },
                    }
                }
            },
            AppEvent::VoiceAudioSourcesApplyFailed {
                requested_input_source,
                requested_output_source,
                active_input_source,
                active_output_source,
                message,
            } => {
                if same_text(&self.input_source, &requested_input_source) && same_text(
                    &self.output_source,
                    &requested_output_source,
                ) {
                    self.input_source = active_input_source;
                    self.output_source = active_output_source;
                    self.config_save_pending = true;
                }
                out.push(UiAction::ErrorToast(Notice::Text(message)));
            },
            AppEvent::StreamBroadcastStarted { scope, channel_id } => {
                out.push(UiAction::BroadcastStarted { scope, channel_id });
            },
            AppEvent::StreamBroadcastAudioUnavailable { message } => {
                out.push(UiAction::ErrorToast(Notice::Text(message)));
            },
            AppEvent::StreamBroadcastStartFailed { scope, channel_id } => {
                out.push(UiAction::BroadcastStartFailed { scope, channel_id });
            },
            AppEvent::StreamBroadcastEnded { scope, channel_id } => {
                out.push(UiAction::BroadcastEnded { scope, channel_id });
            },
            AppEvent::CurrentUserCapabilities { premium_tier } => {
                self.premium_tier = Some(premium_tier);
                out.push(UiAction::RefreshEmojiCandidates);
            },
            AppEvent::GuildEmojisUpdate { .. } => {
                out.push(UiAction::RefreshEmojiCandidates);
            },
            AppEvent::ApplicationCommandsLoaded { guild_id, commands } => {
                out.push(UiAction::StoreApplicationCommands { guild_id, commands });
                out.push(UiAction::RefreshMentionQuery);
            },
            AppEvent::ApplicationCommandIndexUpdated { guild_id } => {
                out.push(UiAction::DropApplicationCommands { guild_id });
                out.push(UiAction::InvalidateAutocomplete);
                out.push(UiAction::LoadApplicationCommands { guild_id });
            },
            AppEvent::InteractionFailed { reason_code, correlated } => {
                if correlated {
                    out.push(UiAction::ErrorToast(Notice::InteractionFailed(reason_code)));
                }
            },
            AppEvent::ApplicationCommandAutocompleteResponse { nonce, choices } => {
                out.push(UiAction::Autocomplete { nonce, choices });
            },
            AppEvent::AttachmentDownloadStarted { id, filename, total_bytes, source } => {
                out.push(UiAction::DownloadStarted { id, filename, total_bytes, source });
            },
            AppEvent::AttachmentDownloadProgress { id, downloaded_bytes, total_bytes } => {
                out.push(UiAction::DownloadProgress { id, downloaded_bytes, total_bytes });
            },
            AppEvent::AttachmentDownloadCompleted { id, path } => {
                out.push(UiAction::RemoveDownload { id });
                out.push(UiAction::SuccessToast(Notice::Downloaded(path)));
            },
            AppEvent::AttachmentDownloadFailed { id, filename, message } => {
                out.push(UiAction::DownloadFailed { id, filename, message });
            },
            AppEvent::UpdateAvailable { latest_version } => {
                self.update_available_version = Some(latest_version);
            },
            AppEvent::ReactionUsersLoaded { channel_id, message_id, emoji, users, next_after, after } => {
                out.push(UiAction::ReactionUsers { channel_id, message_id, emoji, users, next_after, after });
            },
            AppEvent::ReactionUsersLoadFailed { channel_id, message_id, emoji } => {
                out.push(UiAction::ReactionUsersFailed { channel_id, message_id, emoji });
            },
            AppEvent::MessageHistoryLoadFailed { channel_id, target, .. } => {
                if matches!(target, MessageHistoryLoadTarget::Latest) {
                    out.push(UiAction::LatestHistoryFailed { channel_id });
                }
            },
            AppEvent::ForumPostsLoaded { channel_id, archive_state, offset, posts, first_messages, has_more, .. } => {
                let for_inbox = matches!(archive_state, ForumPostArchiveState::Active) && offset == 0;
                out.push(
                    UiAction::ForumPosts {
                        channel_id,
                        archive_state,
                        offset,
                        posts,
                        first_messages,
                        has_more,
                        for_inbox,
                    },
                );
            },
            AppEvent::ForumPostsLoadFailed { channel_id, archive_state, offset, .. } => {
                if matches!(archive_state, ForumPostArchiveState::Active) && offset == 0 {
                    out.push(UiAction::InboxForumPostsFailed { channel_id });
                }
            },
            AppEvent::MessageSearchLoaded { messages } => {
                out.push(UiAction::SearchLoaded { messages });
            },
            AppEvent::MessageSearchLoadFailed { message } => {
                out.push(UiAction::SearchFailed { message });
            },
            AppEvent::MessageHistoryLoaded { channel_id, before, messages } => {
                if before.is_none() {
                    out.push(UiAction::LatestHistoryLoaded { channel_id });
                    out.push(UiAction::MessagesSeen { channel_id, messages });
                }
            },
            AppEvent::InboxMentionsLoaded { request_id, before, messages, has_more } => {
                out.push(UiAction::InboxMentions { request_id, before, messages, has_more });
            },
            AppEvent::InboxMentionsLoadFailed { request_id, before } => {
                out.push(UiAction::InboxMentionsFailed { request_id, before });
            },
            AppEvent::InboxRecentMentionDeleted { message_id } => {
                out.push(UiAction::InboxMentionDeleted { message_id });
            },
            AppEvent::InboxRecentMentionDeleteFailed { message, .. } => {
                out.push(UiAction::ErrorToast(Notice::Text(message)));
            },
            AppEvent::InboxChannelMessagesLoaded { request_id, channel_id, messages } => {
                out.push(UiAction::InboxMessages { request_id, channel_id, messages });
            },
            AppEvent::InboxChannelMessagesLoadFailed { request_id, channel_id } => {
                out.push(UiAction::InboxMessagesFailed { request_id, channel_id });
            },
            AppEvent::MessageHistoryRefreshed { channel_id, messages } => {
                out.push(UiAction::LatestHistoryLoaded { channel_id });
                out.push(UiAction::MessagesSeen { channel_id, messages });
                out.push(UiAction::HistoryRefreshed { channel_id });
            },
            AppEvent::UserProfileLoaded { guild_id, user_id } => {
                out.push(UiAction::ProfileUpdated { user_id, guild_id });
            },
            AppEvent::UserProfileLoadFailed { user_id, guild_id, message } => {
                if let Some(profile) = &mut self.profile {
                    if profile.user_id == user_id && same_guild(profile.guild_id, guild_id) {
                        profile.load_error = Some(message.clone());
                        if profile.saving {
                            profile.saving = false;
                            profile.status = Some(Notice::ProfileReloadFailed(message));
                        }
                    }
                }
            },
            AppEvent::UserProfileUpdateFailed { user_id, guild_id, message } => {
                out.push(UiAction::ProfileUpdateFailed { user_id, guild_id, message });
            },
            AppEvent::VoiceConnectionStatusChanged { scope, channel_id, status, message } => {
                let action = self.record_voice_connection_status(scope, channel_id, status, message);
                out.push(action);
                assert(out@ =~= seq![action]);
            },
            AppEvent::ChannelUpsert { channel } => {
                out.push(UiAction::ThreadUpserted { channel });
            },
            AppEvent::MessageCreate { message } => {
                if let Some(nonce) = message.nonce {
                    out.push(UiAction::RemovePendingMessage { channel_id: message.channel_id, nonce });
                }
                out.push(UiAction::MessageSeen { message });
            },
            _ => {},
        }
        assert(out@ =~= old(self).actions(event));
        out
    }
}

fn same_guild(a: Option<GuildId>, b: Option<GuildId>) -> (r: bool)
    ensures
        r == (a == b),
{
    match (a, b) {
        (Some(a), Some(b)) => a == b,
        (None, None) => true,
        _ => false,
    }
}

fn same_text(a: &Option<String>, b: &Option<String>) -> (r: bool)
    ensures
        r == (opt_text(*a) == opt_text(*b)),
{
    match (a, b) {
        (Some(a), Some(b)) => str_eq(a.as_str(), b.as_str()),
        (None, None) => true,
        _ => false,
    }
}

// ---- Conversations ----

/// The messages of a user.
pub open spec fn ids_by(messages: Seq<MessageInfo>, user: UserId) -> Seq<MessageId>
    decreases messages.len(),
{
    if messages.len() == 0 {
        Seq::empty()
    } else {
        let before = ids_by(messages.drop_last(), user);
        if messages.last().author_id == user {
            before.push(messages.last().message_id)
        } else {
            before
        }
    }
}

fn add_id(ids: &mut Vec<MessageId>, id: MessageId)
    requires
        old(ids)@.no_duplicates(),
    ensures
        final(ids)@.no_duplicates(),
        final(ids)@.to_set() == old(ids)@.to_set().insert(id),
{
    let mut i: usize = 0;
    while i < ids.len()
        invariant
            i <= ids@.len(),
            ids@ == old(ids)@,
            ids@.no_duplicates(),
            forall|k: int| 0 <= k < i ==> ids@[k] != id,
        decreases ids@.len() - i,
    {
        if ids[i] == id {
            assert(ids@.contains(id));
            assert(ids@.to_set().insert(id) =~= ids@.to_set());
            return;
        }
        i += 1;
    }
    let ghost before = ids@;
    ids.push(id);
    proof {
        lemma_push_set(before, id);
    }
}

/// Whether a direct conversation now counts as one of the user's own: they wrote enough different messages
/// in it. `own_ids` are those that were known before.
pub fn dm_becomes_established(
    established: bool,
    is_dm: bool,
    current_user: Option<UserId>,
    own_ids: &Vec<MessageId>,
    messages: &Vec<MessageInfo>,
    minimum: usize,
) -> (r: bool)
    ensures
        r == (!established && is_dm && current_user is Some && (own_ids@ + ids_by(
            messages@,
            current_user->0,
        )).to_set().len() >= minimum),
{
    if established || !is_dm {
        return false;
    }
    let user = match current_user {
        Some(user) => user,
        None => {
            return false;
        },
    };
    let mut ids: Vec<MessageId> = Vec::new();
    let mut i: usize = 0;
    assert(own_ids@.take(0) =~= Seq::<MessageId>::empty());
    while i < own_ids.len()
        invariant
            i <= own_ids@.len(),
            ids@.no_duplicates(),
            ids@.to_set() == own_ids@.take(i as int).to_set(),
        decreases own_ids@.len() - i,
    {
        add_id(&mut ids, own_ids[i]);
        proof {
            lemma_push_set(own_ids@.take(i as int), own_ids@[i as int]);
            assert(own_ids@.take(i + 1) =~= own_ids@.take(i as int).push(own_ids@[i as int]));
        }
        i += 1;
    }
    assert(own_ids@.take(i as int) =~= own_ids@);
    let mut k: usize = 0;
    assert(messages@.take(0) =~= Seq::<MessageInfo>::empty());
    assert(own_ids@ + ids_by(messages@.take(0), user) =~= own_ids@);
    while k < messages.len()
        invariant
            k <= messages@.len(),
            ids@.no_duplicates(),
            ids@.to_set() == (own_ids@ + ids_by(messages@.take(k as int), user)).to_set(),
        decreases messages@.len() - k,
    {
        assert(messages@.take(k + 1).drop_last() =~= messages@.take(k as int));
        if messages[k].author_id == user {
            let id = messages[k].message_id;
            add_id(&mut ids, id);
            proof {
                let before = own_ids@ + ids_by(messages@.take(k as int), user);
                lemma_push_set(before, id);
                assert(own_ids@ + ids_by(messages@.take(k + 1), user) =~= before.push(id));
            }
        }
        k += 1;
    }
    assert(messages@.take(k as int) =~= messages@);
    proof {
        ids@.unique_seq_to_set();
    }
    ids.len() >= minimum
}

proof fn lemma_push_set(s: Seq<MessageId>, id: MessageId)
    ensures
        s.push(id).to_set() == s.to_set().insert(id),
{
    let t = s.push(id);
    assert(t.to_set() =~= s.to_set().insert(id)) by {
        assert forall|x: MessageId| t.contains(x) == (s.contains(x) || x == id) by {
            if s.contains(x) {
                let k = choose|k: int| 0 <= k < s.len() && s[k] == x;
                assert(t[k] == x);
            }
            if x == id {
                assert(t[s.len() as int] == x);
            }
        }
    }
}

/// What of a channel decides how often one can write in it.
#[derive(Clone, Copy, Debug, PartialEq, Eq, Structural)]
pub struct SlowModeFacts {
    pub bypasses: bool,
    pub rate_limit_per_user: Option<u64>,
}

/// The seconds in which nothing can be sent after a message of the user's own.
pub fn slow_mode_after_self_message(current_user: Option<UserId>, author: UserId, channel: Option<SlowModeFacts>) -> (r:
    Option<u64>)
    ensures
        r == (match channel {
            Some(c) => if current_user == Some(author) && !c.bypasses && c.rate_limit_per_user is Some
                && c.rate_limit_per_user->0 > 0 {
                c.rate_limit_per_user
            } else {
                None
            },
            None => None,
        }),
{
    let own = match current_user {
        Some(user) => user == author,
        None => false,
    };
    if !own {
        return None;
    }
    match channel {
        Some(c) => {
            if c.bypasses {
                return None;
            }
            match c.rate_limit_per_user {
                Some(seconds) => {
                    if seconds > 0 {
                        Some(seconds)
                    } else {
                        None
                    }
                },
                None => None,
            }
        },
        None => None,
    }
}

/// Displays and windows are offered once: what came for a request does not come again.
pub proof fn capture_targets_are_offered_once(
    s: EventUiState,
    request_id: u64,
    scope: VoiceScope,
    channel_id: ChannelId,
    targets: Vec<String>,
    error: Option<String>,
)
    ensures
        s.after(AppEvent::StreamCaptureTargetsLoaded { request_id, scope, channel_id, targets, error }).actions(
            AppEvent::StreamCaptureTargetsLoaded { request_id, scope, channel_id, targets, error },
        ).len() == 0,
{
}

/// Out of a call nothing is streamed or watched, and the call is over where it was the one that ended.
pub proof fn calls_end_with_everything_in_them(
    s: EventUiState,
    scope: VoiceScope,
    channel_id: Option<ChannelId>,
    message: Option<String>,
    failed: bool,
)
    ensures
        ({
            let status = if failed {
                VoiceConnectionStatus::Failed
            } else {
                VoiceConnectionStatus::Disconnected
            };
            let after = s.after(AppEvent::VoiceConnectionStatusChanged { scope, channel_id, status, message });
            &&& after.active_stream_playback is None
            &&& after.active_stream_broadcast is None
            &&& after.stream_playback_preparing is None
            &&& after.stream_broadcast_preparing is None
            &&& after.capture_request is None
            &&& after.voice_connection is Some ==> (after.voice_connection->0).scope != scope
        }),
{
}

} // verus!
