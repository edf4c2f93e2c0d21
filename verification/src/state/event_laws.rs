//! What an event changes, what it leads to, and what it is not for.

use crate::discord::{AppEvent, MessageInfo, VoiceConnectionStatus};
use crate::ids::{MessageId, UserId};
use crate::state::deed_laws::lemma_within;
use crate::state::events::{
    ids_by, EventUiState, Notice, UiAction, VoiceConnectionUiState,
};
use crate::text::{contains_text, opt_text};
use vstd::prelude::*;
use vstd::string::*;

verus! {

proof fn lemma_listed(actions: Seq<UiAction>)
    ensures
        actions.len() > 0 ==> actions.contains(actions[0]),
        actions.len() > 1 ==> actions.contains(actions[1]),
        actions.len() > 2 ==> actions.contains(actions[2]),
{
}

/// What is known of the user and the session changes only with the event that tells it.
pub proof fn events_change_what_they_tell(s: EventUiState, event: AppEvent)
    ensures
        s.after(event).current_user != s.current_user ==> event is Ready,
        s.after(event).current_user_id != s.current_user_id ==> event is Ready,
        s.after(event).premium_tier != s.premium_tier ==> event is CurrentUserCapabilities,
        s.after(event).update_available_version != s.update_available_version ==> event is UpdateAvailable,
        s.after(event).gateway_error != s.gateway_error ==> event is Ready || event is GatewayError,
        s.after(event).voice_connection != s.voice_connection ==> event is VoiceConnectionStatusChanged,
        s.after(event).active_stream_playback != s.active_stream_playback ==> event is VoiceConnectionStatusChanged,
        s.after(event).active_stream_broadcast != s.active_stream_broadcast ==> event is VoiceConnectionStatusChanged,
        s.after(event).capture_request != s.capture_request ==> event is VoiceConnectionStatusChanged
            || event is StreamCaptureTargetsLoaded,
        s.after(event).audio_sources_request != s.audio_sources_request ==> event is VoiceAudioSourcesLoaded,
        s.after(event).input_source != s.input_source ==> event is VoiceAudioSourcesApplyFailed,
        s.after(event).output_source != s.output_source ==> event is VoiceAudioSourcesApplyFailed,
        s.after(event).config_save_pending != s.config_save_pending ==> event is VoiceAudioSourcesApplyFailed,
        s.after(event).profile != s.profile ==> event is UserProfileLoadFailed,
        s.after(event).modal_open == s.modal_open,
        s.devices_after(event) != (s.audio_inputs@, s.audio_outputs@) ==> event is VoiceAudioSourcesLoaded,
{
}

/// What an event tells of the user and the session is known afterwards. A new session ends an error.
pub proof fn what_is_told_is_known(s: EventUiState, event: AppEvent)
    ensures
        event matches AppEvent::Ready { user, user_id } ==> s.after(event).current_user == Some(user) && s.after(
            event,
        ).current_user_id == user_id && s.after(event).gateway_error is None,
        event matches AppEvent::GatewayError { message } ==> s.after(event).gateway_error == Some(message),
        event matches AppEvent::CurrentUserCapabilities { premium_tier } ==> s.after(event).premium_tier == Some(
            premium_tier,
        ),
        event matches AppEvent::UpdateAvailable { latest_version } ==> s.after(event).update_available_version == Some(
            latest_version,
        ),
{
}

/// An answer is taken up once: it ends the request that it is for, and then it comes for nothing. An
/// answer to another request changes nothing and leads to nothing.
pub proof fn answers_are_for_their_request(s: EventUiState, event: AppEvent)
    ensures
        event matches AppEvent::VoiceAudioSourcesLoaded { request_id, .. } ==> s.audio_sources_request != Some(request_id)
            ==> s.after(event) == s && s.devices_after(event) == (s.audio_inputs@, s.audio_outputs@) && s.actions(
            event,
        ).len() == 0,
        event matches AppEvent::VoiceAudioSourcesLoaded { request_id, inputs, outputs, error } ==> s.audio_sources_request
            == Some(request_id) ==> s.after(event).audio_sources_request is None && (error is None ==> s.devices_after(
            event,
        ) == (inputs@, outputs@)) && (error is Some ==> s.devices_after(event).0.len() == 0 && s.devices_after(
            event,
        ).1.len() == 0),
        event matches AppEvent::StreamCaptureTargetsLoaded { request_id, scope, channel_id, .. }
            ==> !s.awaits_targets(request_id, scope, channel_id) ==> s.after(event) == s && s.actions(event).len() == 0,
        event matches AppEvent::StreamCaptureTargetsLoaded { request_id, scope, channel_id, .. }
            ==> s.awaits_targets(request_id, scope, channel_id) ==> s.after(event).capture_request is None && s.actions(
            event,
        ).contains(UiAction::ClearCaptureLoading),
        event matches AppEvent::UserProfileLoadFailed { user_id, guild_id, .. } ==> !s.shows_profile(user_id, guild_id)
            ==> s.after(event) == s,
{
    if let AppEvent::StreamCaptureTargetsLoaded { request_id, scope, channel_id, .. } = event {
        if s.awaits_targets(request_id, scope, channel_id) {
            assert(s.actions(event)[0] == UiAction::ClearCaptureLoading);
        }
    }
}

/// Displays and windows are offered where there are some, no popup is in the way and the user is still
/// in the call that they are for.
pub proof fn targets_are_offered_in_the_call(s: EventUiState, event: AppEvent)
    requires
        event is StreamCaptureTargetsLoaded,
    ensures
        event matches AppEvent::StreamCaptureTargetsLoaded { request_id, scope, channel_id, targets, error } ==> (
        s.actions(event).contains(UiAction::OpenStreamTargets { scope, channel_id, targets }) <==> s.awaits_targets(
            request_id,
            scope,
            channel_id,
        ) && error is None && targets@.len() > 0 && !s.modal_open && s.voice_connection == Some(
            VoiceConnectionUiState { scope, channel_id: Some(channel_id) },
        )),
{
    if let AppEvent::StreamCaptureTargetsLoaded { request_id, scope, channel_id, targets, error } = event {
        let actions = s.actions(event);
        let offer = UiAction::OpenStreamTargets { scope, channel_id, targets };
        if s.awaits_targets(request_id, scope, channel_id) && error is None && targets@.len() > 0 && !s.modal_open
            && s.in_voice(scope, channel_id) {
            assert(actions[1] == offer);
        }
    }
}

/// A profile that is shown and could not be loaded says so, and is not being saved any more. Where it
/// was, that also says that the save went well.
pub proof fn failed_profiles_say_so(s: EventUiState, event: AppEvent)
    ensures
        event matches AppEvent::UserProfileLoadFailed { user_id, guild_id, message } ==> s.shows_profile(
            user_id,
            guild_id,
        ) ==> s.after(event).shows_profile(user_id, guild_id) && (s.after(event).profile->0).load_error == Some(message)
            && !(s.after(event).profile->0).saving && ((s.profile->0).saving ==> (s.after(event).profile->0).status
            == Some(Notice::ProfileReloadFailed(message))) && (!(s.profile->0).saving ==> (s.after(
            event,
        ).profile->0).status == (s.profile->0).status),
{
}

/// Devices that could not be used are given up for those in use, unless others were chosen meanwhile.
pub proof fn devices_that_fail_are_given_up(s: EventUiState, event: AppEvent)
    ensures
        event matches AppEvent::VoiceAudioSourcesApplyFailed {
            requested_input_source,
            requested_output_source,
            active_input_source,
            active_output_source,
            ..
        } ==> (if opt_text(s.input_source) == opt_text(requested_input_source) && opt_text(s.output_source) == opt_text(
            requested_output_source,
        ) {
            s.after(event).input_source == active_input_source && s.after(event).output_source == active_output_source
                && s.after(event).config_save_pending
        } else {
            s.after(event) == s
        }),
{
}

/// Whoever joins a call is in it, and what is streamed or watched goes on.
pub proof fn calls_are_joined(s: EventUiState, event: AppEvent)
    ensures
        event matches AppEvent::VoiceConnectionStatusChanged { scope, channel_id, status, .. } ==> (status is Connecting
            || status is Connected) ==> s.after(event).voice_connection == Some(
            VoiceConnectionUiState { scope, channel_id },
        ) && s.after(event).active_stream_playback == s.active_stream_playback && s.after(event).active_stream_broadcast
            == s.active_stream_broadcast && s.after(event).capture_request == s.capture_request,
{
}

/// Whether an error is told in some words.
pub open spec fn tells_error(actions: Seq<UiAction>, notice: Notice) -> bool {
    actions.contains(UiAction::ErrorToast(notice))
}

/// What went wrong is told, in the words that came with it.
pub proof fn errors_are_told(s: EventUiState, event: AppEvent)
    ensures
        event matches AppEvent::GatewayError { message } ==> tells_error(s.actions(event), Notice::Text(message)),
        event matches AppEvent::VoiceAudioSourcesApplyFailed { message, .. } ==> tells_error(
            s.actions(event),
            Notice::Text(message),
        ),
        event matches AppEvent::StreamBroadcastAudioUnavailable { message } ==> tells_error(
            s.actions(event),
            Notice::Text(message),
        ),
        event matches AppEvent::InboxRecentMentionDeleteFailed { message, .. } ==> tells_error(
            s.actions(event),
            Notice::Text(message),
        ),
        event is MessageSendRateLimited ==> tells_error(s.actions(event), Notice::RateLimited),
        event matches AppEvent::InteractionFailed { reason_code, correlated } ==> (correlated ==> tells_error(
            s.actions(event),
            Notice::InteractionFailed(reason_code),
        )) && (!correlated ==> s.actions(event).len() == 0),
        event matches AppEvent::VoiceAudioSourcesLoaded { request_id, error: Some(error), .. }
            ==> s.audio_sources_request == Some(request_id) ==> tells_error(s.actions(event), Notice::Text(error)),
        event matches AppEvent::StreamCaptureTargetsLoaded { request_id, scope, channel_id, error: Some(error), .. }
            ==> s.awaits_targets(request_id, scope, channel_id) ==> tells_error(s.actions(event), Notice::Text(error)),
        event matches AppEvent::StreamCaptureTargetsLoaded { request_id, scope, channel_id, error: None, targets }
            ==> s.awaits_targets(request_id, scope, channel_id) ==> targets@.len() == 0 ==> tells_error(
            s.actions(event),
            Notice::NoStreamTargets,
        ),
        event matches AppEvent::VoiceConnectionStatusChanged { status: VoiceConnectionStatus::Failed, message, .. }
            ==> tells_error(
            s.actions(event),
            match message {
                Some(message) => Notice::Text(message),
                None => Notice::VoiceStatus(VoiceConnectionStatus::Failed),
            },
        ),
{
    lemma_listed(s.actions(event));
}

/// A call that is joined or left is told as a success, never as an error.
pub proof fn calls_are_told(s: EventUiState, event: AppEvent)
    ensures
        event matches AppEvent::VoiceConnectionStatusChanged { status, message, .. } ==> !(status is Failed) ==> s.actions(
            event,
        ).len() == 1 && (s.actions(event)[0] matches UiAction::SuccessToast(notice) && (match message {
            Some(message) => notice == Notice::Text(message),
            None => notice == Notice::VoiceStatus(status),
        })),
{
}

/// A message that came is seen, and where it was written here, it is no longer pending. One that could
/// not be sent is not pending either.
pub proof fn pending_messages_end(s: EventUiState, event: AppEvent)
    ensures
        event matches AppEvent::MessageCreate { message } ==> s.actions(event).contains(
            UiAction::MessageSeen { message },
        ) && (message.nonce matches Some(nonce) ==> s.actions(event).contains(
            UiAction::RemovePendingMessage { channel_id: message.channel_id, nonce },
        )),
        event matches AppEvent::MessageSendFailed { channel_id, nonce } ==> s.actions(event).contains(
            UiAction::RemovePendingMessage { channel_id, nonce },
        ),
        event matches AppEvent::MessageSendRateLimited { channel_id, retry_after_millis } ==> s.actions(event).contains(
            UiAction::SlowMode { channel_id, millis: retry_after_millis },
        ),
        event matches AppEvent::MessageSendCooldownStarted { channel_id, duration_millis } ==> s.actions(event).contains(
            UiAction::SlowMode { channel_id, millis: duration_millis },
        ),
{
    lemma_listed(s.actions(event));
}

/// The newest messages of a channel are seen when they come, for the first time or anew. Older ones are
/// not.
pub proof fn the_newest_messages_are_seen(s: EventUiState, event: AppEvent)
    ensures
        event matches AppEvent::MessageHistoryLoaded { channel_id, before, messages } ==> (before is None ==> s.actions(
            event,
        ).contains(UiAction::MessagesSeen { channel_id, messages }) && s.actions(event).contains(
            UiAction::LatestHistoryLoaded { channel_id },
        )) && (before is Some ==> s.actions(event).len() == 0),
        event matches AppEvent::MessageHistoryRefreshed { channel_id, messages } ==> s.actions(event).contains(
            UiAction::MessagesSeen { channel_id, messages },
        ) && s.actions(event).contains(UiAction::LatestHistoryLoaded { channel_id }) && s.actions(event).contains(
            UiAction::HistoryRefreshed { channel_id },
        ),
        event matches AppEvent::MessageHistoryLoadFailed { channel_id, target, .. } ==> (s.actions(event).contains(
            UiAction::LatestHistoryFailed { channel_id },
        ) <==> target is Latest),
{
    lemma_listed(s.actions(event));
}

/// What is downloaded is shown while it comes. When it is there, that is told with the place, and it is
/// not shown as coming any more.
pub proof fn downloads_are_shown(s: EventUiState, event: AppEvent)
    ensures
        event matches AppEvent::AttachmentDownloadStarted { id, filename, total_bytes, source } ==> s.actions(event)
            == seq![UiAction::DownloadStarted { id, filename, total_bytes, source }],
        event matches AppEvent::AttachmentDownloadProgress { id, downloaded_bytes, total_bytes } ==> s.actions(event)
            == seq![UiAction::DownloadProgress { id, downloaded_bytes, total_bytes }],
        event matches AppEvent::AttachmentDownloadCompleted { id, path } ==> s.actions(event).contains(
            UiAction::RemoveDownload { id },
        ) && s.actions(event).contains(UiAction::SuccessToast(Notice::Downloaded(path))),
        event matches AppEvent::AttachmentDownloadFailed { id, filename, message } ==> s.actions(event) == seq![
            UiAction::DownloadFailed { id, filename, message },
        ],
{
    lemma_listed(s.actions(event));
}

/// What was asked for is handed on to who asked, with all that came: who reacted, posts, messages that
/// were found, and those of the inbox.
pub proof fn answers_are_handed_on(s: EventUiState, event: AppEvent)
    ensures
        event matches AppEvent::ReactionUsersLoaded { channel_id, message_id, emoji, users, next_after, after }
            ==> s.actions(event).contains(
            UiAction::ReactionUsers { channel_id, message_id, emoji, users, next_after, after },
        ),
        event matches AppEvent::MessageSearchLoaded { messages } ==> s.actions(event).contains(
            UiAction::SearchLoaded { messages },
        ),
        event matches AppEvent::InboxMentionsLoaded { request_id, before, messages, has_more } ==> s.actions(
            event,
        ).contains(UiAction::InboxMentions { request_id, before, messages, has_more }),
        event matches AppEvent::InboxChannelMessagesLoaded { request_id, channel_id, messages } ==> s.actions(
            event,
        ).contains(UiAction::InboxMessages { request_id, channel_id, messages }),
        event matches AppEvent::ForumPostsLoaded { channel_id, archive_state, offset, posts, first_messages, has_more, .. }
            ==> s.actions(event).len() == 1 && (s.actions(event)[0] matches UiAction::ForumPosts {
            channel_id: c,
            posts: p,
            first_messages: f,
            has_more: h,
            for_inbox,
            ..
        } && c == channel_id && p == posts && f == first_messages && h == has_more && for_inbox == (archive_state
            is Active && offset == 0)),
        event matches AppEvent::ApplicationCommandsLoaded { guild_id, commands } ==> s.actions(event).contains(
            UiAction::StoreApplicationCommands { guild_id, commands },
        ),
        event matches AppEvent::ApplicationCommandIndexUpdated { guild_id } ==> s.actions(event).contains(
            UiAction::DropApplicationCommands { guild_id },
        ) && s.actions(event).contains(UiAction::LoadApplicationCommands { guild_id }),
        event matches AppEvent::UserProfileLoaded { guild_id, user_id } ==> s.actions(event).contains(
            UiAction::ProfileUpdated { user_id, guild_id },
        ),
        event is CurrentUserCapabilities || event is GuildEmojisUpdate ==> s.actions(event).contains(
            UiAction::RefreshEmojiCandidates,
        ),
{
    lemma_listed(s.actions(event));
}

/// A notice holds what it tells of: the place of a download, or the name of the file that failed and
/// why.
pub proof fn notices_hold_what_they_tell(notice: Notice)
    ensures
        notice matches Notice::Text(text) ==> notice.words() == text@,
        notice matches Notice::CaptchaRequired(action) ==> contains_text(notice.words(), action@),
        notice matches Notice::Downloaded(path) ==> contains_text(notice.words(), path@),
        notice matches Notice::DownloadFailed { filename, message } ==> contains_text(notice.words(), filename@)
            && contains_text(notice.words(), message@),
        notice matches Notice::ProfileReloadFailed(message) ==> contains_text(notice.words(), message@),
{
    let empty = Seq::<char>::empty();
    match notice {
        Notice::CaptchaRequired(action) => {
            lemma_within(
                "Discord needs a CAPTCHA to "@,
                action@,
                ". Finish it in the official Discord app, then try again."@,
            );
        },
        Notice::Downloaded(path) => {
            lemma_within("Downloaded to "@, path@, empty);
            assert(notice.words() =~= "Downloaded to "@ + path@ + empty);
        },
        Notice::DownloadFailed { filename, message } => {
            lemma_within("Download "@, filename@, " failed: "@ + message@);
            assert(notice.words() =~= "Download "@ + filename@ + (" failed: "@ + message@));
            lemma_within("Download "@ + filename@ + " failed: "@, message@, empty);
            assert(notice.words() =~= "Download "@ + filename@ + " failed: "@ + message@ + empty);
        },
        Notice::ProfileReloadFailed(message) => {
            lemma_within("Save succeeded, but profile reload failed: "@, message@, empty);
            assert(notice.words() =~= "Save succeeded, but profile reload failed: "@ + message@ + empty);
        },
        _ => {},
    }
}

/// The messages of a user are those that they wrote.
pub proof fn messages_of_a_user_are_their_own(messages: Seq<MessageInfo>, user: UserId, id: MessageId)
    ensures
        ids_by(messages, user).contains(id) <==> exists|i: int|
            0 <= i < messages.len() && (#[trigger] messages[i]).author_id == user && messages[i].message_id == id,
    decreases messages.len(),
{
    if messages.len() > 0 {
        let rest = messages.drop_last();
        let before = ids_by(rest, user);
        let now = ids_by(messages, user);
        messages_of_a_user_are_their_own(rest, user, id);
        if now.contains(id) {
            let k = choose|k: int| 0 <= k < now.len() && now[k] == id;
            if k < before.len() {
                assert(before[k] == id);
                let i = choose|i: int|
                    0 <= i < rest.len() && (#[trigger] rest[i]).author_id == user && rest[i].message_id == id;
                assert(messages[i].author_id == user);
            } else {
                assert(messages[messages.len() - 1].author_id == user);
            }
        }
        if exists|i: int| 0 <= i < messages.len() && (#[trigger] messages[i]).author_id == user && messages[i].message_id == id {
            let i = choose|i: int|
                0 <= i < messages.len() && (#[trigger] messages[i]).author_id == user && messages[i].message_id == id;
            if i < rest.len() {
                assert(rest[i].author_id == user);
                let k = choose|k: int| 0 <= k < before.len() && before[k] == id;
                assert(now[k] == id);
            } else {
                assert(now[now.len() - 1] == id);
            }
        }
    }
}

} // verus!
