use concord::discord::{
    AppCommand, AppEvent, MessageHistoryAfterMode, MessageHistoryLoadTarget, MessageInfo, ReactionUserInfo, VoiceSoundKind,
};
use concord::geometry::Rect;
use concord::message::reactions::ReactionEmoji;
use concord::runtime::effects::{
    effect_forces_redraw, macos_terminal_app_name, missing_members_for_effect, process_deferred_effects,
    process_sequenced_effect, processed_outcome, push_dashboard_effect, users_surfaced_by, voice_sound_path,
    DashboardEffect, MemberRequest, NotificationSounds, SequencedAppEvent,
};
use concord::runtime::image_layer::{CellGrid, Decision, ImageCell, ImageEmissionTracker};
use concord::runtime::klipy::{GifPickerView, KlipyRuntime, PreviewKey};
use concord::runtime::media_runtime::{
    check_upload_preview_size, decision_needs_frame, live_media_bytes, next_deadline, resident_kib,
    resolve_popup_avatar_url, reuse_cached_source, DashboardMediaRuntime, FrameAreas, ImagePlace, ImagePlaces,
    MediaEventStep, MediaImageDecodeKey, MediaImageDecodeRequest, MediaTargets, SourceDecision,
    MAX_ACTIVE_MEDIA_SOURCES,
};
use concord::runtime::placement::{
    has_avatar, has_fragment, AvatarFingerprint, FramePlacements, ImagePreviewTarget,
};
use concord::runtime::redraw::{DashboardRedrawState, RedrawPlan};
use concord::runtime::redraw_gate::{
    view_signature, ChannelRowParts, HeaderParts, InboxParts, MemberParts, MessagePaneParts, NotificationInboxTab,
    PopupParts, SelectionParts, ViewParts,
};
use concord::runtime::scheduler::{
    failed_request, DashboardCommandScheduler, DueRequests, FailedRequest, MemberSearch,
};
use concord::runtime::slices::{clip_image_preview_targets_for_occlusions, visible_image_target_slices};
use concord::state::channel_pane::{ChannelKind, ChannelPaneRow};
use concord::state::channel_text::channel_subscription_command;
use concord::state::dashboard::{DashboardState, PaneLists};
use concord::state::dashboard_channels::{ActiveChannel, ActiveFacts, EventFacts};
use concord::state::events::{EventUiState, UiAction};
use concord::state::guilds::ActiveGuildScope;
use concord::state::message_viewport::PaneContent;
use std::collections::VecDeque;

fn preview_target(message_id: u64, y_offset: usize) -> ImagePreviewTarget {
    ImagePreviewTarget {
        viewer: false,
        selected: false,
        thread_card: false,
        message_index: 0,
        preview_index: 0,
        body_line_index: None,
        preview_x_offset_columns: 0,
        preview_y_offset_rows: y_offset,
        preview_width: 20,
        preview_height: 10,
        visible_preview_height: 10,
        top_clip_rows: 0,
        accent_color: None,
        show_play_marker: false,
        message_id,
        url: "https://cdn.discordapp.com/image.png".to_owned(),
        filename: "image.png".to_owned(),
    }
}

fn image_preview_target() -> ImagePreviewTarget {
    preview_target(1, 0)
}

fn fingerprint(visible_height: u16, top_clip_rows: u16, circular: bool) -> AvatarFingerprint {
    AvatarFingerprint { visible_height, top_clip_rows, circular }
}

// ---- Placements ----

#[test]
fn avatar_change_keeps_message_preview_unchanged() {
    let target = preview_target(1, 0);
    let mut previous = FramePlacements::default();
    previous.insert_preview(&target, Rect::new(10, 5, 20, 10));
    previous.insert_avatar("avatar".to_owned(), 4, fingerprint(3, 0, false));

    // Either scrolling or changing the mask requires clearing only the avatar.
    for (row, circular) in [(3, false), (4, true)] {
        let mut current = FramePlacements::default();
        current.insert_preview(&target, Rect::new(10, 5, 20, 10));
        current.insert_avatar("avatar".to_owned(), row, fingerprint(3, 0, circular));

        let diff = current.diff(&previous);
        assert!(diff.need_clear);
        assert!(has_fragment(&diff.unchanged_previews, &target.fragment_key()));
        assert!(!has_avatar(&diff.unchanged_avatars, "avatar", row));
    }
}

#[test]
fn placement_diff_tracks_preview_lifecycle() {
    let target = preview_target(1, 0);
    let mut previous = FramePlacements::default();
    previous.insert_preview(&target, Rect::new(10, 5, 20, 10));
    previous.insert_avatar("avatar".to_owned(), 4, fingerprint(3, 0, false));

    for (name, rect, keep_avatar, need_clear, preview_unchanged) in [
        ("vertical scroll", Some(Rect::new(10, 3, 20, 10)), false, true, false),
        ("identical frame", Some(Rect::new(10, 5, 20, 10)), true, false, true),
        ("removed preview", None, false, true, false),
    ] {
        let mut current = FramePlacements::default();
        if let Some(rect) = rect {
            current.insert_preview(&target, rect);
        }
        if keep_avatar {
            current.insert_avatar("avatar".to_owned(), 4, fingerprint(3, 0, false));
        }

        let diff = current.diff(&previous);
        assert_eq!(diff.need_clear, need_clear, "{name}");
        assert_eq!(
            has_fragment(&diff.unchanged_previews, &target.fragment_key()),
            preview_unchanged,
            "{name}"
        );
        if rect.is_none() {
            assert!(diff.unchanged_previews.is_empty(), "{name}");
        }
        if keep_avatar {
            assert!(has_avatar(&diff.unchanged_avatars, "avatar", 4), "{name}");
            assert!(diff.popup_avatar_unchanged, "{name}");
        }
    }
}

#[test]
fn split_preview_fragments_are_tracked_independently() {
    let top = ImagePreviewTarget { visible_preview_height: 3, ..preview_target(1, 0) };
    let bottom = ImagePreviewTarget {
        preview_y_offset_rows: 6,
        visible_preview_height: 4,
        top_clip_rows: 6,
        ..preview_target(1, 0)
    };
    assert_eq!(top.key(), bottom.key());
    assert_ne!(top.fragment_key(), bottom.fragment_key());

    let mut previous = FramePlacements::default();
    previous.insert_preview(&top, Rect::new(10, 5, 20, 3));
    previous.insert_preview(&bottom, Rect::new(10, 11, 20, 4));

    let mut current = FramePlacements::default();
    current.insert_preview(&top, Rect::new(10, 5, 20, 3));
    current.insert_preview(&bottom, Rect::new(10, 10, 20, 4));

    let diff = current.diff(&previous);
    assert!(diff.need_clear);
    assert!(has_fragment(&diff.unchanged_previews, &top.fragment_key()));
    assert!(!has_fragment(&diff.unchanged_previews, &bottom.fragment_key()));
}

// ---- Redrawing ----

#[test]
fn redraw_plan_synchronizes_media_animation_and_placement_cleanup() {
    let cases = [
        ("static redraw", false, false, RedrawPlan { clear_stale_media: false, synchronized: false }),
        ("placement cleanup", true, false, RedrawPlan { clear_stale_media: true, synchronized: true }),
        ("media animation", false, true, RedrawPlan { clear_stale_media: false, synchronized: true }),
        (
            "animation with placement cleanup",
            true,
            true,
            RedrawPlan { clear_stale_media: true, synchronized: true },
        ),
    ];

    for (label, clear_stale_media, animated_media_advanced, expected) in cases {
        let mut state = DashboardRedrawState::default();
        if animated_media_advanced {
            state.request_media_animation();
        }

        assert_eq!(state.take_plan(clear_stale_media), expected, "{label}");
        assert_eq!(
            state.take_plan(false),
            RedrawPlan { clear_stale_media: false, synchronized: false },
            "{label} should consume the pending animation redraw"
        );
    }
}

fn empty_view() -> ViewParts {
    ViewParts {
        selection: SelectionParts {
            message_pane_source: String::new(),
            selected_guild: String::new(),
            selected_channel: String::new(),
            active_popup: String::new(),
            toast: String::new(),
        },
        header: HeaderParts {
            current_user: String::new(),
            voice_self_status: String::new(),
            voice_connection_label: String::new(),
            update_version: String::new(),
            stream_info: String::new(),
        },
        messages: MessagePaneParts {
            visible_messages: String::new(),
            selected_message: String::new(),
            thread_cards: String::new(),
            typing_footer: String::new(),
            composer_lock: String::new(),
            new_messages: 0,
        },
        direct_message_unread: 0,
        guilds: Vec::new(),
        channels: Vec::new(),
        members: Vec::new(),
        member_scroll: 0,
        member_height: 0,
        popups: PopupParts {
            attachment_viewer: String::new(),
            profile: String::new(),
            profile_status: String::new(),
            profile_load_error: String::new(),
            profile_avatar_url: String::new(),
            profile_activities: String::new(),
            profile_activity_rows: String::new(),
            attachment_downloads: String::new(),
            reaction_users: String::new(),
            existing_reactions: String::new(),
            own_reactions: String::new(),
            reaction_items: String::new(),
            poll_items: String::new(),
            mention_candidates: String::new(),
            emoji_candidates: String::new(),
            command_candidates: String::new(),
        },
        options_open: false,
        option_items: String::new(),
        search: String::new(),
        forum_loading: false,
        inbox: None,
    }
}

/// A dashboard with what it shows, as far as events change it.
struct Shown {
    state: DashboardState,
    content: PaneContent,
    actions: Vec<UiAction>,
    channels: Vec<ChannelRowParts>,
    search: Vec<u64>,
    history: String,
    streams: Vec<u64>,
}

impl Shown {
    fn new() -> Shown {
        Shown {
            state: DashboardState::new(),
            content: content(vec![4, 5]),
            actions: Vec::new(),
            channels: Vec::new(),
            search: Vec::new(),
            history: String::new(),
            streams: Vec::new(),
        }
    }

    fn push(&mut self, event: AppEvent, referenced: Option<u64>) {
        let lists = PaneLists {
            guild_rows: 2,
            channel_selectable: vec![true],
            channel_rows: vec![ChannelPaneRow::Entry { entry_index: 0 }],
            member_groups: Vec::new(),
            content: content(self.content.ids.clone()),
        };
        let facts = EventFacts {
            user_just_sent: false,
            new_message: None,
            channel_cursor: None,
            supports_follow: false,
            referenced,
            active: ActiveFacts {
                guild_known: true,
                channel: Some(ActiveChannel { guild_id: None, is_category: false, viewable: true }),
            },
        };
        self.history = match &event {
            AppEvent::MessageHistoryLoaded { .. } => "loaded".to_owned(),
            AppEvent::MessageHistoryLoadFailed { message, .. } => message.clone(),
            _ => self.history.clone(),
        };
        let outcome = self.state.push_event(event, &self.content, &Vec::new(), &lists, facts);
        self.actions = outcome.actions;
    }

    fn view(&self) -> ViewParts {
        let mut view = empty_view();
        view.header.current_user = format!("{:?}", self.state.current_user());
        view.header.update_version = format!("{:?}", self.state.update_available_version());
        view.header.stream_info = format!("{:?}", self.streams);
        view.selection.selected_channel = format!("{:?}", self.state.selected_channel_id());
        view.selection.toast = format!("{:?}", self.actions);
        let selected = self.state.selected_message(&self.content);
        view.messages.selected_message = format!("{:?}", self.content.ids.get(selected));
        view.messages.composer_lock = self.history.clone();
        view.options_open = true;
        view.option_items = format!("{:?}{:?}", self.state.events.audio_inputs, self.state.events.audio_outputs);
        view.search = format!("{:?}", self.search);
        view.channels = self
            .channels
            .iter()
            .map(|row| match row {
                ChannelRowParts::Activity { activity } => ChannelRowParts::Activity { activity: activity.clone() },
                ChannelRowParts::Entry { entry, .. } => ChannelRowParts::Entry { entry: entry.clone(), unread: None },
            })
            .collect();
        view
    }
}

fn content(ids: Vec<u64>) -> PaneContent {
    PaneContent {
        heights: ids.iter().map(|_| 2).collect(),
        new_day: ids.iter().map(|_| false).collect(),
        ids,
        forum: false,
        cards: Vec::new(),
        card_labels: Vec::new(),
        pinned: false,
        focused: true,
    }
}

fn assert_signature_changes(label: &str, shown: &mut Shown, change: impl FnOnce(&mut Shown)) {
    let before = view_signature(&shown.view());
    change(shown);
    assert_ne!(before, view_signature(&shown.view()), "{label}");
}

#[test]
fn view_signature_tracks_background_visible_state() {
    let mut shown = Shown::new();
    assert_eq!(view_signature(&shown.view()), view_signature(&shown.view()));
    assert_signature_changes("update banner", &mut shown, |shown| {
        shown.push(AppEvent::UpdateAvailable { latest_version: "9.9.9".to_owned() }, None);
    });
    assert_signature_changes("message search results", &mut shown, |shown| {
        shown.search = vec![30];
    });

    let mut shown = Shown::new();
    shown.state.activate_guild(ActiveGuildScope::DirectMessages);
    shown.state.navigation.active_channel_id = Some(20);
    assert_signature_changes("message history loaded", &mut shown, |shown| {
        shown.push(
            AppEvent::MessageHistoryLoaded { channel_id: 20, before: None, messages: Vec::new() },
            None,
        );
    });
    assert_signature_changes("message history failed", &mut shown, |shown| {
        shown.push(
            AppEvent::MessageHistoryLoadFailed {
                channel_id: 20,
                target: MessageHistoryLoadTarget::Latest,
                message: "offline".to_owned(),
            },
            None,
        );
    });
    shown.state.navigation.viewport.selected_message = 0;
    assert_signature_changes("referenced message selection", &mut shown, |shown| {
        shown.push(AppEvent::MessageHistoryLoaded { channel_id: 20, before: None, messages: Vec::new() }, Some(5));
    });

    let mut shown = Shown::new();
    assert_signature_changes("toast", &mut shown, |shown| {
        shown.push(AppEvent::CaptchaRequired { action: "send a message".to_owned() }, None);
    });
    let mut shown = Shown::new();
    shown.state.events.audio_sources_request = Some(7);
    assert_signature_changes("voice audio sources", &mut shown, |shown| {
        shown.push(
            AppEvent::VoiceAudioSourcesLoaded {
                request_id: 7,
                inputs: vec!["Desk microphone".to_owned()],
                outputs: vec!["Headphones".to_owned()],
                error: None,
            },
            None,
        );
    });
    assert_signature_changes("visible DM activity", &mut shown, |shown| {
        shown.channels = vec![ChannelRowParts::Activity { activity: "Game A".to_owned() }];
    });
    assert_signature_changes("visible DM activity", &mut shown, |shown| {
        shown.channels = vec![ChannelRowParts::Activity { activity: "Game B".to_owned() }];
    });
    assert_signature_changes("stream viewer list", &mut shown, |shown| {
        shown.streams = vec![100];
    });
}

#[test]
fn numbers_are_told_apart() {
    let counts = |new_messages, direct_message_unread| {
        let mut view = empty_view();
        view.messages.new_messages = new_messages;
        view.direct_message_unread = direct_message_unread;
        view_signature(&view)
    };
    assert_ne!(counts(1, 23), counts(12, 3));
    assert_eq!(counts(1, 23), counts(1, 23));
    let search = |text: &str, toast: &str| {
        let mut view = empty_view();
        view.selection.toast = toast.to_owned();
        view.header.current_user = text.to_owned();
        view_signature(&view)
    };
    assert_ne!(search("b", "a"), search("", "ab"));
}

#[test]
fn members_off_screen_do_not_change_the_signature() {
    let member = |name: &str| MemberParts {
        user_id: 1,
        display_name: name.to_owned(),
        username: None,
        is_bot: false,
        status: "Online".to_owned(),
    };
    let mut view = empty_view();
    view.member_height = 1;
    view.members = vec![member("a"), member("b")];
    let before = view_signature(&view);
    view.members[1] = member("c");
    assert_eq!(view_signature(&view), before);
    view.members[0] = member("d");
    assert_ne!(view_signature(&view), before);
}

#[test]
fn the_inbox_is_part_of_the_signature() {
    let mut view = empty_view();
    let before = view_signature(&view);
    view.inbox = Some(InboxParts {
        tab: NotificationInboxTab::Unread,
        items: String::new(),
        mentions_status: String::new(),
        unread_mentions: 0,
        loading: false,
    });
    assert_ne!(view_signature(&view), before);
}

// ---- Events ----

fn message_info(guild_id: u64, channel_id: u64, message_id: u64, author_id: u64) -> MessageInfo {
    MessageInfo { guild_id: Some(guild_id), channel_id, message_id, author_id, nonce: None }
}

#[test]
fn effect_waits_until_snapshot_revision_catches_up() {
    let mut state = EventUiState::new();
    let mut deferred_effects = VecDeque::new();

    let ready = process_sequenced_effect(
        SequencedAppEvent {
            revision: 2,
            event: AppEvent::Ready { user: "tester".to_owned(), user_id: None },
        },
        1,
        &mut deferred_effects,
    );
    assert!(ready.is_none());

    assert_eq!(deferred_effects.len(), 1);
    assert_eq!(state.current_user.as_deref(), None);

    for event in process_deferred_effects(2, &mut deferred_effects) {
        state.apply_event_ui_effects(event);
    }

    assert!(deferred_effects.is_empty());
    assert_eq!(state.current_user.as_deref(), Some("tester"));
}

#[test]
fn deferred_events_keep_their_order() {
    let mut deferred = VecDeque::new();
    for revision in [5, 2, 4] {
        deferred.push_back(SequencedAppEvent { revision, event: AppEvent::GatewayResumed });
    }
    let ready = process_deferred_effects(2, &mut deferred);
    assert_eq!(ready.len(), 1);
    let left: Vec<u64> = deferred.iter().map(|entry| entry.revision).collect();
    assert_eq!(left, vec![5, 4]);
}

#[test]
fn events_carrying_unloaded_authors_enqueue_a_member_request() {
    let guild_id = 1;
    let channel_id = 2;
    let author_id = 99;
    let message_id = 20;
    let message = || message_info(guild_id, channel_id, message_id, author_id);

    let cases = [
        ("live message", AppEvent::MessageCreate { message: message() }),
        (
            "message history",
            AppEvent::MessageHistoryLoaded { channel_id, before: None, messages: vec![message()] },
        ),
        (
            "inbox mentions",
            AppEvent::InboxMentionsLoaded {
                request_id: 1,
                before: None,
                messages: vec![message()],
                has_more: false,
            },
        ),
        (
            "inbox channel messages",
            AppEvent::InboxChannelMessagesLoaded { request_id: 1, channel_id, messages: vec![message()] },
        ),
        (
            "reaction user",
            AppEvent::ReactionUsersLoaded {
                channel_id,
                message_id,
                emoji: ReactionEmoji::Unicode("👍".to_owned()),
                users: vec![ReactionUserInfo { user_id: author_id, display_name: "unknown".to_owned() }],
                next_after: None,
                after: None,
            },
        ),
        (
            "updated message mention",
            AppEvent::MessageUpdateDispatch {
                channel_id,
                guild_id: Some(guild_id),
                mentions: Some(vec![author_id]),
            },
        ),
    ];

    for (label, event) in cases {
        // No member is loaded, and the channel belongs to the guild.
        let surfaced: Vec<MemberRequest> = users_surfaced_by(&event)
            .iter()
            .map(|user| {
                assert_eq!(user.channel_id, channel_id, "{label}");
                MemberRequest { guild_id: user.guild_id.unwrap_or(guild_id), user_ids: vec![user.user_id] }
            })
            .collect();
        assert_eq!(
            missing_members_for_effect(surfaced, Vec::new()),
            vec![MemberRequest { guild_id, user_ids: vec![author_id] }],
            "{label}"
        );
    }
}

#[test]
fn whoever_is_visible_comes_before_the_background() {
    let visible = MemberRequest { guild_id: 1, user_ids: vec![9_999] };
    let background = MemberRequest { guild_id: 1, user_ids: vec![1_000] };
    let all = missing_members_for_effect(vec![visible], vec![background]);
    assert_eq!(all[0].user_ids, vec![9_999]);
    assert_eq!(all[1].user_ids, vec![1_000]);
}

#[test]
fn gateway_reconnect_events_enqueue_selected_channel_catch_up() {
    let guild_id = 1;
    let channel_id = 2;
    let mut state = DashboardState::new();
    state.activate_guild(ActiveGuildScope::Guild(guild_id));
    state.navigation.active_channel_id = Some(channel_id);
    let loaded = content(vec![20]);

    for event in [AppEvent::GatewayResumed, AppEvent::GatewayReidentified] {
        let reidentified = matches!(event, AppEvent::GatewayReidentified);
        let subscription = channel_subscription_command(ChannelKind::Text, Some(guild_id), channel_id);
        let catch_up = state.selected_message_history_catch_up_command(false, &loaded);
        let effects = push_dashboard_effect(event, subscription, catch_up);

        let mut expected = Vec::new();
        if reidentified {
            expected.push(AppCommand::SubscribeGuildChannel { guild_id, channel_id });
        }
        expected.push(AppCommand::LoadMessageHistoryAfter {
            channel_id,
            after: 20,
            mode: MessageHistoryAfterMode::CatchUp,
        });
        assert_eq!(effects.commands, expected);
    }
    assert_eq!(state.selected_message_history_catch_up_command(false, &content(Vec::new())), None);
    assert_eq!(state.selected_message_history_catch_up_command(true, &loaded), None);
}

#[test]
fn signed_out_effect_marks_dashboard_for_sign_out() {
    let mut state = DashboardState::new();
    let effects = push_dashboard_effect(AppEvent::SignedOut, None, None);
    assert_eq!(effects.effect, DashboardEffect::SignOut);
    state.take_effect(&effects.effect);
    assert!(state.should_quit());
    assert!(state.should_sign_out());
}

#[test]
fn a_closed_connection_ends_the_dashboard() {
    let mut state = DashboardState::new();
    let effects = push_dashboard_effect(AppEvent::GatewayResumed, None, None);
    state.take_effect(&effects.effect);
    assert!(!state.should_quit());
    let closed = push_dashboard_effect(AppEvent::GatewayClosed, None, None);
    assert_eq!(closed.effect, DashboardEffect::Close);
    state.take_effect(&closed.effect);
    assert!(state.should_quit());
    assert!(!state.should_sign_out());
}

#[test]
fn some_events_force_a_frame() {
    assert!(effect_forces_redraw(&AppEvent::GatewayClosed));
    assert!(!effect_forces_redraw(&AppEvent::CurrentUserVerification));
    let outcome = processed_outcome(&vec![AppEvent::CurrentUserVerification, AppEvent::GatewayResumed]);
    assert!(outcome.processed_event);
    assert!(outcome.force_redraw);
    assert!(!processed_outcome(&Vec::new()).processed_event);
}

#[test]
fn sounds_are_those_the_user_chose() {
    let sounds = NotificationSounds {
        voice_join_sound: Some("join.wav".to_owned()),
        voice_leave_sound: None,
        notification_sound: None,
    };
    assert_eq!(voice_sound_path(VoiceSoundKind::Join, &sounds).as_deref(), Some("join.wav"));
    assert_eq!(voice_sound_path(VoiceSoundKind::Leave, &sounds), None);
    assert_eq!(voice_sound_path(VoiceSoundKind::StreamStart, &sounds), None);
    assert_eq!(macos_terminal_app_name("iTerm.app"), Some("iTerm"));
    assert_eq!(macos_terminal_app_name("kitty"), None);
}

// ---- Animations ----

#[test]
fn klipy_preview_ignores_stale_results_and_drops_work_on_close() {
    let key = |generation| PreviewKey {
        generation,
        url: "https://static.klipy.com/a.gif".to_owned(),
        width: 20,
        height: 10,
    };
    let mut runtime: KlipyRuntime<()> = KlipyRuntime::new();
    runtime.preview_key = Some(key(2));
    assert!(!runtime.store_preview(&key(1), Err("old".to_owned())));
    assert!(runtime.preview.is_none());
    assert!(runtime.store_preview(&key(2), Err("current".to_owned())));
    assert!(matches!(&runtime.preview, Some(Err(message)) if message == "current"));
    let actions = runtime.sync(None, true, Rect::new(0, 0, 100, 30));
    assert!(actions.cancel_preview);
    assert!(runtime.preview.is_none());
    assert!(runtime.preview_key.is_none());
    assert!(!runtime.store_preview(&key(2), Err("late".to_owned())));
}

#[test]
fn searches_begin_once_per_generation() {
    let view = |generation| {
        Some(GifPickerView {
            generation,
            query: "cat".to_owned(),
            page: 1,
            selected_preview_url: Some("u".to_owned()),
        })
    };
    let mut runtime: KlipyRuntime<u8> = KlipyRuntime::new();
    let first = runtime.sync(view(1), true, Rect::new(0, 0, 4, 3));
    assert_eq!(first.start_search.expect("a search begins").query, "cat");
    let key = first.start_preview.expect("a preview begins");
    assert!(runtime.sync(view(1), true, Rect::new(0, 0, 4, 3)).start_search.is_none());
    assert!(runtime.store_preview(&key, Ok(7)));
    assert_eq!(runtime.placement().as_deref(), Some("1:u"));
    assert!(runtime.sync(view(2), false, Rect::new(0, 0, 4, 3)).start_preview.is_none());
    assert_eq!(runtime.placement(), None);
}

// ---- Images ----

fn targets_of(previews: Vec<ImagePreviewTarget>) -> MediaTargets {
    MediaTargets { previews, avatars: Vec::new(), avatar_sources: Vec::new(), emojis: Vec::new() }
}

fn load(url: &str) -> AppCommand {
    AppCommand::LoadAttachmentPreview { url: url.to_owned() }
}

fn failed(url: &str) -> AppEvent {
    AppEvent::AttachmentPreviewLoadFailed { url: url.to_owned(), message: "download failed".to_owned() }
}

#[test]
fn new_previews_share_downloads_and_join_decodes_already_in_progress() {
    let mut runtime = DashboardMediaRuntime::new();
    let url = image_preview_target().url;
    assert_eq!(runtime.sources.resolve_source_command(&load(&url), false, 1, false), SourceDecision::Load);
    assert_eq!(runtime.sources.resolve_source_command(&load(&url), false, 1, false), SourceDecision::Wait);
    assert_eq!(runtime.sources.len(), 1);

    assert_eq!(runtime.sources.resolve_source_command(&load(&url), false, 1, true), SourceDecision::Join);
    assert_eq!(runtime.sources.len(), 1);
    runtime.store_media_decode(&url, false);
    assert_eq!(runtime.sources.len(), 0);
}

#[test]
fn cache_hits_request_redraw_without_new_downloads_or_decodes() {
    let mut runtime = DashboardMediaRuntime::new();
    let url = image_preview_target().url;
    assert_eq!(runtime.sources.resolve_source_command(&load(&url), false, 1, false), SourceDecision::Load);
    runtime.store_media_decode(&url, false);

    for decoded in [true, false] {
        let places = ImagePlaces { decoded, previews: true, avatars: false, emojis: false };
        assert!(reuse_cached_source(places, None).is_some());
        let decision = runtime.sources.resolve_source_command(&load(&url), true, 1, false);
        assert_eq!(decision, SourceDecision::Reuse { redraw: true });
        assert!(decision_needs_frame(decision), "cache hits need a frame to prepare their protocols");
        assert_eq!(runtime.sources.len(), 0);
    }
}

#[test]
fn ready_avatar_source_hydrates_an_exact_url_preview_before_draw() {
    let places = ImagePlaces { decoded: false, previews: false, avatars: true, emojis: false };
    assert_eq!(reuse_cached_source(places, Some(ImagePlace::Previews)), Some(ImagePlace::Avatars));
    assert_eq!(reuse_cached_source(places, Some(ImagePlace::Avatars)), None);
}

#[test]
fn returning_preview_joins_a_running_decode_after_hidden_state_is_removed() {
    let mut runtime = DashboardMediaRuntime::new();
    let url = image_preview_target().url;
    assert_eq!(runtime.sources.resolve_source_command(&load(&url), false, 1, false), SourceDecision::Load);
    let decision = runtime.sources.resolve_source_command(&load(&url), false, 1, true);
    assert_eq!(decision, SourceDecision::Join);
    assert!(!decision_needs_frame(decision), "running decodes attach without a ready delivery");
    assert!(runtime.sources.contains(&url));
}

#[test]
fn fetched_source_without_a_live_consumer_is_discarded_before_decode() {
    let mut runtime = DashboardMediaRuntime::new();
    let target = image_preview_target();
    let url = target.url.clone();
    runtime.targets = targets_of(vec![target]);
    assert_eq!(runtime.sources.resolve_source_command(&load(&url), false, 1, false), SourceDecision::Load);
    runtime.targets = targets_of(Vec::new());

    let step = runtime.record_event(&AppEvent::AttachmentPreviewLoaded { url: url.clone(), bytes: vec![1, 2, 3] });

    assert_eq!(step, MediaEventStep::Discard);
    assert_eq!(runtime.sources.len(), 0);
    assert_eq!(
        runtime.sources.resolve_source_command(&load(&url), false, 1, false),
        SourceDecision::Load,
        "returning target can request the discarded source again"
    );
}

#[test]
fn busy_decode_releases_its_source_slot_after_consumers_retire() {
    let mut runtime = DashboardMediaRuntime::new();
    let target = image_preview_target();
    let url = target.url.clone();
    runtime.targets = targets_of(vec![target]);
    assert_eq!(runtime.sources.resolve_source_command(&load(&url), false, 1, false), SourceDecision::Load);
    runtime.targets = targets_of(Vec::new());
    runtime.retire(&Vec::new());
    assert!(runtime.sources.contains(&url), "running decode remains owned");

    runtime.store_media_decode(&url, false);

    assert_eq!(runtime.sources.len(), 0);
}

#[test]
fn source_limit_covers_downloads_and_busy_decodes_without_queuing_hidden_work() {
    let mut runtime = DashboardMediaRuntime::new();
    let urls: Vec<String> = (1..=10).map(|id| format!("https://cdn.discordapp.com/{id}.png")).collect();
    let mut commands = 0;
    for url in &urls {
        if runtime.sources.resolve_source_command(&load(url), false, 1, false) == SourceDecision::Load {
            commands += 1;
        }
    }
    assert_eq!(commands, MAX_ACTIVE_MEDIA_SOURCES);
    runtime.store_media_decode(&urls[0], true);
    assert_eq!(runtime.sources.len(), MAX_ACTIVE_MEDIA_SOURCES);
    for url in &urls[8..] {
        assert_eq!(
            runtime.sources.resolve_source_command(&load(url), false, 1, false),
            SourceDecision::Defer
        );
    }

    runtime.store_media_decode(&urls[0], false);
    let newly_visible = "https://cdn.discordapp.com/11.png";
    assert_eq!(
        runtime.sources.resolve_source_command(&load(newly_visible), false, 1, false),
        SourceDecision::Load
    );
    assert!(runtime.sources.contains(newly_visible));
    assert!(!runtime.sources.contains(&urls[8]));
    assert!(!runtime.sources.contains(&urls[9]));
}

#[test]
fn failed_sources_release_their_work_slot() {
    for decode_failed in [false, true] {
        let mut runtime = DashboardMediaRuntime::new();
        let url = image_preview_target().url;
        assert_eq!(runtime.sources.resolve_source_command(&load(&url), false, 1, false), SourceDecision::Load);
        if decode_failed {
            runtime.store_media_decode(&url, false);
        } else {
            assert_eq!(runtime.record_event(&failed(&url)), MediaEventStep::Record);
        }
        assert_eq!(runtime.sources.len(), 0);
    }
}

#[test]
fn viewer_resize_clears_old_position_even_when_preview_size_stays_the_same() {
    let target = || ImagePreviewTarget { viewer: true, ..image_preview_target() };
    let areas = |x| FrameAreas {
        previews: vec![Some(Rect::new(x, 10, 20, 10))],
        popup_avatar: None,
        circular_avatars: false,
    };
    let mut runtime = DashboardMediaRuntime::new();
    runtime.prepare_frame(targets_of(vec![target()]), None, &areas(30));
    runtime.commit_placements();
    runtime.prepare_frame(targets_of(vec![target()]), None, &areas(40));

    assert!(runtime.placement_diff.need_clear);
    assert!(!has_fragment(&runtime.placement_diff.unchanged_previews, &target().fragment_key()));
    assert!(runtime.need_clear(false));
    assert!(!runtime.need_clear(true));
    assert!(runtime.unchanged_previews().is_empty());

    runtime.commit_placements();
    runtime.prepare_frame(targets_of(vec![target()]), None, &areas(40));
    assert!(!runtime.need_clear(false));
    assert_eq!(runtime.unchanged_previews().len(), 1);
}

#[test]
fn fetch_retry_deadlines_wait_for_visible_targets_and_source_capacity() {
    let mut runtime = DashboardMediaRuntime::new();
    let url = image_preview_target().url;
    assert_eq!(runtime.sources.resolve_source_command(&load(&url), false, 1, false), SourceDecision::Load);
    runtime.record_event(&failed(&url));
    assert!(runtime.next_retry_deadline(None, None, None).is_none(), "offscreen failures stay idle");
    let deadline = 3_000;
    assert_eq!(runtime.next_retry_deadline(Some(deadline), None, None), Some(deadline));
    for i in 0..MAX_ACTIVE_MEDIA_SOURCES {
        runtime.sources.resolve_source_command(&load(&format!("active-{i}")), false, 1, false);
    }
    assert!(
        runtime.next_retry_deadline(Some(deadline), None, None).is_none(),
        "full source capacity must not spin on a due timer"
    );
    runtime.sources.release("active-0");
    assert_eq!(runtime.next_retry_deadline(Some(deadline), None, None), Some(deadline));
    assert_eq!(next_deadline(Some(9), Some(4), Some(7)), Some(4));
}

#[test]
fn image_target_slices_keep_visible_rows_above_bottom_overlay() {
    let slices = visible_image_target_slices(
        &image_preview_target(),
        Rect::new(10, 2, 20, 10),
        &[Rect::new(0, 8, 80, 4)],
    );

    assert_eq!(slices.len(), 1);
    assert_eq!(slices[0].preview_y_offset_rows, 0);
    assert_eq!(slices[0].top_clip_rows, 0);
    assert_eq!(slices[0].visible_preview_height, 6);
}

#[test]
fn image_target_slices_keep_rows_around_middle_overlay() {
    let slices = visible_image_target_slices(
        &image_preview_target(),
        Rect::new(10, 2, 20, 10),
        &[Rect::new(0, 5, 80, 3)],
    );

    assert_eq!(slices.len(), 2);
    assert_eq!(slices[0].preview_y_offset_rows, 0);
    assert_eq!(slices[0].top_clip_rows, 0);
    assert_eq!(slices[0].visible_preview_height, 3);
    assert_eq!(slices[1].preview_y_offset_rows, 6);
    assert_eq!(slices[1].top_clip_rows, 6);
    assert_eq!(slices[1].visible_preview_height, 4);
}

#[test]
fn previews_without_a_place_are_not_clipped() {
    let clipped = clip_image_preview_targets_for_occlusions(
        vec![image_preview_target(), preview_target(2, 0)],
        &[Some(Rect::new(10, 2, 20, 10)), None],
        &[Rect::new(0, 0, 80, 30)],
    );
    assert!(clipped.iter().all(|target| target.message_id != 1));
}

#[test]
fn decoded_images_go_to_what_still_shows_them() {
    let targets = targets_of(vec![image_preview_target()]);
    let live = MediaImageDecodeRequest {
        key: MediaImageDecodeKey::Preview(image_preview_target().key()),
        generation: 1,
    };
    let gone = MediaImageDecodeRequest { key: MediaImageDecodeKey::Emoji("x".to_owned()), generation: 1 };
    assert!(targets.keeps_request(&live, true));
    let kept = targets.live_requests(vec![gone, live]);
    assert_eq!(kept.len(), 1);
    assert!(matches!(kept[0].key, MediaImageDecodeKey::Preview(_)));
    assert_eq!(targets.visible_urls(), vec!["https://cdn.discordapp.com/image.png"]);
}

#[test]
fn small_media_facts() {
    assert_eq!(
        resolve_popup_avatar_url(true, Some("new".to_owned()), Some("old".to_owned())).as_deref(),
        Some("new")
    );
    assert_eq!(resolve_popup_avatar_url(false, Some("new".to_owned()), None), None);
    assert_eq!(check_upload_preview_size(5, 10), Ok(()));
    assert_eq!(
        check_upload_preview_size(11, 10),
        Err("attachment preview is too large: 11 bytes".to_owned())
    );
    assert_eq!(live_media_bytes(1, 2, 3, 4), 10);
    assert_eq!(resident_kib("100 25 3"), Some(100));
    assert_eq!(resident_kib("100"), None);
    assert_eq!(resident_kib("100 x"), None);
}

#[test]
fn images_whose_cells_are_intact_are_sent_once() {
    let area = Rect::new(0, 0, 4, 2);
    let image = Rect::new(1, 0, 2, 2);
    let mut cells = Vec::new();
    for _ in 0..8 {
        cells.push(ImageCell { skip: false, symbol_len: 1 });
    }
    let mut grid = CellGrid { area, cells };
    let mut tracker = ImageEmissionTracker::default();
    tracker.begin_frame(area);
    assert_eq!(tracker.decide(image, 7), Decision::Render);
    // The image is drawn: a long symbol stands in its first cell, and the others are skipped.
    grid.cells[1] = ImageCell { skip: false, symbol_len: 500 };
    grid.cells[2] = ImageCell { skip: true, symbol_len: 1 };
    grid.cells[5] = ImageCell { skip: true, symbol_len: 1 };
    grid.cells[6] = ImageCell { skip: true, symbol_len: 1 };
    tracker.end_frame(&grid);

    tracker.begin_frame(area);
    assert_eq!(tracker.decide(image, 7), Decision::Skip);
    assert_eq!(tracker.decide(image, 8), Decision::Render);
    tracker.invalidate();
    assert_eq!(tracker.decide(image, 7), Decision::Render);
}

// ---- Requests ----

fn nothing_due() -> DueRequests {
    DueRequests {
        autocomplete_search: None,
        popup_search: None,
        message_history: None,
        message_history_is_stale: false,
        pinned_messages: None,
        archived_threads: None,
        forum_post_data: None,
        thread_previews: Vec::new(),
        member_list: None,
    }
}

#[test]
fn member_search_surfaces_schedule_independent_limits() {
    let mut scheduler = DashboardCommandScheduler::default();
    let guild_id = 1;
    scheduler.report_active_selection(Some(guild_id), None);
    let mut due = nothing_due();
    due.autocomplete_search = Some(MemberSearch { guild_id, query: "alice".to_owned(), limit: 10 });
    due.popup_search = Some(MemberSearch { guild_id, query: "a".to_owned(), limit: 100 });
    assert_eq!(
        scheduler.schedule_state_driven_commands(Some(guild_id), None, due),
        vec![
            AppCommand::SearchGuildMembers { guild_id, query: "alice".to_owned(), limit: 10 },
            AppCommand::SearchGuildMembers { guild_id, query: "a".to_owned(), limit: 100 },
        ]
    );
}

#[test]
fn selections_are_reported_when_they_change() {
    let mut scheduler = DashboardCommandScheduler::default();
    assert_eq!(
        scheduler.report_active_selection(Some(1), Some(2)),
        vec![
            AppCommand::SetSelectedGuild { guild_id: Some(1) },
            AppCommand::SetSelectedMessageChannel { channel_id: Some(2) },
        ]
    );
    assert_eq!(scheduler.report_active_selection(Some(1), Some(2)), Vec::new());
    assert_eq!(
        scheduler.report_active_selection(Some(1), None),
        vec![AppCommand::SetSelectedMessageChannel { channel_id: None }]
    );
}

#[test]
fn requests_that_cannot_be_sent_are_given_back() {
    let command = AppCommand::LoadThreadPreview { channel_id: 1, message_id: 2 };
    assert_eq!(failed_request(command), Some(FailedRequest::ThreadPreview { channel_id: 1, message_id: 2 }));
    assert_eq!(failed_request(AppCommand::SetSelectedGuild { guild_id: None }), None);
}
