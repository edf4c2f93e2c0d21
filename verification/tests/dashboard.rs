use concord::discord::{
    AppCommand, AppEvent, MessageInfo, ReactionUserInfo, ReactionUsersInfo, VoiceConnectionStatus, VoiceScope,
};
use concord::message::poll::{PollAnswerInfo, PollInfo};
use concord::message::reactions::ReactionEmoji;
use concord::state::channel_pane::{ChannelKind, ChannelPaneRow};
use concord::state::channel_switcher::{ChannelSwitcherItem, ChannelUnreadState};
use concord::state::channel_text::TypingUser;
use concord::state::clipboard::{ClipboardPasteTarget, ClipboardState, PasteContext};
use concord::state::composer::{ComposerState, MentionPickerEntry};
use concord::state::dashboard::{DashboardState, PaneLists};
use concord::state::dashboard_channels::{
    can_attach_in_selected_channel, can_send_in_selected_channel, ActiveChannel, ActiveFacts, ChannelChoice,
    ChannelDetails, ChannelRights, EventFacts,
};
use concord::state::emoji::CustomEmojiInfo;
use concord::state::event_viewport::NewMessage;
use concord::state::events::{
    dm_becomes_established, interaction_failure_reason, slow_mode_after_self_message, CaptureRequest, EventUiState,
    Notice, ProfileState, SlowModeFacts, UiAction,
};
use concord::state::gif_picker::{Gif, GifConfirm, GifPage, GifPickerOpening, KlipyState, GIF_QUERY_LIMIT};
use concord::state::guilds::{guild_pane_entries, ActiveGuildScope, CollapsedFolders};
use concord::state::image_viewer::{to_ascii_lower, ViewerImage};
use concord::state::message_actions::{
    message_action_outcome, selected_message_action_items, ActionMessage, ActionReaction, MessageActionOutcome,
};
use concord::state::message_viewport::PaneContent;
use concord::state::model::{
    ChannelBranch, ChannelPaneEntry, EmojiReactionItem, FocusPane, GuildFolder, GuildPaneEntry, GuildState,
    MessageActionItem, MessageActionKind,
};
use concord::state::navigation::{ActivationEffects, ChannelFacts};
use concord::state::popups::{EmojiReactionPickerState, MessageActionMenuState, ReactionUsersPopupState};

fn content(ids: Vec<u64>) -> PaneContent {
    PaneContent {
        heights: ids.iter().map(|_| 2).collect(),
        new_day: ids.iter().map(|_| false).collect(),
        ids,
        forum: false,
        cards: Vec::new(),
        card_labels: Vec::new(),
        pinned: false,
        focused: true,
    }
}

fn lists(ids: Vec<u64>) -> PaneLists {
    PaneLists {
        guild_rows: 4,
        channel_selectable: vec![true, true, false, true],
        channel_rows: vec![
            ChannelPaneRow::Entry { entry_index: 0 },
            ChannelPaneRow::Activity { owner_entry_index: 0, recipient_id: 9 },
            ChannelPaneRow::Entry { entry_index: 1 },
            ChannelPaneRow::Entry { entry_index: 2 },
            ChannelPaneRow::Entry { entry_index: 3 },
        ],
        member_groups: vec![vec![true, false], vec![false]],
        content: content(ids),
    }
}

fn facts() -> ChannelFacts {
    ChannelFacts {
        known: true,
        is_forum: false,
        is_category: false,
        is_thread: false,
        last_acked_message_id: None,
        last_message_id: None,
    }
}

fn details() -> ChannelDetails {
    ChannelDetails {
        kind: ChannelKind::Text,
        guild_id: Some(1),
        parent_id: Some(5),
        facts: facts(),
        cold: true,
        stale: false,
    }
}

fn event_facts(new_message: Option<NewMessage>) -> EventFacts {
    EventFacts {
        user_just_sent: false,
        new_message,
        channel_cursor: None,
        supports_follow: true,
        referenced: None,
        active: ActiveFacts {
            guild_known: true,
            channel: Some(ActiveChannel { guild_id: Some(1), is_category: false, viewable: true }),
        },
    }
}

// ---- Panes ----

#[test]
fn focus_goes_through_the_panes() {
    let mut state = DashboardState::new();
    let mut seen = Vec::new();
    for _ in 0..5 {
        seen.push(state.focus());
        state.cycle_focus();
    }
    assert_eq!(
        seen,
        vec![
            FocusPane::Guilds,
            FocusPane::Channels,
            FocusPane::Messages,
            FocusPane::Members,
            FocusPane::Guilds
        ]
    );
    assert!(!state.should_quit());
    state.quit();
    assert!(state.should_quit());
}

#[test]
fn moves_stay_among_the_rows() {
    let lists = lists(vec![10, 11, 12]);
    let mut state = DashboardState::new();
    assert_eq!(state.selected_guild(&lists), 1);
    state.jump_bottom(&lists);
    state.move_down(&lists);
    assert_eq!(state.selected_guild(&lists), 3);
    assert_eq!(state.focused_guild_selection(&lists), Some(0));
    state.set_guild_view_height(&lists, 2);
    assert_eq!(state.visible_guild_pane_entries(&lists), (2, 4));
    state.half_page_up(&lists);
    assert_eq!(state.selected_guild(&lists), 2);
    state.jump_top(&lists);
    assert_eq!(state.selected_guild(&lists), 0);

    state.focus_pane(FocusPane::Channels);
    assert_eq!(state.focused_guild_selection(&lists), None);
    state.move_down(&lists);
    assert_eq!(state.selected_channel(&lists), 1);
    state.move_down(&lists);
    assert_eq!(state.selected_channel(&lists), 3);
    state.move_up(&lists);
    assert_eq!(state.selected_channel(&lists), 1);
    state.set_channel_view_height(&lists, 1);
    assert_eq!(state.channels.scroll, 2);

    state.focus_pane(FocusPane::Messages);
    state.move_up(&lists);
    assert!(!state.navigation.viewport.message_auto_follow);
    state.jump_bottom(&lists);
    assert_eq!(state.navigation.viewport.selected_message, 2);
    state.toggle_message_auto_follow(&lists.content);
    assert!(state.navigation.viewport.message_auto_follow);
}

#[test]
fn members_are_counted_in_lines() {
    let lists = lists(vec![10]);
    let mut state = DashboardState::new();
    state.focus_pane(FocusPane::Members);
    // Two headings, a gap, three members, and what one of them does.
    assert_eq!(state.member_line_count(&lists), 7);
    assert_eq!(state.focused_member_selection_line(&lists), Some(1));
    state.set_member_view_height(&lists, 4);
    state.half_page_down(&lists);
    assert_eq!(state.selected_member(&lists), 1);
    state.half_page_down(&lists);
    assert_eq!(state.selected_member(&lists), 2);
    state.move_down(&lists);
    assert_eq!(state.selected_member(&lists), 2);
    state.move_up(&lists);
    state.move_up(&lists);
    state.move_up(&lists);
    assert_eq!(state.selected_member(&lists), 0);
}

#[test]
fn categories_open_and_close() {
    let mut state = DashboardState::new();
    state.toggle_channel_category(Some(5));
    assert_eq!(state.collapsed_channel_categories, vec![5]);
    assert!(state.ui_state_save_pending);
    state.toggle_channel_category(Some(5));
    assert!(state.collapsed_channel_categories.is_empty());
    state.toggle_channel_category(None);
    assert!(state.collapsed_channel_categories.is_empty());
}

#[test]
fn older_messages_are_asked_for_at_the_first_one() {
    let mut state = DashboardState::new();
    let shown = content(vec![10, 11]);
    assert_eq!(state.next_older_history_command(&shown), None);
    state.navigation.active_channel_id = Some(7);
    state.focus_pane(FocusPane::Messages);
    let command = AppCommand::LoadMessageHistory { channel_id: 7, before: Some(10) };
    assert_eq!(state.next_older_history_command(&shown), Some(command));
    assert_eq!(state.next_older_history_command(&shown), None);
    state.older_history.record_older_history_loaded(7, Some(10), true);
    assert_eq!(state.next_older_history_command(&shown), None);
    let more = content(vec![9, 10, 11]);
    assert!(state.next_older_history_command(&more).is_some());
    state.older_history.record_history_load_failed(7);
    assert!(state.next_older_history_command(&more).is_some());
}

// ---- Guilds and channels ----

fn guild_fixture() -> (Vec<GuildFolder>, Vec<GuildState>) {
    (
        vec![GuildFolder { id: Some(77), name: Some("Work".to_owned()), guild_ids: vec![1, 2] }],
        vec![
            GuildState { id: 1, name: "one".to_owned() },
            GuildState { id: 2, name: "two".to_owned() },
            GuildState { id: 3, name: "three".to_owned() },
        ],
    )
}

#[test]
fn folders_open_and_close_under_the_cursor() {
    let (folders, guilds) = guild_fixture();
    let mut state = DashboardState::new();
    let collapsed = CollapsedFolders::new();
    let entries = guild_pane_entries(&folders, &guilds, &collapsed);
    let labels: Vec<&str> = entries.iter().map(|entry| entry.label()).collect();
    assert_eq!(labels, vec!["Direct Messages", "Work", "one", "two", "three"]);
    assert!(matches!(&entries[3], GuildPaneEntry::Guild { branch, .. } if branch.prefix() == "└ "));

    // The cursor is on the folder.
    state.confirm_selected_guild(&entries);
    let closed = guild_pane_entries(&folders, &guilds, &state.collapsed_folders);
    assert_eq!(closed.len(), 3);
    state.open_selected_folder(&closed);
    assert_eq!(guild_pane_entries(&folders, &guilds, &state.collapsed_folders).len(), 5);
    state.close_selected_folder(&entries);
    assert_eq!(guild_pane_entries(&folders, &guilds, &state.collapsed_folders).len(), 3);
    state.toggle_selected_folder(&closed);
    assert_eq!(guild_pane_entries(&folders, &guilds, &state.collapsed_folders).len(), 5);

    state.guilds.selected = 4;
    state.confirm_selected_guild(&entries);
    assert_eq!(state.selected_guild_id(), Some(3));
    state.guilds.selected = 0;
    state.confirm_selected_guild(&entries);
    assert_eq!(state.active_guild, ActiveGuildScope::DirectMessages);
}

fn channel_rows() -> Vec<ChannelPaneEntry> {
    vec![
        ChannelPaneEntry::CategoryHeader { channel_id: 5, collapsed: false },
        ChannelPaneEntry::Channel { channel_id: 20, branch: ChannelBranch::Last },
    ]
}

#[test]
fn channels_open_with_their_subscription() {
    let mut state = DashboardState::new();
    let lists = lists(vec![10, 11]);
    let shown = content(vec![10, 11]);
    let rows = channel_rows();
    let choice = state.confirm_selected_channel_command(&rows, &lists, details(), &shown);
    assert_eq!(choice, ChannelChoice::Toggled);
    assert_eq!(state.collapsed_channel_categories, vec![5]);

    state.channels.selected = 1;
    let choice = state.confirm_selected_channel_command(&rows, &lists, details(), &shown);
    assert_eq!(
        choice,
        ChannelChoice::Opened {
            command: Some(AppCommand::SubscribeGuildChannel { guild_id: 1, channel_id: 20 }),
            effects: ActivationEffects { record_loading: true, queue_ack: true },
        }
    );
    assert_eq!(state.navigation.active_channel_id, Some(20));
    assert_eq!(state.navigation.recent_channel_ids, vec![20]);

    // A thread leads back to where it was opened.
    let thread = ChannelDetails {
        facts: ChannelFacts { is_thread: true, ..facts() },
        ..details()
    };
    state.navigation.viewport.selected_message = 0;
    assert!(matches!(
        state.activate_thread_card(Some(30), thread, &shown),
        ChannelChoice::Opened { .. }
    ));
    assert_eq!(state.navigation.active_channel_id, Some(30));
    assert_eq!(state.navigation.recent_channel_ids, vec![20]);
    let back = state.navigation.return_from_opened_thread(true, true, facts(), false, false, &shown);
    assert!(back.is_some());
    assert_eq!(state.navigation.active_channel_id, Some(20));
    assert_eq!(state.navigation.viewport.selected_message, 0);
    let nowhere = ChannelDetails { guild_id: None, ..details() };
    assert_eq!(state.activate_thread_card(Some(30), nowhere, &shown), ChannelChoice::Ignored);
}

fn item(channel_id: u64, name: &str) -> ChannelSwitcherItem {
    ChannelSwitcherItem {
        channel_id,
        guild_id: Some(1),
        guild_name: Some("one".to_owned()),
        group_label: "one".to_owned(),
        parent_label: None,
        channel_label: format!("#{name}"),
        unread: ChannelUnreadState::Seen,
        unread_message_count: 0,
        search_name: name.to_owned(),
        depth: 0,
        group_order: 0,
        original_index: 0,
    }
}

#[test]
fn the_switcher_goes_to_a_channel() {
    let mut state = DashboardState::new();
    let shown = content(vec![10]);
    state.collapsed_channel_categories = vec![5];
    state.open_channel_switcher(vec![item(20, "general"), item(21, "random")]);
    assert!(state.is_channel_switcher_open());
    if let Some(switcher) = &mut state.channel_switcher {
        switcher.push_channel_switcher_char('r');
        switcher.push_channel_switcher_char('n');
        assert_eq!(switcher.visible_len(), 1);
        switcher.pop_channel_switcher_char();
        switcher.pop_channel_switcher_char();
        assert_eq!(switcher.visible_len(), 2);
        switcher.move_channel_switcher_down();
        switcher.move_channel_switcher_down();
        assert_eq!(switcher.selected_channel_switcher_index(), 1);
        assert!(!switcher.select_channel_switcher_item(2));
        assert!(switcher.select_channel_switcher_item(0));
    }
    assert_eq!(state.channel_switcher_channel(), Some(20));
    let choice = state.activate_selected_channel_switcher_item(Some(details()), &channel_rows(), &shown);
    assert!(matches!(
        choice,
        ChannelChoice::Opened { command: Some(AppCommand::SubscribeGuildChannel { channel_id: 20, .. }), .. }
    ));
    assert!(!state.is_channel_switcher_open());
    assert!(state.collapsed_channel_categories.is_empty());
    assert_eq!(state.channels.selected, 1);
    assert_eq!(state.selected_guild_id(), Some(1));
    assert_eq!(
        state.activate_selected_channel_switcher_item(None, &channel_rows(), &shown),
        ChannelChoice::Ignored
    );
}

// ---- Writing ----

#[test]
fn messages_are_written_where_they_can_be_sent() {
    let rights = |can_send| Some(ChannelRights { is_forum: false, can_send, can_attach: true });
    assert!(can_send_in_selected_channel(None));
    assert!(!can_send_in_selected_channel(rights(false)));
    assert!(can_attach_in_selected_channel(rights(false)));
    assert!(!can_attach_in_selected_channel(Some(ChannelRights {
        is_forum: true,
        can_send: true,
        can_attach: true
    })));
    let mut state = DashboardState::new();
    state.start_composer(rights(true));
    assert!(!state.is_composing());
    state.navigation.active_channel_id = Some(2);
    state.start_composer(rights(false));
    assert!(!state.is_composing());
    state.start_composer(rights(true));
    assert!(state.is_composing());
    assert_eq!(state.focus(), FocusPane::Messages);
}

fn type_text(composer: &mut ComposerState, text: &str) {
    for c in text.chars() {
        composer.push_composer_char(c, c.is_alphanumeric());
    }
}

#[test]
fn picked_names_are_sent_in_the_form_of_the_service() {
    let mut composer = ComposerState::new();
    assert!(composer.start_composer(true, true));
    type_text(&mut composer, "hi @al");
    assert_eq!(composer.composer_mention_query.as_deref(), Some("al"));
    let candidates = vec![MentionPickerEntry { user_id: 42, display_name: "Älice".to_owned() }];
    assert!(composer.confirm_composer_mention(&candidates));
    assert_eq!(composer.composer_input, "hi @Älice ");
    type_text(&mut composer, "there ");
    assert_eq!(composer.expand_mention_completions(), "hi <@42> there ");
    assert_eq!(
        composer.submit_composer(Some(9), true),
        Some(AppCommand::SendMessage { channel_id: 9, content: "hi <@42> there".to_owned(), reply_to: None })
    );
    assert_eq!(composer.composer_input, "");
    assert!(composer.composer_active);
}

#[test]
fn a_name_that_loses_a_letter_is_text() {
    let mut composer = ComposerState::new();
    type_text(&mut composer, "@b");
    let candidates = vec![MentionPickerEntry { user_id: 42, display_name: "bob".to_owned() }];
    assert!(composer.confirm_composer_mention(&candidates));
    composer.pop_composer_char();
    composer.pop_composer_char();
    assert_eq!(composer.expand_mention_completions(), "@bo");
    type_text(&mut composer, " x@y");
    assert_eq!(composer.composer_mention_query, None);
    composer.cancel_composer();
    assert_eq!(composer.submit_composer(Some(1), true), None);
}

#[test]
fn answers_name_their_message() {
    let mut composer = ComposerState::new();
    type_text(&mut composer, "draft");
    assert!(!composer.start_reply_composer(None, true));
    assert!(!composer.start_reply_composer(Some(3), false));
    assert_eq!(composer.composer_input, "draft");
    assert!(composer.start_reply_composer(Some(3), true));
    assert_eq!(composer.composer_input, "");
    type_text(&mut composer, "yes");
    assert_eq!(
        composer.submit_composer(Some(9), true),
        Some(AppCommand::SendMessage { channel_id: 9, content: "yes".to_owned(), reply_to: Some(3) })
    );
    type_text(&mut composer, "late");
    assert_eq!(composer.submit_composer(Some(9), false), None);
    assert!(!composer.composer_active);
}

// ---- Menus ----

fn message() -> ActionMessage {
    ActionMessage {
        guild_id: None,
        channel_id: 2,
        message_id: 3,
        author_id: 4,
        regular: true,
        has_content: true,
        thread: Some(50),
        has_image: true,
        pinned: false,
        reactions: vec![ActionReaction {
            emoji: ReactionEmoji::Unicode("👍".to_owned()),
            label: "thumbs up".to_owned(),
            me: true,
        }],
        poll: Some(PollInfo {
            question: "?".to_owned(),
            answers: vec![
                PollAnswerInfo { answer_id: 1, text: "yes".to_owned(), vote_count: None, me_voted: true },
                PollAnswerInfo { answer_id: 2, text: "no".to_owned(), vote_count: None, me_voted: false },
            ],
            allow_multiselect: false,
            results_finalized: None,
            total_votes: None,
        }),
    }
}

#[test]
fn menus_offer_what_can_be_done() {
    let labels: Vec<String> =
        selected_message_action_items(Some(&message()), Some(4)).into_iter().map(|item| item.label).collect();
    assert_eq!(
        labels,
        vec![
            "Reply",
            "Edit message",
            "Delete message",
            "Open thread",
            "View image",
            "Add reaction",
            "Show profile",
            "Pin message",
            "Show reacted users",
            "Remove thumbs up reaction",
            "Remove poll vote: yes",
            "Vote poll: no",
        ]
    );
    assert!(selected_message_action_items(None, Some(4)).is_empty());
    assert_eq!(selected_message_action_items(Some(&message()), Some(9)).len(), 10);
}

#[test]
fn actions_lead_to_commands() {
    let m = message();
    let send = |kind| message_action_outcome(kind, &m, Some(4));
    assert_eq!(
        send(MessageActionKind::Delete),
        MessageActionOutcome::Send(AppCommand::DeleteMessage { channel_id: 2, message_id: 3 })
    );
    assert_eq!(message_action_outcome(MessageActionKind::Delete, &m, None), MessageActionOutcome::Closed);
    assert_eq!(send(MessageActionKind::OpenThread), MessageActionOutcome::Thread(50));
    assert_eq!(
        send(MessageActionKind::RemoveReaction(0)),
        MessageActionOutcome::Send(AppCommand::RemoveReaction {
            channel_id: 2,
            message_id: 3,
            emoji: ReactionEmoji::Unicode("👍".to_owned()),
        })
    );
    assert_eq!(send(MessageActionKind::RemoveReaction(1)), MessageActionOutcome::Ignored);
    assert_eq!(
        send(MessageActionKind::VotePollAnswer(1)),
        MessageActionOutcome::Send(AppCommand::VotePoll { channel_id: 2, message_id: 3, answer_ids: vec![] })
    );
    assert_eq!(
        send(MessageActionKind::VotePollAnswer(2)),
        MessageActionOutcome::Send(AppCommand::VotePoll { channel_id: 2, message_id: 3, answer_ids: vec![2] })
    );
    let mut many = message();
    if let Some(poll) = &mut many.poll {
        poll.allow_multiselect = true;
    }
    assert_eq!(
        message_action_outcome(MessageActionKind::VotePollAnswer(2), &many, Some(4)),
        MessageActionOutcome::Send(AppCommand::VotePoll { channel_id: 2, message_id: 3, answer_ids: vec![1, 2] })
    );
    assert_eq!(
        send(MessageActionKind::SetPinned(true)),
        MessageActionOutcome::Send(AppCommand::SetMessagePinned { channel_id: 2, message_id: 3, pinned: true })
    );
    assert_eq!(
        send(MessageActionKind::ShowReactionUsers),
        MessageActionOutcome::Send(AppCommand::LoadReactionUsers {
            channel_id: 2,
            message_id: 3,
            reactions: vec![ReactionEmoji::Unicode("👍".to_owned())],
        })
    );
    assert_eq!(
        send(MessageActionKind::ShowProfile),
        MessageActionOutcome::Profile { user_id: 4, guild_id: None }
    );
}

#[test]
fn the_menu_of_a_message_is_used() {
    let mut state = DashboardState::new();
    state.open_selected_message_actions(true);
    assert!(!state.is_message_action_menu_open());
    state.focus_pane(FocusPane::Messages);
    state.open_selected_message_actions(true);
    assert!(state.is_message_action_menu_open());
    let shown = content(vec![3]);
    let (outcome, effects) =
        state.activate_selected_message_action(&message(), true, true, 1, Some(1), details(), &shown);
    assert_eq!(outcome, MessageActionOutcome::ReplyComposer);
    assert_eq!(effects, None);
    assert!(!state.is_message_action_menu_open());
    assert_eq!(state.composer.reply_target_message_id, Some(3));

    // Without the user's own actions the fourth one adds a reaction.
    state.message_action_menu = Some(MessageActionMenuState { selected: 3 });
    let (outcome, _) = state.activate_selected_message_action(&message(), true, true, 1, Some(1), details(), &shown);
    assert_eq!(outcome, MessageActionOutcome::ReactionPicker);
    assert!(state.is_emoji_reaction_picker_open());
    assert_eq!(state.picker_guild_id(None, Some(8)), Some(1));
    let items = vec![EmojiReactionItem {
        emoji: ReactionEmoji::Unicode("🎉".to_owned()),
        label: "Party".to_owned(),
    }];
    state.move_emoji_reaction_down(items.len());
    assert_eq!(state.selected_emoji_reaction_index(items.len()), Some(0));
    assert_eq!(state.activate_selected_emoji_reaction(&Vec::new()), None);
    assert_eq!(
        state.activate_selected_emoji_reaction(&items),
        Some(AppCommand::AddReaction {
            channel_id: 2,
            message_id: 3,
            emoji: ReactionEmoji::Unicode("🎉".to_owned()),
        })
    );
    assert!(!state.is_emoji_reaction_picker_open());

    // The thread is gone to, and leads back.
    state.navigation.active_channel_id = Some(2);
    let index = selected_message_action_items(Some(&message()), None)
        .iter()
        .position(|action| action.kind == MessageActionKind::OpenThread);
    state.message_action_menu = index.map(|selected| MessageActionMenuState { selected });
    let thread = ChannelDetails { facts: ChannelFacts { is_thread: true, ..facts() }, ..details() };
    let (outcome, effects) = state.activate_selected_message_action(&message(), true, true, 1, Some(1), thread, &shown);
    assert_eq!(outcome, MessageActionOutcome::Thread(50));
    assert_eq!(effects, Some(ActivationEffects { record_loading: true, queue_ack: true }));
    assert_eq!(state.selected_channel_id(), Some(50));
    assert!(!state.is_message_action_menu_open());
    let back = state.navigation.return_from_opened_thread(true, true, facts(), false, false, &shown);
    assert!(back.is_some());
    assert_eq!(state.selected_channel_id(), Some(2));

    let mut menu = MessageActionMenuState { selected: 0 };
    menu.move_message_action_down(2);
    menu.move_message_action_down(2);
    assert_eq!(menu.selected_message_action_index(2), 1);
    menu.move_message_action_up();
    assert!(!menu.select_message_action_row(2, 2));
    assert!(menu.select_message_action_row(1, 2));
}

#[test]
fn images_are_viewed_one_by_one() {
    let images = vec![
        ViewerImage { filename: "a.png".to_owned(), url: "u/a".to_owned() },
        ViewerImage { filename: "b.png".to_owned(), url: "u/b".to_owned() },
    ];
    let mut state = DashboardState::new();
    assert!(!state.open_image_viewer_for_selected_message(false, Some(3), 2));
    assert!(!state.open_image_viewer_for_selected_message(true, Some(3), 0));
    assert!(state.open_image_viewer_for_selected_message(true, Some(3), 2));
    state.move_image_viewer_next(2);
    state.move_image_viewer_next(2);
    let item = state.selected_image_viewer_item(&images).expect("an image is shown");
    assert_eq!((item.index, item.total, item.filename.as_str()), (2, 2, "b.png"));
    if let Some(viewer) = &mut state.image_viewer {
        assert_eq!(viewer.activate_selected_image_viewer_action(&images), None);
        viewer.open_image_viewer_action_menu(2);
        assert_eq!(viewer.selected_image_viewer_action_index(), Some(0));
        assert_eq!(viewer.selected_image_viewer_action_items(2).len(), 1);
        assert_eq!(
            viewer.activate_selected_image_viewer_action(&images),
            Some(AppCommand::DownloadAttachment { url: "u/b".to_owned(), filename: "b.png".to_owned() })
        );
        assert_eq!(viewer.activate_image_viewer_action_shortcut(&images, 'x', Some('d')), None);
        assert!(viewer.activate_image_viewer_action_shortcut(&images, 'D', Some('d')).is_some());
        viewer.move_image_viewer_previous();
        assert_eq!(viewer.selected, 0);
    }
    assert!(!state.is_image_viewer_action_menu_open());
    state.move_image_viewer_next(0);
    assert!(!state.is_image_viewer_open());
    assert_eq!(to_ascii_lower('Ä'), 'Ä');
}

#[test]
fn popups_scroll_to_their_last_line() {
    let mut state = DashboardState::new();
    let users: Vec<ReactionUserInfo> =
        (0..20).map(|id| ReactionUserInfo { user_id: id, display_name: format!("u{id}") }).collect();
    state.reaction_users_popup = Some(ReactionUsersPopupState {
        channel_id: 1,
        message_id: 2,
        reactions: vec![ReactionUsersInfo { emoji: ReactionEmoji::Unicode("👍".to_owned()), users }],
        scroll: 0,
        view_height: 0,
    });
    state.set_reaction_users_popup_view_height(5);
    state.scroll_reaction_users_popup_down();
    state.page_reaction_users_popup_down();
    state.page_reaction_users_popup_down();
    let scroll = |state: &DashboardState| state.reaction_users_popup.as_ref().map(|popup| popup.scroll());
    assert_eq!(scroll(&state), Some(16));
    state.page_reaction_users_popup_up();
    state.scroll_reaction_users_popup_up();
    assert_eq!(scroll(&state), Some(5));
    state.close_reaction_users_popup();
    assert!(!state.is_reaction_users_popup_open());
}

// ---- Animations ----

#[test]
fn animations_are_searched_and_shared() {
    let mut klipy = KlipyState::new();
    assert_eq!(klipy.open_gif_picker(false, false, true), GifPickerOpening::Refused);
    assert_eq!(klipy.open_gif_picker(true, true, true), GifPickerOpening::Refused);
    assert_eq!(klipy.open_gif_picker(true, false, false), GifPickerOpening::NotConfigured);
    assert_eq!(klipy.open_gif_picker(true, false, true), GifPickerOpening::Opened);
    klipy.insert_gif_query("ca\u{7}t\n");
    assert_eq!(klipy.picker.as_ref().map(|p| p.query.query().to_owned()).as_deref(), Some("cat"));
    let stale = klipy.generation - 1;
    let page = || GifPage {
        data: vec![Gif { slug: "s".to_owned(), url: Some("https://k/g".to_owned()) }],
        has_next: true,
    };
    assert!(!klipy.store_gif_results(stale, Ok(page())));
    klipy.change_gif_page(true);
    assert_eq!(klipy.picker.as_ref().map(|p| p.page), Some(1));
    assert!(klipy.store_gif_results(klipy.generation, Ok(page())));
    klipy.change_gif_page(true);
    assert_eq!(klipy.picker.as_ref().map(|p| p.page), Some(2));
    assert!(klipy.store_gif_results(klipy.generation, Err("offline".to_owned())));
    assert_eq!(klipy.confirm_gif_selection(true, true, ""), GifConfirm::Reloading);
    assert!(klipy.store_gif_results(klipy.generation, Ok(page())));
    klipy.move_gif_selection(-5);
    klipy.move_gif_selection(isize::MIN);
    assert_eq!(
        klipy.confirm_gif_selection(true, true, "look"),
        GifConfirm::Inserted("look\nhttps://k/g".to_owned())
    );
    assert!(klipy.picker.is_none());
    klipy.queue_klipy_shares("look https://k/gg");
    assert!(klipy.take_klipy_shares().is_empty());
    assert_eq!(klipy.confirm_gif_selection(true, true, "look"), GifConfirm::Ignored);
    assert_eq!(klipy.confirm_gif_selection(false, true, "look"), GifConfirm::Closed);
}

#[test]
fn animations_that_were_sent_are_reported() {
    let mut klipy = KlipyState::new();
    klipy.open_gif_picker(true, false, true);
    klipy.insert_gif_query(&"x".repeat(300));
    assert_eq!(
        klipy.picker.as_ref().map(|p| p.query.query().chars().count()),
        Some(GIF_QUERY_LIMIT)
    );
    klipy.clear_gif_query();
    klipy.insert_gif_query("dog");
    let page = GifPage {
        data: vec![Gif { slug: "s".to_owned(), url: Some("https://k/d".to_owned()) }],
        has_next: false,
    };
    assert!(klipy.store_gif_results(klipy.generation, Ok(page)));
    assert_eq!(klipy.confirm_gif_selection(true, true, ""), GifConfirm::Inserted("https://k/d".to_owned()));
    klipy.queue_klipy_shares("see https://k/d now");
    let shares = klipy.take_klipy_shares();
    assert_eq!(shares.len(), 1);
    assert_eq!((shares[0].slug.as_str(), shares[0].query.as_str()), ("s", "dog"));
    assert!(klipy.take_klipy_shares().is_empty());
}

// ---- The clipboard ----

fn paste(composing: bool) -> PasteContext {
    PasteContext {
        accepts_avatar: false,
        avatar_pending: false,
        profile_field: None,
        forum_post_field: None,
        modal_open: false,
        composing,
    }
}

#[test]
fn pastes_go_where_they_were_asked_for() {
    let mut clipboard = ClipboardState::new();
    clipboard.request_paste_clipboard(&paste(false));
    assert_eq!(clipboard.take_paste_clipboard_request(&paste(false)), None);
    clipboard.request_paste_clipboard(&paste(true));
    assert_eq!(clipboard.take_paste_clipboard_request(&paste(false)), None);
    clipboard.request_paste_clipboard(&paste(true));
    let id = clipboard.take_paste_clipboard_request(&paste(true)).expect("a paste was asked for");
    assert!(clipboard.start_clipboard_paste(&paste(true), id));
    assert!(!clipboard.start_clipboard_paste(&paste(true), id));
    assert!(clipboard.begin_clipboard_paste(&paste(true), id));
    assert!(!clipboard.begin_clipboard_paste(&paste(true), id));
    assert!(!clipboard.finish_clipboard_paste(&paste(true), id + 1));
    assert!(clipboard.finish_clipboard_paste(&paste(true), id));
    assert!(!clipboard.finish_clipboard_paste(&paste(true), id));
    assert!(!clipboard.pending);
    let avatar = PasteContext { accepts_avatar: true, ..paste(true) };
    assert_eq!(avatar.clipboard_paste_target(), Some(ClipboardPasteTarget::UserProfileAvatar));
    assert!(avatar.accepts_clipboard_paste());
    let blocked = PasteContext { modal_open: true, ..paste(true) };
    assert_eq!(blocked.clipboard_paste_target(), None);
}

// ---- Events ----

#[test]
fn events_change_what_the_user_sees() {
    let mut ui = EventUiState::new();
    let toast = ui.apply_event_ui_effects(AppEvent::GatewayError { message: "down".to_owned() });
    assert_eq!(toast, vec![UiAction::ErrorToast(Notice::Text("down".to_owned()))]);
    assert_eq!(ui.gateway_error.as_deref(), Some("down"));
    ui.apply_event_ui_effects(AppEvent::Ready { user: "me".to_owned(), user_id: Some(4) });
    assert_eq!(ui.gateway_error, None);
    assert_eq!(ui.current_user_id, Some(4));

    let scope = VoiceScope::Guild(1);
    let voice = |status| AppEvent::VoiceConnectionStatusChanged {
        scope,
        channel_id: Some(6),
        status,
        message: None,
    };
    ui.apply_event_ui_effects(voice(VoiceConnectionStatus::Connected));
    ui.capture_request = Some(CaptureRequest { request_id: 3, scope, channel_id: 6 });
    let loaded = |request_id| AppEvent::StreamCaptureTargetsLoaded {
        request_id,
        scope,
        channel_id: 6,
        targets: vec!["screen".to_owned()],
        error: None,
    };
    assert!(ui.apply_event_ui_effects(loaded(2)).is_empty());
    assert_eq!(
        ui.apply_event_ui_effects(loaded(3)),
        vec![
            UiAction::ClearCaptureLoading,
            UiAction::OpenStreamTargets { scope, channel_id: 6, targets: vec!["screen".to_owned()] },
        ]
    );
    assert!(ui.apply_event_ui_effects(loaded(3)).is_empty());
    let actions = ui.apply_event_ui_effects(voice(VoiceConnectionStatus::Failed));
    assert_eq!(actions, vec![UiAction::ErrorToast(Notice::VoiceStatus(VoiceConnectionStatus::Failed))]);
    assert_eq!(ui.voice_connection, None);
}

#[test]
fn devices_of_a_failed_list_are_forgotten() {
    let mut ui = EventUiState::new();
    ui.audio_sources_request = Some(1);
    ui.audio_inputs = vec!["old".to_owned()];
    let sources = |error: Option<&str>| AppEvent::VoiceAudioSourcesLoaded {
        request_id: 1,
        inputs: vec!["mic".to_owned()],
        outputs: Vec::new(),
        error: error.map(str::to_owned),
    };
    ui.apply_event_ui_effects(sources(Some("no devices")));
    assert!(ui.audio_inputs.is_empty());
    ui.apply_event_ui_effects(sources(None));
    assert!(ui.audio_inputs.is_empty());
    ui.audio_sources_request = Some(1);
    ui.apply_event_ui_effects(sources(None));
    assert_eq!(ui.audio_inputs, vec!["mic"]);
}

#[test]
fn profiles_tell_why_they_did_not_load() {
    let mut ui = EventUiState::new();
    ui.profile = Some(ProfileState {
        user_id: 1,
        guild_id: None,
        load_error: None,
        saving: true,
        status: None,
    });
    ui.apply_event_ui_effects(AppEvent::UserProfileLoadFailed {
        user_id: 1,
        guild_id: None,
        message: "gone".to_owned(),
    });
    let profile = ui.profile.expect("the popup stays open");
    assert_eq!(profile.load_error.as_deref(), Some("gone"));
    assert!(!profile.saving);
    assert_eq!(
        profile.status.expect("the user is told").text(),
        "Save succeeded, but profile reload failed: gone"
    );
}

#[test]
fn notices_read_as_sentences() {
    assert_eq!(
        Notice::CaptchaRequired("send a message".to_owned()).text(),
        "Discord needs a CAPTCHA to send a message. Finish it in the official Discord app, then try again."
    );
    assert_eq!(
        Notice::DownloadFailed { filename: "a.png".to_owned(), message: "disk full".to_owned() }.text(),
        "Download a.png failed: disk full"
    );
    assert_eq!(
        Notice::InteractionFailed(2).text(),
        "Discord could not complete the application command: the command timed out."
    );
    assert_eq!(interaction_failure_reason(99), "Discord returned an interaction error");
}

#[test]
fn conversations_become_the_users_own() {
    let message = |message_id, author_id| MessageInfo {
        guild_id: None,
        channel_id: 1,
        message_id,
        author_id,
        nonce: None,
    };
    let came = vec![message(10, 4), message(11, 4), message(12, 9), message(10, 4)];
    assert!(dm_becomes_established(false, true, Some(4), &vec![8, 10], &came, 3));
    assert!(!dm_becomes_established(false, true, Some(4), &vec![10], &came, 3));
    assert!(!dm_becomes_established(true, true, Some(4), &vec![8], &came, 1));
    assert!(!dm_becomes_established(false, false, Some(4), &vec![8], &came, 1));
    assert!(!dm_becomes_established(false, true, None, &vec![8], &came, 1));
    let slow = |bypasses, seconds| Some(SlowModeFacts { bypasses, rate_limit_per_user: Some(seconds) });
    assert_eq!(slow_mode_after_self_message(Some(4), 4, slow(false, 30)), Some(30));
    assert_eq!(slow_mode_after_self_message(Some(4), 4, slow(true, 30)), None);
    assert_eq!(slow_mode_after_self_message(Some(4), 4, slow(false, 0)), None);
    assert_eq!(slow_mode_after_self_message(Some(4), 5, slow(false, 30)), None);
}

#[test]
fn new_messages_move_only_those_who_follow() {
    let entries = channel_rows();
    let message = |message_id| MessageInfo {
        guild_id: Some(1),
        channel_id: 20,
        message_id,
        author_id: 9,
        nonce: None,
    };
    let mut state = DashboardState::new();
    state.activate_guild(ActiveGuildScope::Guild(1));
    state.activate_channel(20, details(), &content(vec![10, 11, 12, 13]));
    state.navigation.viewport.clamp_message_viewport_for_image_previews(&content(vec![10, 11, 12, 13]), 80, 0, 0);
    let new = Some(NewMessage { channel_id: 20, message_id: 14 });
    let before = content(vec![10, 11, 12, 13]);
    let after = lists(vec![10, 11, 12, 13, 14]);
    let outcome = state.push_event(
        AppEvent::MessageCreate { message: message(14) },
        &before,
        &entries,
        &after,
        event_facts(new),
    );
    assert_eq!(outcome.ack, Some(20));
    assert_eq!(state.navigation.viewport.selected_message, 4);
    assert!(state.navigation.viewport.message_auto_follow);

    // The reader goes back to the first message.
    state.focus_pane(FocusPane::Messages);
    state.jump_top(&after);
    state.navigation.viewport.scroll_message_viewport_top(&after.content);
    let before = content(vec![10, 11, 12, 13, 14]);
    let after = lists(vec![10, 11, 12, 13, 14, 15]);
    let new = Some(NewMessage { channel_id: 20, message_id: 15 });
    let outcome = state.push_event(
        AppEvent::MessageCreate { message: message(15) },
        &before,
        &entries,
        &after,
        event_facts(new),
    );
    assert_eq!(outcome.ack, None);
    assert_eq!(state.navigation.viewport.selected_message, 0);
    assert_eq!(state.navigation.viewport.new_messages_marker_message_id, Some(15));
    assert_eq!(state.navigation.viewport.new_messages_count(&after.content), 1);
}

#[test]
fn lost_channels_close_with_what_belongs_to_them() {
    let mut state = DashboardState::new();
    state.activate_guild(ActiveGuildScope::Guild(1));
    state.activate_channel(20, details(), &content(vec![10]));
    state.start_composer(None);
    type_text(&mut state.composer, "draft");
    state.message_action_menu = Some(MessageActionMenuState { selected: 0 });
    state.clamp_active_selection(ActiveFacts {
        guild_known: true,
        channel: Some(ActiveChannel { guild_id: Some(1), is_category: false, viewable: true }),
    });
    assert_eq!(state.navigation.active_channel_id, Some(20));
    state.clamp_active_selection(ActiveFacts { guild_known: false, channel: None });
    assert_eq!(state.navigation.active_channel_id, None);
    assert_eq!(state.active_guild, ActiveGuildScope::Unset);
    assert!(!state.is_composing());
    assert_eq!(state.composer.composer_input, "");
    assert!(!state.is_message_action_menu_open());
}

#[test]
fn the_cursor_stays_on_its_row() {
    let participant = ChannelPaneEntry::VoiceParticipant {
        channel_id: 30,
        user_id: 90,
        parent_branch: ChannelBranch::Root,
    };
    let thread = ChannelPaneEntry::Thread {
        channel_id: 31,
        parent_branch: ChannelBranch::Root,
        branch: ChannelBranch::Last,
    };
    let before = vec![
        ChannelPaneEntry::CategoryHeader { channel_id: 5, collapsed: false },
        ChannelPaneEntry::Channel { channel_id: 30, branch: ChannelBranch::Last },
        participant,
        thread,
    ];
    let mut after = vec![ChannelPaneEntry::Channel { channel_id: 40, branch: ChannelBranch::Root }];
    after.extend(before.iter().copied());
    for row in 0..before.len() {
        let shown = content(vec![10]);
        let mut lists = lists(vec![10]);
        lists.channel_selectable = vec![true; 5];
        lists.channel_rows = (0..5).map(|entry_index| ChannelPaneRow::Entry { entry_index }).collect();
        let mut state = DashboardState::new();
        state.channels.selected = row;
        let cursor = state.selected_channel_cursor(&before, &lists);
        assert_eq!(cursor, Some(before[row].cursor()));
        let facts = EventFacts { channel_cursor: cursor, ..event_facts(None) };
        state.push_event(AppEvent::GatewayResumed, &shown, &after, &lists, facts);
        assert_eq!(state.channels.selected, row + 1);
    }
    let mut state = DashboardState::new();
    state.channels.selected = 9;
    assert_eq!(state.selected_channel_cursor(&Vec::new(), &lists(vec![10])), None);
}

// ---- Reading ----

#[test]
fn what_is_read_is_what_was_set() {
    let mut state = DashboardState::new();
    assert_eq!(state.current_user(), None);
    state.events.current_user = Some("ann".to_owned());
    state.events.update_available_version = Some("2.0".to_owned());
    state.events.gateway_error = Some("closed".to_owned());
    assert_eq!(state.current_user(), Some("ann"));
    assert_eq!(state.update_available_version(), Some("2.0"));
    assert_eq!(state.gateway_error(), Some("closed"));

    state.guilds.scroll = 2;
    state.members.scroll = 3;
    state.members.view_height = 0;
    assert_eq!((state.guild_scroll(), state.member_scroll(), state.member_content_height()), (2, 3, 1));

    state.navigation.viewport.selected_message = 9;
    state.navigation.viewport.message_line_scroll = 4;
    state.navigation.viewport.message_view_height = 7;
    state.navigation.viewport.unread_divider_last_acked_id = Some(5);
    state.navigation.viewport.new_messages_marker_message_id = Some(6);
    assert_eq!(state.selected_message(&content(vec![1, 2])), 1);
    assert_eq!(state.message_line_scroll(), 4);
    assert_eq!(state.message_view_height(), 7);
    assert_eq!(state.unread_divider_last_acked_id(), Some(5));
    assert_eq!(state.new_messages_marker_message_id(), Some(6));
    assert_eq!(state.message_auto_follow(), state.navigation.viewport.message_auto_follow);

    state.composer.composer_input = "hi".to_owned();
    assert_eq!(state.composer_input(), "hi");
    assert_eq!(state.composer_mention_query(), None);
    assert_eq!(state.composer_mention_selected(), 0);
    assert!(!state.clipboard_paste_pending());
    assert_eq!(state.pending_composer_upload_line_count(2), 2);
    state.clipboard.pending = true;
    assert_eq!(state.pending_composer_upload_line_count(2), 3);
    assert!(state.reaction_users_popup().is_none());
}

#[test]
fn rows_are_shown_with_any_of_their_lines() {
    let mut state = DashboardState::new();
    let lists = lists(vec![10]);
    state.channels.view_height = 3;
    assert_eq!(state.visible_channel_pane_entries(&lists), vec![0, 1]);
    state.channels.scroll = 1;
    assert_eq!(state.visible_channel_pane_entries(&lists), vec![0, 1, 2]);
    state.channels.scroll = 4;
    assert_eq!(state.visible_channel_pane_entries(&lists), vec![3]);
    state.channels.scroll = 9;
    assert_eq!(state.visible_channel_pane_entries(&lists), Vec::<usize>::new());

    state.channels.selected = 1;
    state.toggle_selected_channel_category(&channel_rows(), &lists);
    assert_eq!(state.collapsed_channel_categories, vec![5]);
    state.toggle_selected_channel_category(&channel_rows(), &lists);
    assert!(state.collapsed_channel_categories.is_empty());
}

#[test]
fn the_open_channel_says_what_it_needs() {
    let mut state = DashboardState::new();
    let typers = vec![TypingUser { user_id: 7, display_name: Some("Bo".to_owned()) }];
    assert_eq!(state.selected_channel_id(), None);
    assert_eq!(state.typing_footer_for_selected_channel(true, &typers), None);
    assert!(!state.selected_message_history_needs_reload(false, true, true));
    state.navigation.active_channel_id = Some(20);
    assert_eq!(state.selected_channel_id(), Some(20));
    assert_eq!(state.typing_footer_for_selected_channel(true, &typers), Some("Bo is typing…".to_owned()));
    assert_eq!(state.typing_footer_for_selected_channel(false, &typers), None);
    state.events.current_user_id = Some(7);
    assert_eq!(state.typing_footer_for_selected_channel(true, &typers), None);

    assert_eq!(state.selected_forum_channel(true, Some(1)), Some((1, 20)));
    assert_eq!(state.selected_forum_channel(false, Some(1)), None);
    assert_eq!(state.selected_forum_channel(true, None), None);
    assert!(state.selected_forum_posts_loading(true, Some(1), false));
    assert!(!state.selected_forum_posts_loading(true, Some(1), true));
    assert!(state.selected_message_history_is_stale(false, true));
    assert!(state.selected_message_history_needs_reload(false, true, false));
    assert!(!state.selected_message_history_needs_reload(false, false, false));
    assert!(!state.selected_message_history_needs_reload(true, true, true));
}

#[test]
fn cards_open_what_they_stand_for() {
    let mut state = DashboardState::new();
    state.focus_pane(FocusPane::Messages);
    let forum = PaneContent { forum: true, cards: vec![2, 2, 2], card_labels: vec![false; 3], ..content(Vec::new()) };
    state.navigation.active_channel_id = Some(20);
    state.navigation.viewport.message_view_height = 4;
    state.navigation.viewport.message_scroll = 1;
    state.navigation.viewport.selected_message = 2;
    assert_eq!(state.selected_thread_card(3), 2);
    assert_eq!(state.selected_forum_post(2), 1);
    assert_eq!(state.focused_thread_card_selection(&forum), Some(1));
    assert_eq!(state.focused_thread_card_selection(&content(vec![1])), None);
    assert_eq!(
        state.activate_selected_thread_card(&Vec::new(), details(), &forum),
        ChannelChoice::Ignored
    );
    let choice = state.activate_selected_message_pane_item(true, &vec![30, 31, 32], details(), &forum, false);
    assert!(matches!(
        choice,
        ChannelChoice::Opened { command: Some(AppCommand::SubscribeGuildChannel { channel_id: 32, .. }), .. }
    ));
    assert_eq!(state.selected_channel_id(), Some(32));
    let shown = content(vec![1]);
    let choice = state.activate_selected_message_pane_item(false, &Vec::new(), details(), &shown, true);
    assert_eq!(choice, ChannelChoice::Ignored);
    assert!(state.is_message_action_menu_open());
}

#[test]
fn popups_tell_what_is_selected() {
    let mut state = DashboardState::new();
    let unicode = vec![EmojiReactionItem {
        emoji: ReactionEmoji::Unicode("🎉".to_owned()),
        label: "Party".to_owned(),
    }];
    let custom = |id, available| CustomEmojiInfo {
        id,
        name: "blob_wave".to_owned(),
        animated: false,
        available,
        image_url: None,
    };
    let items = state.emoji_reaction_items(unicode, Some(&vec![custom(1, false), custom(2, true)]));
    assert_eq!(items.len(), 2);
    assert_eq!(items[1].label, "Blob Wave");
    assert!(state.selected_emoji_reaction(&items).is_none());
    state.emoji_reaction_picker =
        Some(EmojiReactionPickerState { selected: 5, guild_id: Some(1), channel_id: 2, message_id: 3 });
    assert_eq!(state.selected_emoji_reaction(&items), Some(&items[1]));
    assert!(state.selected_emoji_reaction(&Vec::new()).is_none());

    let actions = vec![
        MessageActionItem { kind: MessageActionKind::Reply, label: "Reply".to_owned(), enabled: true },
        MessageActionItem { kind: MessageActionKind::Delete, label: "Delete".to_owned(), enabled: true },
    ];
    assert!(state.selected_message_action(&actions).is_none());
    state.message_action_menu = Some(MessageActionMenuState { selected: 1 });
    assert_eq!(state.selected_message_action(&actions), Some(&actions[1]));

    assert_eq!(state.channel_switcher_query(), None);
    assert!(state.channel_switcher_items().is_empty());
    state.open_channel_switcher(vec![item(20, "general"), item(21, "random")]);
    if let Some(switcher) = &mut state.channel_switcher {
        switcher.push_channel_switcher_char('é');
    }
    assert_eq!(state.channel_switcher_query(), Some("é"));
    assert_eq!(state.channel_switcher_query_cursor_byte_index(), Some(2));
    assert_eq!(state.channel_switcher_items().len(), 0);
    if let Some(switcher) = &mut state.channel_switcher {
        switcher.pop_channel_switcher_char();
    }
    assert_eq!(state.channel_switcher_items().len(), 2);
}
