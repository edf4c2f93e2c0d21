use concord::discord::AppCommand;
use concord::message::reactions::ReactionEmoji;
use concord::message::rendered::{RenderedText, TextHighlight, TextHighlightKind};
use concord::state::channel_pane::{
    channel_pane_entries, channel_pane_filtered_entries, channel_pane_rows_from_entries,
    channel_pane_search_channels, direct_message_entries,
    filtered_entries, is_active_channel_entry, last_selectable, selectable_channel_index_near,
    selected_channel_category_id, ChannelKind, ChannelPaneRow, MatchRank, PaneChannel, RecipientActivity,
    VoiceParticipants,
};
use concord::state::channel_switcher::{
    all_channel_switcher_items, filter_channel_switcher_items, ChannelUnreadState, SwitcherChannel, SwitcherGuild,
};
use concord::state::channel_text::{
    active_voice_connection_label, channel_label, channel_subscription_command, current_voice_self_status,
    message_pane_title, typing_footer, MessagePaneSource, NamedChannel, TypingUser, VoiceLabel,
};
use concord::state::emoji::{
    custom_emoji_can_be_used_directly, custom_emoji_label, effective_quick_unicode_emojis, is_quick_unicode_emoji,
    quick_unicode_emoji_reaction_items, remaining_unicode_emoji_reaction_items, unicode_emoji_label,
    with_custom_emojis, CustomEmojiInfo,
};
use concord::state::guilds::{folder_key, selected_folder_key, CollapsedFolders, FolderKey};
use concord::state::local_upload_preview::{
    local_upload_preview_candidate, local_upload_preview_view, store_local_upload_preview_result,
    sync_local_upload_previews, take_pending_local_upload_preview, LocalUploadPreviewState, LocalUploadPreviewView,
};
use concord::state::member_grouping::{
    channel_recipient_group, flatten_member_groups, guild_member_groups, member_has_activity_row, member_rows,
    select_member_near_line, selected_member_line, thread_member_group, ChannelRecipientState,
    GuildMemberListEntry, GuildMemberState, IndexedEntry, MemberEntry, MemberRow, PresenceStatus, RoleState,
};
use concord::state::mentions::{
    finish_mention_highlights, forwarded_snapshot_mention_guild_id, mention_highlight_kind,
    resolve_mention_display_name, thread_summary_for_message, MentionInfo, ThreadFacts, THREAD_CREATED,
};
use concord::state::message_render::{
    message_base_line_count, message_rendered_height, normalize_text_highlights, system_message_line_count,
    ForwardedLines, MessageLineParts, PollLines,
};
use concord::state::message_viewport::{MessageViewport, PaneContent};
use concord::state::model::{ChannelBranch, ChannelPaneEntry, GuildBranch, GuildFolder, GuildPaneEntry, GuildState};
use concord::state::navigation::{
    forum_ack_targets, AckTarget, ChannelFacts, ChannelNavigation, RECENT_CHANNEL_LIMIT,
};
use concord::state::pane_filter::{clamp_cursor_index, PaneFilterState};
use concord::state::scroll::{
    clamp_list_scroll, clamp_selected_index, scroll_message_row_down, scroll_message_row_up, RowPosition,
};
use concord::state::selection::visible_window;
use concord::state::sorting::sorted_order;
use concord::state::thread_cards::{
    build_thread_card_entries, forum_thread_applied_tags, forum_thread_new_message_count,
    selected_forum_is_near_loaded_end, thread_card_item, thread_card_preview_message,
    thread_card_rendered_rows_before, thread_card_total_rendered_rows, CardChannel, CardCreator, CardMessage,
    CardSection, CardSource, CardThread, ForumTag,
};

// ---- Lists ----

#[test]
fn lists_scroll_with_their_cursor() {
    assert_eq!(clamp_list_scroll(0, 5, 10, 30), 0);
    assert_eq!(clamp_list_scroll(29, 0, 10, 30), 20);
    assert_eq!(clamp_list_scroll(8, 0, 10, 30), 2);
    assert_eq!(clamp_list_scroll(0, 0, 10, 0), 0);
    assert_eq!(clamp_selected_index(9, 3), 2);
    assert_eq!(clamp_selected_index(9, 0), 0);
    assert_eq!(visible_window(8, 10, 12), (2, 12));
    assert_eq!(visible_window(0, 0, 0), (0, 0));
}

#[test]
fn rows_up_undo_rows_down() {
    let start = RowPosition { message: 1, line: 2 };
    let down = scroll_message_row_down(start, 5, Some(3));
    assert_eq!(down, RowPosition { message: 2, line: 0 });
    assert_eq!(scroll_message_row_up(down, Some(3)), start);
    let last = RowPosition { message: 4, line: 2 };
    assert_eq!(scroll_message_row_down(last, 5, Some(3)), last);
}

#[test]
fn sorting_keeps_what_is_equal_in_order() {
    assert_eq!(sorted_order(&vec![vec![2], vec![1, 9], vec![2], vec![1]]), vec![3, 1, 0, 2]);
    assert_eq!(sorted_order(&Vec::new()), Vec::<usize>::new());
}

#[test]
fn deleting_undoes_typing_plain_text() {
    let mut filter = PaneFilterState::new();
    for c in "plain text".chars() {
        filter.push_char(c);
    }
    for _ in 0..4 {
        filter.cursor_left();
    }
    let at = filter.cursor_byte_index();
    filter.push_char('~');
    assert_eq!(filter.query(), "plain ~text");
    filter.pop_char();
    assert_eq!(filter.query(), "plain text");
    assert_eq!(filter.cursor_byte_index(), at);
}

#[test]
fn filters_are_edited_by_cluster() {
    let mut filter = PaneFilterState::new();
    for c in ['a', 'e', '\u{301}', 'b'] {
        filter.push_char(c);
    }
    filter.cursor_left();
    assert_eq!(filter.cursor_byte_index(), 4);
    filter.pop_char();
    assert_eq!(filter.query(), "ab");
    filter.cursor_left();
    filter.cursor_left();
    filter.pop_char();
    assert_eq!(filter.query(), "ab");
    filter.cursor_right();
    filter.push_char('x');
    assert_eq!(filter.query(), "axb");
    assert_eq!(clamp_cursor_index("ä", 1), 0);
}

// ---- The message pane ----

fn content(heights: Vec<usize>) -> PaneContent {
    PaneContent {
        ids: (0..heights.len() as u64).map(|i| 100 + i).collect(),
        new_day: heights.iter().map(|_| false).collect(),
        heights,
        forum: false,
        cards: Vec::new(),
        card_labels: Vec::new(),
        pinned: false,
        focused: true,
    }
}

#[test]
fn the_pane_opens_at_the_newest_message() {
    let shown = content(vec![2, 2, 2, 2, 2]);
    let mut pane = MessageViewport { message_view_height: 5, ..MessageViewport::default() };
    pane.follow_latest_message(&shown);
    pane.clamp_message_viewport_for_image_previews(&shown, 80, 0, 0);
    assert_eq!((pane.message_scroll, pane.message_line_scroll), (2, 1));
    assert!(pane.is_viewport_at_latest_message(&shown));
    assert!(pane.cursor_on_last_message(&shown));
    assert_eq!(pane.visible_messages(&shown), (2, 5));
    pane.scroll_message_viewport_up(&shown);
    assert_eq!((pane.message_scroll, pane.message_line_scroll), (2, 0));
    assert!(!pane.message_auto_follow);
    assert!(!pane.is_viewport_at_latest_message(&shown));
    pane.scroll_message_viewport_down(&shown);
    assert!(pane.is_viewport_at_latest_message(&shown));
    pane.scroll_message_viewport_top(&shown);
    assert_eq!(pane.message_scroll_row_position(&shown), 0);
    pane.scroll_message_viewport_bottom(&shown);
    assert!(pane.message_auto_follow);
    assert!(pane.select_visible_message_row(&shown, 1));
    assert_eq!(pane.selected_message, 3);
}

#[test]
fn unread_messages_are_marked() {
    let shown = content(vec![1, 1, 1, 1]);
    let mut pane = MessageViewport {
        unread_divider_last_acked_id: Some(101),
        pending_unread_anchor_scroll: true,
        ..MessageViewport::default()
    };
    assert_eq!(pane.unread_divider_message_index(&shown), Some(2));
    assert!(pane.should_draw_unread_divider_at(&shown, 2));
    pane.try_apply_unread_anchor_scroll(&shown);
    assert_eq!((pane.message_scroll, pane.selected_message), (1, 2));
    let banner = pane.unread_banner(&shown).expect("something is unread");
    assert_eq!(banner.unread_count, 2);
    pane.new_messages_marker_message_id = Some(103);
    assert_eq!(pane.new_messages_count(&shown), 1);
    pane.clear_missing_new_messages_marker(&content(vec![1]));
    assert_eq!(pane.new_messages_marker_message_id, None);
}

#[test]
fn cards_are_shown_as_a_whole() {
    let mut shown = content(Vec::new());
    shown.forum = true;
    shown.cards = vec![5, 6, 5];
    shown.card_labels = vec![true, false, false];
    let mut pane = MessageViewport { message_view_height: 11, selected_message: 2, ..MessageViewport::default() };
    pane.clamp_message_viewport(&shown);
    let (from, to) = pane.visible_thread_cards(&shown);
    assert!(from <= 2 && 2 < to);
    assert_eq!(pane.focused_message_selection(&shown), Some(2 - from));
}

#[test]
fn threads_lead_back() {
    let facts = |is_thread| ChannelFacts {
        known: true,
        is_forum: false,
        is_category: false,
        is_thread,
        last_acked_message_id: None,
        last_message_id: None,
    };
    let shown = content(vec![1, 1, 1]);
    let mut navigation = ChannelNavigation::new();
    for id in 0..15 {
        navigation.activate_channel(id, facts(false), false, false, &shown);
    }
    assert_eq!(navigation.recent_channel_ids.len(), RECENT_CHANNEL_LIMIT);
    assert_eq!(navigation.recent_channel_ids[0], 14);
    navigation.viewport.selected_message = 1;
    navigation.record_thread_return_target(50);
    navigation.activate_channel(50, facts(true), false, false, &shown);
    assert_eq!(navigation.message_pane_source(false), Some(MessagePaneSource::ChannelMessages { channel_id: 50 }));
    assert_eq!(navigation.selected_message_history_channel_id(true), None);
    let left = navigation.record_message_channel_view_transition(14, false, facts(false));
    assert_eq!(left.left, Some(50));
    assert!(navigation.return_from_opened_thread(true, true, facts(false), false, false, &shown).is_some());
    assert_eq!(navigation.active_channel_id, Some(14));
    assert_eq!(navigation.viewport.selected_message, 1);
    assert!(navigation.return_from_opened_thread(true, true, facts(false), false, false, &shown).is_none());
    let own = AckTarget { channel_id: 1, message_id: 2 };
    let child = AckTarget { channel_id: 3, message_id: 4 };
    assert_eq!(forum_ack_targets(Some(own), vec![child]), vec![own, child]);
}

// ---- Channels ----

fn channel(id: u64, parent_id: Option<u64>, kind: ChannelKind, unread: bool) -> PaneChannel {
    PaneChannel { id, parent_id, kind, sidebar_active: true, can_manage_structure: false, unread }
}

#[test]
fn channels_stand_below_their_categories() {
    let channels = vec![
        channel(1, None, ChannelKind::Text, false),
        channel(5, None, ChannelKind::Category, false),
        channel(6, Some(5), ChannelKind::Voice, false),
        channel(7, Some(5), ChannelKind::Text, true),
        channel(8, Some(7), ChannelKind::Thread, false),
    ];
    let calls = vec![VoiceParticipants { channel_id: 6, user_ids: vec![90] }];
    let open = channel_pane_entries(&channels, &calls, &Vec::new(), None);
    assert_eq!(
        open,
        vec![
            ChannelPaneEntry::Channel { channel_id: 1, branch: ChannelBranch::Root },
            ChannelPaneEntry::CategoryHeader { channel_id: 5, collapsed: false },
            ChannelPaneEntry::Channel { channel_id: 6, branch: ChannelBranch::Middle },
            ChannelPaneEntry::VoiceParticipant {
                channel_id: 6,
                user_id: 90,
                parent_branch: ChannelBranch::Middle
            },
            ChannelPaneEntry::Channel { channel_id: 7, branch: ChannelBranch::Last },
            ChannelPaneEntry::Thread {
                channel_id: 8,
                parent_branch: ChannelBranch::Last,
                branch: ChannelBranch::Last
            },
        ]
    );
    let collapsed = channel_pane_entries(&channels, &calls, &vec![5], None);
    assert!(collapsed.contains(&ChannelPaneEntry::Channel { channel_id: 7, branch: ChannelBranch::Last }));
    assert!(!collapsed.contains(&ChannelPaneEntry::Channel { channel_id: 6, branch: ChannelBranch::Middle }));
    assert_eq!(selected_channel_category_id(&open, 5), Some(5));
    assert_eq!(selected_channel_category_id(&open, 0), None);
    assert!(is_active_channel_entry(&open[0], Some(1)));
    assert_eq!(channel_pane_search_channels(&channels).len(), 3);
    assert_eq!(ChannelBranch::Middle.prefix(), "├ ");
    let direct = direct_message_entries(&vec![channel(40, None, ChannelKind::DirectMessage, false)], &Vec::new());
    assert_eq!(direct.len(), 1);
}

#[test]
fn better_matches_stand_higher() {
    let searched = vec![
        channel(1, None, ChannelKind::Text, false),
        channel(2, None, ChannelKind::Text, false),
        channel(3, None, ChannelKind::Text, false),
    ];
    let rank = |quality, score| Some(MatchRank { quality, score });
    let found = filtered_entries(&searched, &vec![rank(1, 5), None, rank(0, 9)]);
    let ids: Vec<u64> = found
        .iter()
        .map(|entry| match entry {
            ChannelPaneEntry::Channel { channel_id, .. } => *channel_id,
            _ => 0,
        })
        .collect();
    assert_eq!(ids, vec![3, 1]);
}

#[test]
fn blank_filters_keep_every_row() {
    let rows = || vec![ChannelPaneEntry::CategoryHeader { channel_id: 5, collapsed: false }];
    let searched = vec![channel(1, None, ChannelKind::Text, false)];
    let ranks = vec![Some(MatchRank { quality: 0, score: 0 })];
    assert_eq!(channel_pane_filtered_entries(&None, rows(), &searched, &ranks), rows());
    let mut filter = PaneFilterState::new();
    filter.push_char(' ');
    let filter = Some(filter);
    assert_eq!(channel_pane_filtered_entries(&filter, rows(), &searched, &ranks), rows());
    let mut filter = PaneFilterState::new();
    filter.push_char('a');
    let found = channel_pane_filtered_entries(&Some(filter), rows(), &searched, &ranks);
    assert_eq!(found, vec![ChannelPaneEntry::Channel { channel_id: 1, branch: ChannelBranch::Root }]);
}

#[test]
fn cursors_rest_on_selectable_rows() {
    let rows = vec![false, true, false, true, false];
    assert_eq!(selectable_channel_index_near(&rows, 2, true), Some(3));
    assert_eq!(selectable_channel_index_near(&rows, 2, false), Some(1));
    assert_eq!(selectable_channel_index_near(&rows, 9, true), Some(3));
    assert_eq!(selectable_channel_index_near(&vec![false], 0, true), None);
    assert_eq!(last_selectable(&rows), 3);
}

#[test]
fn conversations_show_what_the_other_does() {
    let recipient = |status, has_activity| Some(RecipientActivity { recipient_id: 9, status, has_activity });
    let rows = channel_pane_rows_from_entries(
        &vec![ChannelKind::DirectMessage, ChannelKind::DirectMessage],
        &vec![recipient(PresenceStatus::Online, true), recipient(PresenceStatus::Offline, true)],
    );
    assert_eq!(
        rows,
        vec![
            ChannelPaneRow::Entry { entry_index: 0 },
            ChannelPaneRow::Activity { owner_entry_index: 0, recipient_id: 9 },
            ChannelPaneRow::Entry { entry_index: 1 },
        ]
    );
    assert_eq!(rows[1].entry_index(), 0);
    assert!(rows[2].is_entry());
}

fn named(id: u64, name: &str, marked_unread: bool) -> SwitcherChannel {
    SwitcherChannel {
        id,
        parent_id: None,
        kind: ChannelKind::Text,
        name: name.to_owned(),
        unread: if marked_unread { ChannelUnreadState::Unread } else { ChannelUnreadState::Seen },
        unread_message_count: 0,
        marked_unread,
    }
}

#[test]
fn the_switcher_lists_what_is_unread_first() {
    let guilds = vec![SwitcherGuild {
        id: 1,
        name: "one".to_owned(),
        muted: false,
        channels: vec![named(10, "general", false), named(11, "news", true)],
    }];
    let items = all_channel_switcher_items(&Vec::new(), &guilds);
    assert_eq!(items[0].channel_id, 11);
    assert_eq!(items[0].group_label, "Notifications");
    assert_eq!(items.iter().filter(|item| item.channel_id == 10).count(), 1);
    let found = filter_channel_switcher_items(&items, "gnrl");
    assert_eq!(found.len(), 1);
    assert_eq!(found[0].channel_id, 10);
}

#[test]
fn labels_of_channels() {
    let typer = |user_id, name: &str| TypingUser { user_id, display_name: Some(name.to_owned()) };
    assert_eq!(typing_footer(&Vec::new(), None), None);
    assert_eq!(typing_footer(&vec![typer(1, "ann")], Some(1)), None);
    assert!(typing_footer(&vec![typer(1, "ann")], None).expect("someone types").contains("ann"));
    let text = Some(NamedChannel { kind: ChannelKind::Text, name: "general".to_owned() });
    assert_eq!(channel_label(&text, 7), "#general");
    assert_eq!(
        message_pane_title(Some(MessagePaneSource::PinnedMessages { channel_id: 7 }), "#general"),
        "#general pinned messages"
    );
    assert_eq!(
        message_pane_title(Some(MessagePaneSource::ChannelThreads { channel_id: 7 }), "#general"),
        "Threads · #general"
    );
    assert_eq!(message_pane_title(None, ""), "no channel");
    assert_eq!(current_voice_self_status(true, false, None), (true, false));
    assert_eq!(
        channel_subscription_command(ChannelKind::DirectMessage, None, 7),
        Some(AppCommand::SubscribeDirectMessage { channel_id: 7 })
    );
    assert_eq!(channel_subscription_command(ChannelKind::Text, None, 7), None);
    let voice = VoiceLabel {
        guild_id: Some(1),
        guild_name: Some("one".to_owned()),
        channel_id: 7,
        channel_name: Some("Lobby".to_owned()),
        other_client: false,
        broadcasting: false,
    };
    assert!(active_voice_connection_label(&voice).contains("Lobby"));
}

#[test]
fn folders_have_keys() {
    let plain = GuildFolder { id: None, name: None, guild_ids: vec![1] };
    assert_eq!(folder_key(&plain), None);
    let pair = GuildFolder { id: None, name: None, guild_ids: vec![1, 2] };
    assert_eq!(folder_key(&pair), Some(FolderKey::Guilds(vec![1, 2])));
    let mut collapsed = CollapsedFolders::new();
    collapsed.toggle(FolderKey::Id(4));
    assert!(collapsed.contains(&FolderKey::Id(4)));
    collapsed.toggle(FolderKey::Id(4));
    assert!(!collapsed.contains(&FolderKey::Id(4)));
    let guild = GuildState { id: 1, name: "one".to_owned() };
    let entries = vec![
        GuildPaneEntry::FolderHeader { folder: &pair, collapsed: false },
        GuildPaneEntry::Guild { state: &guild, branch: GuildBranch::Last },
    ];
    assert_eq!(selected_folder_key(&entries, 1), Some(FolderKey::Guilds(vec![1, 2])));
    assert_eq!(entries[0].label(), "Folder");
}

// ---- Members ----

fn member(user_id: u64, name: &str, status: PresenceStatus) -> GuildMemberState {
    GuildMemberState {
        user_id,
        display_name: name.to_owned(),
        username: Some(name.to_lowercase()),
        nickname: None,
        is_bot: false,
        status,
    }
}

#[test]
fn members_stand_in_their_groups() {
    let members = vec![member(1, "Ann", PresenceStatus::Online), member(2, "Bob", PresenceStatus::Idle)];
    let roles = vec![RoleState { id: 70, name: "Admins".to_owned(), color: Some(3) }];
    let line = |index, entry| IndexedEntry { index, entry };
    let groups = guild_member_groups(
        &vec![
            line(0, GuildMemberListEntry::Group { id: "70".to_owned(), count: 1 }),
            line(1, GuildMemberListEntry::Member { user_id: 1 }),
            line(2, GuildMemberListEntry::Group { id: "online".to_owned(), count: 1 }),
            line(3, GuildMemberListEntry::Member { user_id: 2 }),
        ],
        &members,
        &roles,
    );
    assert_eq!(groups.len(), 2);
    assert_eq!(groups[0].label, "Admins");
    assert_eq!(groups[0].color, Some(3));
    let all = flatten_member_groups(groups);
    let ids: Vec<u64> = all.iter().map(|entry| entry.user_id()).collect();
    assert_eq!(ids, vec![1, 2]);
    let entry = MemberEntry::Guild(&members[0]);
    assert_eq!(entry.display_name(), "Ann");
    assert_eq!(entry.username().as_deref(), Some("ann"));
    assert!(!entry.is_bot());
    assert_eq!(entry.status(), PresenceStatus::Online);
    let threads = thread_member_group(&members);
    assert_eq!(threads.len(), 1);
    let other = vec![ChannelRecipientState {
        user_id: 5,
        display_name: "Eve".to_owned(),
        username: None,
        is_bot: true,
        status: PresenceStatus::Unknown,
    }];
    assert_eq!(channel_recipient_group(true, &other).len(), 1);
    assert!(MemberEntry::Recipient(&other[0]).is_bot());
}

#[test]
fn members_have_lines() {
    let rows = member_rows(&vec![vec![true], vec![false]]);
    assert_eq!(
        rows,
        vec![
            MemberRow::GroupHeader { group: 0 },
            MemberRow::Member { member_index: 0 },
            MemberRow::Activity { member_index: 0 },
            MemberRow::Gap,
            MemberRow::GroupHeader { group: 1 },
            MemberRow::Member { member_index: 1 },
        ]
    );
    assert_eq!(selected_member_line(&rows, 1), 5);
    assert_eq!(select_member_near_line(&rows, 2), Some(1));
    assert_eq!(select_member_near_line(&rows, 99), Some(1));
    assert_eq!(select_member_near_line(&Vec::new(), 0), None);
    assert!(member_has_activity_row(PresenceStatus::Idle, 1));
    assert!(!member_has_activity_row(PresenceStatus::Offline, 1));
}

// ---- Cards ----

fn thread(id: u64, last_message_id: u64) -> CardThread {
    CardThread {
        id,
        parent_id: Some(7),
        is_thread: true,
        pinned: None,
        archived: Some(false),
        can_view: true,
        last_message_id: Some(last_message_id),
        has_tags: false,
        has_preview_image: false,
        height: 5,
        narrow_height: 5,
    }
}

#[test]
fn cards_follow_each_other_by_their_activity() {
    let entries = build_thread_card_entries(
        CardSource::ForumPosts { channel_id: 7 },
        &vec![thread(1, 10), thread(2, 20)],
        &Vec::new(),
        40,
    );
    assert_eq!(entries.len(), 2);
    assert_eq!(entries[0].channel_id, 2);
    assert_eq!(entries[0].section_label, Some(CardSection::ActivePosts));
    assert_eq!(entries[1].rendered_row_start, entries[0].rendered_height);
    assert_eq!(
        thread_card_total_rendered_rows(&entries),
        entries[0].rendered_height + entries[1].rendered_height
    );
    assert_eq!(thread_card_rendered_rows_before(&entries, 1), entries[0].rendered_height);
    assert!(selected_forum_is_near_loaded_end(5, 1, 3));
    assert!(!selected_forum_is_near_loaded_end(50, 1, 3));
}

#[test]
fn cards_tell_what_is_new() {
    let tags = vec![ForumTag {
        id: 3,
        name: "bug".to_owned(),
        custom_emoji_url: None,
        emoji_name: Some("🐛".to_owned()),
    }];
    let applied = forum_thread_applied_tags(&vec![3, 4], &tags);
    assert_eq!(applied.len(), 1);
    assert_eq!(applied[0].unicode_emoji.as_deref(), Some("🐛"));
    assert_eq!(
        forum_thread_new_message_count(true, Some(10), &vec![9, 11, 12], ChannelUnreadState::Unread),
        2
    );
    let channel = CardChannel {
        id: 30,
        name: "post".to_owned(),
        locked: None,
        pinned: None,
        message_count: Some(4),
        total_message_sent: None,
        last_message_id: Some(33),
        is_forum_post: true,
        post_data_loaded: true,
    };
    let message = CardMessage {
        id: 30,
        author_id: 8,
        author: "ann".to_owned(),
        author_color: None,
        has_content: true,
        attachments: vec![false, true],
        preview_text: "hello".to_owned(),
        reactions: Vec::new(),
    };
    let creator = CardCreator { user_id: 8, display_name: None, color: None };
    let card = thread_card_item(channel, None, false, Some(message), Some(creator), applied, 2);
    assert_eq!(card.preview_content.as_deref(), Some("hello"));
    assert_eq!(card.preview_image.map(|image| image.attachment), Some(1));
    assert_eq!(card.new_message_count, 2);
    assert_eq!(thread_card_preview_message(&vec![29, 30], 30, true), Some(1));
}

// ---- Emojis ----

#[test]
fn emojis_have_titles() {
    assert_eq!(unicode_emoji_label("thumbs up"), "Thumbs Up");
    assert_eq!(custom_emoji_label("party_parrot"), "Party Parrot");
    assert_eq!(unicode_emoji_label("éclair"), "Éclair");
    let quick = quick_unicode_emoji_reaction_items(&vec!["👍".to_owned(), "no emoji".to_owned()]);
    assert_eq!(quick.len(), 1);
    assert_eq!(quick[0].label, "Thumbs Up");
    let favorites = vec!["👍".to_owned()];
    assert!(is_quick_unicode_emoji("👍", &favorites));
    assert_eq!(effective_quick_unicode_emojis(&favorites), favorites);
    let rest = remaining_unicode_emoji_reaction_items(&favorites);
    assert!(rest.iter().any(|item| item.emoji == ReactionEmoji::Unicode("😀".to_owned())));
    assert!(rest.iter().all(|item| item.emoji != ReactionEmoji::Unicode("👍".to_owned())));
    let custom = CustomEmojiInfo {
        id: 5,
        name: "blob".to_owned(),
        animated: false,
        available: true,
        image_url: Some("u".to_owned()),
    };
    let all = with_custom_emojis(quick, &vec![custom]);
    assert_eq!(all.len(), 2);
    assert_eq!(all[1].custom_image_url().as_deref(), Some("u"));
    assert!(!custom_emoji_can_be_used_directly(true, false, false));
    assert!(custom_emoji_can_be_used_directly(true, true, true));
}

// ---- Names and threads ----

#[test]
fn names_come_from_where_they_are_known() {
    let mention = |nick: Option<&str>| MentionInfo {
        user_id: 1,
        guild_nick: nick.map(str::to_owned),
        display_name: "ann".to_owned(),
    };
    let name = |mentions: Vec<MentionInfo>, member: Option<&str>| {
        resolve_mention_display_name(&mentions, member.map(str::to_owned), 1)
    };
    assert_eq!(name(vec![mention(Some("Nick"))], Some("Member")).as_deref(), Some("Nick"));
    assert_eq!(name(vec![mention(None)], Some("Member")).as_deref(), Some("Member"));
    assert_eq!(name(vec![mention(None)], None).as_deref(), Some("ann"));
    assert_eq!(name(Vec::new(), None), None);
    assert_eq!(mention_highlight_kind(1, 1), TextHighlightKind::SelfMention);
    assert_eq!(mention_highlight_kind(1, 2), TextHighlightKind::OtherMention);
    assert_eq!(forwarded_snapshot_mention_guild_id(Some(1), Some(Some(2))), Some(2));
    assert_eq!(forwarded_snapshot_mention_guild_id(None, Some(Some(2))), None);
}

#[test]
fn calls_to_everyone_stand_out() {
    let mut text = RenderedText {
        text: "ä @everyone @here x@here @everyones".to_owned(),
        highlights: vec![TextHighlight { start: 14, end: 20, kind: TextHighlightKind::OtherMention }],
        emoji_slots: Vec::new(),
    };
    finish_mention_highlights(&mut text, true);
    let ranges: Vec<(usize, usize)> = text.highlights.iter().map(|h| (h.start, h.end)).collect();
    assert_eq!(ranges, vec![(3, 12), (13, 20)]);
    assert_eq!(text.highlights[1].kind, TextHighlightKind::SelfMention);
    let mut unknown = RenderedText { text: "@here".to_owned(), highlights: Vec::new(), emoji_slots: Vec::new() };
    finish_mention_highlights(&mut unknown, false);
    assert!(unknown.highlights.is_empty());
}

#[test]
fn highlights_that_meet_are_one() {
    let mark = |start, end, kind| TextHighlight { start, end, kind };
    let mut marks = vec![
        mark(8, 9, TextHighlightKind::Url),
        mark(0, 4, TextHighlightKind::OtherMention),
        mark(4, 6, TextHighlightKind::SelfMention),
    ];
    normalize_text_highlights(&mut marks);
    assert_eq!(
        marks,
        vec![mark(0, 6, TextHighlightKind::SelfMention), mark(8, 9, TextHighlightKind::Url)]
    );
}

#[test]
fn messages_lead_to_the_thread_they_began() {
    let facts = |channel_id, name: &str, viewable| ThreadFacts {
        channel_id,
        parent_id: Some(2),
        is_thread: true,
        viewable,
        name: name.to_owned(),
        message_count: Some(3),
        total_message_sent: None,
        archived: None,
        locked: None,
        latest_message_id: None,
    };
    let threads = vec![facts(60, "other", true), facts(61, "plans", true)];
    let found = |kind, referenced: Option<ThreadFacts>| {
        thread_summary_for_message(kind, &referenced, 2, &Some(" plans ".to_owned()), &threads, None)
            .map(|summary| summary.channel_id)
    };
    assert_eq!(found(THREAD_CREATED, None), Some(61));
    assert_eq!(found(THREAD_CREATED, Some(facts(70, "x", true))), Some(70));
    assert_eq!(found(THREAD_CREATED, Some(facts(70, "x", false))), Some(61));
    assert_eq!(found(0, Some(facts(70, "x", true))), None);
}

#[test]
fn lines_of_a_message_are_counted() {
    let parts = MessageLineParts {
        kind: 0,
        regular: true,
        is_reply: false,
        content_lines: 2,
        card_lines: 1,
        has_attachments: true,
        poll: None,
        embed_lines: 3,
        reaction_lines: 1,
        forwarded: None,
    };
    assert_eq!(message_base_line_count(&parts), 8);
    assert_eq!(message_rendered_height(&parts, 4, 1), 13);
    let poll = Some(PollLines { answers: 2, counted: true });
    assert_eq!(message_base_line_count(&MessageLineParts { poll, ..parts }), 1 + 8 + 1 + 3 + 1);
    assert_eq!(message_base_line_count(&MessageLineParts { poll, is_reply: true, ..parts }), 9);
    let forwarded =
        Some(ForwardedLines { content_lines: 0, has_attachments: false, embed_lines: 0, has_source: true });
    assert_eq!(message_base_line_count(&MessageLineParts { forwarded, ..parts }), 11);
    assert_eq!(system_message_line_count(46, poll), Some(4));
    assert_eq!(system_message_line_count(18, None), Some(3));
    assert_eq!(system_message_line_count(1, None), None);
}

// ---- Uploads ----

#[test]
fn previews_belong_to_their_files() {
    assert!(local_upload_preview_candidate("a.b.PNG"));
    assert!(!local_upload_preview_candidate("png"));
    assert!(!local_upload_preview_candidate("a.txt"));
    let names = vec!["a.png".to_owned(), "b.txt".to_owned(), "c.gif".to_owned()];
    let (mut previews, generation): (Vec<LocalUploadPreviewState<u8>>, u64) =
        sync_local_upload_previews(&names, Vec::new(), 0, true);
    assert_eq!((previews.len(), generation), (2, 2));
    let pending = take_pending_local_upload_preview(&mut previews, 3).expect("one waits");
    assert_eq!(pending.filename, "a.png");
    store_local_upload_preview_result(&mut previews, 0, 99, "a.png".to_owned(), Ok(7));
    assert_eq!(
        local_upload_preview_view(&previews[0]),
        LocalUploadPreviewView::Loading { filename: "a.png".to_owned() }
    );
    store_local_upload_preview_result(&mut previews, 0, 1, "a.png".to_owned(), Ok(7));
    assert_eq!(local_upload_preview_view(&previews[0]), LocalUploadPreviewView::Ready);
    let (kept, generation) = sync_local_upload_previews(&vec!["a.png".to_owned()], previews, generation, true);
    assert_eq!((kept.len(), generation), (1, 2));
    assert_eq!(local_upload_preview_view(&kept[0]), LocalUploadPreviewView::Ready);
    let (none, _) = sync_local_upload_previews(&names, kept, generation, false);
    assert!(none.is_empty());
}
