use concord::discord::{AppEvent, ChannelInfo, ForumPostArchiveState, MessageHistoryLoadTarget};
use concord::requests::{
    normalize_mention_member_search_query, ForumPostRequestTarget, ForumPostRequests, HistoryRequests,
    MemberRequests, MentionMemberSearchRequests, MentionMemberSearchTarget, PinnedMessageRequests,
    ThreadPreviewRequests, DEBOUNCE_MILLIS, MAX_QUERY_CHARS, REQUEST_TTL_MILLIS,
};

#[test]
fn history_request_is_sent_once_and_retries_failed_channel_after_reselect() {
    let mut requests = HistoryRequests::default();
    let first = 1;
    let second = 2;

    assert_eq!(requests.next(None, false), None);
    assert_eq!(requests.next(Some(first), false), Some(first));
    assert_eq!(requests.next(Some(first), false), None);
    requests.record_event(&AppEvent::MessageHistoryLoadFailed {
        channel_id: first,
        target: MessageHistoryLoadTarget::Latest,
        message: "temporary failure".to_owned(),
    });
    assert_eq!(requests.next(Some(first), false), None);
    assert_eq!(requests.next(Some(second), false), Some(second));
    assert_eq!(requests.next(Some(first), false), Some(first));

    let mut requests = HistoryRequests::default();
    let first = 1;
    let second = 2;

    assert_eq!(requests.next(Some(first), false), Some(first));
    requests.record_event(&AppEvent::MessageHistoryLoaded {
        channel_id: first,
        before: None,
        messages: Vec::new(),
    });
    assert_eq!(requests.next(Some(first), true), None);
    assert_eq!(requests.next(Some(second), false), Some(second));
    assert_eq!(requests.next(Some(first), true), Some(first));
}

#[test]
fn history_is_not_reloaded_without_need() {
    let mut requests = HistoryRequests::default();
    assert_eq!(requests.next(Some(1), false), Some(1));
    requests.record_event(&AppEvent::MessageHistoryLoaded {
        channel_id: 1,
        before: None,
        messages: Vec::new(),
    });
    assert_eq!(requests.next(Some(2), false), Some(2));
    assert_eq!(requests.next(Some(1), false), None);
    requests.mark_failed(1);
    assert_eq!(requests.next(Some(1), false), None);
    assert_eq!(requests.next(None, false), None);
    assert_eq!(requests.next(Some(1), false), Some(1));
}

#[test]
fn pinned_messages_are_requested_once_and_after_a_failure() {
    let mut requests = PinnedMessageRequests::default();
    assert_eq!(requests.next(Some(7)), Some(7));
    assert_eq!(requests.next(Some(7)), None);
    requests.record_event(&AppEvent::PinnedMessagesLoadFailed {
        channel_id: 7,
        message: "offline".to_owned(),
    });
    assert_eq!(requests.next(Some(7)), None);
    assert_eq!(requests.next(None), None);
    assert_eq!(requests.next(Some(7)), Some(7));
}

fn target(guild_id: u64, channel_id: u64, should_load_more: bool) -> ForumPostRequestTarget {
    ForumPostRequestTarget { guild_id, channel_id, should_load_more }
}

fn forum_post(forum_id: u64, channel_id: u64) -> ChannelInfo {
    ChannelInfo {
        guild_id: Some(100),
        channel_id,
        parent_id: Some(forum_id),
        name: format!("post {channel_id}"),
    }
}

#[test]
fn forum_post_request_is_sent_once_per_channel() {
    let mut requests = ForumPostRequests::default();
    let guild = 100;
    let first = 1;
    let second = 2;

    assert_eq!(requests.next(None), None);
    assert_eq!(
        requests.next(Some(target(guild, first, false))),
        Some((guild, first, ForumPostArchiveState::Active, 0))
    );
    assert_eq!(requests.next(Some(target(guild, first, false))), None);
    assert_eq!(
        requests.next(Some(target(guild, second, false))),
        Some((guild, second, ForumPostArchiveState::Active, 0))
    );
}

#[test]
fn forum_post_request_retries_failed_channel_after_reselect() {
    let mut requests = ForumPostRequests::default();
    let guild = 100;
    let first = 1;
    let second = 2;

    assert_eq!(
        requests.next(Some(target(guild, first, false))),
        Some((guild, first, ForumPostArchiveState::Active, 0))
    );
    requests.record_event(&AppEvent::ForumPostsLoadFailed {
        channel_id: first,
        archive_state: ForumPostArchiveState::Active,
        offset: 0,
        message: "temporary failure".to_owned(),
    });
    assert_eq!(requests.next(Some(target(guild, first, false))), None);
    assert_eq!(
        requests.next(Some(target(guild, second, false))),
        Some((guild, second, ForumPostArchiveState::Active, 0))
    );
    assert_eq!(
        requests.next(Some(target(guild, first, false))),
        Some((guild, first, ForumPostArchiveState::Active, 0))
    );
}

#[test]
fn forum_post_request_tracks_active_archived_and_server_offsets() {
    let mut requests = ForumPostRequests::default();
    let guild = 100;
    let channel = 1;

    assert_eq!(
        requests.next(Some(target(guild, channel, false))),
        Some((guild, channel, ForumPostArchiveState::Active, 0))
    );
    requests.record_event(&AppEvent::ForumPostsLoaded {
        channel_id: channel,
        archive_state: ForumPostArchiveState::Active,
        offset: 0,
        next_offset: 2,
        posts: vec![forum_post(channel, 10), forum_post(channel, 11)],
        first_messages: Vec::new(),
        has_more: true,
    });

    assert_eq!(requests.next(Some(target(guild, channel, false))), None);
    assert_eq!(
        requests.next(Some(target(guild, channel, true))),
        Some((guild, channel, ForumPostArchiveState::Active, 2))
    );
    requests.record_event(&AppEvent::ForumPostsLoaded {
        channel_id: channel,
        archive_state: ForumPostArchiveState::Active,
        offset: 2,
        next_offset: 3,
        posts: vec![forum_post(channel, 12)],
        first_messages: Vec::new(),
        has_more: false,
    });

    assert_eq!(requests.next(Some(target(guild, channel, false))), None);
    assert_eq!(
        requests.next(Some(target(guild, channel, true))),
        Some((guild, channel, ForumPostArchiveState::Archived, 0))
    );
    requests.record_event(&AppEvent::ForumPostsLoaded {
        channel_id: channel,
        archive_state: ForumPostArchiveState::Archived,
        offset: 0,
        next_offset: 2,
        posts: vec![forum_post(channel, 11), forum_post(channel, 12)],
        first_messages: Vec::new(),
        has_more: true,
    });

    assert_eq!(
        requests.next(Some(target(guild, channel, true))),
        Some((guild, channel, ForumPostArchiveState::Archived, 2))
    );

    let mut requests = ForumPostRequests::default();
    let channel = 2;

    assert_eq!(
        requests.next(Some(target(guild, channel, false))),
        Some((guild, channel, ForumPostArchiveState::Active, 0))
    );
    requests.record_event(&AppEvent::ForumPostsLoaded {
        channel_id: channel,
        archive_state: ForumPostArchiveState::Active,
        offset: 0,
        next_offset: 25,
        posts: vec![forum_post(channel, 10), forum_post(channel, 11)],
        first_messages: Vec::new(),
        has_more: true,
    });

    assert_eq!(
        requests.next(Some(target(guild, channel, true))),
        Some((guild, channel, ForumPostArchiveState::Active, 25))
    );
}

#[test]
fn member_request_is_sent_once_per_active_guild() {
    let mut requests = MemberRequests::default();
    let first = 1;
    let second = 2;

    assert_eq!(requests.next(None), None);
    assert_eq!(requests.next(Some(first)), Some(first));
    assert_eq!(requests.next(Some(first)), None);
    assert_eq!(requests.next(Some(second)), Some(second));
    assert_eq!(requests.next(Some(first)), None);
}

#[test]
fn member_request_can_retry_after_remove() {
    let mut requests = MemberRequests::default();
    let guild_id = 1;

    assert_eq!(requests.next(Some(guild_id)), Some(guild_id));
    requests.remove(guild_id);

    assert_eq!(requests.next(Some(guild_id)), Some(guild_id));
}

fn search(guild_id: u64, query: &str) -> Option<MentionMemberSearchTarget> {
    Some(MentionMemberSearchTarget { guild_id, query: query.to_owned() })
}

#[test]
fn mention_member_search_debounces_bounds_and_retries_queries() {
    let mut requests = MentionMemberSearchRequests::default();
    let guild_id = 1;
    let now: u64 = 1_000_000;

    requests.set_target(search(guild_id, "A"), now);
    assert_eq!(requests.pending_deadline(), None);

    requests.set_target(search(guild_id, " Alice "), now);
    let deadline = requests.pending_deadline().expect("valid query should arm debounce");
    assert_eq!(requests.next_due(deadline - 1), None);
    assert_eq!(requests.next_due(deadline), search(guild_id, "alice"));

    requests.set_target(search(guild_id, "ALICE"), now + 1_000);
    assert_eq!(requests.pending_deadline(), None);

    let retry_at = deadline + REQUEST_TTL_MILLIS + 1;
    requests.set_target(search(guild_id, "alice"), retry_at);
    assert!(requests.pending_deadline().is_some());

    let long_query = "A".repeat(MAX_QUERY_CHARS + 10);
    requests.set_target(search(guild_id, &long_query), retry_at + 1);
    let deadline = requests
        .pending_deadline()
        .expect("long query should still search by capped prefix");
    let target = requests.next_due(deadline).expect("capped query should be due");
    assert_eq!(target.query.chars().count(), MAX_QUERY_CHARS);
    assert!(target.query.chars().all(|ch| ch == 'a'));

    let expanding_query = "İ".repeat(MAX_QUERY_CHARS + 10);
    requests.set_target(search(guild_id, &expanding_query), retry_at + 2);
    let deadline = requests
        .pending_deadline()
        .expect("expanding query should still search by capped prefix");
    let target = requests.next_due(deadline).expect("expanded lowercase query should be due");
    assert_eq!(target.query.chars().count(), MAX_QUERY_CHARS);
}

#[test]
fn searches_wait_for_the_user_to_pause() {
    let mut requests = MentionMemberSearchRequests::default();
    requests.set_target(search(1, "bob"), 100);
    assert_eq!(requests.pending_deadline(), Some(100 + DEBOUNCE_MILLIS));
    requests.set_target(search(1, "bobb"), 200);
    assert_eq!(requests.pending_deadline(), Some(200 + DEBOUNCE_MILLIS));
    requests.set_target(None, 300);
    assert_eq!(requests.pending_deadline(), None);
}

#[test]
fn queries_are_trimmed_and_lowered() {
    assert_eq!(normalize_mention_member_search_query("  BoB "), "bob");
    assert_eq!(normalize_mention_member_search_query("ÄÖ"), "äö");
    assert_eq!(normalize_mention_member_search_query("   "), "");
}

#[test]
fn thread_preview_request_retries_after_failed_card_is_revisited() {
    let mut requests = ThreadPreviewRequests::default();
    let key = (10, 30);

    assert_eq!(requests.next(vec![key]), vec![key]);
    requests.record_event(&AppEvent::ThreadPreviewLoadFailed {
        channel_id: key.0,
        message_id: key.1,
    });

    assert_eq!(requests.next(vec![key]), Vec::new());
    assert_eq!(requests.next(Vec::new()), Vec::new());
    assert_eq!(requests.next(vec![key]), vec![key]);
}
