//! What is asked for, what is asked for once, and what becomes of it.

use crate::discord::{AppCommand, AppEvent};
use crate::runtime::effects::{
    brought_messages, dashboard_effect, forces_redraw, outcome_of, reconnect_commands, surfaced_by, DashboardEffect,
    EffectProcessingOutcome,
};
use crate::runtime::media_runtime::{
    decision, needs_frame, sources_after, taken_from, ImagePlace, ImagePlaces, MediaTargetsView, SourceDecision,
    MAX_ACTIVE_MEDIA_SOURCES,
};
use crate::runtime::scheduler::{
    archived_command, forum_command, history_command, member_list_command, pinned_command, preview_commands,
    search_command, taken_back, with_due_commands, DueRequests, FailedRequest,
};
use vstd::prelude::*;

verus! {

// ---- What is due ----

proof fn lemma_either(a: Seq<AppCommand>, b: Seq<AppCommand>, x: AppCommand)
    ensures
        a.contains(x) || b.contains(x) ==> (a + b).contains(x),
{
    if a.contains(x) {
        let i = choose|i: int| 0 <= i < a.len() && a[i] == x;
        assert((a + b)[i] == x);
    } else if b.contains(x) {
        let i = choose|i: int| 0 <= i < b.len() && b[i] == x;
        assert((a + b)[a.len() + i] == x);
    }
}

proof fn lemma_due(first: Seq<AppCommand>, due: DueRequests, x: AppCommand)
    ensures
        first.contains(x) || search_command(due.autocomplete_search).contains(x) || search_command(
            due.popup_search,
        ).contains(x) || history_command(due.message_history, due.message_history_is_stale).contains(x)
            || pinned_command(due.pinned_messages).contains(x) || archived_command(due.archived_threads).contains(x)
            || forum_command(due.forum_post_data).contains(x) || preview_commands(due.thread_previews@).contains(x)
            || member_list_command(due.member_list).contains(x) ==> with_due_commands(first, due).contains(x),
{
    let a = first;
    let b = a + search_command(due.autocomplete_search);
    let c = b + search_command(due.popup_search);
    let d = c + history_command(due.message_history, due.message_history_is_stale);
    let e = d + pinned_command(due.pinned_messages);
    let f = e + archived_command(due.archived_threads);
    let g = f + forum_command(due.forum_post_data);
    let h = g + preview_commands(due.thread_previews@);
    lemma_either(a, search_command(due.autocomplete_search), x);
    lemma_either(b, search_command(due.popup_search), x);
    lemma_either(c, history_command(due.message_history, due.message_history_is_stale), x);
    lemma_either(d, pinned_command(due.pinned_messages), x);
    lemma_either(e, archived_command(due.archived_threads), x);
    lemma_either(f, forum_command(due.forum_post_data), x);
    lemma_either(g, preview_commands(due.thread_previews@), x);
    lemma_either(h, member_list_command(due.member_list), x);
}

/// Everything that is due is asked for, behind the commands that come first: the searches, the history
/// of the channel, its pinned messages, its threads, its posts and the members.
pub proof fn what_is_due_is_asked_for(first: Seq<AppCommand>, due: DueRequests, i: int)
    ensures
        first.is_prefix_of(with_due_commands(first, due)),
        due.autocomplete_search matches Some(s) ==> with_due_commands(first, due).contains(
            AppCommand::SearchGuildMembers { guild_id: s.guild_id, query: s.query, limit: s.limit },
        ),
        due.popup_search matches Some(s) ==> with_due_commands(first, due).contains(
            AppCommand::SearchGuildMembers { guild_id: s.guild_id, query: s.query, limit: s.limit },
        ),
        due.message_history matches Some(channel_id) ==> due.message_history_is_stale ==> with_due_commands(
            first,
            due,
        ).contains(AppCommand::RefreshMessageHistory { channel_id }),
        due.message_history matches Some(channel_id) ==> !due.message_history_is_stale ==> with_due_commands(
            first,
            due,
        ).contains(AppCommand::LoadMessageHistory { channel_id, before: None }),
        due.pinned_messages matches Some(channel_id) ==> with_due_commands(first, due).contains(
            AppCommand::LoadPinnedMessages { channel_id },
        ),
        due.archived_threads matches Some(t) ==> with_due_commands(first, due).contains(
            AppCommand::LoadArchivedThreads { guild_id: t.guild_id, channel_id: t.channel_id, before: t.before },
        ),
        due.forum_post_data matches Some(t) ==> with_due_commands(first, due).contains(
            AppCommand::LoadForumPostData { guild_id: t.guild_id, channel_id: t.channel_id, thread_ids: t.thread_ids },
        ),
        0 <= i < due.thread_previews@.len() ==> with_due_commands(first, due).contains(
            AppCommand::LoadThreadPreview {
                channel_id: due.thread_previews@[i].channel_id,
                message_id: due.thread_previews@[i].message_id,
            },
        ),
        due.member_list matches Some(t) ==> with_due_commands(first, due).contains(
            AppCommand::UpdateMemberListSubscription {
                guild_id: t.guild_id,
                channel_id: t.channel_id,
                thread_id: t.thread_id,
                ranges: t.ranges,
            },
        ),
{
    if due.autocomplete_search is Some {
        let parts = search_command(due.autocomplete_search);
        assert(parts[0] == parts[0] && parts.contains(parts[0]));
        lemma_due(first, due, parts[0]);
    }
    if due.popup_search is Some {
        let parts = search_command(due.popup_search);
        assert(parts[0] == parts[0] && parts.contains(parts[0]));
        lemma_due(first, due, parts[0]);
    }
    if due.message_history is Some {
        let parts = history_command(due.message_history, due.message_history_is_stale);
        assert(parts[0] == parts[0] && parts.contains(parts[0]));
        lemma_due(first, due, parts[0]);
    }
    if due.pinned_messages is Some {
        let parts = pinned_command(due.pinned_messages);
        assert(parts[0] == parts[0] && parts.contains(parts[0]));
        lemma_due(first, due, parts[0]);
    }
    if due.archived_threads is Some {
        let parts = archived_command(due.archived_threads);
        assert(parts[0] == parts[0] && parts.contains(parts[0]));
        lemma_due(first, due, parts[0]);
    }
    if due.forum_post_data is Some {
        let parts = forum_command(due.forum_post_data);
        assert(parts[0] == parts[0] && parts.contains(parts[0]));
        lemma_due(first, due, parts[0]);
    }
    if 0 <= i < due.thread_previews@.len() {
        let parts = preview_commands(due.thread_previews@);
        assert(parts[i] == parts[i] && parts.contains(parts[i]));
        lemma_due(first, due, parts[i]);
    }
    if due.member_list is Some {
        let parts = member_list_command(due.member_list);
        assert(parts[0] == parts[0] && parts.contains(parts[0]));
        lemma_due(first, due, parts[0]);
    }
}

/// How many requests are due.
pub open spec fn due_count(due: DueRequests) -> int {
    (if due.autocomplete_search is Some { 1int } else { 0 }) + (if due.popup_search is Some { 1int } else { 0 }) + (
    if due.message_history is Some { 1int } else { 0 }) + (if due.pinned_messages is Some { 1int } else { 0 }) + (
    if due.archived_threads is Some { 1int } else { 0 }) + (if due.forum_post_data is Some { 1int } else { 0 })
        + due.thread_previews@.len() + (if due.member_list is Some { 1int } else { 0 })
}

/// Nothing is asked for that is not due, and nothing twice: there is one command for each request.
pub proof fn nothing_else_is_asked_for(first: Seq<AppCommand>, due: DueRequests)
    ensures
        with_due_commands(first, due).len() == first.len() + due_count(due),
{
}

/// A command that could not be sent is taken back for the channel that it asked about, so that what was
/// due is due again. What is asked for in passing is not taken back.
pub proof fn failed_requests_are_those_that_were_due(due: DueRequests, i: int)
    ensures
        due.message_history matches Some(channel_id) ==> taken_back(
            history_command(due.message_history, due.message_history_is_stale)[0],
        ) == Some(FailedRequest::MessageHistory { channel_id }),
        due.pinned_messages matches Some(channel_id) ==> taken_back(pinned_command(due.pinned_messages)[0]) == Some(
            FailedRequest::PinnedMessages { channel_id },
        ),
        due.archived_threads matches Some(t) ==> taken_back(archived_command(due.archived_threads)[0]) == Some(
            FailedRequest::ArchivedThreads { channel_id: t.channel_id, before: t.before },
        ),
        due.forum_post_data matches Some(t) ==> taken_back(forum_command(due.forum_post_data)[0]) == Some(
            FailedRequest::ForumPostData { channel_id: t.channel_id, thread_ids: t.thread_ids },
        ),
        0 <= i < due.thread_previews@.len() ==> taken_back(preview_commands(due.thread_previews@)[i]) == Some(
            FailedRequest::ThreadPreview {
                channel_id: due.thread_previews@[i].channel_id,
                message_id: due.thread_previews@[i].message_id,
            },
        ),
        due.popup_search is Some ==> taken_back(search_command(due.popup_search)[0]) is None,
        due.member_list is Some ==> taken_back(member_list_command(due.member_list)[0]) is None,
{
}

// ---- Images ----

/// An image is loaded only where nobody has it, and nobody gets it: it is not at hand, not being decoded
/// and not on its way. Then it is loaded at once, unless too many are on their way.
pub proof fn images_are_loaded_once(
    active: Set<Seq<char>>,
    url: Seq<char>,
    at_hand: bool,
    waiting: nat,
    decoding: bool,
)
    requires
        active.finite(),
        active.len() <= MAX_ACTIVE_MEDIA_SOURCES,
    ensures
        decision(active, Some(url), at_hand, waiting, decoding) == SourceDecision::Load ==> !at_hand && !decoding
            && !active.contains(url) && active.insert(url).len() <= MAX_ACTIVE_MEDIA_SOURCES,
        !at_hand && !decoding && !active.contains(url) && active.len() < MAX_ACTIVE_MEDIA_SOURCES ==> decision(
            active,
            Some(url),
            at_hand,
            waiting,
            decoding,
        ) == SourceDecision::Load,
        decision(active, Some(url), at_hand, waiting, decoding) == SourceDecision::Defer ==> !at_hand && !decoding
            && !active.contains(url) && active.len() == MAX_ACTIVE_MEDIA_SOURCES,
        decision(active, Some(url), at_hand, waiting, decoding) == SourceDecision::Wait <==> !at_hand && !decoding
            && active.contains(url),
        decision(active, Some(url), at_hand, waiting, decoding) == SourceDecision::Join <==> !at_hand && decoding,
        decision(active, Some(url), at_hand, waiting, decoding) is Reuse <==> at_hand,
        decision(active, Some(url), at_hand, waiting, decoding) != SourceDecision::Forward,
        decision(active, None, at_hand, waiting, decoding) == SourceDecision::Forward,
{
}

/// A frame is drawn where a request changes what is shown: someone waited for an image that is at hand,
/// or an image is now on its way. An image that nobody waited for, one that is decoded or on its way
/// already and one that is put off change nothing.
pub proof fn requests_are_drawn_once(active: Set<Seq<char>>, url: Seq<char>, waiting: nat, decoding: bool)
    ensures
        needs_frame(decision(active, Some(url), true, waiting, decoding)) <==> waiting > 0,
        needs_frame(decision(active, Some(url), false, waiting, decoding)) <==> !decoding && !active.contains(url)
            && active.len() < MAX_ACTIVE_MEDIA_SOURCES,
        needs_frame(decision(active, None, false, waiting, decoding)),
{
}

/// An image that failed, and one that came when nobody shows it, can be asked for again. Those of other
/// addresses stay on their way, and so does one that came and is shown: it is decoded next.
pub proof fn lost_images_can_be_asked_for_again(
    active: Set<Seq<char>>,
    targets: MediaTargetsView,
    event: AppEvent,
    other: Seq<char>,
    waiting: nat,
)
    ensures
        event matches AppEvent::AttachmentPreviewLoadFailed { url, .. } ==> decision(
            sources_after(active, targets, event),
            Some(url@),
            false,
            waiting,
            false,
        ) != SourceDecision::Wait,
        event matches AppEvent::AttachmentPreviewLoaded { url, .. } ==> !targets.shows(url@) ==> decision(
            sources_after(active, targets, event),
            Some(url@),
            false,
            waiting,
            false,
        ) != SourceDecision::Wait,
        event matches AppEvent::AttachmentPreviewLoaded { url, .. } ==> targets.shows(url@) ==> sources_after(
            active,
            targets,
            event,
        ) == active,
        event matches AppEvent::AttachmentPreviewLoadFailed { url, .. } ==> url@ != other ==> (sources_after(
            active,
            targets,
            event,
        ).contains(other) <==> active.contains(other)),
        event matches AppEvent::AttachmentPreviewLoaded { url, .. } ==> url@ != other ==> (sources_after(
            active,
            targets,
            event,
        ).contains(other) <==> active.contains(other)),
        !(event is AttachmentPreviewLoaded) && !(event is AttachmentPreviewLoadFailed) ==> sources_after(
            active,
            targets,
            event,
        ) == active,
{
}

/// Whether a place holds an image.
pub open spec fn is_held(places: ImagePlaces, place: ImagePlace) -> bool {
    match place {
        ImagePlace::Decoded => places.decoded,
        ImagePlace::Previews => places.previews,
        ImagePlace::Avatars => places.avatars,
        ImagePlace::Emojis => places.emojis,
    }
}

/// An image is taken from a place that holds it, never from the place that asks, unless it was decoded
/// for all, and it is taken from somewhere whenever another place holds it.
pub proof fn images_are_taken_from_another_place(places: ImagePlaces, own: Option<ImagePlace>, place: ImagePlace)
    ensures
        taken_from(places, own) matches Some(p) ==> is_held(places, p) && (p == ImagePlace::Decoded || own != Some(p)),
        is_held(places, place) && own != Some(place) ==> taken_from(places, own) is Some,
        places.decoded ==> taken_from(places, own) == Some(ImagePlace::Decoded),
{
}

// ---- Events ----

/// Events that change the session, or what is on its way, are drawn at once: the connection was lost or
/// is back, the user is signed out, an image came or failed. Messages wait for the state that they
/// become a part of.
pub proof fn events_of_the_session_are_drawn(
    event: AppEvent,
    subscription: Option<AppCommand>,
    catch_up: Option<AppCommand>,
    active: Set<Seq<char>>,
    targets: MediaTargetsView,
)
    ensures
        dashboard_effect(event) is Close || dashboard_effect(event) is SignOut ==> forces_redraw(event),
        reconnect_commands(event, subscription, catch_up).len() > 0 ==> forces_redraw(event),
        sources_after(active, targets, event) != active ==> forces_redraw(event),
        brought_messages(event) is Some ==> !forces_redraw(event),
        dashboard_effect(event) matches DashboardEffect::Push { event: pushed } ==> pushed == event,
        dashboard_effect(event) is SetRichPresence <==> event is RichPresenceDetected,
        dashboard_effect(event) is Close <==> event is GatewayClosed,
        dashboard_effect(event) is SignOut <==> event is SignedOut,
{
}

/// A session that goes on catches up on what it missed, and a new session also subscribes anew, before
/// that.
pub proof fn sessions_catch_up(event: AppEvent, subscription: AppCommand, catch_up: AppCommand)
    ensures
        event is GatewayResumed ==> reconnect_commands(event, Some(subscription), Some(catch_up)) == seq![catch_up],
        event is GatewayReidentified ==> reconnect_commands(event, Some(subscription), Some(catch_up)) == seq![
            subscription,
            catch_up,
        ],
        event is GatewayReidentified ==> reconnect_commands(event, Some(subscription), None) == seq![subscription],
        event is GatewayReidentified ==> reconnect_commands(event, None, Some(catch_up)) == seq![catch_up],
        !(event is GatewayResumed) && !(event is GatewayReidentified) ==> reconnect_commands(
            event,
            Some(subscription),
            Some(catch_up),
        ).len() == 0,
{
}

/// Two batches of events have the outcome of both together.
pub proof fn outcomes_add_up(a: Seq<AppEvent>, b: Seq<AppEvent>)
    ensures
        outcome_of(a + b) == (EffectProcessingOutcome {
            processed_event: outcome_of(a).processed_event || outcome_of(b).processed_event,
            force_redraw: outcome_of(a).force_redraw || outcome_of(b).force_redraw,
        }),
        a.len() == 1 ==> outcome_of(a) == (EffectProcessingOutcome {
            processed_event: true,
            force_redraw: forces_redraw(a[0]),
        }),
        a.len() == 0 ==> !outcome_of(a).processed_event && !outcome_of(a).force_redraw,
{
    let all = a + b;
    if outcome_of(a).force_redraw {
        let i = choose|i: int| 0 <= i < a.len() && forces_redraw(#[trigger] a[i]);
        assert(forces_redraw(all[i]));
    }
    if outcome_of(b).force_redraw {
        let i = choose|i: int| 0 <= i < b.len() && forces_redraw(#[trigger] b[i]);
        assert(forces_redraw(all[a.len() + i]));
    }
    if outcome_of(all).force_redraw {
        let i = choose|i: int| 0 <= i < all.len() && forces_redraw(#[trigger] all[i]);
        if i < a.len() {
            assert(forces_redraw(a[i]));
        } else {
            assert(forces_redraw(b[i - a.len()]));
        }
    }
}

/// Messages make their authors visible, a changed message those whom it mentions, and reactions those
/// who reacted, each where it happened and in order.
pub proof fn everyone_involved_is_surfaced(event: AppEvent, i: int)
    ensures
        brought_messages(event) matches Some(messages) ==> surfaced_by(event).len() == messages.len() && (0 <= i
            < messages.len() ==> surfaced_by(event)[i].user_id == messages[i].author_id
            && surfaced_by(event)[i].channel_id == messages[i].channel_id && surfaced_by(event)[i].guild_id
            == messages[i].guild_id),
        event matches AppEvent::MessageUpdateDispatch { channel_id, guild_id, mentions: Some(users) } ==> surfaced_by(
            event,
        ).len() == users@.len() && (0 <= i < users@.len() ==> surfaced_by(event)[i].user_id == users@[i]
            && surfaced_by(event)[i].channel_id == channel_id && surfaced_by(event)[i].guild_id == guild_id),
        event matches AppEvent::ReactionUsersLoaded { channel_id, users, .. } ==> surfaced_by(event).len()
            == users@.len() && (0 <= i < users@.len() ==> surfaced_by(event)[i].user_id == users@[i].user_id
            && surfaced_by(event)[i].channel_id == channel_id),
{
}

/// An event that brings a message or more is one of them: a new message, or a part of a history, a
/// search, the pinned messages or the inbox.
pub proof fn histories_bring_their_messages(event: AppEvent)
    ensures
        event matches AppEvent::MessageCreate { message } ==> brought_messages(event) == Some(seq![message]),
        event matches AppEvent::MessageHistoryLoaded { messages, .. } ==> brought_messages(event) == Some(messages@),
        event matches AppEvent::PinnedMessagesLoaded { messages, .. } ==> brought_messages(event) == Some(messages@),
        event matches AppEvent::MessageSearchLoaded { messages } ==> brought_messages(event) == Some(messages@),
{
}

} // verus!
