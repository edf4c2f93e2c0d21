//! What is done with messages, guilds and channels, and to which of them.

use crate::discord::AppCommand;
use crate::ids::{ChannelId, GuildId, MessageId, UserId};
use crate::message::time::{unix_millis, unix_second};
use crate::state::channel_pane::ChannelKind;
use crate::state::channel_text::{subscription, voice_text, VoiceLabel};
use crate::state::composer::ComposerState;
use crate::state::dashboard::DashboardState;
use crate::state::gif_picker::{insertable, is_control};
use crate::state::guilds::ActiveGuildScope;
use crate::state::mentions::{place_of_thread, thread_of_message, ThreadFacts};
use crate::state::message_actions::{is_outcome, ActionMessage, MessageActionOutcome};
use crate::state::message_viewport::{place_of, MessageViewport, PaneContent};
use crate::state::model::MessageActionKind;
use crate::state::navigation::ChannelNavigation;
use crate::state::thread_cards::card_message;
use crate::text::{contains_text, opt_text, starts_with};
use crate::unicode::{is_space, trimmed};
use vstd::prelude::*;
use vstd::string::*;

verus! {

// ---- Messages ----

/// Whether a command is about a message, or about the channel that it stands in.
pub open spec fn is_about(command: AppCommand, m: ActionMessage) -> bool {
    match command {
        AppCommand::DeleteMessage { channel_id, message_id } => channel_id == m.channel_id && message_id == m.message_id,
        AppCommand::LoadPinnedMessages { channel_id } => channel_id == m.channel_id,
        AppCommand::RemoveReaction { channel_id, message_id, .. } => channel_id == m.channel_id && message_id
            == m.message_id,
        AppCommand::LoadReactionUsers { channel_id, message_id, .. } => channel_id == m.channel_id && message_id
            == m.message_id,
        AppCommand::SetMessagePinned { channel_id, message_id, .. } => channel_id == m.channel_id && message_id
            == m.message_id,
        AppCommand::VotePoll { channel_id, message_id, .. } => channel_id == m.channel_id && message_id == m.message_id,
        _ => false,
    }
}

/// Whatever is done with a message, only commands about that message are sent.
pub proof fn deeds_are_about_their_message(
    outcome: MessageActionOutcome,
    kind: MessageActionKind,
    m: ActionMessage,
    user: Option<UserId>,
)
    requires
        is_outcome(outcome, kind, m, user),
    ensures
        outcome matches MessageActionOutcome::Send(command) ==> is_about(command, m),
        outcome matches MessageActionOutcome::Thread(channel_id) ==> m.thread == Some(channel_id),
        outcome matches MessageActionOutcome::Profile { user_id, guild_id } ==> user_id == m.author_id && guild_id
            == m.guild_id,
{
}

/// A message is deleted only by its author, and always where the author asks for it.
pub proof fn only_own_messages_are_deleted(
    outcome: MessageActionOutcome,
    kind: MessageActionKind,
    m: ActionMessage,
    user: UserId,
)
    requires
        is_outcome(outcome, kind, m, Some(user)),
    ensures
        outcome matches MessageActionOutcome::Send(command) ==> command is DeleteMessage ==> user == m.author_id
            && kind is Delete,
        kind is Delete && user == m.author_id ==> outcome is Send,
        kind is Delete && user != m.author_id ==> outcome is Closed,
{
}

/// The reaction that is taken back is the one that was asked for, and a pin is set as it was asked for.
pub proof fn deeds_do_what_was_asked(
    outcome: MessageActionOutcome,
    kind: MessageActionKind,
    m: ActionMessage,
    user: Option<UserId>,
)
    requires
        is_outcome(outcome, kind, m, user),
    ensures
        kind matches MessageActionKind::RemoveReaction(i) ==> i < m.reactions@.len() ==> (outcome
            matches MessageActionOutcome::Send(AppCommand::RemoveReaction { emoji, .. }) && emoji
            == m.reactions@[i as int].emoji),
        kind matches MessageActionKind::SetPinned(p) ==> (outcome
            matches MessageActionOutcome::Send(AppCommand::SetMessagePinned { pinned, .. }) && pinned == p),
        kind matches MessageActionKind::ShowReactionUsers ==> m.reactions@.len() > 0 ==> (outcome
            matches MessageActionOutcome::Send(AppCommand::LoadReactionUsers { reactions, .. }) && reactions@.len()
            == m.reactions@.len() && forall|i: int|
            0 <= i < reactions@.len() ==> #[trigger] reactions@[i] == m.reactions@[i].emoji),
        outcome is ReplyComposer <==> kind is Reply,
        outcome is EditComposer <==> kind is Edit,
        outcome is ImageViewer <==> kind is ViewImage,
        outcome is ReactionPicker <==> kind is AddReaction,
        outcome is PollVotePicker <==> kind is OpenPollVotePicker,
{
}

/// The second of a message is that of its millisecond, and it does not go back with later messages.
pub proof fn later_messages_have_later_seconds(a: MessageId, b: MessageId)
    ensures
        unix_second(a) * 1000 <= unix_millis(a) < unix_second(a) * 1000 + 1000,
        a <= b ==> unix_second(a) <= unix_second(b),
{
}

// ---- The cursor ----

/// The row of the cursor is counted from the first item that is shown. There is one wherever the pane
/// has the keys and the cursor is on an item that is shown.
pub proof fn the_row_of_the_cursor_is_counted_from_the_top(v: MessageViewport, c: PaneContent)
    ensures
        v.focused_row(c) is Some ==> c.focused && c.items() > 0,
        v.focused_row(c) is Some && c.items() <= usize::MAX ==> v.message_scroll + v.focused_row(c)->0 == v.cursor(c),
        c.focused && !c.forum && v.message_scroll <= v.cursor(c) && v.cursor(c) < v.visible_to(c) ==> v.focused_row(
            c,
        ) is Some,
        c.focused && c.forum && v.message_scroll <= v.cursor(c) && v.cursor(c) < v.visible_cards(c).1 && c.items() > 0
            ==> v.focused_row(c) is Some,
        !c.forum && v.focused_row(c) is Some && v.message_scroll <= c.len() ==> v.cursor(c) < v.visible_to(c),
{
}

// ---- Guilds and channels ----

/// A guild that is opened is shown from the top: no channel of it is open yet, and the cursors stand on
/// the first row. The list of guilds and what is being written stay.
pub proof fn guilds_open_at_the_top(d: DashboardState, scope: ActiveGuildScope)
    ensures
        ({
            let e = d.guild_activated(scope);
            &&& e.active_guild == scope
            &&& e.navigation.active_channel_id is None
            &&& e.channels.selected == 0 && e.channels.scroll == 0 && e.members.selected == 0
            &&& e.navigation.viewport.selected_message == 0 && e.navigation.viewport.message_scroll == 0
            &&& e.navigation.viewport.message_auto_follow
            &&& e.navigation.recent_channel_ids == d.navigation.recent_channel_ids
            &&& e.focus == d.focus && e.guilds == d.guilds && e.composer == d.composer
            &&& e.guild_activated(scope) == e
        }),
{
}

/// The messages that are shown are those of the channel that is open, unless its pinned messages or its
/// threads are shown, or it is a forum.
pub proof fn the_history_is_that_of_the_open_channel(n: ChannelNavigation, forum: bool)
    ensures
        n.history(forum) matches Some(id) ==> n.active_channel_id == Some(id) && !forum,
        n.history(forum) is Some <==> n.source(forum) is Some && (n.source(forum)->0 is ChannelMessages),
        n.active_channel_id is Some && n.pinned_message_view_channel_id is None && n.thread_list_view_channel_id is None
            && !forum ==> n.history(forum) == n.active_channel_id,
{
}

/// A conversation is followed by itself, and a channel with the guild that it is in. Without a guild,
/// there is nothing to follow.
pub proof fn channels_are_followed_with_their_guild(kind: ChannelKind, guild: Option<GuildId>, id: ChannelId)
    ensures
        subscription(kind, guild, id) is None <==> guild is None && !(kind is DirectMessage) && !(
        kind is GroupDirectMessage),
        subscription(kind, guild, id) matches Some(AppCommand::SubscribeGuildChannel { guild_id, channel_id })
            ==> guild == Some(guild_id) && channel_id == id && !(kind is DirectMessage) && !(kind is GroupDirectMessage),
        subscription(kind, guild, id) matches Some(AppCommand::SubscribeDirectMessage { channel_id }) ==> channel_id == id
            && (kind is DirectMessage || kind is GroupDirectMessage),
{
}

pub(crate) proof fn lemma_within(a: Seq<char>, b: Seq<char>, c: Seq<char>)
    ensures
        contains_text(a + b + c, b),
{
    let s = a + b + c;
    assert(s.skip(a.len() as int).take(b.len() as int) =~= b);
    assert(starts_with(s.skip(a.len() as int), b));
}

/// The call in the header is told by the names of its guild and its channel, where they are known.
pub proof fn calls_are_told_by_their_names(v: VoiceLabel)
    ensures
        v.guild_id is Some ==> (opt_text(v.guild_name) matches Some(name) ==> contains_text(voice_text(v), name)),
        opt_text(v.channel_name) matches Some(name) ==> contains_text(voice_text(v), name),
        v.guild_id is None ==> contains_text(voice_text(v), "Direct Messages"@),
        v.other_client ==> contains_text(voice_text(v), " (other client)"@),
        v.broadcasting ==> contains_text(voice_text(v), " 🔴"@),
{
    reveal_strlit(" (other client) 🔴");
    reveal_strlit(" (other client)");
    reveal_strlit(" 🔴");
    let text = voice_text(v);
    let prefix = match v.guild_id {
        Some(id) => crate::state::channel_text::name_or_id(opt_text(v.guild_name), id, "guild-"@),
        None => "Direct Messages"@,
    };
    let name = crate::state::channel_text::name_or_id(opt_text(v.channel_name), v.channel_id, "channel-"@);
    let front = prefix + " - "@;
    let suffix = text.skip((front + name).len() as int);
    assert(text =~= front + name + suffix);
    assert(text =~= Seq::<char>::empty() + prefix + (" - "@ + name + suffix));
    lemma_within(front, name, suffix);
    lemma_within(Seq::empty(), prefix, " - "@ + name + suffix);
    let empty = Seq::<char>::empty();
    if v.other_client {
        let rest = suffix.skip(" (other client)"@.len() as int);
        assert(suffix.take(" (other client)"@.len() as int) =~= " (other client)"@);
        assert(text =~= (front + name) + " (other client)"@ + rest);
        lemma_within(front + name, " (other client)"@, rest);
    }
    if v.broadcasting {
        let lead = suffix.take(suffix.len() - " 🔴"@.len());
        assert(suffix.skip(suffix.len() - " 🔴"@.len()) =~= " 🔴"@);
        assert(text =~= (front + name + lead) + " 🔴"@ + empty);
        lemma_within(front + name + lead, " 🔴"@, empty);
    }
}

// ---- Threads ----

proof fn lemma_thread_place(threads: Seq<ThreadFacts>, parent: ChannelId, name: Seq<char>)
    ensures
        0 <= place_of_thread(threads, parent, name) <= threads.len(),
        place_of_thread(threads, parent, name) < threads.len() ==> ({
            let t = threads[place_of_thread(threads, parent, name)];
            t.is_thread && t.parent_id == Some(parent) && t.name@ == name
        }),
    decreases threads.len(),
{
    if threads.len() > 0 {
        lemma_thread_place(threads.drop_first(), parent, name);
    }
}

/// The thread of a message is the one that it refers to, if that can be seen, or one below its channel
/// under the name that the message holds.
pub proof fn threads_are_those_of_their_message(
    kind: u8,
    referenced: Option<ThreadFacts>,
    channel_id: ChannelId,
    content: Option<Seq<char>>,
    threads: Seq<ThreadFacts>,
)
    ensures
        thread_of_message(kind, referenced, channel_id, content, threads) matches Some(t) ==> t.is_thread && (referenced
            == Some(t) && t.viewable || threads.contains(t) && t.parent_id == Some(channel_id) && content is Some
            && t.name@ == trimmed(content->0)),
{
    if let Some(content) = content {
        let at = place_of_thread(threads, channel_id, trimmed(content));
        lemma_thread_place(threads, channel_id, trimmed(content));
        if at < threads.len() {
            assert(threads.contains(threads[at]));
        }
    }
}

/// The message on the card of a post is the one that began it, and on the card of another thread the
/// first.
pub proof fn cards_show_the_message_that_began_them(ids: Seq<MessageId>, channel: ChannelId)
    ensures
        card_message(ids, channel, true) < ids.len() ==> ids[card_message(ids, channel, true)] == channel,
        ids.contains(channel) ==> card_message(ids, channel, true) < ids.len(),
        0 <= card_message(ids, channel, true) <= ids.len(),
        card_message(ids, channel, false) == 0,
    decreases ids.len(),
{
    if ids.len() > 0 {
        let rest = ids.drop_first();
        cards_show_the_message_that_began_them(rest, channel);
        if ids[0] != channel && ids.contains(channel) {
            let i = choose|i: int| 0 <= i < ids.len() && ids[i] == channel;
            assert(rest[i - 1] == channel);
        }
        assert(place_of(ids, channel) == card_message(ids, channel, true));
    }
}

// ---- What is typed ----

/// An at sign at the beginning or behind a space starts a name, and what is typed behind it belongs to
/// the name, up to what can be no part of one.
pub proof fn names_are_picked_from_what_is_typed(s: ComposerState, value: char, name_char: bool)
    ensures
        s.query_after('@', name_char) is Some <==> s.composer_input@.len() == 0 || is_space(s.composer_input@.last()),
        s.query_after('@', name_char) matches Some(q) ==> q.len() == 0,
        value != '@' ==> (s.query_after(value, name_char) is Some <==> s.composer_mention_query is Some && name_char),
        value != '@' && s.composer_mention_query is Some && name_char ==> s.query_after(value, name_char)
            == Some(s.composer_mention_query->0@.push(value)),
{
}

/// What is put into a search is what was typed, without what cannot be seen and no longer than there is
/// room.
pub proof fn searches_hold_what_can_be_seen(text: Seq<char>, room: int, i: int)
    requires
        room >= 0,
    ensures
        insertable(text, room).len() <= room,
        insertable(text, room).len() <= text.len(),
        0 <= i < insertable(text, room).len() ==> !is_control(insertable(text, room)[i]) && text.contains(
            insertable(text, room)[i],
        ),
        text.len() <= room && (forall|j: int| 0 <= j < text.len() ==> !is_control(#[trigger] text[j])) ==> insertable(
            text,
            room,
        ) == text,
    decreases text.len(),
{
    if text.len() > 0 {
        let rest = text.drop_last();
        searches_hold_what_can_be_seen(rest, room, i);
        let now = insertable(text, room);
        let before = insertable(rest, room);
        if 0 <= i < now.len() {
            if i < before.len() {
                let j = choose|j: int| 0 <= j < rest.len() && rest[j] == before[i];
                assert(text[j] == now[i]);
            } else {
                assert(text[text.len() - 1] == now[i]);
            }
        }
        if text.len() <= room && (forall|j: int| 0 <= j < text.len() ==> !is_control(#[trigger] text[j])) {
            assert forall|j: int| 0 <= j < rest.len() implies !is_control(#[trigger] rest[j]) by {
                assert(rest[j] == text[j]);
            }
            assert(!is_control(text[text.len() - 1]));
            assert(rest.push(text.last()) =~= text);
        }
    }
}

} // verus!
