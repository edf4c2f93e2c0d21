//! Who is named in a message, and which thread a message began.

use crate::ids::{ChannelId, GuildId, MessageId, UserId};
use crate::message::rendered::{RenderedText, TextHighlight, TextHighlightKind};
use crate::state::message_render::{
    add_literal_mention_highlights, is_normalized, name_marks, normalize_text_highlights,
};
use crate::state::model::{ThreadMessagePreview, ThreadSummary};
use crate::text::{opt_text, str_eq};
use crate::unicode::{trim_text, trimmed};
use vstd::prelude::*;
use vstd::string::*;

verus! {

/// Someone who is named in a message, as the message itself tells.
#[derive(Debug, PartialEq, Eq)]
pub struct MentionInfo {
    pub user_id: UserId,
    pub guild_nick: Option<String>,
    pub display_name: String,
}

/// The first mention of a user, or the end.
pub open spec fn place_of_mention(mentions: Seq<MentionInfo>, user_id: UserId) -> int
    decreases mentions.len(),
{
    if mentions.len() == 0 || mentions[0].user_id == user_id {
        0
    } else {
        1 + place_of_mention(mentions.drop_first(), user_id)
    }
}

/// The name of a user: the one in the guild that the message tells, else the one that is known of the
/// guild, else the one that the message tells.
pub open spec fn mention_name(mentions: Seq<MentionInfo>, member_name: Option<Seq<char>>, user_id: UserId) -> Option<
    Seq<char>,
> {
    let at = place_of_mention(mentions, user_id);
    if at < mentions.len() && mentions[at].guild_nick is Some {
        Some((mentions[at].guild_nick->0)@)
    } else if member_name is Some {
        member_name
    } else if at < mentions.len() {
        Some(mentions[at].display_name@)
    } else {
        None
    }
}

pub fn resolve_mention_display_name(mentions: &Vec<MentionInfo>, member_name: Option<String>, user_id: UserId) -> (r:
    Option<String>)
    ensures
        opt_text(r) == mention_name(mentions@, opt_text(member_name), user_id),
{
    let mut i: usize = 0;
    assert(mentions@.skip(0) =~= mentions@);
    while i < mentions.len() && mentions[i].user_id != user_id
        invariant
            i <= mentions@.len(),
            place_of_mention(mentions@, user_id) == i + place_of_mention(mentions@.skip(i as int), user_id),
        decreases mentions@.len() - i,
    {
        assert(mentions@.skip(i as int)[0] == mentions@[i as int]);
        assert(mentions@.skip(i as int).drop_first() =~= mentions@.skip(i + 1));
        i += 1;
    }
    assert(i < mentions@.len() ==> mentions@.skip(i as int)[0] == mentions@[i as int]);
    if i < mentions.len() {
        if let Some(nick) = &mentions[i].guild_nick {
            return Some(nick.clone());
        }
    }
    if member_name.is_some() {
        return member_name;
    }
    if i < mentions.len() {
        return Some(mentions[i].display_name.clone());
    }
    None
}

/// How the name of a user stands out: the user's own does so more.
pub fn mention_highlight_kind(current_user: UserId, user_id: UserId) -> (r: TextHighlightKind)
    ensures
        r == (if current_user == user_id {
            TextHighlightKind::SelfMention
        } else {
            TextHighlightKind::OtherMention
        }),
{
    if current_user == user_id {
        TextHighlightKind::SelfMention
    } else {
        TextHighlightKind::OtherMention
    }
}

/// The highlights of a text before they are put in order: those of names, and, where the user is known,
/// those of the words that call everyone.
pub open spec fn with_calls(highlights: Seq<TextHighlight>, text: Seq<char>, user_known: bool) -> Seq<TextHighlight> {
    if user_known {
        highlights + name_marks(text, "@everyone"@, 0) + name_marks(text, "@here"@, 0)
    } else {
        highlights
    }
}

/// Completes the highlights of a text in which names stand as the user knows them.
pub fn finish_mention_highlights(rendered: &mut RenderedText, user_known: bool)
    ensures
        final(rendered).text == old(rendered).text,
        final(rendered).emoji_slots == old(rendered).emoji_slots,
        is_normalized(
            final(rendered).highlights@,
            with_calls(old(rendered).highlights@, old(rendered).text@, user_known),
        ),
{
    if user_known {
        proof {
            reveal_strlit("@everyone");
            reveal_strlit("@here");
        }
        add_literal_mention_highlights(rendered, "@everyone");
        add_literal_mention_highlights(rendered, "@here");
    }
    normalize_text_highlights(&mut rendered.highlights);
}

/// The guild of the channel that a forwarded message comes from, where the channel is known.
pub fn forwarded_snapshot_mention_guild_id(
    source_channel: Option<ChannelId>,
    channel_guild: Option<Option<GuildId>>,
) -> (r: Option<GuildId>)
    ensures
        r == (if source_channel is Some && channel_guild is Some {
            channel_guild->0
        } else {
            None
        }),
{
    match (source_channel, channel_guild) {
        (Some(_), Some(guild)) => guild,
        _ => None,
    }
}

/// What is known of a channel that may be the thread a message began.
#[derive(Debug, PartialEq, Eq)]
pub struct ThreadFacts {
    pub channel_id: ChannelId,
    pub parent_id: Option<ChannelId>,
    pub is_thread: bool,
    pub viewable: bool,
    pub name: String,
    pub message_count: Option<u64>,
    pub total_message_sent: Option<u64>,
    pub archived: Option<bool>,
    pub locked: Option<bool>,
    pub latest_message_id: Option<MessageId>,
}

/// The number of the kind of message that tells of a new thread.
pub const THREAD_CREATED: u8 = 18;

/// The first thread below a channel with a name, or the end.
pub open spec fn place_of_thread(threads: Seq<ThreadFacts>, parent: ChannelId, name: Seq<char>) -> int
    decreases threads.len(),
{
    if threads.len() == 0 || (threads[0].is_thread && threads[0].parent_id == Some(parent) && threads[0].name@ == name) {
        0
    } else {
        1 + place_of_thread(threads.drop_first(), parent, name)
    }
}

/// The thread that a message began: the one it refers to, if that can be seen, or else the one below its
/// channel that has its name.
pub open spec fn thread_of_message(
    kind: u8,
    referenced: Option<ThreadFacts>,
    channel_id: ChannelId,
    content: Option<Seq<char>>,
    threads: Seq<ThreadFacts>,
) -> Option<ThreadFacts> {
    if kind != THREAD_CREATED {
        None
    } else if referenced is Some && (referenced->0).is_thread && (referenced->0).viewable {
        referenced
    } else {
        match content {
            None => None,
            Some(content) => {
                let name = trimmed(content);
                let at = place_of_thread(threads, channel_id, name);
                if name.len() == 0 || at >= threads.len() {
                    None
                } else {
                    Some(threads[at])
                }
            },
        }
    }
}

/// What is shown of a thread.
pub open spec fn summary_of(t: ThreadFacts, preview: Option<ThreadMessagePreview>) -> ThreadSummary {
    ThreadSummary {
        channel_id: t.channel_id,
        name: t.name,
        message_count: t.message_count,
        total_message_sent: t.total_message_sent,
        archived: t.archived,
        locked: t.locked,
        latest_message_id: t.latest_message_id,
        latest_message_preview: preview,
    }
}

fn summarize(t: &ThreadFacts, preview: Option<ThreadMessagePreview>) -> (r: ThreadSummary)
    ensures
        r == summary_of(*t, preview),
{
    ThreadSummary {
        channel_id: t.channel_id,
        name: t.name.clone(),
        message_count: t.message_count,
        total_message_sent: t.total_message_sent,
        archived: t.archived,
        locked: t.locked,
        latest_message_id: t.latest_message_id,
        latest_message_preview: preview,
    }
}

fn find_thread(threads: &Vec<ThreadFacts>, parent: ChannelId, name: &str) -> (r: usize)
    ensures
        r == place_of_thread(threads@, parent, name@),
        r <= threads@.len(),
{
    let mut i: usize = 0;
    assert(threads@.skip(0) =~= threads@);
    while i < threads.len()
        invariant
            i <= threads@.len(),
            place_of_thread(threads@, parent, name@) == i + place_of_thread(threads@.skip(i as int), parent, name@),
        decreases threads@.len() - i,
    {
        let thread = &threads[i];
        assert(threads@.skip(i as int)[0] == *thread);
        assert(threads@.skip(i as int).drop_first() =~= threads@.skip(i + 1));
        let below = match thread.parent_id {
            Some(id) => id == parent,
            None => false,
        };
        if thread.is_thread && below && str_eq(thread.name.as_str(), name) {
            return i;
        }
        i += 1;
    }
    i
}

/// What is shown of the thread that a message began. `threads` are the channels of its guild that can be
/// seen, and `preview` is the last message of the thread.
pub fn thread_summary_for_message(
    kind: u8,
    referenced: &Option<ThreadFacts>,
    channel_id: ChannelId,
    content: &Option<String>,
    threads: &Vec<ThreadFacts>,
    preview: Option<ThreadMessagePreview>,
) -> (r: Option<ThreadSummary>)
    ensures
        r == (match thread_of_message(kind, *referenced, channel_id, opt_text(*content), threads@) {
            Some(t) => Some(summary_of(t, preview)),
            None => None,
        }),
{
    if kind != THREAD_CREATED {
        return None;
    }
    if let Some(thread) = referenced {
        if thread.is_thread && thread.viewable {
            return Some(summarize(thread, preview));
        }
    }
    let content = match content {
        Some(content) => content,
        None => {
            return None;
        },
    };
    let name = trim_text(content.as_str());
    if name.as_str().unicode_len() == 0 {
        return None;
    }
    let at = find_thread(threads, channel_id, name.as_str());
    if at < threads.len() {
        return Some(summarize(&threads[at], preview));
    }
    None
}

} // verus!
