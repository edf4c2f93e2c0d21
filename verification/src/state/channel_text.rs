//! What is written about channels: their labels, who is typing, the call in the header.

use crate::discord::AppCommand;
use crate::ids::{ChannelId, GuildId, UserId};
use crate::state::channel_pane::ChannelKind;
use crate::text::{decimal, decimal_string, opt_text};
use vstd::prelude::*;
use vstd::string::*;

verus! {

/// The name by which someone is called, or one made of the identifier.
pub open spec fn name_or_id(name: Option<Seq<char>>, id: u64, prefix: Seq<char>) -> Seq<char> {
    match name {
        Some(name) => name,
        None => prefix + decimal(id as nat),
    }
}

fn named(name: &Option<String>, id: u64, prefix: &str) -> (r: String)
    ensures
        r@ == name_or_id(opt_text(*name), id, prefix@),
{
    match name {
        Some(name) => name.clone(),
        None => {
            let mut text = prefix.to_string();
            let n = decimal_string(id);
            text.append(n.as_str());
            text
        },
    }
}

/// Someone who is typing, with the name in the channel if it is known.
#[derive(Debug, PartialEq, Eq)]
pub struct TypingUser {
    pub user_id: UserId,
    pub display_name: Option<String>,
}

/// Those who are typing, without the user.
pub open spec fn other_typers(typers: Seq<TypingUser>, me: Option<UserId>) -> Seq<TypingUser>
    decreases typers.len(),
{
    if typers.len() == 0 {
        Seq::empty()
    } else if me == Some(typers.last().user_id) {
        other_typers(typers.drop_last(), me)
    } else {
        other_typers(typers.drop_last(), me).push(typers.last())
    }
}

pub open spec fn typer_name(t: TypingUser) -> Seq<char> {
    name_or_id(opt_text(t.display_name), t.user_id, "user-"@)
}

/// The line that says who is typing. More than three are not told apart.
pub open spec fn typing_text(others: Seq<TypingUser>) -> Option<Seq<char>> {
    if others.len() == 0 {
        None
    } else if others.len() == 1 {
        Some(typer_name(others[0]) + " is typing…"@)
    } else if others.len() == 2 {
        Some(typer_name(others[0]) + " and "@ + typer_name(others[1]) + " are typing…"@)
    } else if others.len() == 3 {
        Some(
            typer_name(others[0]) + ", "@ + typer_name(others[1]) + ", and "@ + typer_name(others[2]) + " are typing…"@,
        )
    } else {
        Some("Several people are typing…"@)
    }
}

/// The line that says who is typing in a channel.
pub fn typing_footer(typers: &Vec<TypingUser>, me: Option<UserId>) -> (r: Option<String>)
    ensures
        opt_text(r) == typing_text(other_typers(typers@, me)),
{
    let mut others: Vec<usize> = Vec::new();
    let mut i: usize = 0;
    assert(typers@.take(0) =~= Seq::<TypingUser>::empty());
    while i < typers.len()
        invariant
            i <= typers@.len(),
            others@.len() == other_typers(typers@.take(i as int), me).len(),
            forall|k: int|
                0 <= k < others@.len() ==> #[trigger] others@[k] < typers@.len() && typers@[others@[k] as int]
                    == other_typers(typers@.take(i as int), me)[k],
        decreases typers@.len() - i,
    {
        assert(typers@.take(i + 1).drop_last() =~= typers@.take(i as int));
        let mine = match me {
            Some(me) => me == typers[i].user_id,
            None => false,
        };
        if !mine {
            others.push(i);
        }
        i += 1;
    }
    assert(typers@.take(i as int) =~= typers@);
    let ghost all = other_typers(typers@, me);
    if others.len() == 0 {
        return None;
    }
    if others.len() > 3 {
        return Some("Several people are typing…".to_string());
    }
    assert(typers@[others@[0] as int] == all[0]);
    let first = &typers[others[0]];
    let mut text = named(&first.display_name, first.user_id, "user-");
    if others.len() == 1 {
        text.append(" is typing…");
        return Some(text);
    }
    assert(typers@[others@[1] as int] == all[1]);
    let second = &typers[others[1]];
    let second_name = named(&second.display_name, second.user_id, "user-");
    if others.len() == 2 {
        text.append(" and ");
        text.append(second_name.as_str());
        text.append(" are typing…");
        return Some(text);
    }
    assert(typers@[others@[2] as int] == all[2]);
    let third = &typers[others[2]];
    let third_name = named(&third.display_name, third.user_id, "user-");
    text.append(", ");
    text.append(second_name.as_str());
    text.append(", and ");
    text.append(third_name.as_str());
    text.append(" are typing…");
    Some(text)
}

/// A channel by its kind and its name.
#[derive(Debug, PartialEq, Eq)]
pub struct NamedChannel {
    pub kind: ChannelKind,
    pub name: String,
}

/// The label of a channel: marked with an at sign where it is a conversation between two, not marked
/// where it is a group or a category, and marked with a number sign otherwise.
pub open spec fn label_of(channel: Option<NamedChannel>, id: ChannelId) -> Seq<char> {
    match channel {
        Some(c) => match c.kind {
            ChannelKind::DirectMessage => "@"@ + c.name@,
            ChannelKind::GroupDirectMessage => c.name@,
            ChannelKind::Category => c.name@,
            _ => "#"@ + c.name@,
        },
        None => "#channel-"@ + decimal(id as nat),
    }
}

pub fn channel_label(channel: &Option<NamedChannel>, id: ChannelId) -> (r: String)
    ensures
        r@ == label_of(*channel, id),
{
    match channel {
        Some(c) => match c.kind {
            ChannelKind::DirectMessage => {
                let mut label = "@".to_string();
                label.append(c.name.as_str());
                label
            },
            ChannelKind::GroupDirectMessage => c.name.clone(),
            ChannelKind::Category => c.name.clone(),
            _ => {
                let mut label = "#".to_string();
                label.append(c.name.as_str());
                label
            },
        },
        None => {
            let mut label = "#channel-".to_string();
            let n = decimal_string(id);
            label.append(n.as_str());
            label
        },
    }
}

/// What the message pane shows.
#[derive(Clone, Copy, Debug, PartialEq, Eq, Structural)]
pub enum MessagePaneSource {
    ChannelMessages { channel_id: ChannelId },
    PinnedMessages { channel_id: ChannelId },
    ForumPosts { channel_id: ChannelId },
    ChannelThreads { channel_id: ChannelId },
}

/// The title of the message pane.
pub open spec fn pane_title(source: Option<MessagePaneSource>, label: Seq<char>) -> Seq<char> {
    match source {
        Some(MessagePaneSource::PinnedMessages { .. }) => label + " pinned messages"@,
        Some(MessagePaneSource::ChannelThreads { .. }) => "Threads · "@ + label,
        Some(_) => label,
        None => "no channel"@,
    }
}

/// The title of the message pane, given the label of its channel.
pub fn message_pane_title(source: Option<MessagePaneSource>, label: &str) -> (r: String)
    ensures
        r@ == pane_title(source, label@),
{
    match source {
        Some(MessagePaneSource::PinnedMessages { .. }) => {
            let mut title = label.to_string();
            title.append(" pinned messages");
            title
        },
        Some(MessagePaneSource::ChannelThreads { .. }) => {
            let mut title = "Threads · ".to_string();
            title.append(label);
            title
        },
        Some(_) => label.to_string(),
        None => "no channel".to_string(),
    }
}

/// A call that the user is in.
#[derive(Debug, PartialEq, Eq)]
pub struct VoiceLabel {
    pub guild_id: Option<GuildId>,
    pub guild_name: Option<String>,
    pub channel_id: ChannelId,
    pub channel_name: Option<String>,
    /// Whether the user joined it from another device.
    pub other_client: bool,
    pub broadcasting: bool,
}

/// The call as the header shows it.
pub open spec fn voice_text(v: VoiceLabel) -> Seq<char> {
    let prefix = match v.guild_id {
        Some(id) => name_or_id(opt_text(v.guild_name), id, "guild-"@),
        None => "Direct Messages"@,
    };
    let suffix = match (v.other_client, v.broadcasting) {
        (true, true) => " (other client) 🔴"@,
        (true, false) => " (other client)"@,
        (false, true) => " 🔴"@,
        (false, false) => ""@,
    };
    prefix + " - "@ + name_or_id(opt_text(v.channel_name), v.channel_id, "channel-"@) + suffix
}

pub fn active_voice_connection_label(v: &VoiceLabel) -> (r: String)
    ensures
        r@ == voice_text(*v),
{
    let mut text = match v.guild_id {
        Some(id) => named(&v.guild_name, id, "guild-"),
        None => "Direct Messages".to_string(),
    };
    let channel = named(&v.channel_name, v.channel_id, "channel-");
    text.append(" - ");
    text.append(channel.as_str());
    match (v.other_client, v.broadcasting) {
        (true, true) => text.append(" (other client) 🔴"),
        (true, false) => text.append(" (other client)"),
        (false, true) => text.append(" 🔴"),
        (false, false) => text.append(""),
    }
    text
}

/// Whether the user is muted and deafened, here or on another device.
pub fn current_voice_self_status(mute: bool, deaf: bool, remote: Option<(bool, bool)>) -> (r: (bool, bool))
    ensures
        r.0 == (mute || (remote matches Some(s) && s.0)),
        r.1 == (deaf || (remote matches Some(s) && s.1)),
{
    match remote {
        Some(status) => (mute || status.0, deaf || status.1),
        None => (mute, deaf),
    }
}

/// The command by which a channel is followed.
pub open spec fn subscription(kind: ChannelKind, guild_id: Option<GuildId>, channel_id: ChannelId) -> Option<AppCommand> {
    if kind is DirectMessage || kind is GroupDirectMessage {
        Some(AppCommand::SubscribeDirectMessage { channel_id })
    } else {
        match guild_id {
            Some(guild_id) => Some(AppCommand::SubscribeGuildChannel { guild_id, channel_id }),
            None => None,
        }
    }
}

pub fn channel_subscription_command(kind: ChannelKind, guild_id: Option<GuildId>, channel_id: ChannelId) -> (r: Option<
    AppCommand,
>)
    ensures
        r == subscription(kind, guild_id, channel_id),
{
    if matches!(kind, ChannelKind::DirectMessage) || matches!(kind, ChannelKind::GroupDirectMessage) {
        return Some(AppCommand::SubscribeDirectMessage { channel_id });
    }
    match guild_id {
        Some(guild_id) => Some(AppCommand::SubscribeGuildChannel { guild_id, channel_id }),
        None => None,
    }
}

} // verus!
