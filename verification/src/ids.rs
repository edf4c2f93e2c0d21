//! Identifiers of the things that the dashboard shows.

use vstd::prelude::*;

verus! {

pub type GuildId = u64;

pub type ChannelId = u64;

pub type MessageId = u64;

pub type UserId = u64;

pub type RoleId = u64;

pub type EmojiId = u64;

} // verus!
