//! The rows of the dashboard's panes and menus.

use crate::ids::{ChannelId, GuildId, MessageId, UserId};
use crate::message::reactions::{ReactionEmoji, ReactionInfo};
use crate::text::opt_text;
use vstd::prelude::*;

verus! {

/// The pane that keys go to.
#[derive(Clone, Copy, Debug, PartialEq, Eq, Structural)]
pub enum FocusPane {
    Guilds,
    Channels,
    Messages,
    Members,
}

/// What can be done with a message.
#[derive(Clone, Copy, Debug, PartialEq, Eq, Structural)]
pub enum MessageActionKind {
    Reply,
    Edit,
    Delete,
    OpenThread,
    ViewImage,
    DownloadImage,
    AddReaction,
    RemoveReaction(usize),
    ShowReactionUsers,
    ShowProfile,
    LoadPinnedMessages,
    SetPinned(bool),
    VotePollAnswer(u8),
    OpenPollVotePicker,
}

#[derive(Debug, PartialEq, Eq)]
pub struct MessageActionItem {
    pub kind: MessageActionKind,
    pub label: String,
    pub enabled: bool,
}

/// What can be done with a channel.
#[derive(Clone, Copy, Debug, PartialEq, Eq, Structural)]
pub enum ChannelActionKind {
    ShowThreads,
}

#[derive(Debug, PartialEq, Eq)]
pub struct ChannelActionItem {
    pub kind: ChannelActionKind,
    pub label: String,
    pub enabled: bool,
}

/// What can be done with a member.
#[derive(Clone, Copy, Debug, PartialEq, Eq, Structural)]
pub enum MemberActionKind {
    ShowProfile,
}

#[derive(Debug, PartialEq, Eq)]
pub struct MemberActionItem {
    pub kind: MemberActionKind,
    pub label: String,
    pub enabled: bool,
}

pub const FORUM_POST_CARD_HEIGHT: usize = 5;

/// A tag of a forum post: its name, and one of an emoji and the address of one.
#[derive(Debug, PartialEq, Eq)]
pub struct AppliedForumTag {
    pub name: String,
    pub unicode_emoji: Option<String>,
    pub custom_emoji_url: Option<String>,
}

/// An image on a card, by the message and the attachment it is in.
#[derive(Clone, Copy, Debug, PartialEq, Eq, Structural)]
pub struct ThreadCardImagePreview {
    pub message_id: MessageId,
    pub attachment: usize,
}

/// The card of a thread or of a post of a forum.
#[derive(Debug, PartialEq, Eq)]
pub struct ChannelThreadItem {
    pub channel_id: ChannelId,
    pub section_label: Option<String>,
    pub label: String,
    pub archived: bool,
    pub locked: bool,
    pub pinned: bool,
    pub preview_author_id: Option<UserId>,
    pub preview_author: Option<String>,
    pub preview_author_color: Option<u32>,
    pub preview_content: Option<String>,
    pub preview_loading: bool,
    pub preview_image: Option<ThreadCardImagePreview>,
    pub applied_tags: Vec<AppliedForumTag>,
    pub preview_reactions: Vec<ReactionInfo>,
    pub comment_count: Option<u64>,
    pub new_message_count: usize,
    pub last_activity_message_id: Option<MessageId>,
}

/// An emoji in the picker.
#[derive(Debug, PartialEq, Eq)]
pub struct EmojiReactionItem {
    pub emoji: ReactionEmoji,
    pub label: String,
}

impl EmojiReactionItem {
    pub fn custom_image_url(&self) -> (r: Option<String>)
        ensures
            opt_text(r) == self.emoji.image_url(),
    {
        self.emoji.custom_image_url()
    }
}

/// An answer of a poll in the picker.
#[derive(Debug, PartialEq, Eq)]
pub struct PollVotePickerItem {
    pub answer_id: u8,
    pub label: String,
    pub selected: bool,
}

/// What is shown of a thread below the message that started it.
#[derive(Debug, PartialEq, Eq)]
pub struct ThreadSummary {
    pub channel_id: ChannelId,
    pub name: String,
    pub message_count: Option<u64>,
    pub total_message_sent: Option<u64>,
    pub archived: Option<bool>,
    pub locked: Option<bool>,
    pub latest_message_id: Option<MessageId>,
    pub latest_message_preview: Option<ThreadMessagePreview>,
}

#[derive(Debug, PartialEq, Eq)]
pub struct ThreadMessagePreview {
    pub author: String,
    pub content: String,
}

/// A row of the channel list, by the channel it stands for.
#[derive(Clone, Copy, Debug, PartialEq, Eq, Structural)]
pub enum ChannelPaneEntry {
    CategoryHeader { channel_id: ChannelId, collapsed: bool },
    Channel { channel_id: ChannelId, branch: ChannelBranch },
    Thread { channel_id: ChannelId, parent_branch: ChannelBranch, branch: ChannelBranch },
    VoiceParticipant { channel_id: ChannelId, user_id: UserId, parent_branch: ChannelBranch },
}

/// Where a channel stands below its category.
#[derive(Clone, Copy, Debug, PartialEq, Eq, Structural)]
pub enum ChannelBranch {
    Root,
    Middle,
    Last,
}

impl ChannelBranch {
    pub open spec fn prefix_text(self) -> Seq<char> {
        match self {
            ChannelBranch::Root => ""@,
            ChannelBranch::Middle => "├ "@,
            ChannelBranch::Last => "└ "@,
        }
    }

    pub fn prefix(self) -> (r: &'static str)
        ensures
            r@ == self.prefix_text(),
    {
        match self {
            ChannelBranch::Root => "",
            ChannelBranch::Middle => "├ ",
            ChannelBranch::Last => "└ ",
        }
    }

    pub fn is_category_child(self) -> (r: bool)
        ensures
            r == !(self is Root),
    {
        !matches!(self, ChannelBranch::Root)
    }
}

/// The branch of a child among its siblings.
pub open spec fn branch_of(index: int, count: int) -> ChannelBranch {
    if index + 1 == count {
        ChannelBranch::Last
    } else {
        ChannelBranch::Middle
    }
}

/// A guild.
#[derive(Debug, PartialEq, Eq)]
pub struct GuildState {
    pub id: GuildId,
    pub name: String,
}

/// A folder of guilds. One without an identifier that holds a single guild is no folder to the user.
#[derive(Debug, PartialEq, Eq)]
pub struct GuildFolder {
    pub id: Option<u64>,
    pub name: Option<String>,
    pub guild_ids: Vec<GuildId>,
}

/// A row of the guild list.
#[derive(Clone, Copy, Debug)]
pub enum GuildPaneEntry<'a> {
    DirectMessages,
    FolderHeader { folder: &'a GuildFolder, collapsed: bool },
    Guild { state: &'a GuildState, branch: GuildBranch },
}

/// Where a guild stands in its folder.
#[derive(Clone, Copy, Debug, PartialEq, Eq, Structural)]
pub enum GuildBranch {
    Root,
    Middle,
    Last,
}

impl GuildBranch {
    pub open spec fn prefix_text(self) -> Seq<char> {
        match self {
            GuildBranch::Root => ""@,
            GuildBranch::Middle => "├ "@,
            GuildBranch::Last => "└ "@,
        }
    }

    pub fn prefix(self) -> (r: &'static str)
        ensures
            r@ == self.prefix_text(),
    {
        match self {
            GuildBranch::Root => "",
            GuildBranch::Middle => "├ ",
            GuildBranch::Last => "└ ",
        }
    }

    pub fn is_folder_child(self) -> (r: bool)
        ensures
            r == !(self is Root),
    {
        !matches!(self, GuildBranch::Root)
    }
}

impl<'a> GuildPaneEntry<'a> {
    pub open spec fn label_text(self) -> Seq<char> {
        match self {
            GuildPaneEntry::DirectMessages => "Direct Messages"@,
            GuildPaneEntry::FolderHeader { folder, .. } => match folder.name {
                Some(name) => name@,
                None => "Folder"@,
            },
            GuildPaneEntry::Guild { state, .. } => state.name@,
        }
    }

    pub fn label(&self) -> (r: &str)
        ensures
            r@ == self.label_text(),
    {
        match self {
            GuildPaneEntry::DirectMessages => "Direct Messages",
            GuildPaneEntry::FolderHeader { folder, .. } => match &folder.name {
                Some(name) => name.as_str(),
                None => "Folder",
            },
            GuildPaneEntry::Guild { state, .. } => state.name.as_str(),
        }
    }
}

} // verus!
