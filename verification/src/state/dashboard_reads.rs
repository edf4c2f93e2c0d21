//! What is read off the dashboard, and what is done with the row that the cursor is on.

use crate::discord::{AppCommand, MessageHistoryAfterMode};
use crate::ids::{ChannelId, GuildId, MessageId};
use crate::state::channel_pane::{category_of, selected_channel_category_id, ChannelPaneRow};
use crate::state::channel_switcher::{item_views, ChannelSwitcherItem};
use crate::state::channel_text::{other_typers, typing_footer, typing_text, MessagePaneSource, TypingUser};
use crate::state::dashboard::{toggled, DashboardState, PaneLists};
use crate::state::dashboard_channels::{opening_effects, opens, ChannelChoice, ChannelDetails};
use crate::state::emoji::{available, is_custom_item, with_custom_emojis, CustomEmojiInfo};
use crate::state::message_actions::chosen;
use crate::state::message_viewport::PaneContent;
use crate::state::model::{ChannelPaneEntry, EmojiReactionItem, FocusPane, MessageActionItem};
use crate::state::navigation::ChannelNavigation;
use crate::state::popups::{MessageActionMenuState, ReactionUsersPopupState};
use crate::state::scroll::{clamp_selected_index, content_rows, last_of, least, pane_content_height};
use crate::text::{opt_text, utf8_len};
use vstd::prelude::*;

verus! {

/// The value of a text that may be missing.
pub open spec fn opt_str(s: Option<&str>) -> Option<Seq<char>> {
    match s {
        Some(s) => Some(s@),
        None => None,
    }
}

fn borrowed(s: &Option<String>) -> (r: Option<&str>)
    ensures
        opt_str(r) == opt_text(*s),
{
    match s {
        Some(s) => Some(s.as_str()),
        None => None,
    }
}

/// The row that a line of the channel pane belongs to.
pub open spec fn row_of_line(line: ChannelPaneRow) -> usize {
    match line {
        ChannelPaneRow::Entry { entry_index } => entry_index,
        ChannelPaneRow::Activity { owner_entry_index, .. } => owner_entry_index,
    }
}

/// The rows that lines belong to, lines of one row that follow each other counted once.
pub open spec fn rows_of_lines(lines: Seq<ChannelPaneRow>) -> Seq<usize>
    decreases lines.len(),
{
    if lines.len() == 0 {
        Seq::empty()
    } else {
        let before = rows_of_lines(lines.drop_last());
        if before.len() > 0 && before.last() == row_of_line(lines.last()) {
            before
        } else {
            before.push(row_of_line(lines.last()))
        }
    }
}

impl DashboardState {
    // ---- The user and the connection ----

    pub fn current_user(&self) -> (r: Option<&str>)
        ensures
            opt_str(r) == opt_text(self.events.current_user),
    {
        borrowed(&self.events.current_user)
    }

    pub fn update_available_version(&self) -> (r: Option<&str>)
        ensures
            opt_str(r) == opt_text(self.events.update_available_version),
    {
        borrowed(&self.events.update_available_version)
    }

    pub fn gateway_error(&self) -> (r: Option<&str>)
        ensures
            opt_str(r) == opt_text(self.events.gateway_error),
    {
        borrowed(&self.events.gateway_error)
    }

    // ---- The panes ----

    pub fn guild_scroll(&self) -> (r: usize)
        ensures
            r == self.guilds.scroll,
    {
        self.guilds.scroll
    }

    pub fn member_scroll(&self) -> (r: usize)
        ensures
            r == self.members.scroll,
    {
        self.members.scroll
    }

    pub fn member_content_height(&self) -> (r: usize)
        ensures
            r == content_rows(self.members.view_height),
    {
        pane_content_height(self.members.view_height)
    }

    /// The lines of the channel pane that are shown.
    pub open spec fn channel_lines(self, lists: PaneLists) -> Seq<ChannelPaneRow> {
        let len = lists.channel_rows@.len() as int;
        let from = least(self.channels.scroll as int, len);
        lists.channel_rows@.subrange(from, least(self.channels.scroll + content_rows(self.channels.view_height), len))
    }

    /// The rows of the channel pane that are shown, those of which only the second line is among them.
    pub fn visible_channel_pane_entries(&self, lists: &PaneLists) -> (r: Vec<usize>)
        ensures
            r@ == rows_of_lines(self.channel_lines(*lists)),
    {
        let (from, to) = self.channels.visible_rows(lists.channel_rows.len());
        let ghost lines = self.channel_lines(*lists);
        let mut out: Vec<usize> = Vec::new();
        let mut i: usize = from;
        assert(lines.take(0) =~= Seq::<ChannelPaneRow>::empty());
        while i < to
            invariant
                from <= i <= to,
                to <= lists.channel_rows@.len(),
                lines == lists.channel_rows@.subrange(from as int, to as int),
                out@ == rows_of_lines(lines.take(i - from)),
            decreases to - i,
        {
            assert(lines.take(i - from + 1).drop_last() =~= lines.take(i - from));
            assert(lines.take(i - from + 1).last() == lists.channel_rows@[i as int]);
            let row: usize = lists.channel_rows[i].entry_index();
            if out.len() == 0 || out[out.len() - 1] != row {
                out.push(row);
            }
            i += 1;
        }
        assert(lines.take(to - from) =~= lines);
        out
    }

    /// Opens or closes the category that the cursor is on or in.
    pub fn toggle_selected_channel_category(&mut self, entries: &Vec<ChannelPaneEntry>, lists: &PaneLists)
        ensures
            ({
                let category = category_of(entries@, old(self).channel_cursor(*lists) as int);
                &&& category is None ==> *final(self) == *old(self)
                &&& category matches Some(id) ==> *final(self) == (DashboardState {
                    collapsed_channel_categories: final(self).collapsed_channel_categories,
                    ui_state_save_pending: true,
                    ..*old(self)
                }) && final(self).collapsed_channel_categories@ == toggled(
                    old(self).collapsed_channel_categories@,
                    id,
                )
            }),
    {
        let row = self.selected_channel(lists);
        self.toggle_channel_category(selected_channel_category_id(entries, row));
    }

    // ---- The open channel ----

    pub fn selected_channel_id(&self) -> (r: Option<ChannelId>)
        ensures
            r == self.navigation.active_channel_id,
    {
        self.navigation.active_channel_id
    }

    /// Who is typing in the open channel, if it is known.
    pub fn typing_footer_for_selected_channel(&self, known: bool, typers: &Vec<TypingUser>) -> (r: Option<String>)
        ensures
            opt_text(r) == (if self.navigation.active_channel_id is Some && known {
                typing_text(other_typers(typers@, self.events.current_user_id))
            } else {
                None
            }),
    {
        if self.navigation.active_channel_id.is_some() && known {
            typing_footer(typers, self.events.current_user_id)
        } else {
            None
        }
    }

    pub open spec fn forum(self, is_forum: bool, guild_id: Option<GuildId>) -> Option<(GuildId, ChannelId)> {
        match (self.navigation.source(is_forum), guild_id) {
            (Some(MessagePaneSource::ForumPosts { channel_id }), Some(guild_id)) => Some((guild_id, channel_id)),
            _ => None,
        }
    }

    /// The forum whose posts are shown. `guild_id` is the guild of the open channel.
    pub fn selected_forum_channel(&self, is_forum: bool, guild_id: Option<GuildId>) -> (r: Option<(GuildId, ChannelId)>)
        ensures
            r == self.forum(is_forum, guild_id),
    {
        match (self.navigation.message_pane_source(is_forum), guild_id) {
            (Some(MessagePaneSource::ForumPosts { channel_id }), Some(guild_id)) => Some((guild_id, channel_id)),
            _ => None,
        }
    }

    /// Whether the posts of the forum that is shown are still on their way.
    pub fn selected_forum_posts_loading(&self, is_forum: bool, guild_id: Option<GuildId>, answered: bool) -> (r: bool)
        ensures
            r == (self.forum(is_forum, guild_id) is Some && !answered),
    {
        self.selected_forum_channel(is_forum, guild_id).is_some() && !answered
    }

    /// Whether the messages that are shown are out of date.
    pub fn selected_message_history_is_stale(&self, is_forum: bool, stale: bool) -> (r: bool)
        ensures
            r == (self.navigation.history(is_forum) is Some && stale),
    {
        self.navigation.selected_message_history_channel_id(is_forum).is_some() && stale
    }

    /// Whether the messages that are shown are to be loaded again: they were dropped, or are out of date.
    pub fn selected_message_history_needs_reload(&self, is_forum: bool, cold: bool, stale: bool) -> (r: bool)
        ensures
            r == (self.navigation.history(is_forum) is Some && (cold || stale)),
    {
        self.navigation.selected_message_history_channel_id(is_forum).is_some() && (cold
            || self.selected_message_history_is_stale(is_forum, stale))
    }

    /// The command that catches up with the messages that are shown, from the newest that is loaded.
    pub fn selected_message_history_catch_up_command(&self, is_forum: bool, content: &PaneContent) -> (r: Option<
        AppCommand,
    >)
        ensures
            r == (if self.navigation.history(is_forum) is Some && content.ids@.len() > 0 {
                Some(
                    AppCommand::LoadMessageHistoryAfter {
                        channel_id: self.navigation.history(is_forum)->0,
                        after: content.ids@.last(),
                        mode: MessageHistoryAfterMode::CatchUp,
                    },
                )
            } else {
                None
            }),
    {
        match self.navigation.selected_message_history_channel_id(is_forum) {
            Some(channel_id) => if content.ids.len() > 0 {
                Some(
                    AppCommand::LoadMessageHistoryAfter {
                        channel_id,
                        after: content.ids[content.ids.len() - 1],
                        mode: MessageHistoryAfterMode::CatchUp,
                    },
                )
            } else {
                None
            },
            None => None,
        }
    }

    // ---- Messages and cards ----

    /// The message or card that the cursor is on.
    pub fn selected_message(&self, content: &PaneContent) -> (r: usize)
        ensures
            r == self.navigation.viewport.cursor(*content),
    {
        self.navigation.viewport.selected(content)
    }

    pub fn message_auto_follow(&self) -> (r: bool)
        ensures
            r == self.navigation.viewport.message_auto_follow,
    {
        self.navigation.viewport.message_auto_follow
    }

    pub fn message_view_height(&self) -> (r: usize)
        ensures
            r == self.navigation.viewport.message_view_height,
    {
        self.navigation.viewport.message_view_height
    }

    pub fn message_line_scroll(&self) -> (r: usize)
        ensures
            r == self.navigation.viewport.message_line_scroll,
    {
        self.navigation.viewport.message_line_scroll
    }

    pub fn unread_divider_last_acked_id(&self) -> (r: Option<MessageId>)
        ensures
            r == self.navigation.viewport.unread_divider_last_acked_id,
    {
        self.navigation.viewport.unread_divider_last_acked_id
    }

    pub fn new_messages_marker_message_id(&self) -> (r: Option<MessageId>)
        ensures
            r == self.navigation.viewport.new_messages_marker_message_id,
    {
        self.navigation.viewport.new_messages_marker_message_id
    }

    pub open spec fn card(self, cards: int) -> usize {
        least(self.navigation.viewport.selected_message as int, last_of(cards)) as usize
    }

    /// The card that the cursor is on, of `cards` cards.
    pub fn selected_thread_card(&self, cards: usize) -> (r: usize)
        ensures
            r == self.card(cards as int),
    {
        clamp_selected_index(self.navigation.viewport.selected_message, cards)
    }

    pub fn selected_forum_post(&self, posts: usize) -> (r: usize)
        ensures
            r == self.card(posts as int),
    {
        self.selected_thread_card(posts)
    }

    /// The place of the cursor among the cards that are shown, where the pane shows cards and has the keys.
    pub fn focused_thread_card_selection(&self, content: &PaneContent) -> (r: Option<usize>)
        ensures
            r == ({
                let card = self.card(content.cards@.len() as int) as int;
                let (from, to) = self.navigation.viewport.visible_cards(*content);
                let scroll = self.navigation.viewport.message_scroll as int;
                if self.focus == FocusPane::Messages && content.forum && from < to && scroll <= card && card < scroll + (
                to - from) {
                    Some((card - scroll) as usize)
                } else {
                    None
                }
            }),
    {
        if self.focus != FocusPane::Messages || !content.forum {
            return None;
        }
        let selected = self.selected_thread_card(content.cards.len());
        let (from, to) = self.navigation.viewport.visible_thread_cards(content);
        let scroll = self.navigation.viewport.message_scroll;
        if from < to && selected >= scroll && selected - scroll < to - from {
            Some(selected - scroll)
        } else {
            None
        }
    }

    /// Opens the thread or post of the card that the cursor is on.
    pub fn activate_selected_thread_card(
        &mut self,
        cards: &Vec<ChannelId>,
        details: ChannelDetails,
        content: &PaneContent,
    ) -> (r: ChannelChoice)
        requires
            old(self).wf(),
        ensures
            final(self).wf(),
            opens_card(*old(self), *final(self), cards@, details, *content, r),
    {
        let selected = self.selected_thread_card(cards.len());
        if selected < cards.len() {
            self.activate_thread_card(Some(cards[selected]), details, content)
        } else {
            ChannelChoice::Ignored
        }
    }

    /// Opens the post that the cursor is on in a forum, and else the menu of the message.
    pub fn activate_selected_message_pane_item(
        &mut self,
        is_forum: bool,
        cards: &Vec<ChannelId>,
        details: ChannelDetails,
        content: &PaneContent,
        has_message: bool,
    ) -> (r: ChannelChoice)
        requires
            old(self).wf(),
        ensures
            final(self).wf(),
            is_forum ==> opens_card(*old(self), *final(self), cards@, details, *content, r),
            !is_forum ==> r is Ignored && *final(self) == (DashboardState {
                message_action_menu: if old(self).focus == FocusPane::Messages && has_message {
                    Some(MessageActionMenuState { selected: 0 })
                } else {
                    old(self).message_action_menu
                },
                ..*old(self)
            }),
    {
        if is_forum {
            return self.activate_selected_thread_card(cards, details, content);
        }
        self.open_selected_message_actions(has_message);
        ChannelChoice::Ignored
    }

    // ---- Popups ----

    pub fn reaction_users_popup(&self) -> (r: Option<&ReactionUsersPopupState>)
        ensures
            r is Some == self.reaction_users_popup is Some,
            r matches Some(popup) ==> Some(*popup) == self.reaction_users_popup,
    {
        self.reaction_users_popup.as_ref()
    }

    /// What can be reacted with: the given emojis, and those of the guild that can be used.
    pub fn emoji_reaction_items(&self, unicode: Vec<EmojiReactionItem>, guild: Option<&Vec<CustomEmojiInfo>>) -> (r: Vec<
        EmojiReactionItem,
    >)
        ensures
            guild is None ==> r == unicode,
            guild matches Some(emojis) ==> {
                &&& r@.len() == unicode@.len() + available(emojis@).len()
                &&& r@.take(unicode@.len() as int) == unicode@
                &&& forall|k: int|
                    0 <= k < available(emojis@).len() ==> is_custom_item(
                        #[trigger] r@[unicode@.len() + k],
                        available(emojis@)[k],
                    )
            },
    {
        match guild {
            Some(emojis) => with_custom_emojis(unicode, emojis),
            None => unicode,
        }
    }

    /// The emoji that the cursor of the picker is on.
    pub fn selected_emoji_reaction<'a>(&self, items: &'a Vec<EmojiReactionItem>) -> (r: Option<&'a EmojiReactionItem>)
        ensures
            r is Some == (self.emoji_reaction_picker is Some && items@.len() > 0),
            r matches Some(item) ==> *item == items@[self.chosen_emoji(items@.len() as int)->0 as int],
    {
        match self.selected_emoji_reaction_index(items.len()) {
            Some(index) => if index < items.len() {
                Some(&items[index])
            } else {
                None
            },
            None => None,
        }
    }

    /// The action that the cursor of the menu is on.
    pub fn selected_message_action<'a>(&self, items: &'a Vec<MessageActionItem>) -> (r: Option<&'a MessageActionItem>)
        ensures
            r is Some == (self.message_action_menu is Some && items@.len() > 0),
            r matches Some(item) ==> *item == items@[chosen(self.message_action_menu->0, items@.len() as int)],
    {
        match &self.message_action_menu {
            Some(menu) => {
                let index = menu.selected_message_action_index(items.len());
                if index < items.len() {
                    Some(&items[index])
                } else {
                    None
                }
            },
            None => None,
        }
    }

    pub fn channel_switcher_query(&self) -> (r: Option<&str>)
        ensures
            opt_str(r) == (match self.channel_switcher {
                Some(switcher) => Some(switcher.query@.text()),
                None => None,
            }),
    {
        match &self.channel_switcher {
            Some(switcher) => Some(switcher.query.query()),
            None => None,
        }
    }

    /// The byte of what was typed into the switcher that the cursor stands before.
    pub fn channel_switcher_query_cursor_byte_index(&self) -> (r: Option<usize>)
        ensures
            r is Some == self.channel_switcher is Some,
            r matches Some(at) ==> at == utf8_len((self.channel_switcher->0).query@.before),
    {
        match &self.channel_switcher {
            Some(switcher) => Some(switcher.query.cursor_byte_index()),
            None => None,
        }
    }

    /// The channels that the switcher shows. Without it there are none.
    pub fn channel_switcher_items(&self) -> (r: &[ChannelSwitcherItem])
        ensures
            item_views(r@) == (match self.channel_switcher {
                Some(switcher) => switcher.shown(),
                None => Seq::empty(),
            }),
    {
        match &self.channel_switcher {
            Some(switcher) => switcher.visible_items().as_slice(),
            None => {
                let none: &[ChannelSwitcherItem] = &[];
                assert(item_views(none@) =~= Seq::empty());
                none
            },
        }
    }

    // ---- The composer ----

    pub fn composer_input(&self) -> (r: &str)
        ensures
            r@ == self.composer.composer_input@,
    {
        self.composer.composer_input.as_str()
    }

    pub fn composer_mention_query(&self) -> (r: Option<&str>)
        ensures
            opt_str(r) == opt_text(self.composer.composer_mention_query),
    {
        borrowed(&self.composer.composer_mention_query)
    }

    pub fn composer_mention_selected(&self) -> (r: usize)
        ensures
            r == self.composer.composer_mention_selected,
    {
        self.composer.composer_mention_selected
    }

    pub fn clipboard_paste_pending(&self) -> (r: bool)
        ensures
            r == self.clipboard.pending,
    {
        self.clipboard.pending
    }

    /// The lines above the composer: one for each of the `attachments`, and one while the clipboard is read.
    pub fn pending_composer_upload_line_count(&self, attachments: usize) -> (r: usize)
        requires
            attachments < usize::MAX,
        ensures
            r == attachments + (if self.clipboard.pending {
                1int
            } else {
                0
            }),
    {
        if self.clipboard.pending {
            attachments + 1
        } else {
            attachments
        }
    }
}

/// How the dashboard changes, and what is answered, when the card that the cursor is on is opened. Without
/// one, or without a guild, nothing is.
pub open spec fn opens_card(
    before: DashboardState,
    after: DashboardState,
    cards: Seq<ChannelId>,
    details: ChannelDetails,
    content: PaneContent,
    r: ChannelChoice,
) -> bool {
    if cards.len() == 0 || details.guild_id is None {
        r is Ignored && after == before
    } else {
        let channel_id = cards[before.card(cards.len() as int) as int];
        &&& r == (ChannelChoice::Opened {
            command: Some(AppCommand::SubscribeGuildChannel { guild_id: details.guild_id->0, channel_id }),
            effects: opening_effects(details),
        })
        &&& opens(
            ChannelNavigation {
                thread_return_target: before.navigation.return_target(channel_id),
                ..before.navigation
            },
            after.navigation,
            channel_id,
            details,
            content,
        )
        &&& after == (DashboardState { navigation: after.navigation, ..before })
    }
}

} // verus!
