//! The popups, menus and pickers of the dashboard.

use crate::discord::AppCommand;
use crate::ids::{ChannelId, GuildId, MessageId};
use crate::state::channel_switcher::{item_views, ChannelSwitcherItem, ChannelSwitcherState};
use crate::state::dashboard::DashboardState;
use crate::state::dashboard_channels::{opening_effects, opens, ChannelDetails};
use crate::state::image_viewer::{open_image_viewer, ImageViewerItem, ImageViewerState, ViewerImage};
use crate::state::message_actions::{
    chosen, is_outcome, offered, open_selected_message_actions, ActionMessage, MessageActionOutcome,
};
use crate::state::message_viewport::PaneContent;
use crate::state::model::{EmojiReactionItem, FocusPane};
use crate::state::navigation::{ActivationEffects, ChannelNavigation};
use crate::state::popups::{
    ChannelActionMenuState, EmojiReactionPickerState, MessageActionMenuState, ReactionUsersPopupState,
};
use crate::state::scroll::{clamp_selected_index, last_of, least, minus, move_index_down, move_index_up};
use vstd::prelude::*;

verus! {

/// How many lines a page of the popup with those who reacted has.
pub const REACTION_USERS_PAGE: usize = 10;

impl DashboardState {
    // ---- Who reacted ----

    pub fn is_reaction_users_popup_open(&self) -> (r: bool)
        ensures
            r == (self.reaction_users_popup is Some),
    {
        self.reaction_users_popup.is_some()
    }

    pub fn close_reaction_users_popup(&mut self)
        ensures
            *final(self) == (DashboardState { reaction_users_popup: None, ..*old(self) }),
    {
        self.reaction_users_popup = None;
    }

    /// The open popup scrolled down by some lines.
    pub open spec fn reaction_users_down(self, lines: usize) -> Option<ReactionUsersPopupState> {
        match self.reaction_users_popup {
            Some(p) => Some(
                ReactionUsersPopupState { scroll: least(p.scroll + lines, p.last_scroll()) as usize, ..p },
            ),
            None => None,
        }
    }

    pub open spec fn reaction_users_up(self, lines: usize) -> Option<ReactionUsersPopupState> {
        match self.reaction_users_popup {
            Some(p) => Some(ReactionUsersPopupState { scroll: minus(p.scroll as int, lines as int) as usize, ..p }),
            None => None,
        }
    }

    pub fn scroll_reaction_users_popup_down(&mut self)
        requires
            old(self).wf(),
        ensures
            final(self).wf(),
            *final(self) == (DashboardState { reaction_users_popup: old(self).reaction_users_down(1), ..*old(self) }),
    {
        if let Some(popup) = &mut self.reaction_users_popup {
            popup.scroll_down(1);
        }
    }

    pub fn scroll_reaction_users_popup_up(&mut self)
        requires
            old(self).wf(),
        ensures
            final(self).wf(),
            *final(self) == (DashboardState { reaction_users_popup: old(self).reaction_users_up(1), ..*old(self) }),
    {
        if let Some(popup) = &mut self.reaction_users_popup {
            popup.scroll_up(1);
        }
    }

    pub fn page_reaction_users_popup_down(&mut self)
        requires
            old(self).wf(),
        ensures
            final(self).wf(),
            *final(self) == (DashboardState {
                reaction_users_popup: old(self).reaction_users_down(REACTION_USERS_PAGE),
                ..*old(self)
            }),
    {
        if let Some(popup) = &mut self.reaction_users_popup {
            popup.scroll_down(REACTION_USERS_PAGE);
        }
    }

    pub fn page_reaction_users_popup_up(&mut self)
        requires
            old(self).wf(),
        ensures
            final(self).wf(),
            *final(self) == (DashboardState {
                reaction_users_popup: old(self).reaction_users_up(REACTION_USERS_PAGE),
                ..*old(self)
            }),
    {
        if let Some(popup) = &mut self.reaction_users_popup {
            popup.scroll_up(REACTION_USERS_PAGE);
        }
    }

    pub fn set_reaction_users_popup_view_height(&mut self, height: usize)
        requires
            old(self).wf(),
        ensures
            final(self).wf(),
            *final(self) == (DashboardState {
                reaction_users_popup: match old(self).reaction_users_popup {
                    Some(p) => Some(
                        ReactionUsersPopupState {
                            view_height: height,
                            scroll: least(p.scroll as int, minus(p.lines(), height as int)) as usize,
                            ..p
                        },
                    ),
                    None => None,
                },
                ..*old(self)
            }),
    {
        if let Some(popup) = &mut self.reaction_users_popup {
            popup.set_view_height(height);
        }
    }

    // ---- Reacting ----

    pub fn is_emoji_reaction_picker_open(&self) -> (r: bool)
        ensures
            r == (self.emoji_reaction_picker is Some),
    {
        self.emoji_reaction_picker.is_some()
    }

    pub fn close_emoji_reaction_picker(&mut self)
        ensures
            *final(self) == (DashboardState { emoji_reaction_picker: None, ..*old(self) }),
    {
        self.emoji_reaction_picker = None;
    }

    /// Opens the picker for a message. The emojis are those of its guild, or else of the channel's.
    pub fn open_emoji_reaction_picker(&mut self, message: &ActionMessage, channel_guild: Option<GuildId>)
        ensures
            *final(self) == (DashboardState {
                emoji_reaction_picker: Some(picker_for(*message, channel_guild)),
                ..*old(self)
            }),
    {
        self.emoji_reaction_picker = Some(
            EmojiReactionPickerState {
                selected: 0,
                guild_id: if message.guild_id.is_some() { message.guild_id } else { channel_guild },
                channel_id: message.channel_id,
                message_id: message.message_id,
            },
        );
    }

    /// The guild whose emojis are offered.
    pub fn picker_guild_id(&self, message_guild: Option<GuildId>, channel_guild: Option<GuildId>) -> (r: Option<GuildId>)
        ensures
            r == (if self.emoji_reaction_picker is Some && (self.emoji_reaction_picker->0).guild_id is Some {
                (self.emoji_reaction_picker->0).guild_id
            } else if message_guild is Some {
                message_guild
            } else {
                channel_guild
            }),
    {
        if let Some(picker) = &self.emoji_reaction_picker {
            if picker.guild_id.is_some() {
                return picker.guild_id;
            }
        }
        if message_guild.is_some() {
            message_guild
        } else {
            channel_guild
        }
    }

    pub fn move_emoji_reaction_down(&mut self, items: usize)
        ensures
            *final(self) == (DashboardState {
                emoji_reaction_picker: match old(self).emoji_reaction_picker {
                    Some(p) => Some(
                        EmojiReactionPickerState {
                            selected: least(p.selected + 1, last_of(items as int)) as usize,
                            ..p
                        },
                    ),
                    None => None,
                },
                ..*old(self)
            }),
    {
        if let Some(picker) = &mut self.emoji_reaction_picker {
            move_index_down(&mut picker.selected, items);
        }
    }

    pub fn move_emoji_reaction_up(&mut self)
        ensures
            *final(self) == (DashboardState {
                emoji_reaction_picker: match old(self).emoji_reaction_picker {
                    Some(p) => Some(
                        EmojiReactionPickerState { selected: minus(p.selected as int, 1) as usize, ..p },
                    ),
                    None => None,
                },
                ..*old(self)
            }),
    {
        if let Some(picker) = &mut self.emoji_reaction_picker {
            move_index_up(&mut picker.selected);
        }
    }

    pub open spec fn chosen_emoji(self, items: int) -> Option<usize> {
        match self.emoji_reaction_picker {
            Some(p) => Some(least(p.selected as int, last_of(items)) as usize),
            None => None,
        }
    }

    pub fn selected_emoji_reaction_index(&self, items: usize) -> (r: Option<usize>)
        ensures
            r == self.chosen_emoji(items as int),
    {
        match &self.emoji_reaction_picker {
            Some(picker) => Some(clamp_selected_index(picker.selected, items)),
            None => None,
        }
    }

    /// Reacts with the selected emoji and closes the picker. Where there is none to select, it stays.
    pub fn activate_selected_emoji_reaction(&mut self, items: &Vec<EmojiReactionItem>) -> (r: Option<AppCommand>)
        ensures
            match old(self).emoji_reaction_picker {
                Some(p) => if items@.len() > 0 {
                    &&& r == Some(
                        AppCommand::AddReaction {
                            channel_id: p.channel_id,
                            message_id: p.message_id,
                            emoji: items@[old(self).chosen_emoji(items@.len() as int)->0 as int].emoji,
                        },
                    )
                    &&& *final(self) == (DashboardState { emoji_reaction_picker: None, ..*old(self) })
                } else {
                    r is None && *final(self) == *old(self)
                },
                None => r is None && *final(self) == *old(self),
            },
    {
        let index: usize = match self.selected_emoji_reaction_index(items.len()) {
            Some(index) => index,
            None => {
                return None;
            },
        };
        if index >= items.len() {
            return None;
        }
        match self.emoji_reaction_picker {
            Some(picker) => {
                let emoji = items[index].emoji.copy();
                self.emoji_reaction_picker = None;
                Some(AppCommand::AddReaction { channel_id: picker.channel_id, message_id: picker.message_id, emoji })
            },
            None => None,
        }
    }

    // ---- Menus ----

    pub fn is_channel_action_menu_open(&self) -> (r: bool)
        ensures
            r == (self.channel_action_menu is Some),
    {
        self.channel_action_menu.is_some()
    }

    pub fn is_channel_action_threads_phase(&self) -> (r: bool)
        ensures
            r == (self.channel_action_menu is Some && self.channel_action_menu->0 is Threads),
    {
        matches!(self.channel_action_menu, Some(ChannelActionMenuState::Threads { .. }))
    }

    pub fn is_message_action_menu_open(&self) -> (r: bool)
        ensures
            r == (self.message_action_menu is Some),
    {
        self.message_action_menu.is_some()
    }

    pub fn close_message_action_menu(&mut self)
        ensures
            *final(self) == (DashboardState { message_action_menu: None, ..*old(self) }),
    {
        self.message_action_menu = None;
    }

    pub fn open_selected_message_actions(&mut self, has_message: bool)
        ensures
            *final(self) == (DashboardState {
                message_action_menu: if old(self).focus == FocusPane::Messages && has_message {
                    Some(MessageActionMenuState { selected: 0 })
                } else {
                    old(self).message_action_menu
                },
                ..*old(self)
            }),
    {
        self.message_action_menu = open_selected_message_actions(self.message_action_menu, self.focus, has_message);
    }

    /// Does what is selected in the menu of a message, as far as it is done here: the menu closes, an answer
    /// is begun, the viewer or the picker opens, and a thread is gone to, with the way back remembered. The rest is
    /// left to the caller, as is what follows from going to the thread. `thread` tells of the thread that the
    /// message started.
    pub fn activate_selected_message_action(
        &mut self,
        message: &ActionMessage,
        can_send: bool,
        show_images: bool,
        images: usize,
        channel_guild: Option<GuildId>,
        thread: ChannelDetails,
        content: &PaneContent,
    ) -> (r: (MessageActionOutcome, Option<ActivationEffects>))
        requires
            old(self).wf(),
        ensures
            final(self).wf(),
            old(self).message_action_menu is None ==> r.0 is Ignored,
            old(self).message_action_menu matches Some(menu) ==> ({
                let me = old(self).events.current_user_id;
                let actions = offered(*message, me);
                is_outcome(r.0, actions[chosen(menu, actions.len() as int)].kind, *message, me)
            }),
            r.0 is Ignored ==> *final(self) == *old(self),
            !(r.0 is Ignored) ==> *final(self) == (DashboardState {
                message_action_menu: None,
                composer: final(self).composer,
                navigation: final(self).navigation,
                focus: if r.0 is ReplyComposer && can_send {
                    FocusPane::Messages
                } else {
                    old(self).focus
                },
                image_viewer: if r.0 is ImageViewer && show_images && images > 0 {
                    Some(ImageViewerState { message_id: message.message_id, selected: 0, action_menu_selected: None })
                } else {
                    old(self).image_viewer
                },
                emoji_reaction_picker: if r.0 is ReactionPicker {
                    Some(picker_for(*message, channel_guild))
                } else {
                    old(self).emoji_reaction_picker
                },
                ..*old(self)
            }),
            r.0 is ReplyComposer && can_send ==> final(self).composer.is_clear() && final(self).composer.composer_active
                && final(self).composer.reply_target_message_id == Some(message.message_id),
            !(r.0 is ReplyComposer && can_send) ==> final(self).composer == old(self).composer,
            r.0 matches MessageActionOutcome::Thread(channel_id) ==> r.1 == Some(opening_effects(thread)) && opens(
                ChannelNavigation {
                    thread_return_target: old(self).navigation.return_target(channel_id),
                    ..old(self).navigation
                },
                final(self).navigation,
                channel_id,
                thread,
                *content,
            ),
            !(r.0 is Thread) ==> r.1 is None && final(self).navigation == old(self).navigation,
    {
        let menu: MessageActionMenuState = match self.message_action_menu {
            Some(menu) => menu,
            None => {
                return (MessageActionOutcome::Ignored, None);
            },
        };
        let mut effects: Option<ActivationEffects> = None;
        let outcome = menu.activate_selected_message_action(message, self.events.current_user_id);
        match &outcome {
            MessageActionOutcome::Ignored => {},
            MessageActionOutcome::ReplyComposer => {
                let started = self.composer.start_reply_composer(Some(message.message_id), can_send);
                if started {
                    self.focus = FocusPane::Messages;
                }
                self.message_action_menu = None;
            },
            MessageActionOutcome::ImageViewer => {
                self.message_action_menu = None;
                let viewer = open_image_viewer(show_images, Some(message.message_id), images);
                if viewer.is_some() {
                    self.image_viewer = viewer;
                }
            },
            MessageActionOutcome::ReactionPicker => {
                self.open_emoji_reaction_picker(message, channel_guild);
                self.message_action_menu = None;
            },
            MessageActionOutcome::Thread(channel_id) => {
                self.navigation.record_thread_return_target(*channel_id);
                assert(self.navigation == (ChannelNavigation {
                    thread_return_target: old(self).navigation.return_target(*channel_id),
                    ..old(self).navigation
                }));
                effects = Some(self.activate_channel(*channel_id, thread, content));
                self.message_action_menu = None;
            },
            _ => {
                self.message_action_menu = None;
            },
        }
        (outcome, effects)
    }

    // ---- The image viewer ----

    pub fn is_image_viewer_open(&self) -> (r: bool)
        ensures
            r == (self.image_viewer is Some),
    {
        self.image_viewer.is_some()
    }

    pub fn is_image_viewer_action_menu_open(&self) -> (r: bool)
        ensures
            r == (self.image_viewer is Some && (self.image_viewer->0).action_menu_selected is Some),
    {
        match self.image_viewer {
            Some(viewer) => viewer.action_menu_selected.is_some(),
            None => false,
        }
    }

    pub fn open_image_viewer_for_selected_message(
        &mut self,
        show_images: bool,
        message_id: Option<MessageId>,
        images: usize,
    ) -> (opened: bool)
        ensures
            opened == (show_images && message_id is Some && images > 0),
            *final(self) == (if opened {
                DashboardState {
                    image_viewer: Some(
                        ImageViewerState { message_id: message_id->0, selected: 0, action_menu_selected: None },
                    ),
                    ..*old(self)
                }
            } else {
                *old(self)
            }),
    {
        let viewer = open_image_viewer(show_images, message_id, images);
        if viewer.is_none() {
            return false;
        }
        self.image_viewer = viewer;
        true
    }

    pub fn close_image_viewer(&mut self)
        ensures
            *final(self) == (DashboardState { image_viewer: None, ..*old(self) }),
    {
        self.image_viewer = None;
    }

    /// Shows the next image. Where the message has none any more, the viewer closes.
    pub fn move_image_viewer_next(&mut self, images: usize)
        ensures
            *final(self) == (DashboardState {
                image_viewer: match old(self).image_viewer {
                    Some(v) => if images > 0 {
                        Some(ImageViewerState { selected: least(v.selected + 1, images - 1) as usize, ..v })
                    } else {
                        None
                    },
                    None => None,
                },
                ..*old(self)
            }),
    {
        if let Some(viewer) = self.image_viewer {
            let mut next = viewer;
            if next.move_image_viewer_next(images) {
                self.image_viewer = Some(next);
            } else {
                self.image_viewer = None;
            }
        }
    }

    pub fn selected_image_viewer_item(&self, images: &Vec<ViewerImage>) -> (r: Option<ImageViewerItem>)
        ensures
            r == (match self.image_viewer {
                Some(viewer) => viewer.item(images@),
                None => None,
            }),
    {
        match &self.image_viewer {
            Some(viewer) => viewer.selected_image_viewer_item(images),
            None => None,
        }
    }

    // ---- The switcher ----

    pub fn is_channel_switcher_open(&self) -> (r: bool)
        ensures
            r == (self.channel_switcher is Some),
    {
        self.channel_switcher.is_some()
    }

    /// Opens the switcher with its rows. The menus close.
    pub fn open_channel_switcher(&mut self, items: Vec<ChannelSwitcherItem>)
        requires
            old(self).wf(),
        ensures
            final(self).wf(),
            *final(self) == (DashboardState {
                message_action_menu: None,
                channel_action_menu: None,
                channel_switcher: final(self).channel_switcher,
                ..*old(self)
            }),
            final(self).channel_switcher is Some,
            (final(self).channel_switcher->0).shown() == item_views(items@),
            (final(self).channel_switcher->0).query@.text().len() == 0,
            (final(self).channel_switcher->0).selected == 0,
    {
        self.message_action_menu = None;
        self.channel_action_menu = None;
        self.channel_switcher = Some(ChannelSwitcherState::new(items));
    }

    pub fn close_channel_switcher(&mut self)
        ensures
            *final(self) == (DashboardState { channel_switcher: None, ..*old(self) }),
    {
        self.channel_switcher = None;
    }

    /// The channel that is selected in the switcher.
    pub fn channel_switcher_channel(&self) -> (r: Option<ChannelId>)
        ensures
            r == (match self.channel_switcher {
                Some(s) => if s.shown().len() == 0 {
                    None
                } else {
                    Some(s.shown()[least(s.selected as int, last_of(s.shown().len() as int))].channel_id)
                },
                None => None,
            }),
    {
        match &self.channel_switcher {
            Some(switcher) => switcher.selected_channel(),
            None => None,
        }
    }
}

/// The picker of a message.
pub open spec fn picker_for(m: ActionMessage, channel_guild: Option<GuildId>) -> EmojiReactionPickerState {
    EmojiReactionPickerState {
        selected: 0,
        guild_id: if m.guild_id is Some {
            m.guild_id
        } else {
            channel_guild
        },
        channel_id: m.channel_id,
        message_id: m.message_id,
    }
}

} // verus!
