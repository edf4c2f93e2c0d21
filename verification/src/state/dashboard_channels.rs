//! Opening guilds, channels and threads, writing in them, and what events do to all of it.

use crate::discord::{AppCommand, AppEvent};
use crate::ids::{ChannelId, GuildId, MessageId};
use crate::state::channel_pane::{
    category_of, confirm_selected_channel, confirmed_row, restore_channel_cursor, restore_channel_pane_cursor,
    row_of_channel, row_of_cursor, selected_channel_category_id, ChannelConfirm, ChannelKind, ChannelPaneCursor,
};
use crate::state::channel_text::{channel_subscription_command, subscription};
use crate::state::composer::ComposerState;
use crate::state::dashboard::{toggled, DashboardState, PaneLists};
use crate::state::event_viewport::{captured, EventViewportContext, NewMessage};
use crate::state::events::{EventUiState, UiAction};
use crate::state::guilds::{
    confirm_selected_guild, confirmed, entry_views, folder_at, selected_folder_key, ActiveGuildScope,
    GuildConfirm,
};
use crate::state::list_pane::ListPane;
use crate::state::message_viewport::{MessageViewport, PaneContent};
use crate::state::model::{ChannelPaneEntry, FocusPane, GuildPaneEntry};
use crate::state::navigation::{opened, recent, without, ActivationEffects, ChannelFacts, ChannelNavigation};
use crate::state::older_history::after_loaded;
use crate::state::scroll::{last_of, least};
use vstd::prelude::*;

verus! {

/// What is known of a channel that is to be opened.
#[derive(Clone, Copy, Debug, PartialEq, Eq, Structural)]
pub struct ChannelDetails {
    pub kind: ChannelKind,
    pub guild_id: Option<GuildId>,
    pub parent_id: Option<ChannelId>,
    pub facts: ChannelFacts,
    /// None of its messages are loaded.
    pub cold: bool,
    /// Its messages were loaded long ago.
    pub stale: bool,
}

/// What the user may do in a channel.
#[derive(Clone, Copy, Debug, PartialEq, Eq, Structural)]
pub struct ChannelRights {
    pub is_forum: bool,
    pub can_send: bool,
    pub can_attach: bool,
}

/// Whether messages can be sent to the channel that is open. Without one, nothing stands in the way.
pub fn can_send_in_selected_channel(channel: Option<ChannelRights>) -> (r: bool)
    ensures
        r == (channel is Some ==> !(channel->0).is_forum && (channel->0).can_send),
{
    match channel {
        Some(c) => !c.is_forum && c.can_send,
        None => true,
    }
}

/// Whether files can be sent along.
pub fn can_attach_in_selected_channel(channel: Option<ChannelRights>) -> (r: bool)
    ensures
        r == (channel is Some ==> !(channel->0).is_forum && (channel->0).can_attach),
{
    match channel {
        Some(c) => !c.is_forum && c.can_attach,
        None => true,
    }
}

/// What the open channel is after an event, as far as it is still there.
#[derive(Clone, Copy, Debug, PartialEq, Eq, Structural)]
pub struct ActiveFacts {
    /// Whether the guild that is looked at is still there.
    pub guild_known: bool,
    /// The guild of the open channel, whether it is a category, and whether it can be seen.
    pub channel: Option<ActiveChannel>,
}

#[derive(Clone, Copy, Debug, PartialEq, Eq, Structural)]
pub struct ActiveChannel {
    pub guild_id: Option<GuildId>,
    pub is_category: bool,
    pub viewable: bool,
}

/// What else is known of an event.
#[derive(Clone, Copy, Debug, PartialEq, Eq, Structural)]
pub struct EventFacts {
    /// A message of the user's own came into the open channel.
    pub user_just_sent: bool,
    /// A message came into the open channel.
    pub new_message: Option<NewMessage>,
    /// What the cursor of the channel pane was on.
    pub channel_cursor: Option<ChannelPaneCursor>,
    /// The pane shows the newest messages of a channel.
    pub supports_follow: bool,
    /// A message of the open channel that was asked for.
    pub referenced: Option<MessageId>,
    pub active: ActiveFacts,
}

/// What an event leads to elsewhere: things to be done, and a channel that was read.
#[derive(Debug, PartialEq, Eq)]
pub struct EventOutcome {
    pub actions: Vec<UiAction>,
    pub ack: Option<ChannelId>,
}

/// A message pane that begins anew.
pub open spec fn reset(v: MessageViewport) -> MessageViewport {
    MessageViewport {
        selected_message: 0,
        message_scroll: 0,
        message_line_scroll: 0,
        message_keep_selection_visible: true,
        message_auto_follow: true,
        ..v
    }
}

fn reset_viewport(v: &mut MessageViewport)
    ensures
        *final(v) == reset(*old(v)),
{
    v.selected_message = 0;
    v.message_scroll = 0;
    v.message_line_scroll = 0;
    v.message_keep_selection_visible = true;
    v.message_auto_follow = true;
}

/// Whether a channel was opened.
pub open spec fn opens(
    before: ChannelNavigation,
    after: ChannelNavigation,
    channel_id: ChannelId,
    details: ChannelDetails,
    content: PaneContent,
) -> bool {
    &&& after.wf()
    &&& after.active_channel_id == Some(channel_id)
    &&& after.recent_channel_ids@ == (if details.facts.known && !details.facts.is_category
        && !details.facts.is_thread {
        recent(before.recent_channel_ids@, channel_id)
    } else {
        before.recent_channel_ids@
    })
    &&& after.thread_return_target == (if before.keeps_return(channel_id) {
        before.thread_return_target
    } else {
        None
    })
    &&& after.pinned_message_view_channel_id is None
    &&& after.thread_list_view_channel_id is None
    &&& after.viewport == opened(before.viewport, details.facts, content)
}

/// What follows from opening a channel.
pub open spec fn opening_effects(details: ChannelDetails) -> ActivationEffects {
    ActivationEffects { record_loading: details.cold || details.stale, queue_ack: !details.facts.is_forum }
}

/// What is open, unless it closes.
pub open spec fn unless<T>(closes: bool, open: Option<T>) -> Option<T> {
    if closes {
        None
    } else {
        open
    }
}

/// The row that a cursor is on, or the one before.
pub open spec fn row_of_cursor_or(
    entries: Seq<ChannelPaneEntry>,
    cursor: Option<ChannelPaneCursor>,
    row: usize,
) -> usize {
    match cursor {
        Some(cursor) => if row_of_cursor(entries, cursor) < entries.len() {
            row_of_cursor(entries, cursor) as usize
        } else {
            row
        },
        None => row,
    }
}

/// A row with a channel, or the one before.
pub open spec fn row_or(entries: Seq<ChannelPaneEntry>, channel: Option<ChannelId>, row: usize) -> usize {
    match channel {
        Some(id) => if row_of_channel(entries, id) < entries.len() {
            row_of_channel(entries, id) as usize
        } else {
            row
        },
        None => row,
    }
}

/// What came of choosing a channel: what is sent, and what follows from opening it.
#[derive(Debug, PartialEq, Eq)]
pub enum ChannelChoice {
    Ignored,
    Opened { command: Option<AppCommand>, effects: ActivationEffects },
    /// Something can be done with who is in a call.
    OpenActions,
    /// A category was opened or closed.
    Toggled,
}

impl DashboardState {
    // ---- Guilds ----

    /// Looking at a guild, with no channel open.
    pub open spec fn guild_activated(self, scope: ActiveGuildScope) -> DashboardState {
        DashboardState {
            active_guild: scope,
            channels: ListPane { selected: 0, scroll: 0, ..self.channels },
            members: ListPane { selected: 0, ..self.members },
            navigation: ChannelNavigation {
                active_channel_id: None,
                viewport: reset(self.navigation.viewport),
                ..self.navigation
            },
            ..self
        }
    }

    pub fn activate_guild(&mut self, scope: ActiveGuildScope)
        ensures
            *final(self) == old(self).guild_activated(scope),
            old(self).wf() ==> final(self).wf(),
    {
        self.active_guild = scope;
        self.channels.selected = 0;
        self.channels.scroll = 0;
        self.navigation.active_channel_id = None;
        reset_viewport(&mut self.navigation.viewport);
        self.members.selected = 0;
    }

    pub fn selected_guild_id(&self) -> (r: Option<GuildId>)
        ensures
            r == self.active_guild.guild(),
    {
        self.active_guild.selected_guild_id()
    }

    /// Opens or closes the folder that the cursor is on or in.
    pub fn toggle_selected_folder<'a>(&mut self, entries: &Vec<GuildPaneEntry<'a>>)
        ensures
            ({
                let key = folder_at(
                    entry_views(entries@),
                    old(self).guilds.cursor(entries@.len() as int),
                );
                &&& *final(self) == (DashboardState { collapsed_folders: final(self).collapsed_folders, ..*old(self) })
                &&& final(self).collapsed_folders@ == (match key {
                    Some(key) => if old(self).collapsed_folders@.contains(key) {
                        old(self).collapsed_folders@.remove(key)
                    } else {
                        old(self).collapsed_folders@.insert(key)
                    },
                    None => old(self).collapsed_folders@,
                })
            }),
    {
        let selected = self.guilds.index(entries.len());
        let key = selected_folder_key(entries, selected);
        if let Some(key) = key {
            self.collapsed_folders.toggle(key);
        }
    }

    pub fn open_selected_folder<'a>(&mut self, entries: &Vec<GuildPaneEntry<'a>>)
        ensures
            ({
                let key = folder_at(
                    entry_views(entries@),
                    old(self).guilds.cursor(entries@.len() as int),
                );
                &&& *final(self) == (DashboardState { collapsed_folders: final(self).collapsed_folders, ..*old(self) })
                &&& final(self).collapsed_folders@ == (match key {
                    Some(key) => old(self).collapsed_folders@.remove(key),
                    None => old(self).collapsed_folders@,
                })
            }),
    {
        let selected = self.guilds.index(entries.len());
        let key = selected_folder_key(entries, selected);
        if let Some(key) = key {
            self.collapsed_folders.open(&key);
        }
    }

    pub fn close_selected_folder<'a>(&mut self, entries: &Vec<GuildPaneEntry<'a>>)
        ensures
            ({
                let key = folder_at(
                    entry_views(entries@),
                    old(self).guilds.cursor(entries@.len() as int),
                );
                &&& *final(self) == (DashboardState { collapsed_folders: final(self).collapsed_folders, ..*old(self) })
                &&& final(self).collapsed_folders@ == (match key {
                    Some(key) => old(self).collapsed_folders@.insert(key),
                    None => old(self).collapsed_folders@,
                })
            }),
    {
        let selected = self.guilds.index(entries.len());
        let key = selected_folder_key(entries, selected);
        if let Some(key) = key {
            self.collapsed_folders.close(key);
        }
    }

    /// Looks at the guild that the cursor is on, or opens or closes the folder.
    pub fn confirm_selected_guild<'a>(&mut self, entries: &Vec<GuildPaneEntry<'a>>)
        ensures
            match confirmed(entry_views(entries@), old(self).guilds.cursor(entries@.len() as int)) {
                GuildConfirm::Activate { scope } => *final(self) == old(self).guild_activated(scope),
                GuildConfirm::ToggleFolder => {
                    &&& *final(self) == (DashboardState {
                        collapsed_folders: final(self).collapsed_folders,
                        ..*old(self)
                    })
                    &&& match folder_at(entry_views(entries@), old(self).guilds.cursor(entries@.len() as int)) {
                        Some(key) => final(self).collapsed_folders@.contains(key) != old(self).collapsed_folders@.contains(key),
                        None => final(self).collapsed_folders@ == old(self).collapsed_folders@,
                    }
                },
                GuildConfirm::Nothing => *final(self) == *old(self),
            },
    {
        let selected = self.guilds.index(entries.len());
        match confirm_selected_guild(entries, selected) {
            GuildConfirm::Activate { scope } => self.activate_guild(scope),
            GuildConfirm::ToggleFolder => self.toggle_selected_folder(entries),
            GuildConfirm::Nothing => {},
        }
    }

    // ---- Channels ----

    /// Opens a channel. `content` is what the message pane will show.
    pub fn activate_channel(&mut self, channel_id: ChannelId, details: ChannelDetails, content: &PaneContent) -> (r:
        ActivationEffects)
        requires
            old(self).wf(),
        ensures
            final(self).wf(),
            opens(old(self).navigation, final(self).navigation, channel_id, details, *content),
            *final(self) == (DashboardState { navigation: final(self).navigation, ..*old(self) }),
            r == opening_effects(details),
    {
        self.navigation.activate_channel(channel_id, details.facts, details.cold, details.stale, content)
    }

    /// Opens the channel that the cursor is on, or opens or closes the category that it is on.
    pub fn confirm_selected_channel_command(
        &mut self,
        entries: &Vec<ChannelPaneEntry>,
        lists: &PaneLists,
        details: ChannelDetails,
        content: &PaneContent,
    ) -> (r: ChannelChoice)
        requires
            old(self).wf(),
        ensures
            final(self).wf(),
            match confirmed_row(entries@, old(self).channel_cursor(*lists) as int) {
                ChannelConfirm::ToggleCategory => {
                    let category = category_of(entries@, old(self).channel_cursor(*lists) as int);
                    &&& r is Toggled
                    &&& *final(self) == (DashboardState {
                        collapsed_channel_categories: final(self).collapsed_channel_categories,
                        ui_state_save_pending: final(self).ui_state_save_pending,
                        ..*old(self)
                    })
                    &&& final(self).ui_state_save_pending == (old(self).ui_state_save_pending || category is Some)
                    &&& final(self).collapsed_channel_categories@ == (match category {
                        Some(id) => toggled(old(self).collapsed_channel_categories@, id),
                        None => old(self).collapsed_channel_categories@,
                    })
                },
                ChannelConfirm::Activate { channel_id } => {
                    &&& r == (ChannelChoice::Opened {
                        command: subscription(details.kind, details.guild_id, channel_id),
                        effects: opening_effects(details),
                    })
                    &&& opens(old(self).navigation, final(self).navigation, channel_id, details, *content)
                    &&& *final(self) == (DashboardState { navigation: final(self).navigation, ..*old(self) })
                },
                ChannelConfirm::OpenActions => r is OpenActions && *final(self) == *old(self),
                ChannelConfirm::Nothing => r is Ignored && *final(self) == *old(self),
            },
    {
        let row = self.selected_channel(lists);
        match confirm_selected_channel(entries, row) {
            ChannelConfirm::ToggleCategory => {
                self.toggle_channel_category(selected_channel_category_id(entries, row));
                ChannelChoice::Toggled
            },
            ChannelConfirm::Activate { channel_id } => {
                let command = channel_subscription_command(details.kind, details.guild_id, channel_id);
                let effects = self.activate_channel(channel_id, details, content);
                ChannelChoice::Opened { command, effects }
            },
            ChannelConfirm::OpenActions => ChannelChoice::OpenActions,
            ChannelConfirm::Nothing => ChannelChoice::Ignored,
        }
    }

    /// What the cursor of the channel pane is on.
    pub fn selected_channel_cursor(&self, entries: &Vec<ChannelPaneEntry>, lists: &PaneLists) -> (r: Option<
        ChannelPaneCursor,
    >)
        ensures
            r == (if self.channel_cursor(*lists) < entries@.len() {
                Some(entries@[self.channel_cursor(*lists) as int].place())
            } else {
                None
            }),
    {
        let row = self.selected_channel(lists);
        if row < entries.len() {
            Some(entries[row].cursor())
        } else {
            None
        }
    }

    /// Opens a thread or a post from its card, and remembers the way back.
    pub fn activate_thread_card(&mut self, channel_id: Option<ChannelId>, details: ChannelDetails, content: &PaneContent)
        -> (r: ChannelChoice)
        requires
            old(self).wf(),
        ensures
            final(self).wf(),
            channel_id is None || details.guild_id is None ==> r is Ignored && *final(self) == *old(self),
            channel_id is Some && details.guild_id is Some ==> {
                &&& r == (ChannelChoice::Opened {
                    command: Some(
                        AppCommand::SubscribeGuildChannel { guild_id: details.guild_id->0, channel_id: channel_id->0 },
                    ),
                    effects: opening_effects(details),
                })
                &&& opens(
                    ChannelNavigation {
                        thread_return_target: old(self).navigation.return_target(channel_id->0),
                        ..old(self).navigation
                    },
                    final(self).navigation,
                    channel_id->0,
                    details,
                    *content,
                )
                &&& *final(self) == (DashboardState { navigation: final(self).navigation, ..*old(self) })
            },
    {
        let channel_id: ChannelId = match channel_id {
            Some(id) => id,
            None => {
                return ChannelChoice::Ignored;
            },
        };
        let guild_id: GuildId = match details.guild_id {
            Some(id) => id,
            None => {
                return ChannelChoice::Ignored;
            },
        };
        self.navigation.record_thread_return_target(channel_id);
        assert(self.navigation == (ChannelNavigation {
            thread_return_target: old(self).navigation.return_target(channel_id),
            ..old(self).navigation
        }));
        let effects = self.activate_channel(channel_id, details, content);
        ChannelChoice::Opened { command: Some(AppCommand::SubscribeGuildChannel { guild_id, channel_id }), effects }
    }

    /// Goes to the channel that is selected in the switcher. `details` are those of the channel, where it is
    /// still there, and `entries` the rows of the channel pane in its guild.
    pub fn activate_selected_channel_switcher_item(
        &mut self,
        details: Option<ChannelDetails>,
        entries: &Vec<ChannelPaneEntry>,
        content: &PaneContent,
    ) -> (r: ChannelChoice)
        requires
            old(self).wf(),
        ensures
            final(self).wf(),
            ({
                let selected = match old(self).channel_switcher {
                    Some(s) => if s.shown().len() == 0 {
                        None
                    } else {
                        Some(s.shown()[least(s.selected as int, last_of(s.shown().len() as int))].channel_id)
                    },
                    None => None,
                };
                match (selected, details) {
                    (None, _) => r is Ignored && *final(self) == *old(self),
                    (Some(_), None) => r is Ignored && *final(self) == (DashboardState {
                        channel_switcher: None,
                        ..*old(self)
                    }),
                    (Some(channel_id), Some(d)) => {
                        let scope = match d.guild_id {
                            Some(guild_id) => ActiveGuildScope::Guild(guild_id),
                            None => ActiveGuildScope::DirectMessages,
                        };
                        let there = (DashboardState { channel_switcher: None, ..*old(self) }).guild_activated(scope);
                        &&& r == (ChannelChoice::Opened {
                            command: Some(
                                match d.guild_id {
                                    Some(guild_id) => AppCommand::SubscribeGuildChannel { guild_id, channel_id },
                                    None => AppCommand::SubscribeDirectMessage { channel_id },
                                },
                            ),
                            effects: opening_effects(d),
                        })
                        &&& opens(there.navigation, final(self).navigation, channel_id, d, *content)
                        &&& *final(self) == (DashboardState {
                            navigation: final(self).navigation,
                            collapsed_channel_categories: final(self).collapsed_channel_categories,
                            channels: ListPane {
                                selected: row_or(entries@, Some(channel_id), 0),
                                ..there.channels
                            },
                            ..there
                        })
                        &&& final(self).collapsed_channel_categories@ == (if d.guild_id is Some && d.parent_id is Some {
                            without(old(self).collapsed_channel_categories@, d.parent_id->0)
                        } else {
                            old(self).collapsed_channel_categories@
                        })
                    },
                }
            }),
    {
        let channel_id: ChannelId = match self.channel_switcher_channel() {
            Some(id) => id,
            None => {
                return ChannelChoice::Ignored;
            },
        };
        self.close_channel_switcher();
        let details: ChannelDetails = match details {
            Some(details) => details,
            None => {
                return ChannelChoice::Ignored;
            },
        };
        let command = match details.guild_id {
            Some(guild_id) => {
                self.activate_guild(ActiveGuildScope::Guild(guild_id));
                if let Some(parent_id) = details.parent_id {
                    self.open_channel_category(parent_id);
                }
                AppCommand::SubscribeGuildChannel { guild_id, channel_id }
            },
            None => {
                self.activate_guild(ActiveGuildScope::DirectMessages);
                AppCommand::SubscribeDirectMessage { channel_id }
            },
        };
        self.channels.selected = restore_channel_cursor(entries, self.channels.selected, Some(channel_id));
        let effects = self.activate_channel(channel_id, details, content);
        ChannelChoice::Opened { command: Some(command), effects }
    }

    // ---- Writing ----

    pub fn is_composing(&self) -> (r: bool)
        ensures
            r == self.composer.composer_active,
    {
        self.composer.composer_active
    }

    /// Begins a message in the open channel.
    pub fn start_composer(&mut self, rights: Option<ChannelRights>)
        requires
            old(self).wf(),
        ensures
            final(self).wf(),
            *final(self) == (if old(self).navigation.active_channel_id is Some && (rights is Some ==> !(
            rights->0).is_forum && (rights->0).can_send) {
                DashboardState {
                    focus: FocusPane::Messages,
                    composer: ComposerState {
                        reply_target_message_id: None,
                        composer_active: true,
                        ..old(self).composer
                    },
                    ..*old(self)
                }
            } else {
                *old(self)
            }),
    {
        let started = self.composer.start_composer(
            self.navigation.active_channel_id.is_some(),
            can_send_in_selected_channel(rights),
        );
        if started {
            self.focus = FocusPane::Messages;
        }
    }

    // ---- Events ----

    /// Whether the open channel can stay open.
    pub open spec fn channel_stays(self, active: ActiveFacts) -> bool {
        match active.channel {
            None => false,
            Some(c) => match self.active_guild {
                ActiveGuildScope::Unset => false,
                ActiveGuildScope::DirectMessages => c.guild_id is None && !c.is_category,
                ActiveGuildScope::Guild(id) => active.guild_known && c.guild_id == Some(id) && !c.is_category
                    && c.viewable,
            },
        }
    }

    /// What is looked at after an event: a guild that is gone no longer.
    pub open spec fn scope_after(self, active: ActiveFacts) -> ActiveGuildScope {
        if self.active_guild is Guild && !active.guild_known {
            ActiveGuildScope::Unset
        } else {
            self.active_guild
        }
    }

    /// Whether the open channel is closed by an event.
    pub open spec fn loses_channel(self, active: ActiveFacts) -> bool {
        self.navigation.active_channel_id is Some && !self.channel_stays(active)
    }

    /// Closes what is no longer there: the guild that is looked at, or the channel with all that belongs to
    /// it.
    pub fn clamp_active_selection(&mut self, active: ActiveFacts)
        requires
            old(self).wf(),
        ensures
            final(self).wf(),
            !old(self).loses_channel(active) ==> *final(self) == (DashboardState {
                active_guild: old(self).scope_after(active),
                ..*old(self)
            }),
            old(self).loses_channel(active) ==> {
                &&& *final(self) == (DashboardState {
                    active_guild: old(self).scope_after(active),
                    navigation: ChannelNavigation {
                        active_channel_id: None,
                        viewport: reset(old(self).navigation.viewport),
                        ..old(self).navigation
                    },
                    composer: final(self).composer,
                    message_action_menu: None,
                    channel_action_menu: None,
                    emoji_reaction_picker: None,
                    poll_vote_picker: None,
                    reaction_users_popup: None,
                    ..*old(self)
                })
                &&& final(self).composer.is_clear()
                &&& !final(self).composer.composer_active
                &&& final(self).composer.reply_target_message_id is None
            },
    {
        let stays = match active.channel {
            None => false,
            Some(c) => match self.active_guild {
                ActiveGuildScope::Unset => false,
                ActiveGuildScope::DirectMessages => c.guild_id.is_none() && !c.is_category,
                ActiveGuildScope::Guild(id) => active.guild_known && match c.guild_id {
                    Some(guild_id) => guild_id == id,
                    None => false,
                } && !c.is_category && c.viewable,
            },
        };
        if matches!(self.active_guild, ActiveGuildScope::Guild(_)) && !active.guild_known {
            self.active_guild = ActiveGuildScope::Unset;
        }
        if self.navigation.active_channel_id.is_some() && !stays {
            self.navigation.active_channel_id = None;
            reset_viewport(&mut self.navigation.viewport);
            self.composer.cancel_composer();
            self.message_action_menu = None;
            self.channel_action_menu = None;
            self.emoji_reaction_picker = None;
            self.poll_vote_picker = None;
            self.reaction_users_popup = None;
        }
    }

    /// What an event says is taken note of.
    pub open spec fn noted(self, after: DashboardState, event: AppEvent) -> bool {
        &&& after.events == (EventUiState {
            audio_inputs: after.events.audio_inputs,
            audio_outputs: after.events.audio_outputs,
            ..self.events.after(event)
        })
        &&& after.events.audio_inputs@ == self.events.devices_after(event).0
        &&& after.events.audio_outputs@ == self.events.devices_after(event).1
        &&& after.older_history@ == (match event {
            AppEvent::MessageHistoryLoaded { channel_id, before, messages } => after_loaded(
                self.older_history@,
                channel_id,
                before,
                messages@.len() == 0,
            ),
            AppEvent::MessageHistoryLoadFailed { channel_id, .. } => self.older_history@.remove(channel_id),
            _ => self.older_history@,
        })
    }

    fn note_event(&mut self, event: AppEvent) -> (actions: Vec<UiAction>)
        requires
            old(self).wf(),
        ensures
            final(self).wf(),
            actions@ == old(self).events.actions(event),
            old(self).noted(*final(self), event),
            *final(self) == (DashboardState {
                events: final(self).events,
                older_history: final(self).older_history,
                ..*old(self)
            }),
    {
        match &event {
            AppEvent::MessageHistoryLoaded { channel_id, before: response_before, messages } => {
                self.older_history.record_older_history_loaded(*channel_id, *response_before, messages.len() == 0);
            },
            AppEvent::MessageHistoryLoadFailed { channel_id, .. } => {
                self.older_history.record_history_load_failed(*channel_id);
            },
            _ => {},
        }
        self.events.apply_event_ui_effects(event)
    }

    /// Whether the panes are as they should be after an event.
    pub open spec fn settled(
        self,
        after: DashboardState,
        context: EventViewportContext,
        entries: Seq<ChannelPaneEntry>,
        lists: PaneLists,
        facts: EventFacts,
    ) -> bool {
        let lost = self.loses_channel(facts.active);
        let viewport = if lost {
            reset(self.navigation.viewport)
        } else {
            self.navigation.viewport
        };
        let row = row_of_cursor_or(entries, facts.channel_cursor, self.channels.selected);
        let clamped = (DashboardState { channels: ListPane { selected: row, ..self.channels }, ..self }).lists_clamped(
            lists,
        );
        &&& after == (DashboardState {
            active_guild: self.scope_after(facts.active),
            navigation: ChannelNavigation {
                active_channel_id: if lost {
                    None
                } else {
                    self.navigation.active_channel_id
                },
                viewport: context.repaired(viewport, lists.content, facts.supports_follow, facts.referenced),
                ..self.navigation
            },
            guilds: clamped.guilds,
            channels: clamped.channels,
            members: clamped.members,
            composer: after.composer,
            message_action_menu: unless(lost, self.message_action_menu),
            channel_action_menu: unless(lost, self.channel_action_menu),
            emoji_reaction_picker: unless(lost, self.emoji_reaction_picker),
            poll_vote_picker: unless(lost, self.poll_vote_picker),
            reaction_users_popup: unless(lost, self.reaction_users_popup),
            ..self
        })
        &&& !lost ==> after.composer == self.composer
        &&& lost ==> {
            &&& after.composer.is_clear()
            &&& !after.composer.composer_active
            &&& after.composer.reply_target_message_id is None
        }
    }

    fn settle_after_event(
        &mut self,
        context: &EventViewportContext,
        entries: &Vec<ChannelPaneEntry>,
        lists: &PaneLists,
        facts: EventFacts,
    ) -> (ack: Option<ChannelId>)
        requires
            old(self).wf(),
            lists.wf(),
        ensures
            final(self).wf(),
            ack == context.acks(facts.supports_follow),
            old(self).settled(*final(self), *context, entries@, *lists, facts),
    {
        self.clamp_active_selection(facts.active);
        self.channels.selected = restore_channel_pane_cursor(entries, self.channels.selected, facts.channel_cursor);
        let ack = context.repair_after_event(
            &mut self.navigation.viewport,
            &lists.content,
            facts.supports_follow,
            facts.referenced,
        );
        self.clamp_list_viewports(lists);
        ack
    }

    /// Takes an event. `before` is what the message pane showed, and `lists` what the panes list now that
    /// the event is known.
    pub fn push_event(
        &mut self,
        event: AppEvent,
        before: &PaneContent,
        entries: &Vec<ChannelPaneEntry>,
        lists: &PaneLists,
        facts: EventFacts,
    ) -> (r: EventOutcome)
        requires
            old(self).wf(),
            before.wf(),
            lists.wf(),
        ensures
            final(self).wf(),
            ({
                let context = captured(old(self).navigation.viewport, *before, facts.user_just_sent, facts.new_message);
                let noted = DashboardState {
                    events: final(self).events,
                    older_history: final(self).older_history,
                    ..*old(self)
                };
                &&& r.actions@ == old(self).events.actions(event)
                &&& r.ack == context.acks(facts.supports_follow)
                &&& old(self).noted(*final(self), event)
                &&& noted.settled(*final(self), context, entries@, *lists, facts)
            }),
    {
        let context = EventViewportContext::capture(
            &self.navigation.viewport,
            before,
            facts.user_just_sent,
            facts.new_message,
        );
        let actions = self.note_event(event);
        let ack = self.settle_after_event(&context, entries, lists, facts);
        EventOutcome { actions, ack }
    }
}

} // verus!
