//! The dashboard: four panes, one of which has the keys, and the popups above them.
//!
//! What the panes list comes from what is known of the service, and is handed in as [`PaneLists`].

use crate::discord::AppCommand;
use crate::ids::ChannelId;
use crate::runtime::effects::DashboardEffect;
use crate::state::channel_pane::{
    holds_channel, near, selectable_channel_index_near, ChannelPaneRow,
};
use crate::state::channel_switcher::ChannelSwitcherState;
use crate::state::clipboard::ClipboardState;
use crate::state::composer::ComposerState;
use crate::state::events::EventUiState;
use crate::state::gif_picker::KlipyState;
use crate::state::guilds::{ActiveGuildScope, CollapsedFolders};
use crate::state::image_viewer::ImageViewerState;
use crate::state::list_pane::{half_page, half_page_rows, ListPane};
use crate::state::member_grouping::{
    flags, line_of, member_count, member_near, member_rows, member_total, pane_lines, select_member_near_line,
    selected_member_line, MemberRow,
};
use crate::state::message_viewport::{fresh_viewport, MessageViewport, PaneContent};
use crate::state::model::FocusPane;
use crate::state::navigation::{without, ChannelNavigation};
use crate::state::older_history::{older_history_cursor, wants_older, OlderHistoryRequestState, OlderHistoryRequests};
use crate::state::popups::{
    ChannelActionMenuState, EmojiReactionPickerState, MessageActionMenuState, PollVotePickerState,
    ReactionUsersPopupState,
};
use crate::state::scroll::{content_rows, last_index, last_of, least, min_of, minus};
use vstd::prelude::*;

verus! {

/// What the panes list.
pub struct PaneLists {
    pub guild_rows: usize,
    /// Whether each row of the channel pane can be selected.
    pub channel_selectable: Vec<bool>,
    /// The lines of the channel pane.
    pub channel_rows: Vec<ChannelPaneRow>,
    /// For each group of members and each member of it, whether there is a line with what the member does.
    pub member_groups: Vec<Vec<bool>>,
    pub content: PaneContent,
}

impl PaneLists {
    pub open spec fn wf(self) -> bool {
        self.content.wf() && self.members() <= usize::MAX
    }

    pub open spec fn members(self) -> int {
        member_total(flags(self.member_groups@))
    }

    pub open spec fn member_lines(self) -> Seq<MemberRow> {
        pane_lines(flags(self.member_groups@))
    }
}

/// The line of a row of the channel pane, or the end.
pub open spec fn line_of_row(rows: Seq<ChannelPaneRow>, row: usize) -> int
    decreases rows.len(),
{
    if rows.len() == 0 || rows[0] == (ChannelPaneRow::Entry { entry_index: row }) {
        0
    } else {
        1 + line_of_row(rows.drop_first(), row)
    }
}

/// A line that exists, or else the first.
pub open spec fn line_or_first(line: int, len: int) -> int {
    if line < len {
        line
    } else {
        0
    }
}

/// The line of a row of the channel pane, or the first.
pub fn selected_channel_line(rows: &Vec<ChannelPaneRow>, row: usize) -> (r: usize)
    ensures
        r == line_or_first(line_of_row(rows@, row), rows@.len() as int),
{
    let mut i: usize = 0;
    assert(rows@.skip(0) =~= rows@);
    while i < rows.len()
        invariant
            i <= rows@.len(),
            line_of_row(rows@, row) == i + line_of_row(rows@.skip(i as int), row),
        decreases rows@.len() - i,
    {
        let here = rows[i];
        assert(rows@.skip(i as int)[0] == here);
        assert(rows@.skip(i as int).drop_first() =~= rows@.skip(i + 1));
        if let ChannelPaneRow::Entry { entry_index } = here {
            if entry_index == row {
                return i;
            }
        }
        i += 1;
    }
    0
}

/// A way to move the cursor of a pane.
#[derive(Clone, Copy, Debug, PartialEq, Eq, Structural)]
pub enum PaneMove {
    Down,
    Up,
    Top,
    Bottom,
    HalfDown,
    HalfUp,
}

/// The row that a move leads to in a plain list of `len` rows, half a page being `half` of them.
pub open spec fn target(mv: PaneMove, at: int, len: int, half: int) -> int {
    match mv {
        PaneMove::Down => least(at + 1, last_of(len)),
        PaneMove::Up => minus(at, 1),
        PaneMove::Top => 0,
        PaneMove::Bottom => last_of(len),
        PaneMove::HalfDown => least(at + half, last_of(len)),
        PaneMove::HalfUp => minus(at, half),
    }
}

fn target_row(mv: PaneMove, at: usize, len: usize, half: usize) -> (r: usize)
    ensures
        r == target(mv, at as int, len as int, half as int),
{
    match mv {
        PaneMove::Down => min_of(at.saturating_add(1), last_index(len)),
        PaneMove::Up => at.saturating_sub(1),
        PaneMove::Top => 0,
        PaneMove::Bottom => last_index(len),
        PaneMove::HalfDown => min_of(at.saturating_add(half), last_index(len)),
        PaneMove::HalfUp => at.saturating_sub(half),
    }
}

pub struct DashboardState {
    pub focus: FocusPane,
    pub active_guild: ActiveGuildScope,
    pub guilds: ListPane,
    pub channels: ListPane,
    pub members: ListPane,
    pub navigation: ChannelNavigation,
    pub composer: ComposerState,
    pub collapsed_folders: CollapsedFolders,
    pub collapsed_channel_categories: Vec<ChannelId>,
    pub ui_state_save_pending: bool,
    pub channel_switcher: Option<ChannelSwitcherState>,
    pub message_action_menu: Option<MessageActionMenuState>,
    pub channel_action_menu: Option<ChannelActionMenuState>,
    pub emoji_reaction_picker: Option<EmojiReactionPickerState>,
    pub poll_vote_picker: Option<PollVotePickerState>,
    pub reaction_users_popup: Option<ReactionUsersPopupState>,
    pub image_viewer: Option<ImageViewerState>,
    pub clipboard: ClipboardState,
    pub klipy: KlipyState,
    pub events: EventUiState,
    pub older_history: OlderHistoryRequests,
    pub open_composer_in_editor_requested: bool,
    pub terminal_refresh_requested: bool,
    pub should_quit: bool,
    pub should_sign_out: bool,
}

impl DashboardState {
    pub open spec fn wf(self) -> bool {
        &&& self.navigation.wf()
        &&& self.composer.wf()
        &&& self.klipy.wf()
        &&& self.channel_switcher is Some ==> (self.channel_switcher->0).wf()
        &&& self.reaction_users_popup is Some ==> (self.reaction_users_popup->0).wf()
    }

    /// Nothing is open and nothing is selected. The cursor of the guild pane stands on the first guild,
    /// behind the private conversations.
    pub fn new() -> (r: DashboardState)
        ensures
            r.wf(),
            r.focus == FocusPane::Guilds,
            r.active_guild is Unset,
            r.guilds == (ListPane { selected: 1, scroll: 0, view_height: 1 }),
            r.channels == (ListPane { selected: 0, scroll: 0, view_height: 1 }),
            r.members == (ListPane { selected: 0, scroll: 0, view_height: 1 }),
            r.navigation.active_channel_id is None,
            r.navigation.viewport == fresh_viewport(),
            !r.composer.composer_active,
            r.composer.is_clear(),
            r.collapsed_channel_categories@.len() == 0,
            !r.ui_state_save_pending,
            r.channel_switcher is None,
            r.message_action_menu is None,
            r.channel_action_menu is None,
            r.emoji_reaction_picker is None,
            r.poll_vote_picker is None,
            r.reaction_users_popup is None,
            r.image_viewer is None,
            r.older_history@ == Map::<ChannelId, OlderHistoryRequestState>::empty(),
            !r.open_composer_in_editor_requested,
            !r.terminal_refresh_requested,
            !r.should_quit,
            !r.should_sign_out,
    {
        DashboardState {
            focus: FocusPane::Guilds,
            active_guild: ActiveGuildScope::Unset,
            guilds: ListPane::new(1),
            channels: ListPane::new(0),
            members: ListPane::new(0),
            navigation: ChannelNavigation::new(),
            composer: ComposerState::new(),
            collapsed_folders: CollapsedFolders::new(),
            collapsed_channel_categories: Vec::new(),
            ui_state_save_pending: false,
            channel_switcher: None,
            message_action_menu: None,
            channel_action_menu: None,
            emoji_reaction_picker: None,
            poll_vote_picker: None,
            reaction_users_popup: None,
            image_viewer: None,
            clipboard: ClipboardState::new(),
            klipy: KlipyState::new(),
            events: EventUiState::new(),
            older_history: OlderHistoryRequests::new(),
            open_composer_in_editor_requested: false,
            terminal_refresh_requested: false,
            should_quit: false,
            should_sign_out: false,
        }
    }

    pub fn quit(&mut self)
        ensures
            *final(self) == (DashboardState { should_quit: true, ..*old(self) }),
    {
        self.should_quit = true;
    }

    pub fn should_quit(&self) -> (r: bool)
        ensures
            r == self.should_quit,
    {
        self.should_quit
    }

    /// Ends the dashboard, and the session with it.
    pub fn sign_out(&mut self)
        ensures
            *final(self) == (DashboardState { should_quit: true, should_sign_out: true, ..*old(self) }),
    {
        self.should_quit = true;
        self.should_sign_out = true;
    }

    pub fn should_sign_out(&self) -> (r: bool)
        ensures
            r == self.should_sign_out,
    {
        self.should_sign_out
    }

    /// Ends the dashboard where an effect does.
    pub fn take_effect(&mut self, effect: &DashboardEffect)
        ensures
            *final(self) == (match *effect {
                DashboardEffect::Close => DashboardState { should_quit: true, ..*old(self) },
                DashboardEffect::SignOut => DashboardState { should_quit: true, should_sign_out: true, ..*old(self) },
                _ => *old(self),
            }),
    {
        match effect {
            DashboardEffect::Close => self.quit(),
            DashboardEffect::SignOut => self.sign_out(),
            _ => {},
        }
    }

    // ---- Focus ----

    pub fn focus(&self) -> (r: FocusPane)
        ensures
            r == self.focus,
    {
        self.focus
    }

    pub fn focus_pane(&mut self, pane: FocusPane)
        ensures
            *final(self) == (DashboardState { focus: pane, ..*old(self) }),
    {
        self.focus = pane;
    }

    /// Gives the keys to the next pane, in a circle.
    pub fn cycle_focus(&mut self)
        ensures
            *final(self) == (DashboardState { focus: next_pane(old(self).focus), ..*old(self) }),
    {
        self.focus = match self.focus {
            FocusPane::Guilds => FocusPane::Channels,
            FocusPane::Channels => FocusPane::Messages,
            FocusPane::Messages => FocusPane::Members,
            FocusPane::Members => FocusPane::Guilds,
        };
    }

    // ---- Moving the cursor ----

    /// The row of the channel pane that the cursor is on.
    pub open spec fn channel_cursor(self, lists: PaneLists) -> usize {
        match near(lists.channel_selectable@, self.channels.selected as int, false) {
            Some(row) => row,
            None => 0,
        }
    }

    pub fn selected_channel(&self, lists: &PaneLists) -> (r: usize)
        ensures
            r == self.channel_cursor(*lists),
    {
        match selectable_channel_index_near(&lists.channel_selectable, self.channels.selected, false) {
            Some(row) => row,
            None => 0,
        }
    }

    /// The row of the channel pane that a move leads to: the nearest that can be selected.
    pub open spec fn channel_target(self, lists: PaneLists, mv: PaneMove) -> usize {
        let rows = lists.channel_selectable@;
        let at = self.channel_cursor(lists) as int;
        let half = half_page(self.channels.view_height);
        let found = match mv {
            PaneMove::Down => near(rows, least(at + 1, usize::MAX as int), true),
            PaneMove::Up => near(rows, minus(at, 1), false),
            PaneMove::Top => near(rows, 0, true),
            PaneMove::Bottom => near(rows, last_of(rows.len() as int), false),
            PaneMove::HalfDown => near(rows, least(at + half, usize::MAX as int), true),
            PaneMove::HalfUp => near(rows, minus(at, half), false),
        };
        match found {
            Some(row) => row,
            None => 0,
        }
    }

    fn channel_row_after(&self, lists: &PaneLists, mv: PaneMove) -> (r: usize)
        ensures
            r == self.channel_target(*lists, mv),
    {
        let rows = &lists.channel_selectable;
        let at = self.selected_channel(lists);
        let half = half_page_rows(self.channels.view_height);
        let found = match mv {
            PaneMove::Down => selectable_channel_index_near(rows, at.saturating_add(1), true),
            PaneMove::Up => selectable_channel_index_near(rows, at.saturating_sub(1), false),
            PaneMove::Top => selectable_channel_index_near(rows, 0, true),
            PaneMove::Bottom => selectable_channel_index_near(rows, last_index(rows.len()), false),
            PaneMove::HalfDown => selectable_channel_index_near(rows, at.saturating_add(half), true),
            PaneMove::HalfUp => selectable_channel_index_near(rows, at.saturating_sub(half), false),
        };
        match found {
            Some(row) => row,
            None => 0,
        }
    }

    /// The channel pane with the cursor on a row, and its line shown.
    pub open spec fn channels_on(self, lists: PaneLists, row: usize) -> ListPane {
        let rows = lists.channel_rows@;
        (ListPane { selected: row, ..self.channels }).showing(
            line_or_first(line_of_row(rows, row), rows.len() as int),
            rows.len() as int,
        )
    }

    fn select_channel_row(&mut self, lists: &PaneLists, row: usize)
        ensures
            *final(self) == (DashboardState { channels: old(self).channels_on(*lists, row), ..*old(self) }),
    {
        self.channels.selected = row;
        let line = selected_channel_line(&lists.channel_rows, row);
        self.channels.show_line(line, lists.channel_rows.len());
    }

    /// The member pane with the cursor on a member, and their line shown.
    pub open spec fn members_on(self, lists: PaneLists, member: int) -> ListPane {
        if lists.members() == 0 {
            ListPane { selected: 0, scroll: 0, ..self.members }
        } else {
            let member = least(member, lists.members() - 1) as usize;
            let rows = lists.member_lines();
            (ListPane { selected: member, ..self.members }).showing(
                line_or_first(line_of(rows, member), rows.len() as int),
                rows.len() as int,
            )
        }
    }

    fn select_member(&mut self, lists: &PaneLists, member: usize)
        requires
            lists.wf(),
        ensures
            *final(self) == (DashboardState { members: old(self).members_on(*lists, member as int), ..*old(self) }),
    {
        let total = member_count(&lists.member_groups);
        if total == 0 {
            self.members.selected = 0;
            self.members.scroll = 0;
            return;
        }
        self.members.selected = min_of(member, total - 1);
        let rows = member_rows(&lists.member_groups);
        let line = selected_member_line(&rows, self.members.selected);
        self.members.show_line(line, rows.len());
    }

    /// The line of the member that the cursor is on.
    pub open spec fn member_line(self, lists: PaneLists) -> int {
        let rows = lists.member_lines();
        line_or_first(line_of(rows, self.members.cursor(lists.members()) as usize), rows.len() as int)
    }

    /// The member that a move leads to. Half a page is counted in lines.
    pub open spec fn member_target(self, lists: PaneLists, mv: PaneMove) -> int {
        let half = half_page(self.members.view_height);
        let found = match mv {
            PaneMove::HalfDown => member_near(
                lists.member_lines(),
                least(self.member_line(lists) + half, usize::MAX as int),
            ),
            PaneMove::HalfUp => member_near(lists.member_lines(), minus(self.member_line(lists), half)),
            _ => Some(target(mv, self.members.selected as int, lists.members(), half) as usize),
        };
        match found {
            Some(member) => member as int,
            None => self.members.selected as int,
        }
    }

    fn member_after(&self, lists: &PaneLists, mv: PaneMove) -> (r: usize)
        requires
            lists.wf(),
        ensures
            r == self.member_target(*lists, mv),
    {
        let total = member_count(&lists.member_groups);
        let rows = member_rows(&lists.member_groups);
        let line = selected_member_line(&rows, self.members.index(total));
        let half = half_page_rows(self.members.view_height);
        let found = match mv {
            PaneMove::HalfDown => select_member_near_line(&rows, line.saturating_add(half)),
            PaneMove::HalfUp => select_member_near_line(&rows, line.saturating_sub(half)),
            _ => Some(target_row(mv, self.members.selected, total, half)),
        };
        match found {
            Some(member) => member,
            None => self.members.selected,
        }
    }

    /// The message pane after a move. Going up, it stops following the newest message.
    pub open spec fn messages_after(self, c: PaneContent, mv: PaneMove) -> MessageViewport {
        let v = self.navigation.viewport;
        let upwards = mv is Up || mv is Top || mv is HalfUp;
        (MessageViewport {
            selected_message: target(
                mv,
                v.selected_message as int,
                c.items(),
                half_page(v.message_view_height),
            ) as usize,
            message_auto_follow: v.message_auto_follow && !upwards,
            message_keep_selection_visible: true,
            ..v
        }).clamped(c)
    }

    pub open spec fn with_viewport(self, viewport: MessageViewport) -> DashboardState {
        DashboardState { navigation: ChannelNavigation { viewport, ..self.navigation }, ..self }
    }

    /// The dashboard after a move in the pane that has the keys.
    pub open spec fn moved(self, lists: PaneLists, mv: PaneMove) -> DashboardState {
        match self.focus {
            FocusPane::Guilds => DashboardState {
                guilds: self.guilds.on_row(
                    target(mv, self.guilds.selected as int, lists.guild_rows as int, half_page(self.guilds.view_height)),
                    lists.guild_rows as int,
                ),
                ..self
            },
            FocusPane::Channels => DashboardState {
                channels: self.channels_on(lists, self.channel_target(lists, mv)),
                ..self
            },
            FocusPane::Messages => self.with_viewport(self.messages_after(lists.content, mv)),
            FocusPane::Members => DashboardState {
                members: self.members_on(lists, self.member_target(lists, mv)),
                ..self
            },
        }
    }

    fn apply_move(&mut self, lists: &PaneLists, mv: PaneMove)
        requires
            lists.wf(),
        ensures
            *final(self) == old(self).moved(*lists, mv),
    {
        match self.focus {
            FocusPane::Guilds => {
                let half = half_page_rows(self.guilds.view_height);
                let row = target_row(mv, self.guilds.selected, lists.guild_rows, half);
                self.guilds.go_to_row(row, lists.guild_rows);
            },
            FocusPane::Channels => {
                let row = self.channel_row_after(lists, mv);
                self.select_channel_row(lists, row);
            },
            FocusPane::Messages => {
                let half = half_page_rows(self.navigation.viewport.message_view_height);
                if matches!(mv, PaneMove::Up) || matches!(mv, PaneMove::Top) || matches!(mv, PaneMove::HalfUp) {
                    self.navigation.viewport.message_auto_follow = false;
                }
                self.navigation.viewport.selected_message = target_row(
                    mv,
                    self.navigation.viewport.selected_message,
                    lists.content.item_count(),
                    half,
                );
                self.navigation.viewport.message_keep_selection_visible = true;
                self.navigation.viewport.clamp_message_viewport(&lists.content);
            },
            FocusPane::Members => {
                let member = self.member_after(lists, mv);
                self.select_member(lists, member);
            },
        }
    }

    pub fn move_down(&mut self, lists: &PaneLists)
        requires
            lists.wf(),
        ensures
            *final(self) == old(self).moved(*lists, PaneMove::Down),
    {
        self.apply_move(lists, PaneMove::Down);
    }

    pub fn move_up(&mut self, lists: &PaneLists)
        requires
            lists.wf(),
        ensures
            *final(self) == old(self).moved(*lists, PaneMove::Up),
    {
        self.apply_move(lists, PaneMove::Up);
    }

    pub fn jump_top(&mut self, lists: &PaneLists)
        requires
            lists.wf(),
        ensures
            *final(self) == old(self).moved(*lists, PaneMove::Top),
    {
        self.apply_move(lists, PaneMove::Top);
    }

    pub fn jump_bottom(&mut self, lists: &PaneLists)
        requires
            lists.wf(),
        ensures
            *final(self) == old(self).moved(*lists, PaneMove::Bottom),
    {
        self.apply_move(lists, PaneMove::Bottom);
    }

    pub fn half_page_down(&mut self, lists: &PaneLists)
        requires
            lists.wf(),
        ensures
            *final(self) == old(self).moved(*lists, PaneMove::HalfDown),
    {
        self.apply_move(lists, PaneMove::HalfDown);
    }

    pub fn half_page_up(&mut self, lists: &PaneLists)
        requires
            lists.wf(),
        ensures
            *final(self) == old(self).moved(*lists, PaneMove::HalfUp),
    {
        self.apply_move(lists, PaneMove::HalfUp);
    }

    /// Begins or ceases to follow the newest message.
    pub open spec fn follow_toggled(self, c: PaneContent) -> DashboardState {
        if self.focus != FocusPane::Messages {
            self
        } else {
            let v = self.navigation.viewport;
            let toggled = if v.message_auto_follow {
                MessageViewport { message_auto_follow: false, ..v }
            } else {
                MessageViewport {
                    message_auto_follow: true,
                    message_keep_selection_visible: true,
                    selected_message: last_of(c.items()) as usize,
                    ..v
                }
            };
            self.with_viewport(toggled.clamped(c))
        }
    }

    pub fn toggle_message_auto_follow(&mut self, content: &PaneContent)
        ensures
            *final(self) == old(self).follow_toggled(*content),
    {
        if !matches!(self.focus, FocusPane::Messages) {
            return;
        }
        let following = !self.navigation.viewport.message_auto_follow;
        self.navigation.viewport.message_auto_follow = following;
        if following {
            self.navigation.viewport.follow_latest_message(content);
        }
        self.navigation.viewport.clamp_message_viewport(content);
    }

    // ---- The panes ----

    pub fn selected_guild(&self, lists: &PaneLists) -> (r: usize)
        ensures
            r == self.guilds.cursor(lists.guild_rows as int),
    {
        self.guilds.index(lists.guild_rows)
    }

    pub fn focused_guild_selection(&self, lists: &PaneLists) -> (r: Option<usize>)
        ensures
            r == (if self.focus == FocusPane::Guilds && lists.guild_rows > 0 {
                Some(minus(self.guilds.cursor(lists.guild_rows as int), self.guilds.scroll as int) as usize)
            } else {
                None
            }),
    {
        self.guilds.focused_selection(matches!(self.focus, FocusPane::Guilds), lists.guild_rows)
    }

    /// The rows of the guild pane that are shown, the first and the one behind the last.
    pub fn visible_guild_pane_entries(&self, lists: &PaneLists) -> (r: (usize, usize))
        ensures
            r.0 == least(self.guilds.scroll as int, lists.guild_rows as int),
            r.1 == least(self.guilds.scroll + content_rows(self.guilds.view_height), lists.guild_rows as int),
    {
        self.guilds.visible_rows(lists.guild_rows)
    }

    pub fn set_guild_view_height(&mut self, lists: &PaneLists, height: usize)
        ensures
            *final(self) == (DashboardState {
                guilds: (ListPane { view_height: height, ..old(self).guilds }).on_row(
                    old(self).guilds.selected as int,
                    lists.guild_rows as int,
                ),
                ..*old(self)
            }),
    {
        self.guilds.view_height = height;
        self.guilds.go_to_row(self.guilds.selected, lists.guild_rows);
    }

    pub fn set_channel_view_height(&mut self, lists: &PaneLists, height: usize)
        ensures
            *final(self) == (DashboardState {
                channels: ListPane {
                    selected: old(self).channels.selected,
                    ..(DashboardState {
                        channels: ListPane { view_height: height, ..old(self).channels },
                        ..*old(self)
                    }).channels_on(*lists, old(self).channel_cursor(*lists))
                },
                ..*old(self)
            }),
    {
        let row = self.selected_channel(lists);
        let line = selected_channel_line(&lists.channel_rows, row);
        self.channels.view_height = height;
        self.channels.show_line(line, lists.channel_rows.len());
    }

    pub fn set_member_view_height(&mut self, lists: &PaneLists, height: usize)
        requires
            lists.wf(),
        ensures
            *final(self) == (DashboardState {
                members: (DashboardState {
                    members: ListPane { view_height: height, ..old(self).members },
                    ..*old(self)
                }).members_on(*lists, old(self).members.selected as int),
                ..*old(self)
            }),
    {
        self.members.view_height = height;
        self.select_member(lists, self.members.selected);
    }

    pub fn selected_member(&self, lists: &PaneLists) -> (r: usize)
        requires
            lists.wf(),
        ensures
            r == self.members.cursor(lists.members()),
    {
        self.members.index(member_count(&lists.member_groups))
    }

    /// The line of the cursor among those that are shown of the member pane.
    pub fn focused_member_selection_line(&self, lists: &PaneLists) -> (r: Option<usize>)
        requires
            lists.wf(),
        ensures
            r == (if self.focus == FocusPane::Members && lists.members() > 0 {
                Some(minus(self.member_line(*lists), self.members.scroll as int) as usize)
            } else {
                None
            }),
    {
        let total = member_count(&lists.member_groups);
        if !matches!(self.focus, FocusPane::Members) || total == 0 {
            return None;
        }
        let rows = member_rows(&lists.member_groups);
        let line = selected_member_line(&rows, self.members.index(total));
        Some(line.saturating_sub(self.members.scroll))
    }

    pub fn member_line_count(&self, lists: &PaneLists) -> (r: usize)
        requires
            lists.wf(),
        ensures
            r == lists.member_lines().len(),
    {
        member_rows(&lists.member_groups).len()
    }

    /// The lists as they were, with the cursors among their rows.
    pub open spec fn lists_clamped(self, lists: PaneLists) -> DashboardState {
        let guilds = self.guilds.on_row(self.guilds.selected as int, lists.guild_rows as int);
        let channels = self.channels_on(lists, self.channel_cursor(lists));
        let members = self.members_on(lists, self.members.selected as int);
        DashboardState { guilds, channels, members, ..self }
    }

    pub fn clamp_list_viewports(&mut self, lists: &PaneLists)
        requires
            lists.wf(),
        ensures
            *final(self) == old(self).lists_clamped(*lists),
    {
        self.guilds.go_to_row(self.guilds.selected, lists.guild_rows);
        let row = self.selected_channel(lists);
        self.select_channel_row(lists, row);
        self.select_member(lists, self.members.selected);
    }

    // ---- Categories ----

    /// Opens a category that is closed, and closes one that is open.
    pub fn toggle_channel_category(&mut self, category: Option<ChannelId>)
        ensures
            category is None ==> *final(self) == *old(self),
            category matches Some(id) ==> *final(self) == (DashboardState {
                collapsed_channel_categories: final(self).collapsed_channel_categories,
                ui_state_save_pending: true,
                ..*old(self)
            }) && final(self).collapsed_channel_categories@ == toggled(old(self).collapsed_channel_categories@, id),
    {
        let id: ChannelId = match category {
            Some(id) => id,
            None => {
                return;
            },
        };
        let ghost before = self.collapsed_channel_categories@;
        if holds_channel(&self.collapsed_channel_categories, id) {
            self.open_channel_category(id);
        } else {
            self.collapsed_channel_categories.push(id);
        }
        self.ui_state_save_pending = true;
    }

    /// Opens a category.
    pub fn open_channel_category(&mut self, id: ChannelId)
        ensures
            *final(self) == (DashboardState {
                collapsed_channel_categories: final(self).collapsed_channel_categories,
                ..*old(self)
            }),
            final(self).collapsed_channel_categories@ == without(old(self).collapsed_channel_categories@, id),
    {
        let ghost before = self.collapsed_channel_categories@;
        let mut kept: Vec<ChannelId> = Vec::new();
        let mut i: usize = 0;
        assert(before.take(0) =~= Seq::<ChannelId>::empty());
        while i < self.collapsed_channel_categories.len()
            invariant
                before == self.collapsed_channel_categories@,
                *self == *old(self),
                i <= before.len(),
                kept@ == without(before.take(i as int), id),
            decreases before.len() - i,
        {
            assert(before.take(i + 1).drop_last() =~= before.take(i as int));
            if self.collapsed_channel_categories[i] != id {
                kept.push(self.collapsed_channel_categories[i]);
            }
            i += 1;
        }
        assert(before.take(i as int) =~= before);
        self.collapsed_channel_categories = kept;
    }

    // ---- Older messages ----

    /// Asks for older messages when the cursor is on the first one that is loaded.
    pub fn next_older_history_command(&mut self, content: &PaneContent) -> (r: Option<AppCommand>)
        ensures
            ({
                let at_first = old(self).focus == FocusPane::Messages && content.ids@.len() > 0
                    && old(self).navigation.viewport.cursor(*content) == 0;
                let channel = old(self).navigation.active_channel_id;
                let wanted = at_first && channel is Some && wants_older(
                    old(self).older_history@,
                    channel->0,
                    content.ids@[0],
                );
                &&& r == (if wanted {
                    Some(
                        AppCommand::LoadMessageHistory { channel_id: channel->0, before: Some(content.ids@[0]) },
                    )
                } else {
                    None
                })
                &&& *final(self) == (DashboardState { older_history: final(self).older_history, ..*old(self) })
                &&& final(self).older_history@ == (if wanted {
                    old(self).older_history@.insert(
                        channel->0,
                        OlderHistoryRequestState::Requested { before: content.ids@[0] },
                    )
                } else {
                    old(self).older_history@
                })
            }),
    {
        let selected = self.navigation.viewport.selected(content);
        let cursor = older_history_cursor(matches!(self.focus, FocusPane::Messages), &content.ids, selected);
        self.older_history.next_older_history_command(self.navigation.active_channel_id, cursor)
    }

    // ---- Requests to the terminal ----

    pub fn request_open_composer_in_editor(&mut self)
        ensures
            *final(self) == (DashboardState { open_composer_in_editor_requested: true, ..*old(self) }),
    {
        self.open_composer_in_editor_requested = true;
    }

    pub fn take_open_composer_in_editor_request(&mut self) -> (r: bool)
        ensures
            r == old(self).open_composer_in_editor_requested,
            *final(self) == (DashboardState { open_composer_in_editor_requested: false, ..*old(self) }),
    {
        let requested = self.open_composer_in_editor_requested;
        self.open_composer_in_editor_requested = false;
        requested
    }

    pub fn request_terminal_refresh(&mut self)
        ensures
            *final(self) == (DashboardState { terminal_refresh_requested: true, ..*old(self) }),
    {
        self.terminal_refresh_requested = true;
    }

    pub fn take_terminal_refresh_request(&mut self) -> (r: bool)
        ensures
            r == old(self).terminal_refresh_requested,
            *final(self) == (DashboardState { terminal_refresh_requested: false, ..*old(self) }),
    {
        let requested = self.terminal_refresh_requested;
        self.terminal_refresh_requested = false;
        requested
    }

    /// Whether the user is in the call of a channel.
    pub fn is_joined_voice_channel(&self, channel_id: ChannelId) -> (r: bool)
        ensures
            r == (self.events.voice_connection is Some && (self.events.voice_connection->0).channel_id == Some(
                channel_id,
            )),
    {
        match self.events.voice_connection {
            Some(voice) => match voice.channel_id {
                Some(id) => id == channel_id,
                None => false,
            },
            None => false,
        }
    }
}

/// The pane behind another.
pub open spec fn next_pane(pane: FocusPane) -> FocusPane {
    match pane {
        FocusPane::Guilds => FocusPane::Channels,
        FocusPane::Channels => FocusPane::Messages,
        FocusPane::Messages => FocusPane::Members,
        FocusPane::Members => FocusPane::Guilds,
    }
}

/// A list with an item put in or taken out.
pub open spec fn toggled(ids: Seq<ChannelId>, id: ChannelId) -> Seq<ChannelId> {
    if ids.contains(id) {
        without(ids, id)
    } else {
        ids.push(id)
    }
}

/// Going through the panes four times leads back.
pub proof fn focus_goes_in_a_circle(pane: FocusPane)
    ensures
        next_pane(next_pane(next_pane(next_pane(pane)))) == pane,
{
}

proof fn lemma_without_absent(ids: Seq<ChannelId>, id: ChannelId)
    requires
        !ids.contains(id),
    ensures
        without(ids, id) == ids,
    decreases ids.len(),
{
    if ids.len() > 0 {
        let rest = ids.drop_last();
        assert(!rest.contains(id)) by {
            if rest.contains(id) {
                let k = choose|k: int| 0 <= k < rest.len() && rest[k] == id;
                assert(ids[k] == id);
            }
        }
        assert(ids[ids.len() - 1] != id);
        lemma_without_absent(rest, id);
        assert(ids =~= rest.push(ids.last()));
    } else {
        assert(without(ids, id) =~= ids);
    }
}

/// Closing a category and opening it again changes nothing.
pub proof fn opening_undoes_closing(ids: Seq<ChannelId>, id: ChannelId)
    requires
        !ids.contains(id),
    ensures
        toggled(toggled(ids, id), id) == ids,
{
    let closed = ids.push(id);
    assert(closed[ids.len() as int] == id);
    assert(closed.drop_last() =~= ids);
    lemma_without_absent(ids, id);
}

/// No move leads out of the lists: the cursors stay on rows that are there.
pub proof fn moves_stay_in_the_lists(s: DashboardState, lists: PaneLists, mv: PaneMove)
    requires
        lists.wf(),
    ensures
        ({
            let after = s.moved(lists, mv);
            &&& s.focus == FocusPane::Guilds && lists.guild_rows > 0 ==> after.guilds.selected < lists.guild_rows
            &&& s.focus == FocusPane::Members && lists.members() > 0 ==> after.members.selected < lists.members()
            &&& s.focus == FocusPane::Messages && lists.content.items() > 0
                ==> after.navigation.viewport.selected_message < lists.content.items()
            &&& after.focus == s.focus
        }),
{
    assert(lists.content.ids.len() == lists.content.ids@.len());
    assert(lists.content.cards.len() == lists.content.cards@.len());
}

} // verus!
