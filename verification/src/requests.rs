//! Which requests to send: each thing is asked for once, and again only where that makes sense.

use crate::discord::{AppEvent, ForumPostArchiveState};
use crate::ids::{ChannelId, GuildId, MessageId};
use crate::text::{chars_of, str_eq, string_of};
use crate::unicode::{lowercase_char, lower_char, trim_text, trimmed};
use std::collections::{HashMap, HashSet};
use vstd::prelude::*;
use vstd::string::*;

verus! {

broadcast use vstd::std_specs::hash::group_hash_axioms;

// ---- Message history ----

#[derive(Clone, Copy, Debug, PartialEq, Eq, Structural)]
pub enum HistoryRequestState {
    Requested,
    Loaded,
    Failed,
}

/// Requests for the history of channels.
pub struct HistoryRequests {
    requests: HashMap<u64, HistoryRequestState>,
    last_channel: Option<ChannelId>,
}

/// The value of requests by channel: how each stands, and the channel that was shown last.
pub struct ChannelRequestsView<S> {
    pub requests: Map<ChannelId, S>,
    pub last_channel: Option<ChannelId>,
}

impl View for HistoryRequests {
    type V = ChannelRequestsView<HistoryRequestState>;

    closed spec fn view(&self) -> ChannelRequestsView<HistoryRequestState> {
        ChannelRequestsView { requests: self.requests@, last_channel: self.last_channel }
    }
}

/// Whether the history of a channel is to be requested: when it never was, when the request failed
/// and the channel is selected anew, and when a reload is forced and the channel is selected anew.
pub open spec fn wants_history(
    st: ChannelRequestsView<HistoryRequestState>,
    channel: ChannelId,
    force_reload: bool,
) -> bool {
    let changed = st.last_channel != Some(channel);
    if !st.requests.contains_key(channel) {
        true
    } else {
        match st.requests[channel] {
            HistoryRequestState::Requested => false,
            HistoryRequestState::Loaded => force_reload && changed,
            HistoryRequestState::Failed => changed,
        }
    }
}

/// What selecting a channel leads to.
pub open spec fn after_history_next(
    st: ChannelRequestsView<HistoryRequestState>,
    channel: Option<ChannelId>,
    force_reload: bool,
) -> ChannelRequestsView<HistoryRequestState> {
    ChannelRequestsView {
        requests: match channel {
            Some(c) if wants_history(st, c, force_reload) => st.requests.insert(c, HistoryRequestState::Requested),
            _ => st.requests,
        },
        last_channel: channel,
    }
}

impl HistoryRequests {
    pub fn mark_failed(&mut self, channel_id: ChannelId)
        ensures
            final(self)@ == (ChannelRequestsView {
                requests: old(self)@.requests.insert(channel_id, HistoryRequestState::Failed),
                ..old(self)@
            }),
    {
        self.requests.insert(channel_id, HistoryRequestState::Failed);
    }

    pub fn record_event(&mut self, event: &AppEvent)
        ensures
            final(self)@ == (match *event {
                AppEvent::MessageHistoryLoaded { channel_id, .. } => ChannelRequestsView {
                    requests: old(self)@.requests.insert(channel_id, HistoryRequestState::Loaded),
                    ..old(self)@
                },
                AppEvent::MessageHistoryLoadFailed { channel_id, .. } => ChannelRequestsView {
                    requests: old(self)@.requests.insert(channel_id, HistoryRequestState::Failed),
                    ..old(self)@
                },
                _ => old(self)@,
            }),
    {
        match event {
            AppEvent::MessageHistoryLoaded { channel_id, .. } => {
                self.requests.insert(*channel_id, HistoryRequestState::Loaded);
            },
            AppEvent::MessageHistoryLoadFailed { channel_id, .. } => {
                self.mark_failed(*channel_id);
            },
            _ => {},
        }
    }

    /// The channel whose history is to be requested now that `channel_id` is shown.
    pub fn next(&mut self, channel_id: Option<ChannelId>, force_reload: bool) -> (r: Option<ChannelId>)
        ensures
            final(self)@ == after_history_next(old(self)@, channel_id, force_reload),
            r == (match channel_id {
                Some(c) if wants_history(old(self)@, c, force_reload) => Some(c),
                _ => None,
            }),
    {
        let channel_id: ChannelId = match channel_id {
            Some(channel_id) => channel_id,
            None => {
                self.last_channel = None;
                return None;
            },
        };
        let channel_changed = self.last_channel != Some(channel_id);
        self.last_channel = Some(channel_id);
        let wanted = match self.requests.get(&channel_id) {
            None => true,
            Some(state) => match *state {
                HistoryRequestState::Requested => false,
                HistoryRequestState::Loaded => force_reload && channel_changed,
                HistoryRequestState::Failed => channel_changed,
            },
        };
        if wanted {
            self.requests.insert(channel_id, HistoryRequestState::Requested);
            Some(channel_id)
        } else {
            None
        }
    }
}

impl Default for HistoryRequests {
    fn default() -> (r: HistoryRequests)
        ensures
            r@.requests == Map::<ChannelId, HistoryRequestState>::empty(),
            r@.last_channel is None,
    {
        HistoryRequests { requests: HashMap::new(), last_channel: None }
    }
}

/// A history is requested once: as long as the channel stays selected it is not requested again, even
/// after a failure, and not at all while the request is on its way.
pub proof fn history_is_requested_once(
    st: ChannelRequestsView<HistoryRequestState>,
    channel: ChannelId,
    force_reload: bool,
    again: bool,
)
    ensures
        ({
            let next = after_history_next(st, Some(channel), force_reload);
            &&& !wants_history(next, channel, again)
            &&& !wants_history(
                ChannelRequestsView { requests: next.requests.insert(channel, HistoryRequestState::Failed), ..next },
                channel,
                again,
            )
            &&& !wants_history(
                ChannelRequestsView { requests: next.requests.insert(channel, HistoryRequestState::Loaded), ..next },
                channel,
                again,
            )
        }),
{
}

/// A failed request is repeated when another channel was shown in between.
pub proof fn failed_history_is_requested_again(
    st: ChannelRequestsView<HistoryRequestState>,
    channel: ChannelId,
    other: ChannelId,
    force_reload: bool,
)
    requires
        channel != other,
        st.requests.contains_key(channel),
        st.requests[channel] == HistoryRequestState::Failed,
    ensures
        wants_history(after_history_next(st, Some(other), false), channel, force_reload),
{
}

// ---- Pinned messages ----

#[derive(Clone, Copy, Debug, PartialEq, Eq, Structural)]
pub enum PinnedMessageRequestState {
    Requested,
    Loaded,
    Failed,
}

/// Requests for the pinned messages of channels.
pub struct PinnedMessageRequests {
    requests: HashMap<u64, PinnedMessageRequestState>,
    last_channel: Option<ChannelId>,
}

impl View for PinnedMessageRequests {
    type V = ChannelRequestsView<PinnedMessageRequestState>;

    closed spec fn view(&self) -> ChannelRequestsView<PinnedMessageRequestState> {
        ChannelRequestsView { requests: self.requests@, last_channel: self.last_channel }
    }
}

/// Whether pinned messages are to be requested: when they never were, and when the request failed and
/// the channel is selected anew.
pub open spec fn wants_pins(st: ChannelRequestsView<PinnedMessageRequestState>, channel: ChannelId) -> bool {
    !st.requests.contains_key(channel) || (st.requests[channel] == PinnedMessageRequestState::Failed
        && st.last_channel != Some(channel))
}

impl PinnedMessageRequests {
    pub fn mark_failed(&mut self, channel_id: ChannelId)
        ensures
            final(self)@ == (ChannelRequestsView {
                requests: old(self)@.requests.insert(channel_id, PinnedMessageRequestState::Failed),
                ..old(self)@
            }),
    {
        self.requests.insert(channel_id, PinnedMessageRequestState::Failed);
    }

    pub fn record_event(&mut self, event: &AppEvent)
        ensures
            final(self)@ == (match *event {
                AppEvent::PinnedMessagesLoaded { channel_id, .. } => ChannelRequestsView {
                    requests: old(self)@.requests.insert(channel_id, PinnedMessageRequestState::Loaded),
                    ..old(self)@
                },
                AppEvent::PinnedMessagesLoadFailed { channel_id, .. } => ChannelRequestsView {
                    requests: old(self)@.requests.insert(channel_id, PinnedMessageRequestState::Failed),
                    ..old(self)@
                },
                _ => old(self)@,
            }),
    {
        match event {
            AppEvent::PinnedMessagesLoaded { channel_id, .. } => {
                self.requests.insert(*channel_id, PinnedMessageRequestState::Loaded);
            },
            AppEvent::PinnedMessagesLoadFailed { channel_id, .. } => {
                self.mark_failed(*channel_id);
            },
            _ => {},
        }
    }

    pub fn next(&mut self, channel_id: Option<ChannelId>) -> (r: Option<ChannelId>)
        ensures
            final(self)@.last_channel == channel_id,
            match channel_id {
                Some(c) if wants_pins(old(self)@, c) => {
                    &&& r == Some(c)
                    &&& final(self)@.requests == old(self)@.requests.insert(c, PinnedMessageRequestState::Requested)
                },
                _ => r is None && final(self)@.requests == old(self)@.requests,
            },
    {
        let channel_id: ChannelId = match channel_id {
            Some(channel_id) => channel_id,
            None => {
                self.last_channel = None;
                return None;
            },
        };
        let channel_changed = self.last_channel != Some(channel_id);
        self.last_channel = Some(channel_id);
        let wanted = match self.requests.get(&channel_id) {
            None => true,
            Some(state) => *state == PinnedMessageRequestState::Failed && channel_changed,
        };
        if wanted {
            self.requests.insert(channel_id, PinnedMessageRequestState::Requested);
            Some(channel_id)
        } else {
            None
        }
    }
}

impl Default for PinnedMessageRequests {
    fn default() -> (r: PinnedMessageRequests)
        ensures
            r@.requests == Map::<ChannelId, PinnedMessageRequestState>::empty(),
            r@.last_channel is None,
    {
        PinnedMessageRequests { requests: HashMap::new(), last_channel: None }
    }
}

// ---- Forum posts ----

/// How far the pages of a list of posts are requested.
#[derive(Clone, Copy, Debug, PartialEq, Eq, Structural)]
pub enum ForumPostPageRequestState {
    NotRequested,
    Requested { offset: usize },
    Loaded { next_offset: usize, has_more: bool },
    Failed { offset: usize },
}

impl ForumPostPageRequestState {
    /// The offset of the page to be requested: the first page where that is allowed, a failed page
    /// when the channel is selected anew, the next page when more are wanted and there are more.
    pub open spec fn wanted(self, channel_changed: bool, allow_initial: bool, should_load_more: bool) -> Option<usize> {
        match self {
            ForumPostPageRequestState::NotRequested => if allow_initial {
                Some(0)
            } else {
                None
            },
            ForumPostPageRequestState::Requested { .. } => None,
            ForumPostPageRequestState::Loaded { next_offset, has_more } => if has_more && should_load_more {
                Some(next_offset)
            } else {
                None
            },
            ForumPostPageRequestState::Failed { offset } => if channel_changed {
                Some(offset)
            } else {
                None
            },
        }
    }

    /// How the pages stand after that.
    pub open spec fn after_next(self, channel_changed: bool, allow_initial: bool, should_load_more: bool) -> Self {
        match self.wanted(channel_changed, allow_initial, should_load_more) {
            Some(offset) => ForumPostPageRequestState::Requested { offset },
            None => self,
        }
    }

    pub fn next(&mut self, channel_changed: bool, allow_initial: bool, should_load_more: bool) -> (r: Option<usize>)
        ensures
            r == old(self).wanted(channel_changed, allow_initial, should_load_more),
            *final(self) == old(self).after_next(channel_changed, allow_initial, should_load_more),
    {
        let wanted: Option<usize> = match *self {
            ForumPostPageRequestState::NotRequested => if allow_initial {
                Some(0)
            } else {
                None
            },
            ForumPostPageRequestState::Requested { .. } => None,
            ForumPostPageRequestState::Loaded { next_offset, has_more } => if has_more && should_load_more {
                Some(next_offset)
            } else {
                None
            },
            ForumPostPageRequestState::Failed { offset } => if channel_changed {
                Some(offset)
            } else {
                None
            },
        };
        if let Some(offset) = wanted {
            *self = ForumPostPageRequestState::Requested { offset };
        }
        wanted
    }
}

/// How the lists of active and of archived posts of a forum are requested.
#[derive(Clone, Copy, Debug, PartialEq, Eq)]
pub struct ForumPostRequestState {
    pub active: ForumPostPageRequestState,
    pub archived: ForumPostPageRequestState,
}

impl ForumPostRequestState {
    pub open spec fn initial() -> ForumPostRequestState {
        ForumPostRequestState {
            active: ForumPostPageRequestState::NotRequested,
            archived: ForumPostPageRequestState::NotRequested,
        }
    }

    /// The page to be requested: active posts first, and archived ones only when more are wanted.
    pub open spec fn wanted(self, channel_changed: bool, should_load_more: bool) -> Option<(ForumPostArchiveState, usize)> {
        match self.active.wanted(channel_changed, true, should_load_more) {
            Some(offset) => Some((ForumPostArchiveState::Active, offset)),
            None => match self.archived.wanted(channel_changed, should_load_more, should_load_more) {
                Some(offset) => Some((ForumPostArchiveState::Archived, offset)),
                None => None,
            },
        }
    }

    pub open spec fn after_next(self, channel_changed: bool, should_load_more: bool) -> ForumPostRequestState {
        match self.wanted(channel_changed, should_load_more) {
            Some((ForumPostArchiveState::Active, _)) => ForumPostRequestState {
                active: self.active.after_next(channel_changed, true, should_load_more),
                ..self
            },
            Some((ForumPostArchiveState::Archived, _)) => ForumPostRequestState {
                archived: self.archived.after_next(channel_changed, should_load_more, should_load_more),
                ..self
            },
            None => self,
        }
    }

    pub open spec fn with_page(self, archive_state: ForumPostArchiveState, page: ForumPostPageRequestState) -> Self {
        match archive_state {
            ForumPostArchiveState::Active => ForumPostRequestState { active: page, ..self },
            ForumPostArchiveState::Archived => ForumPostRequestState { archived: page, ..self },
        }
    }

    pub fn next(&mut self, channel_changed: bool, should_load_more: bool) -> (r: Option<
        (ForumPostArchiveState, usize),
    >)
        ensures
            r == old(self).wanted(channel_changed, should_load_more),
            *final(self) == old(self).after_next(channel_changed, should_load_more),
    {
        let mut active = self.active;
        if let Some(offset) = active.next(channel_changed, true, should_load_more) {
            self.active = active;
            return Some((ForumPostArchiveState::Active, offset));
        }
        let mut archived = self.archived;
        if let Some(offset) = archived.next(channel_changed, should_load_more, should_load_more) {
            self.archived = archived;
            return Some((ForumPostArchiveState::Archived, offset));
        }
        None
    }

    pub fn set_page(&mut self, archive_state: ForumPostArchiveState, page: ForumPostPageRequestState)
        ensures
            *final(self) == old(self).with_page(archive_state, page),
    {
        match archive_state {
            ForumPostArchiveState::Active => {
                self.active = page;
            },
            ForumPostArchiveState::Archived => {
                self.archived = page;
            },
        }
    }
}

/// A forum that is shown, and whether its end is in sight.
#[derive(Clone, Copy, Debug, PartialEq, Eq)]
pub struct ForumPostRequestTarget {
    pub guild_id: GuildId,
    pub channel_id: ChannelId,
    pub should_load_more: bool,
}

/// Requests for the posts of forums.
pub struct ForumPostRequests {
    requests: HashMap<u64, ForumPostRequestState>,
    last_channel: Option<ChannelId>,
}

impl View for ForumPostRequests {
    type V = ChannelRequestsView<ForumPostRequestState>;

    closed spec fn view(&self) -> ChannelRequestsView<ForumPostRequestState> {
        ChannelRequestsView { requests: self.requests@, last_channel: self.last_channel }
    }
}

/// How the requests of a forum stand; nothing is requested at first.
pub open spec fn forum_state(st: ChannelRequestsView<ForumPostRequestState>, channel: ChannelId) -> ForumPostRequestState {
    if st.requests.contains_key(channel) {
        st.requests[channel]
    } else {
        ForumPostRequestState::initial()
    }
}

pub open spec fn with_forum_page(
    st: ChannelRequestsView<ForumPostRequestState>,
    channel: ChannelId,
    archive_state: ForumPostArchiveState,
    page: ForumPostPageRequestState,
) -> ChannelRequestsView<ForumPostRequestState> {
    ChannelRequestsView {
        requests: st.requests.insert(channel, forum_state(st, channel).with_page(archive_state, page)),
        ..st
    }
}

impl ForumPostRequests {
    fn state_of(&self, channel_id: ChannelId) -> (r: ForumPostRequestState)
        ensures
            r == forum_state(self@, channel_id),
    {
        match self.requests.get(&channel_id) {
            Some(state) => *state,
            None => ForumPostRequestState {
                active: ForumPostPageRequestState::NotRequested,
                archived: ForumPostPageRequestState::NotRequested,
            },
        }
    }

    pub fn mark_failed(&mut self, channel_id: ChannelId, archive_state: ForumPostArchiveState, offset: usize)
        ensures
            final(self)@ == with_forum_page(
                old(self)@,
                channel_id,
                archive_state,
                ForumPostPageRequestState::Failed { offset },
            ),
    {
        let mut state = self.state_of(channel_id);
        state.set_page(archive_state, ForumPostPageRequestState::Failed { offset });
        self.requests.insert(channel_id, state);
    }

    pub fn record_event(&mut self, event: &AppEvent)
        ensures
            final(self)@ == (match *event {
                AppEvent::ForumPostsLoaded { channel_id, archive_state, next_offset, has_more, .. } => with_forum_page(
                    old(self)@,
                    channel_id,
                    archive_state,
                    ForumPostPageRequestState::Loaded { next_offset, has_more },
                ),
                AppEvent::ForumPostsLoadFailed { channel_id, archive_state, offset, .. } => with_forum_page(
                    old(self)@,
                    channel_id,
                    archive_state,
                    ForumPostPageRequestState::Failed { offset },
                ),
                _ => old(self)@,
            }),
    {
        match event {
            AppEvent::ForumPostsLoaded { channel_id, archive_state, next_offset, has_more, .. } => {
                let mut state = self.state_of(*channel_id);
                state.set_page(
                    *archive_state,
                    ForumPostPageRequestState::Loaded { next_offset: *next_offset, has_more: *has_more },
                );
                self.requests.insert(*channel_id, state);
            },
            AppEvent::ForumPostsLoadFailed { channel_id, archive_state, offset, .. } => {
                self.mark_failed(*channel_id, *archive_state, *offset);
            },
            _ => {},
        }
    }

    /// The page to be requested now that a forum is shown.
    pub fn next(&mut self, target: Option<ForumPostRequestTarget>) -> (r: Option<
        (GuildId, ChannelId, ForumPostArchiveState, usize),
    >)
        ensures
            match target {
                None => {
                    &&& r is None
                    &&& final(self)@ == (ChannelRequestsView { last_channel: None, ..old(self)@ })
                },
                Some(t) => {
                    let changed = old(self)@.last_channel != Some(t.channel_id);
                    let st = forum_state(old(self)@, t.channel_id);
                    &&& r == (match st.wanted(changed, t.should_load_more) {
                        Some((archive_state, offset)) => Some((t.guild_id, t.channel_id, archive_state, offset)),
                        None => None,
                    })
                    &&& final(self)@.last_channel == Some(t.channel_id)
                    &&& final(self)@.requests == old(self)@.requests.insert(
                        t.channel_id,
                        st.after_next(changed, t.should_load_more),
                    )
                },
            },
    {
        let target = match target {
            Some(target) => target,
            None => {
                self.last_channel = None;
                return None;
            },
        };
        let channel_changed = self.last_channel != Some(target.channel_id);
        let mut state = self.state_of(target.channel_id);
        self.last_channel = Some(target.channel_id);
        let next = state.next(channel_changed, target.should_load_more);
        self.requests.insert(target.channel_id, state);
        match next {
            Some((archive_state, offset)) => Some((target.guild_id, target.channel_id, archive_state, offset)),
            None => None,
        }
    }
}

impl Default for ForumPostRequests {
    fn default() -> (r: ForumPostRequests)
        ensures
            r@.requests == Map::<ChannelId, ForumPostRequestState>::empty(),
            r@.last_channel is None,
    {
        ForumPostRequests { requests: HashMap::new(), last_channel: None }
    }
}

/// A page is requested once: as long as nothing is heard of it, it is not requested again.
pub proof fn pages_are_requested_once(
    page: ForumPostPageRequestState,
    changed: bool,
    initial: bool,
    more: bool,
    changed2: bool,
    initial2: bool,
    more2: bool,
)
    requires
        page.wanted(changed, initial, more) is Some,
    ensures
        page.after_next(changed, initial, more).wanted(changed2, initial2, more2) is None,
{
}

// ---- Members of guilds ----

/// Guilds whose members were requested.
pub struct MemberRequests {
    requests: HashSet<u64>,
}

impl View for MemberRequests {
    type V = Set<GuildId>;

    closed spec fn view(&self) -> Set<GuildId> {
        self.requests@
    }
}

impl MemberRequests {
    pub fn next(&mut self, guild_id: Option<GuildId>) -> (r: Option<GuildId>)
        ensures
            match guild_id {
                None => r is None && final(self)@ == old(self)@,
                Some(g) => {
                    &&& final(self)@ == old(self)@.insert(g)
                    &&& r == (if old(self)@.contains(g) {
                        None
                    } else {
                        Some(g)
                    })
                },
            },
    {
        match guild_id {
            None => None,
            Some(guild_id) => if self.requests.insert(guild_id) {
                Some(guild_id)
            } else {
                None
            },
        }
    }

    pub fn remove(&mut self, guild_id: GuildId)
        ensures
            final(self)@ == old(self)@.remove(guild_id),
    {
        self.requests.remove(&guild_id);
    }
}

impl Default for MemberRequests {
    fn default() -> (r: MemberRequests)
        ensures
            r@ == Set::<GuildId>::empty(),
    {
        MemberRequests { requests: HashSet::new() }
    }
}

// ---- Previews of threads ----

pub type PreviewKey = (ChannelId, MessageId);

/// Requests for the messages that threads began with.
pub struct ThreadPreviewRequests {
    requested: Vec<PreviewKey>,
    failed: Vec<PreviewKey>,
}

/// The value of [`ThreadPreviewRequests`]: what is on its way, and what failed and is still shown.
pub struct ThreadPreviewView {
    pub requested: Set<PreviewKey>,
    pub failed: Set<PreviewKey>,
}

impl View for ThreadPreviewRequests {
    type V = ThreadPreviewView;

    closed spec fn view(&self) -> ThreadPreviewView {
        ThreadPreviewView { requested: self.requested@.to_set(), failed: self.failed@.to_set() }
    }
}

fn holds(v: &Vec<PreviewKey>, key: PreviewKey) -> (r: bool)
    ensures
        r == v@.contains(key),
{
    let mut i: usize = 0;
    while i < v.len()
        invariant
            i <= v@.len(),
            forall|k: int| 0 <= k < i ==> v@[k] != key,
        decreases v@.len() - i,
    {
        if v[i].0 == key.0 && v[i].1 == key.1 {
            assert(v@[i as int] == key);
            return true;
        }
        i += 1;
    }
    false
}

fn without(v: &Vec<PreviewKey>, key: PreviewKey) -> (r: Vec<PreviewKey>)
    ensures
        r@.to_set() == v@.to_set().remove(key),
{
    let mut r: Vec<PreviewKey> = Vec::new();
    let mut i: usize = 0;
    while i < v.len()
        invariant
            i <= v@.len(),
            forall|k: PreviewKey| #[trigger] r@.contains(k) <==> v@.take(i as int).contains(k) && k != key,
        decreases v@.len() - i,
    {
        let ghost before = r@;
        let item = v[i];
        if item.0 != key.0 || item.1 != key.1 {
            r.push(item);
        }
        proof {
            assert forall|k: PreviewKey| #[trigger] r@.contains(k) <==> v@.take(i + 1).contains(k) && k != key by {
                lemma_take_contains(v@, i as int, k);
                if r@.contains(k) {
                    let j = choose|j: int| 0 <= j < r@.len() && r@[j] == k;
                    if j < before.len() {
                        assert(before[j] == k);
                        assert(before.contains(k));
                    }
                }
                if before.contains(k) {
                    let j = choose|j: int| 0 <= j < before.len() && before[j] == k;
                    assert(r@[j] == k);
                }
                if k == item && k != key {
                    assert(r@[before.len() as int] == k);
                }
            }
        }
        i += 1;
    }
    proof {
        assert(v@.take(i as int) =~= v@);
        assert forall|k: PreviewKey| r@.to_set().contains(k) <==> v@.to_set().remove(key).contains(k) by {
            assert(r@.contains(k) <==> v@.take(i as int).contains(k) && k != key);
        }
        assert(r@.to_set() =~= v@.to_set().remove(key));
    }
    r
}

proof fn lemma_take_contains(s: Seq<PreviewKey>, i: int, k: PreviewKey)
    requires
        0 <= i < s.len(),
    ensures
        s.take(i + 1).contains(k) <==> s.take(i).contains(k) || s[i] == k,
{
    let longer = s.take(i + 1);
    if longer.contains(k) {
        let j = choose|j: int| 0 <= j < longer.len() && longer[j] == k;
        if j < i {
            assert(s.take(i)[j] == k);
        }
    }
    let shorter = s.take(i);
    if shorter.contains(k) {
        let j = choose|j: int| 0 <= j < shorter.len() && shorter[j] == k;
        assert(longer[j] == k);
    }
    assert(s.take(i + 1)[i] == s[i]);
}

/// What is to be requested of `missing`: in order, what neither failed nor is on its way, each once.
pub open spec fn previews_wanted(st: ThreadPreviewView, missing: Seq<PreviewKey>) -> Seq<PreviewKey>
    decreases missing.len(),
{
    if missing.len() == 0 {
        seq![]
    } else {
        let before = previews_wanted(st, missing.drop_last());
        let key = missing.last();
        if st.failed.contains(key) || st.requested.contains(key) || before.contains(key) {
            before
        } else {
            before.push(key)
        }
    }
}

impl ThreadPreviewRequests {
    pub fn record_event(&mut self, event: &AppEvent)
        ensures
            final(self)@ == (match *event {
                AppEvent::ThreadPreviewLoaded { channel_id, message } => ThreadPreviewView {
                    requested: old(self)@.requested.remove((channel_id, message.message_id)),
                    ..old(self)@
                },
                AppEvent::ThreadPreviewLoadFailed { channel_id, message_id } => ThreadPreviewView {
                    requested: old(self)@.requested.remove((channel_id, message_id)),
                    failed: old(self)@.failed.insert((channel_id, message_id)),
                },
                _ => old(self)@,
            }),
    {
        match event {
            AppEvent::ThreadPreviewLoaded { channel_id, message } => {
                self.remove((*channel_id, message.message_id));
            },
            AppEvent::ThreadPreviewLoadFailed { channel_id, message_id } => {
                let key = (*channel_id, *message_id);
                self.remove(key);
                let ghost before = self.failed@;
                self.failed.push(key);
                proof {
                    assert(self.failed@ =~= before.push(key));
                    before.lemma_push_to_set_commute(key);
                }
            },
            _ => {},
        }
    }

    /// The previews to be requested, given those that are shown and missing. What failed is tried again
    /// once it was out of sight.
    pub fn next(&mut self, missing: Vec<PreviewKey>) -> (r: Vec<PreviewKey>)
        ensures
            ({
                let failed = old(self)@.failed.intersect(missing@.to_set());
                let st = ThreadPreviewView { failed, ..old(self)@ };
                &&& r@ == previews_wanted(st, missing@)
                &&& final(self)@.failed == failed
                &&& final(self)@.requested == old(self)@.requested.union(r@.to_set())
            }),
    {
        let ghost before = self@;
        let ghost all_failed = self.failed@;
        let mut kept: Vec<PreviewKey> = Vec::new();
        let mut i: usize = 0;
        while i < self.failed.len()
            invariant
                self.failed@ == all_failed,
                self@ == before,
                i <= all_failed.len(),
                forall|k: PreviewKey| #[trigger] kept@.contains(k) <==> all_failed.take(i as int).contains(k)
                    && missing@.contains(k),
            decreases all_failed.len() - i,
        {
            let ghost old_kept = kept@;
            let key = self.failed[i];
            if holds(&missing, key) {
                kept.push(key);
            }
            proof {
                assert forall|k: PreviewKey| #[trigger] kept@.contains(k) <==> all_failed.take(i + 1).contains(k)
                    && missing@.contains(k) by {
                    lemma_take_contains(all_failed, i as int, k);
                    if kept@.contains(k) {
                        let j = choose|j: int| 0 <= j < kept@.len() && kept@[j] == k;
                        if j < old_kept.len() {
                            assert(old_kept[j] == k);
                            assert(old_kept.contains(k));
                        }
                    }
                    if old_kept.contains(k) {
                        let j = choose|j: int| 0 <= j < old_kept.len() && old_kept[j] == k;
                        assert(kept@[j] == k);
                    }
                    if k == key && missing@.contains(k) {
                        assert(kept@[old_kept.len() as int] == k);
                    }
                }
            }
            i += 1;
        }
        let ghost failed = before.failed.intersect(missing@.to_set());
        proof {
            assert(all_failed.take(i as int) =~= all_failed);
            assert forall|k: PreviewKey| kept@.to_set().contains(k) <==> failed.contains(k) by {
                assert(kept@.contains(k) <==> all_failed.take(i as int).contains(k) && missing@.contains(k));
            }
            assert(kept@.to_set() =~= failed);
        }
        self.failed = kept;
        let ghost st = ThreadPreviewView { failed, ..before };
        let ghost requested_before = self.requested@;
        let mut out: Vec<PreviewKey> = Vec::new();
        let mut i: usize = 0;
        assert(missing@.take(0) =~= Seq::<PreviewKey>::empty());
        assert(requested_before + out@ =~= requested_before);
        while i < missing.len()
            invariant
                i <= missing@.len(),
                self.failed@.to_set() == failed,
                st == (ThreadPreviewView { failed, ..before }),
                before.requested == requested_before.to_set(),
                self.requested@ == requested_before + out@,
                out@ == previews_wanted(st, missing@.take(i as int)),
            decreases missing@.len() - i,
        {
            let key = missing[i];
            proof {
                assert(missing@.take(i + 1).drop_last() =~= missing@.take(i as int));
                assert(missing@.take(i + 1).last() == key);
                assert(failed.contains(key) <==> self.failed@.contains(key));
                lemma_concat_contains(requested_before, out@, key);
                assert((requested_before + out@).push(key) =~= requested_before + out@.push(key));
            }
            if !holds(&self.failed, key) && !holds(&self.requested, key) {
                self.requested.push(key);
                out.push(key);
            }
            i += 1;
        }
        proof {
            assert(missing@.take(i as int) =~= missing@);
            assert forall|k: PreviewKey| self.requested@.to_set().contains(k) <==> before.requested.union(
                out@.to_set(),
            ).contains(k) by {
                lemma_concat_contains(requested_before, out@, k);
            }
            assert(self.requested@.to_set() =~= before.requested.union(out@.to_set()));
        }
        out
    }

    pub fn remove(&mut self, key: PreviewKey)
        ensures
            final(self)@ == (ThreadPreviewView { requested: old(self)@.requested.remove(key), ..old(self)@ }),
    {
        self.requested = without(&self.requested, key);
    }
}

proof fn lemma_concat_contains(a: Seq<PreviewKey>, b: Seq<PreviewKey>, k: PreviewKey)
    ensures
        (a + b).contains(k) <==> a.contains(k) || b.contains(k),
{
    if a.contains(k) {
        let j = choose|j: int| 0 <= j < a.len() && a[j] == k;
        assert((a + b)[j] == k);
    }
    if b.contains(k) {
        let j = choose|j: int| 0 <= j < b.len() && b[j] == k;
        assert((a + b)[a.len() + j] == k);
    }
    if (a + b).contains(k) {
        let j = choose|j: int| 0 <= j < (a + b).len() && (a + b)[j] == k;
        if j < a.len() {
            assert(a[j] == k);
        } else {
            assert(b[j - a.len()] == k);
        }
    }
}

impl Default for ThreadPreviewRequests {
    fn default() -> (r: ThreadPreviewRequests)
        ensures
            r@.requested == Set::<PreviewKey>::empty(),
            r@.failed == Set::<PreviewKey>::empty(),
    {
        let r = ThreadPreviewRequests { requested: Vec::new(), failed: Vec::new() };
        assert(r@.requested =~= Set::<PreviewKey>::empty());
        assert(r@.failed =~= Set::<PreviewKey>::empty());
        r
    }
}

/// What is requested was neither on its way nor failed before.
pub proof fn previews_are_requested_once(st: ThreadPreviewView, missing: Seq<PreviewKey>, key: PreviewKey)
    requires
        previews_wanted(st, missing).contains(key),
    ensures
        !st.requested.contains(key),
        !st.failed.contains(key),
    decreases missing.len(),
{
    if missing.len() > 0 {
        let before = previews_wanted(st, missing.drop_last());
        if before.contains(key) {
            previews_are_requested_once(st, missing.drop_last(), key);
        } else {
            let all = previews_wanted(st, missing);
            let j = choose|j: int| 0 <= j < all.len() && all[j] == key;
            if j < before.len() {
                assert(before[j] == key);
            }
        }
    }
}

// ---- Searches for members that a mention may mean ----

pub const MIN_QUERY_CHARS: usize = 2;

pub const MAX_QUERY_CHARS: usize = 64;

/// How long typing must pause before a search is sent, in milliseconds.
pub const DEBOUNCE_MILLIS: u64 = 250;

/// How long a search is not repeated, in milliseconds.
pub const REQUEST_TTL_MILLIS: u64 = 30_000;

pub const MAX_REQUESTED: usize = 128;

/// A guild and the beginning of a name to search for in it.
#[derive(Debug, PartialEq, Eq)]
pub struct MentionMemberSearchTarget {
    pub guild_id: GuildId,
    pub query: String,
}

/// What is searched for: the guild and the text.
pub struct SearchKey {
    pub guild_id: GuildId,
    pub query: Seq<char>,
}

impl MentionMemberSearchTarget {
    pub open spec fn key(self) -> SearchKey {
        SearchKey { guild_id: self.guild_id, query: self.query@ }
    }
}

/// A text in lower case, character by character.
pub open spec fn lowered(s: Seq<char>) -> Seq<char>
    decreases s.len(),
{
    if s.len() == 0 {
        seq![]
    } else {
        lowercase_char(s[0]) + lowered(s.skip(1))
    }
}

/// A text in the form that is searched for: in lower case, without the white space around it, and of
/// bounded length.
pub open spec fn normalized(query: Seq<char>) -> Seq<char> {
    let all = lowered(trimmed(query));
    if all.len() <= MAX_QUERY_CHARS {
        all
    } else {
        all.take(MAX_QUERY_CHARS as int)
    }
}

pub fn normalize_mention_member_search_query(query: &str) -> (r: String)
    ensures
        r@ == normalized(query@),
{
    let text = trim_text(query);
    let v = chars_of(text.as_str());
    let ghost all = lowered(v@);
    let mut out: Vec<char> = Vec::new();
    let mut i: usize = 0;
    assert(v@.skip(0) =~= v@);
    assert(out@ + all =~= all);
    while i < v.len() && out.len() < MAX_QUERY_CHARS
        invariant
            i <= v@.len(),
            out@.len() <= MAX_QUERY_CHARS,
            all == lowered(v@),
            out@.len() < MAX_QUERY_CHARS ==> out@ + lowered(v@.skip(i as int)) == all,
            out@.len() == MAX_QUERY_CHARS ==> all.len() >= MAX_QUERY_CHARS && out@ == all.take(MAX_QUERY_CHARS as int),
        decreases v@.len() - i,
    {
        let low = lower_char(v[i]);
        let ghost before = out@;
        let ghost rest = lowered(v@.skip(i + 1));
        proof {
            assert(v@.skip(i as int)[0] == v@[i as int]);
            assert(v@.skip(i as int).skip(1) =~= v@.skip(i + 1));
            assert(before + low@.take(0) =~= before);
        }
        let mut k: usize = 0;
        while k < low.len() && out.len() < MAX_QUERY_CHARS
            invariant
                k <= low@.len(),
                out@.len() <= MAX_QUERY_CHARS,
                out@ == before + low@.take(k as int),
            decreases low@.len() - k,
        {
            out.push(low[k]);
            assert(before + low@.take(k + 1) =~= (before + low@.take(k as int)).push(low@[k as int]));
            k += 1;
        }
        proof {
            assert(before + (low@ + rest) == all);
            if out@.len() < MAX_QUERY_CHARS {
                assert(low@.take(k as int) =~= low@);
                assert(out@ + rest =~= before + (low@ + rest));
            } else {
                assert(all.take(MAX_QUERY_CHARS as int) =~= out@);
            }
        }
        i += 1;
    }
    proof {
        if out@.len() < MAX_QUERY_CHARS {
            assert(v@.skip(i as int) =~= Seq::<char>::empty());
            assert(out@ + Seq::<char>::empty() =~= out@);
        }
        assert(all.len() == MAX_QUERY_CHARS ==> all.take(MAX_QUERY_CHARS as int) =~= all);
    }
    let r = string_of(&out, 0, out.len());
    assert(r@ =~= out@);
    r
}

/// What a target is searched as; texts that are too short are not searched for.
pub open spec fn search_key(target: Option<MentionMemberSearchTarget>) -> Option<SearchKey> {
    match target {
        Some(t) => if normalized(t.query@).len() >= MIN_QUERY_CHARS {
            Some(SearchKey { guild_id: t.guild_id, query: normalized(t.query@) })
        } else {
            None
        },
        None => None,
    }
}

pub fn normalize_mention_member_search_target(target: Option<MentionMemberSearchTarget>) -> (r: Option<
    MentionMemberSearchTarget,
>)
    ensures
        match r {
            Some(t) => search_key(target) == Some(t.key()),
            None => search_key(target) is None,
        },
{
    match target {
        None => None,
        Some(target) => {
            let query = normalize_mention_member_search_query(target.query.as_str());
            if chars_of(query.as_str()).len() >= MIN_QUERY_CHARS {
                Some(MentionMemberSearchTarget { guild_id: target.guild_id, query })
            } else {
                None
            }
        },
    }
}

/// A search that was sent, and when.
struct RequestedSearch {
    target: MentionMemberSearchTarget,
    requested_at: u64,
}

/// A search that waits for typing to pause.
struct PendingMentionMemberSearch {
    target: MentionMemberSearchTarget,
    ready_at: u64,
}

/// Searches for members. Times are in milliseconds from a fixed moment.
pub struct MentionMemberSearchRequests {
    requested: Vec<RequestedSearch>,
    pending: Option<PendingMentionMemberSearch>,
}

pub struct SentSearch {
    pub key: SearchKey,
    pub at: u64,
}

pub struct WaitingSearch {
    pub key: SearchKey,
    pub ready_at: u64,
}

/// The value of [`MentionMemberSearchRequests`]: the searches that are not repeated, oldest first, and
/// the one that waits.
pub struct SearchView {
    pub sent: Seq<SentSearch>,
    pub waiting: Option<WaitingSearch>,
}

impl View for MentionMemberSearchRequests {
    type V = SearchView;

    closed spec fn view(&self) -> SearchView {
        SearchView {
            sent: sent_views(self.requested@),
            waiting: match self.pending {
                Some(p) => Some(WaitingSearch { key: p.target.key(), ready_at: p.ready_at }),
                None => None,
            },
        }
    }
}

spec fn sent_views(v: Seq<RequestedSearch>) -> Seq<SentSearch> {
    v.map_values(|r: RequestedSearch| SentSearch { key: r.target.key(), at: r.requested_at })
}

/// Whether a search is still not to be repeated.
pub open spec fn is_fresh(s: SentSearch, now: u64) -> bool {
    now < s.at || now - s.at <= REQUEST_TTL_MILLIS
}

pub open spec fn fresh(sent: Seq<SentSearch>, now: u64) -> Seq<SentSearch>
    decreases sent.len(),
{
    if sent.len() == 0 {
        seq![]
    } else if is_fresh(sent.last(), now) {
        fresh(sent.drop_last(), now).push(sent.last())
    } else {
        fresh(sent.drop_last(), now)
    }
}

/// The searches that are kept: those that are fresh, and of these the latest.
pub open spec fn pruned(sent: Seq<SentSearch>, now: u64) -> Seq<SentSearch> {
    let f = fresh(sent, now);
    if f.len() > MAX_REQUESTED {
        f.skip(f.len() - MAX_REQUESTED)
    } else {
        f
    }
}

pub open spec fn has_sent(sent: Seq<SentSearch>, key: SearchKey) -> bool {
    exists|i: int| 0 <= i < sent.len() && (#[trigger] sent[i]).key == key
}

/// What typing a text leads to: unless it was searched for of late, it waits until typing pauses.
pub open spec fn after_target(st: SearchView, key: Option<SearchKey>, now: u64) -> SearchView {
    let sent = pruned(st.sent, now);
    SearchView {
        sent,
        waiting: match key {
            None => None,
            Some(key) => if has_sent(sent, key) {
                None
            } else if st.waiting matches Some(w) && w.key == key {
                st.waiting
            } else {
                Some(WaitingSearch { key, ready_at: (now + DEBOUNCE_MILLIS) as u64 })
            },
        },
    }
}

/// The search that is to be sent now.
pub open spec fn due(st: SearchView, now: u64) -> Option<SearchKey> {
    match st.waiting {
        Some(w) if w.ready_at <= now && !has_sent(pruned(st.sent, now), w.key) => Some(w.key),
        _ => None,
    }
}

/// What becomes of the searches when what is due is sent.
pub open spec fn after_due(st: SearchView, now: u64) -> SearchView {
    let sent = pruned(st.sent, now);
    SearchView {
        sent: match due(st, now) {
            Some(key) => pruned(sent.push(SentSearch { key, at: now }), now),
            None => sent,
        },
        waiting: match st.waiting {
            Some(w) if w.ready_at <= now => None,
            _ => st.waiting,
        },
    }
}

fn same_search(a: &MentionMemberSearchTarget, b: &MentionMemberSearchTarget) -> (r: bool)
    ensures
        r == (a.key() == b.key()),
{
    a.guild_id == b.guild_id && str_eq(a.query.as_str(), b.query.as_str())
}

proof fn lemma_sent_push(v: Seq<RequestedSearch>, r: RequestedSearch)
    ensures
        sent_views(v.push(r)) == sent_views(v).push(SentSearch { key: r.target.key(), at: r.requested_at }),
{
    assert(sent_views(v.push(r)) =~= sent_views(v).push(SentSearch { key: r.target.key(), at: r.requested_at }));
}

impl MentionMemberSearchRequests {
    fn prune_requested(&mut self, now: u64)
        ensures
            final(self)@ == (SearchView { sent: pruned(old(self)@.sent, now), ..old(self)@ }),
    {
        let ghost sent = self@.sent;
        let ghost waiting = self@.waiting;
        let mut requested: Vec<RequestedSearch> = Vec::new();
        std::mem::swap(&mut requested, &mut self.requested);
        let ghost all = requested@;
        let mut kept: Vec<RequestedSearch> = Vec::new();
        assert(sent_views(kept@) =~= Seq::<SentSearch>::empty());
        assert(sent == sent_views(all));
        assert(sent.take(0) =~= Seq::<SentSearch>::empty());
        for request in it: requested
            invariant
                it.seq() == all,
                sent == sent_views(all),
                sent_views(kept@) == fresh(sent.take(it.index()), now),
        {
            proof {
                assert(sent.take(it.index() + 1).drop_last() =~= sent.take(it.index()));
                assert(sent.take(it.index() + 1).last() == SentSearch {
                    key: request.target.key(),
                    at: request.requested_at,
                });
                lemma_sent_push(kept@, request);
            }
            if now < request.requested_at || now - request.requested_at <= REQUEST_TTL_MILLIS {
                kept.push(request);
            }
        }
        assert(sent.take(all.len() as int) =~= sent);
        let ghost f = fresh(sent, now);
        assert(f.len() == kept@.len());
        if kept.len() > MAX_REQUESTED {
            let cut: usize = kept.len() - MAX_REQUESTED;
            let latest = kept.split_off(cut);
            assert(sent_views(latest@) =~= f.skip(cut as int));
            self.requested = latest;
        } else {
            self.requested = kept;
        }
    }

    fn was_requested(&self, target: &MentionMemberSearchTarget) -> (r: bool)
        ensures
            r == has_sent(self@.sent, target.key()),
    {
        let mut i: usize = 0;
        while i < self.requested.len()
            invariant
                i <= self.requested@.len(),
                forall|k: int| 0 <= k < i ==> (#[trigger] self@.sent[k]).key != target.key(),
            decreases self.requested@.len() - i,
        {
            assert(self@.sent[i as int].key == self.requested@[i as int].target.key());
            if same_search(&self.requested[i].target, target) {
                return true;
            }
            i += 1;
        }
        false
    }

    /// What is typed now, if it is a mention.
    pub fn set_target(&mut self, target: Option<MentionMemberSearchTarget>, now: u64)
        requires
            now <= u64::MAX - DEBOUNCE_MILLIS,
        ensures
            final(self)@ == after_target(old(self)@, search_key(target), now),
    {
        self.prune_requested(now);
        match normalize_mention_member_search_target(target) {
            None => {
                self.pending = None;
            },
            Some(target) => {
                if self.was_requested(&target) {
                    self.pending = None;
                    return ;
                }
                let waiting = match &self.pending {
                    Some(pending) => same_search(&pending.target, &target),
                    None => false,
                };
                if !waiting {
                    self.pending = Some(PendingMentionMemberSearch { target, ready_at: now + DEBOUNCE_MILLIS });
                }
            },
        }
    }

    /// When the search that waits is to be sent.
    pub fn pending_deadline(&self) -> (r: Option<u64>)
        ensures
            r == (match self@.waiting {
                Some(w) => Some(w.ready_at),
                None => None,
            }),
    {
        match &self.pending {
            Some(pending) => Some(pending.ready_at),
            None => None,
        }
    }

    /// The search that is to be sent now.
    pub fn next_due(&mut self, now: u64) -> (r: Option<MentionMemberSearchTarget>)
        ensures
            final(self)@ == after_due(old(self)@, now),
            match r {
                Some(t) => due(old(self)@, now) == Some(t.key()),
                None => due(old(self)@, now) is None,
            },
    {
        self.prune_requested(now);
        let mut pending: Option<PendingMentionMemberSearch> = None;
        std::mem::swap(&mut pending, &mut self.pending);
        match pending {
            None => None,
            Some(pending) => {
                if pending.ready_at > now {
                    self.pending = Some(pending);
                    return None;
                }
                if self.was_requested(&pending.target) {
                    return None;
                }
                let copy = MentionMemberSearchTarget {
                    guild_id: pending.target.guild_id,
                    query: pending.target.query.clone(),
                };
                let request = RequestedSearch { target: copy, requested_at: now };
                proof {
                    lemma_sent_push(self.requested@, request);
                }
                self.requested.push(request);
                self.prune_requested(now);
                Some(pending.target)
            },
        }
    }
}

impl Default for MentionMemberSearchRequests {
    fn default() -> (r: MentionMemberSearchRequests)
        ensures
            r@.sent.len() == 0,
            r@.waiting is None,
    {
        MentionMemberSearchRequests { requested: Vec::new(), pending: None }
    }
}

/// What was sent is remembered, and so never due again while it is fresh: at once after a search was
/// sent, typing the same text leads to no other.
pub proof fn searches_are_not_repeated(st: SearchView, now: u64)
    requires
        due(st, now) is Some,
    ensures
        after_target(after_due(st, now), due(st, now), now).waiting is None,
        after_due(st, now).sent.len() <= MAX_REQUESTED,
{
    let key = due(st, now)->0;
    let once = pruned(st.sent, now).push(SentSearch { key, at: now });
    assert(once.last() == SentSearch { key, at: now });
    let f = fresh(once, now);
    assert(f.last() == once.last());
    let p = pruned(once, now);
    assert(p.last() == SentSearch { key, at: now });
    lemma_fresh_last(p, now);
    let q = pruned(p, now);
    assert(q.last().key == key);
    assert(q[q.len() - 1].key == key);
}

proof fn lemma_fresh_last(sent: Seq<SentSearch>, now: u64)
    requires
        sent.len() > 0,
        is_fresh(sent.last(), now),
    ensures
        fresh(sent, now).len() > 0,
        fresh(sent, now).last() == sent.last(),
        pruned(sent, now).len() > 0,
        pruned(sent, now).last() == sent.last(),
{
}

proof fn lemma_fresh_members(sent: Seq<SentSearch>, now: u64)
    ensures
        forall|i: int| #![trigger fresh(sent, now)[i]]
            0 <= i < fresh(sent, now).len() ==> sent.contains(fresh(sent, now)[i]) && is_fresh(fresh(sent, now)[i], now),
    decreases sent.len(),
{
    if sent.len() > 0 {
        let before = fresh(sent.drop_last(), now);
        lemma_fresh_members(sent.drop_last(), now);
        assert forall|i: int| #![trigger fresh(sent, now)[i]] 0 <= i < fresh(sent, now).len() implies sent.contains(
            fresh(sent, now)[i],
        ) && is_fresh(fresh(sent, now)[i], now) by {
            if i < before.len() {
                let k = choose|k: int| 0 <= k < sent.len() - 1 && sent.drop_last()[k] == before[i];
                assert(sent[k] == before[i]);
            } else {
                assert(fresh(sent, now)[i] == sent[sent.len() - 1]);
            }
        }
    }
}

proof fn lemma_pruned_members(sent: Seq<SentSearch>, now: u64)
    ensures
        forall|i: int| #![trigger pruned(sent, now)[i]]
            0 <= i < pruned(sent, now).len() ==> sent.contains(pruned(sent, now)[i]) && is_fresh(
                pruned(sent, now)[i],
                now,
            ),
{
    lemma_fresh_members(sent, now);
    let f = fresh(sent, now);
    if f.len() > MAX_REQUESTED {
        assert forall|i: int| #![trigger pruned(sent, now)[i]] 0 <= i < pruned(sent, now).len() implies sent.contains(
            pruned(sent, now)[i],
        ) && is_fresh(pruned(sent, now)[i], now) by {
            assert(pruned(sent, now)[i] == f[f.len() - MAX_REQUESTED + i]);
        }
    }
}

/// A search that was sent at `sent` and is typed again next, in whatever case and with whatever white space
/// around it, is dropped while it is fresh. Later it waits as any other does.
pub proof fn repeated_searches_wait_until_they_are_old(
    st: SearchView,
    sent: u64,
    again: MentionMemberSearchTarget,
    now: u64,
)
    requires
        due(st, sent) is Some,
        search_key(Some(again)) == due(st, sent),
        sent <= now <= u64::MAX - DEBOUNCE_MILLIS,
    ensures
        now - sent <= REQUEST_TTL_MILLIS ==> after_target(
            after_due(st, sent),
            search_key(Some(again)),
            now,
        ).waiting is None,
        now - sent > REQUEST_TTL_MILLIS ==> after_target(after_due(st, sent), search_key(Some(again)), now).waiting
            == Some(WaitingSearch { key: due(st, sent)->0, ready_at: (now + DEBOUNCE_MILLIS) as u64 }),
{
    let key = due(st, sent)->0;
    let e = SentSearch { key, at: sent };
    let kept = pruned(st.sent, sent);
    let all = kept.push(e);
    assert(all.last() == e);
    lemma_fresh_last(all, sent);
    let after = pruned(all, sent);
    let later = pruned(after, now);
    if now - sent <= REQUEST_TTL_MILLIS {
        lemma_fresh_last(after, now);
        assert(later[later.len() - 1].key == key);
    } else {
        lemma_pruned_members(all, sent);
        lemma_pruned_members(after, now);
        assert forall|i: int| 0 <= i < later.len() implies (#[trigger] later[i]).key != key by {
            let x = later[i];
            let j = choose|j: int| 0 <= j < after.len() && after[j] == x;
            assert(all.contains(after[j]));
            let k = choose|k: int| 0 <= k < all.len() && all[k] == x;
            if k < kept.len() {
                assert(kept[k].key != key);
            }
        }
    }
}

} // verus!
