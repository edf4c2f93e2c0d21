//! The list of channels: its tree, its filter and its cursor.

use crate::ids::{ChannelId, UserId};
use crate::state::member_grouping::PresenceStatus;
use crate::state::model::{branch_of, ChannelBranch, ChannelPaneEntry};
use crate::state::pane_filter::PaneFilterState;
use crate::state::sorting::{is_order, key_views, sorted_order};
use crate::unicode::{all_space, is_all_space};
use vstd::prelude::*;

verus! {

#[derive(Clone, Copy, Debug, PartialEq, Eq, Structural)]
pub enum ChannelKind {
    DirectMessage,
    GroupDirectMessage,
    Category,
    Text,
    Voice,
    Forum,
    Thread,
}

/// What the list needs to know of a channel.
#[derive(Clone, Copy, Debug, PartialEq, Eq, Structural)]
pub struct PaneChannel {
    pub id: ChannelId,
    pub parent_id: Option<ChannelId>,
    pub kind: ChannelKind,
    /// Whether a thread is active and was joined.
    pub sidebar_active: bool,
    pub can_manage_structure: bool,
    pub unread: bool,
}

/// Who is in a call.
#[derive(Debug, PartialEq, Eq)]
pub struct VoiceParticipants {
    pub channel_id: ChannelId,
    pub user_ids: Vec<UserId>,
}

/// Some of the channels.
#[derive(Clone, Copy, Debug, PartialEq, Eq, Structural)]
pub enum Pick {
    /// The channels of a category.
    Children { category: ChannelId },
    /// Those that a collapsed category still shows: the active one, and what is unread.
    VisibleChildren { category: ChannelId, active: Option<ChannelId> },
    /// The threads of a channel that are shown.
    Threads { parent: ChannelId },
}

pub open spec fn is_child(c: PaneChannel, category: ChannelId) -> bool {
    !(c.kind is Thread) && !(c.kind is Category) && c.parent_id == Some(category)
}

pub open spec fn picked(pick: Pick, c: PaneChannel) -> bool {
    match pick {
        Pick::Children { category } => is_child(c, category),
        Pick::VisibleChildren { category, active } => is_child(c, category) && (active == Some(c.id) || c.unread),
        Pick::Threads { parent } => c.sidebar_active && c.parent_id == Some(parent),
    }
}

fn same_id(a: Option<u64>, b: u64) -> (r: bool)
    ensures
        r == (a == Some(b)),
{
    match a {
        Some(a) => a == b,
        None => false,
    }
}

fn picks(pick: Pick, c: &PaneChannel) -> (r: bool)
    ensures
        r == picked(pick, *c),
{
    let thread = matches!(c.kind, ChannelKind::Thread);
    let category_kind = matches!(c.kind, ChannelKind::Category);
    match pick {
        Pick::Children { category } => !thread && !category_kind && same_id(c.parent_id, category),
        Pick::VisibleChildren { category, active } => !thread && !category_kind && same_id(c.parent_id, category) && (
        same_id(active, c.id) || c.unread),
        Pick::Threads { parent } => c.sidebar_active && same_id(c.parent_id, parent),
    }
}

/// The picked channels, in the order of the list.
pub open spec fn selection(channels: Seq<PaneChannel>, pick: Pick) -> Seq<PaneChannel>
    decreases channels.len(),
{
    if channels.len() == 0 {
        Seq::empty()
    } else if picked(pick, channels.last()) {
        selection(channels.drop_last(), pick).push(channels.last())
    } else {
        selection(channels.drop_last(), pick)
    }
}

fn select(channels: &Vec<PaneChannel>, pick: Pick) -> (r: Vec<PaneChannel>)
    ensures
        r@ == selection(channels@, pick),
{
    let mut out: Vec<PaneChannel> = Vec::new();
    let mut i: usize = 0;
    assert(channels@.take(0) =~= Seq::<PaneChannel>::empty());
    while i < channels.len()
        invariant
            i <= channels@.len(),
            out@ == selection(channels@.take(i as int), pick),
        decreases channels@.len() - i,
    {
        assert(channels@.take(i + 1).drop_last() =~= channels@.take(i as int));
        if picks(pick, &channels[i]) {
            out.push(channels[i]);
        }
        i += 1;
    }
    assert(channels@.take(i as int) =~= channels@);
    out
}

/// The rows of the threads below a channel.
pub open spec fn thread_rows(threads: Seq<PaneChannel>, parent_branch: ChannelBranch) -> Seq<ChannelPaneEntry> {
    Seq::new(
        threads.len(),
        |i: int| ChannelPaneEntry::Thread {
            channel_id: threads[i].id,
            parent_branch,
            branch: branch_of(i, threads.len() as int),
        },
    )
}

/// Those in the call of a channel.
pub open spec fn in_call(calls: Seq<VoiceParticipants>, channel_id: ChannelId) -> Seq<UserId>
    decreases calls.len(),
{
    if calls.len() == 0 {
        Seq::empty()
    } else if calls[0].channel_id == channel_id {
        calls[0].user_ids@
    } else {
        in_call(calls.drop_first(), channel_id)
    }
}

pub open spec fn call_rows(users: Seq<UserId>, channel_id: ChannelId, parent_branch: ChannelBranch) -> Seq<
    ChannelPaneEntry,
> {
    users.map_values(|user_id: UserId| ChannelPaneEntry::VoiceParticipant { channel_id, user_id, parent_branch })
}

/// The rows of a channel: itself, its threads, and who is in its call.
pub open spec fn channel_rows(
    channels: Seq<PaneChannel>,
    calls: Seq<VoiceParticipants>,
    c: PaneChannel,
    branch: ChannelBranch,
) -> Seq<ChannelPaneEntry> {
    seq![ChannelPaneEntry::Channel { channel_id: c.id, branch }] + thread_rows(
        selection(channels, Pick::Threads { parent: c.id }),
        branch,
    ) + (if c.kind is Voice { call_rows(in_call(calls, c.id), c.id, branch) } else { Seq::empty() })
}

/// The rows of the channels of a category.
pub open spec fn children_rows(
    channels: Seq<PaneChannel>,
    calls: Seq<VoiceParticipants>,
    children: Seq<PaneChannel>,
    k: int,
) -> Seq<ChannelPaneEntry>
    decreases k,
{
    if k <= 0 {
        Seq::empty()
    } else {
        children_rows(channels, calls, children, k - 1) + channel_rows(
            channels,
            calls,
            children[k - 1],
            branch_of(k - 1, children.len() as int),
        )
    }
}

/// Whether a channel stands at the top of the tree.
pub open spec fn is_root(channels: Seq<PaneChannel>, c: PaneChannel) -> bool {
    !(c.kind is Thread) && (c.kind is Category || !has_category(channels, c.parent_id))
}

pub open spec fn has_category(channels: Seq<PaneChannel>, id: Option<ChannelId>) -> bool {
    exists|i: int| 0 <= i < channels.len() && (#[trigger] channels[i]).kind is Category && id == Some(channels[i].id)
}

/// How the list is shown: the collapsed categories and the active channel.
pub struct PaneView {
    pub collapsed: Set<ChannelId>,
    pub active: Option<ChannelId>,
}

/// The rows of a channel at the top. A category without channels is shown to those who can fill it.
pub open spec fn root_rows(
    channels: Seq<PaneChannel>,
    calls: Seq<VoiceParticipants>,
    v: PaneView,
    c: PaneChannel,
) -> Seq<ChannelPaneEntry> {
    if !(c.kind is Category) {
        channel_rows(channels, calls, c, ChannelBranch::Root)
    } else {
        let children = selection(channels, Pick::Children { category: c.id });
        if children.len() == 0 && !c.can_manage_structure {
            Seq::empty()
        } else {
            let collapsed = v.collapsed.contains(c.id);
            let shown = if collapsed {
                selection(channels, Pick::VisibleChildren { category: c.id, active: v.active })
            } else {
                children
            };
            seq![ChannelPaneEntry::CategoryHeader { channel_id: c.id, collapsed }] + children_rows(
                channels,
                calls,
                shown,
                shown.len() as int,
            )
        }
    }
}

/// The rows of the first `k` channels with what is below them.
pub open spec fn tree_rows(channels: Seq<PaneChannel>, calls: Seq<VoiceParticipants>, v: PaneView, k: int) -> Seq<
    ChannelPaneEntry,
>
    decreases k,
{
    if k <= 0 {
        Seq::empty()
    } else {
        let before = tree_rows(channels, calls, v, k - 1);
        if is_root(channels, channels[k - 1]) {
            before + root_rows(channels, calls, v, channels[k - 1])
        } else {
            before
        }
    }
}

/// The rows of the first `k` private conversations: each with who is in its call.
pub open spec fn direct_rows(channels: Seq<PaneChannel>, calls: Seq<VoiceParticipants>, k: int) -> Seq<ChannelPaneEntry>
    decreases k,
{
    if k <= 0 {
        Seq::empty()
    } else {
        let c = channels[k - 1];
        let before = direct_rows(channels, calls, k - 1);
        if c.kind is Thread {
            before
        } else {
            before + seq![ChannelPaneEntry::Channel { channel_id: c.id, branch: ChannelBranch::Root }] + call_rows(
                in_call(calls, c.id),
                c.id,
                ChannelBranch::Root,
            )
        }
    }
}

fn push_call(
    entries: &mut Vec<ChannelPaneEntry>,
    calls: &Vec<VoiceParticipants>,
    channel_id: ChannelId,
    parent_branch: ChannelBranch,
)
    ensures
        final(entries)@ == old(entries)@ + call_rows(in_call(calls@, channel_id), channel_id, parent_branch),
{
    let mut i: usize = 0;
    assert(calls@.skip(0) =~= calls@);
    while i < calls.len()
        invariant
            i <= calls@.len(),
            in_call(calls@, channel_id) == in_call(calls@.skip(i as int), channel_id),
            entries@ == old(entries)@,
        decreases calls@.len() - i,
    {
        assert(calls@.skip(i as int)[0] == calls@[i as int]);
        if calls[i].channel_id == channel_id {
            let users = &calls[i].user_ids;
            let ghost rows = call_rows(users@, channel_id, parent_branch);
            let mut k: usize = 0;
            assert(entries@ =~= old(entries)@ + rows.take(0));
            while k < users.len()
                invariant
                    k <= users@.len(),
                    rows == call_rows(users@, channel_id, parent_branch),
                    entries@ == old(entries)@ + rows.take(k as int),
                decreases users@.len() - k,
            {
                entries.push(ChannelPaneEntry::VoiceParticipant { channel_id, user_id: users[k], parent_branch });
                assert(rows.take(k + 1) =~= rows.take(k as int).push(rows[k as int]));
                assert(entries@ =~= old(entries)@ + rows.take(k + 1));
                k += 1;
            }
            assert(rows.take(k as int) =~= rows);
            return;
        }
        assert(calls@.skip(i as int).drop_first() =~= calls@.skip(i + 1));
        i += 1;
    }
    assert(entries@ =~= old(entries)@ + call_rows(in_call(calls@, channel_id), channel_id, parent_branch));
}

fn branch_at(index: usize, count: usize) -> (r: ChannelBranch)
    requires
        index < count,
    ensures
        r == branch_of(index as int, count as int),
{
    if index == count - 1 {
        ChannelBranch::Last
    } else {
        ChannelBranch::Middle
    }
}

fn push_channel_pane_channel_entry(
    entries: &mut Vec<ChannelPaneEntry>,
    channels: &Vec<PaneChannel>,
    calls: &Vec<VoiceParticipants>,
    c: PaneChannel,
    branch: ChannelBranch,
)
    ensures
        final(entries)@ == old(entries)@ + channel_rows(channels@, calls@, c, branch),
{
    entries.push(ChannelPaneEntry::Channel { channel_id: c.id, branch });
    let threads = select(channels, Pick::Threads { parent: c.id });
    let ghost head = entries@;
    let ghost rows = thread_rows(threads@, branch);
    let mut i: usize = 0;
    assert(head =~= head + rows.take(0));
    while i < threads.len()
        invariant
            i <= threads@.len(),
            rows == thread_rows(threads@, branch),
            entries@ == head + rows.take(i as int),
        decreases threads@.len() - i,
    {
        entries.push(
            ChannelPaneEntry::Thread {
                channel_id: threads[i].id,
                parent_branch: branch,
                branch: branch_at(i, threads.len()),
            },
        );
        assert(rows.take(i + 1) =~= rows.take(i as int).push(rows[i as int]));
        assert(entries@ =~= head + rows.take(i + 1));
        i += 1;
    }
    assert(rows.take(i as int) =~= rows);
    if matches!(c.kind, ChannelKind::Voice) {
        push_call(entries, calls, c.id, branch);
    }
    assert(entries@ =~= old(entries)@ + channel_rows(channels@, calls@, c, branch));
}

fn in_categories(channels: &Vec<PaneChannel>, id: Option<ChannelId>) -> (r: bool)
    ensures
        r == has_category(channels@, id),
{
    let mut i: usize = 0;
    while i < channels.len()
        invariant
            i <= channels@.len(),
            forall|k: int|
                0 <= k < i ==> !((#[trigger] channels@[k]).kind is Category && id == Some(channels@[k].id)),
        decreases channels@.len() - i,
    {
        if matches!(channels[i].kind, ChannelKind::Category) && same_id(id, channels[i].id) {
            return true;
        }
        i += 1;
    }
    false
}

/// Whether a list of channels holds one.
pub fn holds_channel(list: &Vec<ChannelId>, id: ChannelId) -> (r: bool)
    ensures
        r == list@.contains(id),
{
    let mut i: usize = 0;
    while i < list.len()
        invariant
            i <= list@.len(),
            forall|k: int| 0 <= k < i ==> list@[k] != id,
        decreases list@.len() - i,
    {
        if list[i] == id {
            return true;
        }
        i += 1;
    }
    false
}

/// The rows of the channels of a guild. The channels are given in the order in which they are shown.
pub fn channel_pane_entries(
    channels: &Vec<PaneChannel>,
    calls: &Vec<VoiceParticipants>,
    collapsed: &Vec<ChannelId>,
    active: Option<ChannelId>,
) -> (r: Vec<ChannelPaneEntry>)
    ensures
        r@ == tree_rows(
            channels@,
            calls@,
            PaneView { collapsed: collapsed@.to_set(), active },
            channels@.len() as int,
        ),
{
    let ghost v = PaneView { collapsed: collapsed@.to_set(), active };
    let mut entries: Vec<ChannelPaneEntry> = Vec::new();
    let mut i: usize = 0;
    while i < channels.len()
        invariant
            i <= channels@.len(),
            v == (PaneView { collapsed: collapsed@.to_set(), active }),
            entries@ == tree_rows(channels@, calls@, v, i as int),
        decreases channels@.len() - i,
    {
        let c = channels[i];
        let ghost before = entries@;
        if !matches!(c.kind, ChannelKind::Thread) && (matches!(c.kind, ChannelKind::Category) || !in_categories(
            channels,
            c.parent_id,
        )) {
            if !matches!(c.kind, ChannelKind::Category) {
                push_channel_pane_channel_entry(&mut entries, channels, calls, c, ChannelBranch::Root);
            } else {
                let children = select(channels, Pick::Children { category: c.id });
                if children.len() == 0 && !c.can_manage_structure {
                    assert(entries@ =~= before + root_rows(channels@, calls@, v, c));
                } else {
                    let closed = holds_channel(collapsed, c.id);
                    assert(closed == v.collapsed.contains(c.id));
                    entries.push(ChannelPaneEntry::CategoryHeader { channel_id: c.id, collapsed: closed });
                    let shown = if closed {
                        select(channels, Pick::VisibleChildren { category: c.id, active })
                    } else {
                        children
                    };
                    let ghost head = entries@;
                    let mut k: usize = 0;
                    assert(head =~= head + children_rows(channels@, calls@, shown@, 0));
                    while k < shown.len()
                        invariant
                            k <= shown@.len(),
                            entries@ == head + children_rows(channels@, calls@, shown@, k as int),
                        decreases shown@.len() - k,
                    {
                        let ghost more = entries@;
                        push_channel_pane_channel_entry(
                            &mut entries,
                            channels,
                            calls,
                            shown[k],
                            branch_at(k, shown.len()),
                        );
                        assert(entries@ =~= head + children_rows(channels@, calls@, shown@, k + 1));
                        k += 1;
                    }
                    assert(entries@ =~= before + root_rows(channels@, calls@, v, c));
                }
            }
        }
        i += 1;
    }
    entries
}

/// The rows of the private conversations, in the order in which they are shown.
pub fn direct_message_entries(channels: &Vec<PaneChannel>, calls: &Vec<VoiceParticipants>) -> (r: Vec<ChannelPaneEntry>)
    ensures
        r@ == direct_rows(channels@, calls@, channels@.len() as int),
{
    let mut entries: Vec<ChannelPaneEntry> = Vec::new();
    let mut i: usize = 0;
    while i < channels.len()
        invariant
            i <= channels@.len(),
            entries@ == direct_rows(channels@, calls@, i as int),
        decreases channels@.len() - i,
    {
        let c = channels[i];
        let ghost before = entries@;
        if !matches!(c.kind, ChannelKind::Thread) {
            entries.push(ChannelPaneEntry::Channel { channel_id: c.id, branch: ChannelBranch::Root });
            assert(entries@ =~= before + seq![ChannelPaneEntry::Channel { channel_id: c.id, branch: ChannelBranch::Root }]);
            push_call(&mut entries, calls, c.id, ChannelBranch::Root);
        }
        i += 1;
    }
    entries
}

/// The channels that a search goes through: those at the top and those in categories, whether collapsed
/// or not.
pub open spec fn search_list(channels: Seq<PaneChannel>, k: int) -> Seq<PaneChannel>
    decreases k,
{
    if k <= 0 {
        Seq::empty()
    } else {
        let c = channels[k - 1];
        let before = search_list(channels, k - 1);
        if !is_root(channels, c) {
            before
        } else if c.kind is Category {
            before + selection(channels, Pick::Children { category: c.id })
        } else {
            before.push(c)
        }
    }
}

pub fn channel_pane_search_channels(channels: &Vec<PaneChannel>) -> (r: Vec<PaneChannel>)
    ensures
        r@ == search_list(channels@, channels@.len() as int),
{
    let mut out: Vec<PaneChannel> = Vec::new();
    let mut i: usize = 0;
    while i < channels.len()
        invariant
            i <= channels@.len(),
            out@ == search_list(channels@, i as int),
        decreases channels@.len() - i,
    {
        let c = channels[i];
        let category = matches!(c.kind, ChannelKind::Category);
        if !matches!(c.kind, ChannelKind::Thread) && (category || !in_categories(channels, c.parent_id)) {
            if category {
                let mut children = select(channels, Pick::Children { category: c.id });
                out.append(&mut children);
            } else {
                out.push(c);
            }
        }
        i += 1;
    }
    out
}

/// How well a name matches what was typed: its kind of match, then its score, lower being better.
#[derive(Clone, Copy, Debug, PartialEq, Eq, Structural)]
pub struct MatchRank {
    pub quality: u64,
    pub score: u64,
}

/// The channels that match.
pub open spec fn matching(channels: Seq<PaneChannel>, ranks: Seq<Option<MatchRank>>) -> Seq<PaneChannel>
    decreases channels.len(),
{
    if channels.len() == 0 {
        Seq::empty()
    } else if matches_query(channels.last(), ranks[channels.len() - 1]) {
        matching(channels.drop_last(), ranks).push(channels.last())
    } else {
        matching(channels.drop_last(), ranks)
    }
}

pub open spec fn matches_query(c: PaneChannel, rank: Option<MatchRank>) -> bool {
    rank is Some && !(c.kind is Category) && (!(c.kind is Thread) || c.sidebar_active)
}

/// What the matching channels are sorted by.
pub open spec fn match_keys(channels: Seq<PaneChannel>, ranks: Seq<Option<MatchRank>>) -> Seq<Seq<u64>>
    decreases channels.len(),
{
    if channels.len() == 0 {
        Seq::empty()
    } else if matches_query(channels.last(), ranks[channels.len() - 1]) {
        let rank = ranks[channels.len() - 1]->0;
        match_keys(channels.drop_last(), ranks).push(seq![rank.quality, rank.score])
    } else {
        match_keys(channels.drop_last(), ranks)
    }
}

/// Whether rows are those of the channels that match, best first.
pub open spec fn are_best_matches(
    rows: Seq<ChannelPaneEntry>,
    searched: Seq<PaneChannel>,
    ranks: Seq<Option<MatchRank>>,
) -> bool {
    exists|order: Seq<usize>| #[trigger]
        is_order(match_keys(searched, ranks), matching(searched, ranks).len() as int, order) && rows == order.map_values(
            |i: usize| ChannelPaneEntry::Channel {
                channel_id: matching(searched, ranks)[i as int].id,
                branch: ChannelBranch::Root,
            },
        )
}

/// The rows of the channels that match what was typed, best first. `ranks` gives how well each of the
/// searched channels matches.
pub fn filtered_entries(searched: &Vec<PaneChannel>, ranks: &Vec<Option<MatchRank>>) -> (r: Vec<ChannelPaneEntry>)
    requires
        ranks@.len() == searched@.len(),
    ensures
        are_best_matches(r@, searched@, ranks@),
{
    let mut kept: Vec<PaneChannel> = Vec::new();
    let mut keys: Vec<Vec<u64>> = Vec::new();
    let mut i: usize = 0;
    assert(searched@.take(0) =~= Seq::<PaneChannel>::empty());
    assert(key_views(keys@) =~= Seq::<Seq<u64>>::empty());
    while i < searched.len()
        invariant
            ranks@.len() == searched@.len(),
            i <= searched@.len(),
            kept@ == matching(searched@.take(i as int), ranks@),
            key_views(keys@) == match_keys(searched@.take(i as int), ranks@),
            kept@.len() == keys@.len(),
        decreases searched@.len() - i,
    {
        assert(searched@.take(i + 1).drop_last() =~= searched@.take(i as int));
        let c = searched[i];
        if let Some(rank) = ranks[i] {
            if !matches!(c.kind, ChannelKind::Category) && (!matches!(c.kind, ChannelKind::Thread) || c.sidebar_active) {
                let ghost before = keys@;
                kept.push(c);
                let mut key: Vec<u64> = Vec::new();
                key.push(rank.quality);
                key.push(rank.score);
                assert(key@ =~= seq![rank.quality, rank.score]);
                keys.push(key);
                assert(key_views(keys@) =~= key_views(before).push(key@));
            }
        }
        i += 1;
    }
    assert(searched@.take(i as int) =~= searched@);
    let order = sorted_order(&keys);
    let ghost rows = order@.map_values(
        |k: usize| ChannelPaneEntry::Channel {
            channel_id: matching(searched@, ranks@)[k as int].id,
            branch: ChannelBranch::Root,
        },
    );
    let mut out: Vec<ChannelPaneEntry> = Vec::new();
    let mut j: usize = 0;
    while j < order.len()
        invariant
            j <= order@.len(),
            kept@ == matching(searched@, ranks@),
            is_order(match_keys(searched@, ranks@), kept@.len() as int, order@),
            rows == order@.map_values(
                |k: usize| ChannelPaneEntry::Channel {
                    channel_id: matching(searched@, ranks@)[k as int].id,
                    branch: ChannelBranch::Root,
                },
            ),
            out@ == rows.take(j as int),
        decreases order@.len() - j,
    {
        assert(order@[j as int] < kept@.len());
        out.push(ChannelPaneEntry::Channel { channel_id: kept[order[j]].id, branch: ChannelBranch::Root });
        assert(rows.take(j + 1) =~= rows.take(j as int).push(rows[j as int]));
        j += 1;
    }
    assert(out@ =~= rows);
    out
}

/// The rows of the channel pane while something is typed into its filter. Nothing but white space filters
/// nothing. `ranks` gives how well each of the searched channels matches.
pub fn channel_pane_filtered_entries(
    filter: &Option<PaneFilterState>,
    entries: Vec<ChannelPaneEntry>,
    searched: &Vec<PaneChannel>,
    ranks: &Vec<Option<MatchRank>>,
) -> (r: Vec<ChannelPaneEntry>)
    requires
        ranks@.len() == searched@.len(),
    ensures
        filter is None || all_space((filter->0)@.text()) ==> r == entries,
        filter is Some && !all_space((filter->0)@.text()) ==> are_best_matches(r@, searched@, ranks@),
{
    match filter {
        Some(filter) => if is_all_space(filter.query()) {
            entries
        } else {
            filtered_entries(searched, ranks)
        },
        None => entries,
    }
}

/// The first row at or behind `i` that can be selected, or the end.
pub open spec fn first_from(selectable: Seq<bool>, i: int) -> int
    decreases selectable.len() - i,
{
    if i >= selectable.len() || (0 <= i && selectable[i]) {
        i
    } else {
        first_from(selectable, i + 1)
    }
}

/// The last row before `i` that can be selected, or a negative number.
pub open spec fn last_before(selectable: Seq<bool>, i: int) -> int
    decreases i,
{
    if i <= 0 {
        -1
    } else if selectable[i - 1] {
        i - 1
    } else {
        last_before(selectable, i - 1)
    }
}

/// The row that the cursor comes to rest on near `index`: that row, or the next one in the preferred
/// direction, or else in the other.
pub open spec fn near(selectable: Seq<bool>, index: int, forward: bool) -> Option<usize> {
    if selectable.len() == 0 {
        None
    } else {
        let at = if index < selectable.len() { index } else { selectable.len() - 1 };
        let next = first_from(selectable, at);
        let previous = last_before(selectable, at);
        if selectable[at] {
            Some(at as usize)
        } else if forward {
            if next < selectable.len() {
                Some(next as usize)
            } else if previous >= 0 {
                Some(previous as usize)
            } else {
                None
            }
        } else if previous >= 0 {
            Some(previous as usize)
        } else if next < selectable.len() {
            Some(next as usize)
        } else {
            None
        }
    }
}

pub fn selectable_channel_index_near(selectable: &Vec<bool>, index: usize, prefer_forward: bool) -> (r: Option<usize>)
    ensures
        r == near(selectable@, index as int, prefer_forward),
{
    if selectable.len() == 0 {
        return None;
    }
    let at = if index < selectable.len() { index } else { selectable.len() - 1 };
    let mut next: usize = at;
    while next < selectable.len() && !selectable[next]
        invariant
            at <= next <= selectable@.len(),
            first_from(selectable@, at as int) == first_from(selectable@, next as int),
        decreases selectable@.len() - next,
    {
        next += 1;
    }
    let mut previous: usize = at;
    while previous > 0 && !selectable[previous - 1]
        invariant
            previous <= at < selectable@.len(),
            last_before(selectable@, at as int) == last_before(selectable@, previous as int),
        decreases previous,
    {
        previous -= 1;
    }
    if selectable[at] {
        return Some(at);
    }
    let ahead = if next < selectable.len() { Some(next) } else { None };
    let behind = if previous > 0 { Some(previous - 1) } else { None };
    if prefer_forward {
        match ahead {
            Some(i) => Some(i),
            None => behind,
        }
    } else {
        match behind {
            Some(i) => Some(i),
            None => ahead,
        }
    }
}

/// The cursor comes to rest on a row that can be selected, wherever there is one.
pub proof fn cursors_rest_on_selectable_rows(selectable: Seq<bool>, index: int, forward: bool, k: int)
    requires
        0 <= index,
        selectable.len() <= usize::MAX,
        0 <= k < selectable.len(),
        selectable[k],
    ensures
        near(selectable, index, forward) is Some,
        near(selectable, index, forward)->0 < selectable.len(),
        selectable[near(selectable, index, forward)->0 as int],
{
    let at = if index < selectable.len() { index } else { selectable.len() - 1 };
    lemma_first_from(selectable, at);
    lemma_last_before(selectable, at);
}

proof fn lemma_first_from(selectable: Seq<bool>, i: int)
    requires
        0 <= i <= selectable.len(),
    ensures
        i <= first_from(selectable, i) <= selectable.len(),
        first_from(selectable, i) < selectable.len() ==> selectable[first_from(selectable, i)],
        forall|k: int| i <= k < first_from(selectable, i) ==> !#[trigger] selectable[k],
    decreases selectable.len() - i,
{
    if i < selectable.len() && !selectable[i] {
        lemma_first_from(selectable, i + 1);
    }
}

proof fn lemma_last_before(selectable: Seq<bool>, i: int)
    requires
        0 <= i <= selectable.len(),
    ensures
        -1 <= last_before(selectable, i) < selectable.len(),
        last_before(selectable, i) < i,
        last_before(selectable, i) >= 0 ==> selectable[last_before(selectable, i)],
        forall|k: int| last_before(selectable, i) < k < i ==> !#[trigger] selectable[k],
    decreases i,
{
    if i > 0 && !selectable[i - 1] {
        lemma_last_before(selectable, i - 1);
    }
}

/// The last row that can be selected, or the first row.
pub fn last_selectable(selectable: &Vec<bool>) -> (r: usize)
    ensures
        r == (if last_before(selectable@, selectable@.len() as int) >= 0 {
            last_before(selectable@, selectable@.len() as int)
        } else {
            0
        }),
{
    let mut i: usize = selectable.len();
    while i > 0
        invariant
            i <= selectable@.len(),
            last_before(selectable@, selectable@.len() as int) == last_before(selectable@, i as int),
        decreases i,
    {
        if selectable[i - 1] {
            return i - 1;
        }
        i -= 1;
    }
    0
}

/// The nearest category above a row.
pub open spec fn category_above(entries: Seq<ChannelPaneEntry>, at: int) -> Option<ChannelId>
    decreases at,
{
    if at <= 0 {
        None
    } else {
        match entries[at - 1] {
            ChannelPaneEntry::CategoryHeader { channel_id, .. } => Some(channel_id),
            _ => category_above(entries, at - 1),
        }
    }
}

/// The category that a row belongs to.
pub open spec fn category_of(entries: Seq<ChannelPaneEntry>, selected: int) -> Option<ChannelId> {
    if 0 <= selected < entries.len() {
        match entries[selected] {
            ChannelPaneEntry::CategoryHeader { channel_id, .. } => Some(channel_id),
            ChannelPaneEntry::Channel { branch, .. } => if branch is Root {
                None
            } else {
                category_above(entries, selected)
            },
            ChannelPaneEntry::Thread { parent_branch, .. } => if parent_branch is Root {
                None
            } else {
                category_above(entries, selected)
            },
            ChannelPaneEntry::VoiceParticipant { parent_branch, .. } => if parent_branch is Root {
                None
            } else {
                category_above(entries, selected)
            },
        }
    } else {
        None
    }
}

pub fn preceding_category_id(entries: &Vec<ChannelPaneEntry>, selected: usize) -> (r: Option<ChannelId>)
    requires
        selected <= entries@.len(),
    ensures
        r == category_above(entries@, selected as int),
{
    let mut at: usize = selected;
    while at > 0
        invariant
            at <= selected <= entries@.len(),
            category_above(entries@, selected as int) == category_above(entries@, at as int),
        decreases at,
    {
        if let ChannelPaneEntry::CategoryHeader { channel_id, .. } = entries[at - 1] {
            return Some(channel_id);
        }
        at -= 1;
    }
    None
}

pub fn selected_channel_category_id(entries: &Vec<ChannelPaneEntry>, selected: usize) -> (r: Option<ChannelId>)
    ensures
        r == category_of(entries@, selected as int),
{
    if selected >= entries.len() {
        return None;
    }
    let branch = match entries[selected] {
        ChannelPaneEntry::CategoryHeader { channel_id, .. } => {
            return Some(channel_id);
        },
        ChannelPaneEntry::Channel { branch, .. } => branch,
        ChannelPaneEntry::Thread { parent_branch, .. } => parent_branch,
        ChannelPaneEntry::VoiceParticipant { parent_branch, .. } => parent_branch,
    };
    if branch.is_category_child() {
        preceding_category_id(entries, selected)
    } else {
        None
    }
}

/// What opening a row does.
#[derive(Clone, Copy, Debug, PartialEq, Eq, Structural)]
pub enum ChannelConfirm {
    ToggleCategory,
    Activate { channel_id: ChannelId },
    OpenActions,
    Nothing,
}

pub open spec fn confirmed_row(entries: Seq<ChannelPaneEntry>, selected: int) -> ChannelConfirm {
    if 0 <= selected < entries.len() {
        match entries[selected] {
            ChannelPaneEntry::CategoryHeader { .. } => ChannelConfirm::ToggleCategory,
            ChannelPaneEntry::Channel { channel_id, .. } => ChannelConfirm::Activate { channel_id },
            ChannelPaneEntry::Thread { channel_id, .. } => ChannelConfirm::Activate { channel_id },
            ChannelPaneEntry::VoiceParticipant { .. } => ChannelConfirm::OpenActions,
        }
    } else {
        ChannelConfirm::Nothing
    }
}

pub fn confirm_selected_channel(entries: &Vec<ChannelPaneEntry>, selected: usize) -> (r: ChannelConfirm)
    ensures
        r == confirmed_row(entries@, selected as int),
{
    if selected >= entries.len() {
        return ChannelConfirm::Nothing;
    }
    match entries[selected] {
        ChannelPaneEntry::CategoryHeader { .. } => ChannelConfirm::ToggleCategory,
        ChannelPaneEntry::Channel { channel_id, .. } => ChannelConfirm::Activate { channel_id },
        ChannelPaneEntry::Thread { channel_id, .. } => ChannelConfirm::Activate { channel_id },
        ChannelPaneEntry::VoiceParticipant { .. } => ChannelConfirm::OpenActions,
    }
}

/// Whether a row stands for the active channel.
pub fn is_active_channel_entry(entry: &ChannelPaneEntry, active: Option<ChannelId>) -> (r: bool)
    ensures
        r == (match *entry {
            ChannelPaneEntry::Channel { channel_id, .. } => active == Some(channel_id),
            ChannelPaneEntry::Thread { channel_id, .. } => active == Some(channel_id),
            _ => false,
        }),
{
    match *entry {
        ChannelPaneEntry::Channel { channel_id, .. } => same_id(active, channel_id),
        ChannelPaneEntry::Thread { channel_id, .. } => same_id(active, channel_id),
        _ => false,
    }
}

/// The first row of a channel, or the end.
pub open spec fn row_of_channel(entries: Seq<ChannelPaneEntry>, id: ChannelId) -> int
    decreases entries.len(),
{
    if entries.len() == 0 {
        0
    } else {
        let found = match entries[0] {
            ChannelPaneEntry::Channel { channel_id, .. } => channel_id == id,
            ChannelPaneEntry::Thread { channel_id, .. } => channel_id == id,
            _ => false,
        };
        if found {
            0
        } else {
            1 + row_of_channel(entries.drop_first(), id)
        }
    }
}

/// The row that the cursor goes back to.
pub fn restore_channel_cursor(entries: &Vec<ChannelPaneEntry>, selected: usize, channel: Option<ChannelId>) -> (r: usize)
    ensures
        r == (match channel {
            Some(id) => if row_of_channel(entries@, id) < entries@.len() {
                row_of_channel(entries@, id)
            } else {
                selected as int
            },
            None => selected as int,
        }),
{
    let id: ChannelId = match channel {
        Some(id) => id,
        None => {
            return selected;
        },
    };
    let mut i: usize = 0;
    assert(entries@.skip(0) =~= entries@);
    while i < entries.len()
        invariant
            i <= entries@.len(),
            channel == Some(id),
            row_of_channel(entries@, id) == i + row_of_channel(entries@.skip(i as int), id),
        decreases entries@.len() - i,
    {
        assert(entries@.skip(i as int)[0] == entries@[i as int]);
        assert(entries@.skip(i as int).drop_first() =~= entries@.skip(i + 1));
        let found = match entries[i] {
            ChannelPaneEntry::Channel { channel_id, .. } => channel_id == id,
            ChannelPaneEntry::Thread { channel_id, .. } => channel_id == id,
            _ => false,
        };
        if found {
            return i;
        }
        i += 1;
    }
    selected
}

/// What the cursor of the channel pane is on, by which it is found again when rows come and go.
#[derive(Clone, Copy, Debug, PartialEq, Eq, Structural)]
pub enum ChannelPaneCursor {
    Category(ChannelId),
    Channel(ChannelId),
    Thread(ChannelId),
    VoiceParticipant { channel_id: ChannelId, user_id: UserId },
}

impl ChannelPaneEntry {
    pub open spec fn place(self) -> ChannelPaneCursor {
        match self {
            ChannelPaneEntry::CategoryHeader { channel_id, .. } => ChannelPaneCursor::Category(channel_id),
            ChannelPaneEntry::Channel { channel_id, .. } => ChannelPaneCursor::Channel(channel_id),
            ChannelPaneEntry::Thread { channel_id, .. } => ChannelPaneCursor::Thread(channel_id),
            ChannelPaneEntry::VoiceParticipant { channel_id, user_id, .. } => ChannelPaneCursor::VoiceParticipant {
                channel_id,
                user_id,
            },
        }
    }

    pub fn cursor(&self) -> (r: ChannelPaneCursor)
        ensures
            r == self.place(),
    {
        match *self {
            ChannelPaneEntry::CategoryHeader { channel_id, .. } => ChannelPaneCursor::Category(channel_id),
            ChannelPaneEntry::Channel { channel_id, .. } => ChannelPaneCursor::Channel(channel_id),
            ChannelPaneEntry::Thread { channel_id, .. } => ChannelPaneCursor::Thread(channel_id),
            ChannelPaneEntry::VoiceParticipant { channel_id, user_id, .. } => ChannelPaneCursor::VoiceParticipant {
                channel_id,
                user_id,
            },
        }
    }
}

/// The first row that a cursor is on, or the end.
pub open spec fn row_of_cursor(entries: Seq<ChannelPaneEntry>, cursor: ChannelPaneCursor) -> int
    decreases entries.len(),
{
    if entries.len() == 0 || entries[0].place() == cursor {
        0
    } else {
        1 + row_of_cursor(entries.drop_first(), cursor)
    }
}

/// The row that the cursor goes back to: the one it was on, wherever that is now.
pub fn restore_channel_pane_cursor(
    entries: &Vec<ChannelPaneEntry>,
    selected: usize,
    cursor: Option<ChannelPaneCursor>,
) -> (r: usize)
    ensures
        r == (match cursor {
            Some(cursor) => if row_of_cursor(entries@, cursor) < entries@.len() {
                row_of_cursor(entries@, cursor)
            } else {
                selected as int
            },
            None => selected as int,
        }),
{
    let wanted: ChannelPaneCursor = match cursor {
        Some(wanted) => wanted,
        None => {
            return selected;
        },
    };
    let mut i: usize = 0;
    assert(entries@.skip(0) =~= entries@);
    while i < entries.len()
        invariant
            i <= entries@.len(),
            cursor == Some(wanted),
            row_of_cursor(entries@, wanted) == i + row_of_cursor(entries@.skip(i as int), wanted),
        decreases entries@.len() - i,
    {
        assert(entries@.skip(i as int)[0] == entries@[i as int]);
        assert(entries@.skip(i as int).drop_first() =~= entries@.skip(i + 1));
        if entries[i].cursor() == wanted {
            return i;
        }
        i += 1;
    }
    selected
}

/// The cursor stays on what it was on, of whatever kind that is, as long as there is a row for it.
pub proof fn cursors_follow_their_rows(entries: Seq<ChannelPaneEntry>, row: int)
    requires
        0 <= row < entries.len(),
    ensures
        ({
            let found = row_of_cursor(entries, entries[row].place());
            0 <= found <= row && entries[found].place() == entries[row].place()
        }),
    decreases row,
{
    if entries[0].place() != entries[row].place() {
        assert(entries.drop_first()[row - 1] == entries[row]);
        cursors_follow_their_rows(entries.drop_first(), row - 1);
        let found = row_of_cursor(entries.drop_first(), entries[row].place());
        assert(entries.drop_first()[found] == entries[found + 1]);
    }
}

/// A line of the channel pane: a row, or what the other side of a private conversation does.
#[derive(Clone, Copy, Debug, PartialEq, Eq, Structural)]
pub enum ChannelPaneRow {
    Entry { entry_index: usize },
    Activity { owner_entry_index: usize, recipient_id: UserId },
}

impl ChannelPaneRow {
    pub fn entry_index(&self) -> (r: usize)
        ensures
            r == (match *self {
                ChannelPaneRow::Entry { entry_index } => entry_index,
                ChannelPaneRow::Activity { owner_entry_index, .. } => owner_entry_index,
            }),
    {
        match *self {
            ChannelPaneRow::Entry { entry_index } => entry_index,
            ChannelPaneRow::Activity { owner_entry_index, .. } => owner_entry_index,
        }
    }

    pub fn is_entry(&self) -> (r: bool)
        ensures
            r == (*self is Entry),
    {
        matches!(*self, ChannelPaneRow::Entry { .. })
    }
}

/// The other side of a conversation, as far as a line below it depends on it.
#[derive(Clone, Copy, Debug, PartialEq, Eq, Structural)]
pub struct RecipientActivity {
    pub recipient_id: UserId,
    pub status: PresenceStatus,
    pub has_activity: bool,
}

pub open spec fn shows_activity(kind: ChannelKind, recipient: Option<RecipientActivity>) -> bool {
    match recipient {
        Some(r) => kind is DirectMessage && !(r.status is Offline) && !(r.status is Unknown) && r.has_activity,
        None => false,
    }
}

/// The lines of the first `k` rows.
pub open spec fn pane_rows(kinds: Seq<ChannelKind>, recipients: Seq<Option<RecipientActivity>>, k: int) -> Seq<
    ChannelPaneRow,
>
    decreases k,
{
    if k <= 0 {
        Seq::empty()
    } else {
        let rows = pane_rows(kinds, recipients, k - 1).push(ChannelPaneRow::Entry { entry_index: (k - 1) as usize });
        if shows_activity(kinds[k - 1], recipients[k - 1]) {
            rows.push(
                ChannelPaneRow::Activity {
                    owner_entry_index: (k - 1) as usize,
                    recipient_id: recipients[k - 1]->0.recipient_id,
                },
            )
        } else {
            rows
        }
    }
}

/// The lines of the channel pane. For each row, `kinds` has the kind of its channel, and `recipients` the
/// other side of a private conversation.
pub fn channel_pane_rows_from_entries(kinds: &Vec<ChannelKind>, recipients: &Vec<Option<RecipientActivity>>) -> (r: Vec<
    ChannelPaneRow,
>)
    requires
        recipients@.len() == kinds@.len(),
    ensures
        r@ == pane_rows(kinds@, recipients@, kinds@.len() as int),
{
    let mut rows: Vec<ChannelPaneRow> = Vec::new();
    let mut i: usize = 0;
    while i < kinds.len()
        invariant
            recipients@.len() == kinds@.len(),
            i <= kinds@.len(),
            rows@ == pane_rows(kinds@, recipients@, i as int),
        decreases kinds@.len() - i,
    {
        rows.push(ChannelPaneRow::Entry { entry_index: i });
        if let Some(recipient) = recipients[i] {
            if matches!(kinds[i], ChannelKind::DirectMessage) && !matches!(recipient.status, PresenceStatus::Offline)
                && !matches!(recipient.status, PresenceStatus::Unknown) && recipient.has_activity {
                rows.push(ChannelPaneRow::Activity { owner_entry_index: i, recipient_id: recipient.recipient_id });
            }
        }
        i += 1;
    }
    rows
}

/// A collapsed category hides nothing that is active or unread.
pub proof fn unread_channels_stay_visible(channels: Seq<PaneChannel>, category: ChannelId, active: Option<ChannelId>, k: int)
    requires
        0 <= k < channels.len(),
        is_child(channels[k], category),
        active == Some(channels[k].id) || channels[k].unread,
    ensures
        selection(channels, Pick::VisibleChildren { category, active }).contains(channels[k]),
    decreases channels.len(),
{
    let pick = Pick::VisibleChildren { category, active };
    let all = selection(channels, pick);
    if k == channels.len() - 1 {
        assert(all[all.len() - 1] == channels[k]);
    } else {
        unread_channels_stay_visible(channels.drop_last(), category, active, k);
        let rest = selection(channels.drop_last(), pick);
        let i = choose|i: int| 0 <= i < rest.len() && rest[i] == channels[k];
        assert(all[i] == channels[k]);
    }
}

} // verus!
