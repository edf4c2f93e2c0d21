//! What stands in the lists of channels and members, and in which order.

use crate::ids::{ChannelId, UserId};
use crate::state::channel_pane::{
    are_best_matches, channel_rows, children_rows, direct_rows, in_call, match_keys, matching, picked, root_rows,
    selection, thread_rows, tree_rows, MatchRank, PaneChannel, PaneView, Pick, VoiceParticipants,
};
use crate::state::member_grouping::{ordered_members, thread_member_keys, GuildMemberState, MemberView, PresenceStatus};
use crate::state::model::{ChannelBranch, ChannelPaneEntry};
use crate::state::sorting::{comes_before, is_order, key_less, orders_list_every_item};
use crate::unicode::lowercase;
use vstd::prelude::*;

verus! {

// ---- Places in a list ----

/// Whether these are the places of all items of a list that are wanted, in their order.
pub open spec fn are_places(places: Seq<int>, wanted: spec_fn(int) -> bool, n: int) -> bool {
    &&& forall|k: int| 0 <= k < places.len() ==> 0 <= #[trigger] places[k] < n && wanted(places[k])
    &&& forall|k: int, l: int| #![trigger places[k], places[l]] 0 <= k < l < places.len() ==> places[k] < places[l]
    &&& forall|i: int| 0 <= i < n && #[trigger] wanted(i) ==> places.contains(i)
}

pub(crate) proof fn lemma_places_push(places: Seq<int>, wanted: spec_fn(int) -> bool, n: int)
    requires
        are_places(places, wanted, n),
        n >= 0,
    ensures
        wanted(n) ==> are_places(places.push(n), wanted, n + 1),
        !wanted(n) ==> are_places(places, wanted, n + 1),
{
    let more = places.push(n);
    if wanted(n) {
        assert forall|i: int| 0 <= i < n + 1 && #[trigger] wanted(i) implies more.contains(i) by {
            if i < n {
                assert(places.contains(i));
                let k = choose|k: int| 0 <= k < places.len() && places[k] == i;
                assert(more[k] == i);
            } else {
                assert(more[places.len() as int] == i);
            }
        }
    }
}

// ---- Members of a thread ----

/// Whether a text stands before another in the alphabet: by the first character that differs, and a text before its
/// extensions.
pub open spec fn precedes(a: Seq<char>, b: Seq<char>) -> bool {
    exists|k: int| #[trigger] differ_at(a, b, k)
}

pub open spec fn differ_at(a: Seq<char>, b: Seq<char>, k: int) -> bool {
    &&& 0 <= k <= a.len() && k < b.len()
    &&& a.take(k) == b.take(k)
    &&& k < a.len() ==> a[k] < b[k]
}

proof fn lemma_code(c: char)
    ensures
        (c as u64) as int == c as int,
{
}

proof fn lemma_precedes(a: Seq<char>, b: Seq<char>)
    requires
        key_less(a.map_values(|c: char| c as u64), b.map_values(|c: char| c as u64)),
    ensures
        precedes(a, b),
    decreases a.len(),
{
    let f = |c: char| c as u64;
    if a.len() == 0 {
        assert(a.take(0) =~= b.take(0));
        assert(differ_at(a, b, 0));
    } else if a[0] != b[0] {
        lemma_code(a[0]);
        lemma_code(b[0]);
        assert(a.map_values(f)[0] == a[0] as u64 && b.map_values(f)[0] == b[0] as u64);
        assert(a.take(0) =~= b.take(0));
        assert(differ_at(a, b, 0));
    } else {
        assert(a.map_values(f).drop_first() =~= a.drop_first().map_values(f));
        assert(b.map_values(f).drop_first() =~= b.drop_first().map_values(f));
        lemma_precedes(a.drop_first(), b.drop_first());
        let k = choose|k: int| #[trigger] differ_at(a.drop_first(), b.drop_first(), k);
        assert(a.take(k + 1) =~= seq![a[0]] + a.drop_first().take(k));
        assert(b.take(k + 1) =~= seq![b[0]] + b.drop_first().take(k));
        assert(differ_at(a, b, k + 1));
    }
}

/// Whether a presence stands before another.
pub open spec fn is_more_present(a: PresenceStatus, b: PresenceStatus) -> bool {
    match a {
        PresenceStatus::Online => !(b is Online),
        PresenceStatus::Idle => b is DoNotDisturb || b is Offline || b is Unknown,
        PresenceStatus::DoNotDisturb => b is Offline || b is Unknown,
        PresenceStatus::Offline => b is Unknown,
        PresenceStatus::Unknown => false,
    }
}

/// The members of a thread: each of them once, those online first, then those who are idle, do not want to be
/// disturbed, are offline or unknown, and the equally present by name without regard to case.
pub proof fn thread_members_stand_in_order(members: Seq<GuildMemberState>, order: Seq<usize>)
    requires
        is_order(thread_member_keys(members), members.len() as int, order),
    ensures
        ({
            let shown = ordered_members(members, order);
            &&& shown.len() == members.len()
            &&& forall|m: int|
                0 <= m < members.len() ==> exists|i: int|
                    0 <= i < shown.len() && order[i] == m && #[trigger] shown[i] == MemberView::Guild(#[trigger] members[m])
            &&& forall|i: int, j: int|
                #![trigger shown[i], shown[j]]
                0 <= i < j < shown.len() ==> shown[i] is Guild && shown[j] is Guild && {
                    let (a, b) = (shown[i]->Guild_0, shown[j]->Guild_0);
                    ||| is_more_present(a.status, b.status)
                    ||| a.status == b.status && precedes(lowercase(a.display_name@), lowercase(b.display_name@))
                    ||| a.status == b.status && lowercase(a.display_name@) == lowercase(b.display_name@) && order[i]
                        < order[j]
                }
        }),
{
    let keys = thread_member_keys(members);
    let shown = ordered_members(members, order);
    assert forall|m: int| 0 <= m < members.len() implies exists|i: int|
        0 <= i < shown.len() && order[i] == m && #[trigger] shown[i] == MemberView::Guild(#[trigger] members[m]) by {
        orders_list_every_item(keys, members.len() as int, order, m);
        let i = choose|i: int| 0 <= i < members.len() && #[trigger] order[i] == m;
        assert(shown[i] == MemberView::Guild(members[m]));
    }
    assert forall|i: int, j: int| #![trigger shown[i], shown[j]] 0 <= i < j < shown.len() implies shown[i] is Guild
        && shown[j] is Guild && {
        let (a, b) = (shown[i]->Guild_0, shown[j]->Guild_0);
        ||| is_more_present(a.status, b.status)
        ||| a.status == b.status && precedes(lowercase(a.display_name@), lowercase(b.display_name@))
        ||| a.status == b.status && lowercase(a.display_name@) == lowercase(b.display_name@) && order[i] < order[j]
    } by {
        let (a, b) = (members[order[i] as int], members[order[j] as int]);
        let f = |c: char| c as u64;
        let (x, y) = (lowercase(a.display_name@), lowercase(b.display_name@));
        let (s, t) = (keys[order[i] as int], keys[order[j] as int]);
        assert(comes_before(keys, order[i] as int, order[j] as int));
        assert(s.drop_first() =~= x.map_values(f));
        assert(t.drop_first() =~= y.map_values(f));
        if s[0] == t[0] {
            assert(a.status == b.status);
            if key_less(s, t) {
                assert(key_less(s.drop_first(), t.drop_first()));
                lemma_precedes(x, y);
            } else {
                assert(x.map_values(f) == y.map_values(f));
                assert forall|k: int| 0 <= k < x.len() implies x[k] == y[k] by {
                    lemma_code(x[k]);
                    lemma_code(y[k]);
                    assert(x.map_values(f).len() == y.map_values(f).len());
                    assert(x.map_values(f)[k] == y.map_values(f)[k]);
                }
                assert(x.map_values(f).len() == y.map_values(f).len());
                assert(x =~= y);
            }
        }
    }
}

// ---- The channels that match ----

/// Whether a channel is found: it matches, it is no category, and if it is a thread, it is active and joined.
pub open spec fn is_found(searched: Seq<PaneChannel>, ranks: Seq<Option<MatchRank>>, i: int) -> bool {
    ranks[i] is Some && !(searched[i].kind is Category) && (searched[i].kind is Thread ==> searched[i].sidebar_active)
}

proof fn lemma_matching(searched: Seq<PaneChannel>, ranks: Seq<Option<MatchRank>>) -> (places: Seq<int>)
    requires
        ranks.len() >= searched.len(),
    ensures
        are_places(places, |i: int| is_found(searched, ranks, i), searched.len() as int),
        matching(searched, ranks).len() == places.len(),
        match_keys(searched, ranks).len() == places.len(),
        forall|k: int|
            0 <= k < places.len() ==> matching(searched, ranks)[k] == searched[#[trigger] places[k]] && match_keys(
                searched,
                ranks,
            )[k] == seq![(ranks[places[k]]->0).quality, (ranks[places[k]]->0).score],
    decreases searched.len(),
{
    let wanted = |i: int| is_found(searched, ranks, i);
    if searched.len() == 0 {
        seq![]
    } else {
        let rest = searched.drop_last();
        let n = rest.len() as int;
        let front = lemma_matching(rest, ranks);
        let before = |i: int| is_found(rest, ranks, i);
        assert forall|i: int| 0 <= i < n implies #[trigger] wanted(i) == before(i) by {
            assert(rest[i] == searched[i]);
        }
        assert(are_places(front, wanted, n)) by {
            assert forall|i: int| 0 <= i < n && #[trigger] wanted(i) implies front.contains(i) by {
                assert(before(i));
            }
            assert forall|k: int| 0 <= k < front.len() implies 0 <= #[trigger] front[k] < n && wanted(front[k]) by {
                assert(before(front[k]));
            }
        }
        lemma_places_push(front, wanted, n);
        assert forall|k: int| 0 <= k < front.len() implies matching(searched, ranks)[k] == searched[#[trigger] front[k]] by {
            assert(rest[front[k]] == searched[front[k]]);
        }
        if wanted(n) {
            front.push(n)
        } else {
            front
        }
    }
}

/// The rows of the channels that match: all of them, each once, by the kind of their match, then by their score, then
/// by their place. `found` gives the places of the channels.
pub proof fn the_best_matches_stand_first(
    rows: Seq<ChannelPaneEntry>,
    searched: Seq<PaneChannel>,
    ranks: Seq<Option<MatchRank>>,
) -> (found: Seq<int>)
    requires
        are_best_matches(rows, searched, ranks),
        ranks.len() == searched.len(),
    ensures
        found.len() == rows.len(),
        found.no_duplicates(),
        forall|i: int| 0 <= i < searched.len() && #[trigger] is_found(searched, ranks, i) ==> found.contains(i),
        forall|k: int|
            0 <= k < found.len() ==> 0 <= #[trigger] found[k] < searched.len() && is_found(searched, ranks, found[k])
                && rows[k] == (ChannelPaneEntry::Channel {
                channel_id: searched[found[k]].id,
                branch: ChannelBranch::Root,
            }),
        forall|k: int, l: int|
            #![trigger found[k], found[l]]
            0 <= k < l < found.len() ==> {
                let (a, b) = (ranks[found[k]]->0, ranks[found[l]]->0);
                ||| a.quality < b.quality
                ||| a.quality == b.quality && a.score < b.score
                ||| a == b && found[k] < found[l]
            },
{
    let some = matching(searched, ranks);
    let keys = match_keys(searched, ranks);
    let order = choose|order: Seq<usize>| #[trigger]
        is_order(keys, some.len() as int, order) && rows == order.map_values(
            |i: usize| ChannelPaneEntry::Channel { channel_id: some[i as int].id, branch: ChannelBranch::Root },
        );
    let places = lemma_matching(searched, ranks);
    let found = Seq::new(order.len(), |k: int| places[order[k] as int]);
    let wanted = |i: int| is_found(searched, ranks, i);
    assert forall|k: int| 0 <= k < found.len() implies 0 <= #[trigger] found[k] < searched.len() && is_found(
        searched,
        ranks,
        found[k],
    ) && rows[k] == (ChannelPaneEntry::Channel { channel_id: searched[found[k]].id, branch: ChannelBranch::Root }) by {
        assert(order[k] < some.len());
        assert(wanted(places[order[k] as int]));
        assert(some[order[k] as int] == searched[places[order[k] as int]]);
    }
    assert forall|i: int| 0 <= i < searched.len() && #[trigger] is_found(searched, ranks, i) implies found.contains(i) by {
        assert(wanted(i));
        let p = choose|p: int| 0 <= p < places.len() && places[p] == i;
        orders_list_every_item(keys, some.len() as int, order, p);
        let k = choose|k: int| 0 <= k < some.len() && #[trigger] order[k] == p;
        assert(found[k] == i);
    }
    assert forall|k: int, l: int| 0 <= k < found.len() && 0 <= l < found.len() && k != l implies found[k] != found[l] by {
        assert(order[k] != order[l]);
        let (p, q) = (order[k] as int, order[l] as int);
        assert(order[k] < some.len() && order[l] < some.len());
        if p < q {
            assert(places[p] < places[q]);
        } else {
            assert(places[q] < places[p]);
        }
    }
    assert forall|k: int, l: int| #![trigger found[k], found[l]] 0 <= k < l < found.len() implies {
        let (a, b) = (ranks[found[k]]->0, ranks[found[l]]->0);
        ||| a.quality < b.quality
        ||| a.quality == b.quality && a.score < b.score
        ||| a == b && found[k] < found[l]
    } by {
        let (p, q) = (order[k] as int, order[l] as int);
        assert(order[k] < some.len() && order[l] < some.len());
        assert(comes_before(keys, p, q));
        let (a, b) = (ranks[found[k]]->0, ranks[found[l]]->0);
        assert(keys[p] == seq![a.quality, a.score]) by {
            assert(places[p] == found[k]);
        }
        assert(keys[q] == seq![b.quality, b.score]) by {
            assert(places[q] == found[l]);
        }
        reveal_with_fuel(key_less, 3);
        if keys[p] == keys[q] {
            assert(seq![a.quality, a.score][0] == seq![b.quality, b.score][0]);
            assert(seq![a.quality, a.score][1] == seq![b.quality, b.score][1]);
            assert(p < q || key_less(keys[p], keys[q]));
            assert(places[p] < places[q]);
        }
    }
    found
}

// ---- The tree of channels ----

pub(crate) proof fn lemma_selection(channels: Seq<PaneChannel>, pick: Pick) -> (places: Seq<int>)
    ensures
        are_places(places, |i: int| picked(pick, channels[i]), channels.len() as int),
        selection(channels, pick).len() == places.len(),
        forall|k: int| 0 <= k < places.len() ==> selection(channels, pick)[k] == channels[#[trigger] places[k]],
    decreases channels.len(),
{
    let wanted = |i: int| picked(pick, channels[i]);
    if channels.len() == 0 {
        seq![]
    } else {
        let rest = channels.drop_last();
        let n = rest.len() as int;
        let front = lemma_selection(rest, pick);
        let before = |i: int| picked(pick, rest[i]);
        assert forall|i: int| 0 <= i < n implies #[trigger] wanted(i) == before(i) by {
            assert(rest[i] == channels[i]);
        }
        assert(are_places(front, wanted, n)) by {
            assert forall|i: int| 0 <= i < n && #[trigger] wanted(i) implies front.contains(i) by {
                assert(before(i));
            }
            assert forall|k: int| 0 <= k < front.len() implies 0 <= #[trigger] front[k] < n && wanted(front[k]) by {
                assert(before(front[k]));
            }
        }
        lemma_places_push(front, wanted, n);
        assert forall|k: int| 0 <= k < front.len() implies selection(channels, pick)[k] == channels[#[trigger] front[k]] by {
            assert(rest[front[k]] == channels[front[k]]);
        }
        if wanted(n) {
            front.push(n)
        } else {
            front
        }
    }
}

/// Whether rows are those of a channel: itself, below it the threads that are active and joined, in their order, and
/// for a voice channel those in its call.
pub open spec fn is_block(
    rows: Seq<ChannelPaneEntry>,
    channels: Seq<PaneChannel>,
    calls: Seq<VoiceParticipants>,
    c: PaneChannel,
    branch: ChannelBranch,
) -> bool {
    exists|threads: Seq<int>| #[trigger] is_block_with(rows, channels, calls, c, branch, threads)
}

pub open spec fn is_block_with(
    rows: Seq<ChannelPaneEntry>,
    channels: Seq<PaneChannel>,
    calls: Seq<VoiceParticipants>,
    c: PaneChannel,
    branch: ChannelBranch,
    threads: Seq<int>,
) -> bool {
    let users = if c.kind is Voice { in_call(calls, c.id) } else { Seq::<UserId>::empty() };
    let n = threads.len() as int;
    &&& are_places(
        threads,
        |i: int| channels[i].sidebar_active && channels[i].parent_id == Some(c.id),
        channels.len() as int,
    )
    &&& rows.len() == 1 + n + users.len()
    &&& rows[0] == (ChannelPaneEntry::Channel { channel_id: c.id, branch })
    &&& forall|k: int|
        0 <= k < n ==> #[trigger] rows[1 + k] == (ChannelPaneEntry::Thread {
            channel_id: channels[threads[k]].id,
            parent_branch: branch,
            branch: if k == n - 1 {
                ChannelBranch::Last
            } else {
                ChannelBranch::Middle
            },
        })
    &&& forall|k: int|
        0 <= k < users.len() ==> #[trigger] rows[1 + n + k] == (ChannelPaneEntry::VoiceParticipant {
            channel_id: c.id,
            user_id: users[k],
            parent_branch: branch,
        })
}

proof fn lemma_block(channels: Seq<PaneChannel>, calls: Seq<VoiceParticipants>, c: PaneChannel, branch: ChannelBranch)
    ensures
        is_block(channel_rows(channels, calls, c, branch), channels, calls, c, branch),
{
    let rows = channel_rows(channels, calls, c, branch);
    let pick = Pick::Threads { parent: c.id };
    let threads = lemma_selection(channels, pick);
    let wanted = |i: int| channels[i].sidebar_active && channels[i].parent_id == Some(c.id);
    let own = |i: int| picked(pick, channels[i]);
    assert forall|i: int| #[trigger] wanted(i) == own(i) by {}
    assert(are_places(threads, wanted, channels.len() as int)) by {
        assert forall|i: int| 0 <= i < channels.len() && #[trigger] wanted(i) implies threads.contains(i) by {
            assert(own(i));
        }
        assert forall|k: int| 0 <= k < threads.len() implies 0 <= #[trigger] threads[k] < channels.len() && wanted(
            threads[k],
        ) by {
            assert(own(threads[k]));
        }
    }
    let some = selection(channels, pick);
    let n = threads.len() as int;
    assert forall|k: int| 0 <= k < n implies #[trigger] rows[1 + k] == (ChannelPaneEntry::Thread {
        channel_id: channels[threads[k]].id,
        parent_branch: branch,
        branch: if k == n - 1 {
            ChannelBranch::Last
        } else {
            ChannelBranch::Middle
        },
    }) by {
        assert(rows[1 + k] == thread_rows(some, branch)[k]);
        assert(some[k] == channels[threads[k]]);
    }
    assert(is_block_with(rows, channels, calls, c, branch, threads));
}

/// Whether rows are those of some channels, one below the other, the last one marked so.
pub open spec fn are_blocks(
    rows: Seq<ChannelPaneEntry>,
    cuts: Seq<int>,
    channels: Seq<PaneChannel>,
    calls: Seq<VoiceParticipants>,
    children: Seq<PaneChannel>,
) -> bool {
    &&& cuts.len() == children.len() + 1
    &&& cuts[0] == 0
    &&& cuts[children.len() as int] == rows.len()
    &&& forall|k: int| 0 <= k < children.len() ==> #[trigger] is_child_block(rows, cuts, channels, calls, children, k)
}

pub open spec fn is_child_block(
    rows: Seq<ChannelPaneEntry>,
    cuts: Seq<int>,
    channels: Seq<PaneChannel>,
    calls: Seq<VoiceParticipants>,
    children: Seq<PaneChannel>,
    k: int,
) -> bool {
    &&& 0 <= cuts[k] <= cuts[k + 1] <= rows.len()
    &&& is_block(
        rows.subrange(cuts[k], cuts[k + 1]),
        channels,
        calls,
        children[k],
        if k == children.len() - 1 {
            ChannelBranch::Last
        } else {
            ChannelBranch::Middle
        },
    )
}

proof fn lemma_blocks(
    channels: Seq<PaneChannel>,
    calls: Seq<VoiceParticipants>,
    children: Seq<PaneChannel>,
    n: int,
) -> (cuts: Seq<int>)
    requires
        0 <= n <= children.len(),
    ensures
        ({
            let rows = children_rows(channels, calls, children, n);
            &&& cuts.len() == n + 1
            &&& cuts[0] == 0
            &&& cuts[n] == rows.len()
            &&& forall|k: int| 0 <= k < n ==> #[trigger] is_child_block(rows, cuts, channels, calls, children, k)
        }),
    decreases n,
{
    if n == 0 {
        seq![0]
    } else {
        let front = lemma_blocks(channels, calls, children, n - 1);
        let before = children_rows(channels, calls, children, n - 1);
        let rows = children_rows(channels, calls, children, n);
        let cuts = front.push(rows.len() as int);
        let branch = if n - 1 == children.len() - 1 { ChannelBranch::Last } else { ChannelBranch::Middle };
        lemma_block(channels, calls, children[n - 1], branch);
        assert forall|k: int| 0 <= k < n implies #[trigger] is_child_block(rows, cuts, channels, calls, children, k) by {
            if k < n - 1 {
                assert(is_child_block(before, front, channels, calls, children, k));
                assert(rows.subrange(cuts[k], cuts[k + 1]) =~= before.subrange(front[k], front[k + 1]));
            } else {
                assert(rows.subrange(cuts[k], cuts[k + 1]) =~= channel_rows(channels, calls, children[n - 1], branch));
            }
        }
        cuts
    }
}

/// The channels of a category that are shown: all of them, in their order, or, where it is collapsed, those that are
/// unread and the active one.
pub open spec fn are_shown_children(
    children: Seq<int>,
    channels: Seq<PaneChannel>,
    category: PaneChannel,
    collapsed: bool,
    active: Option<ChannelId>,
) -> bool {
    are_places(
        children,
        |i: int|
            !(channels[i].kind is Thread) && !(channels[i].kind is Category) && channels[i].parent_id == Some(category.id) && (
            collapsed ==> channels[i].unread || active == Some(channels[i].id)),
        channels.len() as int,
    )
}

/// The channels at some places.
pub open spec fn at_places(channels: Seq<PaneChannel>, places: Seq<int>) -> Seq<PaneChannel> {
    places.map_values(|i: int| channels[i])
}

/// Whether rows are those of a category: its heading, and below it its channels.
pub open spec fn is_category_block(
    rows: Seq<ChannelPaneEntry>,
    channels: Seq<PaneChannel>,
    calls: Seq<VoiceParticipants>,
    v: PaneView,
    c: PaneChannel,
) -> bool {
    let collapsed = v.collapsed.contains(c.id);
    exists|children: Seq<int>, cuts: Seq<int>| #[trigger]
        are_shown_children(children, channels, c, collapsed, v.active) && rows.len() > 0 && rows[0] == (
        ChannelPaneEntry::CategoryHeader { channel_id: c.id, collapsed }) && #[trigger] are_blocks(
            rows.skip(1),
            cuts,
            channels,
            calls,
            at_places(channels, children),
        )
}

/// Whether a channel is in a category.
pub open spec fn is_in_category(channels: Seq<PaneChannel>, c: PaneChannel) -> bool {
    exists|i: int| 0 <= i < channels.len() && (#[trigger] channels[i]).kind is Category && c.parent_id == Some(channels[i].id)
}

/// Whether a category has channels.
pub open spec fn has_children(channels: Seq<PaneChannel>, c: PaneChannel) -> bool {
    exists|i: int|
        0 <= i < channels.len() && !((#[trigger] channels[i]).kind is Thread) && !(channels[i].kind is Category)
            && channels[i].parent_id == Some(c.id)
}

/// Whether the rows between two cuts are what a channel of the list adds to it. A thread and a channel in a category
/// are shown below another; a category without channels is shown to those who can fill it.
pub open spec fn is_share(
    rows: Seq<ChannelPaneEntry>,
    cuts: Seq<int>,
    channels: Seq<PaneChannel>,
    calls: Seq<VoiceParticipants>,
    v: PaneView,
    k: int,
) -> bool {
    let c = channels[k];
    let share = rows.subrange(cuts[k], cuts[k + 1]);
    &&& 0 <= cuts[k] <= cuts[k + 1] <= rows.len()
    &&& c.kind is Thread || !(c.kind is Category) && is_in_category(channels, c) ==> share.len() == 0
    &&& !(c.kind is Thread) && !(c.kind is Category) && !is_in_category(channels, c) ==> is_block(
        share,
        channels,
        calls,
        c,
        ChannelBranch::Root,
    )
    &&& c.kind is Category && !has_children(channels, c) && !c.can_manage_structure ==> share.len() == 0
    &&& c.kind is Category && (has_children(channels, c) || c.can_manage_structure) ==> is_category_block(
        share,
        channels,
        calls,
        v,
        c,
    )
}

proof fn lemma_category(channels: Seq<PaneChannel>, calls: Seq<VoiceParticipants>, v: PaneView, c: PaneChannel)
    requires
        c.kind is Category,
    ensures
        ({
            let share = root_rows(channels, calls, v, c);
            &&& !has_children(channels, c) && !c.can_manage_structure ==> share.len() == 0
            &&& has_children(channels, c) || c.can_manage_structure ==> is_category_block(share, channels, calls, v, c)
        }),
{
    let collapsed = v.collapsed.contains(c.id);
    let all = lemma_selection(channels, Pick::Children { category: c.id });
    let own_all = |i: int| picked(Pick::Children { category: c.id }, channels[i]);
    let children = selection(channels, Pick::Children { category: c.id });
    assert(has_children(channels, c) == (children.len() > 0)) by {
        if has_children(channels, c) {
            let i = choose|i: int|
                0 <= i < channels.len() && !((#[trigger] channels[i]).kind is Thread) && !(channels[i].kind is Category)
                    && channels[i].parent_id == Some(c.id);
            assert(own_all(i));
            assert(all.contains(i));
        }
        if children.len() > 0 {
            assert(own_all(all[0]));
            assert(0 <= all[0] < channels.len());
            let first = channels[all[0]];
            assert(!(first.kind is Thread) && !(first.kind is Category) && first.parent_id == Some(c.id));
        }
    }
    if children.len() > 0 || c.can_manage_structure {
        let pick = if collapsed {
            Pick::VisibleChildren { category: c.id, active: v.active }
        } else {
            Pick::Children { category: c.id }
        };
        let shown = selection(channels, pick);
        let places = lemma_selection(channels, pick);
        let wanted = |i: int|
            !(channels[i].kind is Thread) && !(channels[i].kind is Category) && channels[i].parent_id == Some(c.id) && (
            collapsed ==> channels[i].unread || v.active == Some(channels[i].id));
        let own = |i: int| picked(pick, channels[i]);
        assert forall|i: int| #[trigger] wanted(i) == own(i) by {}
        assert(are_places(places, wanted, channels.len() as int)) by {
            assert forall|i: int| 0 <= i < channels.len() && #[trigger] wanted(i) implies places.contains(i) by {
                assert(own(i));
            }
            assert forall|k: int| 0 <= k < places.len() implies 0 <= #[trigger] places[k] < channels.len() && wanted(
                places[k],
            ) by {
                assert(own(places[k]));
            }
        }
        assert(are_shown_children(places, channels, c, collapsed, v.active));
        let named = at_places(channels, places);
        assert(named =~= shown) by {
            assert forall|k: int| 0 <= k < shown.len() implies named[k] == shown[k] by {
                assert(shown[k] == channels[places[k]]);
            }
        }
        let cuts = lemma_blocks(channels, calls, shown, shown.len() as int);
        let share = root_rows(channels, calls, v, c);
        assert(share.skip(1) =~= children_rows(channels, calls, shown, shown.len() as int));
        assert(are_blocks(share.skip(1), cuts, channels, calls, named));
    }
}

/// The tree of channels: the channels at the top in their order, each category with its channels below it, and below
/// each channel its threads and those in its call.
pub proof fn channels_stand_in_their_tree(channels: Seq<PaneChannel>, calls: Seq<VoiceParticipants>, v: PaneView, n: int) -> (cuts:
    Seq<int>)
    requires
        0 <= n <= channels.len(),
    ensures
        ({
            let rows = tree_rows(channels, calls, v, n);
            &&& cuts.len() == n + 1
            &&& cuts[0] == 0
            &&& cuts[n] == rows.len()
            &&& forall|k: int| 0 <= k < n ==> #[trigger] is_share(rows, cuts, channels, calls, v, k)
        }),
    decreases n,
{
    if n == 0 {
        seq![0]
    } else {
        let front = channels_stand_in_their_tree(channels, calls, v, n - 1);
        let before = tree_rows(channels, calls, v, n - 1);
        let rows = tree_rows(channels, calls, v, n);
        let cuts = front.push(rows.len() as int);
        let c = channels[n - 1];
        assert forall|k: int| 0 <= k < n implies #[trigger] is_share(rows, cuts, channels, calls, v, k) by {
            if k < n - 1 {
                assert(is_share(before, front, channels, calls, v, k));
                assert(rows.subrange(cuts[k], cuts[k + 1]) =~= before.subrange(front[k], front[k + 1]));
            } else {
                lemma_share(channels, calls, v, n, rows.subrange(cuts[k], cuts[k + 1]));
            }
        }
        cuts
    }
}

proof fn lemma_share(
    channels: Seq<PaneChannel>,
    calls: Seq<VoiceParticipants>,
    v: PaneView,
    n: int,
    share: Seq<ChannelPaneEntry>,
)
    requires
        0 < n <= channels.len(),
        ({
            let (before, rows) = (tree_rows(channels, calls, v, n - 1), tree_rows(channels, calls, v, n));
            before.len() <= rows.len() && share == rows.subrange(before.len() as int, rows.len() as int)
        }),
    ensures
        ({
            let c = channels[n - 1];
            &&& c.kind is Thread || !(c.kind is Category) && is_in_category(channels, c) ==> share.len() == 0
            &&& !(c.kind is Thread) && !(c.kind is Category) && !is_in_category(channels, c) ==> is_block(
                share,
                channels,
                calls,
                c,
                ChannelBranch::Root,
            )
            &&& c.kind is Category && !has_children(channels, c) && !c.can_manage_structure ==> share.len() == 0
            &&& c.kind is Category && (has_children(channels, c) || c.can_manage_structure) ==> is_category_block(
                share,
                channels,
                calls,
                v,
                c,
            )
        }),
{
    let c = channels[n - 1];
    assert(is_in_category(channels, c) == crate::state::channel_pane::has_category(channels, c.parent_id)) by {
        if is_in_category(channels, c) {
            let i = choose|i: int|
                0 <= i < channels.len() && (#[trigger] channels[i]).kind is Category && c.parent_id == Some(channels[i].id);
            assert(channels[i].kind is Category);
        }
        if crate::state::channel_pane::has_category(channels, c.parent_id) {
            let i = choose|i: int|
                0 <= i < channels.len() && (#[trigger] channels[i]).kind is Category && c.parent_id == Some(channels[i].id);
            assert(channels[i].kind is Category);
        }
    }
    if crate::state::channel_pane::is_root(channels, c) {
        assert(share =~= root_rows(channels, calls, v, c));
        if c.kind is Category {
            lemma_category(channels, calls, v, c);
        } else {
            lemma_block(channels, calls, c, ChannelBranch::Root);
        }
    } else {
        assert(share.len() == 0);
    }
}

/// Those in a call are those of the first entry for the channel.
pub proof fn calls_are_those_of_the_channel(calls: Seq<VoiceParticipants>, id: ChannelId, i: int)
    requires
        0 <= i < calls.len(),
        calls[i].channel_id == id,
        forall|j: int| 0 <= j < i ==> (#[trigger] calls[j]).channel_id != id,
    ensures
        in_call(calls, id) == calls[i].user_ids@,
    decreases i,
{
    if i > 0 {
        let rest = calls.drop_first();
        assert forall|j: int| 0 <= j < i - 1 implies (#[trigger] rest[j]).channel_id != id by {
            assert(rest[j] == calls[j + 1]);
        }
        assert(calls[0].channel_id != id);
        calls_are_those_of_the_channel(rest, id, i - 1);
    }
}

/// Private conversations stand one below the other in their order, each with those in its call below it.
pub proof fn conversations_stand_in_their_order(
    channels: Seq<PaneChannel>,
    calls: Seq<VoiceParticipants>,
    a: int,
    n: int,
) -> (at: int)
    requires
        0 <= a < n <= channels.len(),
        !(channels[a].kind is Thread),
    ensures
        ({
            let rows = direct_rows(channels, calls, n);
            let users = in_call(calls, channels[a].id);
            &&& at == direct_rows(channels, calls, a).len()
            &&& at + 1 + users.len() <= rows.len()
            &&& rows[at] == (ChannelPaneEntry::Channel { channel_id: channels[a].id, branch: ChannelBranch::Root })
            &&& forall|k: int|
                0 <= k < users.len() ==> #[trigger] rows[at + 1 + k] == (ChannelPaneEntry::VoiceParticipant {
                    channel_id: channels[a].id,
                    user_id: users[k],
                    parent_branch: ChannelBranch::Root,
                })
        }),
    decreases n,
{
    let rows = direct_rows(channels, calls, n);
    let before = direct_rows(channels, calls, n - 1);
    let users = in_call(calls, channels[a].id);
    let at = direct_rows(channels, calls, a).len() as int;
    if a < n - 1 {
        let same = conversations_stand_in_their_order(channels, calls, a, n - 1);
        assert forall|k: int| 0 <= k < users.len() implies #[trigger] rows[at + 1 + k] == (
        ChannelPaneEntry::VoiceParticipant {
            channel_id: channels[a].id,
            user_id: users[k],
            parent_branch: ChannelBranch::Root,
        }) by {
            assert(rows[at + 1 + k] == before[at + 1 + k]);
        }
        assert(rows[at] == before[at]);
    }
    at
}

} // verus!
