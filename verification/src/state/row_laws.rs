//! What stands in the lists of guilds and members and in the switcher, and in which order.

use crate::ids::{GuildId, RoleId, UserId};
use crate::number::parsed_number;
use crate::state::channel_pane::ChannelKind;
use crate::state::channel_switcher::{
    all_items, as_notification, base_items, behind, in_order, is_category_child, is_filtered, match_key,
    match_keys, matching_items, notifications, numbered, unread_keys, with_children, with_direct, with_guild,
    ChannelUnreadState, GuildName, ItemView, SwitcherChannel, SwitcherGuild,
};
use crate::state::fuzzy::fuzzy_score;
use crate::state::guilds::{
    child_rows, folder_guilds, folder_rows, grouped_rows, guild_rows, place_of_guild, ungrouped_rows, FolderKeyView,
    GuildEntryView,
};
use crate::state::list_laws::{are_places, lemma_places_push};
use crate::state::member_grouping::{
    flattened, grouping, member_lines, member_total, pane_lines, place_of_member, place_of_role, GroupView,
    GuildMemberListEntry, GuildMemberState, IndexedEntry, MemberRow, MemberView, RoleState,
};
use crate::state::model::{GuildBranch, GuildFolder, GuildState};
use crate::state::sorting::{comes_before, is_order, key_less, orders_list_every_item};
use vstd::prelude::*;
use vstd::string::*;

verus! {

// ---- Guilds ----

/// Whether the user is in a guild.
pub open spec fn is_in(guilds: Seq<GuildState>, id: GuildId) -> bool {
    exists|i: int| 0 <= i < guilds.len() && (#[trigger] guilds[i]).id == id
}

proof fn lemma_place(guilds: Seq<GuildState>, id: GuildId)
    ensures
        is_in(guilds, id) <==> place_of_guild(guilds, id) >= 0,
        place_of_guild(guilds, id) < guilds.len(),
        place_of_guild(guilds, id) >= 0 ==> guilds[place_of_guild(guilds, id)].id == id,
    decreases guilds.len(),
{
    if guilds.len() > 0 {
        let rest = guilds.drop_last();
        lemma_place(rest, id);
        if is_in(guilds, id) {
            let i = choose|i: int| 0 <= i < guilds.len() && (#[trigger] guilds[i]).id == id;
            if i < rest.len() {
                assert(rest[i] == guilds[i]);
                assert(is_in(rest, id));
            }
        }
        if place_of_guild(guilds, id) >= 0 {
            assert(guilds[place_of_guild(guilds, id)].id == id);
        }
    }
}

/// Whether a row shows a guild that the user is in.
pub open spec fn shows(row: GuildEntryView, guilds: Seq<GuildState>, id: GuildId, branch: GuildBranch) -> bool {
    row matches GuildEntryView::Guild { state, branch: at } && guilds.contains(state) && state.id == id && at == branch
}

/// Whether a folder is collapsed: it is known by its identifier or, if there are several, by its guilds.
pub open spec fn is_closed(folder: GuildFolder, collapsed: Set<FolderKeyView>) -> bool {
    match folder.id {
        Some(id) => collapsed.contains(FolderKeyView::Id(id)),
        None => folder.guild_ids@.len() > 1 && collapsed.contains(FolderKeyView::Guilds(folder.guild_ids@)),
    }
}

/// Whether rows are those of a folder: one without an identifier that lists one guild is that guild; another one has a
/// heading and, unless it is collapsed, below it the guilds that the user is in, in the order of the folder.
pub open spec fn is_folder(
    rows: Seq<GuildEntryView>,
    folder: GuildFolder,
    guilds: Seq<GuildState>,
    collapsed: Set<FolderKeyView>,
    listed: Seq<int>,
) -> bool {
    let ids = folder.guild_ids@;
    if folder.id is None && ids.len() == 1 {
        &&& is_in(guilds, ids[0]) ==> rows.len() == 1 && shows(rows[0], guilds, ids[0], GuildBranch::Root)
        &&& !is_in(guilds, ids[0]) ==> rows.len() == 0
    } else {
        let closed = is_closed(folder, collapsed);
        &&& are_places(listed, |i: int| is_in(guilds, ids[i]), ids.len() as int)
        &&& rows.len() == 1 + (if closed { 0 } else { listed.len() as int })
        &&& rows[0] == (GuildEntryView::FolderHeader { folder, collapsed: closed })
        &&& !closed ==> forall|k: int|
            0 <= k < listed.len() ==> shows(
                #[trigger] rows[1 + k],
                guilds,
                ids[listed[k]],
                if k == listed.len() - 1 {
                    GuildBranch::Last
                } else {
                    GuildBranch::Middle
                },
            )
    }
}

proof fn lemma_folder_guilds(guilds: Seq<GuildState>, ids: Seq<GuildId>) -> (listed: Seq<int>)
    ensures
        are_places(listed, |i: int| is_in(guilds, ids[i]), ids.len() as int),
        folder_guilds(guilds, ids).len() == listed.len(),
        forall|k: int|
            0 <= k < listed.len() ==> folder_guilds(guilds, ids)[k].id == ids[#[trigger] listed[k]] && guilds.contains(
                folder_guilds(guilds, ids)[k],
            ),
    decreases ids.len(),
{
    let wanted = |i: int| is_in(guilds, ids[i]);
    if ids.len() == 0 {
        seq![]
    } else {
        let rest = ids.drop_last();
        let n = rest.len() as int;
        let front = lemma_folder_guilds(guilds, rest);
        let before = |i: int| is_in(guilds, rest[i]);
        assert forall|i: int| 0 <= i < n implies #[trigger] wanted(i) == before(i) by {
            assert(rest[i] == ids[i]);
        }
        assert(are_places(front, wanted, n)) by {
            assert forall|i: int| 0 <= i < n && #[trigger] wanted(i) implies front.contains(i) by {
                assert(before(i));
            }
            assert forall|k: int| 0 <= k < front.len() implies 0 <= #[trigger] front[k] < n && wanted(front[k]) by {
                assert(before(front[k]));
            }
        }
        lemma_places_push(front, wanted, n);
        lemma_place(guilds, ids[n]);
        let all = folder_guilds(guilds, ids);
        let some = folder_guilds(guilds, rest);
        assert forall|k: int| 0 <= k < front.len() implies all[k].id == ids[#[trigger] front[k]] && guilds.contains(all[k]) by {
            assert(all[k] == some[k]);
            assert(rest[front[k]] == ids[front[k]]);
        }
        if wanted(n) {
            let at = place_of_guild(guilds, ids[n]);
            assert(guilds[at] == all[front.len() as int]);
            front.push(n)
        } else {
            front
        }
    }
}

proof fn lemma_folder(folder: GuildFolder, guilds: Seq<GuildState>, collapsed: Set<FolderKeyView>) -> (listed: Seq<int>)
    ensures
        is_folder(folder_rows(folder, guilds, collapsed), folder, guilds, collapsed, listed),
{
    let ids = folder.guild_ids@;
    let rows = folder_rows(folder, guilds, collapsed);
    let listed = lemma_folder_guilds(guilds, ids);
    if folder.id is None && ids.len() == 1 {
        lemma_place(guilds, ids[0]);
        if is_in(guilds, ids[0]) {
            assert(guilds[place_of_guild(guilds, ids[0])] == rows[0]->Guild_state);
        }
    } else if !is_closed(folder, collapsed) {
        let children = folder_guilds(guilds, ids);
        assert forall|k: int| 0 <= k < listed.len() implies shows(
            #[trigger] rows[1 + k],
            guilds,
            ids[listed[k]],
            if k == listed.len() - 1 {
                GuildBranch::Last
            } else {
                GuildBranch::Middle
            },
        ) by {
            assert(rows[1 + k] == child_rows(children)[k]);
            assert(children[k].id == ids[listed[k]]);
        }
    }
    listed
}

/// Whether the rows between two cuts are those of a folder.
pub open spec fn is_folder_at(
    rows: Seq<GuildEntryView>,
    cuts: Seq<int>,
    folders: Seq<GuildFolder>,
    guilds: Seq<GuildState>,
    collapsed: Set<FolderKeyView>,
    k: int,
) -> bool {
    &&& 0 <= cuts[k] <= cuts[k + 1] <= rows.len()
    &&& exists|listed: Seq<int>| #[trigger]
        is_folder(rows.subrange(cuts[k], cuts[k + 1]), folders[k], guilds, collapsed, listed)
}

proof fn lemma_grouped(folders: Seq<GuildFolder>, guilds: Seq<GuildState>, collapsed: Set<FolderKeyView>) -> (cuts: Seq<int>)
    ensures
        ({
            let rows = grouped_rows(folders, guilds, collapsed);
            let n = folders.len() as int;
            &&& cuts.len() == n + 1
            &&& cuts[0] == 0
            &&& cuts[n] == rows.len()
            &&& forall|k: int| 0 <= k < n ==> #[trigger] is_folder_at(rows, cuts, folders, guilds, collapsed, k)
        }),
    decreases folders.len(),
{
    if folders.len() == 0 {
        seq![0]
    } else {
        let rest = folders.drop_last();
        let n = folders.len() as int;
        let front = lemma_grouped(rest, guilds, collapsed);
        let before = grouped_rows(rest, guilds, collapsed);
        let rows = grouped_rows(folders, guilds, collapsed);
        let cuts = front.push(rows.len() as int);
        let listed = lemma_folder(folders[n - 1], guilds, collapsed);
        assert forall|k: int| 0 <= k < n implies #[trigger] is_folder_at(rows, cuts, folders, guilds, collapsed, k) by {
            if k < n - 1 {
                assert(is_folder_at(before, front, rest, guilds, collapsed, k));
                assert(rows.subrange(cuts[k], cuts[k + 1]) =~= before.subrange(front[k], front[k + 1]));
            } else {
                assert(rows.subrange(cuts[k], cuts[k + 1]) =~= folder_rows(folders[n - 1], guilds, collapsed));
                assert(is_folder(rows.subrange(cuts[k], cuts[k + 1]), folders[k], guilds, collapsed, listed));
            }
        }
        cuts
    }
}

/// Whether no folder lists a guild.
pub open spec fn is_alone(folders: Seq<GuildFolder>, id: GuildId) -> bool {
    forall|i: int| 0 <= i < folders.len() ==> !(#[trigger] folders[i]).guild_ids@.contains(id)
}

proof fn lemma_ungrouped(folders: Seq<GuildFolder>, guilds: Seq<GuildState>) -> (alone: Seq<int>)
    ensures
        are_places(alone, |i: int| is_alone(folders, guilds[i].id), guilds.len() as int),
        ungrouped_rows(folders, guilds).len() == alone.len(),
        forall|k: int|
            0 <= k < alone.len() ==> ungrouped_rows(folders, guilds)[k] == (GuildEntryView::Guild {
                state: guilds[#[trigger] alone[k]],
                branch: GuildBranch::Root,
            }),
    decreases guilds.len(),
{
    let wanted = |i: int| is_alone(folders, guilds[i].id);
    if guilds.len() == 0 {
        seq![]
    } else {
        let rest = guilds.drop_last();
        let n = rest.len() as int;
        let front = lemma_ungrouped(folders, rest);
        let before = |i: int| is_alone(folders, rest[i].id);
        assert forall|i: int| 0 <= i < n implies #[trigger] wanted(i) == before(i) by {
            assert(rest[i] == guilds[i]);
        }
        assert(are_places(front, wanted, n)) by {
            assert forall|i: int| 0 <= i < n && #[trigger] wanted(i) implies front.contains(i) by {
                assert(before(i));
            }
            assert forall|k: int| 0 <= k < front.len() implies 0 <= #[trigger] front[k] < n && wanted(front[k]) by {
                assert(before(front[k]));
            }
        }
        lemma_places_push(front, wanted, n);
        let all = ungrouped_rows(folders, guilds);
        let some = ungrouped_rows(folders, rest);
        assert(wanted(n) == !crate::state::guilds::in_folder(folders, guilds[n].id));
        assert forall|k: int| 0 <= k < front.len() implies all[k] == (GuildEntryView::Guild {
            state: guilds[#[trigger] front[k]],
            branch: GuildBranch::Root,
        }) by {
            assert(all[k] == some[k]);
            assert(rest[front[k]] == guilds[front[k]]);
        }
        if wanted(n) {
            front.push(n)
        } else {
            front
        }
    }
}

/// The list of guilds: the direct messages, the folders in their order, each with its guilds, and then the guilds that
/// are in none, in their order.
pub proof fn guilds_stand_in_their_order(folders: Seq<GuildFolder>, guilds: Seq<GuildState>, collapsed: Set<FolderKeyView>) -> (r:
    (Seq<int>, Seq<int>))
    ensures
        ({
            let rows = guild_rows(folders, guilds, collapsed);
            let (cuts, alone) = r;
            let n = folders.len() as int;
            &&& rows[0] is DirectMessages
            &&& cuts.len() == n + 1
            &&& cuts[0] == 1
            &&& forall|k: int| 0 <= k < n ==> #[trigger] is_folder_at(rows, cuts, folders, guilds, collapsed, k)
            &&& are_places(alone, |i: int| is_alone(folders, guilds[i].id), guilds.len() as int)
            &&& rows.len() == cuts[n] + alone.len()
            &&& forall|k: int|
                0 <= k < alone.len() ==> #[trigger] rows[cuts[n] + k] == (GuildEntryView::Guild {
                    state: guilds[alone[k]],
                    branch: GuildBranch::Root,
                })
        }),
{
    let rows = guild_rows(folders, guilds, collapsed);
    let own = lemma_grouped(folders, guilds, collapsed);
    let grouped = grouped_rows(folders, guilds, collapsed);
    let alone = lemma_ungrouped(folders, guilds);
    let below = ungrouped_rows(folders, guilds);
    let cuts = own.map_values(|i: int| i + 1);
    let n = folders.len() as int;
    assert forall|k: int| 0 <= k < n implies #[trigger] is_folder_at(rows, cuts, folders, guilds, collapsed, k) by {
        assert(is_folder_at(grouped, own, folders, guilds, collapsed, k));
        assert(rows.subrange(cuts[k], cuts[k + 1]) =~= grouped.subrange(own[k], own[k + 1]));
    }
    assert forall|k: int| 0 <= k < alone.len() implies #[trigger] rows[cuts[n] + k] == (GuildEntryView::Guild {
        state: guilds[alone[k]],
        branch: GuildBranch::Root,
    }) by {
        assert(rows[cuts[n] + k] == below[k]);
    }
    (cuts, alone)
}

// ---- Groups of members ----

/// Whether this is the first member with an identifier.
pub open spec fn is_first_member(members: Seq<GuildMemberState>, id: UserId, at: int) -> bool {
    &&& 0 <= at < members.len() && members[at].user_id == id
    &&& forall|i: int| 0 <= i < at ==> (#[trigger] members[i]).user_id != id
}

proof fn lemma_first_member(members: Seq<GuildMemberState>, id: UserId, at: int)
    requires
        is_first_member(members, id, at),
    ensures
        place_of_member(members, id) == at,
    decreases at,
{
    if at > 0 {
        let rest = members.drop_first();
        assert(members[0].user_id != id);
        assert forall|i: int| 0 <= i < at - 1 implies (#[trigger] rest[i]).user_id != id by {
            assert(rest[i] == members[i + 1]);
        }
        lemma_first_member(rest, id, at - 1);
    }
}

/// A heading starts a group without members, with its count. Those online and offline have groups of their own; other
/// groups are named by their role, with its color.
pub proof fn headings_name_their_group(
    lines: Seq<IndexedEntry>,
    line: IndexedEntry,
    id: String,
    count: u64,
    members: Seq<GuildMemberState>,
    roles: Seq<RoleState>,
    role: int,
)
    requires
        line.entry == (GuildMemberListEntry::Group { id, count }),
    ensures
        ({
            let groups = grouping(lines, members, roles).groups;
            let after = grouping(lines.push(line), members, roles).groups;
            let last = after[after.len() - 1];
            &&& after.len() == groups.len() + 1
            &&& after.drop_last() == groups
            &&& last.count == count
            &&& last.entries.len() == 0
            &&& id@ == "online"@ ==> last.label == "Online"@ && last.color is None
            &&& id@ != "online"@ && id@ == "offline"@ ==> last.label == "Offline"@ && last.color is None
            &&& id@ != "online"@ && id@ != "offline"@ && is_first_role(roles, id@, role) ==> last.label
                == roles[role].name@ && last.color == roles[role].color
        }),
{
    assert(lines.push(line).drop_last() =~= lines);
    let groups = grouping(lines, members, roles).groups;
    let after = grouping(lines.push(line), members, roles).groups;
    assert(after.drop_last() =~= groups);
    if is_first_role(roles, id@, role) {
        lemma_first_role(roles, parsed_number(id@)->0, role);
    }
}

/// Whether this is the first role whose identifier a text tells.
pub open spec fn is_first_role(roles: Seq<RoleState>, id: Seq<char>, at: int) -> bool {
    &&& parsed_number(id) matches Some(n) && n > 0 && 0 <= at < roles.len() && roles[at].id == n
    &&& forall|i: int| 0 <= i < at ==> Some((#[trigger] roles[i]).id) != parsed_number(id)
}

proof fn lemma_first_role(roles: Seq<RoleState>, id: RoleId, at: int)
    requires
        0 <= at < roles.len(),
        roles[at].id == id,
        forall|i: int| 0 <= i < at ==> (#[trigger] roles[i]).id != id,
    ensures
        place_of_role(roles, id) == at,
    decreases at,
{
    if at > 0 {
        let rest = roles.drop_first();
        assert(roles[0].id != id);
        assert forall|i: int| 0 <= i < at - 1 implies (#[trigger] rest[i]).id != id by {
            assert(rest[i] == roles[i + 1]);
        }
        lemma_first_role(rest, id, at - 1);
    }
}

proof fn lemma_grouping_open(lines: Seq<IndexedEntry>, members: Seq<GuildMemberState>, roles: Seq<RoleState>)
    ensures
        grouping(lines, members, roles).open ==> grouping(lines, members, roles).groups.len() > 0,
        lines.len() > 0 ==> grouping(lines, members, roles).previous == Some(lines.last().index),
        lines.len() == 0 ==> grouping(lines, members, roles).previous is None,
    decreases lines.len(),
{
    if lines.len() > 0 {
        lemma_grouping_open(lines.drop_last(), members, roles);
    }
}

/// A member right below a heading or another member stands in the group of that, behind those before.
pub proof fn members_stand_below_their_heading(
    lines: Seq<IndexedEntry>,
    line: IndexedEntry,
    user_id: UserId,
    members: Seq<GuildMemberState>,
    roles: Seq<RoleState>,
    at: int,
)
    requires
        line.entry == (GuildMemberListEntry::Member { user_id }),
        is_first_member(members, user_id, at),
        lines.len() > 0,
        lines.last().index + 1 == line.index,
        match lines.last().entry {
            GuildMemberListEntry::Group { .. } => true,
            GuildMemberListEntry::Member { user_id: other } => exists|i: int| #[trigger] is_first_member(members, other, i),
        },
    ensures
        ({
            let groups = grouping(lines, members, roles).groups;
            let after = grouping(lines.push(line), members, roles).groups;
            let n = groups.len() - 1;
            &&& groups.len() > 0
            &&& after.len() == groups.len()
            &&& forall|k: int| 0 <= k < n ==> #[trigger] after[k] == groups[k]
            &&& after[n].entries == groups[n].entries.push(MemberView::Guild(members[at]))
            &&& after[n].label == groups[n].label && after[n].color == groups[n].color
            &&& lines.last().entry is Group ==> after[n].count == groups[n].count
        }),
{
    assert(lines.push(line).drop_last() =~= lines);
    lemma_first_member(members, user_id, at);
    lemma_grouping_open(lines, members, roles);
    lemma_grouping_open(lines.drop_last(), members, roles);
    match lines.last().entry {
        GuildMemberListEntry::Group { .. } => {},
        GuildMemberListEntry::Member { user_id: other } => {
            let i = choose|i: int| #[trigger] is_first_member(members, other, i);
            lemma_first_member(members, other, i);
        },
    }
}

/// Behind a gap in the list, and without a heading, members stand in a group of their own that counts them.
pub proof fn members_behind_a_gap_stand_by_themselves(
    lines: Seq<IndexedEntry>,
    line: IndexedEntry,
    user_id: UserId,
    members: Seq<GuildMemberState>,
    roles: Seq<RoleState>,
    at: int,
)
    requires
        line.entry == (GuildMemberListEntry::Member { user_id }),
        is_first_member(members, user_id, at),
        lines.len() > 0 ==> lines.last().index + 1 != line.index,
    ensures
        ({
            let groups = grouping(lines, members, roles).groups;
            let after = grouping(lines.push(line), members, roles).groups;
            &&& after == groups.push(
                GroupView {
                    label: "Members"@,
                    color: None,
                    count: 1,
                    entries: seq![MemberView::Guild(members[at])],
                },
            )
        }),
{
    assert(lines.push(line).drop_last() =~= lines);
    lemma_first_member(members, user_id, at);
    lemma_grouping_open(lines, members, roles);
    let groups = grouping(lines, members, roles).groups;
    let after = grouping(lines.push(line), members, roles).groups;
    assert(after.last().entries =~= seq![MemberView::Guild(members[at])]);
    assert(after.drop_last() =~= groups);
    assert(after =~= groups.push(after.last()));
}

/// Members that are not known add nothing.
pub proof fn unknown_members_are_not_shown(
    lines: Seq<IndexedEntry>,
    line: IndexedEntry,
    user_id: UserId,
    members: Seq<GuildMemberState>,
    roles: Seq<RoleState>,
)
    requires
        line.entry == (GuildMemberListEntry::Member { user_id }),
        forall|i: int| 0 <= i < members.len() ==> (#[trigger] members[i]).user_id != user_id,
    ensures
        grouping(lines.push(line), members, roles).groups == grouping(lines, members, roles).groups,
{
    assert(lines.push(line).drop_last() =~= lines);
    lemma_no_member(members, user_id);
}

proof fn lemma_no_member(members: Seq<GuildMemberState>, id: UserId)
    requires
        forall|i: int| 0 <= i < members.len() ==> (#[trigger] members[i]).user_id != id,
    ensures
        place_of_member(members, id) == members.len(),
    decreases members.len(),
{
    if members.len() > 0 {
        let rest = members.drop_first();
        assert(members[0].user_id != id);
        assert forall|i: int| 0 <= i < rest.len() implies (#[trigger] rest[i]).user_id != id by {
            assert(rest[i] == members[i + 1]);
        }
        lemma_no_member(rest, id);
    }
}

/// The members of all groups stand one behind the other, group by group.
pub proof fn groups_stand_behind_each_other(a: Seq<GroupView>, b: Seq<GroupView>)
    ensures
        flattened(a + b) == flattened(a) + flattened(b),
        a.len() == 1 ==> flattened(a) == a[0].entries,
        a.len() == 0 ==> flattened(a).len() == 0,
    decreases b.len(),
{
    reveal_with_fuel(flattened, 2);
    if a.len() == 1 {
        assert(flattened(a.drop_last()) =~= Seq::<MemberView>::empty());
        assert(flattened(a) =~= a[0].entries);
    }
    if b.len() == 0 {
        assert(a + b =~= a);
        assert(flattened(a) + flattened(b) =~= flattened(a));
    } else {
        assert((a + b).drop_last() =~= a + b.drop_last());
        groups_stand_behind_each_other(a, b.drop_last());
        assert(flattened(a) + flattened(b.drop_last()) + b.last().entries =~= flattened(a) + (flattened(b.drop_last())
            + b.last().entries));
    }
}

// ---- Lines of members ----

/// Whether a line belongs where it stands: an activity below its member, a gap above a heading.
pub open spec fn belongs(rows: Seq<MemberRow>, i: int) -> bool {
    match rows[i] {
        MemberRow::Activity { member_index } => i > 0 && rows[i - 1] == (MemberRow::Member { member_index }),
        MemberRow::Gap => i + 1 < rows.len() && rows[i + 1] is GroupHeader,
        MemberRow::GroupHeader { group } => if i == 0 {
            group == 0
        } else {
            rows[i - 1] is Gap && group > 0
        },
        MemberRow::Member { .. } => i > 0 && !(rows[i - 1] is Gap),
    }
}

/// Whether a line of a group is that of a member of it, or stands below that of its member.
spec fn is_own(rows: Seq<MemberRow>, i: int, first: int, end: int) -> bool {
    match rows[i] {
        MemberRow::Member { member_index } => first <= member_index < end,
        MemberRow::Activity { member_index } => i > 0 && rows[i - 1] == (MemberRow::Member { member_index }),
        _ => false,
    }
}

/// Whether a line is that of a member, with one below it for what the member does, if it does something.
spec fn is_own_line(rows: Seq<MemberRow>, member: int, active: bool, i: int) -> bool {
    &&& 0 <= i < rows.len()
    &&& rows[i] == (MemberRow::Member { member_index: member as usize })
    &&& active <==> i + 1 < rows.len() && rows[i + 1] is Activity
}

spec fn has_own_line(rows: Seq<MemberRow>, member: int, active: bool) -> bool {
    exists|i: int| #[trigger] is_own_line(rows, member, active, i)
}

proof fn lemma_lines(active: Seq<bool>, first: int)
    requires
        0 <= first,
        first + active.len() <= usize::MAX,
    ensures
        ({
            let rows = member_lines(active, first);
            &&& rows.len() > 0 ==> rows[0] is Member
            &&& forall|i: int| 0 <= i < rows.len() ==> #[trigger] is_own(rows, i, first, first + active.len())
            &&& forall|m: int|
                0 <= m < active.len() ==> has_own_line(rows, first + m, #[trigger] active[m])
        }),
    decreases active.len(),
{
    if active.len() > 0 {
        let rest = active.drop_last();
        let n = rest.len() as int;
        lemma_lines(rest, first);
        let before = member_lines(rest, first);
        let rows = member_lines(active, first);
        let at = before.len() as int;
        assert forall|i: int| 0 <= i < rows.len() implies #[trigger] is_own(rows, i, first, first + active.len()) by {
            if i < at {
                assert(is_own(before, i, first, first + rest.len()));
                assert(rows[i] == before[i]);
                if i > 0 {
                    assert(rows[i - 1] == before[i - 1]);
                }
            }
        }
        if at > 0 {
            assert(rows[0] == before[0]);
        }
        assert forall|m: int| 0 <= m < active.len() implies has_own_line(
            rows,
            first + m,
            #[trigger] active[m],
        ) by {
            if m < n {
                assert(rest[m] == active[m]);
                assert(has_own_line(before, first + m, rest[m]));
                let i = choose|i: int| #[trigger] is_own_line(before, first + m, rest[m], i);
                assert(rows[i] == before[i]);
                if i + 1 < at {
                    assert(rows[i + 1] == before[i + 1]);
                } else {
                    assert(rows[at] is Member);
                }
                assert(is_own_line(rows, first + m, active[m], i));
            } else {
                assert(is_own_line(rows, first + m, active[m], at));
            }
        }
    }
}

/// The lines of the member pane: a heading for each group with a gap above all but the first, the members in their
/// order below the heading of their group, and below each one who does something a line for that.
pub proof fn member_lines_stand_in_order(groups: Seq<Seq<bool>>) -> (heads: Seq<int>)
    requires
        member_total(groups) <= usize::MAX,
        groups.len() <= usize::MAX,
    ensures
        ({
            let rows = pane_lines(groups);
            &&& heads.len() == groups.len()
            &&& forall|i: int| 0 <= i < rows.len() ==> #[trigger] belongs(rows, i)
            &&& forall|g: int|
                0 <= g < groups.len() ==> 0 <= #[trigger] heads[g] < rows.len() && rows[heads[g]] == (
                MemberRow::GroupHeader { group: g as usize })
            &&& forall|g: int, h: int| #![trigger heads[g], heads[h]] 0 <= g < h < groups.len() ==> heads[g] < heads[h]
            &&& forall|g: int, m: int|
                0 <= g < groups.len() && 0 <= m < groups[g].len() ==> #[trigger] has_line(rows, heads, groups, g, m)
        }),
    decreases groups.len(),
{
    if groups.len() == 0 {
        seq![]
    } else {
        let rest = groups.drop_last();
        let n = rest.len() as int;
        lemma_totals(groups, n);
        let front = member_lines_stand_in_order(rest);
        let before = pane_lines(rest);
        let rows = pane_lines(groups);
        let gap = if n > 0 { before.push(MemberRow::Gap) } else { Seq::empty() };
        let head = gap.push(MemberRow::GroupHeader { group: n as usize });
        let total = member_total(rest);
        let below = member_lines(groups[n], total);
        lemma_lines(groups[n], total);
        let heads = front.push(gap.len() as int);
        assert(rows =~= head + below);
        if n == 0 {
            assert(before =~= Seq::<MemberRow>::empty());
        }
        lemma_pane_lines(groups, before, below, gap, rows, total, total + groups[n].len());
        assert forall|g: int| 0 <= g < groups.len() implies 0 <= #[trigger] heads[g] < rows.len() && rows[heads[g]] == (
        MemberRow::GroupHeader { group: g as usize }) by {
            if g < n {
                assert(heads[g] == front[g]);
                assert(rows[front[g]] == before[front[g]]);
            }
        }
        assert forall|g: int, h: int| #![trigger heads[g], heads[h]] 0 <= g < h < groups.len() implies heads[g] < heads[h] by {
            assert(heads[g] == front[g]);
            if h < n {
                assert(heads[h] == front[h]);
            }
        }
        assert forall|g: int, m: int|
            0 <= g < groups.len() && 0 <= m < groups[g].len() implies #[trigger] has_line(rows, heads, groups, g, m) by {
            if g < n {
                assert(rest[g] == groups[g]);
                assert(rest[g][m] == groups[g][m]);
                assert(has_line(before, front, rest, g, m));
                lemma_line_stays(before, front, rest, rows, heads, groups, g, m);
            } else {
                let own = groups[n];
                assert(has_own_line(below, total + m, own[m]));
                let i = choose|i: int| #[trigger] is_own_line(below, total + m, own[m], i);
                let at = head.len() + i;
                assert(rows[at] == below[i]);
                if i + 1 < below.len() {
                    assert(rows[at + 1] == below[i + 1]);
                }
                assert(groups.take(n) =~= rest);
                assert(is_line_of(rows, heads, groups, g, m, at));
            }
        }
        heads
    }
}

proof fn lemma_pane_lines(
    groups: Seq<Seq<bool>>,
    before: Seq<MemberRow>,
    below: Seq<MemberRow>,
    gap: Seq<MemberRow>,
    rows: Seq<MemberRow>,
    first: int,
    end: int,
)
    requires
        groups.len() > 0,
        groups.len() <= usize::MAX,
        gap == (if groups.len() > 1 { before.push(MemberRow::Gap) } else { Seq::empty() }),
        groups.len() == 1 ==> before.len() == 0,
        rows == gap.push(MemberRow::GroupHeader { group: (groups.len() - 1) as usize }) + below,
        forall|i: int| 0 <= i < before.len() ==> #[trigger] belongs(before, i),
        below.len() > 0 ==> below[0] is Member,
        forall|i: int| 0 <= i < below.len() ==> #[trigger] is_own(below, i, first, end),
    ensures
        forall|i: int| 0 <= i < rows.len() ==> #[trigger] belongs(rows, i),
        forall|i: int| 0 <= i < before.len() ==> #[trigger] rows[i] == before[i],
        rows[gap.len() as int] == (MemberRow::GroupHeader { group: (groups.len() - 1) as usize }),
        groups.len() > 1 ==> rows[before.len() as int] is Gap,
{
    let head = gap.len() + 1;
    assert forall|i: int| 0 <= i < rows.len() implies #[trigger] belongs(rows, i) by {
        if i < before.len() {
            assert(belongs(before, i));
            assert(rows[i] == before[i]);
            if i > 0 {
                assert(rows[i - 1] == before[i - 1]);
            }
            if i + 1 < before.len() {
                assert(rows[i + 1] == before[i + 1]);
            }
        } else if i >= head {
            let k = i - head;
            assert(is_own(below, k, first, end));
            assert(rows[i] == below[k]);
            if k > 0 {
                assert(rows[i - 1] == below[k - 1]);
                assert(is_own(below, k - 1, first, end));
            }
        }
    }
}

/// Whether a member has its line behind the heading of its group, before the next heading, and below it one for what it
/// does, if it does something.
pub open spec fn has_line(rows: Seq<MemberRow>, heads: Seq<int>, groups: Seq<Seq<bool>>, g: int, m: int) -> bool {
    exists|at: int| #[trigger] is_line_of(rows, heads, groups, g, m, at)
}

pub open spec fn is_line_of(
    rows: Seq<MemberRow>,
    heads: Seq<int>,
    groups: Seq<Seq<bool>>,
    g: int,
    m: int,
    at: int,
) -> bool {
    &&& heads[g] < at < rows.len()
    &&& g + 1 < groups.len() ==> at < heads[g + 1]
    &&& rows[at] == (MemberRow::Member { member_index: (member_total(groups.take(g)) + m) as usize })
    &&& groups[g][m] <==> at + 1 < rows.len() && rows[at + 1] is Activity
}

proof fn lemma_line_stays(
    before: Seq<MemberRow>,
    front: Seq<int>,
    rest: Seq<Seq<bool>>,
    rows: Seq<MemberRow>,
    heads: Seq<int>,
    groups: Seq<Seq<bool>>,
    g: int,
    m: int,
)
    requires
        groups.len() > 0,
        rest == groups.drop_last(),
        front.len() == rest.len(),
        0 <= g < rest.len(),
        0 <= m < rest[g].len(),
        has_line(before, front, rest, g, m),
        heads == front.push(before.len() as int + 1),
        before.len() + 1 < rows.len(),
        rows[before.len() as int] is Gap,
        forall|i: int| 0 <= i < before.len() ==> #[trigger] rows[i] == before[i],
        0 <= front[g],
    ensures
        has_line(rows, heads, groups, g, m),
{
    let at = choose|at: int| #[trigger] is_line_of(before, front, rest, g, m, at);
    assert(rest.take(g) =~= groups.take(g));
    assert(rows[at] == before[at]);
    if at + 1 < before.len() {
        assert(rows[at + 1] == before[at + 1]);
    }
    assert(rest[g] == groups[g]);
    assert(is_line_of(rows, heads, groups, g, m, at));
}

proof fn lemma_totals(groups: Seq<Seq<bool>>, n: int)
    requires
        groups.len() == n + 1,
        n >= 0,
    ensures
        0 <= member_total(groups.drop_last()),
        member_total(groups.drop_last()) + groups[n].len() == member_total(groups),
    decreases n,
{
    if n > 0 {
        lemma_totals(groups.drop_last(), n - 1);
    }
}

// ---- The switcher ----

/// Whether a channel can be switched to.
pub open spec fn is_open_to(c: SwitcherChannel) -> bool {
    !(c.kind is Category) && !(c.kind is Thread)
}

/// How many of the first `k` channels can be switched to.
pub open spec fn open_count(channels: Seq<SwitcherChannel>, k: int) -> int
    decreases k,
{
    if k <= 0 {
        0
    } else {
        open_count(channels, k - 1) + (if is_open_to(channels[k - 1]) { 1int } else { 0 })
    }
}

/// Whether a row is that of a channel.
pub open spec fn is_row_of(item: ItemView, c: SwitcherChannel) -> bool {
    &&& item.channel_id == c.id
    &&& item.unread == c.unread
    &&& item.unread_message_count == c.unread_message_count
    &&& item.channel_label == (match c.kind {
        ChannelKind::DirectMessage => seq!['@'] + c.name@,
        ChannelKind::GroupDirectMessage => c.name@,
        _ => seq!['#'] + c.name@,
    })
    &&& item.search_name == item.group_label + seq![' ', '/', ' '] + c.name@
}

spec fn starts(a: Seq<ItemView>, b: Seq<ItemView>) -> bool {
    a.len() <= b.len() && b.take(a.len() as int) == a
}

proof fn lemma_starts(a: Seq<ItemView>, b: Seq<ItemView>, c: Seq<ItemView>)
    requires
        starts(a, b),
        starts(b, c),
    ensures
        starts(a, c),
{
    assert(c.take(a.len() as int) =~= b.take(a.len() as int));
}

proof fn lemma_start_at(a: Seq<ItemView>, b: Seq<ItemView>, i: int)
    requires
        starts(a, b),
        0 <= i < a.len(),
    ensures
        b[i] == a[i],
{
    assert(b.take(a.len() as int)[i] == b[i]);
}

proof fn lemma_label(c: SwitcherChannel, place: crate::state::channel_switcher::Place, index: usize)
    ensures
        is_row_of(crate::state::channel_switcher::item_of(c, place, index), c),
{
    reveal_strlit("@");
    reveal_strlit("#");
    reveal_strlit(" / ");
    assert("@"@ =~= seq!['@']);
    assert("#"@ =~= seq!['#']);
    assert(" / "@ =~= seq![' ', '/', ' ']);
}

proof fn lemma_with_direct(channels: Seq<SwitcherChannel>, k: int, order: usize)
    requires
        0 <= k <= channels.len(),
    ensures
        ({
            let items = with_direct(Seq::empty(), channels, k, order);
            &&& items.len() == open_count(channels, k)
            &&& forall|i: int|
                0 <= i < k && is_open_to(#[trigger] channels[i]) ==> {
                    let at = open_count(channels, i);
                    &&& 0 <= at < items.len()
                    &&& is_row_of(items[at], channels[i])
                    &&& items[at].guild_id is None && items[at].parent_label is None && items[at].group_label
                        == "Direct Messages"@
                }
        }),
    decreases k,
{
    if k > 0 {
        lemma_with_direct(channels, k - 1, order);
        let before = with_direct(Seq::empty(), channels, k - 1, order);
        let place = crate::state::channel_switcher::place_in(
            None,
            None,
            crate::state::model::ChannelBranch::Root,
            order,
        );
        lemma_label(channels[k - 1], place, before.len() as usize);
    }
}

proof fn lemma_children_start(
    items: Seq<ItemView>,
    guild: GuildName,
    channels: Seq<SwitcherChannel>,
    category: SwitcherChannel,
    k: int,
    order: usize,
)
    ensures
        starts(items, with_children(items, guild, channels, category, k, order)),
    decreases k,
{
    if k <= 0 {
        assert(items.take(items.len() as int) =~= items);
    } else {
        lemma_children_start(items, guild, channels, category, k - 1, order);
        let before = with_children(items, guild, channels, category, k - 1, order);
        let after = with_children(items, guild, channels, category, k, order);
        assert(after.take(before.len() as int) =~= before);
        lemma_starts(items, before, after);
    }
}

proof fn lemma_guild_start(items: Seq<ItemView>, guild: GuildName, channels: Seq<SwitcherChannel>, k: int, order: usize)
    ensures
        starts(items, with_guild(items, guild, channels, k, order)),
    decreases k,
{
    if k <= 0 {
        assert(items.take(items.len() as int) =~= items);
    } else {
        lemma_guild_start(items, guild, channels, k - 1, order);
        let before = with_guild(items, guild, channels, k - 1, order);
        let after = with_guild(items, guild, channels, k, order);
        let c = channels[k - 1];
        if c.kind is Category && !(c.kind is Thread) {
            lemma_children_start(before, guild, channels, c, channels.len() as int, order);
        } else {
            assert(after.take(before.len() as int) =~= before);
        }
        lemma_starts(items, before, after);
    }
}

proof fn lemma_base_start(direct: Seq<SwitcherChannel>, guilds: Seq<SwitcherGuild>, a: int, k: int)
    requires
        0 <= a <= k,
    ensures
        starts(base_items(direct, guilds, a), base_items(direct, guilds, k)),
    decreases k,
{
    let all = base_items(direct, guilds, k);
    if a == k {
        assert(all.take(all.len() as int) =~= all);
    } else {
        lemma_base_start(direct, guilds, a, k - 1);
        let before = base_items(direct, guilds, k - 1);
        let g = guilds[k - 1];
        if crate::state::channel_switcher::guild_seen(guilds, k - 1) {
            assert(before.take(before.len() as int) =~= before);
        } else {
            lemma_guild_start(
                before,
                GuildName { id: g.id, name: g.name@ },
                g.channels@,
                g.channels@.len() as int,
                before.len() as usize,
            );
        }
        lemma_starts(base_items(direct, guilds, a), before, all);
    }
}

/// The private conversations stand first in the switcher, in their order.
pub proof fn conversations_stand_first(direct: Seq<SwitcherChannel>, guilds: Seq<SwitcherGuild>, n: int, i: int)
    requires
        0 <= n,
        0 <= i < direct.len(),
        is_open_to(direct[i]),
    ensures
        ({
            let items = base_items(direct, guilds, n);
            let at = open_count(direct, i);
            &&& 0 <= at < items.len()
            &&& is_row_of(items[at], direct[i])
            &&& items[at].guild_id is None && items[at].parent_label is None && items[at].group_label
                == "Direct Messages"@
        }),
{
    let first = with_direct(Seq::empty(), direct, direct.len() as int, 0);
    lemma_with_direct(direct, direct.len() as int, 0);
    lemma_base_start(direct, guilds, 0, n);
    assert(base_items(direct, guilds, 0) == first);
    lemma_start_at(first, base_items(direct, guilds, n), open_count(direct, i));
}

proof fn lemma_child_row(
    items: Seq<ItemView>,
    guild: GuildName,
    channels: Seq<SwitcherChannel>,
    category: SwitcherChannel,
    k: int,
    order: usize,
    i: int,
) -> (at: int)
    requires
        0 <= i < k <= channels.len(),
        is_category_child(channels[i], category.id),
    ensures
        ({
            let all = with_children(items, guild, channels, category, k, order);
            &&& items.len() <= at < all.len()
            &&& is_row_of(all[at], channels[i])
            &&& all[at].guild_id == Some(guild.id) && all[at].group_label == guild.name && all[at].parent_label == Some(
                category.name@,
            )
        }),
    decreases k,
{
    let before = with_children(items, guild, channels, category, k - 1, order);
    let all = with_children(items, guild, channels, category, k, order);
    lemma_children_start(items, guild, channels, category, k - 1, order);
    if i < k - 1 {
        let at = lemma_child_row(items, guild, channels, category, k - 1, order, i);
        assert(all[at] == before[at]);
        at
    } else {
        let branch = crate::state::model::branch_of(
            crate::state::channel_switcher::child_count(channels, category.id, k - 1),
            crate::state::channel_switcher::child_count(channels, category.id, channels.len() as int),
        );
        let place = crate::state::channel_switcher::place_in(Some(guild), Some(category.name@), branch, order);
        lemma_label(channels[i], place, before.len() as usize);
        before.len() as int
    }
}

/// Whether a channel is in a category of its guild.
pub open spec fn is_under(channels: Seq<SwitcherChannel>, i: int, category: int) -> bool {
    0 <= category < channels.len() && channels[category].kind is Category && channels[i].parent_id == Some(
        channels[category].id,
    )
}

proof fn lemma_guild_row(
    items: Seq<ItemView>,
    guild: GuildName,
    channels: Seq<SwitcherChannel>,
    k: int,
    order: usize,
    i: int,
    category: Option<int>,
) -> (at: int)
    requires
        0 <= k <= channels.len(),
        0 <= i < channels.len(),
        is_open_to(channels[i]),
        category is None ==> i < k && forall|j: int| !#[trigger] is_under(channels, i, j),
        category matches Some(j) ==> j < k && is_under(channels, i, j),
    ensures
        ({
            let all = with_guild(items, guild, channels, k, order);
            &&& items.len() <= at < all.len()
            &&& is_row_of(all[at], channels[i])
            &&& all[at].guild_id == Some(guild.id) && all[at].group_label == guild.name
            &&& category is None ==> all[at].parent_label is None
            &&& category matches Some(j) ==> all[at].parent_label == Some(channels[j].name@)
        }),
    decreases k,
{
    let before = with_guild(items, guild, channels, k - 1, order);
    let all = with_guild(items, guild, channels, k, order);
    let c = channels[k - 1];
    lemma_guild_start(items, guild, channels, k - 1, order);
    let here = match category {
        None => i == k - 1,
        Some(j) => j == k - 1,
    };
    if !here {
        let at = lemma_guild_row(items, guild, channels, k - 1, order, i, category);
        if c.kind is Category {
            lemma_children_start(before, guild, channels, c, channels.len() as int, order);
            lemma_start_at(before, all, at);
        } else {
            assert(all[at] == before[at]);
        }
        at
    } else if category is None {
        assert(!crate::state::channel_switcher::in_some_category(channels, c.parent_id)) by {
            if crate::state::channel_switcher::in_some_category(channels, c.parent_id) {
                let j = choose|j: int|
                    0 <= j < channels.len() && (#[trigger] channels[j]).kind is Category && c.parent_id == Some(
                        channels[j].id,
                    );
                assert(is_under(channels, i, j));
            }
        }
        let place = crate::state::channel_switcher::place_in(
            Some(guild),
            None,
            crate::state::model::ChannelBranch::Root,
            order,
        );
        lemma_label(c, place, before.len() as usize);
        before.len() as int
    } else {
        lemma_child_row(before, guild, channels, c, channels.len() as int, order, i)
    }
}

/// Every channel of a guild that is not listed twice has a row in the switcher, behind the private conversations: with
/// its guild, and with its category, if it is in one.
pub proof fn guild_channels_have_a_row(
    direct: Seq<SwitcherChannel>,
    guilds: Seq<SwitcherGuild>,
    g: int,
    i: int,
    category: Option<int>,
) -> (at: int)
    requires
        0 <= g < guilds.len(),
        forall|h: int| 0 <= h < g ==> (#[trigger] guilds[h]).id != guilds[g].id,
        0 <= i < guilds[g].channels@.len(),
        is_open_to(guilds[g].channels@[i]),
        category is None ==> forall|j: int| !#[trigger] is_under(guilds[g].channels@, i, j),
        category matches Some(j) ==> is_under(guilds[g].channels@, i, j),
    ensures
        ({
            let items = base_items(direct, guilds, guilds.len() as int);
            let channels = guilds[g].channels@;
            &&& open_count(direct, direct.len() as int) <= at < items.len()
            &&& is_row_of(items[at], channels[i])
            &&& items[at].guild_id == Some(guilds[g].id) && items[at].group_label == guilds[g].name@
            &&& category is None ==> items[at].parent_label is None
            &&& category matches Some(j) ==> items[at].parent_label == Some(channels[j].name@)
        }),
{
    let guild = guilds[g];
    let name = GuildName { id: guild.id, name: guild.name@ };
    let before = base_items(direct, guilds, g);
    let after = base_items(direct, guilds, g + 1);
    let channels = guild.channels@;
    assert(!crate::state::channel_switcher::guild_seen(guilds, g));
    let at = lemma_guild_row(before, name, channels, channels.len() as int, before.len() as usize, i, category);
    lemma_base_start(direct, guilds, g + 1, guilds.len() as int);
    lemma_start_at(after, base_items(direct, guilds, guilds.len() as int), at);
    lemma_base_start(direct, guilds, 0, g);
    lemma_with_direct(direct, direct.len() as int, 0);
    at
}

/// Whether something unread stands before something else.
pub open spec fn is_more_urgent(a: ChannelUnreadState, b: ChannelUnreadState) -> bool {
    match a {
        ChannelUnreadState::Mentioned(_) => !(b is Mentioned),
        ChannelUnreadState::Notified(_) => b is Unread || b is Seen,
        ChannelUnreadState::Unread => b is Seen,
        ChannelUnreadState::Seen => false,
    }
}

proof fn lemma_notifications(items: Seq<ItemView>, loud: Seq<bool>) -> (places: Seq<int>)
    requires
        loud.len() >= items.len(),
    ensures
        are_places(places, |i: int| loud[i], items.len() as int),
        notifications(items, loud).len() == places.len(),
        forall|k: int|
            0 <= k < places.len() ==> notifications(items, loud)[k] == as_notification(items[#[trigger] places[k]]),
    decreases items.len(),
{
    let wanted = |i: int| loud[i];
    if items.len() == 0 {
        seq![]
    } else {
        let rest = items.drop_last();
        let n = rest.len() as int;
        let front = lemma_notifications(rest, loud);
        lemma_places_push(front, wanted, n);
        let (all, some) = (notifications(items, loud), notifications(rest, loud));
        assert forall|k: int| 0 <= k < front.len() implies all[k] == as_notification(items[#[trigger] front[k]]) by {
            assert(all[k] == some[k]);
            assert(rest[front[k]] == items[front[k]]);
        }
        if wanted(n) {
            front.push(n)
        } else {
            front
        }
    }
}

/// The rows of the switcher: first those that ask for attention, each once, mentions before notifications before what
/// is unread, and then every channel in its place. `asking` gives the places of the former.
pub proof fn what_asks_for_attention_stands_first(base: Seq<ItemView>, loud: Seq<bool>, order: Seq<usize>) -> (asking: Seq<int>)
    requires
        loud.len() == base.len(),
        base.len() * 2 <= usize::MAX,
        is_order(unread_keys(notifications(base, loud)), notifications(base, loud).len() as int, order),
    ensures
        ({
            let items = all_items(base, loud, order);
            let n = asking.len() as int;
            &&& items.len() == n + base.len()
            &&& forall|i: int| 0 <= i < base.len() && #[trigger] loud[i] ==> asking.contains(i)
            &&& forall|k: int|
                0 <= k < n ==> 0 <= #[trigger] asking[k] < base.len() && loud[asking[k]] && items[k].channel_id
                    == base[asking[k]].channel_id && items[k].guild_id == base[asking[k]].guild_id
                    && items[k].channel_label == base[asking[k]].channel_label && items[k].group_label
                    == "Notifications"@ && items[k].parent_label == base[asking[k]].guild_name && items[k].group_order
                    == 0
            &&& forall|k: int, l: int|
                #![trigger asking[k], asking[l]]
                0 <= k < l < n ==> is_more_urgent(base[asking[k]].unread, base[asking[l]].unread) || !is_more_urgent(
                    base[asking[l]].unread,
                    base[asking[k]].unread,
                ) && asking[k] < asking[l]
            &&& forall|k: int|
                0 <= k < base.len() ==> (#[trigger] items[n + k]).channel_id == base[k].channel_id && items[n + k].guild_id
                    == base[k].guild_id && items[n + k].channel_label == base[k].channel_label && items[n
                    + k].group_label == base[k].group_label && items[n + k].parent_label == base[k].parent_label
                    && items[n + k].group_order > 0
            &&& forall|k: int| 0 <= k < items.len() ==> (#[trigger] items[k]).original_index == k
        }),
{
    let notes = notifications(base, loud);
    let keys = unread_keys(notes);
    let places = lemma_notifications(base, loud);
    let wanted = |i: int| loud[i];
    let asking = Seq::new(order.len(), |k: int| places[order[k] as int]);
    let n = asking.len() as int;
    let items = all_items(base, loud, order);
    lemma_places_len(places, wanted, base.len() as int);
    let front = in_order(notes, order);
    let back = base.map_values(|i: ItemView| behind(i));
    assert(items == numbered(front + back));
    assert forall|i: int| 0 <= i < base.len() && #[trigger] loud[i] implies asking.contains(i) by {
        assert(wanted(i));
        let p = choose|p: int| 0 <= p < places.len() && places[p] == i;
        orders_list_every_item(keys, notes.len() as int, order, p);
        let k = choose|k: int| 0 <= k < notes.len() && #[trigger] order[k] == p;
        assert(asking[k] == i);
    }
    assert forall|k: int| 0 <= k < n implies 0 <= #[trigger] asking[k] < base.len() && loud[asking[k]]
        && items[k].channel_id == base[asking[k]].channel_id && items[k].guild_id == base[asking[k]].guild_id
        && items[k].channel_label == base[asking[k]].channel_label && items[k].group_label == "Notifications"@
        && items[k].parent_label == base[asking[k]].guild_name && items[k].group_order == 0 by {
        assert(order[k] < notes.len());
        assert(wanted(places[order[k] as int]));
        assert((front + back)[k] == notes[order[k] as int]);
    }
    assert forall|k: int, l: int| #![trigger asking[k], asking[l]] 0 <= k < l < n implies is_more_urgent(
        base[asking[k]].unread,
        base[asking[l]].unread,
    ) || !is_more_urgent(base[asking[l]].unread, base[asking[k]].unread) && asking[k] < asking[l] by {
        let (p, q) = (order[k] as int, order[l] as int);
        assert(order[k] < notes.len() && order[l] < notes.len());
        assert(comes_before(keys, p, q));
        assert(notes[p] == as_notification(base[places[p]]));
        assert(notes[q] == as_notification(base[places[q]]));
        reveal_with_fuel(key_less, 2);
        if keys[p] == keys[q] {
            assert(keys[p][0] == keys[q][0]);
            assert(places[p] < places[q]);
        }
    }
    assert forall|k: int| 0 <= k < base.len() implies (#[trigger] items[n + k]).channel_id == base[k].channel_id && items[n
        + k].guild_id == base[k].guild_id && items[n + k].channel_label == base[k].channel_label && items[n
        + k].group_label == base[k].group_label && items[n + k].parent_label == base[k].parent_label && items[n
        + k].group_order > 0 by {
        assert((front + back)[n + k] == back[k]);
    }
    asking
}

proof fn lemma_places_len(places: Seq<int>, wanted: spec_fn(int) -> bool, n: int)
    requires
        are_places(places, wanted, n),
        n >= 0,
    ensures
        places.len() <= n,
    decreases places.len(),
{
    if places.len() > 0 {
        lemma_place_bound(places, wanted, n, places.len() - 1);
    }
}

proof fn lemma_place_bound(places: Seq<int>, wanted: spec_fn(int) -> bool, n: int, k: int)
    requires
        are_places(places, wanted, n),
        0 <= k < places.len(),
    ensures
        k <= places[k] < n,
    decreases k,
{
    if k > 0 {
        lemma_place_bound(places, wanted, n, k - 1);
        assert(places[k - 1] < places[k]);
    } else {
        assert(0 <= places[0]);
    }
}

/// The rows that match what was typed stand by their group, then by their score, the lower the better, then by their
/// place.
pub proof fn better_matches_stand_first(items: Seq<ItemView>, query: Seq<char>, found: Seq<ItemView>, k: int, l: int)
    requires
        is_filtered(items, query, found),
        0 <= k < l < found.len(),
    ensures
        fuzzy_score(found[k].search_name, query) is Some,
        fuzzy_score(found[l].search_name, query) is Some,
        ({
            let (a, b) = (found[k], found[l]);
            let (s, t) = (fuzzy_score(a.search_name, query)->0, fuzzy_score(b.search_name, query)->0);
            ||| a.group_order < b.group_order
            ||| a.group_order == b.group_order && s < t
            ||| a.group_order == b.group_order && s == t && a.original_index <= b.original_index
        }),
{
    let some = matching_items(items, query);
    let keys = match_keys(some, query);
    let order = choose|order: Seq<usize>| #[trigger]
        is_order(keys, some.len() as int, order) && found == in_order(some, order);
    crate::state::channel_switcher::lemma_matching(items, query);
    let (p, q) = (order[k] as int, order[l] as int);
    assert(order[k] < some.len() && order[l] < some.len());
    assert(found[k] == some[p] && found[l] == some[q]);
    assert(comes_before(keys, p, q));
    assert(keys[p] == match_key(some[p], query));
    assert(keys[q] == match_key(some[q], query));
    reveal_with_fuel(key_less, 4);
    if keys[p] == keys[q] {
        assert(keys[p][0] == keys[q][0]);
        assert(keys[p][1] == keys[q][1]);
        assert(keys[p][2] == keys[q][2]);
    }
}

} // verus!
