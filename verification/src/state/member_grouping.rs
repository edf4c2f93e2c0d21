//! The member list: its groups and its rows.

use crate::ids::{RoleId, UserId};
use crate::number::{parse_number, parsed_number};
use crate::state::sorting::{is_order, key_views, sorted_order};
use crate::text::{chars_of, opt_text, str_eq};
use crate::unicode::lowercase;
use vstd::prelude::*;
use vstd::string::*;

verus! {

#[derive(Clone, Copy, Debug, PartialEq, Eq, Structural)]
pub enum PresenceStatus {
    Online,
    Idle,
    DoNotDisturb,
    Offline,
    Unknown,
}

/// A member of a guild. The display name is the one in the guild, if there is one.
#[derive(Debug, PartialEq, Eq)]
pub struct GuildMemberState {
    pub user_id: UserId,
    pub display_name: String,
    pub username: Option<String>,
    pub nickname: Option<String>,
    pub is_bot: bool,
    pub status: PresenceStatus,
}

/// Someone in a private conversation.
#[derive(Debug, PartialEq, Eq)]
pub struct ChannelRecipientState {
    pub user_id: UserId,
    pub display_name: String,
    pub username: Option<String>,
    pub is_bot: bool,
    pub status: PresenceStatus,
}

#[derive(Debug, PartialEq, Eq)]
pub struct RoleState {
    pub id: RoleId,
    pub name: String,
    pub color: Option<u32>,
}

/// Someone in the member list.
#[derive(Clone, Copy, Debug)]
pub enum MemberEntry<'a> {
    Guild(&'a GuildMemberState),
    Recipient(&'a ChannelRecipientState),
}

/// A group of the member list. `count` may be more than the entries that are loaded.
#[derive(Debug)]
pub struct MemberGroup<'a> {
    pub label: String,
    pub color: Option<u32>,
    pub count: u64,
    pub entries: Vec<MemberEntry<'a>>,
}

/// The value of a [`MemberEntry`].
pub enum MemberView {
    Guild(GuildMemberState),
    Recipient(ChannelRecipientState),
}

impl<'a> View for MemberEntry<'a> {
    type V = MemberView;

    open spec fn view(&self) -> MemberView {
        match self {
            MemberEntry::Guild(m) => MemberView::Guild(**m),
            MemberEntry::Recipient(r) => MemberView::Recipient(**r),
        }
    }
}

pub open spec fn member_views<'a>(v: Seq<MemberEntry<'a>>) -> Seq<MemberView> {
    v.map_values(|e: MemberEntry<'a>| e@)
}

/// The value of a [`MemberGroup`].
pub struct GroupView {
    pub label: Seq<char>,
    pub color: Option<u32>,
    pub count: u64,
    pub entries: Seq<MemberView>,
}

impl<'a> View for MemberGroup<'a> {
    type V = GroupView;

    open spec fn view(&self) -> GroupView {
        GroupView { label: self.label@, color: self.color, count: self.count, entries: member_views(self.entries@) }
    }
}

pub open spec fn group_views<'a>(v: Seq<MemberGroup<'a>>) -> Seq<GroupView> {
    v.map_values(|g: MemberGroup<'a>| g@)
}

fn clone_optional(s: &Option<String>) -> (r: Option<String>)
    ensures
        opt_text(r) == opt_text(*s),
{
    match s {
        Some(s) => Some(s.clone()),
        None => None,
    }
}

impl MemberView {
    pub open spec fn id(self) -> UserId {
        match self {
            MemberView::Guild(m) => m.user_id,
            MemberView::Recipient(r) => r.user_id,
        }
    }

    pub open spec fn shown_name(self) -> Seq<char> {
        match self {
            MemberView::Guild(m) => m.display_name@,
            MemberView::Recipient(r) => r.display_name@,
        }
    }

    pub open spec fn login(self) -> Option<Seq<char>> {
        match self {
            MemberView::Guild(m) => opt_text(m.username),
            MemberView::Recipient(r) => opt_text(r.username),
        }
    }

    pub open spec fn bot(self) -> bool {
        match self {
            MemberView::Guild(m) => m.is_bot,
            MemberView::Recipient(r) => r.is_bot,
        }
    }

    pub open spec fn presence(self) -> PresenceStatus {
        match self {
            MemberView::Guild(m) => m.status,
            MemberView::Recipient(r) => r.status,
        }
    }
}

impl<'a> MemberEntry<'a> {
    pub fn user_id(self) -> (r: UserId)
        ensures
            r == self@.id(),
    {
        match self {
            MemberEntry::Guild(member) => member.user_id,
            MemberEntry::Recipient(recipient) => recipient.user_id,
        }
    }

    pub fn display_name(self) -> (r: String)
        ensures
            r@ == self@.shown_name(),
    {
        match self {
            MemberEntry::Guild(member) => member.display_name.clone(),
            MemberEntry::Recipient(recipient) => recipient.display_name.clone(),
        }
    }

    /// The name that someone logs in with.
    pub fn username(self) -> (r: Option<String>)
        ensures
            opt_text(r) == self@.login(),
    {
        match self {
            MemberEntry::Guild(member) => clone_optional(&member.username),
            MemberEntry::Recipient(recipient) => clone_optional(&recipient.username),
        }
    }

    /// A name besides the login name that a search may find: the nickname in a guild, the display name
    /// in a private conversation.
    pub fn member_search_alias(self) -> (r: Option<String>)
        ensures
            opt_text(r) == (match self@ {
                MemberView::Guild(m) => opt_text(m.nickname),
                MemberView::Recipient(r) => Some(r.display_name@),
            }),
    {
        match self {
            MemberEntry::Guild(member) => clone_optional(&member.nickname),
            MemberEntry::Recipient(recipient) => Some(recipient.display_name.clone()),
        }
    }

    /// Whether nothing is known of someone but the identifier.
    pub fn has_fallback_identity(self) -> (r: bool)
        ensures
            r == (self@.login() is None && self@.shown_name() == "unknown"@),
    {
        match self {
            MemberEntry::Guild(member) => member.username.is_none() && str_eq(member.display_name.as_str(), "unknown"),
            MemberEntry::Recipient(recipient) => recipient.username.is_none() && str_eq(
                recipient.display_name.as_str(),
                "unknown",
            ),
        }
    }

    pub fn is_bot(self) -> (r: bool)
        ensures
            r == self@.bot(),
    {
        match self {
            MemberEntry::Guild(member) => member.is_bot,
            MemberEntry::Recipient(recipient) => recipient.is_bot,
        }
    }

    pub fn status(self) -> (r: PresenceStatus)
        ensures
            r == self@.presence(),
    {
        match self {
            MemberEntry::Guild(member) => member.status,
            MemberEntry::Recipient(recipient) => recipient.status,
        }
    }
}

/// A line of the list as it is loaded: a heading, or someone.
#[derive(Debug, PartialEq, Eq)]
pub enum GuildMemberListEntry {
    Group { id: String, count: u64 },
    Member { user_id: UserId },
}

/// A line with its place in the whole list.
#[derive(Debug, PartialEq, Eq)]
pub struct IndexedEntry {
    pub index: u32,
    pub entry: GuildMemberListEntry,
}

/// The place of a member in a list, or its end.
pub open spec fn place_of_member(members: Seq<GuildMemberState>, id: UserId) -> int
    decreases members.len(),
{
    if members.len() == 0 || members[0].user_id == id {
        0
    } else {
        1 + place_of_member(members.drop_first(), id)
    }
}

pub open spec fn place_of_role(roles: Seq<RoleState>, id: RoleId) -> int
    decreases roles.len(),
{
    if roles.len() == 0 || roles[0].id == id {
        0
    } else {
        1 + place_of_role(roles.drop_first(), id)
    }
}

fn find_member(members: &Vec<GuildMemberState>, id: UserId) -> (r: Option<usize>)
    ensures
        match r {
            Some(i) => i < members@.len() && place_of_member(members@, id) == i,
            None => place_of_member(members@, id) == members@.len(),
        },
{
    let mut i: usize = 0;
    assert(members@.skip(0) =~= members@);
    while i < members.len()
        invariant
            i <= members@.len(),
            place_of_member(members@, id) == i + place_of_member(members@.skip(i as int), id),
        decreases members@.len() - i,
    {
        if members[i].user_id == id {
            return Some(i);
        }
        assert(members@.skip(i as int).drop_first() =~= members@.skip(i + 1));
        i += 1;
    }
    None
}

fn find_role(roles: &Vec<RoleState>, id: RoleId) -> (r: Option<usize>)
    ensures
        match r {
            Some(i) => i < roles@.len() && place_of_role(roles@, id) == i,
            None => place_of_role(roles@, id) == roles@.len(),
        },
{
    let mut i: usize = 0;
    assert(roles@.skip(0) =~= roles@);
    while i < roles.len()
        invariant
            i <= roles@.len(),
            place_of_role(roles@, id) == i + place_of_role(roles@.skip(i as int), id),
        decreases roles@.len() - i,
    {
        if roles[i].id == id {
            return Some(i);
        }
        assert(roles@.skip(i as int).drop_first() =~= roles@.skip(i + 1));
        i += 1;
    }
    None
}

/// An empty group with the heading of a line. A group is named by a role, or is one of those who are
/// online and offline.
pub open spec fn headed(id: Seq<char>, count: u64, roles: Seq<RoleState>) -> GroupView {
    let empty = Seq::<MemberView>::empty();
    if id == "online"@ {
        GroupView { label: "Online"@, color: None, count, entries: empty }
    } else if id == "offline"@ {
        GroupView { label: "Offline"@, color: None, count, entries: empty }
    } else {
        match parsed_number(id) {
            Some(n) => if n > 0 && place_of_role(roles, n) < roles.len() {
                let role = roles[place_of_role(roles, n)];
                GroupView { label: role.name@, color: role.color, count, entries: empty }
            } else {
                GroupView { label: "Members"@, color: None, count, entries: empty }
            },
            None => GroupView { label: "Members"@, color: None, count, entries: empty },
        }
    }
}

fn member_group<'a>(id: &str, count: u64, roles: &Vec<RoleState>) -> (r: MemberGroup<'a>)
    ensures
        r@ == headed(id@, count, roles@),
{
    let entries: Vec<MemberEntry<'a>> = Vec::new();
    assert(member_views(entries@) =~= Seq::<MemberView>::empty());
    if str_eq(id, "online") {
        return MemberGroup { label: "Online".to_string(), color: None, count, entries };
    }
    if str_eq(id, "offline") {
        return MemberGroup { label: "Offline".to_string(), color: None, count, entries };
    }
    if let Some(n) = parse_number(id) {
        if n > 0 {
            if let Some(i) = find_role(roles, n) {
                return MemberGroup { label: roles[i].name.clone(), color: roles[i].color, count, entries };
            }
        }
    }
    MemberGroup { label: "Members".to_string(), color: None, count, entries }
}

/// The groups so far: whether the last one takes more members, whether it has no heading of its own, and
/// the place of the last line.
pub struct Grouping {
    pub groups: Seq<GroupView>,
    pub open: bool,
    pub implicit: bool,
    pub previous: Option<u32>,
}

/// The groups with one more line. After a gap in the places nothing is known of the group that a member
/// belongs to.
pub open spec fn with_line(
    g: Grouping,
    line: IndexedEntry,
    members: Seq<GuildMemberState>,
    roles: Seq<RoleState>,
) -> Grouping {
    let joined = match g.previous {
        Some(previous) => previous + 1 == line.index,
        None => true,
    };
    let open = g.open && joined;
    let implicit = g.implicit && joined;
    match line.entry {
        GuildMemberListEntry::Group { id, count } => Grouping {
            groups: g.groups.push(headed(id@, count, roles)),
            open: true,
            implicit: false,
            previous: Some(line.index),
        },
        GuildMemberListEntry::Member { user_id } => {
            let at = place_of_member(members, user_id);
            if at >= members.len() {
                Grouping { groups: g.groups, open, implicit, previous: Some(line.index) }
            } else {
                let entry = MemberView::Guild(members[at]);
                let groups = if open {
                    g.groups
                } else {
                    g.groups.push(GroupView { label: "Members"@, color: None, count: 0, entries: Seq::empty() })
                };
                let counts = if open { implicit } else { true };
                let last = groups.last();
                Grouping {
                    groups: groups.drop_last().push(
                        GroupView {
                            count: if counts && last.count < u64::MAX { (last.count + 1) as u64 } else { last.count },
                            entries: last.entries.push(entry),
                            ..last
                        },
                    ),
                    open: true,
                    implicit: counts,
                    previous: Some(line.index),
                }
            }
        },
    }
}

pub open spec fn grouping(lines: Seq<IndexedEntry>, members: Seq<GuildMemberState>, roles: Seq<RoleState>) -> Grouping
    decreases lines.len(),
{
    if lines.len() == 0 {
        Grouping { groups: Seq::empty(), open: false, implicit: false, previous: None }
    } else {
        with_line(grouping(lines.drop_last(), members, roles), lines.last(), members, roles)
    }
}

proof fn lemma_groups_push<'a>(v: Seq<MemberGroup<'a>>, g: MemberGroup<'a>)
    ensures
        group_views(v.push(g)) == group_views(v).push(g@),
{
    assert(group_views(v.push(g)) =~= group_views(v).push(g@));
}

/// The groups of a member list.
pub fn guild_member_groups<'a>(
    lines: &Vec<IndexedEntry>,
    members: &'a Vec<GuildMemberState>,
    roles: &Vec<RoleState>,
) -> (r: Vec<MemberGroup<'a>>)
    ensures
        group_views(r@) == grouping(lines@, members@, roles@).groups,
{
    let mut groups: Vec<MemberGroup<'a>> = Vec::new();
    let mut open = false;
    let mut implicit = false;
    let mut previous: Option<u32> = None;
    let mut i: usize = 0;
    assert(lines@.take(0) =~= Seq::<IndexedEntry>::empty());
    assert(group_views(groups@) =~= Seq::<GroupView>::empty());
    while i < lines.len()
        invariant
            i <= lines@.len(),
            group_views(groups@) == grouping(lines@.take(i as int), members@, roles@).groups,
            open == grouping(lines@.take(i as int), members@, roles@).open,
            implicit == grouping(lines@.take(i as int), members@, roles@).implicit,
            previous == grouping(lines@.take(i as int), members@, roles@).previous,
            open ==> groups@.len() > 0,
        decreases lines@.len() - i,
    {
        let ghost g = grouping(lines@.take(i as int), members@, roles@);
        assert(lines@.take(i + 1).drop_last() =~= lines@.take(i as int));
        let line = &lines[i];
        let joined = match previous {
            Some(p) => p < u32::MAX && p + 1 == line.index,
            None => true,
        };
        if !joined {
            open = false;
            implicit = false;
        }
        match &line.entry {
            GuildMemberListEntry::Group { id, count } => {
                let ghost before = groups@;
                let group = member_group(id.as_str(), *count, roles);
                proof {
                    lemma_groups_push(before, group);
                }
                groups.push(group);
                open = true;
                implicit = false;
            },
            GuildMemberListEntry::Member { user_id } => {
                if let Some(at) = find_member(members, *user_id) {
                    if !open {
                        let entries: Vec<MemberEntry<'a>> = Vec::new();
                        assert(member_views(entries@) =~= Seq::<MemberView>::empty());
                        let group = MemberGroup { label: "Members".to_string(), color: None, count: 0, entries };
                        proof {
                            lemma_groups_push(groups@, group);
                        }
                        groups.push(group);
                        open = true;
                        implicit = true;
                    }
                    let ghost all = groups@;
                    assert(group_views(all).last() == all.last()@);
                    assert(group_views(all).drop_last() =~= group_views(all.drop_last()));
                    if let Some(last) = groups.pop() {
                        let mut group = last;
                        if implicit && group.count < u64::MAX {
                            group.count = group.count + 1;
                        }
                        let ghost entries = group.entries@;
                        let entry = MemberEntry::Guild(&members[at]);
                        group.entries.push(entry);
                        proof {
                            assert(member_views(group.entries@) =~= member_views(entries).push(entry@));
                            lemma_groups_push(groups@, group);
                        }
                        groups.push(group);
                    }
                }
            },
        }
        previous = Some(line.index);
        i += 1;
    }
    assert(lines@.take(i as int) =~= lines@);
    groups
}

/// The one group of a private conversation. `recipients` are in the order in which they are shown.
pub fn channel_recipient_group<'a>(direct_message: bool, recipients: &'a Vec<ChannelRecipientState>) -> (r: Vec<
    MemberGroup<'a>,
>)
    ensures
        group_views(r@) == (if !direct_message || recipients@.len() == 0 {
            Seq::empty()
        } else {
            seq![
                GroupView {
                    label: "Members"@,
                    color: None,
                    count: recipients@.len() as u64,
                    entries: recipients@.map_values(|r: ChannelRecipientState| MemberView::Recipient(r)),
                },
            ]
        }),
{
    let mut groups: Vec<MemberGroup<'a>> = Vec::new();
    if !direct_message || recipients.len() == 0 {
        assert(group_views(groups@) =~= Seq::<GroupView>::empty());
        return groups;
    }
    let ghost all = recipients@.map_values(|r: ChannelRecipientState| MemberView::Recipient(r));
    let mut entries: Vec<MemberEntry<'a>> = Vec::new();
    let mut i: usize = 0;
    assert(member_views(entries@) =~= all.take(0));
    while i < recipients.len()
        invariant
            i <= recipients@.len(),
            all == recipients@.map_values(|r: ChannelRecipientState| MemberView::Recipient(r)),
            member_views(entries@) == all.take(i as int),
        decreases recipients@.len() - i,
    {
        let ghost before = entries@;
        let entry = MemberEntry::Recipient(&recipients[i]);
        entries.push(entry);
        assert(member_views(entries@) =~= member_views(before).push(entry@));
        assert(all.take(i + 1) =~= all.take(i as int).push(all[i as int]));
        i += 1;
    }
    assert(all.take(i as int) =~= all);
    let group = MemberGroup { label: "Members".to_string(), color: None, count: recipients.len() as u64, entries };
    groups.push(group);
    assert(group_views(groups@) =~= seq![group@]);
    groups
}

/// How members are ranked by their presence.
pub open spec fn status_rank(status: PresenceStatus) -> u64 {
    match status {
        PresenceStatus::Online => 0,
        PresenceStatus::Idle => 1,
        PresenceStatus::DoNotDisturb => 2,
        PresenceStatus::Offline => 3,
        PresenceStatus::Unknown => 4,
    }
}

pub fn member_status_rank(status: PresenceStatus) -> (r: u64)
    ensures
        r == status_rank(status),
{
    match status {
        PresenceStatus::Online => 0,
        PresenceStatus::Idle => 1,
        PresenceStatus::DoNotDisturb => 2,
        PresenceStatus::Offline => 3,
        PresenceStatus::Unknown => 4,
    }
}

/// What the members of a thread are sorted by: presence, then name without regard to case.
pub open spec fn thread_member_key(m: GuildMemberState) -> Seq<u64> {
    seq![status_rank(m.status)] + lowercase(m.display_name@).map_values(|c: char| c as u64)
}

pub open spec fn thread_member_keys(members: Seq<GuildMemberState>) -> Seq<Seq<u64>> {
    members.map_values(|m: GuildMemberState| thread_member_key(m))
}

fn thread_key(m: &GuildMemberState) -> (r: Vec<u64>)
    ensures
        r@ == thread_member_key(*m),
{
    let name = m.display_name.as_str().to_lowercase();
    let cs = chars_of(name.as_str());
    let mut key: Vec<u64> = Vec::new();
    key.push(member_status_rank(m.status));
    let ghost tail = name@.map_values(|c: char| c as u64);
    let mut i: usize = 0;
    assert(key@ =~= seq![status_rank(m.status)] + tail.take(0));
    while i < cs.len()
        invariant
            cs@ == name@,
            i <= cs@.len(),
            tail == name@.map_values(|c: char| c as u64),
            key@ == seq![status_rank(m.status)] + tail.take(i as int),
        decreases cs@.len() - i,
    {
        key.push(cs[i] as u64);
        assert(tail.take(i + 1) =~= tail.take(i as int).push(cs@[i as int] as u64));
        assert(key@ =~= seq![status_rank(m.status)] + tail.take(i + 1));
        i += 1;
    }
    assert(tail.take(i as int) =~= tail);
    key
}

/// The entries of members in an order.
pub open spec fn ordered_members(members: Seq<GuildMemberState>, order: Seq<usize>) -> Seq<MemberView> {
    order.map_values(|i: usize| MemberView::Guild(members[i as int]))
}

/// The one group of a thread, sorted.
pub fn thread_member_group<'a>(members: &'a Vec<GuildMemberState>) -> (r: Vec<MemberGroup<'a>>)
    ensures
        members@.len() == 0 ==> r@.len() == 0,
        members@.len() > 0 ==> r@.len() == 1 && r@[0].label@ == "Members"@ && r@[0].color is None && r@[0].count
            == members@.len() && exists|order: Seq<usize>| #[trigger]
            is_order(thread_member_keys(members@), members@.len() as int, order) && member_views(r@[0].entries@)
                == ordered_members(members@, order),
{
    let mut groups: Vec<MemberGroup<'a>> = Vec::new();
    if members.len() == 0 {
        return groups;
    }
    let mut keys: Vec<Vec<u64>> = Vec::new();
    let ghost wanted = thread_member_keys(members@);
    let mut i: usize = 0;
    assert(key_views(keys@) =~= wanted.take(0));
    while i < members.len()
        invariant
            i <= members@.len(),
            wanted == thread_member_keys(members@),
            key_views(keys@) == wanted.take(i as int),
        decreases members@.len() - i,
    {
        let ghost before = keys@;
        let key = thread_key(&members[i]);
        keys.push(key);
        assert(key_views(keys@) =~= key_views(before).push(key@));
        assert(wanted.take(i + 1) =~= wanted.take(i as int).push(wanted[i as int]));
        i += 1;
    }
    assert(wanted.take(i as int) =~= wanted);
    assert(keys@.len() == members@.len()) by {
        assert(key_views(keys@).len() == keys@.len());
    }
    let order = sorted_order(&keys);
    let ghost all = ordered_members(members@, order@);
    let mut entries: Vec<MemberEntry<'a>> = Vec::new();
    let mut j: usize = 0;
    assert(member_views(entries@) =~= all.take(0));
    while j < order.len()
        invariant
            j <= order@.len(),
            all == ordered_members(members@, order@),
            is_order(wanted, members@.len() as int, order@),
            member_views(entries@) == all.take(j as int),
        decreases order@.len() - j,
    {
        let ghost before = entries@;
        assert(order@[j as int] < members@.len());
        let entry = MemberEntry::Guild(&members[order[j]]);
        entries.push(entry);
        assert(member_views(entries@) =~= member_views(before).push(entry@));
        assert(all.take(j + 1) =~= all.take(j as int).push(all[j as int]));
        j += 1;
    }
    assert(all.take(j as int) =~= all);
    let group = MemberGroup { label: "Members".to_string(), color: None, count: members.len() as u64, entries };
    groups.push(group);
    groups
}

/// All entries, group after group.
pub open spec fn flattened(groups: Seq<GroupView>) -> Seq<MemberView>
    decreases groups.len(),
{
    if groups.len() == 0 {
        Seq::empty()
    } else {
        flattened(groups.drop_last()) + groups.last().entries
    }
}

pub fn flatten_member_groups<'a>(groups: Vec<MemberGroup<'a>>) -> (r: Vec<MemberEntry<'a>>)
    ensures
        member_views(r@) == flattened(group_views(groups@)),
{
    let ghost views = group_views(groups@);
    let mut out: Vec<MemberEntry<'a>> = Vec::new();
    assert(views.take(0) =~= Seq::<GroupView>::empty());
    assert(member_views(out@) =~= Seq::<MemberView>::empty());
    for group in it: groups
        invariant
            it.seq() == groups@,
            views == group_views(groups@),
            member_views(out@) == flattened(views.take(it.index() as int)),
    {
        let ghost i = it.index() as int;
        let ghost before = out@;
        assert(views[i] == group@);
        assert(views.take(i + 1).drop_last() =~= views.take(i));
        let mut entries = group.entries;
        let ghost more = entries@;
        out.append(&mut entries);
        assert(member_views(out@) =~= member_views(before) + member_views(more));
    }
    assert(views.take(views.len() as int) =~= views);
    out
}

/// A line of the member pane. Members are counted through all groups.
#[derive(Clone, Copy, Debug, PartialEq, Eq, Structural)]
pub enum MemberRow {
    Gap,
    GroupHeader { group: usize },
    Member { member_index: usize },
    Activity { member_index: usize },
}

/// The lines of some members, the first of which has number `first`. Those who do something have a
/// second line.
pub open spec fn member_lines(active: Seq<bool>, first: int) -> Seq<MemberRow>
    decreases active.len(),
{
    if active.len() == 0 {
        Seq::empty()
    } else {
        let index = (first + active.len() - 1) as usize;
        let rows = member_lines(active.drop_last(), first).push(MemberRow::Member { member_index: index });
        if active.last() {
            rows.push(MemberRow::Activity { member_index: index })
        } else {
            rows
        }
    }
}

/// How many members the groups have.
pub open spec fn member_total(groups: Seq<Seq<bool>>) -> int
    decreases groups.len(),
{
    if groups.len() == 0 {
        0
    } else {
        member_total(groups.drop_last()) + groups.last().len()
    }
}

/// The lines of the pane: a heading for each group, a gap between groups.
pub open spec fn pane_lines(groups: Seq<Seq<bool>>) -> Seq<MemberRow>
    decreases groups.len(),
{
    if groups.len() == 0 {
        Seq::empty()
    } else {
        let rest = groups.drop_last();
        let gap = if rest.len() > 0 { pane_lines(rest).push(MemberRow::Gap) } else { Seq::empty() };
        gap.push(MemberRow::GroupHeader { group: rest.len() as usize }) + member_lines(groups.last(), member_total(rest))
    }
}

pub open spec fn flags(groups: Seq<Vec<bool>>) -> Seq<Seq<bool>> {
    groups.map_values(|g: Vec<bool>| g@)
}

proof fn lemma_member_total(groups: Seq<Seq<bool>>, k: int)
    requires
        0 <= k <= groups.len(),
    ensures
        0 <= member_total(groups.take(k)) <= member_total(groups),
    decreases groups.len() - k,
{
    if k < groups.len() {
        lemma_member_total(groups, k + 1);
        assert(groups.take(k + 1).drop_last() =~= groups.take(k));
        lemma_total_nonneg(groups.take(k));
    } else {
        assert(groups.take(k) =~= groups);
        lemma_total_nonneg(groups);
    }
}

proof fn lemma_total_nonneg(groups: Seq<Seq<bool>>)
    ensures
        0 <= member_total(groups),
    decreases groups.len(),
{
    if groups.len() > 0 {
        lemma_total_nonneg(groups.drop_last());
    }
}

/// How many members the groups have.
pub fn member_count(active: &Vec<Vec<bool>>) -> (r: usize)
    requires
        member_total(flags(active@)) <= usize::MAX,
    ensures
        r == member_total(flags(active@)),
{
    let ghost groups = flags(active@);
    let mut total: usize = 0;
    let mut g: usize = 0;
    assert(groups.take(0) =~= Seq::<Seq<bool>>::empty());
    while g < active.len()
        invariant
            groups == flags(active@),
            member_total(groups) <= usize::MAX,
            g <= active@.len(),
            total == member_total(groups.take(g as int)),
        decreases active@.len() - g,
    {
        proof {
            lemma_member_total(groups, g + 1);
            assert(groups.take(g + 1).drop_last() =~= groups.take(g as int));
        }
        total = total + active[g].len();
        g += 1;
    }
    assert(groups.take(g as int) =~= groups);
    total
}

/// The lines of the member pane. `active` says of each member of each group whether there is a line with
/// what the member does.
pub fn member_rows(active: &Vec<Vec<bool>>) -> (r: Vec<MemberRow>)
    requires
        member_total(flags(active@)) <= usize::MAX,
    ensures
        r@ == pane_lines(flags(active@)),
{
    let ghost groups = flags(active@);
    let mut out: Vec<MemberRow> = Vec::new();
    let mut first: usize = 0;
    let mut g: usize = 0;
    assert(groups.take(0) =~= Seq::<Seq<bool>>::empty());
    while g < active.len()
        invariant
            groups == flags(active@),
            member_total(groups) <= usize::MAX,
            g <= active@.len(),
            first == member_total(groups.take(g as int)),
            out@ == pane_lines(groups.take(g as int)),
        decreases active@.len() - g,
    {
        let ghost rest = groups.take(g as int);
        assert(groups.take(g + 1).drop_last() =~= rest);
        if g > 0 {
            out.push(MemberRow::Gap);
        }
        out.push(MemberRow::GroupHeader { group: g });
        let ghost head = out@;
        let members = &active[g];
        assert(groups[g as int] == members@);
        proof {
            lemma_member_total(groups, g + 1);
            lemma_total_nonneg(rest);
        }
        let mut i: usize = 0;
        assert(head =~= head + member_lines(members@.take(0), first as int));
        while i < members.len()
            invariant
                i <= members@.len(),
                first + members@.len() <= usize::MAX,
                out@ == head + member_lines(members@.take(i as int), first as int),
            decreases members@.len() - i,
        {
            assert(members@.take(i + 1).drop_last() =~= members@.take(i as int));
            out.push(MemberRow::Member { member_index: first + i });
            if members[i] {
                out.push(MemberRow::Activity { member_index: first + i });
            }
            assert(out@ =~= head + member_lines(members@.take(i + 1), first as int));
            i += 1;
        }
        assert(members@.take(i as int) =~= members@);
        first = first + members.len();
        assert(out@ =~= pane_lines(groups.take(g + 1)));
        g += 1;
    }
    assert(groups.take(g as int) =~= groups);
    out
}

/// Whether a member has a line with what the member does.
pub fn member_has_activity_row(status: PresenceStatus, activities: usize) -> (r: bool)
    ensures
        r == (!(status is Offline) && !(status is Unknown) && activities > 0),
{
    !matches!(status, PresenceStatus::Offline) && !matches!(status, PresenceStatus::Unknown) && activities > 0
}

/// The line of a member, or the end where there is none.
pub open spec fn line_of(rows: Seq<MemberRow>, member: usize) -> int
    decreases rows.len(),
{
    if rows.len() == 0 || rows[0] == (MemberRow::Member { member_index: member }) {
        0
    } else {
        1 + line_of(rows.drop_first(), member)
    }
}

/// The line that the cursor is on, or the first where there are no members.
pub fn selected_member_line(rows: &Vec<MemberRow>, member: usize) -> (r: usize)
    ensures
        r == (if line_of(rows@, member) < rows@.len() { line_of(rows@, member) } else { 0 }),
{
    let mut i: usize = 0;
    assert(rows@.skip(0) =~= rows@);
    while i < rows.len()
        invariant
            i <= rows@.len(),
            line_of(rows@, member) == i + line_of(rows@.skip(i as int), member),
        decreases rows@.len() - i,
    {
        let row = rows[i];
        assert(rows@.skip(i as int)[0] == row);
        assert(rows@.skip(i as int).drop_first() =~= rows@.skip(i + 1));
        if let MemberRow::Member { member_index } = row {
            if member_index == member {
                return i;
            }
        }
        i += 1;
    }
    0
}

/// The first member at or below a line, or else the last member.
pub open spec fn member_near(rows: Seq<MemberRow>, line: int) -> Option<usize>
    decreases rows.len(),
{
    if rows.len() == 0 {
        None
    } else {
        match rows.last() {
            MemberRow::Member { member_index } => if rows.len() - 1 >= line {
                match member_near(rows.drop_last(), line) {
                    Some(found) => if has_member_from(rows.drop_last(), line) {
                        Some(found)
                    } else {
                        Some(member_index)
                    },
                    None => Some(member_index),
                }
            } else {
                Some(member_index)
            },
            _ => member_near(rows.drop_last(), line),
        }
    }
}

/// Whether there is a member at or below a line.
pub open spec fn has_member_from(rows: Seq<MemberRow>, line: int) -> bool {
    exists|i: int| line <= i < rows.len() && 0 <= i && #[trigger] rows[i] is Member
}

pub fn select_member_near_line(rows: &Vec<MemberRow>, line: usize) -> (r: Option<usize>)
    ensures
        r == member_near(rows@, line as int),
{
    let mut best: Option<usize> = None;
    let mut found = false;
    let mut i: usize = 0;
    assert(rows@.take(0) =~= Seq::<MemberRow>::empty());
    while i < rows.len()
        invariant
            i <= rows@.len(),
            best == member_near(rows@.take(i as int), line as int),
            found == has_member_from(rows@.take(i as int), line as int),
        decreases rows@.len() - i,
    {
        let ghost less = rows@.take(i as int);
        let ghost more = rows@.take(i + 1);
        assert(more.drop_last() =~= less);
        assert(more.last() == rows@[i as int]);
        let row = rows[i];
        proof {
            assert(has_member_from(more, line as int) == (has_member_from(less, line as int) || (i >= line && row is Member)))
                by {
                if has_member_from(less, line as int) {
                    let k = choose|k: int| line <= k < less.len() && 0 <= k && #[trigger] less[k] is Member;
                    assert(more[k] is Member);
                }
                if i >= line && row is Member {
                    assert(more[i as int] is Member);
                }
                if has_member_from(more, line as int) {
                    let k = choose|k: int| line <= k < more.len() && 0 <= k && #[trigger] more[k] is Member;
                    if k < i {
                        assert(less[k] is Member);
                    }
                }
            }
            if found {
                lemma_member_near(less, line as int);
            }
        }
        if let MemberRow::Member { member_index } = row {
            if !found {
                best = Some(member_index);
                if i >= line {
                    found = true;
                }
            }
        }
        i += 1;
    }
    assert(rows@.take(i as int) =~= rows@);
    best
}

proof fn lemma_member_near(rows: Seq<MemberRow>, line: int)
    requires
        has_member_from(rows, line),
    ensures
        member_near(rows, line) is Some,
    decreases rows.len(),
{
    if rows.len() > 0 && !(rows.last() is Member) {
        let k = choose|k: int| line <= k < rows.len() && 0 <= k && #[trigger] rows[k] is Member;
        assert(rows.drop_last()[k] is Member);
        lemma_member_near(rows.drop_last(), line);
    }
}

/// Every member has a line of its own.
pub proof fn every_member_has_a_line(groups: Seq<Seq<bool>>, member: usize)
    requires
        member < member_total(groups) <= usize::MAX,
    ensures
        exists|i: int| 0 <= i < pane_lines(groups).len() && #[trigger] pane_lines(groups)[i] == (MemberRow::Member {
            member_index: member,
        }),
    decreases groups.len(),
{
    let rest = groups.drop_last();
    lemma_total_nonneg(rest);
    let rows = pane_lines(groups);
    let gap = if rest.len() > 0 { pane_lines(rest).push(MemberRow::Gap) } else { Seq::empty() };
    let head = gap.push(MemberRow::GroupHeader { group: rest.len() as usize });
    if member < member_total(rest) {
        every_member_has_a_line(rest, member);
        let before = pane_lines(rest);
        let i = choose|i: int| 0 <= i < before.len() && #[trigger] before[i] == (MemberRow::Member { member_index: member });
        assert(rows[i] == before[i]);
    } else {
        lemma_member_lines(groups.last(), member_total(rest), member);
        let lines = member_lines(groups.last(), member_total(rest));
        let i = choose|i: int| 0 <= i < lines.len() && #[trigger] lines[i] == (MemberRow::Member { member_index: member });
        assert(rows[head.len() + i] == lines[i]);
    }
}

proof fn lemma_member_lines(active: Seq<bool>, first: int, member: usize)
    requires
        0 <= first <= member < first + active.len() <= usize::MAX,
    ensures
        exists|i: int| 0 <= i < member_lines(active, first).len() && #[trigger] member_lines(active, first)[i]
            == (MemberRow::Member { member_index: member }),
    decreases active.len(),
{
    let rows = member_lines(active, first);
    let rest = member_lines(active.drop_last(), first);
    if member == first + active.len() - 1 {
        assert(rows[rest.len() as int] == (MemberRow::Member { member_index: member }));
    } else {
        lemma_member_lines(active.drop_last(), first, member);
        let i = choose|i: int| 0 <= i < rest.len() && #[trigger] rest[i] == (MemberRow::Member { member_index: member });
        assert(rows[i] == rest[i]);
    }
}

} // verus!
