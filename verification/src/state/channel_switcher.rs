//! The popup that finds a channel by its name.

use crate::ids::{ChannelId, GuildId};
use crate::state::channel_pane::ChannelKind;
use crate::state::fuzzy::{fuzzy_score, fuzzy_text_score};
use crate::state::model::{branch_of, ChannelBranch};
use crate::state::pane_filter::PaneFilterState;
use crate::state::scroll::{clamp_selected_index, last_of, least, min_of, minus};
use crate::state::sorting::{is_order, key_views, sorted_order};
use crate::text::{opt_text, utf8_len};
use crate::unicode::{trim_text, trimmed};
use vstd::prelude::*;
use vstd::string::*;

verus! {

#[derive(Clone, Copy, Debug, PartialEq, Eq, Structural)]
pub enum ChannelUnreadState {
    Seen,
    Unread,
    Notified(u32),
    Mentioned(u32),
}

/// What the switcher needs to know of a channel.
#[derive(Debug, PartialEq, Eq)]
pub struct SwitcherChannel {
    pub id: ChannelId,
    pub parent_id: Option<ChannelId>,
    pub kind: ChannelKind,
    pub name: String,
    pub unread: ChannelUnreadState,
    pub unread_message_count: usize,
    /// Whether the list of channels marks it as unread.
    pub marked_unread: bool,
}

/// A guild with its channels, in the order in which they are shown.
#[derive(Debug, PartialEq, Eq)]
pub struct SwitcherGuild {
    pub id: GuildId,
    pub name: String,
    pub muted: bool,
    pub channels: Vec<SwitcherChannel>,
}

/// A row of the switcher.
#[derive(Debug, PartialEq, Eq)]
pub struct ChannelSwitcherItem {
    pub channel_id: ChannelId,
    pub guild_id: Option<GuildId>,
    pub guild_name: Option<String>,
    pub group_label: String,
    pub parent_label: Option<String>,
    pub channel_label: String,
    pub unread: ChannelUnreadState,
    pub unread_message_count: usize,
    pub search_name: String,
    pub depth: usize,
    pub group_order: usize,
    pub original_index: usize,
}

/// The value of a [`ChannelSwitcherItem`].
pub struct ItemView {
    pub channel_id: ChannelId,
    pub guild_id: Option<GuildId>,
    pub guild_name: Option<Seq<char>>,
    pub group_label: Seq<char>,
    pub parent_label: Option<Seq<char>>,
    pub channel_label: Seq<char>,
    pub unread: ChannelUnreadState,
    pub unread_message_count: usize,
    pub search_name: Seq<char>,
    pub depth: usize,
    pub group_order: usize,
    pub original_index: usize,
}

impl View for ChannelSwitcherItem {
    type V = ItemView;

    open spec fn view(&self) -> ItemView {
        ItemView {
            channel_id: self.channel_id,
            guild_id: self.guild_id,
            guild_name: opt_text(self.guild_name),
            group_label: self.group_label@,
            parent_label: opt_text(self.parent_label),
            channel_label: self.channel_label@,
            unread: self.unread,
            unread_message_count: self.unread_message_count,
            search_name: self.search_name@,
            depth: self.depth,
            group_order: self.group_order,
            original_index: self.original_index,
        }
    }
}

pub open spec fn item_views(v: Seq<ChannelSwitcherItem>) -> Seq<ItemView> {
    v.map_values(|i: ChannelSwitcherItem| i@)
}

/// A conversation between two is marked with an at sign, a channel of a guild with a number sign.
pub open spec fn switcher_label(c: SwitcherChannel) -> Seq<char> {
    match c.kind {
        ChannelKind::DirectMessage => "@"@ + c.name@,
        ChannelKind::GroupDirectMessage => c.name@,
        _ => "#"@ + c.name@,
    }
}

pub fn channel_switcher_channel_label(c: &SwitcherChannel) -> (r: String)
    ensures
        r@ == switcher_label(*c),
{
    match c.kind {
        ChannelKind::DirectMessage => {
            let mut label = "@".to_string();
            label.append(c.name.as_str());
            label
        },
        ChannelKind::GroupDirectMessage => c.name.clone(),
        _ => {
            let mut label = "#".to_string();
            label.append(c.name.as_str());
            label
        },
    }
}

/// The place of a channel: its guild, and the category it is in.
pub struct Place {
    pub guild_id: Option<GuildId>,
    pub guild_name: Option<Seq<char>>,
    pub group_label: Seq<char>,
    pub parent_label: Option<Seq<char>>,
    pub branch: ChannelBranch,
    pub group_order: usize,
}

/// The row of a channel.
pub open spec fn item_of(c: SwitcherChannel, place: Place, index: usize) -> ItemView {
    ItemView {
        channel_id: c.id,
        guild_id: place.guild_id,
        guild_name: place.guild_name,
        group_label: place.group_label,
        parent_label: place.parent_label,
        channel_label: switcher_label(c),
        unread: c.unread,
        unread_message_count: c.unread_message_count,
        search_name: place.group_label + " / "@ + c.name@,
        depth: if place.parent_label is Some || !(place.branch is Root) { 1 } else { 0 },
        group_order: place.group_order,
        original_index: index,
    }
}

/// The rows with that of one more channel, unless it is a category or a thread.
pub open spec fn with_item(items: Seq<ItemView>, c: SwitcherChannel, place: Place) -> Seq<ItemView> {
    if c.kind is Category || c.kind is Thread {
        items
    } else {
        items.push(item_of(c, place, items.len() as usize))
    }
}

proof fn lemma_items_push(v: Seq<ChannelSwitcherItem>, i: ChannelSwitcherItem)
    ensures
        item_views(v.push(i)) == item_views(v).push(i@),
{
    assert(item_views(v.push(i)) =~= item_views(v).push(i@));
}

fn push_channel_switcher_item(
    items: &mut Vec<ChannelSwitcherItem>,
    c: &SwitcherChannel,
    guild: Option<&SwitcherGuild>,
    parent_label: Option<&String>,
    branch: ChannelBranch,
    group_order: usize,
    Ghost(place): Ghost<Place>,
)
    requires
        place == place_in(opt_guild(guild), opt_name(parent_label), branch, group_order),
    ensures
        item_views(final(items)@) == with_item(item_views(old(items)@), *c, place),
{
    if matches!(c.kind, ChannelKind::Category) || matches!(c.kind, ChannelKind::Thread) {
        return;
    }
    let group_label = match guild {
        Some(guild) => guild.name.clone(),
        None => "Direct Messages".to_string(),
    };
    let mut search_name = group_label.clone();
    search_name.append(" / ");
    search_name.append(c.name.as_str());
    let depth: usize = if parent_label.is_some() || !matches!(branch, ChannelBranch::Root) { 1 } else { 0 };
    let item = ChannelSwitcherItem {
        channel_id: c.id,
        guild_id: match guild {
            Some(guild) => Some(guild.id),
            None => None,
        },
        guild_name: match guild {
            Some(guild) => Some(guild.name.clone()),
            None => None,
        },
        group_label,
        parent_label: match parent_label {
            Some(name) => Some(name.clone()),
            None => None,
        },
        channel_label: channel_switcher_channel_label(c),
        unread: c.unread,
        unread_message_count: c.unread_message_count,
        search_name,
        depth,
        group_order,
        original_index: items.len(),
    };
    proof {
        lemma_items_push(items@, item);
    }
    items.push(item);
}

/// A guild by its identifier and name.
pub struct GuildName {
    pub id: GuildId,
    pub name: Seq<char>,
}

pub open spec fn opt_guild(guild: Option<&SwitcherGuild>) -> Option<GuildName> {
    match guild {
        Some(guild) => Some(GuildName { id: guild.id, name: guild.name@ }),
        None => None,
    }
}

pub open spec fn opt_name(name: Option<&String>) -> Option<Seq<char>> {
    match name {
        Some(name) => Some(name@),
        None => None,
    }
}

pub open spec fn place_in(
    guild: Option<GuildName>,
    parent_label: Option<Seq<char>>,
    branch: ChannelBranch,
    group_order: usize,
) -> Place {
    Place {
        guild_id: match guild {
            Some(guild) => Some(guild.id),
            None => None,
        },
        guild_name: match guild {
            Some(guild) => Some(guild.name),
            None => None,
        },
        group_label: match guild {
            Some(guild) => guild.name,
            None => "Direct Messages"@,
        },
        parent_label,
        branch,
        group_order,
    }
}

/// The rows with those of the first `k` private conversations.
pub open spec fn with_direct(items: Seq<ItemView>, channels: Seq<SwitcherChannel>, k: int, group_order: usize) -> Seq<
    ItemView,
>
    decreases k,
{
    if k <= 0 {
        items
    } else {
        with_item(
            with_direct(items, channels, k - 1, group_order),
            channels[k - 1],
            place_in(None, None, ChannelBranch::Root, group_order),
        )
    }
}

pub open spec fn is_category_child(c: SwitcherChannel, category: ChannelId) -> bool {
    !(c.kind is Thread) && !(c.kind is Category) && c.parent_id == Some(category)
}

/// How many of the first `k` channels are in a category.
pub open spec fn child_count(channels: Seq<SwitcherChannel>, category: ChannelId, k: int) -> int
    decreases k,
{
    if k <= 0 {
        0
    } else {
        child_count(channels, category, k - 1) + (if is_category_child(channels[k - 1], category) { 1int } else { 0int })
    }
}

/// The rows with those of the channels of a category among the first `k` channels.
pub open spec fn with_children(
    items: Seq<ItemView>,
    guild: GuildName,
    channels: Seq<SwitcherChannel>,
    category: SwitcherChannel,
    k: int,
    group_order: usize,
) -> Seq<ItemView>
    decreases k,
{
    if k <= 0 {
        items
    } else {
        let before = with_children(items, guild, channels, category, k - 1, group_order);
        if is_category_child(channels[k - 1], category.id) {
            let branch = branch_of(
                child_count(channels, category.id, k - 1),
                child_count(channels, category.id, channels.len() as int),
            );
            with_item(before, channels[k - 1], place_in(Some(guild), Some(category.name@), branch, group_order))
        } else {
            before
        }
    }
}

pub open spec fn in_some_category(channels: Seq<SwitcherChannel>, id: Option<ChannelId>) -> bool {
    exists|i: int| 0 <= i < channels.len() && (#[trigger] channels[i]).kind is Category && id == Some(channels[i].id)
}

/// The rows with those of the first `k` channels of a guild and what is below them.
pub open spec fn with_guild(
    items: Seq<ItemView>,
    guild: GuildName,
    channels: Seq<SwitcherChannel>,
    k: int,
    group_order: usize,
) -> Seq<ItemView>
    decreases k,
{
    if k <= 0 {
        items
    } else {
        let c = channels[k - 1];
        let before = with_guild(items, guild, channels, k - 1, group_order);
        if c.kind is Thread {
            before
        } else if c.kind is Category {
            with_children(before, guild, channels, c, channels.len() as int, group_order)
        } else if in_some_category(channels, c.parent_id) {
            before
        } else {
            with_item(before, c, place_in(Some(guild), None, ChannelBranch::Root, group_order))
        }
    }
}

fn same_id(a: Option<u64>, b: u64) -> (r: bool)
    ensures
        r == (a == Some(b)),
{
    match a {
        Some(a) => a == b,
        None => false,
    }
}

fn child_of(c: &SwitcherChannel, category: ChannelId) -> (r: bool)
    ensures
        r == is_category_child(*c, category),
{
    !matches!(c.kind, ChannelKind::Thread) && !matches!(c.kind, ChannelKind::Category) && same_id(c.parent_id, category)
}

fn push_direct_message_switcher_items(items: &mut Vec<ChannelSwitcherItem>, channels: &Vec<SwitcherChannel>)
    ensures
        item_views(final(items)@) == with_direct(
            item_views(old(items)@),
            channels@,
            channels@.len() as int,
            old(items)@.len() as usize,
        ),
{
    let group_order = items.len();
    let mut i: usize = 0;
    while i < channels.len()
        invariant
            i <= channels@.len(),
            group_order == old(items)@.len(),
            item_views(items@) == with_direct(item_views(old(items)@), channels@, i as int, group_order),
        decreases channels@.len() - i,
    {
        push_channel_switcher_item(
            items,
            &channels[i],
            None,
            None,
            ChannelBranch::Root,
            group_order,
            Ghost(place_in(None, None, ChannelBranch::Root, group_order)),
        );
        i += 1;
    }
}

proof fn lemma_child_count(channels: Seq<SwitcherChannel>, category: ChannelId, k: int)
    requires
        0 <= k <= channels.len(),
    ensures
        0 <= child_count(channels, category, k) <= k,
    decreases k,
{
    if k > 0 {
        lemma_child_count(channels, category, k - 1);
    }
}

fn push_children(items: &mut Vec<ChannelSwitcherItem>, guild: &SwitcherGuild, category: &SwitcherChannel, group_order: usize)
    ensures
        item_views(final(items)@) == with_children(
            item_views(old(items)@),
            GuildName { id: guild.id, name: guild.name@ },
            guild.channels@,
            *category,
            guild.channels@.len() as int,
            group_order,
        ),
{
    let ghost name = GuildName { id: guild.id, name: guild.name@ };
    let mut count: usize = 0;
    let mut i: usize = 0;
    while i < guild.channels.len()
        invariant
            i <= guild.channels@.len(),
            count == child_count(guild.channels@, category.id, i as int),
            count <= i,
            items@ == old(items)@,
        decreases guild.channels@.len() - i,
    {
        if child_of(&guild.channels[i], category.id) {
            count += 1;
        }
        i += 1;
    }
    let mut seen: usize = 0;
    let mut k: usize = 0;
    while k < guild.channels.len()
        invariant
            k <= guild.channels@.len(),
            name == (GuildName { id: guild.id, name: guild.name@ }),
            count == child_count(guild.channels@, category.id, guild.channels@.len() as int),
            seen == child_count(guild.channels@, category.id, k as int),
            seen <= k,
            item_views(items@) == with_children(
                item_views(old(items)@),
                name,
                guild.channels@,
                *category,
                k as int,
                group_order,
            ),
        decreases guild.channels@.len() - k,
    {
        if child_of(&guild.channels[k], category.id) {
            let branch = if seen + 1 == count { ChannelBranch::Last } else { ChannelBranch::Middle };
            push_channel_switcher_item(
                items,
                &guild.channels[k],
                Some(guild),
                Some(&category.name),
                branch,
                group_order,
                Ghost(place_in(Some(name), Some(category.name@), branch, group_order)),
            );
            seen += 1;
        }
        k += 1;
    }
}

fn parent_is_category(channels: &Vec<SwitcherChannel>, id: Option<ChannelId>) -> (r: bool)
    ensures
        r == in_some_category(channels@, id),
{
    let mut i: usize = 0;
    while i < channels.len()
        invariant
            i <= channels@.len(),
            forall|k: int|
                0 <= k < i ==> !((#[trigger] channels@[k]).kind is Category && id == Some(channels@[k].id)),
        decreases channels@.len() - i,
    {
        if matches!(channels[i].kind, ChannelKind::Category) && same_id(id, channels[i].id) {
            return true;
        }
        i += 1;
    }
    false
}

fn push_guild_channel_switcher_items(items: &mut Vec<ChannelSwitcherItem>, guild: &SwitcherGuild)
    ensures
        item_views(final(items)@) == with_guild(
            item_views(old(items)@),
            GuildName { id: guild.id, name: guild.name@ },
            guild.channels@,
            guild.channels@.len() as int,
            old(items)@.len() as usize,
        ),
{
    let group_order = items.len();
    let ghost name = GuildName { id: guild.id, name: guild.name@ };
    let mut i: usize = 0;
    while i < guild.channels.len()
        invariant
            i <= guild.channels@.len(),
            group_order == old(items)@.len(),
            name == (GuildName { id: guild.id, name: guild.name@ }),
            item_views(items@) == with_guild(item_views(old(items)@), name, guild.channels@, i as int, group_order),
        decreases guild.channels@.len() - i,
    {
        let c = &guild.channels[i];
        if matches!(c.kind, ChannelKind::Thread) {
        } else if matches!(c.kind, ChannelKind::Category) {
            push_children(items, guild, c, group_order);
        } else if !parent_is_category(&guild.channels, c.parent_id) {
            push_channel_switcher_item(
                items,
                c,
                Some(guild),
                None,
                ChannelBranch::Root,
                group_order,
                Ghost(place_in(Some(name), None, ChannelBranch::Root, group_order)),
            );
        }
        i += 1;
    }
}

/// Whether a guild with the same identifier stands before guild `k`.
pub open spec fn guild_seen(guilds: Seq<SwitcherGuild>, k: int) -> bool {
    exists|i: int| 0 <= i < k && (#[trigger] guilds[i]).id == guilds[k].id
}

/// The rows of the private conversations and of the first `k` guilds.
pub open spec fn base_items(direct: Seq<SwitcherChannel>, guilds: Seq<SwitcherGuild>, k: int) -> Seq<ItemView>
    decreases k,
{
    if k <= 0 {
        with_direct(Seq::empty(), direct, direct.len() as int, 0)
    } else {
        let before = base_items(direct, guilds, k - 1);
        let g = guilds[k - 1];
        if guild_seen(guilds, k - 1) {
            before
        } else {
            with_guild(
                before,
                GuildName { id: g.id, name: g.name@ },
                g.channels@,
                g.channels@.len() as int,
                before.len() as usize,
            )
        }
    }
}

fn was_seen(guilds: &Vec<SwitcherGuild>, k: usize) -> (r: bool)
    requires
        k < guilds@.len(),
    ensures
        r == guild_seen(guilds@, k as int),
{
    let mut i: usize = 0;
    while i < k
        invariant
            i <= k < guilds@.len(),
            forall|j: int| 0 <= j < i ==> (#[trigger] guilds@[j]).id != guilds@[k as int].id,
        decreases k - i,
    {
        if guilds[i].id == guilds[k].id {
            return true;
        }
        i += 1;
    }
    false
}

fn all_base_items(direct: &Vec<SwitcherChannel>, guilds: &Vec<SwitcherGuild>) -> (r: Vec<ChannelSwitcherItem>)
    ensures
        item_views(r@) == base_items(direct@, guilds@, guilds@.len() as int),
{
    let mut items: Vec<ChannelSwitcherItem> = Vec::new();
    assert(item_views(items@) =~= Seq::<ItemView>::empty());
    push_direct_message_switcher_items(&mut items, direct);
    let mut i: usize = 0;
    while i < guilds.len()
        invariant
            i <= guilds@.len(),
            item_views(items@) == base_items(direct@, guilds@, i as int),
        decreases guilds@.len() - i,
    {
        if !was_seen(guilds, i) {
            assert(item_views(items@).len() == items@.len());
            push_guild_channel_switcher_items(&mut items, &guilds[i]);
        }
        i += 1;
    }
    items
}

fn clone_item(item: &ChannelSwitcherItem) -> (r: ChannelSwitcherItem)
    ensures
        r@ == item@,
{
    ChannelSwitcherItem {
        channel_id: item.channel_id,
        guild_id: item.guild_id,
        guild_name: match &item.guild_name {
            Some(name) => Some(name.clone()),
            None => None,
        },
        group_label: item.group_label.clone(),
        parent_label: match &item.parent_label {
            Some(name) => Some(name.clone()),
            None => None,
        },
        channel_label: item.channel_label.clone(),
        unread: item.unread,
        unread_message_count: item.unread_message_count,
        search_name: item.search_name.clone(),
        depth: item.depth,
        group_order: item.group_order,
        original_index: item.original_index,
    }
}

/// A row as it stands among the notifications.
pub open spec fn as_notification(item: ItemView) -> ItemView {
    ItemView {
        group_label: "Notifications"@,
        parent_label: item.guild_name,
        depth: 0,
        group_order: 0,
        ..item
    }
}

/// The rows that ask for attention: `loud` says of each row whether its guild is not muted and its
/// channel is marked as unread.
pub open spec fn notifications(items: Seq<ItemView>, loud: Seq<bool>) -> Seq<ItemView>
    decreases items.len(),
{
    if items.len() == 0 {
        Seq::empty()
    } else if loud[items.len() - 1] {
        notifications(items.drop_last(), loud).push(as_notification(items.last()))
    } else {
        notifications(items.drop_last(), loud)
    }
}

pub open spec fn unread_rank(u: ChannelUnreadState) -> u64 {
    match u {
        ChannelUnreadState::Mentioned(_) => 0,
        ChannelUnreadState::Notified(_) => 1,
        ChannelUnreadState::Unread => 2,
        ChannelUnreadState::Seen => 3,
    }
}

pub open spec fn unread_keys(items: Seq<ItemView>) -> Seq<Seq<u64>> {
    items.map_values(|i: ItemView| seq![unread_rank(i.unread)])
}

/// Rows in an order.
pub open spec fn in_order(items: Seq<ItemView>, order: Seq<usize>) -> Seq<ItemView> {
    order.map_values(|i: usize| items[i as int])
}

/// A row of a group behind the notifications.
pub open spec fn behind(item: ItemView) -> ItemView {
    ItemView {
        group_order: if item.group_order < usize::MAX { (item.group_order + 1) as usize } else { usize::MAX },
        ..item
    }
}

/// Rows numbered through.
pub open spec fn numbered(items: Seq<ItemView>) -> Seq<ItemView> {
    Seq::new(items.len(), |i: int| ItemView { original_index: i as usize, ..items[i] })
}

/// All rows: the notifications, the most urgent first, and then every channel.
pub open spec fn all_items(base: Seq<ItemView>, loud: Seq<bool>, order: Seq<usize>) -> Seq<ItemView> {
    numbered(in_order(notifications(base, loud), order) + base.map_values(|i: ItemView| behind(i)))
}

/// The rows of the switcher: what asks for attention, then every channel.
pub fn all_channel_switcher_items(
    direct: &Vec<SwitcherChannel>,
    guilds: &Vec<SwitcherGuild>,
) -> (r: Vec<ChannelSwitcherItem>)
    ensures
        ({
            let base = base_items(direct@, guilds@, guilds@.len() as int);
            let loud = loud_items(base, direct@, guilds@);
            exists|order: Seq<usize>| #[trigger]
                is_order(unread_keys(notifications(base, loud)), notifications(base, loud).len() as int, order)
                    && item_views(r@) == all_items(base, loud, order)
        }),
{
    let base = all_base_items(direct, guilds);
    let ghost views = item_views(base@);
    let ghost loud = loud_items(views, direct@, guilds@);
    let mut chosen: Vec<ChannelSwitcherItem> = Vec::new();
    let mut keys: Vec<Vec<u64>> = Vec::new();
    let mut i: usize = 0;
    assert(views.take(0) =~= Seq::<ItemView>::empty());
    assert(item_views(chosen@) =~= Seq::<ItemView>::empty());
    assert(key_views(keys@) =~= unread_keys(Seq::<ItemView>::empty()));
    while i < base.len()
        invariant
            i <= base@.len(),
            views == item_views(base@),
            loud == loud_items(views, direct@, guilds@),
            item_views(chosen@) == notifications(views.take(i as int), loud),
            key_views(keys@) == unread_keys(item_views(chosen@)),
            keys@.len() == chosen@.len(),
        decreases base@.len() - i,
    {
        assert(views.take(i + 1).drop_last() =~= views.take(i as int));
        assert(views[i as int] == base@[i as int]@);
        if is_loud(&base[i], direct, guilds) {
            let ghost before = chosen@;
            let ghost keys_before = keys@;
            let mut item = clone_item(&base[i]);
            item.group_label = "Notifications".to_string();
            item.parent_label = match &item.guild_name {
                Some(name) => Some(name.clone()),
                None => None,
            };
            item.depth = 0;
            item.group_order = 0;
            let mut key: Vec<u64> = Vec::new();
            let rank: u64 = match item.unread {
                ChannelUnreadState::Mentioned(_) => 0,
                ChannelUnreadState::Notified(_) => 1,
                ChannelUnreadState::Unread => 2,
                ChannelUnreadState::Seen => 3,
            };
            key.push(rank);
            assert(key@ =~= seq![unread_rank(item.unread)]);
            proof {
                lemma_items_push(before, item);
            }
            chosen.push(item);
            keys.push(key);
            assert(key_views(keys@) =~= key_views(keys_before).push(key@));
            assert(unread_keys(item_views(chosen@)) =~= unread_keys(item_views(before)).push(key@));
        }
        i += 1;
    }
    assert(views.take(i as int) =~= views);
    let order = sorted_order(&keys);
    let ghost notes = item_views(chosen@);
    let ghost sorted = in_order(notes, order@);
    let ghost rest = views.map_values(|i: ItemView| behind(i));
    let ghost all = sorted + rest;
    let mut out: Vec<ChannelSwitcherItem> = Vec::new();
    let mut j: usize = 0;
    assert(item_views(out@) =~= numbered(all).take(0));
    assert(notes.len() == chosen@.len());
    while j < order.len()
        invariant
            j <= order@.len(),
            notes == item_views(chosen@),
            is_order(unread_keys(notes), chosen@.len() as int, order@),
            sorted == in_order(notes, order@),
            all == sorted + rest,
            out@.len() == j,
            item_views(out@) == numbered(all).take(j as int),
        decreases order@.len() - j,
    {
        assert(order@[j as int] < chosen@.len());
        let ghost before = out@;
        let mut item = clone_item(&chosen[order[j]]);
        item.original_index = out.len();
        proof {
            lemma_items_push(before, item);
            assert(all[j as int] == notes[order@[j as int] as int]);
            assert(numbered(all).take(j + 1) =~= numbered(all).take(j as int).push(item@));
        }
        out.push(item);
        j += 1;
    }
    let mut k: usize = 0;
    let ghost front = order@.len() as int;
    while k < base.len()
        invariant
            k <= base@.len(),
            views == item_views(base@),
            rest == views.map_values(|i: ItemView| behind(i)),
            all == sorted + rest,
            sorted.len() == front,
            out@.len() == front + k,
            item_views(out@) == numbered(all).take(front + k),
        decreases base@.len() - k,
    {
        let ghost before = out@;
        let mut item = clone_item(&base[k]);
        item.group_order = item.group_order.saturating_add(1);
        item.original_index = out.len();
        proof {
            lemma_items_push(before, item);
            assert(all[front + k] == behind(views[k as int]));
            assert(numbered(all).take(front + k + 1) =~= numbered(all).take(front + k).push(item@));
        }
        out.push(item);
        k += 1;
    }
    assert(numbered(all).take(front + k) =~= numbered(all));
    out
}

/// Whether a channel of a list is marked as unread; the first of them counts.
pub open spec fn is_marked(channels: Seq<SwitcherChannel>, id: ChannelId) -> bool
    decreases channels.len(),
{
    if channels.len() == 0 {
        false
    } else if channels[0].id == id {
        channels[0].marked_unread
    } else {
        is_marked(channels.drop_first(), id)
    }
}

/// Whether a channel of a guild that is not muted is marked as unread.
pub open spec fn is_marked_in(guilds: Seq<SwitcherGuild>, guild_id: GuildId, id: ChannelId) -> bool
    decreases guilds.len(),
{
    if guilds.len() == 0 {
        false
    } else if guilds[0].id == guild_id {
        !guilds[0].muted && is_marked(guilds[0].channels@, id)
    } else {
        is_marked_in(guilds.drop_first(), guild_id, id)
    }
}

/// Whether a row asks for attention.
pub open spec fn asks_attention(item: ItemView, direct: Seq<SwitcherChannel>, guilds: Seq<SwitcherGuild>) -> bool {
    match item.guild_id {
        Some(guild_id) => is_marked_in(guilds, guild_id, item.channel_id),
        None => is_marked(direct, item.channel_id),
    }
}

pub open spec fn loud_items(items: Seq<ItemView>, direct: Seq<SwitcherChannel>, guilds: Seq<SwitcherGuild>) -> Seq<bool> {
    items.map_values(|i: ItemView| asks_attention(i, direct, guilds))
}

fn marked(channels: &Vec<SwitcherChannel>, id: ChannelId) -> (r: bool)
    ensures
        r == is_marked(channels@, id),
{
    let mut i: usize = 0;
    assert(channels@.skip(0) =~= channels@);
    while i < channels.len()
        invariant
            i <= channels@.len(),
            is_marked(channels@, id) == is_marked(channels@.skip(i as int), id),
        decreases channels@.len() - i,
    {
        assert(channels@.skip(i as int)[0] == channels@[i as int]);
        if channels[i].id == id {
            return channels[i].marked_unread;
        }
        assert(channels@.skip(i as int).drop_first() =~= channels@.skip(i + 1));
        i += 1;
    }
    false
}

fn is_loud(item: &ChannelSwitcherItem, direct: &Vec<SwitcherChannel>, guilds: &Vec<SwitcherGuild>) -> (r: bool)
    ensures
        r == asks_attention(item@, direct@, guilds@),
{
    let guild_id: GuildId = match item.guild_id {
        Some(id) => id,
        None => {
            return marked(direct, item.channel_id);
        },
    };
    let mut i: usize = 0;
    assert(guilds@.skip(0) =~= guilds@);
    while i < guilds.len()
        invariant
            i <= guilds@.len(),
            item.guild_id == Some(guild_id),
            is_marked_in(guilds@, guild_id, item.channel_id) == is_marked_in(
                guilds@.skip(i as int),
                guild_id,
                item.channel_id,
            ),
        decreases guilds@.len() - i,
    {
        assert(guilds@.skip(i as int)[0] == guilds@[i as int]);
        if guilds[i].id == guild_id {
            return !guilds[i].muted && marked(&guilds[i].channels, item.channel_id);
        }
        assert(guilds@.skip(i as int).drop_first() =~= guilds@.skip(i + 1));
        i += 1;
    }
    false
}

/// The rows that match.
pub open spec fn matching_items(items: Seq<ItemView>, query: Seq<char>) -> Seq<ItemView>
    decreases items.len(),
{
    if items.len() == 0 {
        Seq::empty()
    } else if fuzzy_score(items.last().search_name, query) is Some {
        matching_items(items.drop_last(), query).push(items.last())
    } else {
        matching_items(items.drop_last(), query)
    }
}

/// Matching rows are sorted by their group, then by how well they match, then by their place.
pub open spec fn match_key(item: ItemView, query: Seq<char>) -> Seq<u64> {
    seq![
        item.group_order as u64,
        fuzzy_score(item.search_name, query)->0 as u64,
        item.original_index as u64,
    ]
}

pub open spec fn match_keys(items: Seq<ItemView>, query: Seq<char>) -> Seq<Seq<u64>> {
    items.map_values(|i: ItemView| match_key(i, query))
}

/// Whether `found` are the rows that match, best first.
pub open spec fn is_filtered(items: Seq<ItemView>, query: Seq<char>, found: Seq<ItemView>) -> bool {
    exists|order: Seq<usize>| #[trigger]
        is_order(
            match_keys(matching_items(items, query), query),
            matching_items(items, query).len() as int,
            order,
        ) && found == in_order(matching_items(items, query), order)
}

pub fn filter_channel_switcher_items(items: &Vec<ChannelSwitcherItem>, query: &str) -> (r: Vec<ChannelSwitcherItem>)
    ensures
        is_filtered(item_views(items@), query@, item_views(r@)),
{
    let ghost views = item_views(items@);
    let mut kept: Vec<usize> = Vec::new();
    let mut keys: Vec<Vec<u64>> = Vec::new();
    let mut i: usize = 0;
    assert(views.take(0) =~= Seq::<ItemView>::empty());
    assert(key_views(keys@) =~= match_keys(Seq::<ItemView>::empty(), query@));
    while i < items.len()
        invariant
            i <= items@.len(),
            views == item_views(items@),
            kept@.len() == keys@.len(),
            kept@.len() == matching_items(views.take(i as int), query@).len(),
            forall|k: int|
                0 <= k < kept@.len() ==> #[trigger] kept@[k] < items@.len() && items@[kept@[k] as int]@ == matching_items(
                    views.take(i as int),
                    query@,
                )[k],
            key_views(keys@) == match_keys(matching_items(views.take(i as int), query@), query@),
        decreases items@.len() - i,
    {
        assert(views.take(i + 1).drop_last() =~= views.take(i as int));
        assert(views[i as int] == items@[i as int]@);
        if let Some(score) = fuzzy_text_score(items[i].search_name.as_str(), query) {
            let ghost before = keys@;
            let ghost less = matching_items(views.take(i as int), query@);
            kept.push(i);
            let mut key: Vec<u64> = Vec::new();
            key.push(items[i].group_order as u64);
            key.push(score as u64);
            key.push(items[i].original_index as u64);
            assert(key@ =~= match_key(views[i as int], query@));
            keys.push(key);
            assert(key_views(keys@) =~= key_views(before).push(key@));
            assert(match_keys(less.push(views[i as int]), query@) =~= match_keys(less, query@).push(key@));
        }
        i += 1;
    }
    assert(views.take(i as int) =~= views);
    let ghost found = matching_items(views, query@);
    let order = sorted_order(&keys);
    let ghost sorted = in_order(found, order@);
    let mut out: Vec<ChannelSwitcherItem> = Vec::new();
    let mut j: usize = 0;
    assert(item_views(out@) =~= sorted.take(0));
    while j < order.len()
        invariant
            j <= order@.len(),
            sorted == in_order(found, order@),
            kept@.len() == found.len(),
            is_order(match_keys(found, query@), found.len() as int, order@),
            forall|k: int| 0 <= k < kept@.len() ==> #[trigger] kept@[k] < items@.len() && items@[kept@[k] as int]@ == found[k],
            item_views(out@) == sorted.take(j as int),
        decreases order@.len() - j,
    {
        assert(order@[j as int] < kept@.len());
        let ghost before = out@;
        let at = kept[order[j]];
        assert(items@[at as int]@ == found[order@[j as int] as int]);
        let item = clone_item(&items[at]);
        proof {
            lemma_items_push(before, item);
            assert(sorted.take(j + 1) =~= sorted.take(j as int).push(item@));
        }
        out.push(item);
        j += 1;
    }
    assert(sorted.take(j as int) =~= sorted);
    out
}

/// The open switcher.
pub struct ChannelSwitcherState {
    pub query: PaneFilterState,
    pub selected: usize,
    pub base_items: Vec<ChannelSwitcherItem>,
    pub query_items: Option<Vec<ChannelSwitcherItem>>,
}

impl ChannelSwitcherState {
    /// What is shown belongs to what was typed.
    pub open spec fn wf(self) -> bool {
        let query = trimmed(self.query@.text());
        match self.query_items {
            None => query.len() == 0,
            Some(items) => query.len() > 0 && is_filtered(item_views(self.base_items@), query, item_views(items@)),
        }
    }

    pub open spec fn shown(self) -> Seq<ItemView> {
        match self.query_items {
            None => item_views(self.base_items@),
            Some(items) => item_views(items@),
        }
    }

    pub fn new(base_items: Vec<ChannelSwitcherItem>) -> (r: ChannelSwitcherState)
        ensures
            r.wf(),
            r.base_items == base_items,
            r.shown() == item_views(base_items@),
            r.query@.text() == Seq::<char>::empty(),
            r.selected == 0,
    {
        let r = ChannelSwitcherState { query: PaneFilterState::new(), selected: 0, base_items, query_items: None };
        assert(r.query@.text() =~= Seq::<char>::empty());
        r
    }

    pub fn visible_items(&self) -> (r: &Vec<ChannelSwitcherItem>)
        ensures
            item_views(r@) == self.shown(),
    {
        match &self.query_items {
            None => &self.base_items,
            Some(items) => items,
        }
    }

    pub fn visible_len(&self) -> (r: usize)
        ensures
            r == self.shown().len(),
    {
        let items = self.visible_items();
        assert(item_views(items@).len() == items@.len());
        items.len()
    }

    /// The row that the cursor is on.
    pub fn selected_channel_switcher_index(&self) -> (r: usize)
        ensures
            r == least(self.selected as int, last_of(self.shown().len() as int)),
    {
        clamp_selected_index(self.selected, self.visible_len())
    }

    pub fn move_channel_switcher_down(&mut self)
        ensures
            final(self).selected == least(old(self).selected + 1, last_of(old(self).shown().len() as int)),
            final(self).query == old(self).query,
            final(self).base_items == old(self).base_items,
            final(self).query_items == old(self).query_items,
    {
        let len = self.visible_len();
        self.selected = min_of(self.selected.saturating_add(1), len.saturating_sub(1));
    }

    pub fn move_channel_switcher_up(&mut self)
        ensures
            final(self).selected == minus(old(self).selected as int, 1),
            final(self).query == old(self).query,
            final(self).base_items == old(self).base_items,
            final(self).query_items == old(self).query_items,
    {
        self.selected = self.selected.saturating_sub(1);
    }

    pub fn select_channel_switcher_item(&mut self, row: usize) -> (r: bool)
        ensures
            r == (row < old(self).shown().len()),
            final(self).selected == (if r { row } else { old(self).selected }),
            final(self).query == old(self).query,
            final(self).base_items == old(self).base_items,
            final(self).query_items == old(self).query_items,
    {
        if row >= self.visible_len() {
            return false;
        }
        self.selected = row;
        true
    }

    fn refresh_query_items(&mut self)
        ensures
            final(self).wf(),
            final(self).query == old(self).query,
            final(self).selected == old(self).selected,
            final(self).base_items == old(self).base_items,
    {
        let query = trim_text(self.query.query());
        if query.as_str().unicode_len() == 0 {
            self.query_items = None;
        } else {
            let found = filter_channel_switcher_items(&self.base_items, query.as_str());
            self.query_items = Some(found);
        }
    }

    /// Types a character: the rows are filtered anew, and the first one is selected.
    pub fn push_channel_switcher_char(&mut self, value: char)
        requires
            utf8_len(old(self).query.query@) + 4 <= usize::MAX,
        ensures
            final(self).wf(),
            final(self).query@ == old(self).query@.typed(value),
            final(self).selected == 0,
            final(self).base_items == old(self).base_items,
    {
        self.query.push_char(value);
        self.selected = 0;
        self.refresh_query_items();
    }

    /// Deletes what is before the cursor, if anything is.
    pub fn pop_channel_switcher_char(&mut self)
        requires
            old(self).wf(),
        ensures
            final(self).wf(),
            old(self).query@.before.len() == 0 ==> *final(self) == *old(self),
            old(self).query@.before.len() > 0 ==> final(self).query@ == old(self).query@.deleted() && final(self).selected
                == 0 && final(self).base_items == old(self).base_items,
    {
        proof {
            crate::text::lemma_utf8_len_bounds(self.query@.before);
        }
        if self.query.cursor_byte_index() == 0 {
            return;
        }
        self.query.pop_char();
        self.selected = 0;
        self.refresh_query_items();
    }

    pub fn move_channel_switcher_query_cursor_left(&mut self)
        requires
            old(self).wf(),
        ensures
            final(self).wf(),
            final(self).query@ == old(self).query@.left(),
            final(self).selected == old(self).selected,
            final(self).base_items == old(self).base_items,
            final(self).query_items == old(self).query_items,
    {
        self.query.cursor_left();
    }

    pub fn move_channel_switcher_query_cursor_right(&mut self)
        requires
            old(self).wf(),
        ensures
            final(self).wf(),
            final(self).query@ == old(self).query@.right(),
            final(self).selected == old(self).selected,
            final(self).base_items == old(self).base_items,
            final(self).query_items == old(self).query_items,
    {
        self.query.cursor_right();
    }

    /// The channel of the selected row.
    pub fn selected_channel(&self) -> (r: Option<ChannelId>)
        ensures
            r == (if self.shown().len() == 0 {
                None
            } else {
                Some(self.shown()[least(self.selected as int, last_of(self.shown().len() as int))].channel_id)
            }),
    {
        let items = self.visible_items();
        assert(item_views(items@).len() == items@.len());
        if items.len() == 0 {
            return None;
        }
        let at = clamp_selected_index(self.selected, items.len());
        assert(item_views(items@)[at as int] == items@[at as int]@);
        Some(items[at].channel_id)
    }
}

/// Every row that matches is found, and nothing else.
pub proof fn the_switcher_finds_what_matches(items: Seq<ItemView>, query: Seq<char>, found: Seq<ItemView>, k: int)
    requires
        is_filtered(items, query, found),
        0 <= k < items.len(),
    ensures
        fuzzy_score(items[k].search_name, query) is Some ==> found.contains(items[k]),
        found.len() <= items.len(),
        forall|i: int| 0 <= i < found.len() ==> fuzzy_score((#[trigger] found[i]).search_name, query) is Some,
{
    let some = matching_items(items, query);
    let keys = match_keys(some, query);
    let order = choose|order: Seq<usize>| #[trigger]
        is_order(keys, some.len() as int, order) && found == in_order(some, order);
    lemma_matching(items, query);
    if fuzzy_score(items[k].search_name, query) is Some {
        let a = choose|a: int| 0 <= a < some.len() && some[a] == items[k];
        crate::state::sorting::orders_list_every_item(keys, some.len() as int, order, a);
        let i = choose|i: int| 0 <= i < some.len() && #[trigger] order[i] == a;
        assert(found[i] == items[k]);
    }
    assert forall|i: int| 0 <= i < found.len() implies fuzzy_score((#[trigger] found[i]).search_name, query) is Some by {
        assert(order[i] < some.len());
    }
}

pub(crate) proof fn lemma_matching(items: Seq<ItemView>, query: Seq<char>)
    ensures
        matching_items(items, query).len() <= items.len(),
        forall|k: int|
            0 <= k < items.len() && fuzzy_score((#[trigger] items[k]).search_name, query) is Some ==> matching_items(
                items,
                query,
            ).contains(items[k]),
        forall|i: int|
            0 <= i < matching_items(items, query).len() ==> fuzzy_score(
                (#[trigger] matching_items(items, query)[i]).search_name,
                query,
            ) is Some,
    decreases items.len(),
{
    if items.len() > 0 {
        let rest = items.drop_last();
        lemma_matching(rest, query);
        let all = matching_items(items, query);
        let some = matching_items(rest, query);
        assert forall|k: int| 0 <= k < items.len() && fuzzy_score((#[trigger] items[k]).search_name, query) is Some implies all.contains(
            items[k],
        ) by {
            if k < rest.len() {
                assert(rest[k] == items[k]);
                let i = choose|i: int| 0 <= i < some.len() && some[i] == items[k];
                assert(all[i] == items[k]);
            } else {
                assert(all[all.len() - 1] == items[k]);
            }
        }
    }
}

} // verus!
