//! The list of guilds with its folders.

use crate::ids::GuildId;
use crate::state::model::{GuildBranch, GuildFolder, GuildPaneEntry, GuildState};
use vstd::prelude::*;

verus! {

/// The value of a [`GuildPaneEntry`].
pub enum GuildEntryView {
    DirectMessages,
    FolderHeader { folder: GuildFolder, collapsed: bool },
    Guild { state: GuildState, branch: GuildBranch },
}

impl<'a> View for GuildPaneEntry<'a> {
    type V = GuildEntryView;

    open spec fn view(&self) -> GuildEntryView {
        match self {
            GuildPaneEntry::DirectMessages => GuildEntryView::DirectMessages,
            GuildPaneEntry::FolderHeader { folder, collapsed } => GuildEntryView::FolderHeader {
                folder: **folder,
                collapsed: *collapsed,
            },
            GuildPaneEntry::Guild { state, branch } => GuildEntryView::Guild { state: **state, branch: *branch },
        }
    }
}

pub open spec fn entry_views<'a>(v: Seq<GuildPaneEntry<'a>>) -> Seq<GuildEntryView> {
    v.map_values(|e: GuildPaneEntry<'a>| e@)
}

/// What a folder is remembered by: its identifier, or the guilds in it.
#[derive(Debug, PartialEq, Eq)]
pub enum FolderKey {
    Id(u64),
    Guilds(Vec<GuildId>),
}

pub enum FolderKeyView {
    Id(u64),
    Guilds(Seq<GuildId>),
}

impl View for FolderKey {
    type V = FolderKeyView;

    open spec fn view(&self) -> FolderKeyView {
        match self {
            FolderKey::Id(id) => FolderKeyView::Id(*id),
            FolderKey::Guilds(ids) => FolderKeyView::Guilds(ids@),
        }
    }
}

/// A folder that can be collapsed has a key: one with an identifier, or with several guilds.
pub open spec fn key_of(folder: GuildFolder) -> Option<FolderKeyView> {
    match folder.id {
        Some(id) => Some(FolderKeyView::Id(id)),
        None => if folder.guild_ids@.len() > 1 {
            Some(FolderKeyView::Guilds(folder.guild_ids@))
        } else {
            None
        },
    }
}

pub open spec fn opt_key(k: Option<FolderKey>) -> Option<FolderKeyView> {
    match k {
        Some(k) => Some(k@),
        None => None,
    }
}

fn same_ids(a: &Vec<GuildId>, b: &Vec<GuildId>) -> (r: bool)
    ensures
        r == (a@ == b@),
{
    if a.len() != b.len() {
        return false;
    }
    let mut i: usize = 0;
    while i < a.len()
        invariant
            a@.len() == b@.len(),
            i <= a@.len(),
            forall|k: int| 0 <= k < i ==> a@[k] == b@[k],
        decreases a@.len() - i,
    {
        if a[i] != b[i] {
            return false;
        }
        i += 1;
    }
    assert(a@ =~= b@);
    true
}

fn same_key(a: &FolderKey, b: &FolderKey) -> (r: bool)
    ensures
        r == (a@ == b@),
{
    match (a, b) {
        (FolderKey::Id(a), FolderKey::Id(b)) => *a == *b,
        (FolderKey::Guilds(a), FolderKey::Guilds(b)) => same_ids(a, b),
        _ => false,
    }
}

pub fn folder_key(folder: &GuildFolder) -> (r: Option<FolderKey>)
    ensures
        opt_key(r) == key_of(*folder),
{
    match folder.id {
        Some(id) => Some(FolderKey::Id(id)),
        None => {
            if folder.guild_ids.len() > 1 {
                let mut ids: Vec<GuildId> = Vec::new();
                let mut i: usize = 0;
                while i < folder.guild_ids.len()
                    invariant
                        i <= folder.guild_ids@.len(),
                        ids@ == folder.guild_ids@.take(i as int),
                    decreases folder.guild_ids@.len() - i,
                {
                    ids.push(folder.guild_ids[i]);
                    assert(folder.guild_ids@.take(i + 1) =~= folder.guild_ids@.take(i as int).push(
                        folder.guild_ids@[i as int],
                    ));
                    i += 1;
                }
                assert(ids@ =~= folder.guild_ids@);
                Some(FolderKey::Guilds(ids))
            } else {
                None
            }
        },
    }
}

/// The folders that are collapsed.
pub struct CollapsedFolders {
    keys: Vec<FolderKey>,
}

impl View for CollapsedFolders {
    type V = Set<FolderKeyView>;

    closed spec fn view(&self) -> Set<FolderKeyView> {
        Set::new(|k: FolderKeyView| lists_key(self.keys@, k))
    }
}

spec fn lists_key(keys: Seq<FolderKey>, k: FolderKeyView) -> bool {
    exists|i: int| 0 <= i < keys.len() && (#[trigger] keys[i])@ == k
}

impl CollapsedFolders {
    pub fn new() -> (r: CollapsedFolders)
        ensures
            r@ == Set::<FolderKeyView>::empty(),
    {
        let r = CollapsedFolders { keys: Vec::new() };
        assert(r@ =~= Set::<FolderKeyView>::empty());
        r
    }

    pub fn contains(&self, key: &FolderKey) -> (r: bool)
        ensures
            r == self@.contains(key@),
    {
        let mut i: usize = 0;
        while i < self.keys.len()
            invariant
                i <= self.keys@.len(),
                forall|k: int| 0 <= k < i ==> (#[trigger] self.keys@[k])@ != key@,
            decreases self.keys@.len() - i,
        {
            if same_key(&self.keys[i], key) {
                return true;
            }
            i += 1;
        }
        false
    }

    /// Collapses a folder.
    pub fn close(&mut self, key: FolderKey)
        ensures
            final(self)@ == old(self)@.insert(key@),
    {
        if self.contains(&key) {
            assert(self@ =~= old(self)@.insert(key@));
            return;
        }
        let ghost before = self.keys@;
        let ghost k = key@;
        self.keys.push(key);
        proof {
            assert forall|q: FolderKeyView| #[trigger] lists_key(self.keys@, q) == (lists_key(before, q) || q == k) by {
                if lists_key(before, q) {
                    let i = choose|i: int| 0 <= i < before.len() && (#[trigger] before[i])@ == q;
                    assert(self.keys@[i]@ == q);
                }
                if q == k {
                    assert(self.keys@[before.len() as int]@ == q);
                }
                if lists_key(self.keys@, q) && q != k {
                    let i = choose|i: int| 0 <= i < self.keys@.len() && (#[trigger] self.keys@[i])@ == q;
                    assert(before[i]@ == q);
                }
            }
            assert(self@ =~= old(self)@.insert(k));
        }
    }

    /// Opens a folder.
    pub fn open(&mut self, key: &FolderKey)
        ensures
            final(self)@ == old(self)@.remove(key@),
    {
        let mut i: usize = 0;
        let ghost start = self.keys@;
        while i < self.keys.len()
            invariant
                i <= self.keys@.len(),
                forall|k: int| 0 <= k < i ==> (#[trigger] self.keys@[k])@ != key@,
                forall|q: FolderKeyView| q != key@ ==> #[trigger] lists_key(self.keys@, q) == lists_key(start, q),
            decreases self.keys@.len() - i,
        {
            let ghost before = self.keys@;
            if same_key(&self.keys[i], key) {
                let _ = self.keys.remove(i);
                proof {
                    assert forall|q: FolderKeyView| q != key@ implies #[trigger] lists_key(self.keys@, q) == lists_key(
                        before,
                        q,
                    ) by {
                        if lists_key(before, q) {
                            let j = choose|j: int| 0 <= j < before.len() && (#[trigger] before[j])@ == q;
                            let m = if j < i { j } else { j - 1 };
                            assert(self.keys@[m]@ == q);
                        }
                        if lists_key(self.keys@, q) {
                            let j = choose|j: int| 0 <= j < self.keys@.len() && (#[trigger] self.keys@[j])@ == q;
                            let m = if j < i { j } else { j + 1 };
                            assert(before[m]@ == q);
                        }
                    }
                }
            } else {
                i += 1;
            }
        }
        assert(self@ =~= old(self)@.remove(key@));
    }

    pub fn toggle(&mut self, key: FolderKey)
        ensures
            final(self)@ == (if old(self)@.contains(key@) { old(self)@.remove(key@) } else { old(self)@.insert(key@) }),
    {
        if self.contains(&key) {
            self.open(&key);
        } else {
            self.close(key);
        }
    }
}

/// Collapsing and opening a folder in turn leads back.
pub proof fn toggling_twice_changes_nothing(collapsed: Set<FolderKeyView>, key: FolderKeyView)
    ensures
        ({
            let once = if collapsed.contains(key) { collapsed.remove(key) } else { collapsed.insert(key) };
            let twice = if once.contains(key) { once.remove(key) } else { once.insert(key) };
            twice == collapsed
        }),
{
    let once = if collapsed.contains(key) { collapsed.remove(key) } else { collapsed.insert(key) };
    let twice = if once.contains(key) { once.remove(key) } else { once.insert(key) };
    assert(twice =~= collapsed);
}

/// The place of a guild in a list, or a negative number.
pub open spec fn place_of_guild(guilds: Seq<GuildState>, id: GuildId) -> int
    decreases guilds.len(),
{
    if guilds.len() == 0 {
        -1
    } else if guilds.last().id == id {
        guilds.len() - 1
    } else {
        place_of_guild(guilds.drop_last(), id)
    }
}

/// The guilds of a folder that the user is in.
pub open spec fn folder_guilds(guilds: Seq<GuildState>, ids: Seq<GuildId>) -> Seq<GuildState>
    decreases ids.len(),
{
    if ids.len() == 0 {
        Seq::empty()
    } else {
        let at = place_of_guild(guilds, ids.last());
        if at >= 0 {
            folder_guilds(guilds, ids.drop_last()).push(guilds[at])
        } else {
            folder_guilds(guilds, ids.drop_last())
        }
    }
}

/// The rows of the guilds in a folder.
pub open spec fn child_rows(children: Seq<GuildState>) -> Seq<GuildEntryView> {
    Seq::new(
        children.len(),
        |i: int| GuildEntryView::Guild {
            state: children[i],
            branch: if i + 1 == children.len() { GuildBranch::Last } else { GuildBranch::Middle },
        },
    )
}

pub open spec fn root_row(state: GuildState) -> GuildEntryView {
    GuildEntryView::Guild { state, branch: GuildBranch::Root }
}

/// Whether a folder only holds the place of a guild.
pub open spec fn is_single(folder: GuildFolder) -> bool {
    folder.id is None && folder.guild_ids@.len() == 1
}

pub open spec fn is_collapsed(folder: GuildFolder, collapsed: Set<FolderKeyView>) -> bool {
    match key_of(folder) {
        Some(key) => collapsed.contains(key),
        None => false,
    }
}

/// The rows of a folder: the guild alone, or a heading with the guilds below it.
pub open spec fn folder_rows(folder: GuildFolder, guilds: Seq<GuildState>, collapsed: Set<FolderKeyView>) -> Seq<
    GuildEntryView,
> {
    if is_single(folder) {
        let at = place_of_guild(guilds, folder.guild_ids@[0]);
        if at >= 0 {
            seq![root_row(guilds[at])]
        } else {
            Seq::empty()
        }
    } else {
        let closed = is_collapsed(folder, collapsed);
        seq![GuildEntryView::FolderHeader { folder, collapsed: closed }] + (if closed {
            Seq::empty()
        } else {
            child_rows(folder_guilds(guilds, folder.guild_ids@))
        })
    }
}

pub open spec fn grouped_rows(folders: Seq<GuildFolder>, guilds: Seq<GuildState>, collapsed: Set<FolderKeyView>) -> Seq<
    GuildEntryView,
>
    decreases folders.len(),
{
    if folders.len() == 0 {
        Seq::empty()
    } else {
        grouped_rows(folders.drop_last(), guilds, collapsed) + folder_rows(folders.last(), guilds, collapsed)
    }
}

/// Whether a folder lists a guild.
pub open spec fn in_folder(folders: Seq<GuildFolder>, id: GuildId) -> bool {
    exists|i: int| 0 <= i < folders.len() && (#[trigger] folders[i]).guild_ids@.contains(id)
}

/// The rows of the guilds that no folder lists.
pub open spec fn ungrouped_rows(folders: Seq<GuildFolder>, guilds: Seq<GuildState>) -> Seq<GuildEntryView>
    decreases guilds.len(),
{
    if guilds.len() == 0 {
        Seq::empty()
    } else if in_folder(folders, guilds.last().id) {
        ungrouped_rows(folders, guilds.drop_last())
    } else {
        ungrouped_rows(folders, guilds.drop_last()).push(root_row(guilds.last()))
    }
}

/// The list: the direct messages, the folders in their order, and the guilds that are in none.
pub open spec fn guild_rows(folders: Seq<GuildFolder>, guilds: Seq<GuildState>, collapsed: Set<FolderKeyView>) -> Seq<
    GuildEntryView,
> {
    seq![GuildEntryView::DirectMessages] + grouped_rows(folders, guilds, collapsed) + ungrouped_rows(folders, guilds)
}

fn find_guild(guilds: &Vec<GuildState>, id: GuildId) -> (r: Option<usize>)
    ensures
        match r {
            Some(i) => i < guilds@.len() && place_of_guild(guilds@, id) == i,
            None => place_of_guild(guilds@, id) == -1,
        },
{
    let mut i: usize = guilds.len();
    assert(guilds@.take(i as int) =~= guilds@);
    while i > 0
        invariant
            i <= guilds@.len(),
            place_of_guild(guilds@, id) == place_of_guild(guilds@.take(i as int), id),
        decreases i,
    {
        assert(guilds@.take(i as int).drop_last() =~= guilds@.take(i - 1));
        if guilds[i - 1].id == id {
            return Some(i - 1);
        }
        i = i - 1;
    }
    None
}

fn listed(folders: &Vec<GuildFolder>, id: GuildId) -> (r: bool)
    ensures
        r == in_folder(folders@, id),
{
    let mut i: usize = 0;
    while i < folders.len()
        invariant
            i <= folders@.len(),
            forall|k: int| 0 <= k < i ==> !(#[trigger] folders@[k]).guild_ids@.contains(id),
        decreases folders@.len() - i,
    {
        let ids = &folders[i].guild_ids;
        let mut j: usize = 0;
        while j < ids.len()
            invariant
                j <= ids@.len(),
                i < folders@.len(),
                *ids == folders@[i as int].guild_ids,
                forall|k: int| 0 <= k < j ==> ids@[k] != id,
            decreases ids@.len() - j,
        {
            if ids[j] == id {
                assert(folders@[i as int].guild_ids@[j as int] == id);
                assert(folders@[i as int].guild_ids@.contains(id));
                return true;
            }
            j += 1;
        }
        assert(!folders@[i as int].guild_ids@.contains(id));
        i += 1;
    }
    false
}

proof fn lemma_views_push<'a>(v: Seq<GuildPaneEntry<'a>>, e: GuildPaneEntry<'a>)
    ensures
        entry_views(v.push(e)) == entry_views(v).push(e@),
{
    assert(entry_views(v.push(e)) =~= entry_views(v).push(e@));
}

fn push_children<'a>(entries: &mut Vec<GuildPaneEntry<'a>>, guilds: &'a Vec<GuildState>, ids: &Vec<GuildId>)
    ensures
        entry_views(final(entries)@) == entry_views(old(entries)@) + child_rows(folder_guilds(guilds@, ids@)),
{
    let mut places: Vec<usize> = Vec::new();
    let ghost children = folder_guilds(guilds@, ids@);
    let mut i: usize = 0;
    assert(ids@.take(0) =~= Seq::<GuildId>::empty());
    while i < ids.len()
        invariant
            i <= ids@.len(),
            places@.len() == folder_guilds(guilds@, ids@.take(i as int)).len(),
            forall|k: int|
                0 <= k < places@.len() ==> #[trigger] places@[k] < guilds@.len() && guilds@[places@[k] as int]
                    == folder_guilds(guilds@, ids@.take(i as int))[k],
        decreases ids@.len() - i,
    {
        assert(ids@.take(i + 1).drop_last() =~= ids@.take(i as int));
        if let Some(at) = find_guild(guilds, ids[i]) {
            places.push(at);
        }
        i += 1;
    }
    assert(ids@.take(i as int) =~= ids@);
    let count = places.len();
    let mut k: usize = 0;
    assert(entry_views(entries@) =~= entry_views(old(entries)@) + child_rows(children).take(0));
    while k < count
        invariant
            count == places@.len(),
            k <= count,
            places@.len() == children.len(),
            forall|j: int|
                0 <= j < places@.len() ==> #[trigger] places@[j] < guilds@.len() && guilds@[places@[j] as int] == children[j],
            entry_views(entries@) == entry_views(old(entries)@) + child_rows(children).take(k as int),
        decreases count - k,
    {
        let branch = if k == count - 1 { GuildBranch::Last } else { GuildBranch::Middle };
        let ghost before = entries@;
        let entry = GuildPaneEntry::Guild { state: &guilds[places[k]], branch };
        entries.push(entry);
        proof {
            lemma_views_push(before, entry);
            assert(child_rows(children).take(k + 1) =~= child_rows(children).take(k as int).push(entry@));
            assert(entry_views(entries@) =~= entry_views(old(entries)@) + child_rows(children).take(k + 1));
        }
        k += 1;
    }
    assert(child_rows(children).take(k as int) =~= child_rows(children));
}

/// The rows of the guild list.
pub fn guild_pane_entries<'a>(
    folders: &'a Vec<GuildFolder>,
    guilds: &'a Vec<GuildState>,
    collapsed: &CollapsedFolders,
) -> (r: Vec<GuildPaneEntry<'a>>)
    ensures
        entry_views(r@) == guild_rows(folders@, guilds@, collapsed@),
{
    let mut entries: Vec<GuildPaneEntry<'a>> = Vec::new();
    entries.push(GuildPaneEntry::DirectMessages);
    let ghost start = entry_views(entries@);
    assert(start =~= seq![GuildEntryView::DirectMessages]);
    let mut i: usize = 0;
    assert(folders@.take(0) =~= Seq::<GuildFolder>::empty());
    assert(start =~= start + grouped_rows(folders@.take(0), guilds@, collapsed@));
    while i < folders.len()
        invariant
            i <= folders@.len(),
            entry_views(entries@) == start + grouped_rows(folders@.take(i as int), guilds@, collapsed@),
        decreases folders@.len() - i,
    {
        let folder = &folders[i];
        let ghost before = entry_views(entries@);
        assert(folders@.take(i + 1).drop_last() =~= folders@.take(i as int));
        if folder.id.is_none() && folder.guild_ids.len() == 1 {
            let ghost raw = entries@;
            if let Some(at) = find_guild(guilds, folder.guild_ids[0]) {
                let entry = GuildPaneEntry::Guild { state: &guilds[at], branch: GuildBranch::Root };
                entries.push(entry);
                proof {
                    lemma_views_push(raw, entry);
                }
            }
            assert(entry_views(entries@) =~= before + folder_rows(*folder, guilds@, collapsed@));
        } else {
            let closed = match folder_key(folder) {
                Some(key) => collapsed.contains(&key),
                None => false,
            };
            let ghost raw = entries@;
            let entry = GuildPaneEntry::FolderHeader { folder, collapsed: closed };
            entries.push(entry);
            proof {
                lemma_views_push(raw, entry);
            }
            if !closed {
                push_children(&mut entries, guilds, &folder.guild_ids);
            }
            assert(entry_views(entries@) =~= before + folder_rows(*folder, guilds@, collapsed@));
        }
        assert(entry_views(entries@) =~= start + grouped_rows(folders@.take(i + 1), guilds@, collapsed@));
        i += 1;
    }
    assert(folders@.take(i as int) =~= folders@);
    let ghost grouped = entry_views(entries@);
    let mut j: usize = 0;
    assert(guilds@.take(0) =~= Seq::<GuildState>::empty());
    assert(grouped =~= grouped + ungrouped_rows(folders@, guilds@.take(0)));
    while j < guilds.len()
        invariant
            j <= guilds@.len(),
            entry_views(entries@) == grouped + ungrouped_rows(folders@, guilds@.take(j as int)),
        decreases guilds@.len() - j,
    {
        assert(guilds@.take(j + 1).drop_last() =~= guilds@.take(j as int));
        if !listed(folders, guilds[j].id) {
            let ghost raw = entries@;
            let entry = GuildPaneEntry::Guild { state: &guilds[j], branch: GuildBranch::Root };
            entries.push(entry);
            proof {
                lemma_views_push(raw, entry);
            }
        }
        assert(entry_views(entries@) =~= grouped + ungrouped_rows(folders@, guilds@.take(j + 1)));
        j += 1;
    }
    assert(guilds@.take(j as int) =~= guilds@);
    entries
}

/// The folder that a row belongs to: its own, or that of the nearest heading above a guild in a folder.
pub open spec fn folder_at(rows: Seq<GuildEntryView>, selected: int) -> Option<FolderKeyView> {
    if 0 <= selected < rows.len() {
        match rows[selected] {
            GuildEntryView::FolderHeader { folder, .. } => key_of(folder),
            GuildEntryView::Guild { branch, .. } => if branch is Root {
                None
            } else {
                heading_above(rows, selected)
            },
            GuildEntryView::DirectMessages => None,
        }
    } else {
        None
    }
}

/// The key of the nearest heading above a row that has one.
pub open spec fn heading_above(rows: Seq<GuildEntryView>, at: int) -> Option<FolderKeyView>
    decreases at,
{
    if at <= 0 {
        None
    } else {
        match rows[at - 1] {
            GuildEntryView::FolderHeader { folder, .. } => match key_of(folder) {
                Some(key) => Some(key),
                None => heading_above(rows, at - 1),
            },
            _ => heading_above(rows, at - 1),
        }
    }
}

pub fn selected_folder_key<'a>(entries: &Vec<GuildPaneEntry<'a>>, selected: usize) -> (r: Option<FolderKey>)
    ensures
        opt_key(r) == folder_at(entry_views(entries@), selected as int),
{
    if selected >= entries.len() {
        return None;
    }
    let ghost rows = entry_views(entries@);
    assert(rows[selected as int] == entries@[selected as int]@);
    match &entries[selected] {
        GuildPaneEntry::DirectMessages => None,
        GuildPaneEntry::FolderHeader { folder, .. } => folder_key(folder),
        GuildPaneEntry::Guild { branch, .. } => {
            if !branch.is_folder_child() {
                return None;
            }
            let mut at: usize = selected;
            while at > 0
                invariant
                    at <= selected < entries@.len(),
                    rows == entry_views(entries@),
                    heading_above(rows, selected as int) == heading_above(rows, at as int),
                    heading_above(rows, selected as int) == folder_at(rows, selected as int),
                decreases at,
            {
                assert(rows[at - 1] == entries@[at - 1]@);
                if let GuildPaneEntry::FolderHeader { folder, .. } = &entries[at - 1] {
                    let key = folder_key(folder);
                    if key.is_some() {
                        return key;
                    }
                }
                at = at - 1;
            }
            None
        },
    }
}

/// What the user is looking at.
#[derive(Clone, Copy, Debug, PartialEq, Eq, Structural)]
pub enum ActiveGuildScope {
    Unset,
    DirectMessages,
    Guild(GuildId),
}

impl ActiveGuildScope {
    pub open spec fn guild(self) -> Option<GuildId> {
        match self {
            ActiveGuildScope::Guild(id) => Some(id),
            _ => None,
        }
    }

    pub fn selected_guild_id(self) -> (r: Option<GuildId>)
        ensures
            r == self.guild(),
    {
        match self {
            ActiveGuildScope::Guild(id) => Some(id),
            _ => None,
        }
    }

    /// Whether a row stands for what the user is looking at.
    pub fn is_active_guild_entry<'a>(self, entry: &GuildPaneEntry<'a>) -> (r: bool)
        ensures
            r == (match (self, entry@) {
                (ActiveGuildScope::DirectMessages, GuildEntryView::DirectMessages) => true,
                (ActiveGuildScope::Guild(id), GuildEntryView::Guild { state, .. }) => state.id == id,
                _ => false,
            }),
    {
        match (self, entry) {
            (ActiveGuildScope::DirectMessages, GuildPaneEntry::DirectMessages) => true,
            (ActiveGuildScope::Guild(id), GuildPaneEntry::Guild { state, .. }) => state.id == id,
            _ => false,
        }
    }
}

/// What opening a row of the guild list does.
#[derive(Debug, PartialEq, Eq)]
pub enum GuildConfirm {
    Activate { scope: ActiveGuildScope },
    ToggleFolder,
    Nothing,
}

pub open spec fn confirmed(rows: Seq<GuildEntryView>, selected: int) -> GuildConfirm {
    if 0 <= selected < rows.len() {
        match rows[selected] {
            GuildEntryView::DirectMessages => GuildConfirm::Activate { scope: ActiveGuildScope::DirectMessages },
            GuildEntryView::Guild { state, .. } => GuildConfirm::Activate { scope: ActiveGuildScope::Guild(state.id) },
            GuildEntryView::FolderHeader { .. } => GuildConfirm::ToggleFolder,
        }
    } else {
        GuildConfirm::Nothing
    }
}

pub fn confirm_selected_guild<'a>(entries: &Vec<GuildPaneEntry<'a>>, selected: usize) -> (r: GuildConfirm)
    ensures
        r == confirmed(entry_views(entries@), selected as int),
{
    if selected >= entries.len() {
        return GuildConfirm::Nothing;
    }
    assert(entry_views(entries@)[selected as int] == entries@[selected as int]@);
    match &entries[selected] {
        GuildPaneEntry::DirectMessages => GuildConfirm::Activate { scope: ActiveGuildScope::DirectMessages },
        GuildPaneEntry::Guild { state, .. } => GuildConfirm::Activate { scope: ActiveGuildScope::Guild(state.id) },
        GuildPaneEntry::FolderHeader { .. } => GuildConfirm::ToggleFolder,
    }
}

/// Whether some row shows a guild.
pub open spec fn shows_guild(rows: Seq<GuildEntryView>, id: GuildId) -> bool {
    exists|i: int|
        0 <= i < rows.len() && (match #[trigger] rows[i] {
            GuildEntryView::Guild { state, .. } => state.id == id,
            _ => false,
        })
}

/// Whether a folder that lists a guild is collapsed.
pub open spec fn hidden_in_folder(folders: Seq<GuildFolder>, collapsed: Set<FolderKeyView>, id: GuildId) -> bool {
    exists|i: int|
        0 <= i < folders.len() && (#[trigger] folders[i]).guild_ids@.contains(id) && !is_single(folders[i]) && is_collapsed(
            folders[i],
            collapsed,
        )
}

proof fn lemma_place(guilds: Seq<GuildState>, id: GuildId)
    ensures
        -1 <= place_of_guild(guilds, id) < guilds.len(),
        place_of_guild(guilds, id) >= 0 ==> guilds[place_of_guild(guilds, id)].id == id,
        forall|i: int| 0 <= i < guilds.len() && (#[trigger] guilds[i]).id == id ==> place_of_guild(guilds, id) >= 0,
    decreases guilds.len(),
{
    if guilds.len() > 0 {
        lemma_place(guilds.drop_last(), id);
        assert forall|i: int| 0 <= i < guilds.len() && (#[trigger] guilds[i]).id == id implies place_of_guild(guilds, id)
            >= 0 by {
            if i < guilds.len() - 1 {
                assert(guilds.drop_last()[i] == guilds[i]);
            }
        }
    }
}

proof fn lemma_folder_guilds(guilds: Seq<GuildState>, ids: Seq<GuildId>, id: GuildId)
    requires
        ids.contains(id),
        place_of_guild(guilds, id) >= 0,
    ensures
        exists|i: int| 0 <= i < folder_guilds(guilds, ids).len() && (#[trigger] folder_guilds(guilds, ids)[i]).id == id,
    decreases ids.len(),
{
    lemma_place(guilds, id);
    let k = choose|k: int| 0 <= k < ids.len() && ids[k] == id;
    let all = folder_guilds(guilds, ids);
    if k == ids.len() - 1 {
        assert(all[all.len() - 1].id == id);
    } else {
        let rest = ids.drop_last();
        assert(rest[k] == id);
        lemma_folder_guilds(guilds, rest, id);
        let some = folder_guilds(guilds, rest);
        let i = choose|i: int| 0 <= i < some.len() && (#[trigger] some[i]).id == id;
        assert(all[i] == some[i]);
    }
}

proof fn lemma_grouped(folders: Seq<GuildFolder>, guilds: Seq<GuildState>, collapsed: Set<FolderKeyView>, id: GuildId)
    requires
        in_folder(folders, id),
        place_of_guild(guilds, id) >= 0,
        !hidden_in_folder(folders, collapsed, id),
    ensures
        shows_guild(grouped_rows(folders, guilds, collapsed), id),
    decreases folders.len(),
{
    lemma_place(guilds, id);
    let f = choose|f: int| 0 <= f < folders.len() && (#[trigger] folders[f]).guild_ids@.contains(id);
    let rest = folders.drop_last();
    let rows = grouped_rows(folders, guilds, collapsed);
    let before = grouped_rows(rest, guilds, collapsed);
    let last = folder_rows(folders.last(), guilds, collapsed);
    if f == folders.len() - 1 {
        let folder = folders.last();
        if is_single(folder) {
            let k = choose|k: int| 0 <= k < folder.guild_ids@.len() && folder.guild_ids@[k] == id;
            assert(folder.guild_ids@[0] == id);
            assert(rows[before.len() as int] == last[0]);
        } else {
            assert(!is_collapsed(folder, collapsed));
            lemma_folder_guilds(guilds, folder.guild_ids@, id);
            let children = folder_guilds(guilds, folder.guild_ids@);
            let i = choose|i: int| 0 <= i < children.len() && (#[trigger] children[i]).id == id;
            assert(last[1 + i] == child_rows(children)[i]);
            assert(rows[before.len() + 1 + i] == last[1 + i]);
        }
    } else {
        assert(rest[f] == folders[f]);
        assert(!hidden_in_folder(rest, collapsed, id)) by {
            if hidden_in_folder(rest, collapsed, id) {
                let g = choose|g: int|
                    0 <= g < rest.len() && (#[trigger] rest[g]).guild_ids@.contains(id) && !is_single(rest[g])
                        && is_collapsed(rest[g], collapsed);
                assert(folders[g] == rest[g]);
            }
        }
        lemma_grouped(rest, guilds, collapsed, id);
        let i = choose|i: int|
            0 <= i < before.len() && (match #[trigger] before[i] {
                GuildEntryView::Guild { state, .. } => state.id == id,
                _ => false,
            });
        assert(rows[i] == before[i]);
    }
}

proof fn lemma_ungrouped(folders: Seq<GuildFolder>, guilds: Seq<GuildState>, k: int)
    requires
        0 <= k < guilds.len(),
        !in_folder(folders, guilds[k].id),
    ensures
        shows_guild(ungrouped_rows(folders, guilds), guilds[k].id),
    decreases guilds.len(),
{
    let rows = ungrouped_rows(folders, guilds);
    if k == guilds.len() - 1 {
        assert(rows[rows.len() - 1] == root_row(guilds[k]));
    } else {
        let rest = guilds.drop_last();
        lemma_ungrouped(folders, rest, k);
        let before = ungrouped_rows(folders, rest);
        let i = choose|i: int|
            0 <= i < before.len() && (match #[trigger] before[i] {
                GuildEntryView::Guild { state, .. } => state.id == guilds[k].id,
                _ => false,
            });
        assert(rows[i] == before[i]);
    }
}

/// Every guild of the user has a row, unless a folder that lists it is collapsed.
pub proof fn every_guild_has_a_row(
    folders: Seq<GuildFolder>,
    guilds: Seq<GuildState>,
    collapsed: Set<FolderKeyView>,
    k: int,
)
    requires
        0 <= k < guilds.len(),
        !hidden_in_folder(folders, collapsed, guilds[k].id),
    ensures
        shows_guild(guild_rows(folders, guilds, collapsed), guilds[k].id),
{
    let id = guilds[k].id;
    lemma_place(guilds, id);
    let rows = guild_rows(folders, guilds, collapsed);
    let grouped = grouped_rows(folders, guilds, collapsed);
    if in_folder(folders, id) {
        lemma_grouped(folders, guilds, collapsed, id);
        let i = choose|i: int|
            0 <= i < grouped.len() && (match #[trigger] grouped[i] {
                GuildEntryView::Guild { state, .. } => state.id == id,
                _ => false,
            });
        assert(rows[1 + i] == grouped[i]);
    } else {
        lemma_ungrouped(folders, guilds, k);
        let rest = ungrouped_rows(folders, guilds);
        let i = choose|i: int|
            0 <= i < rest.len() && (match #[trigger] rest[i] {
                GuildEntryView::Guild { state, .. } => state.id == id,
                _ => false,
            });
        assert(rows[1 + grouped.len() + i] == rest[i]);
    }
}

} // verus!
