//! The cards of threads and forum posts.

use crate::ids::{ChannelId, MessageId, UserId};
use crate::message::reactions::ReactionInfo;
use crate::message::wrap::sat_add;
use crate::state::channel_switcher::ChannelUnreadState;
use crate::state::message_viewport::newer_count;
use crate::state::model::{AppliedForumTag, ChannelThreadItem, ThreadCardImagePreview};
use crate::state::scroll::minus;
use crate::state::sorting::{comes_before, is_order, key_less, key_views, orders_list_every_item, sorted_order};
use crate::text::{decimal, decimal_string, opt_text};
use crate::unicode::{trim_text, trimmed};
use vstd::prelude::*;
use vstd::string::*;

verus! {

/// What the list of cards needs to know of a thread.
#[derive(Clone, Copy, Debug, PartialEq, Eq, Structural)]
pub struct CardThread {
    pub id: ChannelId,
    pub parent_id: Option<ChannelId>,
    pub is_thread: bool,
    pub pinned: Option<bool>,
    pub archived: Option<bool>,
    pub can_view: bool,
    pub last_message_id: Option<MessageId>,
    pub has_tags: bool,
    pub has_preview_image: bool,
    /// The rows of the card at the width of the list, and beside a scrollbar.
    pub height: usize,
    pub narrow_height: usize,
}

/// The heading above the first card of a section.
#[derive(Clone, Copy, Debug, PartialEq, Eq, Structural)]
pub enum CardSection {
    ActiveThreads,
    ActivePosts,
    ArchivedPosts,
}

impl CardSection {
    pub open spec fn text(self) -> Seq<char> {
        match self {
            CardSection::ActiveThreads => "Active threads"@,
            CardSection::ActivePosts => "Active posts"@,
            CardSection::ArchivedPosts => "Archived posts"@,
        }
    }

    pub fn label(self) -> (r: &'static str)
        ensures
            r@ == self.text(),
    {
        match self {
            CardSection::ActiveThreads => "Active threads",
            CardSection::ActivePosts => "Active posts",
            CardSection::ArchivedPosts => "Archived posts",
        }
    }
}

/// A card in the list.
#[derive(Clone, Copy, Debug, PartialEq, Eq, Structural)]
pub struct ThreadCardListEntry {
    pub channel_id: ChannelId,
    pub section_label: Option<CardSection>,
    pub archived: bool,
    pub has_tags: bool,
    pub has_preview_image: bool,
    pub rendered_height: usize,
    pub rendered_row_start: usize,
}

/// The rows of a card with the heading above it.
pub open spec fn rows_of(height: usize, section: Option<CardSection>) -> usize {
    if section is Some {
        sat_add(height, 1)
    } else {
        height
    }
}

pub open spec fn entry_of(t: CardThread, section: Option<CardSection>, archived: bool, narrow: bool) -> ThreadCardListEntry {
    ThreadCardListEntry {
        channel_id: t.id,
        section_label: section,
        archived,
        has_tags: t.has_tags,
        has_preview_image: t.has_preview_image,
        rendered_height: rows_of(if narrow { t.narrow_height } else { t.height }, section),
        rendered_row_start: 0,
    }
}

impl ThreadCardListEntry {
    fn new(t: &CardThread, section: Option<CardSection>, archived: bool, narrow: bool) -> (r: ThreadCardListEntry)
        ensures
            r == entry_of(*t, section, archived, narrow),
    {
        let height = if narrow { t.narrow_height } else { t.height };
        ThreadCardListEntry {
            channel_id: t.id,
            section_label: section,
            archived,
            has_tags: t.has_tags,
            has_preview_image: t.has_preview_image,
            rendered_height: if section.is_some() { height.saturating_add(1) } else { height },
            rendered_row_start: 0,
        }
    }

    /// The rows of the card itself.
    pub fn card_height(self) -> (r: usize)
        ensures
            r == (if self.section_label is Some {
                minus(self.rendered_height as int, 1)
            } else {
                self.rendered_height as int
            }),
    {
        if self.section_label.is_some() {
            self.rendered_height.saturating_sub(1)
        } else {
            self.rendered_height
        }
    }
}

pub open spec fn is_active_card(t: CardThread, parent: ChannelId) -> bool {
    t.is_thread && t.parent_id == Some(parent) && t.can_view
}

pub open spec fn is_archived_card(t: CardThread, parent: ChannelId) -> bool {
    t.is_thread && t.parent_id == Some(parent) && t.archived == Some(true) && t.can_view
}

pub open spec fn active_cards(threads: Seq<CardThread>, parent: ChannelId) -> Seq<CardThread>
    decreases threads.len(),
{
    if threads.len() == 0 {
        Seq::empty()
    } else if is_active_card(threads.last(), parent) {
        active_cards(threads.drop_last(), parent).push(threads.last())
    } else {
        active_cards(threads.drop_last(), parent)
    }
}

/// Archived posts that are not among the active ones, in the order in which they were archived.
pub open spec fn archived_cards(threads: Seq<CardThread>, active: Seq<CardThread>, parent: ChannelId) -> Seq<CardThread>
    decreases threads.len(),
{
    if threads.len() == 0 {
        Seq::empty()
    } else if is_archived_card(threads.last(), parent) && !lists_thread(active, threads.last().id) {
        archived_cards(threads.drop_last(), active, parent).push(threads.last())
    } else {
        archived_cards(threads.drop_last(), active, parent)
    }
}

pub open spec fn lists_thread(threads: Seq<CardThread>, id: ChannelId) -> bool {
    exists|i: int| 0 <= i < threads.len() && (#[trigger] threads[i]).id == id
}

/// What active cards are sorted by: the pinned ones first, then those with the newest message.
pub open spec fn activity_key(t: CardThread) -> Seq<u64> {
    seq![
        if t.pinned == Some(true) { 0u64 } else { 1u64 },
        match t.last_message_id {
            Some(id) => (u64::MAX - id) as u64,
            None => u64::MAX,
        },
    ]
}

pub open spec fn activity_keys(threads: Seq<CardThread>) -> Seq<Seq<u64>> {
    threads.map_values(|t: CardThread| activity_key(t))
}

/// Cards with a heading above the first.
pub open spec fn section_entries(threads: Seq<CardThread>, section: CardSection, archived: bool, narrow: bool) -> Seq<
    ThreadCardListEntry,
> {
    Seq::new(
        threads.len(),
        |i: int| entry_of(threads[i], if i == 0 { Some(section) } else { None }, archived, narrow),
    )
}

pub open spec fn threads_in_order(threads: Seq<CardThread>, order: Seq<usize>) -> Seq<CardThread> {
    order.map_values(|i: usize| threads[i as int])
}

fn is_active(t: &CardThread, parent: ChannelId) -> (r: bool)
    ensures
        r == is_active_card(*t, parent),
{
    match t.parent_id {
        Some(id) => t.is_thread && id == parent && t.can_view,
        None => false,
    }
}

fn sorted_active(threads: &Vec<CardThread>, parent: ChannelId) -> (r: Vec<CardThread>)
    ensures
        exists|order: Seq<usize>| #[trigger]
            is_order(
                activity_keys(active_cards(threads@, parent)),
                active_cards(threads@, parent).len() as int,
                order,
            ) && r@ == threads_in_order(active_cards(threads@, parent), order),
{
    let mut kept: Vec<CardThread> = Vec::new();
    let mut keys: Vec<Vec<u64>> = Vec::new();
    let mut i: usize = 0;
    assert(threads@.take(0) =~= Seq::<CardThread>::empty());
    assert(key_views(keys@) =~= activity_keys(Seq::<CardThread>::empty()));
    while i < threads.len()
        invariant
            i <= threads@.len(),
            kept@ == active_cards(threads@.take(i as int), parent),
            key_views(keys@) == activity_keys(kept@),
            keys@.len() == kept@.len(),
        decreases threads@.len() - i,
    {
        assert(threads@.take(i + 1).drop_last() =~= threads@.take(i as int));
        let t = threads[i];
        if is_active(&t, parent) {
            let ghost before = keys@;
            let ghost less = kept@;
            let pinned = match t.pinned {
                Some(pinned) => pinned,
                None => false,
            };
            let mut key: Vec<u64> = Vec::new();
            key.push(if pinned { 0 } else { 1 });
            key.push(
                match t.last_message_id {
                    Some(id) => u64::MAX - id,
                    None => u64::MAX,
                },
            );
            assert(key@ =~= activity_key(t));
            kept.push(t);
            keys.push(key);
            assert(key_views(keys@) =~= key_views(before).push(key@));
            assert(activity_keys(kept@) =~= activity_keys(less).push(key@));
        }
        i += 1;
    }
    assert(threads@.take(i as int) =~= threads@);
    let order = sorted_order(&keys);
    let ghost sorted = threads_in_order(kept@, order@);
    let mut out: Vec<CardThread> = Vec::new();
    let mut j: usize = 0;
    while j < order.len()
        invariant
            j <= order@.len(),
            sorted == threads_in_order(kept@, order@),
            is_order(activity_keys(kept@), kept@.len() as int, order@),
            out@ == sorted.take(j as int),
        decreases order@.len() - j,
    {
        assert(order@[j as int] < kept@.len());
        out.push(kept[order[j]]);
        assert(sorted.take(j + 1) =~= sorted.take(j as int).push(sorted[j as int]));
        j += 1;
    }
    assert(out@ =~= sorted);
    out
}

fn push_section(
    entries: &mut Vec<ThreadCardListEntry>,
    threads: &Vec<CardThread>,
    section: CardSection,
    archived: bool,
    narrow: bool,
)
    ensures
        final(entries)@ == old(entries)@ + section_entries(threads@, section, archived, narrow),
{
    let ghost rows = section_entries(threads@, section, archived, narrow);
    let mut i: usize = 0;
    assert(entries@ =~= old(entries)@ + rows.take(0));
    while i < threads.len()
        invariant
            i <= threads@.len(),
            rows == section_entries(threads@, section, archived, narrow),
            entries@ == old(entries)@ + rows.take(i as int),
        decreases threads@.len() - i,
    {
        let label = if i == 0 { Some(section) } else { None };
        entries.push(ThreadCardListEntry::new(&threads[i], label, archived, narrow));
        assert(rows.take(i + 1) =~= rows.take(i as int).push(rows[i as int]));
        assert(entries@ =~= old(entries)@ + rows.take(i + 1));
        i += 1;
    }
    assert(rows.take(i as int) =~= rows);
}

fn archived_posts(threads: &Vec<CardThread>, active: &Vec<CardThread>, parent: ChannelId) -> (r: Vec<CardThread>)
    ensures
        r@ == archived_cards(threads@, active@, parent),
{
    let mut out: Vec<CardThread> = Vec::new();
    let mut i: usize = 0;
    assert(threads@.take(0) =~= Seq::<CardThread>::empty());
    while i < threads.len()
        invariant
            i <= threads@.len(),
            out@ == archived_cards(threads@.take(i as int), active@, parent),
        decreases threads@.len() - i,
    {
        assert(threads@.take(i + 1).drop_last() =~= threads@.take(i as int));
        let t = threads[i];
        let archived = match t.archived {
            Some(archived) => archived,
            None => false,
        };
        if is_active(&t, parent) && archived {
            let mut listed = false;
            let mut k: usize = 0;
            while k < active.len()
                invariant
                    k <= active@.len(),
                    listed <==> exists|j: int| 0 <= j < k && (#[trigger] active@[j]).id == t.id,
                decreases active@.len() - k,
            {
                if active[k].id == t.id {
                    listed = true;
                }
                k += 1;
            }
            assert(listed == lists_thread(active@, t.id));
            if !listed {
                out.push(t);
            }
        }
        i += 1;
    }
    assert(threads@.take(i as int) =~= threads@);
    out
}

/// The rows of some cards.
pub open spec fn card_rows(entries: Seq<ThreadCardListEntry>) -> usize
    decreases entries.len(),
{
    if entries.len() == 0 {
        0
    } else {
        sat_add(card_rows(entries.drop_last()), entries.last().rendered_height)
    }
}

/// Cards with the row that each begins in.
pub open spec fn started(entries: Seq<ThreadCardListEntry>) -> Seq<ThreadCardListEntry> {
    Seq::new(
        entries.len(),
        |i: int| ThreadCardListEntry { rendered_row_start: card_rows(entries.take(i)), ..entries[i] },
    )
}

fn set_thread_card_entry_row_starts(entries: Vec<ThreadCardListEntry>) -> (r: (Vec<ThreadCardListEntry>, usize))
    ensures
        r.0@ == started(entries@),
        r.1 == card_rows(entries@),
{
    let mut out: Vec<ThreadCardListEntry> = Vec::new();
    let mut row: usize = 0;
    let mut i: usize = 0;
    assert(entries@.take(0) =~= Seq::<ThreadCardListEntry>::empty());
    while i < entries.len()
        invariant
            i <= entries@.len(),
            row == card_rows(entries@.take(i as int)),
            out@ == started(entries@).take(i as int),
        decreases entries@.len() - i,
    {
        let mut entry = entries[i];
        entry.rendered_row_start = row;
        out.push(entry);
        assert(entries@.take(i + 1).drop_last() =~= entries@.take(i as int));
        row = row.saturating_add(entry.rendered_height);
        assert(started(entries@).take(i + 1) =~= started(entries@).take(i as int).push(entry));
        i += 1;
    }
    assert(entries@.take(i as int) =~= entries@);
    assert(started(entries@).take(i as int) =~= started(entries@));
    (out, row)
}

/// What a list of cards is made of.
#[derive(Clone, Copy, Debug, PartialEq, Eq, Structural)]
pub enum CardSource {
    ForumPosts { channel_id: ChannelId },
    ChannelThreads { channel_id: ChannelId },
}

/// The cards of a source, with the active ones sorted.
pub open spec fn source_entries(
    source: CardSource,
    sorted: Seq<CardThread>,
    active: Seq<CardThread>,
    archived: Seq<CardThread>,
    narrow: bool,
) -> Seq<ThreadCardListEntry> {
    match source {
        CardSource::ForumPosts { channel_id } => section_entries(sorted, CardSection::ActivePosts, false, narrow)
            + section_entries(archived_cards(archived, active, channel_id), CardSection::ArchivedPosts, true, narrow),
        CardSource::ChannelThreads { .. } => section_entries(sorted, CardSection::ActiveThreads, false, narrow),
    }
}

pub open spec fn source_channel(source: CardSource) -> ChannelId {
    match source {
        CardSource::ForumPosts { channel_id } => channel_id,
        CardSource::ChannelThreads { channel_id } => channel_id,
    }
}

/// The list of cards. Where it does not fit, a scrollbar takes a column and the cards are laid out anew.
pub open spec fn card_list(
    source: CardSource,
    sorted: Seq<CardThread>,
    active: Seq<CardThread>,
    archived: Seq<CardThread>,
    list_height: usize,
) -> Seq<ThreadCardListEntry> {
    let wide = source_entries(source, sorted, active, archived, false);
    if list_height > 0 && card_rows(wide) > list_height {
        started(source_entries(source, sorted, active, archived, true))
    } else {
        started(wide)
    }
}

fn collect_entries(
    source: CardSource,
    sorted: &Vec<CardThread>,
    active: &Vec<CardThread>,
    archived: &Vec<CardThread>,
    narrow: bool,
) -> (r: Vec<ThreadCardListEntry>)
    ensures
        r@ == source_entries(source, sorted@, active@, archived@, narrow),
{
    let mut entries: Vec<ThreadCardListEntry> = Vec::new();
    match source {
        CardSource::ForumPosts { channel_id } => {
            push_section(&mut entries, sorted, CardSection::ActivePosts, false, narrow);
            let posts = archived_posts(archived, active, channel_id);
            push_section(&mut entries, &posts, CardSection::ArchivedPosts, true, narrow);
        },
        CardSource::ChannelThreads { .. } => {
            push_section(&mut entries, sorted, CardSection::ActiveThreads, false, narrow);
        },
    }
    assert(entries@ =~= source_entries(source, sorted@, active@, archived@, narrow));
    entries
}

/// Whether a list is that of the cards of a source.
pub open spec fn is_card_list(
    r: Seq<ThreadCardListEntry>,
    source: CardSource,
    active: Seq<CardThread>,
    archived: Seq<CardThread>,
    list_height: usize,
) -> bool {
    let cards = active_cards(active, source_channel(source));
    exists|order: Seq<usize>| #[trigger]
        is_order(activity_keys(cards), cards.len() as int, order) && r == card_list(
            source,
            threads_in_order(cards, order),
            active,
            archived,
            list_height,
        )
}

pub fn build_thread_card_entries(
    source: CardSource,
    active: &Vec<CardThread>,
    archived: &Vec<CardThread>,
    list_height: usize,
) -> (r: Vec<ThreadCardListEntry>)
    ensures
        is_card_list(r@, source, active@, archived@, list_height),
{
    let parent: ChannelId = match source {
        CardSource::ForumPosts { channel_id } => channel_id,
        CardSource::ChannelThreads { channel_id } => channel_id,
    };
    let sorted = sorted_active(active, parent);
    let ghost cards = active_cards(active@, source_channel(source));
    let ghost order = choose|order: Seq<usize>| #[trigger]
        is_order(activity_keys(cards), cards.len() as int, order) && sorted@ == threads_in_order(cards, order);
    assert(is_order(activity_keys(cards), cards.len() as int, order) && sorted@ == threads_in_order(cards, order));
    let wide = collect_entries(source, &sorted, active, archived, false);
    let (entries, rows) = set_thread_card_entry_row_starts(wide);
    if list_height > 0 && rows > list_height {
        let narrow = collect_entries(source, &sorted, active, archived, true);
        let (entries, _) = set_thread_card_entry_row_starts(narrow);
        assert(entries@ == card_list(source, threads_in_order(cards, order), active@, archived@, list_height));
        return entries;
    }
    assert(entries@ == card_list(source, threads_in_order(cards, order), active@, archived@, list_height));
    entries
}

pub open spec fn last_row_end(entries: Seq<ThreadCardListEntry>) -> usize {
    if entries.len() == 0 {
        0
    } else {
        sat_add(entries.last().rendered_row_start, entries.last().rendered_height)
    }
}

pub fn thread_card_total_rendered_rows(entries: &Vec<ThreadCardListEntry>) -> (r: usize)
    ensures
        r == last_row_end(entries@),
{
    if entries.len() == 0 {
        return 0;
    }
    let last = entries[entries.len() - 1];
    last.rendered_row_start.saturating_add(last.rendered_height)
}

/// The rows above a card, or of all cards.
pub fn thread_card_rendered_rows_before(entries: &Vec<ThreadCardListEntry>, index: usize) -> (r: usize)
    ensures
        r == (if index < entries@.len() { entries@[index as int].rendered_row_start } else { last_row_end(entries@) }),
{
    if index < entries.len() {
        entries[index].rendered_row_start
    } else {
        thread_card_total_rendered_rows(entries)
    }
}

/// Cards follow each other without gaps: each begins where the one before ends.
pub proof fn cards_follow_each_other(entries: Seq<ThreadCardListEntry>, i: int)
    requires
        0 <= i < entries.len() - 1,
    ensures
        started(entries)[0].rendered_row_start == 0,
        started(entries)[i + 1].rendered_row_start == sat_add(
            started(entries)[i].rendered_row_start,
            entries[i].rendered_height,
        ),
{
    assert(entries.take(0) =~= Seq::<ThreadCardListEntry>::empty());
    assert(entries.take(i + 1).drop_last() =~= entries.take(i));
}

// ---- The order of the cards ----

/// Whether a thread belongs below a channel and can be looked at.
pub open spec fn belongs_to(t: CardThread, parent: ChannelId) -> bool {
    t.is_thread && t.parent_id == Some(parent) && t.can_view
}

/// The number of the newest message of a thread, or zero.
pub open spec fn latest(t: CardThread) -> int {
    match t.last_message_id {
        Some(id) => id as int,
        None => 0,
    }
}

proof fn lemma_active_cards(threads: Seq<CardThread>, parent: ChannelId, t: CardThread)
    ensures
        active_cards(threads, parent).contains(t) <==> threads.contains(t) && belongs_to(t, parent),
    decreases threads.len(),
{
    if threads.len() > 0 {
        let rest = threads.drop_last();
        let before = active_cards(rest, parent);
        let all = active_cards(threads, parent);
        lemma_active_cards(rest, parent, t);
        if threads.contains(t) {
            let i = choose|i: int| 0 <= i < threads.len() && threads[i] == t;
            if i < rest.len() {
                assert(rest[i] == t);
            }
        }
        if rest.contains(t) {
            let i = choose|i: int| 0 <= i < rest.len() && rest[i] == t;
            assert(threads[i] == t);
        }
        assert(threads[threads.len() - 1] == threads.last());
        if before.contains(t) {
            let i = choose|i: int| 0 <= i < before.len() && before[i] == t;
            assert(all[i] == t);
        }
        if all.contains(t) {
            let i = choose|i: int| 0 <= i < all.len() && all[i] == t;
            if i < before.len() {
                assert(before[i] == t);
            }
        }
        if all.len() > before.len() {
            assert(all[before.len() as int] == threads.last());
        }
    } else {
        assert(active_cards(threads, parent) =~= Seq::empty());
    }
}

proof fn lemma_archived_cards(threads: Seq<CardThread>, active: Seq<CardThread>, parent: ChannelId, t: CardThread)
    ensures
        archived_cards(threads, active, parent).contains(t) <==> threads.contains(t) && belongs_to(t, parent)
            && t.archived == Some(true) && !lists_thread(active, t.id),
    decreases threads.len(),
{
    if threads.len() > 0 {
        let rest = threads.drop_last();
        let before = archived_cards(rest, active, parent);
        let all = archived_cards(threads, active, parent);
        lemma_archived_cards(rest, active, parent, t);
        if threads.contains(t) {
            let i = choose|i: int| 0 <= i < threads.len() && threads[i] == t;
            if i < rest.len() {
                assert(rest[i] == t);
            }
        }
        if rest.contains(t) {
            let i = choose|i: int| 0 <= i < rest.len() && rest[i] == t;
            assert(threads[i] == t);
        }
        assert(threads[threads.len() - 1] == threads.last());
        if before.contains(t) {
            let i = choose|i: int| 0 <= i < before.len() && before[i] == t;
            assert(all[i] == t);
        }
        if all.contains(t) {
            let i = choose|i: int| 0 <= i < all.len() && all[i] == t;
            if i < before.len() {
                assert(before[i] == t);
            }
        }
        if all.len() > before.len() {
            assert(all[before.len() as int] == threads.last());
        }
    } else {
        assert(archived_cards(threads, active, parent) =~= Seq::empty());
    }
}

/// Archived cards keep the order in which they were given.
proof fn lemma_archived_order(threads: Seq<CardThread>, active: Seq<CardThread>, parent: ChannelId) -> (places: Seq<int>)
    ensures
        places.len() == archived_cards(threads, active, parent).len(),
        forall|i: int|
            0 <= i < places.len() ==> 0 <= #[trigger] places[i] < threads.len() && threads[places[i]] == archived_cards(
                threads,
                active,
                parent,
            )[i],
        forall|i: int, j: int| #![trigger places[i], places[j]] 0 <= i < j < places.len() ==> places[i] < places[j],
    decreases threads.len(),
{
    if threads.len() == 0 {
        seq![]
    } else {
        let before = lemma_archived_order(threads.drop_last(), active, parent);
        let kept = archived_cards(threads.drop_last(), active, parent);
        let all = archived_cards(threads, active, parent);
        let r = if all.len() > kept.len() {
            before.push(threads.len() - 1)
        } else {
            before
        };
        assert forall|i: int| 0 <= i < r.len() implies 0 <= #[trigger] r[i] < threads.len() && threads[r[i]] == all[i] by {
            if i < before.len() {
                assert(threads.drop_last()[before[i]] == kept[i]);
            }
        }
        r
    }
}

/// Whether a card stands before another by right: pinned posts come first, and then those with the newest
/// message.
pub open spec fn may_precede(a: CardThread, b: CardThread) -> bool {
    &&& b.pinned == Some(true) ==> a.pinned == Some(true)
    &&& (a.pinned == Some(true)) == (b.pinned == Some(true)) ==> latest(a) >= latest(b)
}

proof fn lemma_active_order(cards: Seq<CardThread>, order: Seq<usize>, i: int, j: int)
    requires
        is_order(activity_keys(cards), cards.len() as int, order),
        0 <= i < j < order.len(),
    ensures
        may_precede(threads_in_order(cards, order)[i], threads_in_order(cards, order)[j]),
{
    let keys = activity_keys(cards);
    assert(order[i] < cards.len() && order[j] < cards.len());
    assert(comes_before(keys, order[i] as int, order[j] as int));
    let (a, b) = (keys[order[i] as int], keys[order[j] as int]);
    reveal_with_fuel(key_less, 3);
    assert(a.drop_first()[0] == a[1] && b.drop_first()[0] == b[1]);
}

/// The cards of a list: each stands for a thread below the channel that can be looked at. Active ones come first, all
/// of them: pinned posts before the others, and else those with the newest message first. Behind them come the
/// archived posts of a forum that are not among the active ones, in their order. Only the first card of each kind has
/// a heading.
pub proof fn cards_stand_in_order(
    r: Seq<ThreadCardListEntry>,
    source: CardSource,
    active: Seq<CardThread>,
    archived: Seq<CardThread>,
    list_height: usize,
) -> (cards: Seq<CardThread>)
    requires
        is_card_list(r, source, active, archived, list_height),
    ensures
        cards.len() == r.len(),
        forall|i: int|
            0 <= i < r.len() ==> {
                let t = #[trigger] cards[i];
                &&& r[i].channel_id == t.id
                &&& r[i].has_tags == t.has_tags
                &&& r[i].has_preview_image == t.has_preview_image
                &&& belongs_to(t, match source {
                    CardSource::ForumPosts { channel_id } => channel_id,
                    CardSource::ChannelThreads { channel_id } => channel_id,
                })
                &&& !r[i].archived ==> active.contains(t)
                &&& r[i].archived ==> source is ForumPosts && archived.contains(t) && t.archived == Some(true)
                    && !lists_thread(active, t.id)
                &&& r[i].section_label is Some <==> i == 0 || r[i - 1].archived != r[i].archived
                &&& r[i].section_label is Some ==> r[i].section_label == Some(
                    if r[i].archived {
                        CardSection::ArchivedPosts
                    } else if source is ForumPosts {
                        CardSection::ActivePosts
                    } else {
                        CardSection::ActiveThreads
                    },
                )
            },
        forall|i: int, j: int|
            #![trigger cards[i], cards[j]]
            0 <= i < j < r.len() ==> {
                &&& r[i].archived ==> r[j].archived
                &&& !r[j].archived ==> may_precede(cards[i], cards[j])
            },
        forall|t: CardThread| #[trigger]
            active.contains(t) && belongs_to(t, match source {
                CardSource::ForumPosts { channel_id } => channel_id,
                CardSource::ChannelThreads { channel_id } => channel_id,
            }) ==> exists|i: int| 0 <= i < r.len() && #[trigger] cards[i] == t && !r[i].archived,
        forall|t: CardThread| #[trigger]
            archived.contains(t) && t.archived == Some(true) && !lists_thread(active, t.id) && (source matches CardSource::ForumPosts {
                channel_id,
            } && belongs_to(t, channel_id)) ==> exists|i: int|
                0 <= i < r.len() && #[trigger] cards[i] == t && r[i].archived,
{
    let parent = source_channel(source);
    let own = active_cards(active, parent);
    let order = choose|order: Seq<usize>| #[trigger]
        is_order(activity_keys(own), own.len() as int, order) && r == card_list(
            source,
            threads_in_order(own, order),
            active,
            archived,
            list_height,
        );
    let sorted = threads_in_order(own, order);
    let old = if source is ForumPosts {
        archived_cards(archived, active, parent)
    } else {
        Seq::empty()
    };
    let cards = sorted + old;
    assert(r.len() == cards.len());
    assert forall|i: int| 0 <= i < r.len() implies {
        let t = #[trigger] cards[i];
        &&& r[i].archived == (i >= sorted.len())
        &&& i < sorted.len() ==> own.contains(t)
        &&& i >= sorted.len() ==> old.contains(t)
    } by {
        if i < sorted.len() {
            assert(order[i] < own.len());
            assert(own[order[i] as int] == cards[i]);
        } else {
            assert(old[i - sorted.len()] == cards[i]);
        }
    }
    assert forall|i: int| 0 <= i < r.len() implies {
        let t = #[trigger] cards[i];
        &&& belongs_to(t, parent)
        &&& !r[i].archived ==> active.contains(t)
        &&& r[i].archived ==> archived.contains(t) && t.archived == Some(true) && !lists_thread(active, t.id)
    } by {
        lemma_active_cards(active, parent, cards[i]);
        lemma_archived_cards(archived, active, parent, cards[i]);
    }
    assert forall|i: int, j: int| #![trigger cards[i], cards[j]] 0 <= i < j < r.len() implies {
        &&& r[i].archived ==> r[j].archived
        &&& !r[j].archived ==> may_precede(cards[i], cards[j])
    } by {
        if j < sorted.len() {
            lemma_active_order(own, order, i, j);
        }
    }
    assert forall|t: CardThread| #[trigger] active.contains(t) && belongs_to(t, parent) implies exists|i: int|
        0 <= i < r.len() && #[trigger] cards[i] == t && !r[i].archived by {
        lemma_active_cards(active, parent, t);
        let k = choose|k: int| 0 <= k < own.len() && own[k] == t;
        orders_list_every_item(activity_keys(own), own.len() as int, order, k);
        let i = choose|i: int| 0 <= i < own.len() && #[trigger] order[i] == k;
        assert(sorted[i] == t);
        assert(cards[i] == t && !r[i].archived);
    }
    assert forall|t: CardThread| #[trigger]
        archived.contains(t) && t.archived == Some(true) && !lists_thread(active, t.id) && (source matches CardSource::ForumPosts {
            channel_id,
        } && belongs_to(t, channel_id)) implies exists|i: int|
        0 <= i < r.len() && #[trigger] cards[i] == t && r[i].archived by {
        lemma_archived_cards(archived, active, parent, t);
        let k = choose|k: int| 0 <= k < old.len() && old[k] == t;
        assert(cards[sorted.len() + k] == t && r[sorted.len() + k].archived);
    }
    cards
}

/// Archived posts stand in the order in which they were given.
pub proof fn archived_posts_keep_their_order(
    r: Seq<ThreadCardListEntry>,
    source: CardSource,
    active: Seq<CardThread>,
    archived: Seq<CardThread>,
    list_height: usize,
) -> (places: Seq<int>)
    requires
        is_card_list(r, source, active, archived, list_height),
    ensures
        places.len() == r.len(),
        forall|i: int|
            0 <= i < r.len() && r[i].archived ==> 0 <= #[trigger] places[i] < archived.len()
                && archived[places[i]].id == r[i].channel_id,
        forall|i: int, j: int|
            #![trigger places[i], places[j]]
            0 <= i < j < r.len() && r[i].archived && r[j].archived ==> places[i] < places[j],
{
    let parent = source_channel(source);
    let own = active_cards(active, parent);
    let order = choose|order: Seq<usize>| #[trigger]
        is_order(activity_keys(own), own.len() as int, order) && r == card_list(
            source,
            threads_in_order(own, order),
            active,
            archived,
            list_height,
        );
    let n = threads_in_order(own, order).len() as int;
    let old = lemma_archived_order(archived, active, parent);
    let places = Seq::new(r.len(), |i: int| if i < n { 0 } else { old[i - n] });
    assert forall|i: int| 0 <= i < r.len() && r[i].archived implies 0 <= #[trigger] places[i] < archived.len()
        && archived[places[i]].id == r[i].channel_id by {
        assert(places[i] == old[i - n]);
    }
    assert forall|i: int, j: int|
        #![trigger places[i], places[j]]
        0 <= i < j < r.len() && r[i].archived && r[j].archived implies places[i] < places[j] by {
        assert(places[i] == old[i - n] && places[j] == old[j - n]);
    }
    places
}

/// The cards of a list follow each other on the screen without gaps, from its first row on.
pub proof fn cards_fill_the_list(
    r: Seq<ThreadCardListEntry>,
    source: CardSource,
    active: Seq<CardThread>,
    archived: Seq<CardThread>,
    list_height: usize,
    i: int,
)
    requires
        is_card_list(r, source, active, archived, list_height),
        0 <= i < r.len(),
    ensures
        r[0].rendered_row_start == 0,
        i + 1 < r.len() ==> r[i + 1].rendered_row_start == sat_add(r[i].rendered_row_start, r[i].rendered_height),
{
    let parent = source_channel(source);
    let own = active_cards(active, parent);
    let order = choose|order: Seq<usize>| #[trigger]
        is_order(activity_keys(own), own.len() as int, order) && r == card_list(
            source,
            threads_in_order(own, order),
            active,
            archived,
            list_height,
        );
    let wide = source_entries(source, threads_in_order(own, order), active, archived, false);
    let narrow = source_entries(source, threads_in_order(own, order), active, archived, true);
    let entries = if list_height > 0 && card_rows(wide) > list_height { narrow } else { wide };
    assert(entries.take(0) =~= Seq::<ThreadCardListEntry>::empty());
    if i + 1 < r.len() {
        cards_follow_each_other(entries, i);
    }
}

/// Whether more archived posts are wanted: what is shown or selected comes near the end of what is
/// loaded.
pub fn selected_forum_is_near_loaded_end(item_count: usize, visible_end: usize, selected: usize) -> (r: bool)
    ensures
        r == (item_count == 0 || visible_end + 3 >= item_count || selected + 4 >= item_count),
{
    if item_count == 0 {
        return true;
    }
    let selected_end = selected.saturating_add(1);
    let end = if visible_end >= selected_end { visible_end } else { selected_end };
    end.saturating_add(3) >= item_count
}

/// A tag that a forum offers. One with an image has the address of it.
#[derive(Debug, PartialEq, Eq)]
pub struct ForumTag {
    pub id: u64,
    pub name: String,
    pub custom_emoji_url: Option<String>,
    pub emoji_name: Option<String>,
}

pub struct TagView {
    pub name: Seq<char>,
    pub unicode_emoji: Option<Seq<char>>,
    pub custom_emoji_url: Option<Seq<char>>,
}

impl View for AppliedForumTag {
    type V = TagView;

    open spec fn view(&self) -> TagView {
        TagView {
            name: self.name@,
            unicode_emoji: opt_text(self.unicode_emoji),
            custom_emoji_url: opt_text(self.custom_emoji_url),
        }
    }
}

pub open spec fn tag_views(v: Seq<AppliedForumTag>) -> Seq<TagView> {
    v.map_values(|t: AppliedForumTag| t@)
}

/// A tag as it is shown: with its image, or else with its emoji, if it has one.
pub open spec fn shown_tag(t: ForumTag) -> TagView {
    TagView {
        name: t.name@,
        unicode_emoji: if t.custom_emoji_url is Some {
            None
        } else {
            match t.emoji_name {
                Some(name) => if trimmed(name@).len() > 0 {
                    Some(trimmed(name@))
                } else {
                    None
                },
                None => None,
            }
        },
        custom_emoji_url: opt_text(t.custom_emoji_url),
    }
}

pub open spec fn place_of_tag(tags: Seq<ForumTag>, id: u64) -> int
    decreases tags.len(),
{
    if tags.len() == 0 || tags[0].id == id {
        0
    } else {
        1 + place_of_tag(tags.drop_first(), id)
    }
}

/// The tags of a post that its forum knows, in the order of the post.
pub open spec fn applied(ids: Seq<u64>, tags: Seq<ForumTag>) -> Seq<TagView>
    decreases ids.len(),
{
    if ids.len() == 0 {
        Seq::empty()
    } else {
        let at = place_of_tag(tags, ids.last());
        if at < tags.len() {
            applied(ids.drop_last(), tags).push(shown_tag(tags[at]))
        } else {
            applied(ids.drop_last(), tags)
        }
    }
}

fn find_tag(tags: &Vec<ForumTag>, id: u64) -> (r: Option<usize>)
    ensures
        match r {
            Some(i) => i < tags@.len() && place_of_tag(tags@, id) == i,
            None => place_of_tag(tags@, id) == tags@.len(),
        },
{
    let mut i: usize = 0;
    assert(tags@.skip(0) =~= tags@);
    while i < tags.len()
        invariant
            i <= tags@.len(),
            place_of_tag(tags@, id) == i + place_of_tag(tags@.skip(i as int), id),
        decreases tags@.len() - i,
    {
        if tags[i].id == id {
            return Some(i);
        }
        assert(tags@.skip(i as int).drop_first() =~= tags@.skip(i + 1));
        i += 1;
    }
    None
}

pub fn forum_thread_applied_tags(ids: &Vec<u64>, tags: &Vec<ForumTag>) -> (r: Vec<AppliedForumTag>)
    ensures
        tag_views(r@) == applied(ids@, tags@),
{
    let mut out: Vec<AppliedForumTag> = Vec::new();
    let mut i: usize = 0;
    assert(ids@.take(0) =~= Seq::<u64>::empty());
    assert(tag_views(out@) =~= Seq::<TagView>::empty());
    while i < ids.len()
        invariant
            i <= ids@.len(),
            tag_views(out@) == applied(ids@.take(i as int), tags@),
        decreases ids@.len() - i,
    {
        assert(ids@.take(i + 1).drop_last() =~= ids@.take(i as int));
        if let Some(at) = find_tag(tags, ids[i]) {
            let ghost before = out@;
            let t = &tags[at];
            let custom_emoji_url = match &t.custom_emoji_url {
                Some(url) => Some(url.clone()),
                None => None,
            };
            let mut unicode_emoji: Option<String> = None;
            if custom_emoji_url.is_none() {
                if let Some(name) = &t.emoji_name {
                    let name = trim_text(name.as_str());
                    if name.as_str().unicode_len() > 0 {
                        unicode_emoji = Some(name);
                    }
                }
            }
            let tag = AppliedForumTag { name: t.name.clone(), unicode_emoji, custom_emoji_url };
            assert(tag@ == shown_tag(*t));
            out.push(tag);
            assert(tag_views(out@) =~= tag_views(before).push(tag@));
        }
        i += 1;
    }
    assert(ids@.take(i as int) =~= ids@);
    out
}

/// How many messages of a thread are new to someone who joined it: those that are loaded, or else what
/// the service says.
pub open spec fn new_messages(joined: bool, acked: Option<MessageId>, ids: Seq<MessageId>, unread: ChannelUnreadState) -> int {
    let loaded = match acked {
        Some(acked) => newer_count(ids, acked),
        None => ids.len() as int,
    };
    if !joined {
        0
    } else if loaded > 0 {
        loaded
    } else {
        match unread {
            ChannelUnreadState::Mentioned(n) => n as int,
            ChannelUnreadState::Notified(n) => n as int,
            ChannelUnreadState::Unread => 1,
            ChannelUnreadState::Seen => 0,
        }
    }
}

pub fn forum_thread_new_message_count(
    joined: bool,
    acked: Option<MessageId>,
    ids: &Vec<MessageId>,
    unread: ChannelUnreadState,
) -> (r: usize)
    ensures
        r == new_messages(joined, acked, ids@, unread),
{
    if !joined {
        return 0;
    }
    let mut loaded: usize = 0;
    match acked {
        None => {
            loaded = ids.len();
        },
        Some(acked) => {
            let mut i: usize = 0;
            assert(ids@.take(0) =~= Seq::<MessageId>::empty());
            while i < ids.len()
                invariant
                    i <= ids@.len(),
                    loaded <= i,
                    loaded == newer_count(ids@.take(i as int), acked),
                decreases ids@.len() - i,
            {
                assert(ids@.take(i + 1).drop_last() =~= ids@.take(i as int));
                if ids[i] > acked {
                    loaded += 1;
                }
                i += 1;
            }
            assert(ids@.take(i as int) =~= ids@);
        },
    }
    if loaded > 0 {
        return loaded;
    }
    match unread {
        ChannelUnreadState::Mentioned(n) => n as usize,
        ChannelUnreadState::Notified(n) => n as usize,
        ChannelUnreadState::Unread => 1,
        ChannelUnreadState::Seen => 0,
    }
}

/// The thread that a card is about.
#[derive(Debug, PartialEq, Eq)]
pub struct CardChannel {
    pub id: ChannelId,
    pub name: String,
    pub locked: Option<bool>,
    pub pinned: Option<bool>,
    pub message_count: Option<u64>,
    pub total_message_sent: Option<u64>,
    pub last_message_id: Option<MessageId>,
    /// Whether the channel above it is a forum.
    pub is_forum_post: bool,
    /// Whether what begins the post was asked for and came.
    pub post_data_loaded: bool,
}

/// The message that a card shows.
#[derive(Debug, PartialEq, Eq)]
pub struct CardMessage {
    pub id: MessageId,
    pub author_id: UserId,
    pub author: String,
    pub author_color: Option<u32>,
    pub has_content: bool,
    /// Of each attachment, in the order in which they are shown, whether it has a preview.
    pub attachments: Vec<bool>,
    pub preview_text: String,
    pub reactions: Vec<ReactionInfo>,
}

/// Who began a thread.
#[derive(Debug, PartialEq, Eq)]
pub struct CardCreator {
    pub user_id: UserId,
    pub display_name: Option<String>,
    pub color: Option<u32>,
}

/// The place of the first attachment with a preview, or the end.
pub open spec fn first_preview(attachments: Seq<bool>) -> int
    decreases attachments.len(),
{
    if attachments.len() == 0 || attachments[0] {
        0
    } else {
        1 + first_preview(attachments.drop_first())
    }
}

pub open spec fn creator_name(c: CardCreator) -> Seq<char> {
    match c.display_name {
        Some(name) => name@,
        None => "user-"@ + decimal(c.user_id as nat),
    }
}

/// Whether the message of a post is still awaited.
pub open spec fn card_loading(c: CardChannel, preview: Option<CardMessage>) -> bool {
    c.is_forum_post && preview is None && !c.post_data_loaded
}

/// Who began a post whose message is not known.
pub open spec fn starter(c: CardChannel, preview: Option<CardMessage>, creator: Option<CardCreator>) -> Option<CardCreator> {
    if c.is_forum_post && preview is None {
        creator
    } else {
        None
    }
}

/// What a card says: the message, or that it is gone.
pub open spec fn card_content(c: CardChannel, preview: Option<CardMessage>, creator: Option<CardCreator>) -> Option<
    Seq<char>,
> {
    match preview {
        Some(m) => if c.is_forum_post && !m.has_content && m.attachments@.len() == 0 {
            Some("original message deleted"@)
        } else {
            Some(m.preview_text@)
        },
        None => if !card_loading(c, preview) && starter(c, preview, creator) is Some {
            Some("original message deleted"@)
        } else {
            None
        },
    }
}

fn find_preview(attachments: &Vec<bool>) -> (r: Option<usize>)
    ensures
        match r {
            Some(i) => i < attachments@.len() && first_preview(attachments@) == i,
            None => first_preview(attachments@) == attachments@.len(),
        },
{
    let mut i: usize = 0;
    assert(attachments@.skip(0) =~= attachments@);
    while i < attachments.len()
        invariant
            i <= attachments@.len(),
            first_preview(attachments@) == i + first_preview(attachments@.skip(i as int)),
        decreases attachments@.len() - i,
    {
        if attachments[i] {
            return Some(i);
        }
        assert(attachments@.skip(i as int).drop_first() =~= attachments@.skip(i + 1));
        i += 1;
    }
    None
}

/// The card of a thread.
pub fn thread_card_item(
    channel: CardChannel,
    section_label: Option<String>,
    archived: bool,
    preview: Option<CardMessage>,
    creator: Option<CardCreator>,
    applied_tags: Vec<AppliedForumTag>,
    new_message_count: usize,
) -> (r: ChannelThreadItem)
    ensures
        r.channel_id == channel.id,
        r.section_label == section_label,
        r.label == channel.name,
        r.archived == archived,
        r.locked == (channel.locked == Some(true)),
        r.pinned == (channel.pinned == Some(true)),
        r.preview_author_id == (match preview {
            Some(m) => Some(m.author_id),
            None => match starter(channel, preview, creator) {
                Some(c) => Some(c.user_id),
                None => None,
            },
        }),
        opt_text(r.preview_author) == (match preview {
            Some(m) => Some(m.author@),
            None => match starter(channel, preview, creator) {
                Some(c) => Some(creator_name(c)),
                None => None,
            },
        }),
        r.preview_author_color == (match preview {
            Some(m) => m.author_color,
            None => match starter(channel, preview, creator) {
                Some(c) => c.color,
                None => None,
            },
        }),
        opt_text(r.preview_content) == card_content(channel, preview, creator),
        r.preview_loading == card_loading(channel, preview),
        r.preview_image == (match preview {
            Some(m) => if first_preview(m.attachments@) < m.attachments@.len() {
                Some(
                    ThreadCardImagePreview { message_id: m.id, attachment: first_preview(m.attachments@) as usize },
                )
            } else {
                None
            },
            None => None,
        }),
        r.applied_tags == applied_tags,
        preview matches Some(m) ==> r.preview_reactions == m.reactions,
        preview is None ==> r.preview_reactions@.len() == 0,
        r.comment_count == (if channel.message_count is Some {
            channel.message_count
        } else {
            channel.total_message_sent
        }),
        r.new_message_count == new_message_count,
        r.last_activity_message_id == (match channel.last_message_id {
            Some(id) => Some(id),
            None => match preview {
                Some(m) => Some(m.id),
                None => None,
            },
        }),
{
    let locked = match channel.locked {
        Some(locked) => locked,
        None => false,
    };
    let pinned = match channel.pinned {
        Some(pinned) => pinned,
        None => false,
    };
    let comment_count = match channel.message_count {
        Some(n) => Some(n),
        None => channel.total_message_sent,
    };
    match preview {
        Some(m) => {
            let image = match find_preview(&m.attachments) {
                Some(attachment) => Some(ThreadCardImagePreview { message_id: m.id, attachment }),
                None => None,
            };
            let content = if channel.is_forum_post && !m.has_content && m.attachments.len() == 0 {
                "original message deleted".to_string()
            } else {
                m.preview_text
            };
            ChannelThreadItem {
                channel_id: channel.id,
                section_label,
                label: channel.name,
                archived,
                locked,
                pinned,
                preview_author_id: Some(m.author_id),
                preview_author: Some(m.author),
                preview_author_color: m.author_color,
                preview_content: Some(content),
                preview_loading: false,
                preview_image: image,
                applied_tags,
                preview_reactions: m.reactions,
                comment_count,
                new_message_count,
                last_activity_message_id: match channel.last_message_id {
                    Some(id) => Some(id),
                    None => Some(m.id),
                },
            }
        },
        None => {
            let loading = channel.is_forum_post && !channel.post_data_loaded;
            let begun_by = if channel.is_forum_post { creator } else { None };
            let mut author_id: Option<UserId> = None;
            let mut author: Option<String> = None;
            let mut color: Option<u32> = None;
            let mut content: Option<String> = None;
            if let Some(c) = begun_by {
                author_id = Some(c.user_id);
                color = c.color;
                author = match c.display_name {
                    Some(name) => Some(name),
                    None => {
                        let mut name = "user-".to_string();
                        let id = decimal_string(c.user_id);
                        name.append(id.as_str());
                        Some(name)
                    },
                };
                if !loading {
                    content = Some("original message deleted".to_string());
                }
            }
            ChannelThreadItem {
                channel_id: channel.id,
                section_label,
                label: channel.name,
                archived,
                locked,
                pinned,
                preview_author_id: author_id,
                preview_author: author,
                preview_author_color: color,
                preview_content: content,
                preview_loading: loading,
                preview_image: None,
                applied_tags,
                preview_reactions: Vec::new(),
                comment_count,
                new_message_count,
                last_activity_message_id: channel.last_message_id,
            }
        },
    }
}

/// The place of the message that a card shows, or the end: of a post the message that began it, which
/// has the identifier of the post, and of another thread the first that is loaded.
pub open spec fn card_message(ids: Seq<MessageId>, channel: ChannelId, is_forum_post: bool) -> int {
    if is_forum_post {
        crate::state::message_viewport::place_of(ids, channel)
    } else {
        0
    }
}

pub fn thread_card_preview_message(ids: &Vec<MessageId>, channel: ChannelId, is_forum_post: bool) -> (r: Option<usize>)
    ensures
        r == (if card_message(ids@, channel, is_forum_post) < ids@.len() {
            Some(card_message(ids@, channel, is_forum_post) as usize)
        } else {
            None
        }),
{
    if !is_forum_post {
        if ids.len() > 0 {
            return Some(0);
        }
        return None;
    }
    crate::state::message_viewport::find_id(ids, channel)
}

} // verus!
