//! The picker of animations, and which of those that were picked were sent.

use crate::state::pane_filter::{EditView, PaneFilterState};
use crate::state::scroll::{last_index, last_of, least, min_of, minus};
use crate::text::{chars_of, contains_text, has_text, lemma_utf8_len_bounds, list_contains, str_contains, str_eq, texts};
use crate::unicode::{split_words, words};
use vstd::prelude::*;
use vstd::string::*;

verus! {

/// How many characters can be searched for.
pub const GIF_QUERY_LIMIT: usize = 256;

/// An animation that was found.
#[derive(Debug, PartialEq, Eq)]
pub struct Gif {
    pub slug: String,
    pub url: Option<String>,
}

/// A page of animations, and whether another follows.
#[derive(Debug, PartialEq, Eq)]
pub struct GifPage {
    pub data: Vec<Gif>,
    pub has_next: bool,
}

/// The open picker. `generation` tells the results that it waits for from earlier ones.
#[derive(Debug, PartialEq, Eq)]
pub struct GifPickerState {
    pub query: PaneFilterState,
    pub page: u32,
    pub results: Vec<Gif>,
    pub selected: usize,
    pub has_next: bool,
    pub loading: bool,
    pub error: Option<String>,
    pub generation: u64,
}

/// An animation in the draft, and what was searched for.
#[derive(Debug, PartialEq, Eq)]
pub struct GifSelection {
    pub url: String,
    pub slug: String,
    pub query: String,
}

/// An animation that was sent.
#[derive(Debug, PartialEq, Eq)]
pub struct GifShare {
    pub slug: String,
    pub query: String,
}

#[derive(Debug, PartialEq, Eq)]
pub struct KlipyState {
    pub generation: u64,
    pub picker: Option<GifPickerState>,
    pub selected: Vec<GifSelection>,
    pub shares: Vec<GifShare>,
}

/// What came of opening the picker.
#[derive(Clone, Copy, Debug, PartialEq, Eq, Structural)]
pub enum GifPickerOpening {
    Refused,
    NotConfigured,
    Opened,
}

/// What came of picking an animation. With one in it, the draft reads as given.
#[derive(Debug, PartialEq, Eq)]
pub enum GifConfirm {
    Ignored,
    Closed,
    Reloading,
    Inserted(String),
}

pub open spec fn next_generation(g: u64) -> u64 {
    if g == u64::MAX {
        0
    } else {
        (g + 1) as u64
    }
}

fn following(g: u64) -> (r: u64)
    ensures
        r == next_generation(g),
{
    if g == u64::MAX {
        0
    } else {
        g + 1
    }
}

/// A character that moves the cursor or rings a bell, rather than be seen.
pub open spec fn is_control(c: char) -> bool {
    c <= '\u{1f}' || ('\u{7f}' <= c && c <= '\u{9f}')
}

/// The first characters of a text that can be seen, as many as there is room for.
pub open spec fn insertable(text: Seq<char>, room: int) -> Seq<char>
    decreases text.len(),
{
    if text.len() == 0 {
        Seq::empty()
    } else {
        let before = insertable(text.drop_last(), room);
        if !is_control(text.last()) && before.len() < room {
            before.push(text.last())
        } else {
            before
        }
    }
}

/// Whether a picker waits for a page, with nothing found so far.
pub open spec fn waits_for(p: GifPickerState, page: u32, generation: u64) -> bool {
    &&& p.page == page
    &&& p.results@.len() == 0
    &&& p.selected == 0
    &&& !p.has_next
    &&& p.loading
    &&& p.error is None
    &&& p.generation == generation
}

/// The picked animations that are still in a draft, but for one.
pub open spec fn still_there(v: Seq<GifSelection>, url: Seq<char>, draft: Seq<char>) -> Seq<GifSelection>
    decreases v.len(),
{
    if v.len() == 0 {
        Seq::empty()
    } else {
        let before = still_there(v.drop_last(), url, draft);
        if v.last().url@ != url && contains_text(draft, v.last().url@) {
            before.push(v.last())
        } else {
            before
        }
    }
}

/// What was sent of the picked animations: those whose address is a word of the message.
pub open spec fn sent(v: Seq<GifSelection>, content: Seq<char>) -> Seq<GifShare>
    decreases v.len(),
{
    if v.len() == 0 {
        Seq::empty()
    } else {
        let before = sent(v.drop_last(), content);
        if has_text(words(content), v.last().url@) {
            before.push(GifShare { slug: v.last().slug, query: v.last().query })
        } else {
            before
        }
    }
}

/// A draft with an address on a line of its own at the end.
pub open spec fn with_link(draft: Seq<char>, url: Seq<char>) -> Seq<char> {
    if draft.len() > 0 && draft.last() != '\n' {
        draft + "\n"@ + url
    } else {
        draft + url
    }
}

/// The place in the list after a step of `delta`.
pub open spec fn stepped(selected: int, delta: int, count: int) -> int {
    least(minus(selected + delta, 0), last_of(count))
}

/// The page after the current one, or before it.
pub open spec fn turned(p: GifPickerState, next: bool) -> Option<u32> {
    if p.loading {
        None
    } else if next && p.has_next {
        Some(if p.page < u32::MAX { (p.page + 1) as u32 } else { p.page })
    } else if !next && p.page > 1 {
        Some((p.page - 1) as u32)
    } else {
        None
    }
}

/// The address of the animation that is selected.
pub open spec fn selected_url(p: GifPickerState) -> Option<String> {
    if p.selected < p.results@.len() {
        p.results@[p.selected as int].url
    } else {
        None
    }
}

impl KlipyState {
    /// The open picker is the one that was asked for last.
    pub open spec fn wf(self) -> bool {
        self.picker is Some ==> (self.picker->0).generation == self.generation
    }

    /// Whether another search for a page is under way, and nothing else changed.
    pub open spec fn searches_again(self, old: KlipyState, page: u32) -> bool {
        &&& self.generation == next_generation(old.generation)
        &&& self.selected == old.selected
        &&& self.shares == old.shares
        &&& old.picker is None ==> self.picker is None
        &&& old.picker is Some ==> self.picker is Some && waits_for(self.picker->0, page, self.generation)
    }

    pub fn new() -> (r: KlipyState)
        ensures
            r.wf(),
            r.generation == 0,
            r.picker is None,
            r.selected@.len() == 0,
            r.shares@.len() == 0,
    {
        KlipyState { generation: 0, picker: None, selected: Vec::new(), shares: Vec::new() }
    }

    /// Opens the picker above a draft of a new message.
    pub fn open_gif_picker(&mut self, composing: bool, editing: bool, configured: bool) -> (r: GifPickerOpening)
        requires
            old(self).wf(),
        ensures
            final(self).wf(),
            r == (if !composing || editing {
                GifPickerOpening::Refused
            } else if !configured {
                GifPickerOpening::NotConfigured
            } else {
                GifPickerOpening::Opened
            }),
            !(r is Opened) ==> *final(self) == *old(self),
            r is Opened ==> {
                &&& final(self).generation == next_generation(old(self).generation)
                &&& final(self).selected == old(self).selected
                &&& final(self).shares == old(self).shares
                &&& final(self).picker is Some
                &&& waits_for(final(self).picker->0, 1, final(self).generation)
                &&& (final(self).picker->0).query@.text().len() == 0
            },
    {
        if !composing || editing {
            return GifPickerOpening::Refused;
        }
        if !configured {
            return GifPickerOpening::NotConfigured;
        }
        self.generation = following(self.generation);
        self.picker = Some(
            GifPickerState {
                query: PaneFilterState::new(),
                page: 1,
                results: Vec::new(),
                selected: 0,
                has_next: false,
                loading: true,
                error: None,
                generation: self.generation,
            },
        );
        GifPickerOpening::Opened
    }

    /// Searches again, from a page on. Results of the search before are no longer waited for.
    fn refresh_gif_query(&mut self, page: u32)
        requires
            old(self).wf(),
        ensures
            final(self).wf(),
            final(self).searches_again(*old(self), page),
            old(self).picker is Some ==> (final(self).picker->0).query == (old(self).picker->0).query,
    {
        self.generation = following(self.generation);
        let generation = self.generation;
        if let Some(picker) = &mut self.picker {
            picker.page = page;
            picker.results = Vec::new();
            picker.selected = 0;
            picker.has_next = false;
            picker.loading = true;
            picker.error = None;
            picker.generation = generation;
        }
    }

    /// Types into the search, as far as there is room.
    pub fn insert_gif_query(&mut self, text: &str)
        requires
            old(self).wf(),
        ensures
            final(self).wf(),
            old(self).picker is None ==> *final(self) == *old(self),
            old(self).picker is Some ==> ({
                let before = (old(self).picker->0).query@;
                let added = insertable(text@, minus(GIF_QUERY_LIMIT as int, before.text().len() as int));
                if added.len() == 0 {
                    *final(self) == *old(self)
                } else {
                    final(self).searches_again(*old(self), 1) && (final(self).picker->0).query@ == (EditView {
                        before: before.before + added,
                        after: before.after,
                    })
                }
            }),
    {
        let cs = chars_of(text);
        let mut changed = false;
        if let Some(picker) = &mut self.picker {
            let ghost before = picker.query@;
            let count = picker.query.query().unicode_len();
            let room: usize = GIF_QUERY_LIMIT.saturating_sub(count);
            let mut left: usize = room;
            let mut i: usize = 0;
            assert(text@.take(0) =~= Seq::<char>::empty());
            assert(before.before + Seq::<char>::empty() =~= before.before);
            let ghost whole = *picker;
            while i < cs.len()
                invariant
                    cs@ == text@,
                    i <= cs@.len(),
                    room == minus(GIF_QUERY_LIMIT as int, before.text().len() as int),
                    left == room - insertable(text@.take(i as int), room as int).len(),
                    changed == (insertable(text@.take(i as int), room as int).len() > 0),
                    whole.query@ == before,
                    !changed ==> *picker == whole,
                    picker.query@ == (EditView {
                        before: before.before + insertable(text@.take(i as int), room as int),
                        after: before.after,
                    }),
                    *picker == (GifPickerState { query: picker.query, ..whole }),
                decreases cs@.len() - i,
            {
                let c = cs[i];
                let ghost now = text@.take(i as int);
                let ghost next = text@.take(i + 1);
                assert(next.drop_last() =~= now);
                assert(next.last() == c);
                let control = c <= '\u{1f}' || ('\u{7f}' <= c && c <= '\u{9f}');
                if !control && left > 0 {
                    proof {
                        picker.query.lemma_text();
                        lemma_utf8_len_bounds(picker.query.query@);
                    }
                    picker.query.push_char(c);
                    assert((before.before + insertable(now, room as int)).push(c) =~= before.before + insertable(
                        next,
                        room as int,
                    ));
                    left -= 1;
                    changed = true;
                }
                i += 1;
            }
            assert(text@.take(i as int) =~= text@);
        }
        if changed {
            self.refresh_gif_query(1);
        }
    }

    /// Puts an edited search in place. Where the text changed, it is searched for.
    pub fn edit_gif_query(&mut self, query: PaneFilterState, changed: bool)
        requires
            old(self).wf(),
        ensures
            final(self).wf(),
            old(self).picker is None ==> *final(self) == *old(self),
            old(self).picker is Some ==> (final(self).picker->0).query == query,
            old(self).picker is Some && changed ==> final(self).searches_again(*old(self), 1),
            old(self).picker is Some && !changed ==> *final(self) == (KlipyState {
                picker: Some(GifPickerState { query, ..old(self).picker->0 }),
                ..*old(self)
            }),
    {
        let open = self.picker.is_some();
        if let Some(picker) = &mut self.picker {
            picker.query = query;
        }
        if open && changed {
            self.refresh_gif_query(1);
        }
    }

    pub fn clear_gif_query(&mut self)
        requires
            old(self).wf(),
        ensures
            final(self).wf(),
            old(self).picker is None ==> *final(self) == *old(self),
            old(self).picker is Some ==> final(self).searches_again(*old(self), 1) && (final(self).picker->0).query@.text().len() == 0,
    {
        let open = self.picker.is_some();
        if let Some(picker) = &mut self.picker {
            picker.query = PaneFilterState::new();
        }
        if open {
            self.refresh_gif_query(1);
        }
    }

    pub fn move_gif_selection(&mut self, delta: isize)
        ensures
            old(self).picker is None ==> *final(self) == *old(self),
            old(self).picker is Some ==> *final(self) == (KlipyState {
                picker: Some(
                    GifPickerState {
                        selected: stepped(
                            (old(self).picker->0).selected as int,
                            delta as int,
                            (old(self).picker->0).results@.len() as int,
                        ) as usize,
                        ..old(self).picker->0
                    },
                ),
                ..*old(self)
            }),
    {
        if let Some(picker) = &mut self.picker {
            let last = last_index(picker.results.len());
            picker.selected = if delta >= 0 {
                min_of(picker.selected.saturating_add(delta as usize), last)
            } else if delta == isize::MIN {
                min_of(picker.selected.saturating_sub(isize::MAX as usize).saturating_sub(1), last)
            } else {
                min_of(picker.selected.saturating_sub((-delta) as usize), last)
            };
        }
    }

    /// Turns to the page after the current one, or to the one before.
    pub fn change_gif_page(&mut self, next: bool)
        requires
            old(self).wf(),
        ensures
            final(self).wf(),
            old(self).picker is None || turned(old(self).picker->0, next) is None ==> *final(self) == *old(self),
            old(self).picker is Some && turned(old(self).picker->0, next) is Some ==> final(self).searches_again(
                *old(self),
                turned(old(self).picker->0, next)->0,
            ) && (final(self).picker->0).query == (old(self).picker->0).query,
    {
        let page: u32 = match &self.picker {
            Some(picker) => {
                if picker.loading {
                    return;
                }
                if next && picker.has_next {
                    picker.page.saturating_add(1)
                } else if !next && picker.page > 1 {
                    picker.page - 1
                } else {
                    return;
                }
            },
            None => {
                return;
            },
        };
        self.refresh_gif_query(page);
    }

    /// Takes the results of a search, if they are those that are waited for.
    pub fn store_gif_results(&mut self, generation: u64, result: Result<GifPage, String>) -> (taken: bool)
        requires
            old(self).wf(),
        ensures
            final(self).wf(),
            taken == (old(self).picker is Some && (old(self).picker->0).generation == generation),
            !taken ==> *final(self) == *old(self),
            taken ==> *final(self) == (KlipyState {
                picker: Some(
                    match result {
                        Ok(page) => GifPickerState {
                            loading: false,
                            results: page.data,
                            has_next: page.has_next,
                            ..old(self).picker->0
                        },
                        Err(error) => GifPickerState { loading: false, error: Some(error), ..old(self).picker->0 },
                    },
                ),
                ..*old(self)
            }),
    {
        if let Some(picker) = &mut self.picker {
            if picker.generation == generation {
                picker.loading = false;
                match result {
                    Ok(page) => {
                        picker.results = page.data;
                        picker.has_next = page.has_next;
                    },
                    Err(error) => {
                        picker.error = Some(error);
                    },
                }
                return true;
            }
        }
        false
    }

    /// Keeps the picked animations that are still in a draft, but for one.
    fn keep_selections(&mut self, url: &str, draft: &str)
        ensures
            final(self).selected@ == still_there(old(self).selected@, url@, draft@),
            final(self).generation == old(self).generation,
            final(self).picker == old(self).picker,
            final(self).shares == old(self).shares,
    {
        let mut all: Vec<GifSelection> = Vec::new();
        all.append(&mut self.selected);
        let mut kept: Vec<GifSelection> = Vec::new();
        let ghost before = all@;
        assert(before.take(0) =~= Seq::<GifSelection>::empty());
        for s in it: all
            invariant
                it.seq() == before,
                kept@ == still_there(before.take(it.index()), url@, draft@),
        {
            assert(before.take(it.index() + 1).drop_last() =~= before.take(it.index()));
            if !str_eq(s.url.as_str(), url) && str_contains(draft, s.url.as_str()) {
                kept.push(s);
            }
        }
        assert(before.take(before.len() as int) =~= before);
        self.selected = kept;
    }

    /// Puts the selected animation into a draft. A search that failed is tried again.
    pub fn confirm_gif_selection(&mut self, composing: bool, can_send: bool, draft: &str) -> (r: GifConfirm)
        requires
            old(self).wf(),
        ensures
            final(self).wf(),
            !composing || !can_send ==> r is Closed && *final(self) == (KlipyState { picker: None, ..*old(self) }),
            composing && can_send ==> match old(self).picker {
                None => r is Ignored && *final(self) == *old(self),
                Some(p) => if p.error is Some {
                    r is Reloading && final(self).searches_again(*old(self), p.page) && (final(self).picker->0).query == p.query
                } else {
                    match selected_url(p) {
                        None => r is Ignored && *final(self) == *old(self),
                        Some(url) => {
                            &&& r is Inserted
                            &&& (r->Inserted_0)@ == with_link(draft@, url@)
                            &&& final(self).picker is None
                            &&& final(self).generation == old(self).generation
                            &&& final(self).shares == old(self).shares
                            &&& final(self).selected@.len() > 0
                            &&& final(self).selected@.drop_last() == still_there(
                                old(self).selected@,
                                url@,
                                with_link(draft@, url@),
                            )
                            &&& final(self).selected@.last().url == url
                            &&& final(self).selected@.last().slug == p.results@[p.selected as int].slug
                            &&& final(self).selected@.last().query@ == p.query@.text()
                        },
                    }
                },
            },
    {
        if !composing || !can_send {
            self.picker = None;
            return GifConfirm::Closed;
        }
        let mut again: Option<u32> = None;
        let mut picked: Option<GifSelection> = None;
        match &self.picker {
            Some(picker) => {
                if picker.error.is_some() {
                    again = Some(picker.page);
                } else if picker.selected < picker.results.len() {
                    let gif = &picker.results[picker.selected];
                    if let Some(url) = &gif.url {
                        picked = Some(
                            GifSelection {
                                url: url.clone(),
                                slug: gif.slug.clone(),
                                query: picker.query.query().to_string(),
                            },
                        );
                    }
                }
            },
            None => {},
        }
        if let Some(page) = again {
            self.refresh_gif_query(page);
            return GifConfirm::Reloading;
        }
        match picked {
            Some(selection) => {
                self.picker = None;
                let cs = chars_of(draft);
                let mut text = draft.to_string();
                if cs.len() > 0 && cs[cs.len() - 1] != '\n' {
                    text.append("\n");
                }
                text.append(selection.url.as_str());
                self.keep_selections(selection.url.as_str(), text.as_str());
                let ghost kept = self.selected@;
                self.selected.push(selection);
                assert(self.selected@.drop_last() =~= kept);
                GifConfirm::Inserted(text)
            },
            None => GifConfirm::Ignored,
        }
    }

    pub fn clear_klipy_selections(&mut self)
        ensures
            final(self).selected@.len() == 0,
            final(self).generation == old(self).generation,
            final(self).picker == old(self).picker,
            final(self).shares == old(self).shares,
    {
        self.selected = Vec::new();
    }

    /// Notes which of the picked animations a message took along. None stays picked.
    pub fn queue_klipy_shares(&mut self, content: &str)
        ensures
            final(self).selected@.len() == 0,
            final(self).shares@ == old(self).shares@ + sent(old(self).selected@, content@),
            final(self).generation == old(self).generation,
            final(self).picker == old(self).picker,
    {
        let words = split_words(content);
        let mut all: Vec<GifSelection> = Vec::new();
        all.append(&mut self.selected);
        let ghost picked = all@;
        let ghost shared = self.shares@;
        assert(picked.take(0) =~= Seq::<GifSelection>::empty());
        assert(shared + Seq::<GifShare>::empty() =~= shared);
        for s in it: all
            invariant
                it.seq() == picked,
                texts(words@) == crate::unicode::words(content@),
                self.shares@ == shared + sent(picked.take(it.index()), content@),
                self.selected@.len() == 0,
                self.generation == old(self).generation,
                self.picker == old(self).picker,
        {
            assert(picked.take(it.index() + 1).drop_last() =~= picked.take(it.index()));
            if list_contains(words.as_slice(), s.url.as_str()) {
                let share = GifShare { slug: s.slug, query: s.query };
                self.shares.push(share);
                assert((shared + sent(picked.take(it.index()), content@)).push(share) =~= shared + sent(
                    picked.take(it.index()),
                    content@,
                ).push(share));
            }
        }
        assert(picked.take(picked.len() as int) =~= picked);
    }

    pub fn take_klipy_shares(&mut self) -> (r: Vec<GifShare>)
        ensures
            r@ == old(self).shares@,
            final(self).shares@.len() == 0,
            final(self).selected == old(self).selected,
            final(self).generation == old(self).generation,
            final(self).picker == old(self).picker,
    {
        let mut out: Vec<GifShare> = Vec::new();
        out.append(&mut self.shares);
        out
    }
}

/// Results of the search before the current one are not taken.
pub proof fn stale_results_are_refused(before: KlipyState, after: KlipyState, page: u32)
    requires
        before.wf(),
        before.picker is Some,
        after.searches_again(before, page),
    ensures
        (after.picker->0).generation != (before.picker->0).generation,
{
}

proof fn lemma_insertable(text: Seq<char>, room: int)
    requires
        room >= 0,
    ensures
        insertable(text, room).len() <= room,
        forall|i: int| 0 <= i < insertable(text, room).len() ==> !is_control(#[trigger] insertable(text, room)[i]),
    decreases text.len(),
{
    if text.len() > 0 {
        lemma_insertable(text.drop_last(), room);
        let before = insertable(text.drop_last(), room);
        assert forall|i: int| 0 <= i < insertable(text, room).len() implies !is_control(
            #[trigger] insertable(text, room)[i],
        ) by {
            if i < before.len() {
                assert(insertable(text, room)[i] == before[i]);
            }
        }
    }
}

/// Typing keeps the search within its limit.
pub proof fn searches_stay_within_the_limit(before: EditView, text: Seq<char>)
    requires
        before.text().len() <= GIF_QUERY_LIMIT,
    ensures
        (EditView {
            before: before.before + insertable(text, minus(GIF_QUERY_LIMIT as int, before.text().len() as int)),
            after: before.after,
        }).text().len() <= GIF_QUERY_LIMIT,
{
    lemma_insertable(text, minus(GIF_QUERY_LIMIT as int, before.text().len() as int));
}

} // verus!
