//! Room for the images of loaded emojis: the text of such an emoji gives way to blanks, and every
//! offset behind it moves.

use crate::message::line::min_len;
use crate::message::rendered::{
    emoji_slots, EmojiSlotView, InlineEmojiSlot, RenderedText, RenderedView, TextHighlight,
};
use crate::message::wrap::sat_add;
use crate::text::{
    byte_at, byte_len, byte_slice, char_index, has_text, is_boundary, lemma_boundary_ends, lemma_boundary_order,
    lemma_byte_at_ends, lemma_byte_at_monotonic, lemma_char_index, lemma_utf8_len_concat, list_contains, on_boundary,
    repeat_char, repeated, slice_bytes, texts, utf8_len,
};
use vstd::prelude::*;
use vstd::string::*;

verus! {

/// Bytes `start..end` of a text that became `new_start..new_start + new_len`.
#[derive(Clone, Copy, Debug, PartialEq, Eq)]
pub struct LoadedEmojiReplacement {
    pub start: usize,
    pub end: usize,
    pub new_start: usize,
    pub new_len: usize,
}

/// `position` moved by `delta`, within the range of offsets.
pub open spec fn moved(position: usize, delta: int) -> usize {
    if position + delta < 0 {
        0
    } else if position + delta > usize::MAX {
        usize::MAX
    } else {
        (position + delta) as usize
    }
}

/// Where `position` lies after the replacements, when those before them have moved it by `delta`: a
/// position in a replaced range stays in what replaced it, and one behind moves with the text.
pub open spec fn remap_from(reps: Seq<LoadedEmojiReplacement>, position: usize, delta: int) -> usize
    decreases reps.len(),
{
    if reps.len() == 0 || position < reps[0].start {
        moved(position, delta)
    } else if position < reps[0].end {
        sat_add(reps[0].new_start, min_len((position - reps[0].start) as usize, reps[0].new_len))
    } else {
        remap_from(reps.drop_first(), position, delta + reps[0].new_len - (reps[0].end - reps[0].start))
    }
}

pub open spec fn remap(reps: Seq<LoadedEmojiReplacement>, position: usize) -> usize {
    remap_from(reps, position, 0)
}

/// How many bytes the replacements take out.
pub open spec fn bytes_removed(reps: Seq<LoadedEmojiReplacement>) -> int
    decreases reps.len(),
{
    if reps.len() == 0 {
        0
    } else {
        bytes_removed(reps.drop_last()) + reps.last().end - reps.last().start
    }
}

/// How many bytes the replacements put in.
pub open spec fn bytes_added(reps: Seq<LoadedEmojiReplacement>) -> int
    decreases reps.len(),
{
    if reps.len() == 0 {
        0
    } else {
        bytes_added(reps.drop_last()) + reps.last().new_len
    }
}

/// The replaced ranges are ranges, and both sides fit into a text.
pub open spec fn replacements_ok(reps: Seq<LoadedEmojiReplacement>) -> bool {
    &&& forall|i: int| 0 <= i < reps.len() ==> (#[trigger] reps[i]).start <= reps[i].end
    &&& bytes_removed(reps) <= usize::MAX
    &&& bytes_added(reps) <= usize::MAX
}

proof fn lemma_sums_grow(reps: Seq<LoadedEmojiReplacement>, k: int)
    requires
        0 <= k <= reps.len(),
        forall|i: int| 0 <= i < reps.len() ==> (#[trigger] reps[i]).start <= reps[i].end,
    ensures
        0 <= bytes_removed(reps.take(k)) <= bytes_removed(reps),
        0 <= bytes_added(reps.take(k)) <= bytes_added(reps),
    decreases reps.len(),
{
    if reps.len() > 0 {
        if k == reps.len() {
            assert(reps.take(k) =~= reps);
            assert(reps[k - 1] == reps.last());
            lemma_sums_grow(reps.drop_last(), k - 1);
            assert(reps.drop_last().take(k - 1) =~= reps.drop_last());
        } else {
            assert forall|i: int| 0 <= i < reps.drop_last().len() implies (#[trigger] reps.drop_last()[i]).start
                <= reps.drop_last()[i].end by {
                assert(reps.drop_last()[i] == reps[i]);
            }
            lemma_sums_grow(reps.drop_last(), k);
            assert(reps.drop_last().take(k) =~= reps.take(k));
            assert(reps[reps.len() - 1] == reps.last());
        }
    } else {
        assert(reps.take(k) =~= reps);
    }
}

/// Where a position lies after the replacements.
pub fn remap_loaded_emoji_offset(reps: &[LoadedEmojiReplacement], position: usize) -> (r: usize)
    requires
        replacements_ok(reps@),
    ensures
        r == remap(reps@, position),
{
    let mut removed: usize = 0;
    let mut added: usize = 0;
    let mut i: usize = 0;
    assert(reps@.skip(0) =~= reps@);
    assert(reps@.take(0) =~= Seq::<LoadedEmojiReplacement>::empty());
    while i < reps.len()
        invariant
            replacements_ok(reps@),
            i <= reps@.len(),
            removed == bytes_removed(reps@.take(i as int)),
            added == bytes_added(reps@.take(i as int)),
            remap(reps@, position) == remap_from(reps@.skip(i as int), position, added - removed),
        ensures
            remap(reps@, position) == moved(position, added - removed),
        decreases reps@.len() - i,
    {
        let rep = reps[i];
        proof {
            assert(reps@.skip(i as int)[0] == rep);
            assert(reps@.skip(i as int).drop_first() =~= reps@.skip(i + 1));
            assert(reps@.take(i + 1).drop_last() =~= reps@.take(i as int));
            lemma_sums_grow(reps@, i + 1);
        }
        if position < rep.start {
            break ;
        }
        if position < rep.end {
            let inside: usize = position - rep.start;
            let kept: usize = if inside < rep.new_len { inside } else { rep.new_len };
            return rep.new_start.saturating_add(kept);
        }
        removed = removed + (rep.end - rep.start);
        added = added + rep.new_len;
        i += 1;
    }
    if added < removed {
        position.saturating_sub(removed - added)
    } else {
        position.saturating_add(added - removed)
    }
}

// ---- The order of the places ----

/// Index `k` put behind every index whose place starts no later.
pub open spec fn insert_index(order: Seq<int>, slots: Seq<EmojiSlotView>, k: int) -> Seq<int>
    decreases order.len(),
{
    if order.len() == 0 || slots[order.last()].byte_start <= slots[k].byte_start {
        order.push(k)
    } else {
        insert_index(order.drop_last(), slots, k).push(order.last())
    }
}

/// The first `k` places by where they start, equal ones in the order they have.
pub open spec fn slot_order(slots: Seq<EmojiSlotView>, k: int) -> Seq<int>
    decreases k,
{
    if k <= 0 {
        seq![]
    } else {
        insert_index(slot_order(slots, k - 1), slots, k - 1)
    }
}

spec fn as_ints(v: Seq<usize>) -> Seq<int> {
    v.map_values(|i: usize| i as int)
}

proof fn lemma_insert_index_len(order: Seq<int>, slots: Seq<EmojiSlotView>, k: int)
    requires
        forall|i: int| 0 <= i < order.len() ==> 0 <= #[trigger] order[i] < slots.len(),
        0 <= k < slots.len(),
    ensures
        insert_index(order, slots, k).len() == order.len() + 1,
        forall|i: int|
            0 <= i < insert_index(order, slots, k).len() ==> 0 <= #[trigger] insert_index(order, slots, k)[i]
                < slots.len(),
    decreases order.len(),
{
    if order.len() > 0 && slots[order.last()].byte_start > slots[k].byte_start {
        lemma_insert_index_len(order.drop_last(), slots, k);
    }
}

fn order_slots(slots: &Vec<InlineEmojiSlot>) -> (r: Vec<usize>)
    ensures
        as_ints(r@) == slot_order(emoji_slots(slots@), slots@.len() as int),
        forall|i: int| 0 <= i < r@.len() ==> #[trigger] r@[i] < slots@.len(),
{
    let ghost views = emoji_slots(slots@);
    let mut order: Vec<usize> = Vec::new();
    let mut k: usize = 0;
    assert(as_ints(order@) =~= Seq::<int>::empty());
    while k < slots.len()
        invariant
            views == emoji_slots(slots@),
            k <= slots@.len(),
            as_ints(order@) == slot_order(views, k as int),
            order@.len() == k,
            forall|i: int| 0 <= i < order@.len() ==> #[trigger] order@[i] < slots@.len(),
        decreases slots@.len() - k,
    {
        let ghost c = as_ints(order@);
        let mut p: usize = order.len();
        proof {
            assert(c.take(p as int) =~= c);
            assert(insert_index(c, views, k as int) + c.skip(p as int) =~= insert_index(c, views, k as int));
        }
        while p > 0 && slots[order[p - 1]].byte_start > slots[k].byte_start
            invariant
                views == emoji_slots(slots@),
                k < slots@.len(),
                c == as_ints(order@),
                p <= order@.len(),
                forall|i: int| 0 <= i < order@.len() ==> #[trigger] order@[i] < slots@.len(),
                insert_index(c, views, k as int) == insert_index(c.take(p as int), views, k as int) + c.skip(p as int),
            decreases p,
        {
            proof {
                assert(c[p - 1] == order@[p - 1]);
                assert(c.take(p as int).drop_last() =~= c.take(p - 1));
                assert(c.take(p as int).last() == c[p - 1]);
                assert(insert_index(c.take(p - 1), views, k as int).push(c[p - 1]) + c.skip(p as int)
                    =~= insert_index(c.take(p - 1), views, k as int) + c.skip(p - 1));
            }
            p -= 1;
        }
        proof {
            if p > 0 {
                assert(c[p - 1] == order@[p - 1]);
                assert(c.take(p as int).last() == c[p - 1]);
            }
        }
        order.insert(p, k);
        proof {
            assert(as_ints(order@) =~= c.take(p as int).push(k as int) + c.skip(p as int));
        }
        k += 1;
    }
    order
}

// ---- Placing ----

/// The state of writing the new text: what is written, how far the old text is used up, what was
/// replaced, and the new places found so far.
pub struct PlaceState {
    pub out: Seq<char>,
    pub cursor: usize,
    pub reps: Seq<LoadedEmojiReplacement>,
    pub updates: Seq<Option<EmojiSlotView>>,
}

/// Whether a place can be handled: behind what is used up, in the text, and of whole characters.
pub open spec fn placeable(text: Seq<char>, slot: EmojiSlotView, cursor: usize) -> bool {
    let end = sat_add(slot.byte_start, slot.byte_len);
    &&& cursor <= slot.byte_start
    &&& end <= utf8_len(text)
    &&& on_boundary(text, slot.byte_start as int)
    &&& on_boundary(text, end as int)
}

pub open spec fn place_step(
    st: PlaceState,
    text: Seq<char>,
    slots: Seq<EmojiSlotView>,
    index: int,
    loaded: Seq<Seq<char>>,
    cells: u16,
) -> PlaceState {
    let slot = slots[index];
    let start = slot.byte_start;
    let end = sat_add(start, slot.byte_len);
    if !placeable(text, slot, st.cursor) {
        st
    } else {
        let before = st.out + byte_slice(text, st.cursor as int, start as int);
        let new_start = utf8_len(before) as usize;
        if has_text(loaded, slot.url) {
            PlaceState {
                out: before + repeated(' ', cells as nat),
                cursor: end,
                reps: st.reps.push(LoadedEmojiReplacement { start, end, new_start, new_len: cells as usize }),
                updates: st.updates.update(
                    index,
                    Some(
                        EmojiSlotView {
                            byte_start: new_start,
                            byte_len: cells as usize,
                            display_width: cells,
                            url: slot.url,
                        },
                    ),
                ),
            }
        } else {
            PlaceState {
                out: before + byte_slice(text, start as int, end as int),
                cursor: end,
                reps: st.reps,
                updates: st.updates.update(index, Some(EmojiSlotView { byte_start: new_start, ..slot })),
            }
        }
    }
}

pub open spec fn place_all(
    text: Seq<char>,
    slots: Seq<EmojiSlotView>,
    order: Seq<int>,
    loaded: Seq<Seq<char>>,
    cells: u16,
) -> PlaceState
    decreases order.len(),
{
    if order.len() == 0 {
        PlaceState { out: seq![], cursor: 0, reps: seq![], updates: Seq::new(slots.len(), |i: int| None) }
    } else {
        place_step(place_all(text, slots, order.drop_last(), loaded, cells), text, slots, order.last(), loaded, cells)
    }
}

/// What becomes of a text when blanks of `cells` columns stand for the emojis whose images are loaded.
pub open spec fn with_placeholders(r: RenderedView, loaded: Seq<Seq<char>>, cells: u16) -> RenderedView {
    let st = place_all(r.text, r.emoji_slots, slot_order(r.emoji_slots, r.emoji_slots.len() as int), loaded, cells);
    if st.reps.len() == 0 {
        r
    } else {
        RenderedView {
            text: st.out + byte_slice(r.text, st.cursor as int, utf8_len(r.text) as int),
            highlights: r.highlights.map_values(
                |h: TextHighlight|
                    TextHighlight { start: remap(st.reps, h.start), end: remap(st.reps, h.end), kind: h.kind },
            ),
            emoji_slots: Seq::new(
                r.emoji_slots.len(),
                |i: int|
                    match st.updates[i] {
                        Some(s) => s,
                        None => EmojiSlotView {
                            byte_start: remap(st.reps, r.emoji_slots[i].byte_start),
                            ..r.emoji_slots[i]
                        },
                    },
            ),
        }
    }
}

/// What holds at every step of placing.
spec fn place_ok(st: PlaceState, text: Seq<char>, slots: int) -> bool {
    &&& on_boundary(text, st.cursor as int)
    &&& st.updates.len() == slots
    &&& forall|i: int| 0 <= i < st.reps.len() ==> (#[trigger] st.reps[i]).start <= st.reps[i].end
    &&& bytes_removed(st.reps) <= st.cursor
    &&& bytes_added(st.reps) <= utf8_len(st.out)
    &&& utf8_len(st.out) == st.cursor + bytes_added(st.reps) - bytes_removed(st.reps)
}

proof fn lemma_blanks_len(n: nat)
    ensures
        utf8_len(repeated(' ', n)) == n,
    decreases n,
{
    if n == 0 {
        assert(repeated(' ', 0) =~= Seq::<char>::empty());
    } else {
        lemma_blanks_len((n - 1) as nat);
        assert(repeated(' ', n) =~= repeated(' ', (n - 1) as nat).push(' '));
        crate::text::lemma_utf8_len_push(repeated(' ', (n - 1) as nat), ' ');
    }
}

proof fn lemma_place_step_ok(
    st: PlaceState,
    text: Seq<char>,
    slots: Seq<EmojiSlotView>,
    index: int,
    loaded: Seq<Seq<char>>,
    cells: u16,
)
    requires
        place_ok(st, text, slots.len() as int),
        0 <= index < slots.len(),
        utf8_len(text) <= usize::MAX,
        utf8_len(place_step(st, text, slots, index, loaded, cells).out) <= usize::MAX,
    ensures
        place_ok(place_step(st, text, slots, index, loaded, cells), text, slots.len() as int),
{
    let slot = slots[index];
    let start = slot.byte_start;
    let end = sat_add(start, slot.byte_len);
    let next = place_step(st, text, slots, index, loaded, cells);
    if placeable(text, slot, st.cursor) {
        lemma_boundary_order(text, st.cursor as int, start as int);
        lemma_boundary_order(text, start as int, end as int);
        let gap = byte_slice(text, st.cursor as int, start as int);
        let before = st.out + gap;
        lemma_utf8_len_concat(st.out, gap);
        lemma_blanks_len(cells as nat);
        lemma_utf8_len_concat(before, repeated(' ', cells as nat));
        lemma_utf8_len_concat(before, byte_slice(text, start as int, end as int));
        if has_text(loaded, slot.url) {
            assert(next.reps.drop_last() =~= st.reps);
        }
    }
}

fn clone_slot(slot: &InlineEmojiSlot) -> (r: InlineEmojiSlot)
    ensures
        r@ == slot@,
{
    InlineEmojiSlot {
        byte_start: slot.byte_start,
        byte_len: slot.byte_len,
        display_width: slot.display_width,
        url: slot.url.clone(),
    }
}

spec fn update_views(v: Seq<Option<InlineEmojiSlot>>) -> Seq<Option<EmojiSlotView>> {
    v.map_values(
        |u: Option<InlineEmojiSlot>|
            match u {
                Some(s) => Some(s@),
                None => None,
            },
    )
}

/// Replaces the text of the emojis whose images are loaded with blanks of `cells` columns.
#[verifier::rlimit(40)]
pub fn rendered_text_with_loaded_custom_emoji_placeholders(
    rendered: RenderedText,
    loaded: &[String],
    cells: u16,
) -> (r: RenderedText)
    ensures
        r@ == with_placeholders(rendered@, texts(loaded@), cells),
{
    let ghost text = rendered@.text;
    let ghost views = rendered@.emoji_slots;
    let ghost urls = texts(loaded@);
    let ghost n = views.len() as int;
    let order = order_slots(&rendered.emoji_slots);
    let ghost ord = as_ints(order@);
    let text_len: usize = byte_len(rendered.text.as_str());
    let mut output = String::new();
    let mut cursor: usize = 0;
    let mut reps: Vec<LoadedEmojiReplacement> = Vec::new();
    let mut updates: Vec<Option<InlineEmojiSlot>> = Vec::new();
    let mut i: usize = 0;
    while i < rendered.emoji_slots.len()
        invariant
            i <= rendered.emoji_slots@.len(),
            updates@.len() == i,
            forall|k: int| 0 <= k < i ==> (#[trigger] updates@[k]) is None,
        decreases rendered.emoji_slots@.len() - i,
    {
        updates.push(None);
        i += 1;
    }
    let mut i: usize = 0;
    proof {
        assert(ord.take(0) =~= Seq::<int>::empty());
        assert(update_views(updates@) =~= Seq::new(n as nat, |i: int| None));
        lemma_boundary_ends(text);
        assert(utf8_len(seq![]) == 0);
        assert(output@ =~= Seq::<char>::empty());
    }
    while i < order.len()
        invariant
            text == rendered@.text,
            views == rendered@.emoji_slots,
            n == views.len(),
            urls == texts(loaded@),
            ord == as_ints(order@),
            forall|k: int| 0 <= k < order@.len() ==> #[trigger] order@[k] < n,
            text_len == utf8_len(text),
            i <= order@.len(),
            ({
                let st = place_all(text, views, ord.take(i as int), urls, cells);
                &&& output@ == st.out
                &&& cursor == st.cursor
                &&& reps@ == st.reps
                &&& update_views(updates@) == st.updates
                &&& place_ok(st, text, n)
            }),
        decreases order@.len() - i,
    {
        let ghost st = place_all(text, views, ord.take(i as int), urls, cells);
        let index: usize = order[i];
        proof {
            assert(ord.take(i + 1).drop_last() =~= ord.take(i as int));
            assert(ord.take(i + 1).last() == index);
            assert(views[index as int] == rendered.emoji_slots@[index as int]@);
        }
        let slot = &rendered.emoji_slots[index];
        let start: usize = slot.byte_start;
        let end: usize = slot.byte_start.saturating_add(slot.byte_len);
        if start >= cursor && end <= text_len && is_boundary(rendered.text.as_str(), start) && is_boundary(
            rendered.text.as_str(),
            end,
        ) {
            let gap = slice_bytes(rendered.text.as_str(), cursor, start);
            output.append(gap.as_str());
            let new_start: usize = byte_len(output.as_str());
            let ghost old_updates = updates@;
            if list_contains(loaded, slot.url.as_str()) {
                let blanks = repeat_char(' ', cells as usize);
                output.append(blanks.as_str());
                let ghost old_reps = reps@;
                reps.push(LoadedEmojiReplacement { start, end, new_start, new_len: cells as usize });
                let update = InlineEmojiSlot {
                    byte_start: new_start,
                    byte_len: cells as usize,
                    display_width: cells,
                    url: slot.url.clone(),
                };
                updates.set(index, Some(update));
                assert(update_views(updates@) =~= update_views(old_updates).update(index as int, Some(update@)));
            } else {
                let kept = slice_bytes(rendered.text.as_str(), start, end);
                output.append(kept.as_str());
                let update = InlineEmojiSlot {
                    byte_start: new_start,
                    byte_len: slot.byte_len,
                    display_width: slot.display_width,
                    url: slot.url.clone(),
                };
                updates.set(index, Some(update));
                assert(update_views(updates@) =~= update_views(old_updates).update(index as int, Some(update@)));
            }
            cursor = end;
        }
        let written: usize = byte_len(output.as_str());
        proof {
            lemma_place_step_ok(st, text, views, index as int, urls, cells);
        }
        i += 1;
    }
    let ghost st = place_all(text, views, ord, urls, cells);
    proof {
        assert(ord.take(i as int) =~= ord);
    }
    if reps.len() == 0 {
        return rendered;
    }
    let written: usize = byte_len(output.as_str());
    proof {
        lemma_boundary_ends(text);
        lemma_boundary_order(text, cursor as int, cursor as int);
        lemma_boundary_order(text, cursor as int, text_len as int);
        assert(replacements_ok(reps@));
    }
    let ghost expected = with_placeholders(rendered@, urls, cells);
    let tail = slice_bytes(rendered.text.as_str(), cursor, text_len);
    output.append(tail.as_str());
    let ghost hs = rendered.highlights@;
    let mut highlights: Vec<TextHighlight> = Vec::new();
    let mut i: usize = 0;
    while i < rendered.highlights.len()
        invariant
            hs == rendered.highlights@,
            hs == rendered@.highlights,
            replacements_ok(reps@),
            reps@ == st.reps,
            st == place_all(text, views, slot_order(views, n), urls, cells),
            text == rendered@.text,
            views == rendered@.emoji_slots,
            n == views.len(),
            reps@.len() > 0,
            expected == with_placeholders(rendered@, urls, cells),
            i <= hs.len(),
            highlights@ == expected.highlights.take(i as int),
        decreases hs.len() - i,
    {
        let h = rendered.highlights[i];
        let moved_highlight = TextHighlight {
            start: remap_loaded_emoji_offset(reps.as_slice(), h.start),
            end: remap_loaded_emoji_offset(reps.as_slice(), h.end),
            kind: h.kind,
        };
        proof {
            assert(expected.highlights[i as int] == moved_highlight);
            assert(expected.highlights.take(i + 1) =~= expected.highlights.take(i as int).push(moved_highlight));
        }
        highlights.push(moved_highlight);
        i += 1;
    }
    assert(highlights@ =~= expected.highlights);
    let mut slots: Vec<InlineEmojiSlot> = Vec::new();
    let mut i: usize = 0;
    assert(emoji_slots(slots@) =~= expected.emoji_slots.take(0));
    while i < rendered.emoji_slots.len()
        invariant
            replacements_ok(reps@),
            reps@ == st.reps,
            st == place_all(text, views, slot_order(views, n), urls, cells),
            update_views(updates@) == st.updates,
            text == rendered@.text,
            views == rendered@.emoji_slots,
            n == views.len(),
            st.updates.len() == n,
            reps@.len() > 0,
            expected == with_placeholders(rendered@, urls, cells),
            i <= rendered.emoji_slots@.len(),
            emoji_slots(slots@) == expected.emoji_slots.take(i as int),
        decreases rendered.emoji_slots@.len() - i,
    {
        let slot = &rendered.emoji_slots[i];
        proof {
            assert(views[i as int] == slot@);
            assert(update_views(updates@)[i as int] == st.updates[i as int]);
        }
        let placed = match &updates[i] {
            Some(update) => clone_slot(update),
            None => InlineEmojiSlot {
                byte_start: remap_loaded_emoji_offset(reps.as_slice(), slot.byte_start),
                byte_len: slot.byte_len,
                display_width: slot.display_width,
                url: slot.url.clone(),
            },
        };
        proof {
            assert(expected.emoji_slots[i as int] == placed@);
            assert(emoji_slots(slots@.push(placed)) =~= emoji_slots(slots@).push(placed@));
            assert(expected.emoji_slots.take(i + 1) =~= expected.emoji_slots.take(i as int).push(placed@));
        }
        slots.push(placed);
        i += 1;
    }
    assert(emoji_slots(slots@) =~= expected.emoji_slots);
    RenderedText { text: output, highlights, emoji_slots: slots }
}

// ---- What placing keeps ----

/// Whether a byte offset lies in none of the replaced ranges.
pub open spec fn outside(reps: Seq<LoadedEmojiReplacement>, b: int) -> bool {
    forall|k: int| 0 <= k < reps.len() ==> b < (#[trigger] reps[k]).start || reps[k].end <= b
}

/// The character at byte offset `b` of `s` is `c`.
pub open spec fn char_at_byte(s: Seq<char>, b: int, c: char) -> bool {
    on_boundary(s, b) && char_index(s, b) < s.len() && s[char_index(s, b)] == c
}

/// The replaced ranges follow one another and end by `cursor`.
spec fn ordered(reps: Seq<LoadedEmojiReplacement>, cursor: int) -> bool {
    &&& forall|k: int| 0 <= k < reps.len() ==> (#[trigger] reps[k]).start <= reps[k].end <= cursor
    &&& forall|j: int, k: int| 0 <= j < k < reps.len() ==> (#[trigger] reps[j]).end <= (#[trigger] reps[k]).start
}

proof fn lemma_sums_front(reps: Seq<LoadedEmojiReplacement>)
    requires
        reps.len() > 0,
    ensures
        bytes_added(reps) == reps[0].new_len + bytes_added(reps.drop_first()),
        bytes_removed(reps) == reps[0].end - reps[0].start + bytes_removed(reps.drop_first()),
    decreases reps.len(),
{
    if reps.len() == 1 {
        assert(reps.drop_last() =~= Seq::<LoadedEmojiReplacement>::empty());
        assert(reps.drop_first() =~= Seq::<LoadedEmojiReplacement>::empty());
    } else {
        lemma_sums_front(reps.drop_last());
        assert(reps.drop_last().drop_first() =~= reps.drop_first().drop_last());
        assert(reps.drop_first().last() == reps.last());
    }
}

proof fn lemma_remap_behind(reps: Seq<LoadedEmojiReplacement>, p: usize, d: int)
    requires
        ordered(reps, p as int),
    ensures
        remap_from(reps, p, d) == moved(p, d + bytes_added(reps) - bytes_removed(reps)),
    decreases reps.len(),
{
    if reps.len() > 0 {
        lemma_sums_front(reps);
        let rest = reps.drop_first();
        assert forall|k: int| 0 <= k < rest.len() implies (#[trigger] rest[k]).start <= rest[k].end <= p by {
            assert(rest[k] == reps[k + 1]);
        }
        assert forall|j: int, k: int| 0 <= j < k < rest.len() implies (#[trigger] rest[j]).end <= (
        #[trigger] rest[k]).start by {
            assert(rest[j] == reps[j + 1] && rest[k] == reps[k + 1]);
        }
        lemma_remap_behind(rest, p, d + reps[0].new_len - (reps[0].end - reps[0].start));
        assert(reps[0].start <= reps[0].end);
    }
}

proof fn lemma_remap_push(reps: Seq<LoadedEmojiReplacement>, rep: LoadedEmojiReplacement, p: usize, d: int)
    requires
        p < rep.start,
    ensures
        remap_from(reps.push(rep), p, d) == remap_from(reps, p, d),
    decreases reps.len(),
{
    if reps.len() == 0 {
        assert(reps.push(rep)[0] == rep);
    } else {
        assert(reps.push(rep)[0] == reps[0]);
        if p >= reps[0].end && p >= reps[0].start {
            assert(reps.push(rep).drop_first() =~= reps.drop_first().push(rep));
            lemma_remap_push(reps.drop_first(), rep, p, d + reps[0].new_len - (reps[0].end - reps[0].start));
        }
    }
}

/// Every character before `cursor` that was not replaced stands at its remapped place in `out`.
spec fn kept_so_far(out: Seq<char>, cursor: int, reps: Seq<LoadedEmojiReplacement>, text: Seq<char>) -> bool {
    forall|i: int|
        #![trigger text[i]]
        0 <= i < text.len() && byte_at(text, i) < cursor && outside(reps, byte_at(text, i) as int) ==> char_at_byte(
            out,
            remap(reps, byte_at(text, i) as usize) as int,
            text[i],
        )
}

proof fn lemma_char_at_byte_longer(s: Seq<char>, more: Seq<char>, b: int, c: char)
    requires
        char_at_byte(s, b, c),
    ensures
        char_at_byte(s + more, b, c),
{
    let k = char_index(s, b);
    assert((s + more).take(k) =~= s.take(k));
    lemma_char_index(s + more, k);
}

/// Copying the old text up to `to` keeps its characters.
proof fn lemma_copy(
    out: Seq<char>,
    cursor: int,
    reps: Seq<LoadedEmojiReplacement>,
    text: Seq<char>,
    to: int,
)
    requires
        kept_so_far(out, cursor, reps, text),
        ordered(reps, cursor),
        on_boundary(text, cursor),
        on_boundary(text, to),
        cursor <= to,
        utf8_len(text) <= usize::MAX,
        utf8_len(out) == cursor + bytes_added(reps) - bytes_removed(reps),
        utf8_len(out + byte_slice(text, cursor, to)) <= usize::MAX,
    ensures
        kept_so_far(out + byte_slice(text, cursor, to), to, reps, text),
        utf8_len(out + byte_slice(text, cursor, to)) == to + bytes_added(reps) - bytes_removed(reps),
{
    let seg = byte_slice(text, cursor, to);
    let longer = out + seg;
    lemma_boundary_order(text, cursor, to);
    lemma_utf8_len_concat(out, seg);
    let a = char_index(text, cursor);
    let z = char_index(text, to);
    assert forall|i: int|
        #![trigger text[i]]
        0 <= i < text.len() && byte_at(text, i) < to && outside(reps, byte_at(text, i) as int) implies char_at_byte(
        longer,
        remap(reps, byte_at(text, i) as usize) as int,
        text[i],
    ) by {
        let b = byte_at(text, i);
        if b < cursor {
            lemma_char_at_byte_longer(out, seg, remap(reps, b as usize) as int, text[i]);
        } else {
            if i < a {
                lemma_byte_at_monotonic(text, i, a);
            }
            if z <= i {
                lemma_byte_at_monotonic(text, z, i);
            }
            lemma_byte_at_monotonic(text, a, i);
            lemma_byte_at_monotonic(text, i, z);
            lemma_remap_behind(reps, b as usize, 0);
            let k = out.len() + (i - a);
            assert(longer.take(k) =~= out + text.subrange(a, i));
            lemma_utf8_len_concat(out, text.subrange(a, i));
            lemma_char_index(longer, k);
            assert(longer[k] == seg[i - a]);
            assert(byte_at(longer, k) == b + bytes_added(reps) - bytes_removed(reps));
            lemma_byte_at_monotonic(longer, k, longer.len() as int);
        }
    }
}

proof fn lemma_place_all_keeps(
    text: Seq<char>,
    slots: Seq<EmojiSlotView>,
    order: Seq<int>,
    loaded: Seq<Seq<char>>,
    cells: u16,
)
    requires
        utf8_len(text) <= usize::MAX,
        utf8_len(place_all(text, slots, order, loaded, cells).out) <= usize::MAX,
        forall|i: int| 0 <= i < order.len() ==> 0 <= #[trigger] order[i] < slots.len(),
    ensures
        ({
            let st = place_all(text, slots, order, loaded, cells);
            &&& place_ok(st, text, slots.len() as int)
            &&& ordered(st.reps, st.cursor as int)
            &&& kept_so_far(st.out, st.cursor as int, st.reps, text)
        }),
    decreases order.len(),
{
    let next = place_all(text, slots, order, loaded, cells);
    lemma_boundary_ends(text);
    if order.len() == 0 {
        assert(utf8_len(next.out) == 0);
        assert forall|i: int|
            #![trigger text[i]]
            0 <= i < text.len() && byte_at(text, i) < 0 && outside(next.reps, byte_at(text, i) as int) implies false by {
        }
    } else {
        let index = order.last();
        assert(order[order.len() - 1] == index);
        assert forall|i: int| 0 <= i < order.drop_last().len() implies 0 <= #[trigger] order.drop_last()[i]
            < slots.len() by {
            assert(order.drop_last()[i] == order[i]);
        }
        let st = place_all(text, slots, order.drop_last(), loaded, cells);
        let slot = slots[index];
        let start = slot.byte_start;
        let end = sat_add(start, slot.byte_len);
        if !placeable(text, slot, st.cursor) {
            lemma_place_all_keeps(text, slots, order.drop_last(), loaded, cells);
        } else {
            let gap = byte_slice(text, st.cursor as int, start as int);
            let before = st.out + gap;
            let blanks = repeated(' ', cells as nat);
            let kept = byte_slice(text, start as int, end as int);
            lemma_utf8_len_concat(st.out, gap);
            lemma_utf8_len_concat(before, blanks);
            lemma_utf8_len_concat(before, kept);
            lemma_place_all_keeps(text, slots, order.drop_last(), loaded, cells);
            lemma_place_step_ok(st, text, slots, index, loaded, cells);
            lemma_copy(st.out, st.cursor as int, st.reps, text, start as int);
            if has_text(loaded, slot.url) {
                let rep = next.reps.last();
                assert(next.reps.drop_last() =~= st.reps);
                assert forall|k: int| 0 <= k < next.reps.len() implies (#[trigger] next.reps[k]).start
                    <= next.reps[k].end <= next.cursor by {
                    if k < st.reps.len() {
                        assert(next.reps[k] == st.reps[k]);
                    }
                }
                assert forall|j: int, k: int| 0 <= j < k < next.reps.len() implies (#[trigger] next.reps[j]).end <= (
                #[trigger] next.reps[k]).start by {
                    assert(next.reps[j] == st.reps[j]);
                    if k < st.reps.len() {
                        assert(next.reps[k] == st.reps[k]);
                    }
                }
                assert forall|i: int|
                    #![trigger text[i]]
                    0 <= i < text.len() && byte_at(text, i) < next.cursor && outside(
                        next.reps,
                        byte_at(text, i) as int,
                    ) implies char_at_byte(next.out, remap(next.reps, byte_at(text, i) as usize) as int, text[i]) by {
                    let b = byte_at(text, i);
                    assert(next.reps[st.reps.len() as int] == rep);
                    assert(b < start);
                    assert forall|k: int| 0 <= k < st.reps.len() implies b < (#[trigger] st.reps[k]).start
                        || st.reps[k].end <= b by {
                        assert(next.reps[k] == st.reps[k]);
                    }
                    lemma_remap_push(st.reps, rep, b as usize, 0);
                    lemma_char_at_byte_longer(before, blanks, remap(st.reps, b as usize) as int, text[i]);
                }
            } else {
                lemma_copy_ordered(st.reps, st.cursor as int, start as int);
                lemma_copy(before, start as int, st.reps, text, end as int);
                lemma_copy_ordered(st.reps, st.cursor as int, end as int);
            }
        }
    }
}

proof fn lemma_copy_ordered(reps: Seq<LoadedEmojiReplacement>, cursor: int, to: int)
    requires
        ordered(reps, cursor),
        cursor <= to,
    ensures
        ordered(reps, to),
{
}

pub(crate) proof fn lemma_slot_order_range(slots: Seq<EmojiSlotView>, k: int)
    requires
        0 <= k <= slots.len(),
    ensures
        forall|i: int| 0 <= i < slot_order(slots, k).len() ==> 0 <= #[trigger] slot_order(slots, k)[i] < slots.len(),
    decreases k,
{
    if k > 0 {
        lemma_slot_order_range(slots, k - 1);
        lemma_insert_index_len(slot_order(slots, k - 1), slots, k - 1);
    }
}

/// Making room for loaded emojis touches nothing else: every character that was not replaced stands
/// in the new text, at the place that offsets are remapped to.
pub proof fn placeholders_keep_the_rest(r: RenderedView, loaded: Seq<Seq<char>>, cells: u16, i: int)
    requires
        utf8_len(r.text) <= usize::MAX,
        utf8_len(with_placeholders(r, loaded, cells).text) <= usize::MAX,
        0 <= i < r.text.len(),
    ensures
        ({
            let st = place_all(r.text, r.emoji_slots, slot_order(r.emoji_slots, r.emoji_slots.len() as int), loaded, cells);
            let b = byte_at(r.text, i);
            outside(st.reps, b as int) && st.reps.len() > 0 ==> char_at_byte(
                with_placeholders(r, loaded, cells).text,
                remap(st.reps, b as usize) as int,
                r.text[i],
            )
        }),
        ({
            let st = place_all(r.text, r.emoji_slots, slot_order(r.emoji_slots, r.emoji_slots.len() as int), loaded, cells);
            st.reps.len() == 0 ==> with_placeholders(r, loaded, cells) == r
        }),
{
    let text = r.text;
    let order = slot_order(r.emoji_slots, r.emoji_slots.len() as int);
    let st = place_all(text, r.emoji_slots, order, loaded, cells);
    lemma_slot_order_range(r.emoji_slots, r.emoji_slots.len() as int);
    if st.reps.len() > 0 {
        let len = utf8_len(text) as int;
        lemma_utf8_len_concat(st.out, byte_slice(text, st.cursor as int, len));
        lemma_place_all_keeps(text, r.emoji_slots, order, loaded, cells);
        lemma_boundary_ends(text);
        lemma_boundary_order(text, st.cursor as int, st.cursor as int);
        lemma_boundary_order(text, st.cursor as int, len);
        lemma_copy(st.out, st.cursor as int, st.reps, text, len);
        lemma_byte_at_monotonic(text, i, text.len() as int);
        lemma_byte_at_ends(text);
        assert(text[i] == r.text[i]);
    }
}

} // verus!
