//! What making room for emojis changes, and what it keeps.

use crate::message::placeholder::{
    char_at_byte, lemma_slot_order_range, outside, place_all, placeable, placeholders_keep_the_rest, slot_order,
    with_placeholders,
};
use crate::message::rendered::{EmojiSlotView, RenderedView};
use crate::text::{
    byte_at, byte_slice, has_text, lemma_byte_at_ends, lemma_byte_at_monotonic, lemma_char_index, lemma_utf8_len_concat,
    on_boundary, repeated, utf8_len,
};
use vstd::prelude::*;

verus! {

// ---- What stays ----

/// Whether a byte of a text belongs to an emoji whose image is loaded.
pub open spec fn is_in_loaded(r: RenderedView, loaded: Seq<Seq<char>>, b: int) -> bool {
    exists|i: int|
        0 <= i < r.emoji_slots.len() && has_text(loaded, (#[trigger] r.emoji_slots[i]).url)
            && r.emoji_slots[i].byte_start <= b < r.emoji_slots[i].byte_start + r.emoji_slots[i].byte_len
}

proof fn lemma_outside(r: RenderedView, loaded: Seq<Seq<char>>, cells: u16, order: Seq<int>, b: int)
    requires
        forall|i: int| 0 <= i < order.len() ==> 0 <= #[trigger] order[i] < r.emoji_slots.len(),
        !is_in_loaded(r, loaded, b),
    ensures
        outside(place_all(r.text, r.emoji_slots, order, loaded, cells).reps, b),
    decreases order.len(),
{
    if order.len() > 0 {
        let rest = order.drop_last();
        assert forall|i: int| 0 <= i < rest.len() implies 0 <= #[trigger] rest[i] < r.emoji_slots.len() by {
            assert(rest[i] == order[i]);
        }
        lemma_outside(r, loaded, cells, rest, b);
        let st = place_all(r.text, r.emoji_slots, rest, loaded, cells);
        let next = place_all(r.text, r.emoji_slots, order, loaded, cells);
        let index = order.last();
        assert(order[order.len() - 1] == index);
        let slot = r.emoji_slots[index];
        if placeable(r.text, slot, st.cursor) && has_text(loaded, slot.url) {
            assert forall|k: int| 0 <= k < next.reps.len() implies b < (#[trigger] next.reps[k]).start
                || next.reps[k].end <= b by {
                if k < st.reps.len() {
                    assert(next.reps[k] == st.reps[k]);
                }
            }
        }
    }
}

proof fn lemma_same_lengths(r: RenderedView, loaded: Seq<Seq<char>>, cells: u16)
    ensures
        with_placeholders(r, loaded, cells).highlights.len() == r.highlights.len(),
        with_placeholders(r, loaded, cells).emoji_slots.len() == r.emoji_slots.len(),
{
}

/// Making room for emojis keeps every highlight, in its order and of its kind, and a highlight that begins
/// outside the emojis begins with the same character.
pub proof fn room_keeps_the_highlights(r: RenderedView, loaded: Seq<Seq<char>>, cells: u16, k: int, i: int)
    requires
        utf8_len(r.text) <= usize::MAX,
        utf8_len(with_placeholders(r, loaded, cells).text) <= usize::MAX,
        0 <= k < r.highlights.len(),
        0 <= i < r.text.len(),
    ensures
        ({
            let s = with_placeholders(r, loaded, cells);
            &&& s.highlights.len() == r.highlights.len()
            &&& s.highlights[k].kind == r.highlights[k].kind
            &&& byte_at(r.text, i) == r.highlights[k].start && !is_in_loaded(r, loaded, byte_at(r.text, i) as int)
                ==> char_at_byte(s.text, s.highlights[k].start as int, r.text[i])
            &&& byte_at(r.text, i) == r.highlights[k].end && !is_in_loaded(r, loaded, byte_at(r.text, i) as int)
                ==> char_at_byte(s.text, s.highlights[k].end as int, r.text[i])
        }),
{
    let n = r.emoji_slots.len() as int;
    let b = byte_at(r.text, i) as int;
    lemma_slot_order_range(r.emoji_slots, n);
    placeholders_keep_the_rest(r, loaded, cells, i);
    lemma_same_lengths(r, loaded, cells);
    lemma_byte_at_monotonic(r.text, i, r.text.len() as int);
    lemma_byte_at_ends(r.text);
    let st = place_all(r.text, r.emoji_slots, slot_order(r.emoji_slots, n), loaded, cells);
    if !is_in_loaded(r, loaded, b) {
        lemma_outside(r, loaded, cells, slot_order(r.emoji_slots, n), b);
        if st.reps.len() == 0 {
            lemma_char_index(r.text, i);
            assert(on_boundary(r.text, b));
            assert(char_at_byte(r.text, b, r.text[i]));
        }
    }
}

// ---- What gives way ----

/// Whether emojis stand in a text one behind the other, each of whole characters.
pub open spec fn are_in_line(text: Seq<char>, slots: Seq<EmojiSlotView>) -> bool {
    &&& forall|i: int|
        0 <= i < slots.len() ==> (#[trigger] slots[i]).byte_start + slots[i].byte_len <= utf8_len(text) && on_boundary(
            text,
            slots[i].byte_start as int,
        ) && on_boundary(text, slots[i].byte_start + slots[i].byte_len)
    &&& forall|i: int, j: int|
        0 <= i < j < slots.len() ==> (#[trigger] slots[i]).byte_start + slots[i].byte_len <= (
        #[trigger] slots[j]).byte_start
}

/// Whether a piece stands in a text at a byte.
pub open spec fn stands_at(text: Seq<char>, at: int, piece: Seq<char>) -> bool {
    exists|p: int|
        0 <= p && p + piece.len() <= text.len() && #[trigger] byte_at(text, p) == at && text.subrange(
            p,
            p + piece.len(),
        ) == piece
}

/// Whether an emoji of a text has its place in another: room of `cells` columns where its image is
/// loaded, and its own characters where not.
pub open spec fn has_place(
    text: Seq<char>,
    slot: EmojiSlotView,
    new_text: Seq<char>,
    new: EmojiSlotView,
    loaded: Seq<Seq<char>>,
    cells: u16,
) -> bool {
    &&& new.url == slot.url
    &&& has_text(loaded, slot.url) ==> new.byte_len == cells && new.display_width == cells && stands_at(
        new_text,
        new.byte_start as int,
        repeated(' ', cells as nat),
    )
    &&& !has_text(loaded, slot.url) ==> new.byte_len == slot.byte_len && new.display_width == slot.display_width
        && stands_at(
        new_text,
        new.byte_start as int,
        byte_slice(text, slot.byte_start as int, slot.byte_start + slot.byte_len),
    )
}

proof fn lemma_stands_longer(text: Seq<char>, more: Seq<char>, at: int, piece: Seq<char>)
    requires
        stands_at(text, at, piece),
    ensures
        stands_at(text + more, at, piece),
{
    let p = choose|p: int|
        0 <= p && p + piece.len() <= text.len() && #[trigger] byte_at(text, p) == at && text.subrange(
            p,
            p + piece.len(),
        ) == piece;
    assert((text + more).take(p) =~= text.take(p));
    assert(byte_at(text + more, p) == at);
    assert((text + more).subrange(p, p + piece.len()) =~= piece);
}

proof fn lemma_stands_behind(text: Seq<char>, piece: Seq<char>)
    ensures
        stands_at(text + piece, utf8_len(text) as int, piece),
{
    let p = text.len() as int;
    assert((text + piece).take(p) =~= text);
    assert(byte_at(text + piece, p) == utf8_len(text));
    assert((text + piece).subrange(p, p + piece.len()) =~= piece);
}

spec fn first_ones(k: int) -> Seq<int> {
    Seq::new(k as nat, |i: int| i)
}

proof fn lemma_order(text: Seq<char>, slots: Seq<EmojiSlotView>, k: int)
    requires
        are_in_line(text, slots),
        0 <= k <= slots.len(),
    ensures
        slot_order(slots, k) == first_ones(k),
    decreases k,
{
    if k > 0 {
        lemma_order(text, slots, k - 1);
        let before = first_ones(k - 1);
        if before.len() > 0 {
            assert(before.last() == k - 2);
            assert(slots[k - 2].byte_start + slots[k - 2].byte_len <= slots[k - 1].byte_start);
        }
        assert(before.push(k - 1) =~= first_ones(k));
    } else {
        assert(first_ones(k) =~= Seq::<int>::empty());
    }
}

proof fn lemma_place_longer(
    text: Seq<char>,
    slot: EmojiSlotView,
    out: Seq<char>,
    more: Seq<char>,
    new: EmojiSlotView,
    loaded: Seq<Seq<char>>,
    cells: u16,
)
    requires
        has_place(text, slot, out, new, loaded, cells),
    ensures
        has_place(text, slot, out + more, new, loaded, cells),
{
    if has_text(loaded, slot.url) {
        lemma_stands_longer(out, more, new.byte_start as int, repeated(' ', cells as nat));
    } else {
        let kept = byte_slice(text, slot.byte_start as int, slot.byte_start + slot.byte_len);
        lemma_stands_longer(out, more, new.byte_start as int, kept);
    }
}

spec fn is_placed(
    text: Seq<char>,
    slots: Seq<EmojiSlotView>,
    out: Seq<char>,
    updates: Seq<Option<EmojiSlotView>>,
    loaded: Seq<Seq<char>>,
    cells: u16,
    j: int,
) -> bool {
    updates[j] is Some && has_place(text, slots[j], out, updates[j]->0, loaded, cells)
}

proof fn lemma_last_placed(
    text: Seq<char>,
    slots: Seq<EmojiSlotView>,
    loaded: Seq<Seq<char>>,
    cells: u16,
    k: int,
) -> (more: Seq<char>)
    requires
        are_in_line(text, slots),
        utf8_len(text) <= usize::MAX,
        0 < k <= slots.len(),
        utf8_len(place_all(text, slots, first_ones(k), loaded, cells).out) <= usize::MAX,
        place_all(text, slots, first_ones(k - 1), loaded, cells).updates.len() == slots.len(),
    ensures
        ({
            let st = place_all(text, slots, first_ones(k - 1), loaded, cells);
            let next = place_all(text, slots, first_ones(k), loaded, cells);
            &&& next.out == st.out + more
            &&& next.updates.len() == slots.len()
            &&& forall|j: int| 0 <= j < k - 1 ==> #[trigger] next.updates[j] == st.updates[j]
            &&& is_placed(text, slots, next.out, next.updates, loaded, cells, k - 1)
        }),
{
    let order = first_ones(k);
    assert(order.drop_last() =~= first_ones(k - 1));
    assert(order.last() == k - 1);
    let st = place_all(text, slots, first_ones(k - 1), loaded, cells);
    let next = place_all(text, slots, order, loaded, cells);
    let slot = slots[k - 1];
    let start = slot.byte_start as int;
    let end = start + slot.byte_len;
    lemma_cursor(text, slots, loaded, cells, k - 1);
    if k > 1 {
        assert(slots[k - 2].byte_start + slots[k - 2].byte_len <= slots[k - 1].byte_start);
    }
    assert(placeable(text, slot, st.cursor));
    let gap = byte_slice(text, st.cursor as int, start);
    let before = st.out + gap;
    let piece = if has_text(loaded, slot.url) {
        repeated(' ', cells as nat)
    } else {
        byte_slice(text, start, end)
    };
    lemma_utf8_len_concat(before, piece);
    assert(next.out == before + piece);
    lemma_stands_behind(before, piece);
    assert(next.out =~= st.out + (gap + piece));
    gap + piece
}

proof fn lemma_all_placed(
    text: Seq<char>,
    slots: Seq<EmojiSlotView>,
    loaded: Seq<Seq<char>>,
    cells: u16,
    k: int,
    j: int,
)
    requires
        are_in_line(text, slots),
        utf8_len(text) <= usize::MAX,
        0 <= k <= slots.len(),
        utf8_len(place_all(text, slots, first_ones(k), loaded, cells).out) <= usize::MAX,
    ensures
        ({
            let st = place_all(text, slots, first_ones(k), loaded, cells);
            &&& st.updates.len() == slots.len()
            &&& 0 <= j < k ==> is_placed(text, slots, st.out, st.updates, loaded, cells, j)
        }),
    decreases k,
{
    if k == 0 {
        assert(first_ones(k) =~= Seq::<int>::empty());
    } else {
        lemma_updates(text, slots, loaded, cells, k - 1);
        let st = place_all(text, slots, first_ones(k - 1), loaded, cells);
        let next = place_all(text, slots, first_ones(k), loaded, cells);
        let more = lemma_last_placed(text, slots, loaded, cells, k);
        lemma_utf8_len_concat(st.out, more);
        lemma_all_placed(text, slots, loaded, cells, k - 1, j);
        if 0 <= j < k - 1 {
            assert(next.updates[j] == st.updates[j]);
            lemma_place_longer(text, slots[j], st.out, more, st.updates[j]->0, loaded, cells);
        }
    }
}

proof fn lemma_updates(text: Seq<char>, slots: Seq<EmojiSlotView>, loaded: Seq<Seq<char>>, cells: u16, k: int)
    requires
        0 <= k <= slots.len(),
    ensures
        place_all(text, slots, first_ones(k), loaded, cells).updates.len() == slots.len(),
    decreases k,
{
    if k == 0 {
        assert(first_ones(k) =~= Seq::<int>::empty());
    } else {
        assert(first_ones(k).drop_last() =~= first_ones(k - 1));
        lemma_updates(text, slots, loaded, cells, k - 1);
    }
}

/// Where the image of an emoji is loaded, blanks stand in its place, as many as the image takes columns.
/// An emoji whose image is not loaded keeps its characters. Each is still found where its place says.
pub proof fn loaded_emojis_make_room(r: RenderedView, loaded: Seq<Seq<char>>, cells: u16, i: int, j: int)
    requires
        are_in_line(r.text, r.emoji_slots),
        utf8_len(r.text) <= usize::MAX,
        utf8_len(with_placeholders(r, loaded, cells).text) <= usize::MAX,
        0 <= i < r.emoji_slots.len(),
        has_text(loaded, r.emoji_slots[i].url),
        0 <= j < r.emoji_slots.len(),
    ensures
        ({
            let s = with_placeholders(r, loaded, cells);
            &&& s.emoji_slots.len() == r.emoji_slots.len()
            &&& has_place(r.text, r.emoji_slots[j], s.text, s.emoji_slots[j], loaded, cells)
        }),
{
    let n = r.emoji_slots.len() as int;
    lemma_order(r.text, r.emoji_slots, n);
    lemma_same_lengths(r, loaded, cells);
    let st = place_all(r.text, r.emoji_slots, first_ones(n), loaded, cells);
    let s = with_placeholders(r, loaded, cells);
    let tail = byte_slice(r.text, st.cursor as int, utf8_len(r.text) as int);
    lemma_utf8_len_concat(st.out, tail);
    if st.reps.len() > 0 {
        lemma_all_placed(r.text, r.emoji_slots, loaded, cells, n, j);
        lemma_place_longer(r.text, r.emoji_slots[j], st.out, tail, st.updates[j]->0, loaded, cells);
        assert(s.emoji_slots[j] == st.updates[j]->0);
    } else {
        lemma_some_replaced(r.text, r.emoji_slots, loaded, cells, n, i);
    }
}

/// As far as a text is placed, an emoji whose image is loaded was replaced.
proof fn lemma_some_replaced(
    text: Seq<char>,
    slots: Seq<EmojiSlotView>,
    loaded: Seq<Seq<char>>,
    cells: u16,
    k: int,
    i: int,
)
    requires
        are_in_line(text, slots),
        utf8_len(text) <= usize::MAX,
        0 <= i < k <= slots.len(),
        has_text(loaded, slots[i].url),
    ensures
        place_all(text, slots, first_ones(k), loaded, cells).reps.len() > 0,
    decreases k,
{
    let order = first_ones(k);
    assert(order.drop_last() =~= first_ones(k - 1));
    assert(order.last() == k - 1);
    if i < k - 1 {
        lemma_some_replaced(text, slots, loaded, cells, k - 1, i);
    } else {
        lemma_cursor(text, slots, loaded, cells, k - 1);
        if k > 1 {
            assert(slots[k - 2].byte_start + slots[k - 2].byte_len <= slots[k - 1].byte_start);
        }
        assert(placeable(text, slots[i], place_all(text, slots, first_ones(k - 1), loaded, cells).cursor));
    }
}

proof fn lemma_cursor(text: Seq<char>, slots: Seq<EmojiSlotView>, loaded: Seq<Seq<char>>, cells: u16, k: int)
    requires
        are_in_line(text, slots),
        utf8_len(text) <= usize::MAX,
        0 <= k <= slots.len(),
    ensures
        place_all(text, slots, first_ones(k), loaded, cells).cursor == (if k == 0 {
            0
        } else {
            slots[k - 1].byte_start + slots[k - 1].byte_len
        }),
    decreases k,
{
    if k == 0 {
        assert(first_ones(k) =~= Seq::<int>::empty());
    } else {
        let order = first_ones(k);
        assert(order.drop_last() =~= first_ones(k - 1));
        assert(order.last() == k - 1);
        lemma_cursor(text, slots, loaded, cells, k - 1);
        if k > 1 {
            assert(slots[k - 2].byte_start + slots[k - 2].byte_len <= slots[k - 1].byte_start);
        }
        assert(placeable(text, slots[k - 1], place_all(text, slots, first_ones(k - 1), loaded, cells).cursor));
    }
}

} // verus!
