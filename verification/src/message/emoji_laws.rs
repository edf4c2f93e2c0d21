//! Where the emojis of a text stand in its lines.

use crate::message::line::{LineView, StyledPrefix};
use crate::message::rendered::{EmojiImageSize, EmojiSlotView, ImageSlotView, RenderedView, TextHighlight};
use crate::message::rich::with_links;
use crate::message::styled::{content_line, content_lines};
use crate::message::wrap::{
    break_at_separator, clusters_of, end_line, line_of, move_word, note_word_start, overflows, shift_slots,
    slot_starting_at, take_cluster, wrap_clusters, wrap_line, wrap_source_lines,
    wrap_step, wrap_width, wrapped_with_metadata, Cluster, WrapState, WrappedView,
};
use crate::style::Style;
use crate::text::{byte_at, concat, lemma_utf8_len_concat, split_on, utf8_len};
use crate::unicode::{display_width, graphemes};
use vstd::prelude::*;

verus! {

/// The columns of the clusters from one to another.
pub open spec fn columns_between(parts: Seq<Seq<char>>, from: int, to: int) -> int
    decreases to - from,
{
    if to <= from {
        0
    } else {
        columns_between(parts, from, to - 1) + display_width(parts[to - 1])
    }
}

/// The bytes of the clusters before one.
pub open spec fn bytes_before(parts: Seq<Seq<char>>, k: int) -> int {
    utf8_len(concat(parts.take(k))) as int
}

/// The images of the emojis that begin at the clusters from one to another, in a line of these clusters.
spec fn images(parts: Seq<Seq<char>>, start: usize, slots: Seq<EmojiSlotView>, from: int, to: int) -> Seq<ImageSlotView>
    decreases to - from,
{
    if to <= from {
        Seq::empty()
    } else {
        let before = images(parts, start, slots, from, to - 1);
        match slot_starting_at(slots, (start + bytes_before(parts, to - 1)) as usize) {
            Some(slot) => before.push(image_at(parts, slot, from, to - 1)),
            None => before,
        }
    }
}

/// The image of an emoji that begins at cluster `k`, in a line that begins at cluster `from`.
pub open spec fn image_at(parts: Seq<Seq<char>>, slot: EmojiSlotView, from: int, k: int) -> ImageSlotView {
    ImageSlotView {
        col: columns_between(parts, from, k) as u16,
        byte_start: (bytes_before(parts, k) - bytes_before(parts, from)) as usize,
        byte_len: slot.byte_len,
        display_width: slot.display_width,
        image_size: EmojiImageSize::Compact,
        url: slot.url,
    }
}

spec fn is_tame(parts: Seq<Seq<char>>, start: usize) -> bool {
    &&& start + bytes_before(parts, parts.len() as int) <= usize::MAX
    &&& columns_between(parts, 0, parts.len() as int) <= u16::MAX
}

proof fn lemma_bytes(parts: Seq<Seq<char>>, i: int, j: int)
    requires
        0 <= i <= j <= parts.len(),
    ensures
        0 <= bytes_before(parts, i) <= bytes_before(parts, j),
        bytes_before(parts, j) - bytes_before(parts, i) == utf8_len(concat(parts.subrange(i, j))),
    decreases j,
{
    if i < j {
        lemma_bytes(parts, i, j - 1);
        lemma_concat_last(parts, i, j);
        lemma_concat_last(parts, 0, j);
        assert(parts.take(j) =~= parts.subrange(0, j));
        assert(parts.take(j - 1) =~= parts.subrange(0, j - 1));
    } else {
        assert(parts.subrange(i, j) =~= Seq::<Seq<char>>::empty());
        assert(concat(parts.subrange(i, j)) =~= Seq::<char>::empty());
        crate::text::lemma_utf8_len_bounds(Seq::<char>::empty());
    }
}

proof fn lemma_concat_last(parts: Seq<Seq<char>>, i: int, j: int)
    requires
        0 <= i < j <= parts.len(),
    ensures
        concat(parts.subrange(i, j)) == concat(parts.subrange(i, j - 1)) + parts[j - 1],
        utf8_len(concat(parts.subrange(i, j))) == utf8_len(concat(parts.subrange(i, j - 1))) + utf8_len(parts[j - 1]),
{
    assert(parts.subrange(i, j).drop_last() =~= parts.subrange(i, j - 1));
    lemma_utf8_len_concat(concat(parts.subrange(i, j - 1)), parts[j - 1]);
}

proof fn lemma_concat_middle(parts: Seq<Seq<char>>, i: int, m: int, j: int)
    requires
        0 <= i <= m <= j <= parts.len(),
    ensures
        concat(parts.subrange(i, j)) == concat(parts.subrange(i, m)) + concat(parts.subrange(m, j)),
    decreases j - m,
{
    if m < j {
        lemma_concat_middle(parts, i, m, j - 1);
        lemma_concat_last(parts, i, j);
        lemma_concat_last(parts, m, j);
        assert(concat(parts.subrange(i, m)) + concat(parts.subrange(m, j - 1)) + parts[j - 1] =~= concat(
            parts.subrange(i, m),
        ) + (concat(parts.subrange(m, j - 1)) + parts[j - 1]));
    } else {
        assert(parts.subrange(m, j) =~= Seq::<Seq<char>>::empty());
        assert(concat(parts.subrange(m, j)) =~= Seq::<char>::empty());
        assert(concat(parts.subrange(i, m)) + Seq::<char>::empty() =~= concat(parts.subrange(i, m)));
    }
}

proof fn lemma_columns(parts: Seq<Seq<char>>, i: int, m: int, j: int)
    requires
        0 <= i <= m <= j <= parts.len(),
    ensures
        columns_between(parts, i, j) == columns_between(parts, i, m) + columns_between(parts, m, j),
        0 <= columns_between(parts, i, m),
        0 <= columns_between(parts, m, j),
    decreases j - i,
{
    if m < j {
        lemma_columns(parts, i, m, j - 1);
    } else if i < m {
        lemma_columns(parts, i, m - 1, m - 1);
    }
}

proof fn lemma_columns_within(parts: Seq<Seq<char>>, i: int, j: int)
    requires
        0 <= i <= j <= parts.len(),
    ensures
        0 <= columns_between(parts, i, j) <= columns_between(parts, 0, parts.len() as int),
{
    lemma_columns(parts, 0, i, j);
    lemma_columns(parts, 0, j, parts.len() as int);
}

proof fn lemma_images(parts: Seq<Seq<char>>, start: usize, slots: Seq<EmojiSlotView>, i: int, m: int, j: int)
    requires
        0 <= i <= m <= j <= parts.len(),
        is_tame(parts, start),
    ensures
        images(parts, start, slots, i, m).len() <= images(parts, start, slots, i, j).len(),
        images(parts, start, slots, i, j).take(images(parts, start, slots, i, m).len() as int) == images(
            parts,
            start,
            slots,
            i,
            m,
        ),
        shift_slots(
            images(parts, start, slots, i, j).skip(images(parts, start, slots, i, m).len() as int),
            (bytes_before(parts, m) - bytes_before(parts, i)) as nat,
            columns_between(parts, i, m) as usize,
        ) == images(parts, start, slots, m, j),
    decreases j - m,
{
    let all = images(parts, start, slots, i, j);
    let front = images(parts, start, slots, i, m);
    let own = images(parts, start, slots, m, j);
    let n = front.len() as int;
    let bytes = (bytes_before(parts, m) - bytes_before(parts, i)) as nat;
    let cols = columns_between(parts, i, m) as usize;
    if m == j {
        assert(all.take(n) =~= front);
        assert(shift_slots(all.skip(n), bytes, cols) =~= own);
    } else {
        lemma_images(parts, start, slots, i, m, j - 1);
        let before = images(parts, start, slots, i, j - 1);
        let less = images(parts, start, slots, m, j - 1);
        lemma_bytes(parts, i, m);
        lemma_bytes(parts, m, j - 1);
        lemma_bytes(parts, j - 1, parts.len() as int);
        lemma_columns(parts, i, m, j - 1);
        lemma_columns_within(parts, i, j - 1);
        lemma_columns_within(parts, i, m);
        match slot_starting_at(slots, (start + bytes_before(parts, j - 1)) as usize) {
            Some(slot) => {
                let image = image_at(parts, slot, i, j - 1);
                assert(all == before.push(image));
                assert(all.take(n) =~= before.take(n));
                assert(all.skip(n) =~= before.skip(n).push(image));
                assert(shift_slots(all.skip(n), bytes, cols) =~= shift_slots(before.skip(n), bytes, cols).push(
                    image_at(parts, slot, m, j - 1),
                ));
            },
            None => {},
        }
    }
}

/// Whether a line is that of the clusters from one to another, with their images.
spec fn holds(w: WrappedView, parts: Seq<Seq<char>>, start: usize, slots: Seq<EmojiSlotView>, from: int, to: int) -> bool {
    &&& 0 <= from <= to <= parts.len()
    &&& w.text == concat(parts.subrange(from, to))
    &&& w.source_start == start + bytes_before(parts, from)
    &&& w.image_slots == images(parts, start, slots, from, to)
}

spec fn all_hold(lines: Seq<WrappedView>, cuts: Seq<(int, int)>, parts: Seq<Seq<char>>, start: usize, slots: Seq<EmojiSlotView>) -> bool {
    &&& cuts.len() == lines.len()
    &&& forall|l: int| 0 <= l < lines.len() ==> holds(#[trigger] lines[l], parts, start, slots, cuts[l].0, cuts[l].1)
}

spec fn lies_in(cuts: Seq<(int, int)>, j: int) -> bool {
    exists|l: int| 0 <= l < cuts.len() && (#[trigger] cuts[l]).0 <= j < cuts[l].1
}

/// Whether every emoji that begins before cluster `k` begins in a line, or from cluster `a` on.
spec fn all_lie(cuts: Seq<(int, int)>, parts: Seq<Seq<char>>, start: usize, slots: Seq<EmojiSlotView>, a: int) -> bool {
    forall|j: int|
        0 <= j < a && slot_starting_at(slots, (start + #[trigger] bytes_before(parts, j)) as usize) is Some ==> lies_in(
            cuts,
            j,
        )
}

spec fn is_filling(
    st: WrapState,
    parts: Seq<Seq<char>>,
    start: usize,
    slots: Seq<EmojiSlotView>,
    a: int,
    m: int,
    k: int,
) -> bool {
    &&& 0 <= a <= m <= k <= parts.len()
    &&& st.text == concat(parts.subrange(a, k))
    &&& st.width == columns_between(parts, a, k)
    &&& st.start == start + bytes_before(parts, a)
    &&& st.slots == images(parts, start, slots, a, k)
    &&& st.boundary matches Some(b) ==> {
        &&& b.source_start == start + bytes_before(parts, m)
        &&& b.chars == concat(parts.subrange(a, m)).len()
        &&& b.width == columns_between(parts, a, m)
        &&& b.slot_count == images(parts, start, slots, a, m).len()
    }
}

proof fn lemma_lies_push(
    cuts: Seq<(int, int)>,
    cut: (int, int),
    parts: Seq<Seq<char>>,
    start: usize,
    slots: Seq<EmojiSlotView>,
    next: int,
)
    requires
        all_lie(cuts, parts, start, slots, cut.0),
        cut.0 <= cut.1 <= next <= cut.1 + 1,
        next > cut.1 ==> slot_starting_at(slots, (start + bytes_before(parts, cut.1)) as usize) is None,
    ensures
        all_lie(cuts.push(cut), parts, start, slots, next),
{
    let more = cuts.push(cut);
    assert forall|j: int|
        0 <= j < next && slot_starting_at(slots, (start + #[trigger] bytes_before(parts, j)) as usize) is Some implies lies_in(
        more,
        j,
    ) by {
        if j < cut.0 {
            assert(lies_in(cuts, j));
            let l = choose|l: int| 0 <= l < cuts.len() && (#[trigger] cuts[l]).0 <= j < cuts[l].1;
            assert(more[l] == cuts[l]);
        } else {
            assert(more[cuts.len() as int] == cut);
        }
    }
}

proof fn lemma_hold_push(
    lines: Seq<WrappedView>,
    cuts: Seq<(int, int)>,
    parts: Seq<Seq<char>>,
    start: usize,
    slots: Seq<EmojiSlotView>,
    w: WrappedView,
    cut: (int, int),
)
    requires
        all_hold(lines, cuts, parts, start, slots),
        holds(w, parts, start, slots, cut.0, cut.1),
    ensures
        all_hold(lines.push(w), cuts.push(cut), parts, start, slots),
{
    let (more, all) = (lines.push(w), cuts.push(cut));
    assert forall|l: int| 0 <= l < more.len() implies holds(#[trigger] more[l], parts, start, slots, all[l].0, all[l].1) by {
        if l < lines.len() {
            assert(more[l] == lines[l] && all[l] == cuts[l]);
        }
    }
}

/// One more cluster joins the line.
proof fn lemma_take(
    st: WrapState,
    c: Cluster,
    parts: Seq<Seq<char>>,
    start: usize,
    slots: Seq<EmojiSlotView>,
    a: int,
    m: int,
    k: int,
)
    requires
        is_tame(parts, start),
        is_filling(st, parts, start, slots, a, m, k),
        k < parts.len(),
        c == clusters_of(parts, start, slots, k),
    ensures
        is_filling(take_cluster(st, c), parts, start, slots, a, m, k + 1),
{
    lemma_concat_last(parts, a, k + 1);
    lemma_columns_within(parts, a, k + 1);
    lemma_columns_within(parts, a, k);
    lemma_bytes(parts, a, k);
    lemma_bytes(parts, k, parts.len() as int);
    assert(take_cluster(st, c).slots =~= images(parts, start, slots, a, k + 1));
}

/// A line ends as it stands, and the next one begins at the cluster.
proof fn lemma_end(
    st: WrapState,
    c: Cluster,
    highlights: Seq<TextHighlight>,
    parts: Seq<Seq<char>>,
    start: usize,
    slots: Seq<EmojiSlotView>,
    cuts: Seq<(int, int)>,
    a: int,
    m: int,
    k: int,
)
    requires
        is_tame(parts, start),
        is_filling(st, parts, start, slots, a, m, k),
        k < parts.len(),
        c == clusters_of(parts, start, slots, k),
        all_hold(st.lines, cuts, parts, start, slots),
        all_lie(cuts, parts, start, slots, a),
    ensures
        is_filling(end_line(st, c, highlights), parts, start, slots, k, k, k),
        all_hold(end_line(st, c, highlights).lines, cuts.push((a, k)), parts, start, slots),
        all_lie(cuts.push((a, k)), parts, start, slots, k),
{
    lemma_bytes(parts, k, parts.len() as int);
    assert(parts.subrange(k, k) =~= Seq::<Seq<char>>::empty());
    assert(concat(parts.subrange(k, k)) =~= Seq::<char>::empty());
    lemma_hold_push(st.lines, cuts, parts, start, slots, line_of(st.text, st.start, st.end, highlights, st.slots), (a, k));
    lemma_lies_push(cuts, (a, k), parts, start, slots, k);
}

proof fn lemma_move(
    st: WrapState,
    c: Cluster,
    highlights: Seq<TextHighlight>,
    parts: Seq<Seq<char>>,
    start: usize,
    slots: Seq<EmojiSlotView>,
    cuts: Seq<(int, int)>,
    a: int,
    m: int,
    k: int,
) -> (r: (Seq<(int, int)>, int))
    requires
        is_tame(parts, start),
        is_filling(st, parts, start, slots, a, m, k),
        k < parts.len(),
        c == clusters_of(parts, start, slots, k),
        all_hold(st.lines, cuts, parts, start, slots),
        all_lie(cuts, parts, start, slots, a),
    ensures
        is_filling(move_word(st, c, highlights), parts, start, slots, r.1, r.1, k),
        move_word(st, c, highlights).boundary is None,
        all_hold(move_word(st, c, highlights).lines, r.0, parts, start, slots),
        all_lie(r.0, parts, start, slots, r.1),
{
    match st.boundary {
        Some(b) if b.chars < st.text.len() => {
            lemma_concat_middle(parts, a, m, k);
            let (x, y) = (concat(parts.subrange(a, m)), concat(parts.subrange(m, k)));
            assert(st.text.take(b.chars) =~= x);
            assert(st.text.skip(b.chars) =~= y);
            lemma_columns(parts, a, m, k);
            lemma_columns_within(parts, a, k);
            lemma_images(parts, start, slots, a, m, k);
            lemma_bytes(parts, a, m);
            lemma_bytes(parts, m, parts.len() as int);
            assert(byte_at(st.text, b.chars) == bytes_before(parts, m) - bytes_before(parts, a));
            let w = line_of(st.text.take(b.chars), st.start, b.source_start, highlights, st.slots.take(b.slot_count));
            lemma_hold_push(st.lines, cuts, parts, start, slots, w, (a, m));
            lemma_lies_push(cuts, (a, m), parts, start, slots, m);
            (cuts.push((a, m)), m)
        },
        _ => {
            lemma_end(st, c, highlights, parts, start, slots, cuts, a, m, k);
            (cuts.push((a, k)), k)
        },
    }
}

proof fn lemma_step(
    st: WrapState,
    highlights: Seq<TextHighlight>,
    parts: Seq<Seq<char>>,
    start: usize,
    slots: Seq<EmojiSlotView>,
    width: usize,
    cuts: Seq<(int, int)>,
    a: int,
    m: int,
    k: int,
) -> (r: (Seq<(int, int)>, int, int))
    requires
        is_tame(parts, start),
        is_filling(st, parts, start, slots, a, m, k),
        k < parts.len(),
        all_hold(st.lines, cuts, parts, start, slots),
        all_lie(cuts, parts, start, slots, a),
    ensures
        ({
            let after = wrap_step(st, clusters_of(parts, start, slots, k), highlights, width);
            &&& is_filling(after, parts, start, slots, r.1, r.2, k + 1)
            &&& all_hold(after.lines, r.0, parts, start, slots)
            &&& all_lie(r.0, parts, start, slots, r.1)
        }),
{
    let c = clusters_of(parts, start, slots, k);
    lemma_bytes(parts, k, k + 1);
    lemma_bytes(parts, k + 1, parts.len() as int);
    let noted = note_word_start(st, c);
    let n = if !c.is_separator() && st.after_space && !crate::unicode::all_space(st.text) { k } else { m };
    assert(is_filling(noted, parts, start, slots, a, n, k));
    if !overflows(noted, c, width) {
        lemma_take(noted, c, parts, start, slots, a, n, k);
        (cuts, a, n)
    } else if c.is_separator() {
        let after = break_at_separator(noted, c, highlights);
        lemma_hold_push(
            noted.lines,
            cuts,
            parts,
            start,
            slots,
            line_of(noted.text, noted.start, noted.end, highlights, noted.slots),
            (a, k),
        );
        lemma_lies_push(cuts, (a, k), parts, start, slots, k + 1);
        assert(parts.subrange(k + 1, k + 1) =~= Seq::<Seq<char>>::empty());
        assert(concat(parts.subrange(k + 1, k + 1)) =~= Seq::<char>::empty());
        assert(parts.subrange(k, k + 1) =~= seq![parts[k]]);
        lemma_concat_last(parts, k, k + 1);
        assert(parts.subrange(k, k) =~= Seq::<Seq<char>>::empty());
        assert(concat(parts.subrange(k, k)) =~= Seq::<char>::empty());
        crate::text::lemma_utf8_len_bounds(Seq::<char>::empty());
        assert(c.end() == start + bytes_before(parts, k + 1));
        assert(is_filling(after, parts, start, slots, k + 1, k + 1, k + 1));
        (cuts.push((a, k)), k + 1, k + 1)
    } else {
        let (more, b) = lemma_move(noted, c, highlights, parts, start, slots, cuts, a, n, k);
        let moved = move_word(noted, c, highlights);
        if c.slot is Some && overflows(moved, c, width) {
            lemma_end(moved, c, highlights, parts, start, slots, more, b, b, k);
            let ended = end_line(moved, c, highlights);
            lemma_take(ended, c, parts, start, slots, k, k, k);
            (more.push((b, k)), k, k)
        } else {
            lemma_take(moved, c, parts, start, slots, b, b, k);
            (more, b, b)
        }
    }
}

proof fn lemma_clusters(
    parts: Seq<Seq<char>>,
    start: usize,
    highlights: Seq<TextHighlight>,
    slots: Seq<EmojiSlotView>,
    width: usize,
    k: nat,
) -> (r: (Seq<(int, int)>, int, int))
    requires
        is_tame(parts, start),
        k <= parts.len(),
    ensures
        ({
            let st = wrap_clusters(parts, start, highlights, slots, width, k);
            &&& is_filling(st, parts, start, slots, r.1, r.2, k as int)
            &&& all_hold(st.lines, r.0, parts, start, slots)
            &&& all_lie(r.0, parts, start, slots, r.1)
        }),
    decreases k,
{
    if k == 0 {
        lemma_bytes(parts, 0, 0);
        assert(parts.take(0) =~= Seq::<Seq<char>>::empty());
        assert(parts.subrange(0, 0) =~= Seq::<Seq<char>>::empty());
        assert(concat(parts.subrange(0, 0)) =~= Seq::<char>::empty());
        crate::text::lemma_utf8_len_bounds(Seq::<char>::empty());
        (Seq::empty(), 0, 0)
    } else {
        let (cuts, a, m) = lemma_clusters(parts, start, highlights, slots, width, (k - 1) as nat);
        let st = wrap_clusters(parts, start, highlights, slots, width, (k - 1) as nat);
        lemma_step(st, highlights, parts, start, slots, width, cuts, a, m, k - 1)
    }
}

proof fn lemma_line(
    line: Seq<char>,
    start: usize,
    highlights: Seq<TextHighlight>,
    slots: Seq<EmojiSlotView>,
    width: usize,
) -> (cuts: Seq<(int, int)>)
    requires
        is_tame(graphemes(line), start),
        line.len() > 0,
    ensures
        all_hold(wrap_line(line, start, highlights, slots, width), cuts, graphemes(line), start, slots),
        all_lie(cuts, graphemes(line), start, slots, graphemes(line).len() as int),
{
    let parts = graphemes(line);
    let n = parts.len() as int;
    let (cuts, a, m) = lemma_clusters(parts, start, highlights, slots, width, parts.len());
    let st = wrap_clusters(parts, start, highlights, slots, width, parts.len());
    let w = line_of(st.text, st.start, st.end, highlights, st.slots);
    lemma_hold_push(st.lines, cuts, parts, start, slots, w, (a, n));
    lemma_lies_push(cuts, (a, n), parts, start, slots, n);
    cuts.push((a, n))
}

proof fn lemma_image_of(parts: Seq<Seq<char>>, start: usize, slots: Seq<EmojiSlotView>, from: int, to: int, j: int) -> (i: int)
    requires
        from <= j < to,
        slot_starting_at(slots, (start + bytes_before(parts, j)) as usize) is Some,
    ensures
        0 <= i < images(parts, start, slots, from, to).len(),
        images(parts, start, slots, from, to)[i] == image_at(
            parts,
            slot_starting_at(slots, (start + bytes_before(parts, j)) as usize)->0,
            from,
            j,
        ),
    decreases to - from,
{
    if j == to - 1 {
        images(parts, start, slots, from, to - 1).len() as int
    } else {
        lemma_image_of(parts, start, slots, from, to - 1, j)
    }
}

proof fn lemma_emoji_of(parts: Seq<Seq<char>>, start: usize, slots: Seq<EmojiSlotView>, from: int, to: int, i: int) -> (j: int)
    requires
        0 <= i < images(parts, start, slots, from, to).len(),
    ensures
        from <= j < to,
        slot_starting_at(slots, (start + bytes_before(parts, j)) as usize) is Some,
        images(parts, start, slots, from, to)[i] == image_at(
            parts,
            slot_starting_at(slots, (start + bytes_before(parts, j)) as usize)->0,
            from,
            j,
        ),
    decreases to - from,
{
    let before = images(parts, start, slots, from, to - 1);
    if i < before.len() {
        lemma_emoji_of(parts, start, slots, from, to - 1, i)
    } else {
        to - 1
    }
}

proof fn lemma_first_slot(slots: Seq<EmojiSlotView>, at: usize)
    ensures
        match slot_starting_at(slots, at) {
            Some(s) => slots.contains(s) && s.byte_start == at,
            None => forall|i: int| 0 <= i < slots.len() ==> (#[trigger] slots[i]).byte_start != at,
        },
    decreases slots.len(),
{
    if slots.len() > 0 {
        let rest = slots.drop_first();
        lemma_first_slot(rest, at);
        if slots[0].byte_start == at {
            assert(slots.contains(slots[0]));
        } else {
            match slot_starting_at(slots, at) {
                Some(s) => {
                    let i = choose|i: int| 0 <= i < rest.len() && rest[i] == s;
                    assert(slots[i + 1] == s);
                },
                None => {
                    assert forall|i: int| 0 <= i < slots.len() implies (#[trigger] slots[i]).byte_start != at by {
                        if i > 0 {
                            assert(rest[i - 1] == slots[i]);
                        }
                    }
                },
            }
        }
    }
}

/// Whether a line shows the image of an emoji that begins at cluster `j`: behind the bytes and the columns of the
/// clusters before it in the line, which begins at cluster `from`.
pub open spec fn shows_image(line: LineView, parts: Seq<Seq<char>>, slot: EmojiSlotView, from: int, j: int, i: int) -> bool {
    &&& 0 <= i < line.image_slots.len()
    &&& 0 <= from <= j < parts.len()
    &&& line.image_slots[i].url == slot.url
    &&& line.image_slots[i].byte_len == slot.byte_len
    &&& line.image_slots[i].display_width == slot.display_width
    &&& line.image_slots[i].byte_start == bytes_before(parts, j) - bytes_before(parts, from)
    &&& line.image_slots[i].col == columns_between(parts, from, j)
    &&& concat(parts.subrange(from, j)).len() <= line.text.len()
    &&& line.text.take(concat(parts.subrange(from, j)).len() as int) == concat(parts.subrange(from, j))
}

/// Every emoji of a text that begins with a cluster of it has its image in one of the lines, at the column and the
/// bytes where the cluster stands. The text has one line that is not longer than columns can be counted.
pub proof fn every_emoji_has_its_image(
    r: RenderedView,
    links: Seq<(usize, usize)>,
    width: usize,
    style: Style,
    ranges: Seq<StyledPrefix>,
    e: int,
    j: int,
) -> (at: (int, int, int))
    requires
        forall|i: int| 0 <= i < r.text.len() ==> #[trigger] r.text[i] != '\n',
        utf8_len(r.text) <= usize::MAX,
        concat(graphemes(r.text)) == r.text,
        columns_between(graphemes(r.text), 0, graphemes(r.text).len() as int) <= u16::MAX,
        0 <= j < graphemes(r.text).len(),
        0 <= e < r.emoji_slots.len(),
        r.emoji_slots[e].byte_start == bytes_before(graphemes(r.text), j),
        forall|i: int| 0 <= i < e ==> (#[trigger] r.emoji_slots[i]).byte_start != r.emoji_slots[e].byte_start,
    ensures
        ({
            let lines = content_lines(r, links, width, style, ranges);
            &&& 0 <= at.0 < lines.len()
            &&& shows_image(lines[at.0], graphemes(r.text), r.emoji_slots[e], at.1, j, at.2)
        }),
{
    let parts = graphemes(r.text);
    let n = parts.len() as int;
    let linked = with_links(r, links);
    let w = wrap_width(width);
    assert(parts.take(n) =~= parts);
    assert(r.text.len() > 0) by {
        if r.text.len() == 0 {
            assert(crate::unicode::is_plain(r.text));
            reveal(graphemes);
        }
    }
    lemma_single_line(r.text);
    let wrapped = wrap_line(r.text, 0, linked.highlights, linked.emoji_slots, w);
    assert(linked.text == r.text && linked.emoji_slots == r.emoji_slots);
    reveal_with_fuel(wrap_source_lines, 2);
    assert(wrapped_with_metadata(linked.text, linked.highlights, linked.emoji_slots, width) =~= wrapped);
    let slots = r.emoji_slots;
    let cuts = lemma_line(r.text, 0, linked.highlights, slots, w);
    lemma_bytes(parts, 0, j);
    lemma_bytes(parts, j, n);
    lemma_slot_is(slots, r.emoji_slots[e].byte_start, e);
    assert(0 + bytes_before(parts, j) == bytes_before(parts, j));
    assert(lies_in(cuts, j));
    let l = choose|l: int| 0 <= l < cuts.len() && (#[trigger] cuts[l]).0 <= j < cuts[l].1;
    let (from, to) = cuts[l];
    assert(holds(wrapped[l], parts, 0, slots, from, to));
    let i = lemma_image_of(parts, 0, slots, from, to, j);
    let lines = content_lines(r, links, width, style, ranges);
    assert(lines[l] == content_line(wrapped[l], style, ranges));
    lemma_bytes(parts, from, j);
    lemma_columns_within(parts, from, j);
    lemma_concat_middle(parts, from, j, to);
    let front = concat(parts.subrange(from, j));
    assert(lines[l].text.take(front.len() as int) =~= front);
    (l, from, i)
}

proof fn lemma_slot_is(slots: Seq<EmojiSlotView>, at: usize, e: int)
    requires
        0 <= e < slots.len(),
        slots[e].byte_start == at,
        forall|i: int| 0 <= i < e ==> (#[trigger] slots[i]).byte_start != at,
    ensures
        slot_starting_at(slots, at) == Some(slots[e]),
    decreases e,
{
    if e > 0 {
        let rest = slots.drop_first();
        assert(slots[0].byte_start != at);
        assert forall|i: int| 0 <= i < e - 1 implies (#[trigger] rest[i]).byte_start != at by {
            assert(rest[i] == slots[i + 1]);
        }
        lemma_slot_is(rest, at, e - 1);
    }
}

proof fn lemma_single_line(text: Seq<char>)
    requires
        forall|i: int| 0 <= i < text.len() ==> #[trigger] text[i] != '\n',
    ensures
        split_on(text, '\n') == seq![text],
{
    crate::text::lemma_first_index_is(text, '\n', text.len() as int);
}

/// Every image in the lines of a text is that of an emoji of the text.
pub proof fn every_image_is_of_an_emoji(
    r: RenderedView,
    links: Seq<(usize, usize)>,
    width: usize,
    style: Style,
    ranges: Seq<StyledPrefix>,
    l: int,
    i: int,
) -> (at: (int, int, int))
    requires
        forall|i: int| 0 <= i < r.text.len() ==> #[trigger] r.text[i] != '\n',
        utf8_len(r.text) <= usize::MAX,
        concat(graphemes(r.text)) == r.text,
        columns_between(graphemes(r.text), 0, graphemes(r.text).len() as int) <= u16::MAX,
        0 <= l < content_lines(r, links, width, style, ranges).len(),
        0 <= i < content_lines(r, links, width, style, ranges)[l].image_slots.len(),
    ensures
        0 <= at.0 < r.emoji_slots.len(),
        r.emoji_slots[at.0].byte_start == bytes_before(graphemes(r.text), at.2),
        shows_image(
            content_lines(r, links, width, style, ranges)[l],
            graphemes(r.text),
            r.emoji_slots[at.0],
            at.1,
            at.2,
            i,
        ),
{
    let parts = graphemes(r.text);
    let n = parts.len() as int;
    let linked = with_links(r, links);
    let w = wrap_width(width);
    assert(parts.take(n) =~= parts);
    assert(linked.text == r.text && linked.emoji_slots == r.emoji_slots);
    let lines = content_lines(r, links, width, style, ranges);
    assert(r.text.len() > 0) by {
        if r.text.len() == 0 {
            assert(lines.len() == 0);
        }
    }
    lemma_single_line(r.text);
    let wrapped = wrap_line(r.text, 0, linked.highlights, linked.emoji_slots, w);
    reveal_with_fuel(wrap_source_lines, 2);
    assert(wrapped_with_metadata(linked.text, linked.highlights, linked.emoji_slots, width) =~= wrapped);
    let slots = r.emoji_slots;
    let cuts = lemma_line(r.text, 0, linked.highlights, slots, w);
    let (from, to) = cuts[l];
    assert(holds(wrapped[l], parts, 0, slots, from, to));
    assert(lines[l] == content_line(wrapped[l], style, ranges));
    let j = lemma_emoji_of(parts, 0, slots, from, to, i);
    lemma_bytes(parts, 0, j);
    lemma_bytes(parts, j, n);
    lemma_first_slot(slots, (0 + bytes_before(parts, j)) as usize);
    let slot = slot_starting_at(slots, (0 + bytes_before(parts, j)) as usize)->0;
    let e = choose|e: int| 0 <= e < slots.len() && slots[e] == slot;
    lemma_bytes(parts, from, j);
    lemma_columns_within(parts, from, j);
    lemma_concat_middle(parts, from, j, to);
    let front = concat(parts.subrange(from, j));
    assert(lines[l].text.take(front.len() as int) =~= front);
    (e, from, j)
}

} // verus!
