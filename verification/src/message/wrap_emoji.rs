//! That no emoji is broken across lines.

use crate::message::rendered::{EmojiSlotView, TextHighlight};
use crate::message::wrap::{
    break_at_separator, clusters_of, end_line, move_word, note_word_start, overflows, take_cluster,
    wrap_clusters, wrap_line, wrap_step, Cluster, WrapState,
};
use crate::message::wrap_width::{columns, lemma_columns_bounds, lemma_columns_split, lemma_step, texts_of};
use crate::text::concat;
use crate::unicode::{all_space, display_width, graphemes};
use vstd::prelude::*;

verus! {

/// Whether an emoji place begins at cluster `e` and its text ends before cluster `f`: the text is as wide
/// as the place, fits into a line, and holds neither white space nor the beginning of another place.
pub open spec fn emoji_at(
    parts: Seq<Seq<char>>,
    start: usize,
    slots: Seq<EmojiSlotView>,
    width: usize,
    e: int,
    f: int,
) -> bool {
    &&& 0 <= e < f <= parts.len()
    &&& clusters_of(parts, start, slots, e).slot matches Some(slot) && slot.display_width == columns(
        parts.subrange(e, f),
    ) && slot.display_width <= width
    &&& forall|i: int|
        e < i < f ==> !all_space(#[trigger] parts[i]) && clusters_of(parts, start, slots, i).slot is None
}

/// Whether a place among the clusters is not within an emoji.
pub open spec fn outside(x: int, e: int, f: int) -> bool {
    x <= e || f <= x
}

/// Whether each line holds the clusters of its cut, and none begins or ends within an emoji.
pub open spec fn cut_outside(lines: Seq<Seq<char>>, parts: Seq<Seq<char>>, cuts: Seq<(int, int)>, e: int, f: int) -> bool {
    &&& lines.len() == cuts.len()
    &&& forall|i: int|
        #![trigger cuts[i]]
        0 <= i < cuts.len() ==> {
            &&& 0 <= cuts[i].0 <= cuts[i].1 <= parts.len()
            &&& lines[i] == concat(parts.subrange(cuts[i].0, cuts[i].1))
            &&& outside(cuts[i].0, e, f)
            &&& outside(cuts[i].1, e, f)
        }
}

proof fn lemma_cut_push(
    lines: Seq<Seq<char>>,
    parts: Seq<Seq<char>>,
    cuts: Seq<(int, int)>,
    e: int,
    f: int,
    line: Seq<char>,
    cut: (int, int),
)
    requires
        cut_outside(lines, parts, cuts, e, f),
        0 <= cut.0 <= cut.1 <= parts.len(),
        line == concat(parts.subrange(cut.0, cut.1)),
        outside(cut.0, e, f),
        outside(cut.1, e, f),
    ensures
        cut_outside(lines.push(line), parts, cuts.push(cut), e, f),
{
    let all = cuts.push(cut);
    let pushed = lines.push(line);
    assert forall|i: int| #![trigger all[i]] 0 <= i < all.len() implies {
        &&& 0 <= all[i].0 <= all[i].1 <= parts.len()
        &&& pushed[i] == concat(parts.subrange(all[i].0, all[i].1))
        &&& outside(all[i].0, e, f)
        &&& outside(all[i].1, e, f)
    } by {
        if i < cuts.len() {
            assert(all[i] == cuts[i]);
        }
    }
}

/// The line being filled holds the clusters from `a` to `k`; its last word begins at cluster `m`. Within an
/// emoji there is room for the rest of it.
spec fn filling(st: WrapState, parts: Seq<Seq<char>>, a: int, m: int, k: int, width: usize, e: int, f: int) -> bool {
    &&& 0 <= a <= k <= parts.len()
    &&& st.text == concat(parts.subrange(a, k))
    &&& outside(a, e, f)
    &&& st.boundary matches Some(b) ==> {
        &&& a <= m <= k
        &&& b.chars == concat(parts.subrange(a, m)).len()
        &&& outside(m, e, f)
    }
    &&& e < k < f ==> !st.after_space && room(st, parts, k, width, f)
}

/// Whether there is room for the clusters from `k` to `f`.
spec fn room(st: WrapState, parts: Seq<Seq<char>>, k: int, width: usize, f: int) -> bool {
    columns(parts.subrange(k, f)) == 0 || st.width + columns(parts.subrange(k, f)) <= width
}

/// Taking the first cluster of some leaves room for the others.
proof fn lemma_take_room(st: WrapState, c: Cluster, parts: Seq<Seq<char>>, k: int, width: usize, f: int)
    requires
        0 <= k < f <= parts.len(),
        c.text == parts[k],
        room(st, parts, k, width, f),
    ensures
        room(take_cluster(st, c), parts, k + 1, width, f),
        columns(parts.subrange(k, f)) == display_width(parts[k]) + columns(parts.subrange(k + 1, f)),
{
    lemma_columns_split(parts, k, k + 1, f);
    lemma_step(parts, k, k);
    assert(parts.subrange(k, k) =~= Seq::<Seq<char>>::empty());
    assert(columns(Seq::<Seq<char>>::empty()) == 0);
    lemma_columns_bounds(parts.subrange(k + 1, f));
}

/// A cluster within an emoji joins the line.
proof fn lemma_inside(
    st: WrapState,
    c: Cluster,
    parts: Seq<Seq<char>>,
    a: int,
    m: int,
    k: int,
    width: usize,
    e: int,
    f: int,
)
    requires
        filling(st, parts, a, m, k, width, e, f),
        0 <= e < k < f <= parts.len(),
        c.text == parts[k],
        c.slot is None,
        !all_space(parts[k]),
        width < usize::MAX,
    ensures
        note_word_start(st, c) == st,
        !overflows(st, c, width),
        filling(take_cluster(st, c), parts, a, m, k + 1, width, e, f),
{
    lemma_take_room(st, c, parts, k, width, f);
    lemma_columns_bounds(parts.subrange(k + 1, f));
    lemma_step(parts, a, k);
}

/// The word that a cluster begins is noted.
proof fn lemma_note(
    st: WrapState,
    c: Cluster,
    parts: Seq<Seq<char>>,
    a: int,
    m: int,
    k: int,
    width: usize,
    e: int,
    f: int,
) -> (r: int)
    requires
        filling(st, parts, a, m, k, width, e, f),
        outside(k, e, f),
    ensures
        filling(note_word_start(st, c), parts, a, r, k, width, e, f),
{
    if !c.is_separator() && st.after_space && !all_space(st.text) {
        k
    } else {
        m
    }
}

/// The line is finished where it stands.
proof fn lemma_end(
    st: WrapState,
    c: Cluster,
    highlights: Seq<TextHighlight>,
    parts: Seq<Seq<char>>,
    cuts: Seq<(int, int)>,
    a: int,
    m: int,
    k: int,
    width: usize,
    e: int,
    f: int,
)
    requires
        filling(st, parts, a, m, k, width, e, f),
        cut_outside(texts_of(st.lines), parts, cuts, e, f),
        outside(k, e, f),
    ensures
        filling(end_line(st, c, highlights), parts, k, k, k, width, e, f),
        cut_outside(texts_of(end_line(st, c, highlights).lines), parts, cuts.push((a, k)), e, f),
{
    let ended = end_line(st, c, highlights);
    lemma_cut_push(texts_of(st.lines), parts, cuts, e, f, st.text, (a, k));
    assert(texts_of(ended.lines) =~= texts_of(st.lines).push(st.text));
    assert(parts.subrange(k, k) =~= Seq::<Seq<char>>::empty());
    assert(concat(parts.subrange(k, k)) =~= Seq::<char>::empty());
}

/// The line is finished before its last word or where it stands.
proof fn lemma_move(
    st: WrapState,
    c: Cluster,
    highlights: Seq<TextHighlight>,
    parts: Seq<Seq<char>>,
    cuts: Seq<(int, int)>,
    a: int,
    m: int,
    k: int,
    width: usize,
    e: int,
    f: int,
) -> (r: (Seq<(int, int)>, int))
    requires
        filling(st, parts, a, m, k, width, e, f),
        cut_outside(texts_of(st.lines), parts, cuts, e, f),
        outside(k, e, f),
    ensures
        filling(move_word(st, c, highlights), parts, r.1, r.1, k, width, e, f),
        cut_outside(texts_of(move_word(st, c, highlights).lines), parts, r.0, e, f),
{
    let moved = move_word(st, c, highlights);
    if st.boundary is Some && (st.boundary->0).chars < st.text.len() {
        let b = st.boundary->0;
        let head = concat(parts.subrange(a, m));
        lemma_columns_split(parts, a, m, k);
        assert(st.text.take(b.chars) =~= head);
        assert(st.text.skip(b.chars) =~= concat(parts.subrange(m, k)));
        lemma_cut_push(texts_of(st.lines), parts, cuts, e, f, head, (a, m));
        assert(texts_of(moved.lines) =~= texts_of(st.lines).push(head));
        (cuts.push((a, m)), m)
    } else {
        lemma_end(st, c, highlights, parts, cuts, a, m, k, width, e, f);
        (cuts.push((a, k)), k)
    }
}

/// A cluster that does not lie within the emoji joins the line. If it begins the emoji, there is room for
/// the whole of it.
proof fn lemma_join(
    st: WrapState,
    c: Cluster,
    parts: Seq<Seq<char>>,
    a: int,
    m: int,
    k: int,
    width: usize,
    e: int,
    f: int,
)
    requires
        filling(st, parts, a, m, k, width, e, f),
        outside(k, e, f),
        0 <= e < f <= parts.len(),
        k < parts.len(),
        c.text == parts[k],
        k == e ==> c.slot is Some && room(st, parts, k, width, f),
    ensures
        filling(take_cluster(st, c), parts, a, m, k + 1, width, e, f),
{
    lemma_step(parts, a, k);
    if k == e {
        lemma_take_room(st, c, parts, k, width, f);
    }
}

proof fn lemma_whole(
    parts: Seq<Seq<char>>,
    start: usize,
    highlights: Seq<TextHighlight>,
    slots: Seq<EmojiSlotView>,
    width: usize,
    e: int,
    f: int,
    k: nat,
) -> (r: (Seq<(int, int)>, int, int))
    requires
        k <= parts.len(),
        width < usize::MAX,
        emoji_at(parts, start, slots, width, e, f),
    ensures
        ({
            let st = wrap_clusters(parts, start, highlights, slots, width, k);
            &&& cut_outside(texts_of(st.lines), parts, r.0, e, f)
            &&& filling(st, parts, r.1, r.2, k as int, width, e, f)
        }),
    decreases k,
{
    if k == 0 {
        assert(parts.subrange(0, 0) =~= Seq::<Seq<char>>::empty());
        assert(concat(parts.subrange(0, 0)) =~= Seq::<char>::empty());
        (seq![], 0, 0)
    } else {
        let j = (k - 1) as int;
        let (cuts, a, m0) = lemma_whole(parts, start, highlights, slots, width, e, f, (k - 1) as nat);
        let st0 = wrap_clusters(parts, start, highlights, slots, width, (k - 1) as nat);
        let c = clusters_of(parts, start, slots, j);
        assert(wrap_clusters(parts, start, highlights, slots, width, k) == wrap_step(st0, c, highlights, width));
        if e < j < f {
            assert(!all_space(parts[j]));
            lemma_inside(st0, c, parts, a, m0, j, width, e, f);
            (cuts, a, m0)
        } else {
            let m = lemma_note(st0, c, parts, a, m0, j, width, e, f);
            let st = note_word_start(st0, c);
            lemma_columns_bounds(parts.subrange(e, f));
            if !overflows(st, c, width) {
                lemma_join(st, c, parts, a, m, j, width, e, f);
                (cuts, a, m)
            } else if c.is_separator() {
                let ended = break_at_separator(st, c, highlights);
                lemma_cut_push(texts_of(st.lines), parts, cuts, e, f, st.text, (a, j));
                assert(texts_of(ended.lines) =~= texts_of(st.lines).push(st.text));
                assert(parts.subrange(j + 1, j + 1) =~= Seq::<Seq<char>>::empty());
                assert(concat(parts.subrange(j + 1, j + 1)) =~= Seq::<char>::empty());
                (cuts.push((a, j)), j + 1, j + 1)
            } else {
                let moved = move_word(st, c, highlights);
                let (cuts2, a2) = lemma_move(st, c, highlights, parts, cuts, a, m, j, width, e, f);
                if c.slot is Some && overflows(moved, c, width) {
                    lemma_end(moved, c, highlights, parts, cuts2, a2, a2, j, width, e, f);
                    let ended = end_line(moved, c, highlights);
                    lemma_join(ended, c, parts, j, j, j, width, e, f);
                    (cuts2.push((a2, j)), j, j)
                } else {
                    lemma_join(moved, c, parts, a2, a2, j, width, e, f);
                    (cuts2, a2, a2)
                }
            }
        }
    }
}

/// No emoji is broken: each line of a source line holds some of its clusters, one behind the other, and no
/// line begins or ends within the text of an emoji that fits into a line.
pub proof fn emojis_stay_whole(
    line: Seq<char>,
    start: usize,
    highlights: Seq<TextHighlight>,
    slots: Seq<EmojiSlotView>,
    width: usize,
    e: int,
    f: int,
) -> (cuts: Seq<(int, int)>)
    requires
        width < usize::MAX,
        emoji_at(graphemes(line), start, slots, width, e, f),
    ensures
        line.len() > 0 ==> cut_outside(
            texts_of(wrap_line(line, start, highlights, slots, width)),
            graphemes(line),
            cuts,
            e,
            f,
        ),
{
    let parts = graphemes(line);
    let n = parts.len() as int;
    let (cuts, a, _) = lemma_whole(parts, start, highlights, slots, width, e, f, parts.len());
    let st = wrap_clusters(parts, start, highlights, slots, width, parts.len());
    lemma_cut_push(texts_of(st.lines), parts, cuts, e, f, st.text, (a, n));
    if line.len() > 0 {
        assert(texts_of(wrap_line(line, start, highlights, slots, width)) =~= texts_of(st.lines).push(st.text));
    }
    cuts.push((a, n))
}

} // verus!
