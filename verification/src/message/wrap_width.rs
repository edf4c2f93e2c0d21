//! That wrapped lines fit into their width.

use crate::message::rendered::{EmojiSlotView, TextHighlight};
use crate::message::wrap::{
    break_at_separator, break_before, clusters_of, fill, fill_step, note_word_start, overflows, take_cluster,
    wrap_clusters, wrap_line, wrap_step, Cluster, WrapState, WrappedView,
};
use crate::text::concat;
use crate::unicode::{all_space, display_width, graphemes};
use vstd::prelude::*;

verus! {

/// The columns of some clusters.
pub open spec fn columns(parts: Seq<Seq<char>>) -> int
    decreases parts.len(),
{
    if parts.len() == 0 {
        0
    } else {
        columns(parts.drop_last()) + display_width(parts.last())
    }
}

/// How many clusters take any columns at all.
pub open spec fn visible(parts: Seq<Seq<char>>) -> int
    decreases parts.len(),
{
    if parts.len() == 0 {
        0
    } else {
        visible(parts.drop_last()) + (if display_width(parts.last()) > 0 {
            1int
        } else {
            0
        })
    }
}

/// Whether clusters fit into a width, or are one that cannot be broken.
pub open spec fn fits(parts: Seq<Seq<char>>, width: usize) -> bool {
    columns(parts) <= width || visible(parts) <= 1
}

pub(crate) proof fn lemma_step(parts: Seq<Seq<char>>, a: int, k: int)
    requires
        0 <= a <= k < parts.len(),
    ensures
        parts.subrange(a, k + 1).drop_last() == parts.subrange(a, k),
        parts.subrange(a, k + 1).last() == parts[k],
        columns(parts.subrange(a, k + 1)) == columns(parts.subrange(a, k)) + display_width(parts[k]),
        concat(parts.subrange(a, k + 1)) == concat(parts.subrange(a, k)) + parts[k],
{
    assert(parts.subrange(a, k + 1).drop_last() =~= parts.subrange(a, k));
}

pub(crate) proof fn lemma_columns_bounds(parts: Seq<Seq<char>>)
    ensures
        0 <= columns(parts),
        0 <= visible(parts),
        visible(parts) <= columns(parts),
        visible(parts) == 0 ==> columns(parts) == 0,
        visible(parts) <= 1 ==> columns(parts) <= usize::MAX,
    decreases parts.len(),
{
    if parts.len() > 0 {
        lemma_columns_bounds(parts.drop_last());
    }
}

/// Whether each line holds the clusters of its cut, and they fit.
pub open spec fn lines_hold(lines: Seq<Seq<char>>, parts: Seq<Seq<char>>, cuts: Seq<(int, int)>, width: usize) -> bool {
    &&& lines.len() == cuts.len()
    &&& forall|i: int|
        #![trigger cuts[i]]
        0 <= i < cuts.len() ==> {
            &&& 0 <= cuts[i].0 <= cuts[i].1 <= parts.len()
            &&& lines[i] == concat(parts.subrange(cuts[i].0, cuts[i].1))
            &&& fits(parts.subrange(cuts[i].0, cuts[i].1), width)
        }
}

proof fn lemma_fill(parts: Seq<Seq<char>>, width: usize, k: int) -> (r: (Seq<(int, int)>, int))
    requires
        0 <= k <= parts.len(),
        width < usize::MAX,
    ensures
        ({
            let st = fill(parts.take(k), width);
            let rest = parts.subrange(r.1, k);
            &&& lines_hold(st.lines, parts, r.0, width)
            &&& 0 <= r.1 <= k
            &&& st.current == concat(rest)
            &&& st.width == columns(rest)
            &&& fits(rest, width)
        }),
    decreases k,
{
    if k == 0 {
        assert(parts.take(0) =~= Seq::<Seq<char>>::empty());
        assert(parts.subrange(0, 0) =~= Seq::<Seq<char>>::empty());
        (seq![], 0)
    } else {
        let (cuts, a) = lemma_fill(parts, width, k - 1);
        assert(parts.take(k).drop_last() =~= parts.take(k - 1));
        assert(parts.take(k).last() == parts[k - 1]);
        let st = fill(parts.take(k - 1), width);
        let w = display_width(parts[k - 1]);
        assert(fill(parts.take(k), width) == fill_step(st, parts[k - 1], width));
        lemma_step(parts, a, k - 1);
        lemma_columns_bounds(parts.subrange(a, k - 1));
        lemma_columns_bounds(parts.subrange(a, k));
        if st.width > 0 && w > 0 && columns(parts.subrange(a, k - 1)) + w > width {
            let done = cuts.push((a, k - 1));
            let lines = fill(parts.take(k), width).lines;
            assert forall|i: int| #![trigger done[i]] 0 <= i < done.len() implies {
                &&& 0 <= done[i].0 <= done[i].1 <= parts.len()
                &&& lines[i] == concat(parts.subrange(done[i].0, done[i].1))
                &&& fits(parts.subrange(done[i].0, done[i].1), width)
            } by {
                if i < cuts.len() {
                    assert(done[i] == cuts[i]);
                }
            }
            assert(parts.subrange(k - 1, k - 1) =~= Seq::<Seq<char>>::empty());
            lemma_step(parts, k - 1, k - 1);
            assert(Seq::<char>::empty() + parts[k - 1] =~= parts[k - 1]);
            assert(concat(Seq::<Seq<char>>::empty()) =~= Seq::<char>::empty());
            assert(visible(Seq::<Seq<char>>::empty()) == 0);
            (done, k - 1)
        } else {
            (cuts, a)
        }
    }
}

/// Lines that are broken between clusters fit into their width: each holds some of the clusters, one
/// behind the other, and takes no more columns than there are, unless it is a single cluster that is wider.
pub proof fn filled_lines_fit(parts: Seq<Seq<char>>, width: usize) -> (cuts: Seq<(int, int)>)
    requires
        width < usize::MAX,
    ensures
        ({
            let st = fill(parts, width);
            lines_hold(st.lines.push(st.current), parts, cuts, width)
        }),
{
    let n = parts.len() as int;
    assert(parts.take(n) =~= parts);
    let (cuts, a) = lemma_fill(parts, width, n);
    let all = cuts.push((a, n));
    let st = fill(parts, width);
    let lines = st.lines.push(st.current);
    assert forall|i: int| #![trigger all[i]] 0 <= i < all.len() implies {
        &&& 0 <= all[i].0 <= all[i].1 <= parts.len()
        &&& lines[i] == concat(parts.subrange(all[i].0, all[i].1))
        &&& fits(parts.subrange(all[i].0, all[i].1), width)
    } by {
        if i < cuts.len() {
            assert(all[i] == cuts[i]);
        }
    }
    all
}

// ---- Lines broken at words ----

/// Whether every cluster takes one or two columns, and none begins an emoji place.
pub open spec fn plain_clusters(parts: Seq<Seq<char>>, start: usize, slots: Seq<EmojiSlotView>) -> bool {
    forall|k: int|
        0 <= k < parts.len() ==> 1 <= display_width(#[trigger] parts[k]) <= 2 && clusters_of(
            parts,
            start,
            slots,
            k,
        ).slot is None
}

/// Whether clusters fit into a width, or are one.
pub open spec fn fits_or_is_one(parts: Seq<Seq<char>>, width: usize) -> bool {
    columns(parts) <= width || parts.len() <= 1
}

pub open spec fn texts_of(lines: Seq<WrappedView>) -> Seq<Seq<char>> {
    lines.map_values(|l: WrappedView| l.text)
}

/// Whether each line holds the clusters of its cut, and they fit.
pub open spec fn lines_fit(lines: Seq<Seq<char>>, parts: Seq<Seq<char>>, cuts: Seq<(int, int)>, width: usize) -> bool {
    &&& lines.len() == cuts.len()
    &&& forall|i: int|
        #![trigger cuts[i]]
        0 <= i < cuts.len() ==> {
            &&& 0 <= cuts[i].0 <= cuts[i].1 <= parts.len()
            &&& lines[i] == concat(parts.subrange(cuts[i].0, cuts[i].1))
            &&& fits_or_is_one(parts.subrange(cuts[i].0, cuts[i].1), width)
        }
}

proof fn lemma_lines_fit_push(
    lines: Seq<Seq<char>>,
    parts: Seq<Seq<char>>,
    cuts: Seq<(int, int)>,
    width: usize,
    line: Seq<char>,
    cut: (int, int),
)
    requires
        lines_fit(lines, parts, cuts, width),
        0 <= cut.0 <= cut.1 <= parts.len(),
        line == concat(parts.subrange(cut.0, cut.1)),
        fits_or_is_one(parts.subrange(cut.0, cut.1), width),
    ensures
        lines_fit(lines.push(line), parts, cuts.push(cut), width),
{
    let all = cuts.push(cut);
    let pushed = lines.push(line);
    assert forall|i: int| #![trigger all[i]] 0 <= i < all.len() implies {
        &&& 0 <= all[i].0 <= all[i].1 <= parts.len()
        &&& pushed[i] == concat(parts.subrange(all[i].0, all[i].1))
        &&& fits_or_is_one(parts.subrange(all[i].0, all[i].1), width)
    } by {
        if i < cuts.len() {
            assert(all[i] == cuts[i]);
        }
    }
}

pub(crate) proof fn lemma_columns_split(parts: Seq<Seq<char>>, a: int, m: int, k: int)
    requires
        0 <= a <= m <= k <= parts.len(),
    ensures
        columns(parts.subrange(a, k)) == columns(parts.subrange(a, m)) + columns(parts.subrange(m, k)),
        concat(parts.subrange(a, k)) == concat(parts.subrange(a, m)) + concat(parts.subrange(m, k)),
    decreases k - m,
{
    if k > m {
        lemma_columns_split(parts, a, m, k - 1);
        lemma_step(parts, a, k - 1);
        lemma_step(parts, m, k - 1);
        assert(concat(parts.subrange(a, k)) =~= concat(parts.subrange(a, m)) + concat(parts.subrange(m, k)));
    } else {
        assert(parts.subrange(m, k) =~= Seq::<Seq<char>>::empty());
        assert(concat(parts.subrange(m, k)) =~= Seq::<char>::empty());
        assert(concat(parts.subrange(a, k)) =~= concat(parts.subrange(a, m)) + Seq::<char>::empty());
    }
}

/// Clusters of at least one column each take at least as many columns as they are.
proof fn lemma_columns_count(parts: Seq<Seq<char>>, a: int, k: int)
    requires
        0 <= a <= k <= parts.len(),
        forall|i: int| 0 <= i < parts.len() ==> 1 <= display_width(#[trigger] parts[i]),
    ensures
        columns(parts.subrange(a, k)) >= k - a,
    decreases k - a,
{
    if k > a {
        lemma_columns_count(parts, a, k - 1);
        lemma_step(parts, a, k - 1);
    }
}

proof fn lemma_concat_nonempty(parts: Seq<Seq<char>>, a: int, k: int)
    requires
        0 <= a <= k <= parts.len(),
    ensures
        a == k ==> concat(parts.subrange(a, k)).len() == 0,
{
    if a == k {
        assert(parts.subrange(a, k) =~= Seq::<Seq<char>>::empty());
    }
}

/// The line being filled holds the clusters from `a` to `k`; its last word begins at cluster `m`.
spec fn filling(st: WrapState, parts: Seq<Seq<char>>, a: int, m: int, k: int, width: usize) -> bool {
    &&& 0 <= a <= k <= parts.len()
    &&& st.text == concat(parts.subrange(a, k))
    &&& st.width == columns(parts.subrange(a, k))
    &&& fits_or_is_one(parts.subrange(a, k), width)
    &&& st.after_space && k > a ==> all_space(parts[k - 1])
    &&& st.boundary matches Some(b) ==> {
        &&& a + 2 <= m <= k
        &&& b.chars == concat(parts.subrange(a, m)).len()
        &&& b.width == columns(parts.subrange(a, m))
    }
}

/// Noting where a word begins keeps what is known of the line.
proof fn lemma_note(st: WrapState, c: Cluster, parts: Seq<Seq<char>>, a: int, m: int, k: int, width: usize) -> (r: int)
    requires
        filling(st, parts, a, m, k, width),
    ensures
        filling(note_word_start(st, c), parts, a, r, k, width),
{
    if !c.is_separator() && st.after_space && !all_space(st.text) {
        lemma_concat_nonempty(parts, a, k);
        // The line holds something before the white space at its end.
        if k == a + 1 {
            lemma_step(parts, a, a);
            assert(parts.subrange(a, a) =~= Seq::<Seq<char>>::empty());
            assert(concat(parts.subrange(a, a)) =~= Seq::<char>::empty());
            assert(st.text =~= parts[a]);
        }
        assert(a + 2 <= k);
        k
    } else {
        m
    }
}

/// A cluster that there is room for.
proof fn lemma_room(st: WrapState, c: Cluster, parts: Seq<Seq<char>>, a: int, m: int, k: int, width: usize)
    requires
        filling(st, parts, a, m, k, width),
        k < parts.len(),
        c.text == parts[k],
        c.slot is None,
        forall|i: int| 0 <= i < parts.len() ==> 1 <= display_width(#[trigger] parts[i]),
        width < usize::MAX,
        !overflows(st, c, width),
    ensures
        filling(take_cluster(st, c), parts, a, m, k + 1, width),
{
    lemma_step(parts, a, k);
    lemma_columns_count(parts, a, k);
    assert(display_width(parts[k]) >= 1);
    if st.width == 0 {
        assert(a == k);
    }
}

/// White space that there is no room for ends the line.
proof fn lemma_separator(
    st: WrapState,
    c: Cluster,
    highlights: Seq<TextHighlight>,
    parts: Seq<Seq<char>>,
    cuts: Seq<(int, int)>,
    a: int,
    m: int,
    k: int,
    width: usize,
)
    requires
        filling(st, parts, a, m, k, width),
        lines_fit(texts_of(st.lines), parts, cuts, width),
        k < parts.len(),
        c.text == parts[k],
    ensures
        filling(break_at_separator(st, c, highlights), parts, k + 1, k + 1, k + 1, width),
        lines_fit(texts_of(break_at_separator(st, c, highlights).lines), parts, cuts.push((a, k)), width),
{
    let end = break_at_separator(st, c, highlights);
    lemma_lines_fit_push(texts_of(st.lines), parts, cuts, width, st.text, (a, k));
    assert(texts_of(end.lines) =~= texts_of(st.lines).push(st.text));
    assert(parts.subrange(k + 1, k + 1) =~= Seq::<Seq<char>>::empty());
    assert(concat(parts.subrange(k + 1, k + 1)) =~= Seq::<char>::empty());
}

/// The last word moves to the next line, and the cluster that there was no room for behind it.
proof fn lemma_word_moves(
    st: WrapState,
    c: Cluster,
    highlights: Seq<TextHighlight>,
    parts: Seq<Seq<char>>,
    cuts: Seq<(int, int)>,
    a: int,
    m: int,
    k: int,
    width: usize,
)
    requires
        filling(st, parts, a, m, k, width),
        lines_fit(texts_of(st.lines), parts, cuts, width),
        k < parts.len(),
        c.text == parts[k],
        c.slot is None,
        !c.is_separator(),
        forall|i: int| 0 <= i < parts.len() ==> 1 <= display_width(#[trigger] parts[i]) <= 2,
        st.boundary is Some,
        (st.boundary->0).chars < st.text.len(),
    ensures
        filling(take_cluster(break_before(st, c, highlights, width), c), parts, m, m, k + 1, width),
        lines_fit(texts_of(break_before(st, c, highlights, width).lines), parts, cuts.push((a, m)), width),
{
    let b = st.boundary->0;
    let broken = break_before(st, c, highlights, width);
    lemma_columns_split(parts, a, m, k);
    lemma_columns_count(parts, a, m);
    lemma_columns_count(parts, m, k);
    let head = concat(parts.subrange(a, m));
    assert(st.text.take(b.chars) =~= head);
    assert(st.text.skip(b.chars) =~= concat(parts.subrange(m, k)));
    assert(columns(parts.subrange(a, k)) <= width);
    lemma_lines_fit_push(texts_of(st.lines), parts, cuts, width, head, (a, m));
    assert(texts_of(broken.lines) =~= texts_of(st.lines).push(head));
    lemma_step(parts, m, k);
    assert(1 <= display_width(parts[k]) <= 2);
    assert(broken.width == columns(parts.subrange(m, k)));
}

/// Without a word to move, the line ends where it stands.
proof fn lemma_line_ends(
    st: WrapState,
    c: Cluster,
    highlights: Seq<TextHighlight>,
    parts: Seq<Seq<char>>,
    cuts: Seq<(int, int)>,
    a: int,
    m: int,
    k: int,
    width: usize,
)
    requires
        filling(st, parts, a, m, k, width),
        lines_fit(texts_of(st.lines), parts, cuts, width),
        k < parts.len(),
        c.text == parts[k],
        c.slot is None,
        !c.is_separator(),
        !(st.boundary is Some && (st.boundary->0).chars < st.text.len()),
    ensures
        filling(take_cluster(break_before(st, c, highlights, width), c), parts, k, k, k + 1, width),
        lines_fit(texts_of(break_before(st, c, highlights, width).lines), parts, cuts.push((a, k)), width),
{
    let broken = break_before(st, c, highlights, width);
    lemma_lines_fit_push(texts_of(st.lines), parts, cuts, width, st.text, (a, k));
    assert(texts_of(broken.lines) =~= texts_of(st.lines).push(st.text));
    assert(parts.subrange(k, k) =~= Seq::<Seq<char>>::empty());
    assert(concat(parts.subrange(k, k)) =~= Seq::<char>::empty());
    lemma_step(parts, k, k);
    assert(columns(Seq::<Seq<char>>::empty()) == 0);
}

proof fn lemma_wrap(
    parts: Seq<Seq<char>>,
    start: usize,
    highlights: Seq<TextHighlight>,
    slots: Seq<EmojiSlotView>,
    width: usize,
    k: nat,
) -> (r: (Seq<(int, int)>, int, int))
    requires
        k <= parts.len(),
        0 < width < usize::MAX,
        plain_clusters(parts, start, slots),
    ensures
        ({
            let st = wrap_clusters(parts, start, highlights, slots, width, k);
            &&& lines_fit(texts_of(st.lines), parts, r.0, width)
            &&& filling(st, parts, r.1, r.2, k as int, width)
        }),
    decreases k,
{
    if k == 0 {
        assert(parts.subrange(0, 0) =~= Seq::<Seq<char>>::empty());
        assert(concat(parts.subrange(0, 0)) =~= Seq::<char>::empty());
        (seq![], 0, 0)
    } else {
        let j = (k - 1) as int;
        let (cuts, a, m0) = lemma_wrap(parts, start, highlights, slots, width, (k - 1) as nat);
        let st0 = wrap_clusters(parts, start, highlights, slots, width, (k - 1) as nat);
        let c = clusters_of(parts, start, slots, j);
        assert(display_width(parts[j]) >= 1);
        let m = lemma_note(st0, c, parts, a, m0, j, width);
        let st = note_word_start(st0, c);
        assert(wrap_clusters(parts, start, highlights, slots, width, k) == wrap_step(st0, c, highlights, width));
        if !overflows(st, c, width) {
            lemma_room(st, c, parts, a, m, j, width);
            (cuts, a, m)
        } else if c.is_separator() {
            lemma_separator(st, c, highlights, parts, cuts, a, m, j, width);
            (cuts.push((a, j)), k as int, k as int)
        } else if st.boundary is Some && (st.boundary->0).chars < st.text.len() {
            lemma_word_moves(st, c, highlights, parts, cuts, a, m, j, width);
            (cuts.push((a, m)), m, m)
        } else {
            lemma_line_ends(st, c, highlights, parts, cuts, a, m, j, width);
            (cuts.push((a, j)), j, j)
        }
    }
}

/// Lines that are broken at words fit into their width: each holds some of the clusters, one behind the
/// other, and takes no more columns than there are, unless it is a single cluster that is wider. The text
/// has clusters of one or two columns, and no emoji place begins in it.
pub proof fn wrapped_lines_fit(
    line: Seq<char>,
    start: usize,
    highlights: Seq<TextHighlight>,
    slots: Seq<EmojiSlotView>,
    width: usize,
) -> (cuts: Seq<(int, int)>)
    requires
        line.len() > 0,
        0 < width < usize::MAX,
        plain_clusters(graphemes(line), start, slots),
    ensures
        lines_fit(texts_of(wrap_line(line, start, highlights, slots, width)), graphemes(line), cuts, width),
{
    let parts = graphemes(line);
    let n = parts.len() as int;
    let (cuts, a, _) = lemma_wrap(parts, start, highlights, slots, width, parts.len());
    let st = wrap_clusters(parts, start, highlights, slots, width, parts.len());
    lemma_lines_fit_push(texts_of(st.lines), parts, cuts, width, st.text, (a, n));
    assert(texts_of(wrap_line(line, start, highlights, slots, width)) =~= texts_of(st.lines).push(st.text));
    cuts.push((a, n))
}

} // verus!
