//! Which images are sent to the terminal again, and which are left as they are.
//!
//! An image is remembered by the rectangle it was drawn in and a fingerprint of what it shows. Where
//! both are as they were in the frame before, and nothing was drawn over it, its cells are skipped.

use crate::geometry::Rect;
use vstd::prelude::*;

verus! {

/// A cell that holds the escape sequence of an image holds at least this many bytes.
pub const IMAGE_ANCHOR_MIN_SYMBOL_LEN: usize = 64;

/// A cell of the composed frame: whether it is left alone, and the length of what it shows.
#[derive(Clone, Copy, Debug, PartialEq, Eq, Structural)]
pub struct ImageCell {
    pub skip: bool,
    pub symbol_len: usize,
}

/// The cells of a frame, row by row.
pub struct CellGrid {
    pub area: Rect,
    pub cells: Vec<ImageCell>,
}

impl CellGrid {
    pub open spec fn wf(self) -> bool {
        self.cells@.len() == self.area.width * self.area.height
    }

    /// Whether the frame has a cell in column `x` of row `y`.
    pub open spec fn has(self, x: int, y: int) -> bool {
        self.area.x <= x < self.area.x + self.area.width && self.area.y <= y < self.area.y + self.area.height
    }

    pub open spec fn place(self, x: int, y: int) -> int {
        (y - self.area.y) * self.area.width + (x - self.area.x)
    }

    pub open spec fn at(self, x: int, y: int) -> ImageCell {
        self.cells@[self.place(x, y)]
    }

    proof fn lemma_place(self, x: int, y: int)
        requires
            self.wf(),
            self.has(x, y),
        ensures
            0 <= self.place(x, y) < self.cells@.len(),
    {
        let row = y - self.area.y;
        let col = x - self.area.x;
        let w = self.area.width as int;
        let h = self.area.height as int;
        assert(row * w + col < h * w && 0 <= row * w) by (nonlinear_arith)
            requires
                0 <= row < h,
                0 <= col < w,
        ;
        assert(h * w == w * h) by (nonlinear_arith);
    }

    proof fn lemma_distinct(self, x: int, y: int, u: int, v: int)
        requires
            self.has(x, y),
            self.has(u, v),
            self.place(x, y) == self.place(u, v),
        ensures
            x == u && y == v,
    {
        let w = self.area.width as int;
        let a = y - self.area.y;
        let b = x - self.area.x;
        let c = v - self.area.y;
        let d = u - self.area.x;
        assert(a == c && b == d) by (nonlinear_arith)
            requires
                0 <= b < w,
                0 <= d < w,
                a * w + b == c * w + d,
        ;
    }

    fn index(&self, x: u16, y: u16) -> (r: Option<usize>)
        requires
            self.wf(),
        ensures
            r is Some == self.has(x as int, y as int),
            r matches Some(i) ==> i == self.place(x as int, y as int) && i < self.cells@.len(),
    {
        if x < self.area.x || y < self.area.y {
            return None;
        }
        let col = x - self.area.x;
        let row = y - self.area.y;
        if col >= self.area.width || row >= self.area.height {
            return None;
        }
        proof {
            self.lemma_place(x as int, y as int);
            assert(row * self.area.width <= 0xffff * 0xffff && 0 <= row * self.area.width) by (nonlinear_arith)
                requires
                    0 <= row <= 0xffff,
                    0 <= self.area.width <= 0xffff,
            ;
        }
        Some((row as u32 * self.area.width as u32) as usize + col as usize)
    }
}

/// Whether a column and a row are in a rectangle.
pub open spec fn covers(area: Rect, x: int, y: int) -> bool {
    area.x <= x < area.right_end() && area.y <= y < area.bottom_end()
}

/// Whether a cell still belongs to an image.
pub open spec fn holds_image(c: ImageCell) -> bool {
    c.skip || c.symbol_len >= IMAGE_ANCHOR_MIN_SYMBOL_LEN
}

/// Whether nothing was drawn over an image.
pub open spec fn intact(area: Rect, grid: CellGrid) -> bool {
    forall|x: int, y: int|
        #![trigger covers(area, x, y)]
        covers(area, x, y) ==> grid.has(x, y) && holds_image(grid.at(x, y))
}

fn surface_intact(area: Rect, grid: &CellGrid) -> (r: bool)
    requires
        grid.wf(),
    ensures
        r == intact(area, *grid),
{
    let bottom = area.bottom();
    let right = area.right();
    let mut y: u16 = area.y;
    while y < bottom
        invariant
            grid.wf(),
            area.y <= y,
            y <= bottom,
            bottom == area.bottom_end(),
            right == area.right_end(),
            forall|u: int, v: int|
                #![trigger covers(area, u, v)]
                covers(area, u, v) && v < y ==> grid.has(u, v) && holds_image(grid.at(u, v)),
        decreases bottom - y,
    {
        let mut x: u16 = area.x;
        while x < right
            invariant
                grid.wf(),
                area.y <= y,
                y < bottom,
                area.x <= x,
                x <= right || right < area.x,
                bottom == area.bottom_end(),
                right == area.right_end(),
                forall|u: int, v: int|
                    #![trigger covers(area, u, v)]
                    covers(area, u, v) && (v < y || (v == y && u < x)) ==> grid.has(u, v) && holds_image(grid.at(u, v)),
            decreases right - x,
        {
            assert(covers(area, x as int, y as int));
            match grid.index(x, y) {
                None => {
                    assert(!grid.has(x as int, y as int));
                    return false;
                },
                Some(i) => {
                    let c = grid.cells[i];
                    if !(c.skip || c.symbol_len >= IMAGE_ANCHOR_MIN_SYMBOL_LEN) {
                        assert(!holds_image(grid.at(x as int, y as int)));
                        return false;
                    }
                },
            }
            x = x + 1;
        }
        y = y + 1;
    }
    true
}

/// Leaves the cells of a rectangle alone.
pub fn mark_skip(area: Rect, grid: &mut CellGrid)
    requires
        old(grid).wf(),
    ensures
        final(grid).wf(),
        final(grid).area == old(grid).area,
        forall|x: int, y: int|
            #![trigger final(grid).at(x, y)]
            old(grid).has(x, y) ==> final(grid).at(x, y) == (ImageCell {
                skip: covers(area, x, y) || old(grid).at(x, y).skip,
                symbol_len: old(grid).at(x, y).symbol_len,
            }),
{
    let ghost before = *grid;
    let bottom = area.bottom();
    let right = area.right();
    let mut y: u16 = area.y;
    while y < bottom
        invariant
            grid.wf(),
            grid.area == before.area,
            area.y <= y,
            y <= bottom,
            bottom == area.bottom_end(),
            right == area.right_end(),
            forall|u: int, v: int|
                #![trigger grid.at(u, v)]
                before.has(u, v) ==> grid.at(u, v) == (ImageCell {
                    skip: (covers(area, u, v) && v < y) || before.at(u, v).skip,
                    symbol_len: before.at(u, v).symbol_len,
                }),
        decreases bottom - y,
    {
        let mut x: u16 = area.x;
        while x < right
            invariant
                grid.wf(),
                grid.area == before.area,
                area.y <= y,
                y < bottom,
                area.x <= x,
                x <= right || right < area.x,
                bottom == area.bottom_end(),
                right == area.right_end(),
                forall|u: int, v: int|
                    #![trigger grid.at(u, v)]
                    before.has(u, v) ==> grid.at(u, v) == (ImageCell {
                        skip: (covers(area, u, v) && (v < y || (v == y && u < x))) || before.at(u, v).skip,
                        symbol_len: before.at(u, v).symbol_len,
                    }),
            decreases right - x,
        {
            let ghost mid = *grid;
            if let Some(i) = grid.index(x, y) {
                let c = grid.cells[i];
                grid.cells.set(i, ImageCell { skip: true, symbol_len: c.symbol_len });
                proof {
                    assert(mid.at(x as int, y as int) == c);
                    assert forall|u: int, v: int|
                        #![trigger grid.at(u, v)]
                        before.has(u, v) implies grid.at(u, v) == (ImageCell {
                        skip: (covers(area, u, v) && (v < y || (v == y && u < x + 1))) || before.at(u, v).skip,
                        symbol_len: before.at(u, v).symbol_len,
                    }) by {
                        assert(mid.has(u, v) && mid.place(u, v) == grid.place(u, v));
                        let was = mid.at(u, v);
                        mid.lemma_place(u, v);
                        if mid.place(u, v) == i {
                            mid.lemma_distinct(u, v, x as int, y as int);
                        }
                    }
                }
            } else {
                assert(!before.has(x as int, y as int));
            }
            x = x + 1;
        }
        y = y + 1;
    }
}

/// What was drawn in a rectangle.
#[derive(Clone, Copy, Debug, PartialEq, Eq, Structural)]
pub struct Emitted {
    pub area: Rect,
    pub content_hash: u64,
}

/// The corner by which an image is found again.
pub open spec fn corner(e: Emitted) -> (u16, u16) {
    (e.area.x, e.area.y)
}

/// What to do with an image.
#[derive(Clone, Copy, Debug, PartialEq, Eq, Structural)]
pub enum Decision {
    Render,
    Skip,
}

spec fn surfaces(v: Seq<Emitted>) -> Map<(u16, u16), Emitted>
    decreases v.len(),
{
    if v.len() == 0 {
        Map::empty()
    } else {
        surfaces(v.drop_last()).insert(corner(v.last()), v.last())
    }
}

spec fn corners_differ(v: Seq<Emitted>) -> bool {
    forall|i: int, j: int| #![trigger v[i], v[j]] 0 <= i < j < v.len() ==> corner(v[i]) != corner(v[j])
}

proof fn lemma_surfaces(v: Seq<Emitted>, k: (u16, u16))
    requires
        corners_differ(v),
    ensures
        surfaces(v).contains_key(k) <==> exists|i: int| 0 <= i < v.len() && corner(#[trigger] v[i]) == k,
        forall|i: int| 0 <= i < v.len() && corner(#[trigger] v[i]) == k ==> surfaces(v)[k] == v[i],
    decreases v.len(),
{
    if v.len() > 0 {
        let w = v.drop_last();
        assert forall|i: int, j: int| #![trigger w[i], w[j]] 0 <= i < j < w.len() implies corner(w[i]) != corner(w[j]) by {
            assert(w[i] == v[i] && w[j] == v[j]);
        }
        lemma_surfaces(w, k);
        if exists|i: int| 0 <= i < v.len() && corner(#[trigger] v[i]) == k {
            let i = choose|i: int| 0 <= i < v.len() && corner(#[trigger] v[i]) == k;
            if i < w.len() {
                assert(w[i] == v[i]);
            }
        }
        if surfaces(w).contains_key(k) {
            let i = choose|i: int| 0 <= i < w.len() && corner(#[trigger] w[i]) == k;
            assert(corner(v[i]) == k);
        }
        if corner(v.last()) == k {
            assert(corner(v[v.len() - 1]) == k);
        }
        assert forall|i: int| 0 <= i < v.len() && corner(#[trigger] v[i]) == k implies surfaces(v)[k] == v[i] by {
            if i < w.len() {
                assert(w[i] == v[i]);
                assert(corner(v[v.len() - 1]) != corner(v[i]));
            }
        }
    }
}

fn find_corner(v: &Vec<Emitted>, x: u16, y: u16) -> (r: Option<usize>)
    requires
        corners_differ(v@),
    ensures
        r is Some == surfaces(v@).contains_key((x, y)),
        r matches Some(i) ==> i < v@.len() && v@[i as int] == surfaces(v@)[(x, y)] && corner(v@[i as int]) == (x, y),
{
    let mut i: usize = 0;
    while i < v.len()
        invariant
            i <= v@.len(),
            corners_differ(v@),
            forall|k: int| 0 <= k < i ==> corner(#[trigger] v@[k]) != (x, y),
        decreases v@.len() - i,
    {
        if v[i].area.x == x && v[i].area.y == y {
            proof {
                lemma_surfaces(v@, (x, y));
                assert(corner(v@[i as int]) == (x, y));
            }
            return Some(i);
        }
        i += 1;
    }
    proof {
        lemma_surfaces(v@, (x, y));
    }
    None
}

/// The images of the last frame and of the frame that is being drawn.
pub struct ImageEmissionTracker {
    last_area: Option<Rect>,
    emitted: Vec<Emitted>,
    current: Vec<Emitted>,
}

/// The value of an [`ImageEmissionTracker`]: the area of the last frame, and the images of both frames
/// by the corner they begin in.
pub struct TrackerView {
    pub last_area: Option<Rect>,
    pub emitted: Map<(u16, u16), Emitted>,
    pub current: Map<(u16, u16), Emitted>,
}

impl View for ImageEmissionTracker {
    type V = TrackerView;

    closed spec fn view(&self) -> TrackerView {
        TrackerView {
            last_area: self.last_area,
            emitted: surfaces(self.emitted@),
            current: surfaces(self.current@),
        }
    }
}

/// Whether an image is the one that was drawn at its place.
pub open spec fn unchanged(shown: Map<(u16, u16), Emitted>, area: Rect, content_hash: u64) -> bool {
    shown.contains_key((area.x, area.y)) && shown[(area.x, area.y)] == (Emitted { area, content_hash })
}

impl ImageEmissionTracker {
    /// Every corner is remembered once.
    pub closed spec fn wf(self) -> bool {
        corners_differ(self.emitted@) && corners_differ(self.current@)
    }

    /// Starts a frame. Where the terminal has another size it was cleared, so nothing is remembered.
    pub fn begin_frame(&mut self, area: Rect)
        requires
            old(self).wf(),
        ensures
            final(self).wf(),
            final(self)@ == (TrackerView {
                last_area: Some(area),
                emitted: if old(self)@.last_area == Some(area) { old(self)@.emitted } else { Map::empty() },
                current: Map::empty(),
            }),
    {
        let same = match self.last_area {
            Some(last) => last == area,
            None => false,
        };
        if !same {
            self.emitted = Vec::new();
            self.last_area = Some(area);
        }
        self.current = Vec::new();
    }

    /// What to do with an image, which is remembered.
    pub fn decide(&mut self, area: Rect, content_hash: u64) -> (d: Decision)
        requires
            old(self).wf(),
        ensures
            final(self).wf(),
            (d == Decision::Skip) == unchanged(old(self)@.emitted, area, content_hash),
            final(self)@ == (TrackerView {
                current: old(self)@.current.insert((area.x, area.y), Emitted { area, content_hash }),
                ..old(self)@
            }),
    {
        let next = Emitted { area, content_hash };
        let same = match find_corner(&self.emitted, area.x, area.y) {
            Some(i) => self.emitted[i].area == area && self.emitted[i].content_hash == content_hash,
            None => false,
        };
        let ghost before = self.current@;
        match find_corner(&self.current, area.x, area.y) {
            Some(i) => {
                let ghost k = (area.x, area.y);
                self.current.set(i, next);
                proof {
                    let after = self.current@;
                    assert(corners_differ(after)) by {
                        assert forall|a: int, b: int| #![trigger after[a], after[b]] 0 <= a < b < after.len() implies corner(
                            after[a],
                        ) != corner(after[b]) by {
                            assert(corner(before[a]) != corner(before[b]));
                        }
                    }
                    assert forall|q: (u16, u16)| #[trigger]
                        surfaces(after).contains_key(q) == surfaces(before).insert(k, next).contains_key(q) by {
                        lemma_surfaces(after, q);
                        lemma_surfaces(before, q);
                        if surfaces(after).contains_key(q) {
                            let a = choose|a: int| 0 <= a < after.len() && corner(#[trigger] after[a]) == q;
                            assert(corner(before[a]) == q);
                        }
                        if surfaces(before).contains_key(q) {
                            let a = choose|a: int| 0 <= a < before.len() && corner(#[trigger] before[a]) == q;
                            assert(corner(after[a]) == q);
                        }
                        if q == k {
                            assert(corner(after[i as int]) == q);
                        }
                    }
                    assert forall|q: (u16, u16)| surfaces(after).contains_key(q) implies #[trigger] surfaces(after)[q]
                        == surfaces(before).insert(k, next)[q] by {
                        lemma_surfaces(after, q);
                        lemma_surfaces(before, q);
                        let a = choose|a: int| 0 <= a < after.len() && corner(#[trigger] after[a]) == q;
                        assert(corner(before[a]) == q);
                        if a != i && q == k {
                            assert(corner(before[a]) == corner(before[i as int]));
                        }
                    }
                    assert(surfaces(after) =~= surfaces(before).insert(k, next));
                }
            },
            None => {
                proof {
                    let after = before.push(next);
                    assert(after.drop_last() =~= before);
                    lemma_surfaces(before, corner(next));
                    assert(corners_differ(after)) by {
                        assert forall|a: int, b: int| #![trigger after[a], after[b]] 0 <= a < b < after.len() implies corner(
                            after[a],
                        ) != corner(after[b]) by {
                            assert(after[a] == before[a]);
                            if b < before.len() {
                                assert(after[b] == before[b]);
                            }
                        }
                    }
                }
                self.current.push(next);
            },
        }
        if same {
            Decision::Skip
        } else {
            Decision::Render
        }
    }

    /// Ends a frame: what was drawn over is forgotten, the rest is what the next frame finds.
    pub fn end_frame(&mut self, grid: &CellGrid)
        requires
            old(self).wf(),
            grid.wf(),
        ensures
            final(self).wf(),
            final(self)@.last_area == old(self)@.last_area,
            final(self)@.emitted == old(self)@.current.restrict(
                Set::new(|k: (u16, u16)| old(self)@.current.contains_key(k) && intact(old(self)@.current[k].area, *grid)),
            ),
            final(self)@.current == old(self)@.emitted,
    {
        let ghost before = self.current@;
        let mut kept: Vec<Emitted> = Vec::new();
        let mut i: usize = 0;
        while i < self.current.len()
            invariant
                grid.wf(),
                self.current@ == before,
                i <= before.len(),
                corners_differ(before),
                corners_differ(self.emitted@),
                corners_differ(kept@),
                forall|a: int|
                    0 <= a < kept@.len() ==> intact((#[trigger] kept@[a]).area, *grid) && before.take(i as int).contains(kept@[a]),
                forall|a: int| 0 <= a < i && intact((#[trigger] before[a]).area, *grid) ==> kept@.contains(before[a]),
            decreases before.len() - i,
        {
            let ghost old_kept = kept@;
            let e = self.current[i];
            assert(before.take(i + 1) =~= before.take(i as int).push(e));
            assert forall|a: int| 0 <= a < old_kept.len() implies before.take(i + 1).contains(#[trigger] old_kept[a]) by {
                let b = choose|b: int| 0 <= b < before.take(i as int).len() && before.take(i as int)[b] == old_kept[a];
                assert(before.take(i + 1)[b] == old_kept[a]);
            }
            if surface_intact(e.area, grid) {
                kept.push(e);
                proof {
                    assert(kept@[old_kept.len() as int] == e);
                    assert(before.take(i + 1)[i as int] == e);
                    assert forall|a: int| 0 <= a < i && intact((#[trigger] before[a]).area, *grid) implies kept@.contains(
                        before[a],
                    ) by {
                        let b = choose|b: int| 0 <= b < old_kept.len() && old_kept[b] == before[a];
                        assert(kept@[b] == before[a]);
                    }
                    let after = kept@;
                    assert forall|a: int, b: int| #![trigger after[a], after[b]] 0 <= a < b < after.len() implies corner(
                        after[a],
                    ) != corner(after[b]) by {
                        assert(after[a] == old_kept[a]);
                        if b < old_kept.len() {
                            assert(after[b] == old_kept[b]);
                        } else {
                            let c = choose|c: int| 0 <= c < before.take(i as int).len() && before.take(i as int)[c] == old_kept[a];
                            assert(before[c] == after[a] && before[i as int] == after[b]);
                        }
                    }
                }
            }
            i += 1;
        }
        proof {
            let after = kept@;
            let whole = surfaces(before);
            let part = whole.restrict(
                Set::new(|k: (u16, u16)| whole.contains_key(k) && intact(whole[k].area, *grid)),
            );
            assert(before.take(before.len() as int) =~= before);
            assert forall|q: (u16, u16)| #[trigger] surfaces(after).contains_key(q) == part.contains_key(q) by {
                lemma_surfaces(after, q);
                lemma_surfaces(before, q);
                if surfaces(after).contains_key(q) {
                    let a = choose|a: int| 0 <= a < after.len() && corner(#[trigger] after[a]) == q;
                    let b = choose|b: int| 0 <= b < before.len() && before[b] == after[a];
                    assert(corner(before[b]) == q);
                }
                if part.contains_key(q) {
                    let b = choose|b: int| 0 <= b < before.len() && corner(#[trigger] before[b]) == q;
                    let a = choose|a: int| 0 <= a < after.len() && after[a] == before[b];
                    assert(corner(after[a]) == q);
                }
            }
            assert forall|q: (u16, u16)| surfaces(after).contains_key(q) implies #[trigger] surfaces(after)[q] == part[q] by {
                lemma_surfaces(after, q);
                lemma_surfaces(before, q);
                let a = choose|a: int| 0 <= a < after.len() && corner(#[trigger] after[a]) == q;
                let b = choose|b: int| 0 <= b < before.len() && before[b] == after[a];
                assert(corner(before[b]) == q);
            }
            assert(surfaces(after) =~= part);
        }
        let mut last = kept;
        std::mem::swap(&mut self.emitted, &mut last);
        self.current = last;
    }

    /// Forgets everything, so that the next frame draws every image.
    pub fn invalidate(&mut self)
        requires
            old(self).wf(),
        ensures
            final(self).wf(),
            final(self)@.last_area is None,
            final(self)@.emitted == Map::<(u16, u16), Emitted>::empty(),
            final(self)@.current == old(self)@.current,
    {
        self.emitted = Vec::new();
        self.last_area = None;
    }

    /// Whether an image is drawn. Where it is not, its cells are left alone.
    pub fn should_render(&mut self, area: Rect, content_hash: u64, grid: &mut CellGrid) -> (r: bool)
        requires
            old(self).wf(),
            old(grid).wf(),
        ensures
            final(self).wf(),
            r == !unchanged(old(self)@.emitted, area, content_hash),
            final(self)@ == (TrackerView {
                current: old(self)@.current.insert((area.x, area.y), Emitted { area, content_hash }),
                ..old(self)@
            }),
            final(grid).wf(),
            final(grid).area == old(grid).area,
            r ==> *final(grid) == *old(grid),
            !r ==> forall|x: int, y: int|
                #![trigger final(grid).at(x, y)]
                old(grid).has(x, y) ==> final(grid).at(x, y) == (ImageCell {
                    skip: covers(area, x, y) || old(grid).at(x, y).skip,
                    symbol_len: old(grid).at(x, y).symbol_len,
                }),
    {
        match self.decide(area, content_hash) {
            Decision::Render => true,
            Decision::Skip => {
                mark_skip(area, grid);
                false
            },
        }
    }
}

impl Default for ImageEmissionTracker {
    fn default() -> (r: ImageEmissionTracker)
        ensures
            r.wf(),
            r@.last_area is None,
            r@.emitted == Map::<(u16, u16), Emitted>::empty(),
            r@.current == Map::<(u16, u16), Emitted>::empty(),
    {
        ImageEmissionTracker { last_area: None, emitted: Vec::new(), current: Vec::new() }
    }
}

/// What a frame leaves behind once it ended.
pub open spec fn remembered(t: TrackerView, grid: CellGrid) -> Map<(u16, u16), Emitted> {
    t.current.restrict(Set::new(|k: (u16, u16)| t.current.contains_key(k) && intact(t.current[k].area, grid)))
}

/// An image that is drawn in the same place with the same content in two frames of one size, and that
/// nothing was drawn over, is not sent again; one that was drawn over is.
pub proof fn intact_images_are_sent_once(t: TrackerView, area: Rect, content_hash: u64, grid: CellGrid)
    requires
        t.current.contains_key((area.x, area.y)),
        t.current[(area.x, area.y)] == (Emitted { area, content_hash }),
    ensures
        unchanged(remembered(t, grid), area, content_hash) == intact(area, grid),
{
}

} // verus!
