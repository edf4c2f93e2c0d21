//! The parts of a preview that popups leave visible.

use crate::geometry::{rects_intersect_horizontally, sat_add16, share_columns, Rect};
use crate::message::wrap::sat_add;
use crate::runtime::placement::{clone_target, target_views, ImagePreviewTarget, TargetView};
use vstd::prelude::*;

verus! {

/// Some rows: the first, and the one behind the last.
#[derive(Clone, Copy, Debug, PartialEq, Eq, Structural)]
pub struct Rows {
    pub start: u16,
    pub end: u16,
}

pub open spec fn in_rows(r: Rows, row: int) -> bool {
    r.start <= row < r.end
}

/// Whether a row is in one of the segments.
pub open spec fn in_segments(segments: Seq<Rows>, row: int) -> bool {
    exists|i: int| 0 <= i < segments.len() && in_rows(#[trigger] segments[i], row)
}

/// The rows of `area` that `cover` hides, if any.
pub open spec fn cut(area: Rect, cover: Rect) -> Option<Rows> {
    let start = if area.y >= cover.y { area.y } else { cover.y };
    let end = if area.bottom_end() <= cover.bottom_end() { area.bottom_end() } else { cover.bottom_end() };
    if share_columns(area, cover) && start < end {
        Some(Rows { start, end })
    } else {
        None
    }
}

/// What is left of a segment above and below a cut.
pub open spec fn pieces(s: Rows, c: Rows) -> Seq<Rows> {
    (if s.start < c.start { seq![Rows { start: s.start, end: c.start }] } else { Seq::empty() }) + (if c.end < s.end {
        seq![Rows { start: c.end, end: s.end }]
    } else {
        Seq::empty()
    })
}

pub open spec fn all_pieces(segments: Seq<Rows>, c: Rows) -> Seq<Rows>
    decreases segments.len(),
{
    if segments.len() == 0 {
        Seq::empty()
    } else {
        all_pieces(segments.drop_last(), c) + pieces(segments.last(), c)
    }
}

/// The rows of `area` that are left once the covers are cut out, one after the other.
pub open spec fn visible_rows(area: Rect, covers: Seq<Rect>) -> Seq<Rows>
    decreases covers.len(),
{
    if covers.len() == 0 {
        seq![Rows { start: area.y, end: area.bottom_end() }]
    } else {
        let before = visible_rows(area, covers.drop_last());
        match cut(area, covers.last()) {
            None => before,
            Some(c) => all_pieces(before, c),
        }
    }
}

/// The part of a preview that shows some of its rows.
pub open spec fn slice(t: TargetView, area: Rect, s: Rows) -> TargetView {
    let above = if s.start >= area.y { (s.start - area.y) as u16 } else { 0 };
    TargetView {
        preview_y_offset_rows: sat_add(t.preview_y_offset_rows, above as usize),
        top_clip_rows: sat_add16(t.top_clip_rows, above),
        visible_preview_height: (s.end - s.start) as u16,
        ..t
    }
}

/// One part for each segment that has a row.
pub open spec fn slices(t: TargetView, area: Rect, segments: Seq<Rows>) -> Seq<TargetView>
    decreases segments.len(),
{
    if segments.len() == 0 {
        Seq::empty()
    } else {
        let rest = slices(t, area, segments.drop_last());
        if segments.last().start < segments.last().end {
            rest.push(slice(t, area, segments.last()))
        } else {
            rest
        }
    }
}

fn cut_out(area: Rect, cover: Rect) -> (r: Option<Rows>)
    ensures
        r == cut(area, cover),
{
    if !rects_intersect_horizontally(area, cover) {
        return None;
    }
    let start = if area.y >= cover.y { area.y } else { cover.y };
    let end = if area.bottom() <= cover.bottom() { area.bottom() } else { cover.bottom() };
    if start >= end {
        None
    } else {
        Some(Rows { start, end })
    }
}

fn cut_segments(segments: &Vec<Rows>, c: Rows) -> (r: Vec<Rows>)
    ensures
        r@ == all_pieces(segments@, c),
{
    let mut out: Vec<Rows> = Vec::new();
    let mut i: usize = 0;
    assert(segments@.take(0) =~= Seq::<Rows>::empty());
    while i < segments.len()
        invariant
            i <= segments@.len(),
            out@ == all_pieces(segments@.take(i as int), c),
        decreases segments@.len() - i,
    {
        let ghost before = out@;
        let s = segments[i];
        assert(segments@.take(i + 1).drop_last() =~= segments@.take(i as int));
        if s.start < c.start {
            out.push(Rows { start: s.start, end: c.start });
        }
        if c.end < s.end {
            out.push(Rows { start: c.end, end: s.end });
        }
        assert(out@ =~= before + pieces(s, c));
        i += 1;
    }
    assert(segments@.take(i as int) =~= segments@);
    out
}

/// The parts of a preview in `area` that the covers leave visible.
pub fn visible_image_target_slices(target: &ImagePreviewTarget, area: Rect, covers: &[Rect]) -> (r: Vec<
    ImagePreviewTarget,
>)
    ensures
        target_views(r@) == slices(target@, area, visible_rows(area, covers@)),
{
    let mut segments: Vec<Rows> = Vec::new();
    segments.push(Rows { start: area.y, end: area.bottom() });
    let mut i: usize = 0;
    assert(covers@.take(0) =~= Seq::<Rect>::empty());
    assert(segments@ =~= visible_rows(area, covers@.take(0)));
    while i < covers.len()
        invariant
            i <= covers@.len(),
            segments@ == visible_rows(area, covers@.take(i as int)),
        decreases covers@.len() - i,
    {
        assert(covers@.take(i + 1).drop_last() =~= covers@.take(i as int));
        if let Some(c) = cut_out(area, covers[i]) {
            segments = cut_segments(&segments, c);
        }
        i += 1;
    }
    assert(covers@.take(i as int) =~= covers@);
    let mut out: Vec<ImagePreviewTarget> = Vec::new();
    let mut j: usize = 0;
    assert(segments@.take(0) =~= Seq::<Rows>::empty());
    assert(target_views(out@) =~= Seq::<TargetView>::empty());
    while j < segments.len()
        invariant
            j <= segments@.len(),
            target_views(out@) == slices(target@, area, segments@.take(j as int)),
        decreases segments@.len() - j,
    {
        let s = segments[j];
        assert(segments@.take(j + 1).drop_last() =~= segments@.take(j as int));
        if s.start < s.end {
            let above = s.start.saturating_sub(area.y);
            let mut part = clone_target(target);
            part.preview_y_offset_rows = part.preview_y_offset_rows.saturating_add(above as usize);
            part.top_clip_rows = part.top_clip_rows.saturating_add(above);
            part.visible_preview_height = s.end - s.start;
            let ghost before = out@;
            assert(part@ == slice(target@, area, s));
            out.push(part);
            assert(target_views(out@) =~= target_views(before).push(part@));
        }
        j += 1;
    }
    assert(segments@.take(j as int) =~= segments@);
    out
}

/// Where each preview is, if it is on the screen at all. One in the viewer is above every popup.
pub open spec fn clipped(targets: Seq<TargetView>, areas: Seq<Option<Rect>>, covers: Seq<Rect>) -> Seq<TargetView>
    decreases targets.len(),
{
    if targets.len() == 0 {
        Seq::empty()
    } else {
        clipped(targets.drop_last(), areas.drop_last(), covers) + (if targets.last().viewer {
            seq![targets.last()]
        } else {
            match areas.last() {
                None => Seq::empty(),
                Some(area) => slices(targets.last(), area, visible_rows(area, covers)),
            }
        })
    }
}

/// The previews with what popups hide cut out. `areas` gives the area of each preview.
pub fn clip_image_preview_targets_for_occlusions(
    targets: Vec<ImagePreviewTarget>,
    areas: &[Option<Rect>],
    covers: &[Rect],
) -> (r: Vec<ImagePreviewTarget>)
    requires
        areas@.len() == targets@.len(),
    ensures
        target_views(r@) == (if covers@.len() == 0 {
            target_views(targets@)
        } else {
            clipped(target_views(targets@), areas@, covers@)
        }),
{
    if covers.len() == 0 {
        return targets;
    }
    let mut out: Vec<ImagePreviewTarget> = Vec::new();
    let ghost all = target_views(targets@);
    let mut i: usize = 0;
    assert(target_views(out@) =~= Seq::<TargetView>::empty());
    while i < targets.len()
        invariant
            i <= targets@.len(),
            areas@.len() == targets@.len(),
            all == target_views(targets@),
            target_views(out@) == clipped(all.take(i as int), areas@.take(i as int), covers@),
        decreases targets@.len() - i,
    {
        assert(all.take(i + 1).drop_last() =~= all.take(i as int));
        assert(areas@.take(i + 1).drop_last() =~= areas@.take(i as int));
        let ghost before = out@;
        if targets[i].viewer {
            let kept = clone_target(&targets[i]);
            out.push(kept);
            assert(target_views(out@) =~= target_views(before) + seq![all[i as int]]);
        } else {
            match areas[i] {
                None => {
                    assert(target_views(before) + Seq::<TargetView>::empty() =~= target_views(before));
                },
                Some(area) => {
                    let mut parts = visible_image_target_slices(&targets[i], area, covers);
                    let ghost added = parts@;
                    out.append(&mut parts);
                    assert(target_views(out@) =~= target_views(before) + target_views(added));
                },
            }
        }
        i += 1;
    }
    assert(all.take(i as int) =~= all);
    assert(areas@.take(i as int) =~= areas@);
    out
}

/// Whether a cover hides a row of `area`.
pub open spec fn hides(area: Rect, cover: Rect, row: int) -> bool {
    share_columns(area, cover) && cover.has_row(row)
}

pub open spec fn hidden(area: Rect, covers: Seq<Rect>, row: int) -> bool {
    exists|i: int| 0 <= i < covers.len() && hides(area, #[trigger] covers[i], row)
}

proof fn lemma_pieces(segments: Seq<Rows>, c: Rows, row: int)
    requires
        c.start < c.end,
    ensures
        in_segments(segments, row) && !in_rows(c, row) ==> in_segments(all_pieces(segments, c), row),
    decreases segments.len(),
{
    if segments.len() > 0 {
        lemma_pieces(segments.drop_last(), c, row);
        let rest = all_pieces(segments.drop_last(), c);
        let last = pieces(segments.last(), c);
        if in_segments(segments, row) && !in_rows(c, row) {
            let i = choose|i: int| 0 <= i < segments.len() && in_rows(#[trigger] segments[i], row);
            if i < segments.len() - 1 {
                assert(in_rows(segments.drop_last()[i], row));
                let j = choose|j: int| 0 <= j < rest.len() && in_rows(#[trigger] rest[j], row);
                assert(in_rows((rest + last)[j], row));
            } else {
                let s = segments.last();
                if row < c.start {
                    assert(in_rows(last[0], row));
                    assert((rest + last)[rest.len() as int] == last[0]);
                } else {
                    assert(in_rows(last[last.len() - 1], row));
                    assert((rest + last)[rest.len() + last.len() - 1] == last[last.len() - 1]);
                }
            }
        }
    }
}

/// Every row of a preview that no popup hides is in one of the visible parts.
pub proof fn rows_in_the_open_stay_visible(area: Rect, covers: Seq<Rect>, row: int)
    requires
        area.has_row(row),
        !hidden(area, covers, row),
    ensures
        in_segments(visible_rows(area, covers), row),
    decreases covers.len(),
{
    if covers.len() == 0 {
        let whole = Rows { start: area.y, end: area.bottom_end() };
        assert(visible_rows(area, covers)[0] == whole);
        assert(in_rows(visible_rows(area, covers)[0], row));
    } else {
        let rest = covers.drop_last();
        assert forall|i: int| 0 <= i < rest.len() implies !hides(area, #[trigger] rest[i], row) by {
            assert(rest[i] == covers[i]);
        }
        rows_in_the_open_stay_visible(area, rest, row);
        assert(!hides(area, covers[covers.len() - 1], row));
        if let Some(c) = cut(area, covers.last()) {
            lemma_pieces(visible_rows(area, rest), c, row);
        }
    }
}

/// Every row of a visible part is a row of the preview.
pub proof fn parts_lie_in_the_preview(area: Rect, covers: Seq<Rect>, row: int)
    requires
        in_segments(visible_rows(area, covers), row),
    ensures
        area.has_row(row),
{
    lemma_rows_within(area, covers);
    let rows = visible_rows(area, covers);
    let i = choose|i: int| 0 <= i < rows.len() && in_rows(#[trigger] rows[i], row);
    assert(area.y <= rows[i].start);
}

/// Whether each popup reaches every part that the popups before it left.
pub open spec fn cuts_reach(area: Rect, covers: Seq<Rect>) -> bool
    decreases covers.len(),
{
    covers.len() == 0 || {
        &&& cuts_reach(area, covers.drop_last())
        &&& match cut(area, covers.last()) {
            None => true,
            Some(c) => reaches(visible_rows(area, covers.drop_last()), c),
        }
    }
}

pub open spec fn reaches(segments: Seq<Rows>, c: Rows) -> bool {
    forall|i: int| 0 <= i < segments.len() ==> (#[trigger] segments[i]).start <= c.end && c.start <= segments[i].end
}

/// Where each popup reaches every part that is left, as a single popup does, the visible parts show
/// exactly the rows that no popup hides.
pub proof fn visible_parts_are_what_is_not_hidden(area: Rect, covers: Seq<Rect>, row: int)
    requires
        cuts_reach(area, covers),
    ensures
        in_segments(visible_rows(area, covers), row) <==> area.has_row(row) && !hidden(area, covers, row),
    decreases covers.len(),
{
    if area.has_row(row) && !hidden(area, covers, row) {
        rows_in_the_open_stay_visible(area, covers, row);
    }
    if in_segments(visible_rows(area, covers), row) {
        parts_lie_in_the_preview(area, covers, row);
        if covers.len() > 0 {
            let rest = covers.drop_last();
            if let Some(c) = cut(area, covers.last()) {
                lemma_pieces_exact(visible_rows(area, rest), c, row);
            }
            visible_parts_are_what_is_not_hidden(area, rest, row);
            if hidden(area, covers, row) {
                let i = choose|i: int| 0 <= i < covers.len() && hides(area, #[trigger] covers[i], row);
                if i < rest.len() {
                    assert(hides(area, rest[i], row));
                }
            }
        }
    }
}

/// A single popup reaches the whole preview.
pub proof fn one_popup_reaches_the_preview(area: Rect, cover: Rect)
    ensures
        cuts_reach(area, seq![cover]),
{
    assert(seq![cover].drop_last() =~= Seq::<Rect>::empty());
    assert(visible_rows(area, seq![cover].drop_last()).len() == 1);
    assert(cuts_reach(area, seq![cover].drop_last()));
}

proof fn lemma_pieces_exact(segments: Seq<Rows>, c: Rows, row: int)
    requires
        c.start < c.end,
        reaches(segments, c),
        in_segments(all_pieces(segments, c), row),
    ensures
        in_segments(segments, row) && !in_rows(c, row),
    decreases segments.len(),
{
    let front = segments.drop_last();
    let rest = all_pieces(front, c);
    let last = pieces(segments.last(), c);
    let j = choose|j: int| 0 <= j < (rest + last).len() && in_rows(#[trigger] (rest + last)[j], row);
    if j < rest.len() {
        assert(in_rows(rest[j], row));
        assert(reaches(front, c)) by {
            assert forall|i: int| 0 <= i < front.len() implies (#[trigger] front[i]).start <= c.end && c.start
                <= front[i].end by {
                assert(front[i] == segments[i]);
            }
        }
        lemma_pieces_exact(front, c, row);
        let i = choose|i: int| 0 <= i < front.len() && in_rows(#[trigger] front[i], row);
        assert(in_rows(segments[i], row));
    } else {
        assert(in_rows(last[j - rest.len()], row));
        assert(in_rows(segments[segments.len() - 1], row));
    }
}

spec fn within(area: Rect, segments: Seq<Rows>) -> bool {
    forall|i: int|
        0 <= i < segments.len() ==> area.y <= (#[trigger] segments[i]).start && segments[i].end <= area.bottom_end()
}

proof fn lemma_pieces_within(area: Rect, segments: Seq<Rows>, c: Rows)
    requires
        within(area, segments),
        area.y <= c.start <= c.end,
        c.end <= area.bottom_end(),
    ensures
        within(area, all_pieces(segments, c)),
    decreases segments.len(),
{
    if segments.len() > 0 {
        let front = segments.drop_last();
        assert forall|i: int| 0 <= i < front.len() implies area.y <= (#[trigger] front[i]).start && front[i].end
            <= area.bottom_end() by {
            assert(front[i] == segments[i]);
        }
        lemma_pieces_within(area, front, c);
        assert(segments.last() == segments[segments.len() - 1]);
    }
}

proof fn lemma_rows_within(area: Rect, covers: Seq<Rect>)
    ensures
        within(area, visible_rows(area, covers)),
    decreases covers.len(),
{
    if covers.len() > 0 {
        lemma_rows_within(area, covers.drop_last());
        if let Some(c) = cut(area, covers.last()) {
            lemma_pieces_within(area, visible_rows(area, covers.drop_last()), c);
        }
    }
}

/// The row of the screen that a part of a preview begins at, where the whole preview begins at the top
/// of `area`.
pub open spec fn first_row(t: TargetView, part: TargetView, area: Rect) -> int {
    area.y + part.preview_y_offset_rows - t.preview_y_offset_rows
}

/// Whether a part of a preview covers a row of the screen.
pub open spec fn shows_row(t: TargetView, part: TargetView, area: Rect, row: int) -> bool {
    first_row(t, part, area) <= row < first_row(t, part, area) + part.visible_preview_height
}

/// Whether `part` is a part of the preview `t`: some of its rows, and nothing else of it changed. What
/// is left out above is what the image is clipped by.
pub open spec fn is_part(t: TargetView, part: TargetView, area: Rect) -> bool {
    &&& part.visible_preview_height > 0
    &&& area.y <= first_row(t, part, area)
    &&& first_row(t, part, area) + part.visible_preview_height <= area.bottom_end()
    &&& part.top_clip_rows - t.top_clip_rows == first_row(t, part, area) - area.y
    &&& part == TargetView {
        preview_y_offset_rows: part.preview_y_offset_rows,
        top_clip_rows: part.top_clip_rows,
        visible_preview_height: part.visible_preview_height,
        ..t
    }
}

/// Whether the places in a preview can be counted.
pub open spec fn is_countable(t: TargetView, area: Rect) -> bool {
    t.preview_y_offset_rows + area.bottom_end() <= usize::MAX && t.top_clip_rows + area.bottom_end() <= u16::MAX
}

/// Whether one of the parts covers a row of the screen.
pub open spec fn some_part_shows(t: TargetView, parts: Seq<TargetView>, area: Rect, row: int) -> bool {
    exists|k: int| 0 <= k < parts.len() && shows_row(t, #[trigger] parts[k], area, row)
}

proof fn lemma_slice_rows(t: TargetView, area: Rect, segments: Seq<Rows>, row: int)
    requires
        within(area, segments),
        is_countable(t, area),
    ensures
        some_part_shows(t, slices(t, area, segments), area, row) <==> in_segments(segments, row),
        forall|k: int|
            0 <= k < slices(t, area, segments).len() ==> is_part(t, #[trigger] slices(t, area, segments)[k], area),
    decreases segments.len(),
{
    let parts = slices(t, area, segments);
    if segments.len() > 0 {
        let front = segments.drop_last();
        let last = segments.last();
        assert forall|i: int| 0 <= i < front.len() implies area.y <= (#[trigger] front[i]).start && front[i].end
            <= area.bottom_end() by {
            assert(front[i] == segments[i]);
        }
        lemma_slice_rows(t, area, front, row);
        let rest = slices(t, area, front);
        assert(last == segments[segments.len() - 1]);
        assert(in_segments(segments, row) <==> in_segments(front, row) || in_rows(last, row)) by {
            if in_segments(segments, row) {
                let i = choose|i: int| 0 <= i < segments.len() && in_rows(#[trigger] segments[i], row);
                if i < front.len() {
                    assert(in_rows(front[i], row));
                }
            }
            if in_segments(front, row) {
                let i = choose|i: int| 0 <= i < front.len() && in_rows(#[trigger] front[i], row);
                assert(in_rows(segments[i], row));
            }
        }
        if last.start < last.end {
            let part = slice(t, area, last);
            assert(parts == rest.push(part));
            assert(is_part(t, part, area));
            assert(shows_row(t, part, area, row) <==> in_rows(last, row));
            if some_part_shows(t, rest, area, row) {
                let k = choose|k: int| 0 <= k < rest.len() && shows_row(t, #[trigger] rest[k], area, row);
                assert(shows_row(t, parts[k], area, row));
            }
            if in_rows(last, row) {
                assert(shows_row(t, parts[parts.len() - 1], area, row));
            }
            if some_part_shows(t, parts, area, row) {
                let k = choose|k: int| 0 <= k < parts.len() && shows_row(t, #[trigger] parts[k], area, row);
                if k < rest.len() {
                    assert(shows_row(t, rest[k], area, row));
                }
            }
            assert forall|k: int| 0 <= k < parts.len() implies is_part(t, #[trigger] parts[k], area) by {
                if k < rest.len() {
                    assert(parts[k] == rest[k]);
                }
            }
        }
    }
}

/// What popups leave of a preview are parts of it, and every row that no popup hides is shown by one of
/// them. Where each popup reaches every part that is left, as a single popup does, they show no other.
pub proof fn previews_show_the_rows_in_the_open(t: TargetView, area: Rect, covers: Seq<Rect>, row: int)
    requires
        is_countable(t, area),
    ensures
        forall|k: int|
            0 <= k < slices(t, area, visible_rows(area, covers)).len() ==> is_part(
                t,
                #[trigger] slices(t, area, visible_rows(area, covers))[k],
                area,
            ),
        area.has_row(row) && !hidden(area, covers, row) ==> some_part_shows(
            t,
            slices(t, area, visible_rows(area, covers)),
            area,
            row,
        ),
        cuts_reach(area, covers) && some_part_shows(t, slices(t, area, visible_rows(area, covers)), area, row)
            ==> area.has_row(row) && !hidden(area, covers, row),
{
    lemma_rows_within(area, covers);
    lemma_slice_rows(t, area, visible_rows(area, covers), row);
    if area.has_row(row) && !hidden(area, covers, row) {
        rows_in_the_open_stay_visible(area, covers, row);
    }
    if cuts_reach(area, covers) {
        visible_parts_are_what_is_not_hidden(area, covers, row);
    }
}

/// Each preview is clipped by itself: one in the viewer stays whole, and all that popups leave of
/// another is among the result.
pub proof fn every_preview_is_clipped_by_itself(
    targets: Seq<TargetView>,
    areas: Seq<Option<Rect>>,
    covers: Seq<Rect>,
    i: int,
    k: int,
)
    requires
        targets.len() == areas.len(),
        0 <= i < targets.len(),
    ensures
        targets[i].viewer ==> clipped(targets, areas, covers).contains(targets[i]),
        !targets[i].viewer ==> (areas[i] matches Some(area) ==> 0 <= k < slices(
            targets[i],
            area,
            visible_rows(area, covers),
        ).len() ==> clipped(targets, areas, covers).contains(slices(targets[i], area, visible_rows(area, covers))[k])),
    decreases targets.len(),
{
    let rest = clipped(targets.drop_last(), areas.drop_last(), covers);
    let all = clipped(targets, areas, covers);
    assert(all.take(rest.len() as int) =~= rest);
    let t = targets[i];
    let part = if t.viewer { t } else { slices(t, areas[i]->0, visible_rows(areas[i]->0, covers))[k] };
    let is_left = t.viewer || areas[i] is Some && 0 <= k < slices(
        t,
        areas[i]->0,
        visible_rows(areas[i]->0, covers),
    ).len();
    if i < targets.len() - 1 {
        every_preview_is_clipped_by_itself(targets.drop_last(), areas.drop_last(), covers, i, k);
        assert(targets.drop_last()[i] == t && areas.drop_last()[i] == areas[i]);
        if is_left {
            let j = choose|j: int| 0 <= j < rest.len() && rest[j] == part;
            assert(all[j] == part);
        }
    } else {
        assert(targets.last() == t && areas.last() == areas[i]);
        if is_left {
            let j = rest.len() + (if t.viewer { 0 } else { k });
            assert(all[j] == part);
        }
    }
}

/// Nothing else is shown: what is left is a preview in the viewer, or a part of one that is on the
/// screen.
pub proof fn clipped_previews_are_on_the_screen(
    targets: Seq<TargetView>,
    areas: Seq<Option<Rect>>,
    covers: Seq<Rect>,
    k: int,
) -> (i: int)
    requires
        targets.len() == areas.len(),
        0 <= k < clipped(targets, areas, covers).len(),
    ensures
        0 <= i < targets.len(),
        targets[i].viewer ==> clipped(targets, areas, covers)[k] == targets[i],
        !targets[i].viewer ==> areas[i] is Some && slices(
            targets[i],
            areas[i]->0,
            visible_rows(areas[i]->0, covers),
        ).contains(clipped(targets, areas, covers)[k]),
    decreases targets.len(),
{
    let rest = clipped(targets.drop_last(), areas.drop_last(), covers);
    let all = clipped(targets, areas, covers);
    if k < rest.len() {
        let i = clipped_previews_are_on_the_screen(targets.drop_last(), areas.drop_last(), covers, k);
        assert(targets.drop_last()[i] == targets[i] && areas.drop_last()[i] == areas[i]);
        assert(all[k] == rest[k]);
        i
    } else {
        let i = targets.len() - 1;
        if !targets[i].viewer {
            assert(all[k] == slices(targets[i], areas[i]->0, visible_rows(areas[i]->0, covers))[k - rest.len()]);
        }
        i
    }
}

} // verus!
