//! Where the images of a frame are.

use crate::geometry::Rect;
use crate::runtime::media_runtime::{
    placed, placed_avatars, placed_previews, AvatarTargetView, MediaTargetsView,
};
use crate::runtime::placement::{AvatarKeyView, FragmentView, TargetView};
use vstd::prelude::*;

verus! {

/// Whether a preview is the last of some that stands for its part of its image.
pub open spec fn is_last_of_its_part(targets: Seq<TargetView>, areas: Seq<Option<Rect>>, i: int) -> bool {
    forall|j: int|
        i < j < targets.len() && (#[trigger] areas[j]) is Some ==> targets[j].fragment() != targets[i].fragment()
}

/// A preview that is on the screen is where its area is, as high as the rows of it that are visible. One
/// in the viewer fills its area.
pub proof fn previews_are_where_their_area_is(targets: Seq<TargetView>, areas: Seq<Option<Rect>>, i: int)
    requires
        targets.len() == areas.len(),
        0 <= i < targets.len(),
        areas[i] is Some,
        is_last_of_its_part(targets, areas, i),
    ensures
        placed_previews(targets, areas).contains_key(targets[i].fragment()),
        ({
            let t = targets[i];
            let area = areas[i]->0;
            let r = placed_previews(targets, areas)[t.fragment()];
            &&& r.x == area.x && r.y == area.y && r.width == area.width
            &&& r.height <= area.height
            &&& t.viewer ==> r.height == area.height
            &&& !t.viewer ==> r.height <= t.visible_preview_height && (r.height == area.height || r.height
                == t.visible_preview_height)
        }),
    decreases targets.len(),
{
    let n = targets.len() - 1;
    if i < n {
        let rest = targets.drop_last();
        let places = areas.drop_last();
        assert(is_last_of_its_part(rest, places, i)) by {
            assert forall|j: int| i < j < rest.len() && (#[trigger] places[j]) is Some implies rest[j].fragment()
                != rest[i].fragment() by {
                assert(areas[j] is Some);
            }
        }
        previews_are_where_their_area_is(rest, places, i);
        assert(areas[n] is Some ==> targets[n].fragment() != targets[i].fragment());
    }
}

/// Only previews that are on the screen have a place.
pub proof fn only_previews_on_the_screen_have_a_place(
    targets: Seq<TargetView>,
    areas: Seq<Option<Rect>>,
    key: FragmentView,
) -> (i: int)
    requires
        targets.len() == areas.len(),
        placed_previews(targets, areas).contains_key(key),
    ensures
        0 <= i < targets.len(),
        areas[i] is Some,
        targets[i].fragment() == key,
    decreases targets.len(),
{
    let n = targets.len() - 1;
    if areas.last() is Some && targets.last().fragment() == key {
        n
    } else {
        let i = only_previews_on_the_screen_have_a_place(targets.drop_last(), areas.drop_last(), key);
        assert(targets.drop_last()[i] == targets[i] && areas.drop_last()[i] == areas[i]);
        i
    }
}

/// Parts of previews are told apart by all that makes a difference on the screen: the image, the message
/// and the place in it, whether it is in the viewer or on a card, and the rows that are cut off above.
pub proof fn parts_are_told_apart(t: TargetView, u: TargetView)
    ensures
        t.fragment() == u.fragment() <==> t.url == u.url && t.message_id == u.message_id && t.preview_index
            == u.preview_index && t.viewer == u.viewer && t.thread_card == u.thread_card && t.top_clip_rows
            == u.top_clip_rows,
{
}

/// Each avatar of a frame has its place in its row, with the rows of it that are visible.
pub proof fn avatars_are_in_their_row(targets: Seq<AvatarTargetView>, circular: bool, i: int)
    requires
        0 <= i < targets.len(),
        forall|j: int|
            i < j < targets.len() ==> !((#[trigger] targets[j]).url == targets[i].url && targets[j].row
                == targets[i].row),
    ensures
        ({
            let t = targets[i];
            let key = AvatarKeyView { url: t.url, row: t.row };
            &&& placed_avatars(targets, circular).contains_key(key)
            &&& placed_avatars(targets, circular)[key].visible_height == t.visible_height
            &&& placed_avatars(targets, circular)[key].top_clip_rows == t.top_clip_rows
            &&& placed_avatars(targets, circular)[key].circular == circular
        }),
    decreases targets.len(),
{
    let n = targets.len() - 1;
    if i < n {
        let rest = targets.drop_last();
        assert forall|j: int| i < j < rest.len() implies !((#[trigger] rest[j]).url == rest[i].url && rest[j].row
            == rest[i].row) by {
            assert(rest[j] == targets[j]);
        }
        avatars_are_in_their_row(rest, circular, i);
        assert(!(targets[n].url == targets[i].url && targets[n].row == targets[i].row));
    }
}

/// No other avatar has a place.
pub proof fn only_avatars_of_the_frame_have_a_place(
    targets: Seq<AvatarTargetView>,
    circular: bool,
    key: AvatarKeyView,
) -> (i: int)
    requires
        placed_avatars(targets, circular).contains_key(key),
    ensures
        0 <= i < targets.len(),
        targets[i].url == key.url && targets[i].row == key.row,
    decreases targets.len(),
{
    let last = targets.last();
    if last.url == key.url && last.row == key.row {
        targets.len() - 1
    } else {
        only_avatars_of_the_frame_have_a_place(targets.drop_last(), circular, key)
    }
}

/// A frame places its previews, its avatars and the avatar of the profile popup, which is there only
/// with an image and an area.
pub proof fn frames_place_all_they_show(
    t: MediaTargetsView,
    areas: Seq<Option<Rect>>,
    circular: bool,
    url: Option<Seq<char>>,
    area: Option<Rect>,
)
    ensures
        placed(t, areas, circular, url, area).previews == placed_previews(t.previews, areas),
        placed(t, areas, circular, url, area).avatars == placed_avatars(t.avatars, circular),
        placed(t, areas, circular, url, area).popup_avatar is Some <==> url is Some && area is Some,
        placed(t, areas, circular, url, area).popup_avatar matches Some(p) ==> url == Some(p.url) && area == Some(p.area)
            && p.circular == circular,
{
}

} // verus!
