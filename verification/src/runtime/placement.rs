//! Where images were drawn, and which of them moved from one frame to the next.

use crate::geometry::Rect;
use crate::ids::MessageId;
use crate::text::str_eq;
use vstd::prelude::*;

verus! {

/// A preview of an image that is to be drawn, or a part of one that is not covered.
#[derive(Debug, PartialEq, Eq)]
pub struct ImagePreviewTarget {
    pub viewer: bool,
    pub selected: bool,
    pub thread_card: bool,
    pub message_index: usize,
    pub preview_index: usize,
    pub body_line_index: Option<usize>,
    pub preview_x_offset_columns: usize,
    pub preview_y_offset_rows: usize,
    pub preview_width: u16,
    pub preview_height: u16,
    pub visible_preview_height: u16,
    pub top_clip_rows: u16,
    pub accent_color: Option<u32>,
    pub show_play_marker: bool,
    pub message_id: MessageId,
    pub url: String,
    pub filename: String,
}

/// The value of an [`ImagePreviewTarget`].
pub struct TargetView {
    pub viewer: bool,
    pub selected: bool,
    pub thread_card: bool,
    pub message_index: usize,
    pub preview_index: usize,
    pub body_line_index: Option<usize>,
    pub preview_x_offset_columns: usize,
    pub preview_y_offset_rows: usize,
    pub preview_width: u16,
    pub preview_height: u16,
    pub visible_preview_height: u16,
    pub top_clip_rows: u16,
    pub accent_color: Option<u32>,
    pub show_play_marker: bool,
    pub message_id: MessageId,
    pub url: Seq<char>,
    pub filename: Seq<char>,
}

impl View for ImagePreviewTarget {
    type V = TargetView;

    open spec fn view(&self) -> TargetView {
        TargetView {
            viewer: self.viewer,
            selected: self.selected,
            thread_card: self.thread_card,
            message_index: self.message_index,
            preview_index: self.preview_index,
            body_line_index: self.body_line_index,
            preview_x_offset_columns: self.preview_x_offset_columns,
            preview_y_offset_rows: self.preview_y_offset_rows,
            preview_width: self.preview_width,
            preview_height: self.preview_height,
            visible_preview_height: self.visible_preview_height,
            top_clip_rows: self.top_clip_rows,
            accent_color: self.accent_color,
            show_play_marker: self.show_play_marker,
            message_id: self.message_id,
            url: self.url@,
            filename: self.filename@,
        }
    }
}

pub open spec fn target_views(v: Seq<ImagePreviewTarget>) -> Seq<TargetView> {
    v.map_values(|t: ImagePreviewTarget| t@)
}

impl TargetView {
    pub open spec fn key(self) -> KeyView {
        KeyView {
            viewer: self.viewer,
            thread_card: self.thread_card,
            message_id: self.message_id,
            preview_index: self.preview_index,
            url: self.url,
        }
    }

    pub open spec fn fragment(self) -> FragmentView {
        FragmentView { preview: self.key(), top_clip_rows: self.top_clip_rows }
    }
}

pub fn clone_target(t: &ImagePreviewTarget) -> (r: ImagePreviewTarget)
    ensures
        r@ == t@,
{
    ImagePreviewTarget {
        viewer: t.viewer,
        selected: t.selected,
        thread_card: t.thread_card,
        message_index: t.message_index,
        preview_index: t.preview_index,
        body_line_index: t.body_line_index,
        preview_x_offset_columns: t.preview_x_offset_columns,
        preview_y_offset_rows: t.preview_y_offset_rows,
        preview_width: t.preview_width,
        preview_height: t.preview_height,
        visible_preview_height: t.visible_preview_height,
        top_clip_rows: t.top_clip_rows,
        accent_color: t.accent_color,
        show_play_marker: t.show_play_marker,
        message_id: t.message_id,
        url: t.url.clone(),
        filename: t.filename.clone(),
    }
}

/// Which image a preview shows, and in which place of the view.
#[derive(Debug, PartialEq, Eq)]
pub struct ImagePreviewKey {
    pub viewer: bool,
    pub thread_card: bool,
    pub message_id: MessageId,
    pub preview_index: usize,
    pub url: String,
}

/// The value of an [`ImagePreviewKey`].
pub struct KeyView {
    pub viewer: bool,
    pub thread_card: bool,
    pub message_id: MessageId,
    pub preview_index: usize,
    pub url: Seq<char>,
}

impl View for ImagePreviewKey {
    type V = KeyView;

    open spec fn view(&self) -> KeyView {
        KeyView {
            viewer: self.viewer,
            thread_card: self.thread_card,
            message_id: self.message_id,
            preview_index: self.preview_index,
            url: self.url@,
        }
    }
}

/// A part of a preview: the preview, and how many of its rows are cut off above.
#[derive(Debug, PartialEq, Eq)]
pub struct ImagePreviewFragmentKey {
    pub preview: ImagePreviewKey,
    pub top_clip_rows: u16,
}

/// The value of an [`ImagePreviewFragmentKey`].
pub struct FragmentView {
    pub preview: KeyView,
    pub top_clip_rows: u16,
}

impl View for ImagePreviewFragmentKey {
    type V = FragmentView;

    open spec fn view(&self) -> FragmentView {
        FragmentView { preview: self.preview@, top_clip_rows: self.top_clip_rows }
    }
}

impl ImagePreviewTarget {
    pub fn key(&self) -> (r: ImagePreviewKey)
        ensures
            r@ == self@.key(),
    {
        ImagePreviewKey {
            viewer: self.viewer,
            thread_card: self.thread_card,
            message_id: self.message_id,
            preview_index: self.preview_index,
            url: self.url.clone(),
        }
    }

    pub fn fragment_key(&self) -> (r: ImagePreviewFragmentKey)
        ensures
            r@ == self@.fragment(),
    {
        ImagePreviewFragmentKey { preview: self.key(), top_clip_rows: self.top_clip_rows }
    }
}

pub fn same_preview(a: &ImagePreviewKey, b: &ImagePreviewKey) -> (r: bool)
    ensures
        r == (a@ == b@),
{
    a.viewer == b.viewer && a.thread_card == b.thread_card && a.message_id == b.message_id && a.preview_index
        == b.preview_index && str_eq(a.url.as_str(), b.url.as_str())
}

fn same_fragment(a: &ImagePreviewFragmentKey, b: &ImagePreviewFragmentKey) -> (r: bool)
    ensures
        r == (a@ == b@),
{
    a.top_clip_rows == b.top_clip_rows && same_preview(&a.preview, &b.preview)
}

fn clone_fragment(k: &ImagePreviewFragmentKey) -> (r: ImagePreviewFragmentKey)
    ensures
        r@ == k@,
{
    ImagePreviewFragmentKey {
        preview: ImagePreviewKey {
            viewer: k.preview.viewer,
            thread_card: k.preview.thread_card,
            message_id: k.preview.message_id,
            preview_index: k.preview.preview_index,
            url: k.preview.url.clone(),
        },
        top_clip_rows: k.top_clip_rows,
    }
}

/// An avatar: its address and the row it begins in.
#[derive(Debug, PartialEq, Eq)]
pub struct AvatarKey {
    pub url: String,
    pub row: i64,
}

pub struct AvatarKeyView {
    pub url: Seq<char>,
    pub row: i64,
}

impl View for AvatarKey {
    type V = AvatarKeyView;

    open spec fn view(&self) -> AvatarKeyView {
        AvatarKeyView { url: self.url@, row: self.row }
    }
}

/// How an avatar is drawn: its visible rows, the rows cut off above, and its shape.
#[derive(Clone, Copy, Debug, PartialEq, Eq, Structural)]
pub struct AvatarFingerprint {
    pub visible_height: u16,
    pub top_clip_rows: u16,
    pub circular: bool,
}

/// The avatar of the profile popup.
#[derive(Debug, PartialEq, Eq)]
pub struct PopupAvatar {
    pub url: String,
    pub circular: bool,
    pub area: Rect,
}

pub struct PopupView {
    pub url: Seq<char>,
    pub circular: bool,
    pub area: Rect,
}

impl View for PopupAvatar {
    type V = PopupView;

    open spec fn view(&self) -> PopupView {
        PopupView { url: self.url@, circular: self.circular, area: self.area }
    }
}

struct PreviewPlacement {
    key: ImagePreviewFragmentKey,
    area: Rect,
}

struct AvatarPlacement {
    key: AvatarKey,
    fingerprint: AvatarFingerprint,
}

/// Where the images of a frame are.
pub struct FramePlacements {
    previews: Vec<PreviewPlacement>,
    avatars: Vec<AvatarPlacement>,
    popup_avatar: Option<PopupAvatar>,
}

/// The value of [`FramePlacements`].
pub struct PlacementsView {
    pub previews: Map<FragmentView, Rect>,
    pub avatars: Map<AvatarKeyView, AvatarFingerprint>,
    pub popup_avatar: Option<PopupView>,
}

spec fn preview_map(v: Seq<PreviewPlacement>) -> Map<FragmentView, Rect>
    decreases v.len(),
{
    if v.len() == 0 {
        Map::empty()
    } else {
        preview_map(v.drop_last()).insert(v.last().key@, v.last().area)
    }
}

spec fn avatar_map(v: Seq<AvatarPlacement>) -> Map<AvatarKeyView, AvatarFingerprint>
    decreases v.len(),
{
    if v.len() == 0 {
        Map::empty()
    } else {
        avatar_map(v.drop_last()).insert(v.last().key@, v.last().fingerprint)
    }
}

pub open spec fn popup_view(p: Option<PopupAvatar>) -> Option<PopupView> {
    match p {
        Some(p) => Some(p@),
        None => None,
    }
}

impl View for FramePlacements {
    type V = PlacementsView;

    closed spec fn view(&self) -> PlacementsView {
        PlacementsView {
            previews: preview_map(self.previews@),
            avatars: avatar_map(self.avatars@),
            popup_avatar: popup_view(self.popup_avatar),
        }
    }
}

/// Which images are where they were, and whether any is not.
pub struct PlacementDiff {
    pub need_clear: bool,
    pub unchanged_previews: Vec<ImagePreviewFragmentKey>,
    pub unchanged_avatars: Vec<AvatarKey>,
    pub popup_avatar_unchanged: bool,
}

impl PlacementDiff {
    /// Whether a part of a preview stayed where it was.
    pub open spec fn keeps_preview(self, key: FragmentView) -> bool {
        lists_fragment(self.unchanged_previews@, key)
    }

    pub open spec fn keeps_avatar(self, key: AvatarKeyView) -> bool {
        lists_avatar(self.unchanged_avatars@, key)
    }
}

pub open spec fn lists_fragment(list: Seq<ImagePreviewFragmentKey>, key: FragmentView) -> bool {
    exists|i: int| 0 <= i < list.len() && (#[trigger] list[i])@ == key
}

pub open spec fn lists_avatar(list: Seq<AvatarKey>, key: AvatarKeyView) -> bool {
    exists|i: int| 0 <= i < list.len() && (#[trigger] list[i])@ == key
}

pub fn has_fragment(list: &Vec<ImagePreviewFragmentKey>, key: &ImagePreviewFragmentKey) -> (r: bool)
    ensures
        r == lists_fragment(list@, key@),
{
    let mut i: usize = 0;
    while i < list.len()
        invariant
            i <= list@.len(),
            forall|k: int| 0 <= k < i ==> (#[trigger] list@[k])@ != key@,
        decreases list@.len() - i,
    {
        if same_fragment(&list[i], key) {
            return true;
        }
        i += 1;
    }
    false
}

pub fn has_avatar(list: &Vec<AvatarKey>, url: &str, row: i64) -> (r: bool)
    ensures
        r == lists_avatar(list@, AvatarKeyView { url: url@, row }),
{
    let mut i: usize = 0;
    while i < list.len()
        invariant
            i <= list@.len(),
            forall|k: int| 0 <= k < i ==> (#[trigger] list@[k])@ != (AvatarKeyView { url: url@, row }),
        decreases list@.len() - i,
    {
        if list[i].row == row && str_eq(list[i].url.as_str(), url) {
            return true;
        }
        i += 1;
    }
    false
}

/// Whether both maps give the same value to `key`.
pub open spec fn agree<K, V>(a: Map<K, V>, b: Map<K, V>, key: K) -> bool {
    a.contains_key(key) && b.contains_key(key) && a[key] == b[key]
}

fn find_preview(v: &Vec<PreviewPlacement>, key: &ImagePreviewFragmentKey) -> (r: Option<Rect>)
    ensures
        match r {
            Some(area) => preview_map(v@).contains_key(key@) && preview_map(v@)[key@] == area,
            None => !preview_map(v@).contains_key(key@),
        },
{
    let mut i: usize = v.len();
    assert(v@.take(i as int) =~= v@);
    while i > 0
        invariant
            i <= v@.len(),
            preview_map(v@).contains_key(key@) == preview_map(v@.take(i as int)).contains_key(key@),
            preview_map(v@).contains_key(key@) ==> preview_map(v@)[key@] == preview_map(v@.take(i as int))[key@],
        decreases i,
    {
        assert(v@.take(i as int).drop_last() =~= v@.take(i - 1));
        assert(v@.take(i as int).last() == v@[i - 1]);
        if same_fragment(&v[i - 1].key, key) {
            return Some(v[i - 1].area);
        }
        i -= 1;
    }
    assert(v@.take(0) =~= Seq::<PreviewPlacement>::empty());
    None
}

fn same_avatar(a: &AvatarKey, b: &AvatarKey) -> (r: bool)
    ensures
        r == (a@ == b@),
{
    a.row == b.row && str_eq(a.url.as_str(), b.url.as_str())
}

fn find_avatar(v: &Vec<AvatarPlacement>, key: &AvatarKey) -> (r: Option<AvatarFingerprint>)
    ensures
        match r {
            Some(f) => avatar_map(v@).contains_key(key@) && avatar_map(v@)[key@] == f,
            None => !avatar_map(v@).contains_key(key@),
        },
{
    let mut i: usize = v.len();
    assert(v@.take(i as int) =~= v@);
    while i > 0
        invariant
            i <= v@.len(),
            avatar_map(v@).contains_key(key@) == avatar_map(v@.take(i as int)).contains_key(key@),
            avatar_map(v@).contains_key(key@) ==> avatar_map(v@)[key@] == avatar_map(v@.take(i as int))[key@],
        decreases i,
    {
        assert(v@.take(i as int).drop_last() =~= v@.take(i - 1));
        assert(v@.take(i as int).last() == v@[i - 1]);
        if same_avatar(&v[i - 1].key, key) {
            return Some(v[i - 1].fingerprint);
        }
        i -= 1;
    }
    assert(v@.take(0) =~= Seq::<AvatarPlacement>::empty());
    None
}

proof fn lemma_preview_map_dom(v: Seq<PreviewPlacement>, key: FragmentView)
    ensures
        preview_map(v).contains_key(key) <==> exists|i: int| 0 <= i < v.len() && (#[trigger] v[i]).key@ == key,
    decreases v.len(),
{
    if v.len() > 0 {
        lemma_preview_map_dom(v.drop_last(), key);
        if v.last().key@ == key {
            assert(v[v.len() - 1].key@ == key);
        } else {
            if preview_map(v).contains_key(key) {
                let i = choose|i: int| 0 <= i < v.drop_last().len() && (#[trigger] v.drop_last()[i]).key@ == key;
                assert(v[i].key@ == key);
            }
            if exists|i: int| 0 <= i < v.len() && (#[trigger] v[i]).key@ == key {
                let i = choose|i: int| 0 <= i < v.len() && (#[trigger] v[i]).key@ == key;
                assert(v.drop_last()[i] == v[i]);
            }
        }
    }
}

proof fn lemma_avatar_map_dom(v: Seq<AvatarPlacement>, key: AvatarKeyView)
    ensures
        avatar_map(v).contains_key(key) <==> exists|i: int| 0 <= i < v.len() && (#[trigger] v[i]).key@ == key,
    decreases v.len(),
{
    if v.len() > 0 {
        lemma_avatar_map_dom(v.drop_last(), key);
        if v.last().key@ == key {
            assert(v[v.len() - 1].key@ == key);
        } else {
            if avatar_map(v).contains_key(key) {
                let i = choose|i: int| 0 <= i < v.drop_last().len() && (#[trigger] v.drop_last()[i]).key@ == key;
                assert(v[i].key@ == key);
            }
            if exists|i: int| 0 <= i < v.len() && (#[trigger] v[i]).key@ == key {
                let i = choose|i: int| 0 <= i < v.len() && (#[trigger] v[i]).key@ == key;
                assert(v.drop_last()[i] == v[i]);
            }
        }
    }
}

fn same_popup(a: &Option<PopupAvatar>, b: &Option<PopupAvatar>) -> (r: bool)
    ensures
        r == (popup_view(*a) == popup_view(*b)),
{
    match (a, b) {
        (Some(a), Some(b)) => a.circular == b.circular && a.area == b.area && str_eq(a.url.as_str(), b.url.as_str()),
        (None, None) => true,
        _ => false,
    }
}

impl FramePlacements {
    pub fn insert_preview(&mut self, target: &ImagePreviewTarget, area: Rect)
        ensures
            final(self)@ == (PlacementsView {
                previews: old(self)@.previews.insert(target@.fragment(), area),
                ..old(self)@
            }),
    {
        let ghost before = self.previews@;
        let placed = PreviewPlacement { key: target.fragment_key(), area };
        self.previews.push(placed);
        assert(self.previews@.drop_last() =~= before);
    }

    pub fn insert_avatar(&mut self, url: String, row: i64, fingerprint: AvatarFingerprint)
        ensures
            final(self)@ == (PlacementsView {
                avatars: old(self)@.avatars.insert(AvatarKeyView { url: url@, row }, fingerprint),
                ..old(self)@
            }),
    {
        let ghost before = self.avatars@;
        self.avatars.push(AvatarPlacement { key: AvatarKey { url, row }, fingerprint });
        assert(self.avatars@.drop_last() =~= before);
    }

    pub fn set_popup_avatar(&mut self, popup: Option<PopupAvatar>)
        ensures
            final(self)@ == (PlacementsView { popup_avatar: popup_view(popup), ..old(self)@ }),
    {
        self.popup_avatar = popup;
    }

    /// What changed since the previous frame. Stale images must be erased exactly where the frames
    /// differ; an image that is where it was needs nothing.
    pub fn diff(&self, previous: &FramePlacements) -> (d: PlacementDiff)
        ensures
            d.need_clear == (self@ != previous@),
            forall|key: FragmentView| #[trigger] d.keeps_preview(key) <==> agree(self@.previews, previous@.previews, key),
            forall|key: AvatarKeyView| #[trigger] d.keeps_avatar(key) <==> agree(self@.avatars, previous@.avatars, key),
            d.popup_avatar_unchanged == (self@.popup_avatar == previous@.popup_avatar),
    {
        let (unchanged_previews, previews_differ) = self.diff_previews(previous);
        let (unchanged_avatars, avatars_differ) = self.diff_avatars(previous);
        let popup_avatar_unchanged = same_popup(&self.popup_avatar, &previous.popup_avatar);
        PlacementDiff {
            need_clear: previews_differ || avatars_differ || !popup_avatar_unchanged,
            unchanged_previews,
            unchanged_avatars,
            popup_avatar_unchanged,
        }
    }

    fn diff_previews(&self, previous: &FramePlacements) -> (r: (Vec<ImagePreviewFragmentKey>, bool))
        ensures
            forall|key: FragmentView| #[trigger] lists_fragment(r.0@, key) <==> agree(self@.previews, previous@.previews, key),
            r.1 == (self@.previews != previous@.previews),
    {
        let ghost cur = self@.previews;
        let ghost prev = previous@.previews;
        let mut kept: Vec<ImagePreviewFragmentKey> = Vec::new();
        let mut differ = false;
        let mut i: usize = 0;
        while i < self.previews.len()
            invariant
                cur == preview_map(self.previews@),
                prev == preview_map(previous.previews@),
                i <= self.previews@.len(),
                forall|k: int| 0 <= k < kept@.len() ==> agree(cur, prev, (#[trigger] kept@[k])@),
                forall|k: int|
                    0 <= k < i && agree(cur, prev, (#[trigger] self.previews@[k]).key@) ==> lists_fragment(
                        kept@,
                        self.previews@[k].key@,
                    ),
                differ <==> exists|k: int| 0 <= k < i && !agree(cur, prev, (#[trigger] self.previews@[k]).key@),
            decreases self.previews@.len() - i,
        {
            let key = &self.previews[i].key;
            let now = find_preview(&self.previews, key);
            let before = find_preview(&previous.previews, key);
            proof {
                lemma_preview_map_dom(self.previews@, key@);
                assert(self.previews@[i as int].key@ == key@);
            }
            let ghost old_kept = kept@;
            let same = match (now, before) {
                (Some(a), Some(b)) => a == b,
                _ => false,
            };
            if same {
                let copy = clone_fragment(key);
                kept.push(copy);
                assert(kept@[old_kept.len() as int]@ == key@);
            } else {
                differ = true;
            }
            proof {
                assert forall|k: int|
                    0 <= k < i + 1 && agree(cur, prev, (#[trigger] self.previews@[k]).key@) implies lists_fragment(
                    kept@,
                    self.previews@[k].key@,
                ) by {
                    if k < i {
                        let j = choose|j: int| 0 <= j < old_kept.len() && (#[trigger] old_kept[j])@ == self.previews@[k].key@;
                        assert(kept@[j] == old_kept[j]);
                    }
                }
            }
            i += 1;
        }
        proof {
            assert forall|key: FragmentView| #[trigger] lists_fragment(kept@, key) <==> agree(cur, prev, key) by {
                if agree(cur, prev, key) {
                    lemma_preview_map_dom(self.previews@, key);
                    let k = choose|k: int| 0 <= k < self.previews@.len() && (#[trigger] self.previews@[k]).key@ == key;
                    assert(agree(cur, prev, self.previews@[k].key@));
                }
            }
        }
        let mut gone = false;
        let mut i: usize = 0;
        while i < previous.previews.len()
            invariant
                cur == preview_map(self.previews@),
                prev == preview_map(previous.previews@),
                i <= previous.previews@.len(),
                gone <==> exists|k: int| 0 <= k < i && !cur.contains_key((#[trigger] previous.previews@[k]).key@),
            decreases previous.previews@.len() - i,
        {
            let now = find_preview(&self.previews, &previous.previews[i].key);
            if now.is_none() {
                gone = true;
                assert(!cur.contains_key(previous.previews@[i as int].key@));
            }
            i += 1;
        }
        proof {
            if !differ && !gone {
                assert forall|key: FragmentView| cur.contains_key(key) <==> prev.contains_key(key) by {
                    lemma_preview_map_dom(self.previews@, key);
                    lemma_preview_map_dom(previous.previews@, key);
                    if cur.contains_key(key) {
                        let k = choose|k: int| 0 <= k < self.previews@.len() && (#[trigger] self.previews@[k]).key@ == key;
                        assert(agree(cur, prev, self.previews@[k].key@));
                    }
                    if prev.contains_key(key) {
                        let k = choose|k: int|
                            0 <= k < previous.previews@.len() && (#[trigger] previous.previews@[k]).key@ == key;
                        assert(cur.contains_key(previous.previews@[k].key@));
                    }
                }
                assert forall|key: FragmentView| cur.contains_key(key) implies cur[key] == prev[key] by {
                    lemma_preview_map_dom(self.previews@, key);
                    let k = choose|k: int| 0 <= k < self.previews@.len() && (#[trigger] self.previews@[k]).key@ == key;
                    assert(agree(cur, prev, self.previews@[k].key@));
                }
                assert(cur =~= prev);
            }
            if differ {
                let k = choose|k: int| 0 <= k < self.previews@.len() && !agree(cur, prev, (#[trigger] self.previews@[k]).key@);
                lemma_preview_map_dom(self.previews@, self.previews@[k].key@);
            }
            if gone {
                let k = choose|k: int|
                    0 <= k < previous.previews@.len() && !cur.contains_key((#[trigger] previous.previews@[k]).key@);
                lemma_preview_map_dom(previous.previews@, previous.previews@[k].key@);
            }
        }
        (kept, differ || gone)
    }

    fn diff_avatars(&self, previous: &FramePlacements) -> (r: (Vec<AvatarKey>, bool))
        ensures
            forall|key: AvatarKeyView| #[trigger] lists_avatar(r.0@, key) <==> agree(self@.avatars, previous@.avatars, key),
            r.1 == (self@.avatars != previous@.avatars),
    {
        let ghost cur = self@.avatars;
        let ghost prev = previous@.avatars;
        let mut kept: Vec<AvatarKey> = Vec::new();
        let mut differ = false;
        let mut i: usize = 0;
        while i < self.avatars.len()
            invariant
                cur == avatar_map(self.avatars@),
                prev == avatar_map(previous.avatars@),
                i <= self.avatars@.len(),
                forall|k: int| 0 <= k < kept@.len() ==> agree(cur, prev, (#[trigger] kept@[k])@),
                forall|k: int|
                    0 <= k < i && agree(cur, prev, (#[trigger] self.avatars@[k]).key@) ==> lists_avatar(
                        kept@,
                        self.avatars@[k].key@,
                    ),
                differ <==> exists|k: int| 0 <= k < i && !agree(cur, prev, (#[trigger] self.avatars@[k]).key@),
            decreases self.avatars@.len() - i,
        {
            let key = &self.avatars[i].key;
            let now = find_avatar(&self.avatars, key);
            let before = find_avatar(&previous.avatars, key);
            proof {
                lemma_avatar_map_dom(self.avatars@, key@);
                assert(self.avatars@[i as int].key@ == key@);
            }
            let ghost old_kept = kept@;
            let same = match (now, before) {
                (Some(a), Some(b)) => a == b,
                _ => false,
            };
            if same {
                let copy = AvatarKey { url: key.url.clone(), row: key.row };
                kept.push(copy);
                assert(kept@[old_kept.len() as int]@ == key@);
            } else {
                differ = true;
            }
            proof {
                assert forall|k: int|
                    0 <= k < i + 1 && agree(cur, prev, (#[trigger] self.avatars@[k]).key@) implies lists_avatar(
                    kept@,
                    self.avatars@[k].key@,
                ) by {
                    if k < i {
                        let j = choose|j: int| 0 <= j < old_kept.len() && (#[trigger] old_kept[j])@ == self.avatars@[k].key@;
                        assert(kept@[j] == old_kept[j]);
                    }
                }
            }
            i += 1;
        }
        proof {
            assert forall|key: AvatarKeyView| #[trigger] lists_avatar(kept@, key) <==> agree(cur, prev, key) by {
                if agree(cur, prev, key) {
                    lemma_avatar_map_dom(self.avatars@, key);
                    let k = choose|k: int| 0 <= k < self.avatars@.len() && (#[trigger] self.avatars@[k]).key@ == key;
                    assert(agree(cur, prev, self.avatars@[k].key@));
                }
            }
        }
        let mut gone = false;
        let mut i: usize = 0;
        while i < previous.avatars.len()
            invariant
                cur == avatar_map(self.avatars@),
                prev == avatar_map(previous.avatars@),
                i <= previous.avatars@.len(),
                gone <==> exists|k: int| 0 <= k < i && !cur.contains_key((#[trigger] previous.avatars@[k]).key@),
            decreases previous.avatars@.len() - i,
        {
            let now = find_avatar(&self.avatars, &previous.avatars[i].key);
            if now.is_none() {
                gone = true;
                assert(!cur.contains_key(previous.avatars@[i as int].key@));
            }
            i += 1;
        }
        proof {
            if !differ && !gone {
                assert forall|key: AvatarKeyView| cur.contains_key(key) <==> prev.contains_key(key) by {
                    lemma_avatar_map_dom(self.avatars@, key);
                    lemma_avatar_map_dom(previous.avatars@, key);
                    if cur.contains_key(key) {
                        let k = choose|k: int| 0 <= k < self.avatars@.len() && (#[trigger] self.avatars@[k]).key@ == key;
                        assert(agree(cur, prev, self.avatars@[k].key@));
                    }
                    if prev.contains_key(key) {
                        let k = choose|k: int|
                            0 <= k < previous.avatars@.len() && (#[trigger] previous.avatars@[k]).key@ == key;
                        assert(cur.contains_key(previous.avatars@[k].key@));
                    }
                }
                assert forall|key: AvatarKeyView| cur.contains_key(key) implies cur[key] == prev[key] by {
                    lemma_avatar_map_dom(self.avatars@, key);
                    let k = choose|k: int| 0 <= k < self.avatars@.len() && (#[trigger] self.avatars@[k]).key@ == key;
                    assert(agree(cur, prev, self.avatars@[k].key@));
                }
                assert(cur =~= prev);
            }
            if differ {
                let k = choose|k: int| 0 <= k < self.avatars@.len() && !agree(cur, prev, (#[trigger] self.avatars@[k]).key@);
                lemma_avatar_map_dom(self.avatars@, self.avatars@[k].key@);
            }
            if gone {
                let k = choose|k: int|
                    0 <= k < previous.avatars@.len() && !cur.contains_key((#[trigger] previous.avatars@[k]).key@);
                lemma_avatar_map_dom(previous.avatars@, previous.avatars@[k].key@);
            }
        }
        (kept, differ || gone)
    }
}

impl Default for FramePlacements {
    fn default() -> (r: FramePlacements)
        ensures
            r@.previews == Map::<FragmentView, Rect>::empty(),
            r@.avatars == Map::<AvatarKeyView, AvatarFingerprint>::empty(),
            r@.popup_avatar is None,
    {
        FramePlacements { previews: Vec::new(), avatars: Vec::new(), popup_avatar: None }
    }
}

} // verus!
