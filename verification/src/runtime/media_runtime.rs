//! Which images are loaded, which are kept, and where those of a frame are.

use crate::discord::{AppCommand, AppEvent};
use crate::geometry::Rect;
use crate::runtime::placement::{
    clone_target, same_preview, target_views, AvatarFingerprint, AvatarKeyView, FragmentView, FramePlacements,
    ImagePreviewKey, ImagePreviewTarget, KeyView, PlacementDiff, PlacementsView, PopupAvatar, PopupView, TargetView,
};
use crate::number::{parse_number, parsed_number};
use crate::text::{decimal, decimal_string, has_text, list_contains, opt_text, str_eq, texts};
use crate::unicode::{split_words, words};
use vstd::prelude::*;
use vstd::string::*;

verus! {

/// How many images are downloaded or decoded at once.
pub const MAX_ACTIVE_MEDIA_SOURCES: usize = 8;

/// The addresses of the images that are being downloaded or decoded.
pub struct MediaSources {
    active: Vec<String>,
}

spec fn text_set(v: Seq<String>) -> Set<Seq<char>> {
    texts(v).to_set()
}

impl View for MediaSources {
    type V = Set<Seq<char>>;

    closed spec fn view(&self) -> Set<Seq<char>> {
        text_set(self.active@)
    }
}

/// What becomes of a request for an image.
#[derive(Clone, Copy, Debug, PartialEq, Eq, Structural)]
pub enum SourceDecision {
    /// It is no request for an image.
    Forward,
    /// The image is at hand. A frame is needed if someone waited for it.
    Reuse { redraw: bool },
    /// The image is being decoded: who asks is served when that is done.
    Join,
    /// The image is on its way.
    Wait,
    /// The image is to be loaded.
    Load,
    /// Too many images are on their way: the request is made again later.
    Defer,
}

/// The address that a command asks an image of.
pub open spec fn source_of(command: AppCommand) -> Option<Seq<char>> {
    match command {
        AppCommand::LoadAttachmentPreview { url } => Some(url@),
        AppCommand::LoadProfileAvatarPreview { key } => Some(key@),
        _ => None,
    }
}

/// What becomes of a request while `active` are on their way.
pub open spec fn decision(
    active: Set<Seq<char>>,
    source: Option<Seq<char>>,
    at_hand: bool,
    waiting: nat,
    decoding: bool,
) -> SourceDecision {
    match source {
        None => SourceDecision::Forward,
        Some(url) => if at_hand {
            SourceDecision::Reuse { redraw: waiting > 0 }
        } else if decoding {
            SourceDecision::Join
        } else if active.contains(url) {
            SourceDecision::Wait
        } else if active.len() < MAX_ACTIVE_MEDIA_SOURCES {
            SourceDecision::Load
        } else {
            SourceDecision::Defer
        },
    }
}

/// Whether the frame must be drawn anew once a request was decided.
pub open spec fn needs_frame(d: SourceDecision) -> bool {
    match d {
        SourceDecision::Reuse { redraw } => redraw,
        SourceDecision::Forward => true,
        SourceDecision::Load => true,
        _ => false,
    }
}

pub fn decision_needs_frame(d: SourceDecision) -> (r: bool)
    ensures
        r == needs_frame(d),
{
    match d {
        SourceDecision::Reuse { redraw } => redraw,
        SourceDecision::Forward => true,
        SourceDecision::Load => true,
        _ => false,
    }
}

proof fn lemma_text_set(v: Seq<String>)
    requires
        texts(v).no_duplicates(),
    ensures
        text_set(v).finite(),
        text_set(v).len() == v.len(),
{
    texts(v).unique_seq_to_set();
}

impl MediaSources {
    /// Each image is on its way once, and not too many are.
    pub closed spec fn wf(self) -> bool {
        texts(self.active@).no_duplicates() && self.active@.len() <= MAX_ACTIVE_MEDIA_SOURCES
    }

    /// Never more than the limit are on their way.
    pub proof fn sources_are_limited(self)
        requires
            self.wf(),
        ensures
            self@.finite(),
            self@.len() <= MAX_ACTIVE_MEDIA_SOURCES,
    {
        lemma_text_set(self.active@);
    }

    pub fn new() -> (r: MediaSources)
        ensures
            r.wf(),
            r@ == Set::<Seq<char>>::empty(),
    {
        let r = MediaSources { active: Vec::new() };
        assert(texts(r.active@) =~= Seq::<Seq<char>>::empty());
        assert(text_set(r.active@) =~= Set::<Seq<char>>::empty());
        r
    }

    pub fn len(&self) -> (n: usize)
        requires
            self.wf(),
        ensures
            n == self@.len(),
    {
        proof {
            lemma_text_set(self.active@);
        }
        self.active.len()
    }

    pub fn contains(&self, url: &str) -> (r: bool)
        requires
            self.wf(),
        ensures
            r == self@.contains(url@),
    {
        let r = list_contains(self.active.as_slice(), url);
        proof {
            let all = texts(self.active@);
            assert(r == has_text(all, url@));
            if self@.contains(url@) {
                let i = choose|i: int| 0 <= i < all.len() && all[i] == url@;
                assert(all[i] == url@);
            }
        }
        r
    }

    /// Lets an image go.
    pub fn release(&mut self, url: &str)
        requires
            old(self).wf(),
        ensures
            final(self).wf(),
            final(self)@ == old(self)@.remove(url@),
    {
        let ghost before = texts(self.active@);
        let mut i: usize = 0;
        while i < self.active.len()
            invariant
                i <= self.active@.len(),
                before == texts(self.active@),
                before.no_duplicates(),
                self.active@.len() <= MAX_ACTIVE_MEDIA_SOURCES,
                self@ == old(self)@,
                forall|k: int| 0 <= k < i ==> #[trigger] before[k] != url@,
            decreases self.active@.len() - i,
        {
            if str_eq(self.active[i].as_str(), url) {
                let _ = self.active.remove(i);
                proof {
                    let after = texts(self.active@);
                    assert(after =~= before.remove(i as int));
                    assert(before[i as int] == url@);
                    assert forall|t: Seq<char>| #[trigger] after.to_set().contains(t) == before.to_set().remove(url@).contains(
                        t,
                    ) by {
                        if after.contains(t) {
                            let k = choose|k: int| 0 <= k < after.len() && after[k] == t;
                            let m = if k < i { k } else { k + 1 };
                            assert(before[m] == t);
                        }
                        if before.contains(t) && t != url@ {
                            let k = choose|k: int| 0 <= k < before.len() && before[k] == t;
                            let m = if k < i { k } else { k - 1 };
                            assert(after[m] == t);
                        }
                    }
                    assert(text_set(self.active@) =~= before.to_set().remove(url@));
                    assert(after.no_duplicates()) by {
                        assert forall|a: int, b: int| 0 <= a < after.len() && 0 <= b < after.len() && a != b implies after[a]
                            != after[b] by {
                            let m = if a < i { a } else { a + 1 };
                            let n = if b < i { b } else { b + 1 };
                            assert(before[m] != before[n]);
                        }
                    }
                }
                return ;
            }
            i += 1;
        }
        proof {
            assert(!before.contains(url@));
            assert(text_set(self.active@) =~= old(self)@.remove(url@));
        }
    }

    /// Decides a request. `at_hand` says whether the image is in a cache, `waiting` how many wait for
    /// it, and `decoding` whether it is being decoded.
    pub fn resolve_source_command(&mut self, command: &AppCommand, at_hand: bool, waiting: usize, decoding: bool) -> (d:
        SourceDecision)
        requires
            old(self).wf(),
        ensures
            final(self).wf(),
            d == decision(old(self)@, source_of(*command), at_hand, waiting as nat, decoding),
            final(self)@ == (if d == SourceDecision::Load {
                old(self)@.insert(source_of(*command)->0)
            } else {
                old(self)@
            }),
    {
        let url: &String = match command {
            AppCommand::LoadAttachmentPreview { url } => url,
            AppCommand::LoadProfileAvatarPreview { key } => key,
            _ => {
                return SourceDecision::Forward;
            },
        };
        if at_hand {
            return SourceDecision::Reuse { redraw: waiting > 0 };
        }
        if decoding {
            return SourceDecision::Join;
        }
        if self.contains(url.as_str()) {
            return SourceDecision::Wait;
        }
        if self.len() >= MAX_ACTIVE_MEDIA_SOURCES {
            return SourceDecision::Defer;
        }
        let ghost before = texts(self.active@);
        proof {
            lemma_text_set(self.active@);
        }
        let copy = url.clone();
        self.active.push(copy);
        proof {
            let after = texts(self.active@);
            assert(after =~= before.push(url@));
            assert forall|t: Seq<char>| #[trigger] after.to_set().contains(t) == before.to_set().insert(url@).contains(t) by {
                if after.contains(t) {
                    let k = choose|k: int| 0 <= k < after.len() && after[k] == t;
                    if k < before.len() {
                        assert(before[k] == t);
                    }
                }
                if before.contains(t) {
                    let k = choose|k: int| 0 <= k < before.len() && before[k] == t;
                    assert(after[k] == t);
                }
                if t == url@ {
                    assert(after[before.len() as int] == t);
                }
            }
            assert(text_set(self.active@) =~= before.to_set().insert(url@));
            assert(after.no_duplicates()) by {
                assert forall|a: int, b: int| 0 <= a < after.len() && 0 <= b < after.len() && a != b implies after[a]
                    != after[b] by {
                    if a < before.len() && b < before.len() {
                        assert(before[a] != before[b]);
                    } else if a < before.len() {
                        assert(before.contains(before[a]));
                    } else {
                        assert(before.contains(before[b]));
                    }
                }
            }
        }
        SourceDecision::Load
    }
}

/// A picture of a member that is to be drawn beside a message.
#[derive(Debug, PartialEq, Eq)]
pub struct AvatarTarget {
    pub url: String,
    pub row: i64,
    pub visible_height: u16,
    pub top_clip_rows: u16,
}

pub struct AvatarTargetView {
    pub url: Seq<char>,
    pub row: i64,
    pub visible_height: u16,
    pub top_clip_rows: u16,
}

impl View for AvatarTarget {
    type V = AvatarTargetView;

    open spec fn view(&self) -> AvatarTargetView {
        AvatarTargetView {
            url: self.url@,
            row: self.row,
            visible_height: self.visible_height,
            top_clip_rows: self.top_clip_rows,
        }
    }
}

pub open spec fn avatar_views(v: Seq<AvatarTarget>) -> Seq<AvatarTargetView> {
    v.map_values(|t: AvatarTarget| t@)
}

/// Who asked for an image to be decoded.
#[derive(Debug, PartialEq, Eq)]
pub enum MediaImageDecodeKey {
    Preview(ImagePreviewKey),
    Avatar(String),
    Emoji(String),
}

pub enum DecodeKeyView {
    Preview(KeyView),
    Avatar(Seq<char>),
    Emoji(Seq<char>),
}

impl View for MediaImageDecodeKey {
    type V = DecodeKeyView;

    open spec fn view(&self) -> DecodeKeyView {
        match self {
            MediaImageDecodeKey::Preview(key) => DecodeKeyView::Preview(key@),
            MediaImageDecodeKey::Avatar(url) => DecodeKeyView::Avatar(url@),
            MediaImageDecodeKey::Emoji(url) => DecodeKeyView::Emoji(url@),
        }
    }
}

/// A wish for a decoded image, and the version of the cache entry that made it.
#[derive(Debug, PartialEq, Eq)]
pub struct MediaImageDecodeRequest {
    pub key: MediaImageDecodeKey,
    pub generation: u64,
}

pub struct DecodeRequestView {
    pub key: DecodeKeyView,
    pub generation: u64,
}

impl View for MediaImageDecodeRequest {
    type V = DecodeRequestView;

    open spec fn view(&self) -> DecodeRequestView {
        DecodeRequestView { key: self.key@, generation: self.generation }
    }
}

pub open spec fn request_views(v: Seq<MediaImageDecodeRequest>) -> Seq<DecodeRequestView> {
    v.map_values(|r: MediaImageDecodeRequest| r@)
}

/// What is to be shown in a frame: the previews, the avatars with the addresses they are loaded from,
/// and the addresses of the emojis.
pub struct MediaTargets {
    pub previews: Vec<ImagePreviewTarget>,
    pub avatars: Vec<AvatarTarget>,
    pub avatar_sources: Vec<String>,
    pub emojis: Vec<String>,
}

pub struct MediaTargetsView {
    pub previews: Seq<TargetView>,
    pub avatars: Seq<AvatarTargetView>,
    pub avatar_sources: Seq<Seq<char>>,
    pub emojis: Seq<Seq<char>>,
}

impl View for MediaTargets {
    type V = MediaTargetsView;

    open spec fn view(&self) -> MediaTargetsView {
        MediaTargetsView {
            previews: target_views(self.previews@),
            avatars: avatar_views(self.avatars@),
            avatar_sources: texts(self.avatar_sources@),
            emojis: texts(self.emojis@),
        }
    }
}

impl MediaTargetsView {
    /// Whether something that is shown comes from `url`.
    pub open spec fn shows(self, url: Seq<char>) -> bool {
        ||| exists|i: int| 0 <= i < self.previews.len() && (#[trigger] self.previews[i]).url == url
        ||| has_text(self.avatar_sources, url)
        ||| has_text(self.emojis, url)
    }

    /// Whether what asked for a decoded image is shown.
    pub open spec fn asks(self, key: DecodeKeyView) -> bool {
        match key {
            DecodeKeyView::Preview(key) => exists|i: int|
                0 <= i < self.previews.len() && (#[trigger] self.previews[i]).key() == key,
            DecodeKeyView::Avatar(url) => has_text(self.avatar_sources, url),
            DecodeKeyView::Emoji(url) => has_text(self.emojis, url),
        }
    }

    /// The addresses of everything that is shown, in the order of what shows it.
    pub open spec fn urls(self) -> Seq<Seq<char>> {
        self.previews.map_values(|t: TargetView| t.url) + self.avatar_sources + self.emojis
    }
}

impl MediaTargets {
    fn source_is_live(&self, url: &str) -> (r: bool)
        ensures
            r == self@.shows(url@),
    {
        let mut i: usize = 0;
        while i < self.previews.len()
            invariant
                i <= self.previews@.len(),
                forall|k: int| 0 <= k < i ==> (#[trigger] self@.previews[k]).url != url@,
            decreases self.previews@.len() - i,
        {
            assert(self@.previews[i as int].url == self.previews@[i as int].url@);
            if str_eq(self.previews[i].url.as_str(), url) {
                return true;
            }
            i += 1;
        }
        list_contains(self.avatar_sources.as_slice(), url) || list_contains(self.emojis.as_slice(), url)
    }

    /// Whether a wish for a decoded image still stands: its target is shown, and the cache entry that
    /// made it is the current one.
    pub fn keeps_request(&self, request: &MediaImageDecodeRequest, accepted: bool) -> (r: bool)
        ensures
            r == (self@.asks(request@.key) && accepted),
    {
        let asked = match &request.key {
            MediaImageDecodeKey::Preview(key) => {
                let mut found = false;
                let mut i: usize = 0;
                while i < self.previews.len()
                    invariant
                        i <= self.previews@.len(),
                        found <==> exists|k: int| 0 <= k < i && (#[trigger] self@.previews[k]).key() == key@,
                    decreases self.previews@.len() - i,
                {
                    let other = self.previews[i].key();
                    assert(self@.previews[i as int].key() == other@);
                    if same_preview(&other, key) {
                        found = true;
                    }
                    i += 1;
                }
                found
            },
            MediaImageDecodeKey::Avatar(url) => list_contains(self.avatar_sources.as_slice(), url.as_str()),
            MediaImageDecodeKey::Emoji(url) => list_contains(self.emojis.as_slice(), url.as_str()),
        };
        asked && accepted
    }

    /// The wishes whose target is shown, in their order.
    pub fn live_requests(&self, requests: Vec<MediaImageDecodeRequest>) -> (r: Vec<MediaImageDecodeRequest>)
        ensures
            request_views(r@) == request_views(requests@).filter(|q: DecodeRequestView| self@.asks(q.key)),
    {
        let ghost keep = |q: DecodeRequestView| self@.asks(q.key);
        let ghost all = request_views(requests@);
        let mut kept: Vec<MediaImageDecodeRequest> = Vec::new();
        assert(request_views(kept@) =~= all.take(0).filter(keep)) by {
            reveal(Seq::filter);
        }
        for request in it: requests
            invariant
                all == request_views(it.seq()),
                it.seq() == requests@,
                keep == (|q: DecodeRequestView| self@.asks(q.key)),
                request_views(kept@) == all.take(it.index() as int).filter(keep),
        {
            let ghost before = kept@;
            let ghost i = it.index() as int;
            assert(all[i] == request@);
            assert(all.take(i + 1).drop_last() =~= all.take(i));
            assert(all.take(i + 1).filter(keep) == (if keep(request@) {
                all.take(i).filter(keep).push(request@)
            } else {
                all.take(i).filter(keep)
            })) by {
                reveal(Seq::filter);
            }
            if self.keeps_request(&request, true) {
                kept.push(request);
                assert(request_views(kept@) =~= request_views(before).push(request@));
            }
        }
        assert(all.take(all.len() as int) =~= all);
        kept
    }

    /// The addresses of everything that is shown.
    pub fn visible_urls(&self) -> (r: Vec<String>)
        ensures
            texts(r@) == self@.urls(),
    {
        let mut out: Vec<String> = Vec::new();
        let ghost front = self@.previews.map_values(|t: TargetView| t.url);
        let mut i: usize = 0;
        while i < self.previews.len()
            invariant
                i <= self.previews@.len(),
                front == self@.previews.map_values(|t: TargetView| t.url),
                texts(out@) == front.take(i as int),
            decreases self.previews@.len() - i,
        {
            let ghost before = out@;
            let url = self.previews[i].url.clone();
            assert(front[i as int] == self@.previews[i as int].url);
            assert(self@.previews[i as int] == self.previews@[i as int]@);
            out.push(url);
            assert(texts(out@) =~= texts(before).push(url@));
            assert(front.take(i + 1) =~= front.take(i as int).push(front[i as int]));
            i += 1;
        }
        assert(front.take(i as int) =~= front);
        push_all(&mut out, &self.avatar_sources);
        push_all(&mut out, &self.emojis);
        out
    }
}

fn push_all(out: &mut Vec<String>, more: &Vec<String>)
    ensures
        texts(final(out)@) == texts(old(out)@) + texts(more@),
{
    let mut i: usize = 0;
    assert(texts(out@) =~= texts(out@) + texts(more@).take(0));
    while i < more.len()
        invariant
            i <= more@.len(),
            texts(out@) == texts(old(out)@) + texts(more@).take(i as int),
        decreases more@.len() - i,
    {
        let ghost before = out@;
        let s = more[i].clone();
        out.push(s);
        assert(texts(out@) =~= texts(before).push(s@));
        assert(texts(more@).take(i + 1) =~= texts(more@).take(i as int).push(s@));
        i += 1;
    }
    assert(texts(more@).take(i as int) =~= texts(more@));
}

/// The previews of a frame, put where they are. A preview in the viewer has its area; of the others only
/// the visible rows are drawn.
pub open spec fn placed_previews(targets: Seq<TargetView>, areas: Seq<Option<Rect>>) -> Map<FragmentView, Rect>
    decreases targets.len(),
{
    if targets.len() == 0 {
        Map::empty()
    } else {
        let before = placed_previews(targets.drop_last(), areas.drop_last());
        match areas.last() {
            None => before,
            Some(area) => before.insert(targets.last().fragment(), visible_area(targets.last(), area)),
        }
    }
}

pub open spec fn visible_area(t: TargetView, area: Rect) -> Rect {
    if t.viewer || area.height <= t.visible_preview_height {
        area
    } else {
        Rect { height: t.visible_preview_height, ..area }
    }
}

pub open spec fn placed_avatars(targets: Seq<AvatarTargetView>, circular: bool) -> Map<AvatarKeyView, AvatarFingerprint>
    decreases targets.len(),
{
    if targets.len() == 0 {
        Map::empty()
    } else {
        let t = targets.last();
        placed_avatars(targets.drop_last(), circular).insert(
            AvatarKeyView { url: t.url, row: t.row },
            AvatarFingerprint { visible_height: t.visible_height, top_clip_rows: t.top_clip_rows, circular },
        )
    }
}

pub open spec fn placed_popup(url: Option<Seq<char>>, area: Option<Rect>, circular: bool) -> Option<PopupView> {
    match (url, area) {
        (Some(url), Some(area)) => Some(PopupView { url, circular, area }),
        _ => None,
    }
}

/// Where everything of a frame is.
pub open spec fn placed(
    t: MediaTargetsView,
    areas: Seq<Option<Rect>>,
    circular: bool,
    popup_url: Option<Seq<char>>,
    popup_area: Option<Rect>,
) -> PlacementsView {
    PlacementsView {
        previews: placed_previews(t.previews, areas),
        avatars: placed_avatars(t.avatars, circular),
        popup_avatar: placed_popup(popup_url, popup_area, circular),
    }
}

/// The areas of a frame that only the layout knows: that of each preview, if it is on the screen, and
/// that of the avatar in the profile popup.
pub struct FrameAreas {
    pub previews: Vec<Option<Rect>>,
    pub popup_avatar: Option<Rect>,
    pub circular_avatars: bool,
}

/// The images of the dashboard.
pub struct DashboardMediaRuntime {
    pub sources: MediaSources,
    pub targets: MediaTargets,
    pub last_placements: FramePlacements,
    pub current_placements: FramePlacements,
    pub placement_diff: PlacementDiff,
    pub popup_avatar_url: Option<String>,
}

/// What is to be done about an event.
#[derive(Clone, Copy, Debug, PartialEq, Eq, Structural)]
pub enum MediaEventStep {
    /// Nothing shown needs the image: it is dropped before it is decoded.
    Discard,
    /// The image is to be decoded for what is shown.
    Decode,
    /// The caches take note of the event.
    Record,
}

pub open spec fn event_step(targets: MediaTargetsView, event: AppEvent) -> MediaEventStep {
    match event {
        AppEvent::AttachmentPreviewLoaded { url, bytes: _ } => if targets.shows(url@) {
            MediaEventStep::Decode
        } else {
            MediaEventStep::Discard
        },
        _ => MediaEventStep::Record,
    }
}

/// The images that are on their way after an event: one that nobody waits for and one that failed are
/// not.
pub open spec fn sources_after(active: Set<Seq<char>>, targets: MediaTargetsView, event: AppEvent) -> Set<Seq<char>> {
    match event {
        AppEvent::AttachmentPreviewLoaded { url, bytes: _ } => if targets.shows(url@) {
            active
        } else {
            active.remove(url@)
        },
        AppEvent::AttachmentPreviewLoadFailed { url, message: _ } => active.remove(url@),
        _ => active,
    }
}

impl DashboardMediaRuntime {
    pub open spec fn wf(self) -> bool {
        self.sources.wf()
    }

    /// Where the images of the last drawn frame are.
    pub open spec fn last(self) -> PlacementsView {
        self.last_placements@
    }

    /// Where the images of the frame in preparation are.
    pub open spec fn current(self) -> PlacementsView {
        self.current_placements@
    }

    /// What the frame in preparation changes.
    pub open spec fn diff(self) -> PlacementDiff {
        self.placement_diff
    }

    pub fn new() -> (r: DashboardMediaRuntime)
        ensures
            r.wf(),
            r.sources@ == Set::<Seq<char>>::empty(),
            r.targets@.previews == Seq::<TargetView>::empty(),
            r.targets@.avatars == Seq::<AvatarTargetView>::empty(),
            r.targets@.avatar_sources == Seq::<Seq<char>>::empty(),
            r.targets@.emojis == Seq::<Seq<char>>::empty(),
            r.popup_avatar_url is None,
            r.last() == r.current(),
            r.last().previews == Map::<FragmentView, Rect>::empty(),
            r.last().avatars == Map::<AvatarKeyView, AvatarFingerprint>::empty(),
            r.last().popup_avatar is None,
            !r.diff().need_clear,
    {
        let r = DashboardMediaRuntime {
            sources: MediaSources::new(),
            targets: MediaTargets {
                previews: Vec::new(),
                avatars: Vec::new(),
                avatar_sources: Vec::new(),
                emojis: Vec::new(),
            },
            last_placements: FramePlacements::default(),
            current_placements: FramePlacements::default(),
            placement_diff: PlacementDiff {
                need_clear: false,
                unchanged_previews: Vec::new(),
                unchanged_avatars: Vec::new(),
                popup_avatar_unchanged: false,
            },
            popup_avatar_url: None,
        };
        assert(r.targets@.previews =~= Seq::<TargetView>::empty());
        assert(r.targets@.avatars =~= Seq::<AvatarTargetView>::empty());
        assert(r.targets@.avatar_sources =~= Seq::<Seq<char>>::empty());
        assert(r.targets@.emojis =~= Seq::<Seq<char>>::empty());
        r
    }

    /// Takes note of an event: says what is to be done, and lets go what no longer is on its way.
    pub fn record_event(&mut self, event: &AppEvent) -> (step: MediaEventStep)
        requires
            old(self).wf(),
        ensures
            final(self).wf(),
            step == event_step(old(self).targets@, *event),
            final(self).sources@ == sources_after(old(self).sources@, old(self).targets@, *event),
            final(self).targets == old(self).targets,
            final(self).last() == old(self).last(),
            final(self).current() == old(self).current(),
            final(self).diff() == old(self).diff(),
            final(self).popup_avatar_url == old(self).popup_avatar_url,
    {
        match event {
            AppEvent::AttachmentPreviewLoaded { url, bytes: _ } => {
                if self.targets.source_is_live(url.as_str()) {
                    MediaEventStep::Decode
                } else {
                    self.sources.release(url.as_str());
                    MediaEventStep::Discard
                }
            },
            AppEvent::AttachmentPreviewLoadFailed { url, message: _ } => {
                self.sources.release(url.as_str());
                MediaEventStep::Record
            },
            _ => MediaEventStep::Record,
        }
    }

    /// Takes note that a decoder is done with an image, or that it will try again.
    pub fn store_media_decode(&mut self, url: &str, still_decoding: bool)
        requires
            old(self).wf(),
        ensures
            final(self).wf(),
            final(self).sources@ == (if still_decoding { old(self).sources@ } else { old(self).sources@.remove(url@) }),
            final(self).targets == old(self).targets,
            final(self).last() == old(self).last(),
            final(self).current() == old(self).current(),
            final(self).diff() == old(self).diff(),
            final(self).popup_avatar_url == old(self).popup_avatar_url,
    {
        if !still_decoding {
            self.sources.release(url);
        }
    }

    fn resolve_placements(&self, areas: &FrameAreas) -> (r: FramePlacements)
        requires
            areas.previews@.len() == self.targets.previews@.len(),
        ensures
            r@ == placed(
                self.targets@,
                areas.previews@,
                areas.circular_avatars,
                opt_text(self.popup_avatar_url),
                areas.popup_avatar,
            ),
    {
        let mut placements = FramePlacements::default();
        let ghost all = self.targets@.previews;
        let ghost rects = areas.previews@;
        let mut i: usize = 0;
        while i < self.targets.previews.len()
            invariant
                i <= all.len(),
                all == self.targets@.previews,
                rects == areas.previews@,
                rects.len() == all.len(),
                placements@.previews == placed_previews(all.take(i as int), rects.take(i as int)),
                placements@.avatars == Map::<AvatarKeyView, AvatarFingerprint>::empty(),
                placements@.popup_avatar is None,
            decreases all.len() - i,
        {
            assert(all.take(i + 1).drop_last() =~= all.take(i as int));
            assert(rects.take(i + 1).drop_last() =~= rects.take(i as int));
            assert(all[i as int] == self.targets.previews@[i as int]@);
            let target = &self.targets.previews[i];
            if let Some(area) = areas.previews[i] {
                let shown = if target.viewer || area.height <= target.visible_preview_height {
                    area
                } else {
                    Rect { x: area.x, y: area.y, width: area.width, height: target.visible_preview_height }
                };
                placements.insert_preview(target, shown);
            }
            i += 1;
        }
        assert(all.take(i as int) =~= all);
        assert(rects.take(i as int) =~= rects);
        let ghost faces = self.targets@.avatars;
        let mut j: usize = 0;
        while j < self.targets.avatars.len()
            invariant
                j <= faces.len(),
                faces == self.targets@.avatars,
                placements@.previews == placed_previews(all, rects),
                placements@.avatars == placed_avatars(faces.take(j as int), areas.circular_avatars),
                placements@.popup_avatar is None,
            decreases faces.len() - j,
        {
            assert(faces.take(j + 1).drop_last() =~= faces.take(j as int));
            let target = &self.targets.avatars[j];
            assert(faces[j as int] == target@);
            placements.insert_avatar(
                target.url.clone(),
                target.row,
                AvatarFingerprint {
                    visible_height: target.visible_height,
                    top_clip_rows: target.top_clip_rows,
                    circular: areas.circular_avatars,
                },
            );
            j += 1;
        }
        assert(faces.take(j as int) =~= faces);
        let popup = match (&self.popup_avatar_url, areas.popup_avatar) {
            (Some(url), Some(area)) => Some(
                PopupAvatar { url: url.clone(), circular: areas.circular_avatars, area },
            ),
            _ => None,
        };
        placements.set_popup_avatar(popup);
        placements
    }

    /// Prepares a frame: places its images, and says which of them are where they were.
    pub fn prepare_frame(&mut self, targets: MediaTargets, popup_avatar_url: Option<String>, areas: &FrameAreas)
        requires
            old(self).wf(),
            areas.previews@.len() == targets.previews@.len(),
        ensures
            final(self).wf(),
            final(self).sources == old(self).sources,
            final(self).targets == targets,
            final(self).popup_avatar_url == popup_avatar_url,
            final(self).last() == old(self).last(),
            final(self).current() == placed(
                targets@,
                areas.previews@,
                areas.circular_avatars,
                opt_text(popup_avatar_url),
                areas.popup_avatar,
            ),
            final(self).diff().need_clear == (final(self).current() != old(self).last()),
            final(self).diff().popup_avatar_unchanged == (final(self).current().popup_avatar == old(self).last().popup_avatar),
            forall|key: FragmentView| #[trigger]
                final(self).diff().keeps_preview(key) <==> crate::runtime::placement::agree(
                    final(self).current().previews,
                    old(self).last().previews,
                    key,
                ),
            forall|key: AvatarKeyView| #[trigger]
                final(self).diff().keeps_avatar(key) <==> crate::runtime::placement::agree(
                    final(self).current().avatars,
                    old(self).last().avatars,
                    key,
                ),
    {
        self.targets = targets;
        self.popup_avatar_url = popup_avatar_url;
        let current = self.resolve_placements(areas);
        self.placement_diff = current.diff(&self.last_placements);
        self.current_placements = current;
    }

    /// Lets go the images whose last wish was withdrawn.
    pub fn retire(&mut self, urls: &Vec<String>)
        requires
            old(self).wf(),
        ensures
            final(self).wf(),
            final(self).sources@ == old(self).sources@.difference(texts(urls@).to_set()),
            final(self).targets == old(self).targets,
            final(self).last() == old(self).last(),
            final(self).current() == old(self).current(),
            final(self).diff() == old(self).diff(),
            final(self).popup_avatar_url == old(self).popup_avatar_url,
    {
        let ghost all = texts(urls@);
        let mut i: usize = 0;
        assert(self.sources@ =~= old(self).sources@.difference(all.take(0).to_set()));
        while i < urls.len()
            invariant
                i <= urls@.len(),
                all == texts(urls@),
                self.wf(),
                self.sources@ == old(self).sources@.difference(all.take(i as int).to_set()),
                self.targets == old(self).targets,
                self.last() == old(self).last(),
                self.current() == old(self).current(),
                self.diff() == old(self).diff(),
                self.popup_avatar_url == old(self).popup_avatar_url,
            decreases urls@.len() - i,
        {
            let ghost before = self.sources@;
            self.sources.release(urls[i].as_str());
            proof {
                let less = all.take(i as int);
                let more = all.take(i + 1);
                assert(more =~= less.push(all[i as int]));
                assert(all[i as int] == urls@[i as int]@);
                assert forall|t: Seq<char>| #[trigger] more.contains(t) == (less.contains(t) || t == all[i as int]) by {
                    if more.contains(t) {
                        let k = choose|k: int| 0 <= k < more.len() && more[k] == t;
                        if k < i {
                            assert(less[k] == t);
                        }
                    }
                    if less.contains(t) {
                        let k = choose|k: int| 0 <= k < less.len() && less[k] == t;
                        assert(more[k] == t);
                    }
                    if t == all[i as int] {
                        assert(more[i as int] == t);
                    }
                }
                assert(self.sources@ =~= old(self).sources@.difference(more.to_set()));
            }
            i += 1;
        }
        assert(all.take(i as int) =~= all);
    }

    /// Takes the frame in preparation for drawn.
    pub fn commit_placements(&mut self)
        requires
            old(self).wf(),
        ensures
            final(self).wf(),
            final(self).last() == old(self).current(),
            final(self).current().previews == Map::<FragmentView, Rect>::empty(),
            final(self).current().avatars == Map::<AvatarKeyView, AvatarFingerprint>::empty(),
            final(self).current().popup_avatar is None,
            final(self).sources == old(self).sources,
            final(self).targets == old(self).targets,
            final(self).diff() == old(self).diff(),
            final(self).popup_avatar_url == old(self).popup_avatar_url,
    {
        let mut placements = FramePlacements::default();
        std::mem::swap(&mut placements, &mut self.current_placements);
        self.last_placements = placements;
    }

    /// Whether stale images must be erased. A terminal that removes an image itself when its cells are
    /// written over needs no erasing.
    pub fn need_clear(&self, terminal_clears: bool) -> (r: bool)
        ensures
            r == (self.diff().need_clear && !terminal_clears),
    {
        self.placement_diff.need_clear && !terminal_clears
    }

    /// The previews that the erasing frame keeps: those that stayed where they were.
    pub fn unchanged_previews(&self) -> (r: Vec<ImagePreviewTarget>)
        ensures
            target_views(r@) == self.targets@.previews.filter(|t: TargetView| self.diff().keeps_preview(t.fragment())),
    {
        let ghost keep = |t: TargetView| self.diff().keeps_preview(t.fragment());
        let ghost all = self.targets@.previews;
        let mut out: Vec<ImagePreviewTarget> = Vec::new();
        assert(target_views(out@) =~= all.take(0).filter(keep)) by {
            reveal(Seq::filter);
        }
        let mut i: usize = 0;
        while i < self.targets.previews.len()
            invariant
                i <= all.len(),
                all == self.targets@.previews,
                keep == (|t: TargetView| self.diff().keeps_preview(t.fragment())),
                target_views(out@) == all.take(i as int).filter(keep),
            decreases all.len() - i,
        {
            let t = &self.targets.previews[i];
            let ghost before = out@;
            assert(all[i as int] == t@);
            assert(all.take(i + 1).drop_last() =~= all.take(i as int));
            assert(all.take(i + 1).filter(keep) == (if keep(t@) {
                all.take(i as int).filter(keep).push(t@)
            } else {
                all.take(i as int).filter(keep)
            })) by {
                reveal(Seq::filter);
            }
            let key = t.fragment_key();
            if crate::runtime::placement::has_fragment(&self.placement_diff.unchanged_previews, &key) {
                let copy = clone_target(t);
                out.push(copy);
                assert(target_views(out@) =~= target_views(before).push(t@));
            }
            i += 1;
        }
        assert(all.take(i as int) =~= all);
        out
    }

    /// The avatars that the erasing frame keeps.
    pub fn unchanged_avatars(&self) -> (r: Vec<AvatarTarget>)
        ensures
            avatar_views(r@) == self.targets@.avatars.filter(
                |t: AvatarTargetView| self.diff().keeps_avatar(AvatarKeyView { url: t.url, row: t.row }),
            ),
    {
        let ghost keep = |t: AvatarTargetView| self.diff().keeps_avatar(AvatarKeyView { url: t.url, row: t.row });
        let ghost all = self.targets@.avatars;
        let mut out: Vec<AvatarTarget> = Vec::new();
        assert(avatar_views(out@) =~= all.take(0).filter(keep)) by {
            reveal(Seq::filter);
        }
        let mut i: usize = 0;
        while i < self.targets.avatars.len()
            invariant
                i <= all.len(),
                all == self.targets@.avatars,
                keep == (|t: AvatarTargetView| self.diff().keeps_avatar(AvatarKeyView { url: t.url, row: t.row })),
                avatar_views(out@) == all.take(i as int).filter(keep),
            decreases all.len() - i,
        {
            let t = &self.targets.avatars[i];
            let ghost before = out@;
            assert(all[i as int] == t@);
            assert(all.take(i + 1).drop_last() =~= all.take(i as int));
            assert(all.take(i + 1).filter(keep) == (if keep(t@) {
                all.take(i as int).filter(keep).push(t@)
            } else {
                all.take(i as int).filter(keep)
            })) by {
                reveal(Seq::filter);
            }
            if crate::runtime::placement::has_avatar(&self.placement_diff.unchanged_avatars, t.url.as_str(), t.row) {
                let copy = AvatarTarget {
                    url: t.url.clone(),
                    row: t.row,
                    visible_height: t.visible_height,
                    top_clip_rows: t.top_clip_rows,
                };
                out.push(copy);
                assert(avatar_views(out@) =~= avatar_views(before).push(t@));
            }
            i += 1;
        }
        assert(all.take(i as int) =~= all);
        out
    }

    /// The avatar of the profile popup, where the erasing frame keeps it.
    pub fn unchanged_popup_avatar(&self) -> (r: Option<String>)
        ensures
            opt_text(r) == (if self.diff().popup_avatar_unchanged { opt_text(self.popup_avatar_url) } else { None }),
    {
        if self.placement_diff.popup_avatar_unchanged {
            match &self.popup_avatar_url {
                Some(url) => Some(url.clone()),
                None => None,
            }
        } else {
            None
        }
    }

    /// When the next failed image is to be loaded again, given the earliest time of each kind. While no
    /// more images may be on their way there is nothing to wait for.
    pub fn next_retry_deadline(&self, previews: Option<u64>, avatars: Option<u64>, emojis: Option<u64>) -> (r: Option<u64>)
        requires
            self.wf(),
        ensures
            r == (if self.sources@.len() >= MAX_ACTIVE_MEDIA_SOURCES {
                None
            } else {
                earliest(earliest(previews, avatars), emojis)
            }),
    {
        if self.sources.len() >= MAX_ACTIVE_MEDIA_SOURCES {
            return None;
        }
        next_deadline(previews, avatars, emojis)
    }
}

/// The earlier of two times that may not come.
pub open spec fn earliest(a: Option<u64>, b: Option<u64>) -> Option<u64> {
    match (a, b) {
        (Some(x), Some(y)) => Some(if x <= y { x } else { y }),
        (Some(x), None) => Some(x),
        (None, other) => other,
    }
}

fn earlier(a: Option<u64>, b: Option<u64>) -> (r: Option<u64>)
    ensures
        r == earliest(a, b),
{
    match (a, b) {
        (Some(x), Some(y)) => Some(if x <= y { x } else { y }),
        (Some(x), None) => Some(x),
        (None, other) => other,
    }
}

/// The earliest of three times that may not come: when the next animated image moves on.
pub fn next_deadline(previews: Option<u64>, avatars: Option<u64>, emojis: Option<u64>) -> (r: Option<u64>)
    ensures
        r == earliest(earliest(previews, avatars), emojis),
{
    earlier(earlier(previews, avatars), emojis)
}

/// Where an image may be at hand.
#[derive(Clone, Copy, Debug, PartialEq, Eq, Structural)]
pub enum ImagePlace {
    Decoded,
    Previews,
    Avatars,
    Emojis,
}

/// The places that hold an image.
#[derive(Clone, Copy, Debug, PartialEq, Eq, Structural)]
pub struct ImagePlaces {
    pub decoded: bool,
    pub previews: bool,
    pub avatars: bool,
    pub emojis: bool,
}

/// The place an image is taken from. The decoded images come first, and a place is not filled from
/// itself.
pub open spec fn taken_from(places: ImagePlaces, own: Option<ImagePlace>) -> Option<ImagePlace> {
    if places.decoded {
        Some(ImagePlace::Decoded)
    } else if places.previews && own != Some(ImagePlace::Previews) {
        Some(ImagePlace::Previews)
    } else if places.avatars && own != Some(ImagePlace::Avatars) {
        Some(ImagePlace::Avatars)
    } else if places.emojis && own != Some(ImagePlace::Emojis) {
        Some(ImagePlace::Emojis)
    } else {
        None
    }
}

pub fn reuse_cached_source(places: ImagePlaces, own: Option<ImagePlace>) -> (r: Option<ImagePlace>)
    ensures
        r == taken_from(places, own),
{
    let skip_previews = matches!(own, Some(ImagePlace::Previews));
    let skip_avatars = matches!(own, Some(ImagePlace::Avatars));
    let skip_emojis = matches!(own, Some(ImagePlace::Emojis));
    if places.decoded {
        Some(ImagePlace::Decoded)
    } else if places.previews && !skip_previews {
        Some(ImagePlace::Previews)
    } else if places.avatars && !skip_avatars {
        Some(ImagePlace::Avatars)
    } else if places.emojis && !skip_emojis {
        Some(ImagePlace::Emojis)
    } else {
        None
    }
}

/// The avatar that the profile popup shows: one that is about to be uploaded before the one that is in
/// use, and none where avatars are off.
pub open spec fn popup_avatar(show: bool, pending: Option<Seq<char>>, loaded: Option<Seq<char>>) -> Option<Seq<char>> {
    if !show {
        None
    } else if pending is Some {
        pending
    } else {
        loaded
    }
}

pub fn resolve_popup_avatar_url(show_avatars: bool, pending: Option<String>, loaded: Option<String>) -> (r: Option<String>)
    ensures
        opt_text(r) == popup_avatar(show_avatars, opt_text(pending), opt_text(loaded)),
{
    if !show_avatars {
        return None;
    }
    match pending {
        Some(key) => Some(key),
        None => loaded,
    }
}

/// The text that says why a preview of an attachment is not made.
pub open spec fn too_large(bytes: u64) -> Seq<char> {
    "attachment preview is too large: "@ + decimal(bytes as nat) + " bytes"@
}

/// Whether an attachment is small enough for a preview.
pub fn check_upload_preview_size(bytes: u64, limit: u64) -> (r: Result<(), String>)
    ensures
        r is Ok == (bytes <= limit),
        r matches Err(e) ==> e@ == too_large(bytes),
{
    if bytes <= limit {
        return Ok(());
    }
    let mut message = "attachment preview is too large: ".to_string();
    let n = decimal_string(bytes);
    message.append(n.as_str());
    message.append(" bytes");
    Err(message)
}

/// How much the caches hold: the decoded images, which all kinds share, and what was made for the
/// terminal.
pub fn live_media_bytes(shared_decoded: usize, previews: usize, avatars: usize, emojis: usize) -> (r: usize)
    ensures
        r == (if shared_decoded + previews + avatars + emojis > usize::MAX {
            usize::MAX as int
        } else {
            shared_decoded + previews + avatars + emojis
        }),
{
    let protocols = previews.saturating_add(avatars).saturating_add(emojis);
    shared_decoded.saturating_add(protocols)
}

/// The kibibytes that are resident, as the second number of the text counts pages of four.
pub open spec fn resident(statm: Seq<char>) -> Option<u64> {
    if words(statm).len() < 2 {
        None
    } else {
        match parsed_number(words(statm)[1]) {
            Some(pages) => Some(if pages * 4 > u64::MAX { u64::MAX } else { (pages * 4) as u64 }),
            None => None,
        }
    }
}

pub fn resident_kib(statm: &str) -> (r: Option<u64>)
    ensures
        r == resident(statm@),
{
    let parts = split_words(statm);
    if parts.len() < 2 {
        return None;
    }
    assert(words(statm@)[1] == parts@[1]@);
    match parse_number(parts[1].as_str()) {
        Some(pages) => Some(if pages > u64::MAX / 4 { u64::MAX } else { pages * 4 }),
        None => None,
    }
}

} // verus!
