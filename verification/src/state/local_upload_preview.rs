//! The previews of files that are about to be uploaded.

use crate::state::image_viewer::{ascii_lower, to_ascii_lower};
use crate::text::{chars_of, str_eq, string_of};
use vstd::prelude::*;
use vstd::string::*;

verus! {

/// How far a preview has come. Once it is made it holds a `P`.
pub enum LocalUploadPreviewStatus<P> {
    Pending,
    Loading,
    Ready(P),
    Failed(String),
}

/// A preview: the file it belongs to, and a number by which a late result is told from the current one.
pub struct LocalUploadPreviewState<P> {
    pub attachment_index: usize,
    pub generation: u64,
    pub filename: String,
    pub state: LocalUploadPreviewStatus<P>,
}

/// The part of a name behind its last dot, or the whole name.
pub open spec fn extension(name: Seq<char>) -> Seq<char>
    decreases name.len(),
{
    if name.len() == 0 || name.last() == '.' {
        Seq::empty()
    } else {
        extension(name.drop_last()).push(name.last())
    }
}

pub open spec fn lowered(s: Seq<char>) -> Seq<char> {
    s.map_values(|c: char| ascii_lower(c))
}

pub open spec fn image_extension(e: Seq<char>) -> bool {
    ||| e == "png"@
    ||| e == "jpg"@
    ||| e == "jpeg"@
    ||| e == "gif"@
    ||| e == "webp"@
    ||| e == "bmp"@
    ||| e == "tif"@
    ||| e == "tiff"@
}

/// Whether a file is an image, by its name.
pub open spec fn is_candidate(name: Seq<char>) -> bool {
    extension(name) != name && image_extension(lowered(extension(name)))
}

proof fn lemma_extension(name: Seq<char>, k: int)
    requires
        0 <= k <= name.len(),
        forall|i: int| k <= i < name.len() ==> name[i] != '.',
        k == 0 || name[k - 1] == '.',
    ensures
        extension(name) == name.skip(k),
    decreases name.len(),
{
    if name.len() == k {
        assert(name.skip(k) =~= Seq::<char>::empty());
        if k > 0 {
            assert(name.last() == '.');
        }
    } else {
        let rest = name.drop_last();
        assert(name[name.len() - 1] != '.');
        lemma_extension(rest, k);
        assert(name.skip(k) =~= rest.skip(k).push(name.last()));
    }
}

pub fn local_upload_preview_candidate(filename: &str) -> (r: bool)
    ensures
        r == is_candidate(filename@),
{
    let cs = chars_of(filename);
    let mut k: usize = cs.len();
    while k > 0 && cs[k - 1] != '.'
        invariant
            cs@ == filename@,
            k <= cs@.len(),
            forall|i: int| k <= i < cs@.len() ==> cs@[i] != '.',
        decreases k,
    {
        k -= 1;
    }
    proof {
        lemma_extension(filename@, k as int);
    }
    if k == 0 {
        assert(filename@.skip(0) =~= filename@);
        return false;
    }
    assert(extension(filename@).len() < filename@.len());
    let mut lower: Vec<char> = Vec::new();
    let ghost goal = lowered(extension(filename@));
    let mut i: usize = k;
    while i < cs.len()
        invariant
            cs@ == filename@,
            k <= i <= cs@.len(),
            goal == lowered(filename@.skip(k as int)),
            lower@ == goal.take(i - k),
        decreases cs@.len() - i,
    {
        lower.push(to_ascii_lower(cs[i]));
        assert(filename@.skip(k as int)[i - k] == cs@[i as int]);
        assert(goal.take(i - k + 1) =~= goal.take(i - k).push(goal[i - k]));
        i += 1;
    }
    assert(lower@ =~= goal);
    let ext = string_of(&lower, 0, lower.len());
    assert(ext@ =~= goal);
    str_eq(ext.as_str(), "png") || str_eq(ext.as_str(), "jpg") || str_eq(ext.as_str(), "jpeg") || str_eq(
        ext.as_str(),
        "gif",
    ) || str_eq(ext.as_str(), "webp") || str_eq(ext.as_str(), "bmp") || str_eq(ext.as_str(), "tif") || str_eq(
        ext.as_str(),
        "tiff",
    )
}

/// The place of the preview of a file, or the end.
pub open spec fn place_of_preview<P>(previews: Seq<LocalUploadPreviewState<P>>, index: usize, name: Seq<char>) -> int
    decreases previews.len(),
{
    if previews.len() == 0 || (previews[0].attachment_index == index && previews[0].filename@ == name) {
        0
    } else {
        1 + place_of_preview(previews.drop_first(), index, name)
    }
}

/// The previews so far, those that are left of before, and the last number.
pub struct Syncing<P> {
    pub previews: Seq<LocalUploadPreviewState<P>>,
    pub previous: Seq<LocalUploadPreviewState<P>>,
    pub generation: u64,
}

/// The previews with that of one more file: the one it had, or a new one that waits.
pub open spec fn synced_one<P>(s: Syncing<P>, index: usize, name: String) -> Syncing<P> {
    let at = place_of_preview(s.previous, index, name@);
    if !is_candidate(name@) {
        s
    } else if at < s.previous.len() {
        Syncing { previews: s.previews.push(s.previous[at]), previous: s.previous.remove(at), ..s }
    } else {
        let generation: u64 = if s.generation < u64::MAX { (s.generation + 1) as u64 } else { u64::MAX };
        Syncing {
            previews: s.previews.push(
                LocalUploadPreviewState {
                    attachment_index: index,
                    generation,
                    filename: name,
                    state: LocalUploadPreviewStatus::Pending,
                },
            ),
            generation,
            ..s
        }
    }
}

pub open spec fn synced<P>(
    names: Seq<String>,
    previous: Seq<LocalUploadPreviewState<P>>,
    generation: u64,
    k: int,
) -> Syncing<P>
    decreases k,
{
    if k <= 0 {
        Syncing { previews: Seq::empty(), previous, generation }
    } else {
        synced_one(synced(names, previous, generation, k - 1), (k - 1) as usize, names[k - 1])
    }
}

fn find_preview<P>(previews: &Vec<LocalUploadPreviewState<P>>, index: usize, name: &str) -> (r: Option<usize>)
    ensures
        match r {
            Some(i) => i < previews@.len() && place_of_preview(previews@, index, name@) == i,
            None => place_of_preview(previews@, index, name@) == previews@.len(),
        },
{
    let mut i: usize = 0;
    assert(previews@.skip(0) =~= previews@);
    while i < previews.len()
        invariant
            i <= previews@.len(),
            place_of_preview(previews@, index, name@) == i + place_of_preview(previews@.skip(i as int), index, name@),
        decreases previews@.len() - i,
    {
        if previews[i].attachment_index == index && str_eq(previews[i].filename.as_str(), name) {
            return Some(i);
        }
        assert(previews@.skip(i as int).drop_first() =~= previews@.skip(i + 1));
        i += 1;
    }
    None
}

/// Brings the previews in line with the files. A file that stayed in its place keeps its preview.
pub fn sync_local_upload_previews<P>(
    names: &Vec<String>,
    previews: Vec<LocalUploadPreviewState<P>>,
    generation: u64,
    enabled: bool,
) -> (r: (Vec<LocalUploadPreviewState<P>>, u64))
    ensures
        !enabled ==> r.0@.len() == 0 && r.1 == generation,
        enabled ==> r.0@ == synced(names@, previews@, generation, names@.len() as int).previews && r.1 == synced(
            names@,
            previews@,
            generation,
            names@.len() as int,
        ).generation,
{
    if !enabled {
        return (Vec::new(), generation);
    }
    let ghost before = previews@;
    let ghost first = generation;
    let mut previous = previews;
    let mut last = generation;
    let mut out: Vec<LocalUploadPreviewState<P>> = Vec::new();
    let mut i: usize = 0;
    while i < names.len()
        invariant
            i <= names@.len(),
            out@ == synced(names@, before, first, i as int).previews,
            previous@ == synced(names@, before, first, i as int).previous,
            last == synced(names@, before, first, i as int).generation,
        decreases names@.len() - i,
    {
        let name = &names[i];
        if local_upload_preview_candidate(name.as_str()) {
            match find_preview(&previous, i, name.as_str()) {
                Some(at) => {
                    let kept = previous.remove(at);
                    out.push(kept);
                },
                None => {
                    last = last.saturating_add(1);
                    out.push(
                        LocalUploadPreviewState {
                            attachment_index: i,
                            generation: last,
                            filename: name.clone(),
                            state: LocalUploadPreviewStatus::Pending,
                        },
                    );
                },
            }
        }
        i += 1;
    }
    (out, last)
}

/// A preview that is to be made.
#[derive(Debug, PartialEq, Eq)]
pub struct PendingPreview {
    pub attachment_index: usize,
    pub generation: u64,
    pub filename: String,
}

/// The place of the first preview that waits, or the end.
pub open spec fn first_pending<P>(previews: Seq<LocalUploadPreviewState<P>>) -> int
    decreases previews.len(),
{
    if previews.len() == 0 || previews[0].state is Pending {
        0
    } else {
        1 + first_pending(previews.drop_first())
    }
}

/// Takes up the first preview that waits, where its file is there.
pub fn take_pending_local_upload_preview<P>(
    previews: &mut Vec<LocalUploadPreviewState<P>>,
    attachments: usize,
) -> (r: Option<PendingPreview>)
    ensures
        ({
            let at = first_pending(old(previews)@);
            if at < old(previews)@.len() && old(previews)@[at].attachment_index < attachments {
                let p = old(previews)@[at];
                &&& r == Some(
                    PendingPreview {
                        attachment_index: p.attachment_index,
                        generation: p.generation,
                        filename: p.filename,
                    },
                )
                &&& final(previews)@ == old(previews)@.update(
                    at,
                    LocalUploadPreviewState { state: LocalUploadPreviewStatus::Loading, ..p },
                )
            } else {
                r is None && final(previews)@ == old(previews)@
            }
        }),
{
    let mut i: usize = 0;
    assert(previews@.skip(0) =~= previews@);
    while i < previews.len()
        invariant
            i <= previews@.len(),
            previews@ == old(previews)@,
            first_pending(previews@) == i + first_pending(previews@.skip(i as int)),
        decreases previews@.len() - i,
    {
        assert(previews@.skip(i as int)[0] == previews@[i as int]);
        if matches!(previews[i].state, LocalUploadPreviewStatus::Pending) {
            if previews[i].attachment_index >= attachments {
                return None;
            }
            let attachment_index = previews[i].attachment_index;
            let generation = previews[i].generation;
            let filename = previews[i].filename.clone();
            previews.set(
                i,
                LocalUploadPreviewState {
                    attachment_index,
                    generation,
                    filename: filename.clone(),
                    state: LocalUploadPreviewStatus::Loading,
                },
            );
            return Some(PendingPreview { attachment_index, generation, filename });
        }
        assert(previews@.skip(i as int).drop_first() =~= previews@.skip(i + 1));
        i += 1;
    }
    None
}

/// The place of the preview that a result belongs to, or the end.
pub open spec fn place_of_result<P>(previews: Seq<LocalUploadPreviewState<P>>, index: usize, generation: u64) -> int
    decreases previews.len(),
{
    if previews.len() == 0 || (previews[0].attachment_index == index && previews[0].generation == generation) {
        0
    } else {
        1 + place_of_result(previews.drop_first(), index, generation)
    }
}

pub open spec fn finished<P>(result: Result<P, String>) -> LocalUploadPreviewStatus<P> {
    match result {
        Ok(p) => LocalUploadPreviewStatus::Ready(p),
        Err(message) => LocalUploadPreviewStatus::Failed(message),
    }
}

/// Takes the result for the preview it belongs to. One that came too late is dropped.
pub fn store_local_upload_preview_result<P>(
    previews: &mut Vec<LocalUploadPreviewState<P>>,
    attachment_index: usize,
    generation: u64,
    filename: String,
    result: Result<P, String>,
)
    ensures
        ({
            let at = place_of_result(old(previews)@, attachment_index, generation);
            final(previews)@ == (if at < old(previews)@.len() {
                old(previews)@.update(
                    at,
                    LocalUploadPreviewState { attachment_index, generation, filename, state: finished(result) },
                )
            } else {
                old(previews)@
            })
        }),
{
    let mut i: usize = 0;
    assert(previews@.skip(0) =~= previews@);
    while i < previews.len()
        invariant
            i <= previews@.len(),
            previews@ == old(previews)@,
            place_of_result(previews@, attachment_index, generation) == i + place_of_result(
                previews@.skip(i as int),
                attachment_index,
                generation,
            ),
        decreases previews@.len() - i,
    {
        assert(previews@.skip(i as int)[0] == previews@[i as int]);
        if previews[i].attachment_index == attachment_index && previews[i].generation == generation {
            let state = match result {
                Ok(p) => LocalUploadPreviewStatus::Ready(p),
                Err(message) => LocalUploadPreviewStatus::Failed(message),
            };
            previews.set(i, LocalUploadPreviewState { attachment_index, generation, filename, state });
            return;
        }
        assert(previews@.skip(i as int).drop_first() =~= previews@.skip(i + 1));
        i += 1;
    }
}

/// What is shown of a preview.
#[derive(Debug, PartialEq, Eq)]
pub enum LocalUploadPreviewView {
    Loading { filename: String },
    Ready,
    Failed { filename: String, message: String },
}

pub fn local_upload_preview_view<P>(preview: &LocalUploadPreviewState<P>) -> (r: LocalUploadPreviewView)
    ensures
        r == (match preview.state {
            LocalUploadPreviewStatus::Ready(_) => LocalUploadPreviewView::Ready,
            LocalUploadPreviewStatus::Failed(message) => LocalUploadPreviewView::Failed {
                filename: preview.filename,
                message,
            },
            _ => LocalUploadPreviewView::Loading { filename: preview.filename },
        }),
{
    match &preview.state {
        LocalUploadPreviewStatus::Ready(_) => LocalUploadPreviewView::Ready,
        LocalUploadPreviewStatus::Failed(message) => LocalUploadPreviewView::Failed {
            filename: preview.filename.clone(),
            message: message.clone(),
        },
        _ => LocalUploadPreviewView::Loading { filename: preview.filename.clone() },
    }
}

} // verus!
