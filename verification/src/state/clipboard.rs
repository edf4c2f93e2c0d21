//! Pasting from the clipboard, which is read in the background while the user goes on typing.

use vstd::prelude::*;

verus! {

/// A text field of the profile.
#[derive(Clone, Copy, Debug, PartialEq, Eq, Structural)]
pub enum ProfileField {
    DisplayName,
    Pronouns,
    Bio,
}

/// A field of the form for a new post.
#[derive(Clone, Copy, Debug, PartialEq, Eq, Structural)]
pub enum ForumPostField {
    Title,
    Body,
}

/// Where what is pasted goes.
#[derive(Clone, Copy, Debug, PartialEq, Eq, Structural)]
pub enum ClipboardPasteTarget {
    UserProfileAvatar,
    UserProfileText(ProfileField),
    ForumPost(ForumPostField),
    Composer,
}

#[derive(Clone, Copy, Debug, PartialEq, Eq, Structural)]
pub struct ClipboardPasteRequest {
    pub request_id: u64,
    pub target: ClipboardPasteTarget,
}

/// What of the dashboard decides where a paste goes.
#[derive(Clone, Copy, Debug, PartialEq, Eq, Structural)]
pub struct PasteContext {
    pub accepts_avatar: bool,
    pub avatar_pending: bool,
    pub profile_field: Option<ProfileField>,
    pub forum_post_field: Option<ForumPostField>,
    pub modal_open: bool,
    pub composing: bool,
}

impl PasteContext {
    /// Where a paste goes now.
    pub open spec fn target(self) -> Option<ClipboardPasteTarget> {
        if self.accepts_avatar || self.avatar_pending {
            Some(ClipboardPasteTarget::UserProfileAvatar)
        } else if self.profile_field is Some {
            Some(ClipboardPasteTarget::UserProfileText(self.profile_field->0))
        } else if self.forum_post_field is Some {
            Some(ClipboardPasteTarget::ForumPost(self.forum_post_field->0))
        } else if self.modal_open || !self.composing {
            None
        } else {
            Some(ClipboardPasteTarget::Composer)
        }
    }

    pub fn clipboard_paste_target(&self) -> (r: Option<ClipboardPasteTarget>)
        ensures
            r == self.target(),
    {
        if self.accepts_avatar || self.avatar_pending {
            return Some(ClipboardPasteTarget::UserProfileAvatar);
        }
        if let Some(field) = self.profile_field {
            return Some(ClipboardPasteTarget::UserProfileText(field));
        }
        if let Some(field) = self.forum_post_field {
            return Some(ClipboardPasteTarget::ForumPost(field));
        }
        if self.modal_open || !self.composing {
            return None;
        }
        Some(ClipboardPasteTarget::Composer)
    }

    pub open spec fn accepts(self) -> bool {
        self.composing || self.forum_post_field is Some || self.profile_field is Some || self.accepts_avatar
    }

    pub fn accepts_clipboard_paste(&self) -> (r: bool)
        ensures
            r == self.accepts(),
    {
        self.composing || self.forum_post_field.is_some() || self.profile_field.is_some() || self.accepts_avatar
    }
}

fn same_target(a: Option<ClipboardPasteTarget>, b: ClipboardPasteTarget) -> (r: bool)
    ensures
        r == (a == Some(b)),
{
    match a {
        Some(a) => a == b,
        None => false,
    }
}

/// The pastes that were asked for, and the one that is under way.
#[derive(Clone, Copy, Debug, PartialEq, Eq, Structural)]
pub struct ClipboardState {
    pub next_request_id: u64,
    pub requested: Option<ClipboardPasteRequest>,
    pub request: Option<ClipboardPasteRequest>,
    pub pending: bool,
}

/// The next number of a request; after the last one the numbers begin again.
pub open spec fn next_id(id: u64) -> u64 {
    if id == u64::MAX {
        0
    } else {
        (id + 1) as u64
    }
}

impl ClipboardState {
    pub fn new() -> (r: ClipboardState)
        ensures
            r == (ClipboardState { next_request_id: 0, requested: None, request: None, pending: false }),
    {
        ClipboardState { next_request_id: 0, requested: None, request: None, pending: false }
    }

    /// Asks for a paste, where one can go somewhere.
    pub fn request_paste_clipboard(&mut self, context: &PasteContext)
        ensures
            *final(self) == (match context.target() {
                Some(target) => ClipboardState {
                    next_request_id: next_id(old(self).next_request_id),
                    requested: Some(
                        ClipboardPasteRequest { request_id: next_id(old(self).next_request_id), target },
                    ),
                    ..*old(self)
                },
                None => *old(self),
            }),
    {
        if let Some(target) = context.clipboard_paste_target() {
            self.next_request_id = if self.next_request_id == u64::MAX { 0 } else { self.next_request_id + 1 };
            self.requested = Some(ClipboardPasteRequest { request_id: self.next_request_id, target });
        }
    }

    /// Takes up what was asked for, unless the user went elsewhere meanwhile.
    pub fn take_paste_clipboard_request(&mut self, context: &PasteContext) -> (r: Option<u64>)
        ensures
            *final(self) == (ClipboardState { requested: None, ..*old(self) }),
            r == (match old(self).requested {
                Some(request) => if context.target() == Some(request.target) {
                    Some(request.request_id)
                } else {
                    None
                },
                None => None,
            }),
    {
        let taken = self.requested;
        self.requested = None;
        match taken {
            Some(request) => {
                if same_target(context.clipboard_paste_target(), request.target) {
                    Some(request.request_id)
                } else {
                    None
                }
            },
            None => None,
        }
    }

    /// Begins to read the clipboard, one at a time.
    pub fn start_clipboard_paste(&mut self, context: &PasteContext, request_id: u64) -> (started: bool)
        ensures
            started == (context.accepts() && old(self).request is None && context.target() is Some),
            *final(self) == (if started {
                ClipboardState {
                    request: Some(ClipboardPasteRequest { request_id, target: context.target()->0 }),
                    ..*old(self)
                }
            } else {
                *old(self)
            }),
    {
        if !context.accepts_clipboard_paste() || self.request.is_some() {
            return false;
        }
        match context.clipboard_paste_target() {
            Some(target) => {
                self.request = Some(ClipboardPasteRequest { request_id, target });
                true
            },
            None => false,
        }
    }

    /// Whether a request is the one under way, and still goes where it did.
    pub open spec fn matches(self, context: PasteContext, request_id: u64) -> bool {
        self.request is Some && self.request->0.request_id == request_id && context.target() == Some(
            self.request->0.target,
        )
    }

    fn clipboard_paste_request_matches(&self, context: &PasteContext, request_id: u64) -> (r: bool)
        ensures
            r == self.matches(*context, request_id),
    {
        match self.request {
            Some(request) => request.request_id == request_id && same_target(
                context.clipboard_paste_target(),
                request.target,
            ),
            None => false,
        }
    }

    /// Shows that a paste is under way.
    pub fn begin_clipboard_paste(&mut self, context: &PasteContext, request_id: u64) -> (begun: bool)
        ensures
            begun == (!old(self).pending && old(self).matches(*context, request_id)),
            *final(self) == (ClipboardState { pending: old(self).pending || begun, ..*old(self) }),
    {
        if self.pending || !self.clipboard_paste_request_matches(context, request_id) {
            return false;
        }
        self.pending = true;
        true
    }

    /// Ends a paste. What was read is taken where the request still goes there; the request ends in any
    /// case.
    pub fn finish_clipboard_paste(&mut self, context: &PasteContext, request_id: u64) -> (accepted: bool)
        ensures
            accepted == old(self).matches(*context, request_id),
            *final(self) == (if old(self).request is Some && old(self).request->0.request_id == request_id {
                ClipboardState { request: None, pending: false, ..*old(self) }
            } else {
                *old(self)
            }),
    {
        let accepted = self.clipboard_paste_request_matches(context, request_id);
        let owns = match self.request {
            Some(request) => request.request_id == request_id,
            None => false,
        };
        if owns {
            self.request = None;
            self.pending = false;
        }
        accepted
    }

    pub fn cancel_clipboard_paste(&mut self)
        ensures
            *final(self) == (ClipboardState {
                requested: None,
                request: None,
                pending: false,
                ..*old(self)
            }),
    {
        self.requested = None;
        self.request = None;
        self.pending = false;
    }
}

/// The lines of what is to be uploaded, with one for a paste that is under way.
pub fn pending_upload_line_count(attachments: usize, paste_pending: bool) -> (r: usize)
    requires
        attachments < usize::MAX,
    ensures
        r == attachments + (if paste_pending { 1int } else { 0int }),
{
    if paste_pending {
        attachments + 1
    } else {
        attachments
    }
}

/// What was read is taken once: a paste that ended is not accepted again.
pub proof fn pastes_are_taken_once(s: ClipboardState, context: PasteContext, later: PasteContext, request_id: u64)
    requires
        s.matches(context, request_id),
    ensures
        !(ClipboardState { request: None, pending: false, ..s }).matches(later, request_id),
{
}

} // verus!
