//! How the next frame is drawn.

use vstd::prelude::*;

verus! {

/// Whether stale images are erased first, and whether the terminal may show nothing in between.
#[derive(Clone, Copy, Debug, PartialEq, Eq, Structural)]
pub struct RedrawPlan {
    pub clear_stale_media: bool,
    pub synchronized: bool,
}

/// Whether an animated image moved on since the last frame.
pub struct DashboardRedrawState {
    media_animation_pending: bool,
}

impl View for DashboardRedrawState {
    type V = bool;

    closed spec fn view(&self) -> bool {
        self.media_animation_pending
    }
}

impl DashboardRedrawState {
    pub fn request_media_animation(&mut self)
        ensures
            final(self)@,
    {
        self.media_animation_pending = true;
    }

    /// The plan of the next frame. An animation asks for one frame.
    pub fn take_plan(&mut self, clear_stale_media: bool) -> (plan: RedrawPlan)
        ensures
            !final(self)@,
            plan == (RedrawPlan { clear_stale_media, synchronized: clear_stale_media || old(self)@ }),
    {
        let pending = self.media_animation_pending;
        self.media_animation_pending = false;
        RedrawPlan { clear_stale_media, synchronized: clear_stale_media || pending }
    }
}

impl Default for DashboardRedrawState {
    fn default() -> (r: DashboardRedrawState)
        ensures
            !r@,
    {
        DashboardRedrawState { media_animation_pending: false }
    }
}

} // verus!
