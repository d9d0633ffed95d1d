//! Requests for a copy of a frame.
use crate::state::ProjectWC;
use crate::state::Screencopy;
use vstd::prelude::*;

verus! {

impl ProjectWC {
    /// Remembers a client's request until the next frame. A request that is still waiting
    /// gives way to it.
    pub fn frame(&mut self, screencopy: Screencopy)
        ensures
            *final(self) == (ProjectWC { pending_screencopy: Some(screencopy), ..*old(self) }),
    {
        self.pending_screencopy = Some(screencopy);
    }
}

} // verus!
