//! The phases of one frame of the input actor, and their order.

use vstd::prelude::*;

verus! {

/// One phase of a frame. A frame runs the eight of them in the order in
/// which they stand here.
#[derive(PartialEq, Eq, Structural, Clone, Copy, Debug)]
pub enum Phase {
    /// Consume the window's events.
    Events,
    /// Put the cursor back in the middle, if the window has the focus.
    Cursor,
    /// Deliver what the network and the mesher sent.
    Messages,
    /// Tick the camera at its fixed rate.
    Camera,
    /// Run the streaming policy.
    Stream,
    /// Retry the messages that wait for a chunk.
    Pending,
    /// Draw the meshed chunks.
    Render,
    /// Count the frame and pace the loop.
    Accounting,
}

impl Phase {
    /// Place of the phase in a frame, from 0.
    pub open spec fn spec_index(self) -> int {
        match self {
            Phase::Events => 0,
            Phase::Cursor => 1,
            Phase::Messages => 2,
            Phase::Camera => 3,
            Phase::Stream => 4,
            Phase::Pending => 5,
            Phase::Render => 6,
            Phase::Accounting => 7,
        }
    }

    /// The phase that follows, as a mathematical value.
    pub open spec fn spec_next(self) -> Phase {
        match self {
            Phase::Events => Phase::Cursor,
            Phase::Cursor => Phase::Messages,
            Phase::Messages => Phase::Camera,
            Phase::Camera => Phase::Stream,
            Phase::Stream => Phase::Pending,
            Phase::Pending => Phase::Render,
            Phase::Render => Phase::Accounting,
            Phase::Accounting => Phase::Events,
        }
    }

    /// The phase a frame starts with.
    pub fn first() -> (r: Phase)
        ensures
            r.spec_index() == 0,
    {
        Phase::Events
    }

    /// Place of the phase in a frame, from 0.
    pub fn index(self) -> (r: u8)
        ensures
            r as int == self.spec_index(),
            r < 8,
    {
        match self {
            Phase::Events => 0,
            Phase::Cursor => 1,
            Phase::Messages => 2,
            Phase::Camera => 3,
            Phase::Stream => 4,
            Phase::Pending => 5,
            Phase::Render => 6,
            Phase::Accounting => 7,
        }
    }

    /// The phase that follows: the next one of the frame, or the first one
    /// of the next frame after the last.
    pub fn next(self) -> (r: Phase)
        ensures
            r == self.spec_next(),
            r.spec_index() == (self.spec_index() + 1) % 8,
    {
        match self {
            Phase::Events => Phase::Cursor,
            Phase::Cursor => Phase::Messages,
            Phase::Messages => Phase::Camera,
            Phase::Camera => Phase::Stream,
            Phase::Stream => Phase::Pending,
            Phase::Pending => Phase::Render,
            Phase::Render => Phase::Accounting,
            Phase::Accounting => Phase::Events,
        }
    }

    /// Whether a frame ends with this phase.
    pub fn ends_frame(self) -> (r: bool)
        ensures
            r == (self.spec_index() == 7),
    {
        match self {
            Phase::Accounting => true,
            _ => false,
        }
    }
}

/// A phase is known by its place, and a frame is a cycle: eight steps lead
/// from any phase back to it, and no fewer.
pub proof fn lemma_frame_is_a_cycle(p: Phase, q: Phase)
    ensures
        p.spec_index() == q.spec_index() ==> p == q,
        p.spec_next().spec_next().spec_next().spec_next().spec_next().spec_next().spec_next().spec_next()
            == p,
        p.spec_next() != p,
        p.spec_next().spec_next() != p,
        p.spec_next().spec_next().spec_next() != p,
        p.spec_next().spec_next().spec_next().spec_next() != p,
        p.spec_next().spec_next().spec_next().spec_next().spec_next() != p,
        p.spec_next().spec_next().spec_next().spec_next().spec_next().spec_next() != p,
        p.spec_next().spec_next().spec_next().spec_next().spec_next().spec_next().spec_next() != p,
{
}

} // verus!
