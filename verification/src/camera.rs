//! The camera's distance and what the events of a frame do to it.

use vstd::prelude::*;

verus! {

/// What the event source reports.
#[derive(Copy, Clone, Debug, PartialEq, Eq, Structural)]
pub enum Input {
    /// The window was closed.
    Quit,
    /// The escape key went down.
    Escape,
    /// The wheel was turned by this much.
    Scroll(i32),
    /// Anything else.
    Other,
}

/// What the frame loop does after an event.
#[derive(Copy, Clone, Debug, PartialEq, Eq, Structural)]
pub enum Action {
    /// Leave the loop.
    Stop,
    /// Go on with the next event.
    Continue,
}

/// The nearest that the camera comes, in quarters of a unit.
pub const NEAREST: i32 = 8;

/// The farthest that the camera goes, in quarters of a unit.
pub const FARTHEST: i32 = 20;

/// The direction of a turn of the wheel: 1, -1, or 0 for no turn.
pub open spec fn direction(delta: int) -> int {
    if delta > 0 {
        1
    } else if delta < 0 {
        -1
    } else {
        0
    }
}

/// `v`, or the nearer bound where `v` lies outside the bounds.
pub open spec fn bounded(v: int, lowest: int, highest: int) -> int {
    if v < lowest {
        lowest
    } else if v > highest {
        highest
    } else {
        v
    }
}

/// The camera on the depth axis. It moves in steps of a quarter of a unit
/// and stays between 2 and 5 units from the origin.
#[derive(Copy, Clone, Debug, PartialEq, Eq, Structural)]
pub struct Camera {
    quarters: i32,
}

impl Camera {
    /// The distance in quarters of a unit.
    pub closed spec fn quarters(&self) -> int {
        self.quarters as int
    }

    /// The camera is within its range.
    pub open spec fn wf(&self) -> bool {
        NEAREST <= self.quarters() <= FARTHEST
    }

    /// A camera at 3 units.
    pub fn new() -> (camera: Camera)
        ensures
            camera.wf(),
            camera.quarters() == 12,
    {
        Camera { quarters: 12 }
    }

    /// The distance in quarters of a unit.
    pub fn distance(&self) -> (quarters: i32)
        ensures
            quarters == self.quarters(),
    {
        self.quarters
    }

    /// Takes one event. Closing the window and the escape key stop the
    /// loop; a turn of the wheel moves the camera one step in its
    /// direction, as far as the range allows; nothing else has an effect.
    pub fn react(&mut self, input: Input) -> (action: Action)
        requires
            old(self).wf(),
        ensures
            final(self).wf(),
            action == match input {
                Input::Quit => Action::Stop,
                Input::Escape => Action::Stop,
                _ => Action::Continue,
            },
            final(self).quarters() == match input {
                Input::Scroll(delta) => bounded(
                    old(self).quarters() + direction(delta as int),
                    NEAREST as int,
                    FARTHEST as int,
                ),
                _ => old(self).quarters(),
            },
    {
        match input {
            Input::Quit => Action::Stop,
            Input::Escape => Action::Stop,
            Input::Scroll(delta) => {
                let moved = if delta > 0 {
                    self.quarters + 1
                } else if delta < 0 {
                    self.quarters - 1
                } else {
                    self.quarters
                };
                self.quarters = if moved < NEAREST {
                    NEAREST
                } else if moved > FARTHEST {
                    FARTHEST
                } else {
                    moved
                };
                Action::Continue
            },
            Input::Other => Action::Continue,
        }
    }
}

} // verus!
