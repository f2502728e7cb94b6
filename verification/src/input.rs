use vstd::prelude::*;

use crate::geometry::CursorPosition;

verus! {

/// The state of the primary (left) mouse button for the current frame, as
/// reported by the upstream input-ingestion step.
#[derive(Clone, Copy, Debug, PartialEq, Eq, Structural)]
pub struct MouseButtonState {
    /// The button transitioned to pressed this frame.
    pub just_pressed: bool,
    /// The button is currently held down.
    pub pressed: bool,
}

/// The phase of a touch event.
#[derive(Clone, Copy, Debug, PartialEq, Eq, Structural)]
pub enum TouchPhase {
    Started,
    Moved,
    Ended,
    Cancelled,
}

/// One touch event reported for the current frame.
#[derive(Clone, Copy, Debug, PartialEq, Eq, Structural)]
pub struct TouchEvent {
    pub phase: TouchPhase,
    /// The touch slot; the primary slot has id 0.
    pub id: u64,
}

/// A touch in the given slot was released this frame.
pub open spec fn spec_touch_just_released(events: Seq<TouchEvent>, id: u64) -> bool {
    exists|k: int|
        0 <= k < events.len() && events[k].phase == TouchPhase::Ended && events[k].id == id
}

/// Scans the frame's touch events for a release in the given slot.
pub fn touch_just_released(events: &Vec<TouchEvent>, id: u64) -> (r: bool)
    ensures
        r == spec_touch_just_released(events@, id),
{
    let mut k: usize = 0;
    while k < events.len()
        invariant
            0 <= k <= events@.len(),
            forall|m: int|
                0 <= m < k ==> !(events@[m].phase == TouchPhase::Ended && events@[m].id == id),
        decreases events@.len() - k,
    {
        if events[k].id == id && matches!(events[k].phase, TouchPhase::Ended) {
            return true;
        }
        k = k + 1;
    }
    false
}

/// A press is active this frame: the mouse button was just pressed or is
/// held, or the primary touch slot reported a release.
pub open spec fn spec_click_edge(mouse: MouseButtonState, touches: Seq<TouchEvent>) -> bool {
    mouse.just_pressed || mouse.pressed || spec_touch_just_released(touches, 0)
}

/// Computes the per-frame click edge from the mouse button state and the
/// frame's touch events.
pub fn click_edge(mouse: &MouseButtonState, touches: &Vec<TouchEvent>) -> (r: bool)
    ensures
        r == spec_click_edge(*mouse, touches@),
{
    mouse.just_pressed || mouse.pressed || touch_just_released(touches, 0)
}

/// The capability of providing the current pointer position: the production
/// source is backed by the windowing layer, and tests supply a deterministic
/// double. Returning `None` means no pointer is active this frame.
pub trait CursorSource {
    fn get_cursor_position(&self) -> Option<CursorPosition>;
}

} // verus!
