//! The control bus: messages the HTTP control plane broadcasts to live
//! connections after the corresponding database mutation has committed.

use vstd::prelude::*;

verus! {

/// A control-plane mutation, as every live connection observes it.
/// `RightChanged(canvas_id, user_id, new_right)` carries `None` for a
/// revoked right; `ModeratedChanged(canvas_id, moderated)` toggles the
/// canvas's moderation flag.
#[derive(Clone, Debug)]
pub enum CanvasDataEvent {
    RightChanged(String, String, Option<String>),
    ModeratedChanged(String, bool),
}

} // verus!
