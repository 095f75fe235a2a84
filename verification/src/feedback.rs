//! Rotation feedback model: the direction a servo's feedback signal reports.

use vstd::prelude::*;

verus! {

/// Direction of rotation decoded from a servo's feedback PWM signal.
#[derive(Clone, Copy, Debug, PartialEq, Eq, Structural)]
pub enum Rotation {
    Clockwise,
    Counterclockwise,
    Stopped,
}

/// Default frequency, in hertz, of the feedback PWM signal.
pub fn default_feedback_freq() -> (r: u16)
    ensures
        r == 910,
{
    910
}

} // verus!
