//! The two value types the sequencer operates on: the physical state of a
//! dressing and one atomic servo instruction.

use vstd::prelude::*;

verus! {

/// Where a dressing physically stands: linear position as a percentage of
/// openness (0 = fully retracted and closed, 100 = fully extended and
/// open) and slat tilt in degrees (-90 to +90).
#[derive(Clone, Copy, Debug, PartialEq, Eq, Structural, Hash)]
pub struct WindowDressingState {
    pub position: u8,
    pub tilt: i8,
}

impl WindowDressingState {
    /// The ranges a physically meaningful state lies in.
    pub open spec fn wf(self) -> bool {
        self.position <= 100 && -90 <= self.tilt <= 90
    }

    /// The total order on states: primarily by ascending position; at equal
    /// position, the state with the larger tilt sorts as the lesser one.
    pub open spec fn cmp_spec(self, other: Self) -> core::cmp::Ordering {
        if self.position == other.position {
            if other.tilt < self.tilt {
                core::cmp::Ordering::Less
            } else if other.tilt == self.tilt {
                core::cmp::Ordering::Equal
            } else {
                core::cmp::Ordering::Greater
            }
        } else if self.position < other.position {
            core::cmp::Ordering::Less
        } else {
            core::cmp::Ordering::Greater
        }
    }
}

impl Default for WindowDressingState {
    /// The zero state: fully closed, slats level.
    fn default() -> (r: Self)
        ensures
            r.position == 0,
            r.tilt == 0,
    {
        WindowDressingState { position: 0, tilt: 0 }
    }
}

impl PartialOrd for WindowDressingState {
    fn partial_cmp(&self, other: &Self) -> (r: Option<core::cmp::Ordering>) {
        Some(
            if self.position == other.position {
                if other.tilt < self.tilt {
                    core::cmp::Ordering::Less
                } else if other.tilt == self.tilt {
                    core::cmp::Ordering::Equal
                } else {
                    core::cmp::Ordering::Greater
                }
            } else if self.position < other.position {
                core::cmp::Ordering::Less
            } else {
                core::cmp::Ordering::Greater
            },
        )
    }
}

impl vstd::std_specs::cmp::PartialOrdSpecImpl for WindowDressingState {
    open spec fn obeys_partial_cmp_spec() -> bool {
        true
    }

    open spec fn partial_cmp_spec(&self, other: &Self) -> Option<core::cmp::Ordering> {
        Some(self.cmp_spec(*other))
    }
}

/// One atomic drive step: hold `pulse_width` at the actuator for `duration`
/// nanoseconds; once that time has elapsed, the dressing is in
/// `completed_state`.
#[derive(Clone, Copy, Debug, PartialEq, Eq, Structural)]
pub struct WindowDressingServoInstruction {
    pub pulse_width: i16,
    /// Drive time in whole nanoseconds.
    pub duration: u64,
    pub completed_state: WindowDressingState,
}

impl WindowDressingServoInstruction {
    /// Merge an adjacent instruction into this one. Equal pulse width is the
    /// only valid merge key: the durations add and the later completed state
    /// wins, so one longer drive segment stands for the pair.
    pub fn coalesce(&mut self, rhs: &WindowDressingServoInstruction)
        requires
            old(self).pulse_width == rhs.pulse_width,
            old(self).duration + rhs.duration <= u64::MAX,
        ensures
            final(self).pulse_width == old(self).pulse_width,
            final(self).duration == old(self).duration + rhs.duration,
            final(self).completed_state == rhs.completed_state,
    {
        self.duration = self.duration + rhs.duration;
        self.completed_state = rhs.completed_state;
    }
}

} // verus!
