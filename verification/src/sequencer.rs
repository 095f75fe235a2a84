//! The window-dressing sequencer: the state machine that holds where a
//! dressing is and where it should end up, and expands commands into a FIFO
//! queue of atomic servo instructions.

use std::collections::VecDeque;
use vstd::prelude::*;

use crate::conf::MotorConf;
use crate::persist::{decode, encode, encode_state, parse_state, DecodeError};
use crate::state::{WindowDressingServoInstruction, WindowDressingState};

verus! {

/// How long a hold instruction keeps the neutral pulse applied, in
/// nanoseconds.
pub const HOLD_TIME: u64 = 500_000_000;

/// Absolute difference of two integers.
pub open spec fn abs_diff(a: int, b: int) -> int {
    if a >= b {
        a - b
    } else {
        b - a
    }
}

/// The pulse width a tilt transition drives the slat axis with: the
/// extend-tilt pulse when the slats open (tilt decreasing, toward -90),
/// the retract-tilt pulse when they close (toward +90).
pub open spec fn tilt_pulse(conf: MotorConf, opening: bool) -> i16 {
    if opening {
        conf.spec_extend_tilt()
    } else {
        conf.spec_retract_tilt()
    }
}

/// Duration of one tilt degree step, in nanoseconds.
pub open spec fn tilt_step_time(conf: MotorConf) -> u64 {
    match conf.spec_full_tilt_time() {
        Some(t) => t / 180,
        None => 0,
    }
}

/// The tilt value after `k` one-degree steps from `from` toward `to`.
pub open spec fn tilt_step_target(from: i8, to: i8, k: int) -> i8 {
    if to < from {
        (from - k) as i8
    } else {
        (from + k) as i8
    }
}

/// The instructions a tilt transition from `from` to `to` enqueues, with the
/// dressing standing at `position`.
///
/// A disabled tilt axis or a zero change enqueues nothing. At position 100
/// (fully extended and open) a physical tilt change is not meaningful, so
/// a single neutral hold instruction carries the new tilt, advancing the
/// model without real motion. Otherwise there is one instruction per degree,
/// stepping the tilt toward `to` while the position stays put.
pub open spec fn tilt_plan(conf: MotorConf, position: u8, from: i8, to: i8) -> Seq<
    WindowDressingServoInstruction,
> {
    if !conf.tilt_enabled() || from == to {
        Seq::empty()
    } else if position == 100 {
        seq![hold_instruction(conf, WindowDressingState { position: 100u8, tilt: to })]
    } else {
        Seq::new(
            abs_diff(to as int, from as int) as nat,
            |k: int|
                WindowDressingServoInstruction {
                    pulse_width: tilt_pulse(conf, to < from),
                    duration: tilt_step_time(conf),
                    completed_state: WindowDressingState {
                        position,
                        tilt: tilt_step_target(from, to, k + 1),
                    },
                },
        )
    }
}

/// The pulse width a position move drives the motor with: the extend pulse
/// when opening (position rising toward 100, fully extended), the retract
/// pulse when closing.
pub open spec fn position_pulse(conf: MotorConf, opening: bool) -> i16 {
    if opening {
        conf.spec_extend()
    } else {
        conf.spec_retract()
    }
}

/// Duration of one percentage-point position step, in nanoseconds.
pub open spec fn position_step_time(conf: MotorConf) -> u64 {
    conf.spec_full_cycle_time() / 100
}

/// The tilt the slats are parked at while the position axis moves: the
/// extreme the motion leans into, or level when the tilt axis is disabled.
pub open spec fn moving_tilt(conf: MotorConf, opening: bool) -> i8 {
    if !conf.tilt_enabled() {
        0
    } else if opening {
        -90i8
    } else {
        90
    }
}

/// The run of per-percentage-point instructions a position command from
/// `cur.position` to `opened` enqueues: one instruction per point, stepping
/// the position toward the target with the slats parked.
pub open spec fn position_run(conf: MotorConf, cur: WindowDressingState, opened: u8) -> Seq<
    WindowDressingServoInstruction,
> {
    let opening = opened > cur.position;
    Seq::new(
        abs_diff(opened as int, cur.position as int) as nat,
        |k: int|
            WindowDressingServoInstruction {
                pulse_width: position_pulse(conf, opening),
                duration: position_step_time(conf),
                completed_state: WindowDressingState {
                    position: (if opening {
                        cur.position + k + 1
                    } else {
                        cur.position - (k + 1)
                    }) as u8,
                    tilt: moving_tilt(conf, opening),
                },
            },
    )
}

/// The whole queue a position command builds: park the slats at the moving
/// extreme, traverse the position change point by point, then restore the
/// slats to the angle they had before the move.
///
/// Design note on the fully open extreme, where two conventions compete
/// and only one can hold. One convention forces the tilt to a canonical 0
/// on the instruction that completes at position 100 and skips the restore
/// for a full open; the other keeps the parked angle through position 100
/// and still restores, so the plan settles at the pre-move slat angle.
/// Both cannot be true of the same plan. This library deliberately keeps
/// the second: the step completing at 100 carries the parked angle, and
/// the restore runs even at a full open (as the single neutral hold
/// `tilt_plan` gives at position 100), so the settled end state is the
/// commanded position with the pre-move tilt. A caller that wants a
/// canonical zero tilt at a full open gets it by commanding `set_tilt(0)`,
/// or from the endstop path, whose calibrated state does pin tilt 0.
pub open spec fn position_plan(conf: MotorConf, cur: WindowDressingState, opened: u8) -> Seq<
    WindowDressingServoInstruction,
> {
    if opened == cur.position {
        Seq::empty()
    } else {
        let opening = opened > cur.position;
        let park: i8 = if opening {
            -90i8
        } else {
            90
        };
        tilt_plan(conf, cur.position, cur.tilt, park) + position_run(conf, cur, opened)
            + tilt_plan(conf, opened, moving_tilt(conf, opening), cur.tilt)
    }
}

/// The desired tilt a position command leaves behind: the pre-move tilt is
/// re-recorded whenever the slats actually had to park, and kept otherwise.
pub open spec fn desired_tilt_after_position(
    conf: MotorConf,
    cur: WindowDressingState,
    opened: u8,
    old_tilt: i8,
) -> i8 {
    if opened == cur.position {
        old_tilt
    } else {
        let park: i8 = if opened > cur.position {
            -90i8
        } else {
            90
        };
        if conf.tilt_enabled() && cur.tilt != park {
            cur.tilt
        } else {
            old_tilt
        }
    }
}

/// A duration rounded to the nearest whole microsecond, in nanoseconds.
/// A value within half a microsecond of the `u64` ceiling rounds down, so
/// the result always fits.
pub open spec fn round_to_whole_us(d: u64) -> u64 {
    let r = d % 1000;
    if r >= 500 && d - r + 1000 <= u64::MAX {
        (d - r + 1000) as u64
    } else {
        (d - r) as u64
    }
}

/// `instruction` as the hardware loop receives it: the duration rounded to a
/// whole microsecond.
pub open spec fn rounded_instruction(instruction: WindowDressingServoInstruction) -> WindowDressingServoInstruction {
    WindowDressingServoInstruction { duration: round_to_whole_us(instruction.duration), ..instruction }
}

/// The explicit stop command: hold the neutral pulse for the fixed hold
/// time, leaving the dressing in `st`.
pub open spec fn hold_instruction(conf: MotorConf, st: WindowDressingState) -> WindowDressingServoInstruction {
    WindowDressingServoInstruction {
        pulse_width: conf.spec_center(),
        duration: HOLD_TIME,
        completed_state: st,
    }
}

/// Which travel extreme an endstop trigger is taken to mean: the opening
/// one when the plan was heading up (or the dressing already stood fully
/// open), and at an equal position when the slats were still turning down
/// toward the desired angle.
pub open spec fn endstop_opening(cur: WindowDressingState, desired: WindowDressingState) -> bool {
    if cur.position == desired.position {
        cur.tilt > desired.tilt
    } else {
        cur.position < desired.position || cur.position == 100
    }
}

/// The calibrated state an endstop trigger snaps the sequencer to.
pub open spec fn endstop_state(conf: MotorConf, cur: WindowDressingState, desired: WindowDressingState) -> WindowDressingState {
    let opening = endstop_opening(cur, desired);
    WindowDressingState {
        position: if opening {
            100u8
        } else {
            0u8
        },
        tilt: if conf.tilt_enabled() && !opening {
            90i8
        } else {
            0i8
        },
    }
}

/// One pull of the instruction accessor, as a step function over the queue
/// and the believed state: an empty queue yields nothing; otherwise the
/// front comes back rounded, the believed state advances to its completed
/// state, and a hold is buffered exactly when the pop emptied the queue
/// while the motor was actively driving.
pub open spec fn pull_step(
    conf: MotorConf,
    q: Seq<WindowDressingServoInstruction>,
    cur: WindowDressingState,
) -> (Seq<WindowDressingServoInstruction>, WindowDressingState, Option<
    WindowDressingServoInstruction,
>) {
    if q.len() == 0 {
        (q, cur, None)
    } else {
        let front = q[0];
        let rest = if q.len() == 1 && front.pulse_width != conf.spec_center() {
            seq![hold_instruction(conf, front.completed_state)]
        } else {
            q.drop_first()
        };
        (rest, front.completed_state, Some(rounded_instruction(front)))
    }
}

/// The instructions that repeated pulls return until the accessor reports
/// exhaustion, with the queue and believed state they leave behind; `fuel`
/// bounds the number of pulls.
pub open spec fn drain(
    conf: MotorConf,
    q: Seq<WindowDressingServoInstruction>,
    cur: WindowDressingState,
    fuel: nat,
) -> (Seq<WindowDressingServoInstruction>, Seq<WindowDressingServoInstruction>, WindowDressingState)
    decreases fuel,
{
    if fuel == 0 || q.len() == 0 {
        (Seq::empty(), q, cur)
    } else {
        let step = pull_step(conf, q, cur);
        let rest = drain(conf, step.0, step.1, (fuel - 1) as nat);
        (seq![rounded_instruction(q[0])] + rest.0, rest.1, rest.2)
    }
}

/// `q` with every duration rounded to a whole microsecond.
pub open spec fn rounded_all(q: Seq<WindowDressingServoInstruction>) -> Seq<
    WindowDressingServoInstruction,
> {
    Seq::new(q.len(), |k: int| rounded_instruction(q[k]))
}

/// Every instruction of a tilt transition leaves the dressing at the
/// position the transition was planned at.
proof fn lemma_tilt_plan_positions(conf: MotorConf, position: u8, from: i8, to: i8)
    ensures
        forall|i: int|
            0 <= i < tilt_plan(conf, position, from, to).len() ==> #[trigger] tilt_plan(
                conf,
                position,
                from,
                to,
            )[i].completed_state.position == position,
{
}

/// Monotonic position stepping: a position command from `cur` to `opened`
/// plans, between its two tilt transitions, exactly one instruction per
/// percentage point of change, whose completed positions form a contiguous
/// run from next to `cur.position` through `opened` inclusive; nothing else
/// in the plan moves the position axis.
pub proof fn lemma_monotonic_position_stepping(conf: MotorConf, cur: WindowDressingState, opened: u8)
    requires
        cur.position <= 100,
        opened <= 100,
    ensures
        opened == cur.position ==> position_plan(conf, cur, opened).len() == 0,
        opened != cur.position ==> ({
            let plan = position_plan(conf, cur, opened);
            let opening = opened > cur.position;
            let park: i8 = if opening {
                -90i8
            } else {
                90
            };
            let pre = tilt_plan(conf, cur.position, cur.tilt, park);
            let post = tilt_plan(conf, opened, moving_tilt(conf, opening), cur.tilt);
            let n = abs_diff(opened as int, cur.position as int);
            &&& plan.len() == pre.len() + n + post.len()
            &&& forall|i: int|
                0 <= i < pre.len() ==> #[trigger] plan[i].completed_state.position == cur.position
            &&& forall|k: int|
                0 <= k < n ==> #[trigger] plan[pre.len() + k].completed_state.position == (if opening {
                    cur.position + k + 1
                } else {
                    cur.position - (k + 1)
                })
            &&& forall|i: int|
                pre.len() + n <= i < plan.len() ==> #[trigger] plan[i].completed_state.position
                    == opened
        }),
{
    if opened != cur.position {
        let opening = opened > cur.position;
        let park: i8 = if opening {
            -90i8
        } else {
            90
        };
        lemma_tilt_plan_positions(conf, cur.position, cur.tilt, park);
        lemma_tilt_plan_positions(conf, opened, moving_tilt(conf, opening), cur.tilt);
    }
}

/// Idempotence: commanding the position the dressing already stands at
/// plans nothing and leaves the desired tilt alone (only the desired
/// position is re-recorded).
pub proof fn lemma_set_position_idempotent(conf: MotorConf, cur: WindowDressingState, old_tilt: i8)
    ensures
        position_plan(conf, cur, cur.position) == Seq::<WindowDressingServoInstruction>::empty(),
        desired_tilt_after_position(conf, cur, cur.position, old_tilt) == old_tilt,
{
}

/// Tilt-position coupling: with the tilt axis enabled, the slats stay
/// parked at the moving extreme throughout the position run, and the whole
/// plan ends with the dressing at the commanded position carrying the
/// pre-move slat angle again.
pub proof fn lemma_tilt_parked_and_restored(conf: MotorConf, cur: WindowDressingState, opened: u8)
    requires
        cur.position <= 100,
        opened <= 100,
        opened != cur.position,
        conf.tilt_enabled(),
        -90 <= cur.tilt <= 90,
    ensures
        ({
            let plan = position_plan(conf, cur, opened);
            let opening = opened > cur.position;
            let park: i8 = if opening {
                -90i8
            } else {
                90
            };
            let pre = tilt_plan(conf, cur.position, cur.tilt, park);
            let n = abs_diff(opened as int, cur.position as int);
            &&& plan.len() >= 1
            &&& forall|k: int|
                0 <= k < n ==> #[trigger] plan[pre.len() + k].completed_state.tilt == park
            &&& plan.last().completed_state == (WindowDressingState {
                position: opened,
                tilt: cur.tilt,
            })
        }),
{
    let plan = position_plan(conf, cur, opened);
    let opening = opened > cur.position;
    let park: i8 = if opening {
        -90i8
    } else {
        90
    };
    let pre = tilt_plan(conf, cur.position, cur.tilt, park);
    let run = position_run(conf, cur, opened);
    let post = tilt_plan(conf, opened, moving_tilt(conf, opening), cur.tilt);
    let n = abs_diff(opened as int, cur.position as int);
    assert(moving_tilt(conf, opening) == park);
    assert(forall|k: int| 0 <= k < n ==> #[trigger] plan[pre.len() + k] == run[k]);
    if cur.tilt == park {
        assert(post.len() == 0);
        assert(plan.last() == run.last());
    } else {
        assert(post.len() >= 1);
        assert(plan.last() == post.last());
        if opened != 100 {
            let l = abs_diff(cur.tilt as int, park as int);
            assert(post.last() == post[l - 1]);
            assert(post.last().completed_state.tilt == tilt_step_target(park, cur.tilt, l));
        }
    }
}

/// Draining any queue returns its instructions in order with durations
/// rounded; when the final instruction was actively driving, exactly one
/// neutral hold at its completed state follows. The queue is left empty.
proof fn lemma_drain_characterization(
    conf: MotorConf,
    q: Seq<WindowDressingServoInstruction>,
    cur: WindowDressingState,
    fuel: nat,
)
    requires
        fuel >= q.len() + 1,
    ensures
        ({
            let d = drain(conf, q, cur, fuel);
            &&& d.1 == Seq::<WindowDressingServoInstruction>::empty()
            &&& q.len() == 0 ==> d.0 == Seq::<WindowDressingServoInstruction>::empty() && d.2
                == cur
            &&& q.len() > 0 ==> d.0 == rounded_all(q) + (if q.last().pulse_width
                != conf.spec_center() {
                seq![hold_instruction(conf, q.last().completed_state)]
            } else {
                Seq::<WindowDressingServoInstruction>::empty()
            }) && d.2 == q.last().completed_state
        }),
    decreases q.len(),
{
    let d = drain(conf, q, cur, fuel);
    if q.len() == 0 {
        assert(d.1 =~= Seq::<WindowDressingServoInstruction>::empty());
    } else if q.len() == 1 {
        reveal_with_fuel(drain, 3);
        let front = q[0];
        if front.pulse_width != conf.spec_center() {
            let h = hold_instruction(conf, front.completed_state);
            let step = pull_step(conf, q, cur);
            assert(step.0 == seq![h] && step.1 == front.completed_state);
            let d2 = drain(conf, seq![h], front.completed_state, (fuel - 1) as nat);
            assert(rounded_instruction(h) == h);
            assert(seq![h].drop_first() =~= Seq::<WindowDressingServoInstruction>::empty());
            assert(pull_step(conf, seq![h], front.completed_state).0
                =~= Seq::<WindowDressingServoInstruction>::empty());
            assert(d2.0 =~= seq![h]);
            assert(d2.1 =~= Seq::<WindowDressingServoInstruction>::empty());
            assert(d.0 =~= rounded_all(q) + seq![h]);
            assert(d.1 =~= Seq::<WindowDressingServoInstruction>::empty());
        } else {
            assert(q.drop_first() =~= Seq::<WindowDressingServoInstruction>::empty());
            assert(pull_step(conf, q, cur).0 =~= Seq::<WindowDressingServoInstruction>::empty());
            assert(d.0 =~= rounded_all(q));
            assert(d.1 =~= Seq::<WindowDressingServoInstruction>::empty());
        }
    } else {
        let q2 = q.drop_first();
        lemma_drain_characterization(conf, q2, q[0].completed_state, (fuel - 1) as nat);
        let d2 = drain(conf, q2, q[0].completed_state, (fuel - 1) as nat);
        assert(q2.last() == q.last());
        assert(rounded_all(q) =~= seq![rounded_instruction(q[0])] + rounded_all(q2));
        if q.last().pulse_width != conf.spec_center() {
            assert(d.0 =~= rounded_all(q) + seq![
                hold_instruction(conf, q.last().completed_state),
            ]);
        } else {
            assert(d.0 =~= rounded_all(q));
        }
    }
}

/// Pulling to exhaustion (the stream form of monotonic stepping): after a
/// position command from `cur` to `target`, repeated pulls return every
/// planned instruction in order, with durations rounded but pulse widths
/// and completed states untouched, and the stream ends with exactly one
/// neutral hold whose completed position is the target; the queue is then
/// empty, so every further pull returns nothing. The hypothesis that the
/// four drive pulses differ from the neutral pulse reflects what the
/// pulses mean — the center pulse holds the motor stationary, so a drive
/// pulse equal to it would make a drive step indistinguishable from a
/// hold. Combined with
/// `lemma_monotonic_position_stepping`, which fixes the planned positions,
/// the stream carries exactly one position-changing instruction per
/// percentage point of travel, contiguous from the start toward the
/// target, before that final hold.
pub proof fn lemma_pull_to_exhaustion(
    conf: MotorConf,
    cur: WindowDressingState,
    target: u8,
    fuel: nat,
)
    requires
        cur.position <= 100,
        target <= 100,
        target != cur.position,
        conf.spec_extend() != conf.spec_center(),
        conf.spec_retract() != conf.spec_center(),
        conf.spec_extend_tilt() != conf.spec_center(),
        conf.spec_retract_tilt() != conf.spec_center(),
        fuel >= position_plan(conf, cur, target).len() + 1,
    ensures
        ({
            let plan = position_plan(conf, cur, target);
            let d = drain(conf, plan, cur, fuel);
            &&& plan.len() >= 1
            &&& d.1 == Seq::<WindowDressingServoInstruction>::empty()
            &&& d.0 == rounded_all(plan) + (if plan.last().pulse_width != conf.spec_center() {
                seq![hold_instruction(conf, plan.last().completed_state)]
            } else {
                Seq::<WindowDressingServoInstruction>::empty()
            })
            &&& forall|i: int|
                0 <= i < plan.len() ==> #[trigger] d.0[i].pulse_width == plan[i].pulse_width
                    && d.0[i].completed_state == plan[i].completed_state
            &&& d.0.len() >= 1
            &&& d.0.last().pulse_width == conf.spec_center()
            &&& d.0.last().duration == HOLD_TIME
            &&& d.0.last().completed_state.position == target
        }),
{
    let plan = position_plan(conf, cur, target);
    let opening = target > cur.position;
    let park: i8 = if opening {
        -90i8
    } else {
        90
    };
    let pre = tilt_plan(conf, cur.position, cur.tilt, park);
    let run = position_run(conf, cur, target);
    let post = tilt_plan(conf, target, moving_tilt(conf, opening), cur.tilt);
    let n = abs_diff(target as int, cur.position as int);
    lemma_monotonic_position_stepping(conf, cur, target);
    lemma_drain_characterization(conf, plan, cur, fuel);
    let d = drain(conf, plan, cur, fuel);
    assert(forall|i: int|
        0 <= i < plan.len() ==> #[trigger] d.0[i].pulse_width == plan[i].pulse_width
            && d.0[i].completed_state == plan[i].completed_state) by {
        assert(forall|i: int| 0 <= i < plan.len() ==> #[trigger] d.0[i] == rounded_all(plan)[i]);
    }
    if plan.last().pulse_width != conf.spec_center() {
        assert(d.0.last() == hold_instruction(conf, plan.last().completed_state));
        assert(plan.last().completed_state.position == target) by {
            if post.len() > 0 {
                assert(plan.last() == plan[pre.len() + n + post.len() - 1]);
            } else {
                assert(plan.last() == plan[pre.len() + (n - 1)]);
            }
        }
    } else {
        // Drive pulses differ from the neutral one, so a center-pulse tail
        // can only be the neutral hold a tilt restore enqueues at a full
        // open.
        assert(post.len() > 0);
        assert(plan.last() == post.last());
        if post.len() > 1 || target != 100 {
            assert(post.last().pulse_width == tilt_pulse(conf, cur.tilt < moving_tilt(
                conf,
                opening,
            )));
        }
        assert(target == 100 && post.len() == 1);
        assert(plan.last() == hold_instruction(
            conf,
            WindowDressingState { position: 100u8, tilt: cur.tilt },
        ));
        assert(rounded_instruction(plan.last()) == plan.last());
        assert(d.0.last() == rounded_all(plan).last());
    }
}

/// Round a duration in nanoseconds to the nearest whole microsecond.
fn round_duration(d: u64) -> (r: u64)
    ensures
        r == round_to_whole_us(d),
{
    let r = d % 1000;
    let base = d - r;
    if r >= 500 && base <= u64::MAX - 1000 {
        base + 1000
    } else {
        base
    }
}

/// The sequencer for one dressing.
///
/// `current_state` is where the sequencer believes the hardware physically
/// is after all already-dequeued instructions; `desired_state` is the last
/// commanded target; `instructions` holds the still-to-execute plan in
/// execution order.
#[derive(Debug, PartialEq)]
pub struct WindowDressingSequencer {
    /// Persistence key of this dressing.
    pub name: String,
    pub motor_conf: MotorConf,
    pub desired_state: WindowDressingState,
    pub current_state: WindowDressingState,
    pub instructions: VecDeque<WindowDressingServoInstruction>,
}

impl WindowDressingSequencer {
    /// Build a sequencer with an empty persistence key.
    pub fn from_conf(conf: MotorConf) -> (r: Self)
        ensures
            r.motor_conf == conf,
            r.name@ == Seq::<char>::empty(),
            r.desired_state == (WindowDressingState { position: 0u8, tilt: 0i8 }),
            r.current_state == (WindowDressingState { position: 0u8, tilt: 0i8 }),
            r.instructions@ == Seq::<WindowDressingServoInstruction>::empty(),
    {
        Self::from_conf_and_name(conf, String::new())
    }

    /// Build a sequencer for a named dressing, starting from the zero state
    /// with nothing planned.
    pub fn from_conf_and_name(conf: MotorConf, name: String) -> (r: Self)
        ensures
            r.motor_conf == conf,
            r.name == name,
            r.desired_state == (WindowDressingState { position: 0u8, tilt: 0i8 }),
            r.current_state == (WindowDressingState { position: 0u8, tilt: 0i8 }),
            r.instructions@ == Seq::<WindowDressingServoInstruction>::empty(),
    {
        WindowDressingSequencer {
            name,
            motor_conf: conf,
            desired_state: WindowDressingState::default(),
            current_state: WindowDressingState::default(),
            instructions: VecDeque::new(),
        }
    }

    /// The state the dressing will be in once the whole queue has executed:
    /// the completed state of the queue's tail, or the current state when
    /// nothing is planned.
    pub open spec fn spec_tail_state(self) -> WindowDressingState {
        if self.instructions@.len() == 0 {
            self.current_state
        } else {
            self.instructions@.last().completed_state
        }
    }

    fn get_tail_state(&self) -> (r: WindowDressingState)
        ensures
            r == self.spec_tail_state(),
    {
        let n = self.instructions.len();
        if n == 0 {
            self.current_state
        } else {
            self.instructions[n - 1].completed_state
        }
    }

    /// Append the instructions that turn the slats from `from_angle` to
    /// `to_angle` at the queue's tail position, recording `to_angle` as the
    /// desired tilt whenever the tilt axis is enabled and the change is real.
    fn add_tilt(&mut self, from_angle: i8, to_angle: i8)
        ensures
            final(self).name == old(self).name,
            final(self).motor_conf == old(self).motor_conf,
            final(self).current_state == old(self).current_state,
            final(self).desired_state.position == old(self).desired_state.position,
            final(self).desired_state.tilt == (if old(self).motor_conf.tilt_enabled()
                && from_angle != to_angle {
                to_angle
            } else {
                old(self).desired_state.tilt
            }),
            final(self).instructions@ == old(self).instructions@ + tilt_plan(
                old(self).motor_conf,
                old(self).spec_tail_state().position,
                from_angle,
                to_angle,
            ),
    {
        let ghost plan = tilt_plan(
            self.motor_conf,
            self.spec_tail_state().position,
            from_angle,
            to_angle,
        );
        let diff: i16 = to_angle as i16 - from_angle as i16;
        let absolute_change: i16 = if diff < 0 {
            -diff
        } else {
            diff
        };
        if absolute_change == 0 {
            proof {
                assert(self.instructions@ + plan =~= self.instructions@);
            }
            return ;
        }
        let opening = to_angle < from_angle;
        let position = self.get_tail_state().position;
        let conf = self.motor_conf;
        match conf {
            MotorConf::Servo {
                pulse_width_center,
                pulse_width_extend_tilt,
                pulse_width_retract_tilt,
                full_tilt_time,
                ..
            } => {
                if let Some(ftt) = full_tilt_time {
                    self.desired_state.tilt = to_angle;
                    let pulse_width = if opening {
                        pulse_width_extend_tilt
                    } else {
                        pulse_width_retract_tilt
                    };
                    if position == 100 {
                        self.instructions.push_back(
                            WindowDressingServoInstruction {
                                pulse_width: pulse_width_center,
                                duration: HOLD_TIME,
                                completed_state: WindowDressingState { position, tilt: to_angle },
                            },
                        );
                        proof {
                            assert(self.instructions@ =~= old(self).instructions@ + plan);
                        }
                        return ;
                    }
                    let step = ftt / 180;
                    let ghost base = old(self).instructions@;
                    let mut k: i16 = 0;
                    while k < absolute_change
                        invariant
                            0 <= k <= absolute_change,
                            absolute_change == abs_diff(to_angle as int, from_angle as int),
                            opening == (to_angle < from_angle),
                            from_angle != to_angle,
                            position != 100,
                            conf == old(self).motor_conf,
                            conf.tilt_enabled(),
                            conf.spec_full_tilt_time() == Some(ftt),
                            step == ftt / 180,
                            pulse_width == tilt_pulse(conf, opening),
                            position == old(self).spec_tail_state().position,
                            plan == tilt_plan(conf, position, from_angle, to_angle),
                            plan.len() == absolute_change,
                            self.name == old(self).name,
                            self.motor_conf == old(self).motor_conf,
                            self.current_state == old(self).current_state,
                            self.desired_state.position == old(self).desired_state.position,
                            self.desired_state.tilt == to_angle,
                            self.instructions@ == base + plan.subrange(0, k as int),
                        decreases absolute_change - k,
                    {
                        let kk: i16 = k + 1;
                        let tilt_wide: i16 = if opening {
                            from_angle as i16 - kk
                        } else {
                            from_angle as i16 + kk
                        };
                        let tilt: i8 = tilt_wide as i8;
                        self.instructions.push_back(
                            WindowDressingServoInstruction {
                                pulse_width,
                                duration: step,
                                completed_state: WindowDressingState { position, tilt },
                            },
                        );
                        proof {
                            assert(tilt == tilt_step_target(from_angle, to_angle, k + 1));
                            assert(self.instructions@ =~= base + plan.subrange(0, k as int + 1));
                        }
                        k = kk;
                    }
                    proof {
                        assert(plan.subrange(0, absolute_change as int) =~= plan);
                    }
                } else {
                    proof {
                        assert(self.instructions@ + plan =~= self.instructions@);
                    }
                }
            },
        }
    }

    /// Retarget the position axis to `opened` percent. Any pending plan is
    /// abandoned (last write wins) and replaced by: a tilt transition that
    /// parks the slats, one instruction per percentage point of travel, and
    /// a tilt transition restoring the pre-move slat angle — also at a full
    /// open, where the slats keep the parked angle through position 100 and
    /// the restore is the neutral hold; see the design note on
    /// `position_plan`.
    #[verifier::loop_isolation(false)]
    pub fn set_position(&mut self, opened: u8)
        requires
            opened <= 100,
            old(self).current_state.position <= 100,
        ensures
            final(self).name == old(self).name,
            final(self).motor_conf == old(self).motor_conf,
            final(self).current_state == old(self).current_state,
            final(self).desired_state.position == opened,
            final(self).desired_state.tilt == desired_tilt_after_position(
                old(self).motor_conf,
                old(self).current_state,
                opened,
                old(self).desired_state.tilt,
            ),
            final(self).instructions@ == position_plan(
                old(self).motor_conf,
                old(self).current_state,
                opened,
            ),
    {
        self.desired_state.position = opened;
        self.instructions.clear();
        if opened == self.current_state.position {
            proof {
                assert(self.instructions@ =~= position_plan(
                    old(self).motor_conf,
                    old(self).current_state,
                    opened,
                ));
            }
            return ;
        }
        let cur = self.current_state;
        let opening = opened > cur.position;
        let park: i8 = if opening {
            -90i8
        } else {
            90
        };
        self.add_tilt(cur.tilt, park);
        let conf = self.motor_conf;
        match conf {
            MotorConf::Servo {
                pulse_width_extend,
                pulse_width_retract,
                full_cycle_time,
                full_tilt_time,
                ..
            } => {
                let enabled = full_tilt_time.is_some();
                let angle_while_moving: i8 = if enabled {
                    park
                } else {
                    0
                };
                let pulse_width = if opening {
                    pulse_width_extend
                } else {
                    pulse_width_retract
                };
                let step = full_cycle_time / 100;
                let n: u8 = if opening {
                    opened - cur.position
                } else {
                    cur.position - opened
                };
                let ghost base = self.instructions@;
                let ghost run = position_run(conf, cur, opened);
                proof {
                    assert(base =~= Seq::<WindowDressingServoInstruction>::empty() + tilt_plan(
                        conf,
                        cur.position,
                        cur.tilt,
                        park,
                    ));
                }
                let mut k: u8 = 0;
                while k < n
                    invariant
                        k <= n,
                        self.name == old(self).name,
                        self.motor_conf == old(self).motor_conf,
                        self.current_state == old(self).current_state,
                        self.desired_state.position == opened,
                        self.desired_state.tilt == (if conf.tilt_enabled() && cur.tilt != park {
                            park
                        } else {
                            old(self).desired_state.tilt
                        }),
                        self.instructions@ == base + run.subrange(0, k as int),
                    decreases n - k,
                {
                    let kk: u8 = k + 1;
                    let position: u8 = if opening {
                        cur.position + kk
                    } else {
                        cur.position - kk
                    };
                    self.instructions.push_back(
                        WindowDressingServoInstruction {
                            pulse_width,
                            duration: step,
                            completed_state: WindowDressingState {
                                position,
                                tilt: angle_while_moving,
                            },
                        },
                    );
                    proof {
                        assert(self.instructions@ =~= base + run.subrange(0, k as int + 1));
                    }
                    k = kk;
                }
                proof {
                    assert(run.subrange(0, n as int) =~= run);
                    assert(self.instructions@.last() == run.last());
                    assert(self.spec_tail_state().position == opened);
                }
                self.add_tilt(angle_while_moving, cur.tilt);
                proof {
                    assert(self.instructions@ =~= position_plan(
                        old(self).motor_conf,
                        old(self).current_state,
                        opened,
                    ));
                }
            },
        }
    }

    /// Queue a transition of the slat angle to `angle`, continuing from
    /// whatever the current plan ends at. Unlike a position command this
    /// does not discard pending work; it is a no-op when the tilt axis is
    /// disabled.
    pub fn set_tilt(&mut self, angle: i8)
        requires
            -90 <= angle <= 90,
        ensures
            final(self).name == old(self).name,
            final(self).motor_conf == old(self).motor_conf,
            final(self).current_state == old(self).current_state,
            final(self).desired_state.position == old(self).desired_state.position,
            final(self).desired_state.tilt == (if old(self).motor_conf.tilt_enabled() && old(
                self,
            ).spec_tail_state().tilt != angle {
                angle
            } else {
                old(self).desired_state.tilt
            }),
            final(self).instructions@ == old(self).instructions@ + tilt_plan(
                old(self).motor_conf,
                old(self).spec_tail_state().position,
                old(self).spec_tail_state().tilt,
                angle,
            ),
    {
        let from = self.get_tail_state().tilt;
        self.add_tilt(from, angle);
    }

    /// Pull the next instruction for the hardware, if any is planned.
    ///
    /// The front of the queue is removed, the current state advances to its
    /// completed state, and its duration is rounded to a whole microsecond.
    /// When that pop empties the queue and the motor was actively driving,
    /// a hold instruction is buffered so the next pull returns an explicit
    /// stop command; an already-empty queue returns nothing.
    pub fn get_next_instruction(&mut self) -> (r: Option<WindowDressingServoInstruction>)
        ensures
            final(self).name == old(self).name,
            final(self).motor_conf == old(self).motor_conf,
            final(self).desired_state == old(self).desired_state,
            old(self).instructions@.len() == 0 ==> {
                &&& r is None
                &&& final(self).current_state == old(self).current_state
                &&& final(self).instructions@ == old(self).instructions@
            },
            old(self).instructions@.len() > 0 ==> {
                let front = old(self).instructions@[0];
                &&& r == Some(rounded_instruction(front))
                &&& final(self).current_state == front.completed_state
                &&& final(self).instructions@ == (if old(self).instructions@.len() == 1
                    && front.pulse_width != old(self).motor_conf.spec_center() {
                    seq![hold_instruction(old(self).motor_conf, front.completed_state)]
                } else {
                    old(self).instructions@.drop_first()
                })
            },
            (final(self).instructions@, final(self).current_state, r) == pull_step(
                old(self).motor_conf,
                old(self).instructions@,
                old(self).current_state,
            ),
    {
        match self.instructions.pop_front() {
            Some(front) => {
                let mut next = front;
                self.current_state = next.completed_state;
                next.duration = round_duration(next.duration);
                let center = match self.motor_conf {
                    MotorConf::Servo { pulse_width_center, .. } => pulse_width_center,
                };
                if self.instructions.len() == 0 && next.pulse_width != center {
                    self.instructions.push_back(
                        WindowDressingServoInstruction {
                            pulse_width: center,
                            duration: HOLD_TIME,
                            completed_state: self.current_state,
                        },
                    );
                    proof {
                        assert(self.instructions@ =~= seq![
                            hold_instruction(old(self).motor_conf, front.completed_state),
                        ]);
                    }
                }
                Some(next)
            },
            None => None,
        }
    }

    /// Feedback from the hardware that an endstop fired: the plan is void,
    /// the state snaps to the calibrated extreme that was hit, and a single
    /// hold instruction is left for the hardware to settle on.
    pub fn trig_endstop(&mut self)
        ensures
            final(self).name == old(self).name,
            final(self).motor_conf == old(self).motor_conf,
            final(self).current_state == endstop_state(
                old(self).motor_conf,
                old(self).current_state,
                old(self).desired_state,
            ),
            final(self).desired_state == final(self).current_state,
            final(self).instructions@ == seq![
                hold_instruction(old(self).motor_conf, final(self).current_state),
            ],
    {
        self.instructions.clear();
        let opening = if self.current_state.position == self.desired_state.position {
            self.current_state.tilt > self.desired_state.tilt
        } else {
            self.current_state.position < self.desired_state.position
                || self.current_state.position == 100
        };
        let (center, enabled) = match self.motor_conf {
            MotorConf::Servo { pulse_width_center, full_tilt_time, .. } => (
                pulse_width_center,
                full_tilt_time.is_some(),
            ),
        };
        let tilt: i8 = if enabled && !opening {
            90
        } else {
            0
        };
        let end_state = WindowDressingState {
            position: if opening {
                100
            } else {
                0
            },
            tilt,
        };
        self.current_state = end_state;
        self.desired_state = end_state;
        self.instructions.push_back(
            WindowDressingServoInstruction {
                pulse_width: center,
                duration: HOLD_TIME,
                completed_state: end_state,
            },
        );
        proof {
            assert(self.instructions@ =~= seq![
                hold_instruction(old(self).motor_conf, end_state),
            ]);
        }
    }

    /// The bytes that persist this sequencer: the canonical encoding of the
    /// current state alone, never the desired state or the queue. The caller
    /// owns writing them to storage.
    pub fn save(&self) -> (out: Vec<u8>)
        ensures
            out@ == encode_state(self.current_state),
    {
        encode(self.current_state)
    }

    /// Restore a persisted state from bytes the caller read back. On
    /// success both the current and the desired state become the decoded
    /// state and the queue is cleared; a payload that does not decode is
    /// reported and leaves the sequencer untouched.
    pub fn load(&mut self, data: &[u8]) -> (r: Result<(), DecodeError>)
        ensures
            final(self).name == old(self).name,
            final(self).motor_conf == old(self).motor_conf,
            r is Ok <==> parse_state(data@) is Some,
            match parse_state(data@) {
                Some(st) => {
                    &&& final(self).current_state == st
                    &&& final(self).desired_state == st
                    &&& final(self).instructions@ == Seq::<WindowDressingServoInstruction>::empty()
                },
                None => {
                    &&& final(self).current_state == old(self).current_state
                    &&& final(self).desired_state == old(self).desired_state
                    &&& final(self).instructions@ == old(self).instructions@
                },
            },
    {
        match decode(data) {
            Some(st) => {
                self.current_state = st;
                self.desired_state = st;
                self.instructions.clear();
                proof {
                    assert(self.instructions@ =~= Seq::<WindowDressingServoInstruction>::empty());
                }
                Ok(())
            },
            None => Err(DecodeError),
        }
    }

    /// The position-state characteristic an accessory layer reports: 0
    /// while the believed position is below the target, 1 while it is
    /// above, 2 when the dressing stands where it was told to.
    pub fn position_state(&self) -> (r: u8)
        ensures
            r == (if self.current_state.position < self.desired_state.position {
                0int
            } else if self.current_state.position > self.desired_state.position {
                1int
            } else {
                2int
            }),
    {
        if self.current_state.position < self.desired_state.position {
            0
        } else if self.current_state.position > self.desired_state.position {
            1
        } else {
            2
        }
    }

    /// The position of the dressing according to the state machine.
    pub fn get_position(&self) -> (r: u8)
        ensures
            r == self.current_state.position,
    {
        self.current_state.position
    }

    /// The tilt of the dressing according to the state machine.
    pub fn get_tilt(&self) -> (r: i8)
        ensures
            r == self.current_state.tilt,
    {
        self.current_state.tilt
    }
}

} // verus!
