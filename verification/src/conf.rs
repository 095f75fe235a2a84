//! Per-device configuration: the motor profile the sequencer plans with and
//! the hardware backend a dressing is driven through.

use vstd::prelude::*;

verus! {

/// The open-loop servo profile of one dressing. Pulse widths are in
/// microseconds of PWM phase; times are in nanoseconds.
///
/// `pulse_width_extend` drives the position axis toward fully extended and
/// open (position 100) and `pulse_width_retract` toward fully closed; the
/// `_tilt` pair does the same for the slat axis, where extending turns the
/// slats open toward -90 degrees and retracting toward +90.
/// `pulse_width_center` holds the servo engaged but stationary.
#[derive(Clone, Copy, Debug, PartialEq, Eq)]
pub enum MotorConf {
    Servo {
        pulse_width_center: i16,
        pulse_width_extend: i16,
        pulse_width_retract: i16,
        pulse_width_extend_tilt: i16,
        pulse_width_retract_tilt: i16,
        /// Time to traverse the position axis 0 to 100, in nanoseconds.
        full_cycle_time: u64,
        /// Time to traverse the tilt axis -90 to +90, in nanoseconds;
        /// `None` disables the tilt axis entirely.
        full_tilt_time: Option<u64>,
    },
}

impl MotorConf {
    pub open spec fn spec_center(self) -> i16 {
        match self {
            MotorConf::Servo { pulse_width_center, .. } => pulse_width_center,
        }
    }

    pub open spec fn spec_extend(self) -> i16 {
        match self {
            MotorConf::Servo { pulse_width_extend, .. } => pulse_width_extend,
        }
    }

    pub open spec fn spec_retract(self) -> i16 {
        match self {
            MotorConf::Servo { pulse_width_retract, .. } => pulse_width_retract,
        }
    }

    pub open spec fn spec_extend_tilt(self) -> i16 {
        match self {
            MotorConf::Servo { pulse_width_extend_tilt, .. } => pulse_width_extend_tilt,
        }
    }

    pub open spec fn spec_retract_tilt(self) -> i16 {
        match self {
            MotorConf::Servo { pulse_width_retract_tilt, .. } => pulse_width_retract_tilt,
        }
    }

    pub open spec fn spec_full_cycle_time(self) -> u64 {
        match self {
            MotorConf::Servo { full_cycle_time, .. } => full_cycle_time,
        }
    }

    pub open spec fn spec_full_tilt_time(self) -> Option<u64> {
        match self {
            MotorConf::Servo { full_tilt_time, .. } => full_tilt_time,
        }
    }

    /// Whether this profile has a slat axis at all.
    pub open spec fn tilt_enabled(self) -> bool {
        self.spec_full_tilt_time() is Some
    }
}

impl Default for MotorConf {
    /// The fallback servo profile: neutral at 1500, drive pulses 400 to
    /// either side, 100 seconds of full travel, tilt axis disabled.
    fn default() -> (r: Self)
        ensures
            r == (MotorConf::Servo {
                pulse_width_center: 1500i16,
                pulse_width_extend: 1900i16,
                pulse_width_retract: 1100i16,
                pulse_width_extend_tilt: 1900i16,
                pulse_width_retract_tilt: 1100i16,
                full_cycle_time: 100_000_000_000u64,
                full_tilt_time: None::<u64>,
            }),
    {
        MotorConf::Servo {
            pulse_width_center: 1500,
            pulse_width_extend: 1900,
            pulse_width_retract: 1100,
            pulse_width_extend_tilt: 1900,
            pulse_width_retract_tilt: 1100,
            full_cycle_time: 100_000_000_000,
            full_tilt_time: None,
        }
    }
}

/// How a dressing is physically driven.
#[derive(Clone, Debug, PartialEq, Eq)]
pub enum HwMode {
    /// An external Bluetooth peripheral handles this dressing; `name` selects
    /// the peripheral, falling back to the dressing's own name when blank.
    Ble { name: String },
    /// A testing adaptor that only records the instruction stream.
    Mock,
    /// A locally connected PWM channel.
    Pwm { channel: u8 },
}

/// Configuration of one window dressing.
#[derive(Clone, Debug, PartialEq, Eq)]
pub struct BlindConf {
    /// Name of this window dressing; doubles as its persistence key.
    pub name: String,
    /// The physical motor profile.
    pub motor: MotorConf,
    /// The control backend.
    pub backend: HwMode,
}

/// Configuration of a whole bridge: the dressings it controls and the
/// pairing pin it announces.
#[derive(Clone, Debug, PartialEq, Eq)]
pub struct BridgeConf {
    pub blinds: Vec<BlindConf>,
    pub pairing_pin: String,
}

/// `b` with a blank Bluetooth peripheral name replaced by the dressing's
/// own name; any other backend is untouched.
pub open spec fn spec_fill_ble_name(b: BlindConf) -> BlindConf {
    match b.backend {
        HwMode::Ble { name } => if name@.len() == 0 {
            BlindConf { name: b.name, motor: b.motor, backend: HwMode::Ble { name: b.name } }
        } else {
            b
        },
        _ => b,
    }
}

impl BridgeConf {
    /// Resolve the Bluetooth peripheral names: a dressing whose `Ble`
    /// backend was configured with a blank name is addressed by its own
    /// name instead.
    pub fn with_default_ble_names(self) -> (r: BridgeConf)
        ensures
            r.pairing_pin == self.pairing_pin,
            r.blinds@.len() == self.blinds@.len(),
            forall|i: int|
                0 <= i < self.blinds@.len() ==> #[trigger] r.blinds@[i] == spec_fill_ble_name(
                    self.blinds@[i],
                ),
    {
        let BridgeConf { mut blinds, pairing_pin } = self;
        let ghost orig = blinds@;
        let mut out: Vec<BlindConf> = Vec::new();
        while blinds.len() > 0
            invariant
                out@.len() + blinds@.len() == orig.len(),
                blinds@ == orig.subrange(out@.len() as int, orig.len() as int),
                forall|i: int|
                    0 <= i < out@.len() ==> #[trigger] out@[i] == spec_fill_ble_name(orig[i]),
            decreases blinds@.len(),
        {
            let b = blinds.remove(0);
            proof {
                assert(b == orig[out@.len() as int]);
                assert(blinds@ =~= orig.subrange(out@.len() as int + 1, orig.len() as int));
            }
            let BlindConf { name, motor, backend } = b;
            match backend {
                HwMode::Ble { name: periph } => {
                    if periph.as_str().is_empty() {
                        let filled = name.clone();
                        out.push(BlindConf { name, motor, backend: HwMode::Ble { name: filled } });
                    } else {
                        out.push(BlindConf { name, motor, backend: HwMode::Ble { name: periph } });
                    }
                },
                other => {
                    out.push(BlindConf { name, motor, backend: other });
                },
            }
        }
        proof {
            assert(blinds@.len() == 0);
        }
        BridgeConf { blinds: out, pairing_pin }
    }
}

/// Default PWM phase width at which a continuous servo stands still.
pub fn default_servo_pulse_width() -> (r: i16)
    ensures
        r == 1500,
{
    1500
}

/// Default PWM phase width at which a continuous servo stands still, under
/// the older `phase_width` field naming.
pub fn default_servo_phase_width() -> (r: i16)
    ensures
        r == 1500,
{
    1500
}

/// Default baud rate for a serial motor-controller link.
pub fn default_serial_baud_rate() -> (r: u32)
    ensures
        r == 115200,
{
    115200
}

/// Default stall-guard threshold for a stepper-driven dressing.
pub fn default_sgthrs() -> (r: u8)
    ensures
        r == 100,
{
    100
}

} // verus!
