use window_dressing::conf::{BlindConf, BridgeConf, HwMode, MotorConf};
use window_dressing::feedback::{default_feedback_freq, Rotation};
use window_dressing::sequencer::{WindowDressingSequencer, HOLD_TIME};
use window_dressing::state::{WindowDressingServoInstruction, WindowDressingState};

const SECOND: u64 = 1_000_000_000;

fn venetian_conf() -> MotorConf {
    MotorConf::Servo {
        pulse_width_extend: 1900,
        pulse_width_retract: 1100,
        pulse_width_extend_tilt: 1900,
        pulse_width_retract_tilt: 1100,
        pulse_width_center: 1500,
        full_cycle_time: 100 * SECOND,
        full_tilt_time: Some(1_800_000_000),
    }
}

fn roller_conf() -> MotorConf {
    MotorConf::Servo {
        pulse_width_extend: 1900,
        pulse_width_retract: 1100,
        pulse_width_extend_tilt: 1900,
        pulse_width_retract_tilt: 1100,
        pulse_width_center: 1500,
        full_cycle_time: 100 * SECOND,
        full_tilt_time: None,
    }
}

#[test]
fn monotonic_position_stepping() {
    let mut seq = WindowDressingSequencer::from_conf(roller_conf());
    seq.current_state.position = 10;
    seq.set_position(40);

    let mut position_changes = 0u32;
    let mut last = seq.current_state.position;
    let mut holds = 0u32;
    while let Some(i) = seq.get_next_instruction() {
        if i.pulse_width == 1500 {
            holds += 1;
            assert_eq!(i.completed_state.position, 40);
        } else {
            assert_eq!(i.completed_state.position, last + 1);
            last = i.completed_state.position;
            position_changes += 1;
        }
    }
    assert_eq!(position_changes, 30);
    assert_eq!(last, 40);
    assert_eq!(holds, 1);
}

#[test]
fn idempotent_set_position() {
    let mut seq = WindowDressingSequencer::from_conf(venetian_conf());
    seq.current_state = WindowDressingState { position: 37, tilt: 15 };
    seq.desired_state = WindowDressingState { position: 12, tilt: 15 };
    seq.set_position(37);
    assert_eq!(seq.desired_state, WindowDressingState { position: 37, tilt: 15 });
    assert_eq!(seq.current_state, WindowDressingState { position: 37, tilt: 15 });
    assert_eq!(seq.get_next_instruction(), None);
}

#[test]
fn endstop_recovery_after_partial_open() {
    let mut seq = WindowDressingSequencer::from_conf(venetian_conf());
    seq.current_state = WindowDressingState { position: 0, tilt: -90 };
    seq.set_position(100);
    for _ in 0..80 {
        assert!(seq.get_next_instruction().is_some());
    }

    seq.trig_endstop();
    assert_eq!(seq.current_state, WindowDressingState { position: 100, tilt: 0 });
    assert_eq!(seq.desired_state, WindowDressingState { position: 100, tilt: 0 });
    assert_eq!(
        seq.get_next_instruction(),
        Some(WindowDressingServoInstruction {
            pulse_width: 1500,
            duration: HOLD_TIME,
            completed_state: WindowDressingState { position: 100, tilt: 0 },
        })
    );
    assert_eq!(seq.get_next_instruction(), None);
}

#[test]
fn durations_round_to_whole_microseconds() {
    let conf = MotorConf::Servo {
        pulse_width_extend: 1900,
        pulse_width_retract: 1100,
        pulse_width_extend_tilt: 1900,
        pulse_width_retract_tilt: 1100,
        pulse_width_center: 1500,
        // One step comes out to 1_234_567 ns before rounding.
        full_cycle_time: 123_456_789,
        full_tilt_time: None,
    };
    let mut seq = WindowDressingSequencer::from_conf(conf);
    seq.set_position(1);
    let i = seq.get_next_instruction().unwrap();
    assert_eq!(i.duration, 1_235_000);
}

#[test]
fn coalesce_merges_adjacent_instructions() {
    let mut a = WindowDressingServoInstruction {
        pulse_width: 1900,
        duration: 250,
        completed_state: WindowDressingState { position: 1, tilt: 0 },
    };
    let b = WindowDressingServoInstruction {
        pulse_width: 1900,
        duration: 750,
        completed_state: WindowDressingState { position: 2, tilt: 0 },
    };
    a.coalesce(&b);
    assert_eq!(a.pulse_width, 1900);
    assert_eq!(a.duration, 1000);
    assert_eq!(a.completed_state, WindowDressingState { position: 2, tilt: 0 });
}

#[test]
fn position_state_reports_direction() {
    let mut seq = WindowDressingSequencer::from_conf(roller_conf());
    seq.current_state.position = 10;
    seq.desired_state.position = 50;
    assert_eq!(seq.position_state(), 0);
    seq.current_state.position = 80;
    assert_eq!(seq.position_state(), 1);
    seq.current_state.position = 50;
    assert_eq!(seq.position_state(), 2);
}

#[test]
fn getters_follow_current_state() {
    let mut seq = WindowDressingSequencer::from_conf_and_name(venetian_conf(), "door".to_string());
    assert_eq!(seq.name, "door");
    seq.current_state = WindowDressingState { position: 61, tilt: -30 };
    assert_eq!(seq.get_position(), 61);
    assert_eq!(seq.get_tilt(), -30);
}

#[test]
fn tilt_noop_when_axis_disabled() {
    let mut seq = WindowDressingSequencer::from_conf(roller_conf());
    seq.current_state.tilt = 0;
    seq.set_tilt(45);
    assert_eq!(seq.desired_state.tilt, 0);
    assert_eq!(seq.get_next_instruction(), None);
}

#[test]
fn blank_ble_names_fall_back_to_blind_name() {
    let conf = BridgeConf {
        blinds: vec![
            BlindConf {
                name: "Porch".to_string(),
                motor: MotorConf::default(),
                backend: HwMode::Ble { name: String::new() },
            },
            BlindConf {
                name: "Study".to_string(),
                motor: MotorConf::default(),
                backend: HwMode::Ble { name: "Custom".to_string() },
            },
            BlindConf {
                name: "Hall".to_string(),
                motor: MotorConf::default(),
                backend: HwMode::Pwm { channel: 1 },
            },
        ],
        pairing_pin: "11122333".to_string(),
    };
    let resolved = conf.with_default_ble_names();
    assert_eq!(resolved.pairing_pin, "11122333");
    assert_eq!(resolved.blinds[0].backend, HwMode::Ble { name: "Porch".to_string() });
    assert_eq!(resolved.blinds[1].backend, HwMode::Ble { name: "Custom".to_string() });
    assert_eq!(resolved.blinds[2].backend, HwMode::Pwm { channel: 1 });
}

#[test]
fn tilt_at_full_open_is_a_neutral_hold() {
    let mut seq = WindowDressingSequencer::from_conf(venetian_conf());
    seq.current_state = WindowDressingState { position: 100, tilt: -90 };
    seq.set_tilt(45);
    assert_eq!(seq.desired_state.tilt, 45);
    assert_eq!(
        seq.get_next_instruction(),
        Some(WindowDressingServoInstruction {
            pulse_width: 1500,
            duration: HOLD_TIME,
            completed_state: WindowDressingState { position: 100, tilt: 45 },
        })
    );
    // The hold already drives the neutral pulse, so no further hold is
    // buffered behind it.
    assert_eq!(seq.get_next_instruction(), None);
}

#[test]
fn tilt_queues_after_pending_position_plan() {
    let mut seq = WindowDressingSequencer::from_conf(venetian_conf());
    seq.set_position(50);
    seq.set_tilt(45);
    assert_eq!(seq.desired_state, WindowDressingState { position: 50, tilt: 45 });

    // Park the slats at -90, traverse 50 points, restore the slats to 0,
    // then turn them to 45; a hold closes the plan.
    let mut count = 0u32;
    let mut last = None;
    while let Some(i) = seq.get_next_instruction() {
        count += 1;
        last = Some(i);
    }
    assert_eq!(count, 90 + 50 + 90 + 45 + 1);
    let last = last.unwrap();
    assert_eq!(last.pulse_width, 1500);
    assert_eq!(last.completed_state, WindowDressingState { position: 50, tilt: 45 });
    assert_eq!(seq.current_state, WindowDressingState { position: 50, tilt: 45 });
}

#[test]
fn default_values_hold() {
    assert_eq!(default_feedback_freq(), 910);
    assert_eq!(window_dressing::conf::default_servo_pulse_width(), 1500);
    assert_eq!(window_dressing::conf::default_servo_phase_width(), 1500);
    assert_eq!(window_dressing::conf::default_serial_baud_rate(), 115200);
    assert_eq!(window_dressing::conf::default_sgthrs(), 100);
    assert!(matches!(Rotation::Stopped, Rotation::Stopped));
    let def = MotorConf::default();
    assert!(matches!(def, MotorConf::Servo { full_tilt_time: None, .. }));
}
