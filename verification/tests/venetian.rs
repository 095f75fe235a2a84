use window_dressing::conf::MotorConf;
use window_dressing::sequencer::{WindowDressingSequencer, HOLD_TIME};
use window_dressing::state::{WindowDressingServoInstruction, WindowDressingState};

const SECOND: u64 = 1_000_000_000;
const MILLI: u64 = 1_000_000;

fn conf() -> MotorConf {
    MotorConf::Servo {
        pulse_width_extend: 1900,
        pulse_width_retract: 1100,
        pulse_width_extend_tilt: 1900,
        pulse_width_retract_tilt: 1100,
        pulse_width_center: 1500,
        full_cycle_time: 100 * SECOND,
        full_tilt_time: Some(1_800 * MILLI),
    }
}

#[test]
fn open_full_sequence() {
    let conf = conf();
    let mut seq = WindowDressingSequencer::from_conf(conf);
    seq.current_state.position = 0;
    seq.current_state.tilt = 90;
    seq.set_position(100);

    for i in -89..=90i8 {
        assert_eq!(
            seq.get_next_instruction(),
            Some(WindowDressingServoInstruction {
                pulse_width: 1900,
                duration: 10 * MILLI,
                completed_state: WindowDressingState { position: 0, tilt: -i },
            })
        );
    }

    for i in 1..=100u8 {
        assert_eq!(
            seq.get_next_instruction(),
            Some(WindowDressingServoInstruction {
                pulse_width: 1900,
                duration: SECOND,
                completed_state: WindowDressingState { position: i, tilt: -90 },
            })
        );
    }

    // The restore step at a full open is itself the neutral hold carrying
    // the pre-move tilt, so no further hold follows it.
    assert_eq!(
        seq.get_next_instruction(),
        Some(WindowDressingServoInstruction {
            pulse_width: 1500,
            duration: HOLD_TIME,
            completed_state: WindowDressingState { position: 100, tilt: 90 },
        })
    );
    assert_eq!(seq.get_next_instruction(), None);
}

#[test]
fn open_full_tiltless_sequence() {
    let conf = conf();
    let mut seq = WindowDressingSequencer::from_conf(conf);
    seq.current_state.position = 0;
    seq.current_state.tilt = -90;
    seq.set_position(100);

    for i in 1..=100u8 {
        assert_eq!(
            seq.get_next_instruction(),
            Some(WindowDressingServoInstruction {
                pulse_width: 1900,
                duration: SECOND,
                completed_state: WindowDressingState { position: i, tilt: -90 },
            })
        );
    }

    assert_eq!(
        seq.get_next_instruction(),
        Some(WindowDressingServoInstruction {
            pulse_width: 1500,
            duration: HOLD_TIME,
            completed_state: WindowDressingState { position: 100, tilt: -90 },
        })
    );
    assert_eq!(seq.get_next_instruction(), None);
}

#[test]
fn open_partial_sequence() {
    let conf = conf();
    let mut seq = WindowDressingSequencer::from_conf(conf);
    seq.current_state.position = 25;
    seq.current_state.tilt = 60;
    seq.set_position(75);

    for i in -59..=90i8 {
        assert_eq!(
            seq.get_next_instruction(),
            Some(WindowDressingServoInstruction {
                pulse_width: 1900,
                duration: 10 * MILLI,
                completed_state: WindowDressingState { position: 25, tilt: -i },
            })
        );
    }

    for i in 26..=75u8 {
        assert_eq!(
            seq.get_next_instruction(),
            Some(WindowDressingServoInstruction {
                pulse_width: 1900,
                duration: SECOND,
                completed_state: WindowDressingState { position: i, tilt: -90 },
            })
        );
    }

    for i in -89..=60i8 {
        assert_eq!(
            seq.get_next_instruction(),
            Some(WindowDressingServoInstruction {
                pulse_width: 1100,
                duration: 10 * MILLI,
                completed_state: WindowDressingState { position: 75, tilt: i },
            })
        );
    }
    assert_eq!(
        seq.get_next_instruction(),
        Some(WindowDressingServoInstruction {
            pulse_width: 1500,
            duration: HOLD_TIME,
            completed_state: WindowDressingState { position: 75, tilt: 60 },
        })
    );
    assert_eq!(seq.get_next_instruction(), None);
}

#[test]
fn open_partial_tiltless_sequence() {
    let conf = conf();
    let mut seq = WindowDressingSequencer::from_conf(conf);
    seq.current_state.position = 25;
    seq.current_state.tilt = -90;
    seq.set_position(75);

    for i in 26..=75u8 {
        assert_eq!(
            seq.get_next_instruction(),
            Some(WindowDressingServoInstruction {
                pulse_width: 1900,
                duration: SECOND,
                completed_state: WindowDressingState { position: i, tilt: -90 },
            })
        );
    }

    assert_eq!(
        seq.get_next_instruction(),
        Some(WindowDressingServoInstruction {
            pulse_width: 1500,
            duration: HOLD_TIME,
            completed_state: WindowDressingState { position: 75, tilt: -90 },
        })
    );
    assert_eq!(seq.get_next_instruction(), None);
}

#[test]
fn venetian_open_trig_endstop() {
    let conf = conf();
    let mut seq = WindowDressingSequencer::from_conf(conf);
    seq.current_state.position = 0;
    seq.current_state.tilt = -90;
    seq.set_position(90);

    for i in 1..=80u8 {
        assert_eq!(
            seq.get_next_instruction(),
            Some(WindowDressingServoInstruction {
                pulse_width: 1900,
                duration: SECOND,
                completed_state: WindowDressingState { position: i, tilt: -90 },
            })
        );
    }

    seq.trig_endstop();

    assert_eq!(
        seq.get_next_instruction(),
        Some(WindowDressingServoInstruction {
            pulse_width: 1500,
            duration: HOLD_TIME,
            completed_state: WindowDressingState { position: 100, tilt: 0 },
        })
    );
    assert_eq!(seq.get_next_instruction(), None);
}

#[test]
fn close_full_sequence() {
    let conf = conf();
    let mut seq = WindowDressingSequencer::from_conf(conf);
    seq.current_state.position = 100;
    seq.current_state.tilt = -90;
    seq.set_position(0);

    // No physical tilt motion while the dressing stands at 100: a neutral
    // hold advances the slats model instead.
    assert_eq!(
        seq.get_next_instruction(),
        Some(WindowDressingServoInstruction {
            pulse_width: 1500,
            duration: HOLD_TIME,
            completed_state: WindowDressingState { position: 100, tilt: 90 },
        })
    );

    for i in -99..=0i8 {
        assert_eq!(
            seq.get_next_instruction(),
            Some(WindowDressingServoInstruction {
                pulse_width: 1100,
                duration: SECOND,
                completed_state: WindowDressingState { position: -i as u8, tilt: 90 },
            })
        );
    }

    for i in -89..=90i8 {
        assert_eq!(
            seq.get_next_instruction(),
            Some(WindowDressingServoInstruction {
                pulse_width: 1900,
                duration: 10 * MILLI,
                completed_state: WindowDressingState { position: 0, tilt: -i },
            })
        );
    }

    assert_eq!(
        seq.get_next_instruction(),
        Some(WindowDressingServoInstruction {
            pulse_width: 1500,
            duration: HOLD_TIME,
            completed_state: WindowDressingState { position: 0, tilt: -90 },
        })
    );
    assert_eq!(seq.get_next_instruction(), None);
}

#[test]
fn close_full_tiltless_sequence() {
    let conf = conf();
    let mut seq = WindowDressingSequencer::from_conf(conf);
    seq.current_state.position = 100;
    seq.current_state.tilt = 90;
    seq.set_position(0);

    for i in -99..=0i8 {
        assert_eq!(
            seq.get_next_instruction(),
            Some(WindowDressingServoInstruction {
                pulse_width: 1100,
                duration: SECOND,
                completed_state: WindowDressingState { position: -i as u8, tilt: 90 },
            })
        );
    }
    assert_eq!(
        seq.get_next_instruction(),
        Some(WindowDressingServoInstruction {
            pulse_width: 1500,
            duration: HOLD_TIME,
            completed_state: WindowDressingState { position: 0, tilt: 90 },
        })
    );
    assert_eq!(seq.get_next_instruction(), None);
}

#[test]
fn close_partial_sequence() {
    let conf = conf();
    let mut seq = WindowDressingSequencer::from_conf(conf);
    seq.current_state.position = 75;
    seq.current_state.tilt = -90;
    seq.set_position(25);

    for i in -89..=90i8 {
        assert_eq!(
            seq.get_next_instruction(),
            Some(WindowDressingServoInstruction {
                pulse_width: 1100,
                duration: 10 * MILLI,
                completed_state: WindowDressingState { position: 75, tilt: i },
            })
        );
    }

    for i in -74..=-25i8 {
        assert_eq!(
            seq.get_next_instruction(),
            Some(WindowDressingServoInstruction {
                pulse_width: 1100,
                duration: SECOND,
                completed_state: WindowDressingState { position: -i as u8, tilt: 90 },
            })
        );
    }

    for i in -89..=90i8 {
        assert_eq!(
            seq.get_next_instruction(),
            Some(WindowDressingServoInstruction {
                pulse_width: 1900,
                duration: 10 * MILLI,
                completed_state: WindowDressingState { position: 25, tilt: -i },
            })
        );
    }

    assert_eq!(
        seq.get_next_instruction(),
        Some(WindowDressingServoInstruction {
            pulse_width: 1500,
            duration: HOLD_TIME,
            completed_state: WindowDressingState { position: 25, tilt: -90 },
        })
    );
    assert_eq!(seq.get_next_instruction(), None);
}

#[test]
fn close_partial_tiltless_sequence() {
    let conf = conf();
    let mut seq = WindowDressingSequencer::from_conf(conf);
    seq.current_state.position = 75;
    seq.current_state.tilt = 90;
    seq.set_position(25);

    for i in -74..=-25i8 {
        assert_eq!(
            seq.get_next_instruction(),
            Some(WindowDressingServoInstruction {
                pulse_width: 1100,
                duration: SECOND,
                completed_state: WindowDressingState { position: -i as u8, tilt: 90 },
            })
        );
    }
    assert_eq!(
        seq.get_next_instruction(),
        Some(WindowDressingServoInstruction {
            pulse_width: 1500,
            duration: HOLD_TIME,
            completed_state: WindowDressingState { position: 25, tilt: 90 },
        })
    );
    assert_eq!(seq.get_next_instruction(), None);
}

#[test]
fn venetian_close_trig_endstop() {
    let conf = conf();
    let mut seq = WindowDressingSequencer::from_conf(conf);
    seq.current_state.position = 100;
    seq.current_state.tilt = -90;
    seq.set_position(0);

    // No physical tilt motion while the dressing stands at 100: a neutral
    // hold advances the slats model instead.
    assert_eq!(
        seq.get_next_instruction(),
        Some(WindowDressingServoInstruction {
            pulse_width: 1500,
            duration: HOLD_TIME,
            completed_state: WindowDressingState { position: 100, tilt: 90 },
        })
    );

    for i in -99..=-20i8 {
        assert_eq!(
            seq.get_next_instruction(),
            Some(WindowDressingServoInstruction {
                pulse_width: 1100,
                duration: SECOND,
                completed_state: WindowDressingState { position: -i as u8, tilt: 90 },
            })
        );
    }

    seq.trig_endstop();

    assert_eq!(
        seq.get_next_instruction(),
        Some(WindowDressingServoInstruction {
            pulse_width: 1500,
            duration: HOLD_TIME,
            completed_state: WindowDressingState { position: 0, tilt: 90 },
        })
    );
    assert_eq!(seq.get_next_instruction(), None);
}
