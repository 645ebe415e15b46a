use led_roulette::punch::{
    advance, awaited, meter_frame, new_meter, reading_magnitude, strength, Clock, Meter, Phase, Start,
    DISPLAY_MICROS, RECORDING_MICROS, THRESHOLD,
};

const IDLE: [[u8; 5]; 5] = [[0, 0, 0, 0, 0], [0, 0, 0, 0, 0], [0, 0, 1, 0, 0], [0, 0, 0, 0, 0], [0, 0, 0, 0, 0]];

fn meter(phase: Phase, record: u32) -> Meter {
    Meter { phase, record }
}

#[test]
fn the_constants_have_their_values() {
    assert_eq!(THRESHOLD, 1000);
    assert_eq!(RECORDING_MICROS, 1_000_000);
    assert_eq!(DISPLAY_MICROS, 5_000_000);
}

#[test]
fn a_new_meter_waits() {
    assert_eq!(new_meter(), meter(Phase::Waiting, 0));
    assert_eq!(awaited(new_meter()), None);
    assert_eq!(meter_frame(new_meter()), IDLE);
}

#[test]
fn the_magnitude_of_a_reading_is_its_absolute_value() {
    assert_eq!(reading_magnitude(0), 0);
    assert_eq!(reading_magnitude(17), 17);
    assert_eq!(reading_magnitude(-17), 17);
    assert_eq!(reading_magnitude(i32::MAX), 2147483647);
    assert_eq!(reading_magnitude(i32::MIN), 2147483648);
}

#[test]
fn the_strength_is_the_greater_magnitude() {
    assert_eq!(strength(0, 0), 0);
    assert_eq!(strength(3, -4), 4);
    assert_eq!(strength(-5, 4), 5);
    assert_eq!(strength(7, 7), 7);
    assert_eq!(strength(-7, 7), 7);
    assert_eq!(strength(i32::MIN, 12), 2147483648);
    assert_eq!(strength(12, i32::MIN), 2147483648);
}

#[test]
fn each_phase_awaits_its_own_countdown() {
    assert_eq!(awaited(meter(Phase::Waiting, 0)), None);
    assert_eq!(awaited(meter(Phase::Recording, 1200)), Some(Clock::Recording));
    assert_eq!(awaited(meter(Phase::Displaying, 1200)), Some(Clock::Display));
}

#[test]
fn a_waiting_meter_ignores_a_weak_sample() {
    let m = new_meter();
    assert_eq!(advance(m, 0, false), (m, None));
    assert_eq!(advance(m, 1000, false), (m, None));
    assert_eq!(advance(m, 1000, true), (m, None));
}

#[test]
fn a_strong_sample_starts_a_recording() {
    let start = Some(Start { clock: Clock::Recording, micros: 1_000_000 });
    assert_eq!(advance(new_meter(), 1001, false), (meter(Phase::Recording, 1001), start));
    assert_eq!(advance(new_meter(), 1001, true), (meter(Phase::Recording, 1001), start));
    assert_eq!(advance(new_meter(), u32::MAX, false), (meter(Phase::Recording, u32::MAX), start));
}

#[test]
fn a_recording_keeps_the_strongest_sample() {
    let m = meter(Phase::Recording, 1500);
    assert_eq!(advance(m, 1400, false), (meter(Phase::Recording, 1500), None));
    assert_eq!(advance(m, 1500, false), (meter(Phase::Recording, 1500), None));
    assert_eq!(advance(m, 1501, false), (meter(Phase::Recording, 1501), None));
    assert_eq!(advance(m, 0, false), (meter(Phase::Recording, 1500), None));
}

#[test]
fn a_recording_ends_when_its_countdown_has_run_out() {
    let start = Some(Start { clock: Clock::Display, micros: 5_000_000 });
    let m = meter(Phase::Recording, 1500);
    assert_eq!(advance(m, 20, true), (meter(Phase::Displaying, 1500), start));
    assert_eq!(advance(m, 3200, true), (meter(Phase::Displaying, 3200), start));
}

#[test]
fn a_display_lasts_until_its_countdown_has_run_out() {
    let m = meter(Phase::Displaying, 3200);
    assert_eq!(advance(m, 0, false), (m, None));
    assert_eq!(advance(m, 9000, false), (m, None));
    assert_eq!(advance(m, 0, true), (meter(Phase::Waiting, 0), None));
    assert_eq!(advance(m, 9000, true), (meter(Phase::Waiting, 0), None));
}

#[test]
fn a_punch_is_recorded_shown_and_forgotten() {
    let mut m = new_meter();
    let mut started = Vec::new();
    let samples = [(300, false), (4200, false), (5100, false), (2000, true), (7000, false), (10, true), (800, false)];
    let mut phases = Vec::new();
    for (sample, expired) in samples {
        let (next, start) = advance(m, sample, expired);
        m = next;
        phases.push(m);
        if let Some(s) = start {
            started.push(s);
        }
    }
    assert_eq!(
        phases,
        vec![
            meter(Phase::Waiting, 0),
            meter(Phase::Recording, 4200),
            meter(Phase::Recording, 5100),
            meter(Phase::Displaying, 5100),
            meter(Phase::Displaying, 5100),
            meter(Phase::Waiting, 0),
            meter(Phase::Waiting, 0),
        ]
    );
    assert_eq!(
        started,
        vec![
            Start { clock: Clock::Recording, micros: 1_000_000 },
            Start { clock: Clock::Display, micros: 5_000_000 },
        ]
    );
}

#[test]
fn the_frame_is_idle_unless_the_meter_displays() {
    assert_eq!(meter_frame(meter(Phase::Waiting, 0)), IDLE);
    assert_eq!(meter_frame(meter(Phase::Waiting, 9000)), IDLE);
    assert_eq!(meter_frame(meter(Phase::Recording, 9000)), IDLE);
}

#[test]
fn the_gauge_lights_one_led_for_each_full_threshold() {
    assert_eq!(
        meter_frame(meter(Phase::Displaying, 3999)),
        [[1, 1, 1, 0, 0], [0, 0, 0, 0, 0], [0, 0, 0, 0, 0], [0, 0, 0, 0, 0], [0, 0, 0, 0, 0]]
    );
    assert_eq!(
        meter_frame(meter(Phase::Displaying, 7000)),
        [[1, 1, 1, 1, 1], [1, 1, 0, 0, 0], [0, 0, 0, 0, 0], [0, 0, 0, 0, 0], [0, 0, 0, 0, 0]]
    );
    assert_eq!(meter_frame(meter(Phase::Displaying, 999)), [[0; 5]; 5]);
    assert_eq!(meter_frame(meter(Phase::Displaying, 25_000)), [[1; 5]; 5]);
    assert_eq!(meter_frame(meter(Phase::Displaying, 255_999)), [[1; 5]; 5]);
}

#[test]
fn the_gauge_counts_in_eight_bits() {
    assert_eq!(meter_frame(meter(Phase::Displaying, 256_000)), [[0; 5]; 5]);
    assert_eq!(
        meter_frame(meter(Phase::Displaying, 258_000)),
        [[1, 1, 0, 0, 0], [0, 0, 0, 0, 0], [0, 0, 0, 0, 0], [0, 0, 0, 0, 0], [0, 0, 0, 0, 0]]
    );
    assert_eq!(meter_frame(meter(Phase::Displaying, u32::MAX)), [[1; 5]; 5]);
}
