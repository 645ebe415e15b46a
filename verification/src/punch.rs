//! A punch-o-meter: it waits for a strong acceleration, records the
//! strongest reading during one second, shows it as a gauge for five
//! seconds and waits again.  The timers themselves run elsewhere; this
//! module decides what each sample leads to.

use vstd::prelude::*;
use crate::leds::{fill_order, increment_led_by};

verus! {

/// A reading has to exceed this to start a recording, and the gauge lights
/// one LED for each full multiple of it.
pub const THRESHOLD: u32 = 1000;

/// How long a recording lasts, in microseconds.
pub const RECORDING_MICROS: u32 = 1_000_000;

/// How long the gauge is shown, in microseconds.
pub const DISPLAY_MICROS: u32 = 5_000_000;

/// What the meter is doing.
#[derive(Clone, Copy, Debug, PartialEq, Eq, Structural)]
pub enum Phase {
    Waiting,
    Recording,
    Displaying,
}

/// One of the two countdowns that the meter asks for.
#[derive(Clone, Copy, Debug, PartialEq, Eq, Structural)]
pub enum Clock {
    Recording,
    Display,
}

/// The request to start a countdown.
#[derive(Clone, Copy, Debug, PartialEq, Eq, Structural)]
pub struct Start {
    pub clock: Clock,
    pub micros: u32,
}

/// The meter's state: its phase and the strongest reading of the current
/// recording.
#[derive(Clone, Copy, Debug, PartialEq, Eq, Structural)]
pub struct Meter {
    pub phase: Phase,
    pub record: u32,
}

/// The absolute value of `v`.
pub open spec fn magnitude(v: int) -> int {
    if v < 0 {
        -v
    } else {
        v
    }
}

/// The strength of a sample: the greater of the magnitudes of its two
/// readings.
pub open spec fn spec_strength(x: int, y: int) -> int {
    if magnitude(x) > magnitude(y) {
        magnitude(x)
    } else {
        magnitude(y)
    }
}

/// The number of LEDs that the gauge lights for a record: one for each full
/// threshold, counted in eight bits.
pub open spec fn gauge_count(record: u32) -> int {
    (record / THRESHOLD) as int % 256
}

/// The countdown whose expiry matters to a meter in state `m`.
pub open spec fn spec_awaited(m: Meter) -> Option<Clock> {
    match m.phase {
        Phase::Waiting => None,
        Phase::Recording => Some(Clock::Recording),
        Phase::Displaying => Some(Clock::Display),
    }
}

/// What a sample of the given strength leads to, where `expired` says
/// whether the awaited countdown has run out.
///
/// A waiting meter starts a recording on a sample above the threshold.  A
/// recording meter keeps the strongest sample and, once its second is over,
/// starts the display.  A displaying meter goes back to waiting, with its
/// record cleared, once its five seconds are over.
pub open spec fn spec_advance(m: Meter, strength: u32, expired: bool) -> (Meter, Option<Start>) {
    match m.phase {
        Phase::Waiting => if strength > THRESHOLD {
            (
                Meter { phase: Phase::Recording, record: strength },
                Some(Start { clock: Clock::Recording, micros: RECORDING_MICROS }),
            )
        } else {
            (m, None)
        },
        Phase::Recording => {
            let record = if strength > m.record {
                strength
            } else {
                m.record
            };
            if expired {
                (
                    Meter { phase: Phase::Displaying, record },
                    Some(Start { clock: Clock::Display, micros: DISPLAY_MICROS }),
                )
            } else {
                (Meter { phase: Phase::Recording, record }, None)
            }
        },
        Phase::Displaying => if expired {
            (Meter { phase: Phase::Waiting, record: 0 }, None)
        } else {
            (m, None)
        },
    }
}

/// A meter that waits, with nothing recorded.
pub fn new_meter() -> (m: Meter)
    ensures
        m == (Meter { phase: Phase::Waiting, record: 0 }),
{
    Meter { phase: Phase::Waiting, record: 0 }
}

/// The absolute value of a reading.  It is computed in a wider type, so
/// the most negative reading has one too.
pub fn reading_magnitude(v: i32) -> (a: u32)
    ensures
        a == magnitude(v as int),
{
    let wide: i64 = v as i64;
    if wide < 0 {
        (-wide) as u32
    } else {
        wide as u32
    }
}

/// The strength of the sample `(x, y)`.
pub fn strength(x: i32, y: i32) -> (s: u32)
    ensures
        s == spec_strength(x as int, y as int),
{
    let ax: u32 = reading_magnitude(x);
    let ay: u32 = reading_magnitude(y);
    if ax > ay {
        ax
    } else {
        ay
    }
}

/// The countdown that has to be polled before the next sample is handed to
/// `advance`, if any.
pub fn awaited(m: Meter) -> (clock: Option<Clock>)
    ensures
        clock == spec_awaited(m),
{
    match m.phase {
        Phase::Waiting => None,
        Phase::Recording => Some(Clock::Recording),
        Phase::Displaying => Some(Clock::Display),
    }
}

/// Handles one sample: returns the meter's next state and the countdown to
/// start, if one is to be started.
pub fn advance(m: Meter, strength: u32, expired: bool) -> (r: (Meter, Option<Start>))
    ensures
        r == spec_advance(m, strength, expired),
{
    match m.phase {
        Phase::Waiting => {
            if strength > THRESHOLD {
                (
                    Meter { phase: Phase::Recording, record: strength },
                    Some(Start { clock: Clock::Recording, micros: RECORDING_MICROS }),
                )
            } else {
                (m, None)
            }
        },
        Phase::Recording => {
            let record = if strength > m.record {
                strength
            } else {
                m.record
            };
            if expired {
                (
                    Meter { phase: Phase::Displaying, record },
                    Some(Start { clock: Clock::Display, micros: DISPLAY_MICROS }),
                )
            } else {
                (Meter { phase: Phase::Recording, record }, None)
            }
        },
        Phase::Displaying => {
            if expired {
                (Meter { phase: Phase::Waiting, record: 0 }, None)
            } else {
                (m, None)
            }
        },
    }
}

/// The frame that a meter in state `m` shows: the gauge of its record while
/// it displays, and otherwise the centre LED alone.
pub fn meter_frame(m: Meter) -> (out: [[u8; 5]; 5])
    ensures
        m.phase == Phase::Displaying ==> forall|r: int, c: int|
            0 <= r < 5 && 0 <= c < 5 ==> #[trigger] out[r][c] == (if fill_order(r, c) < gauge_count(m.record) {
                1u8
            } else {
                0u8
            }),
        m.phase != Phase::Displaying ==> forall|r: int, c: int|
            0 <= r < 5 && 0 <= c < 5 ==> #[trigger] out[r][c] == (if r == 2 && c == 2 {
                1u8
            } else {
                0u8
            }),
{
    match m.phase {
        Phase::Displaying => {
            let full: u32 = m.record / THRESHOLD;
            let count: u8 = #[verifier::truncate] (full as u8);
            assert((full as u8) as u32 == full % 256u32) by (bit_vector);
            increment_led_by(count)
        },
        _ => [[0, 0, 0, 0, 0], [0, 0, 0, 0, 0], [0, 0, 1, 0, 0], [0, 0, 0, 0, 0], [0, 0, 0, 0, 0]],
    }
}

} // verus!
