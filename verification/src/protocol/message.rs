//! Decoded command values.
//!
//! A commanded speed travels on the wire as a decimal literal. The vehicle
//! only ever acts on whole percentage points, so the value is carried as a
//! signed fixed-point number counted in hundredths of a percent.
use vstd::prelude::*;

verus! {

/// Largest magnitude a `Speed` can carry, in hundredths: decoding saturates
/// here. Far beyond the meaningful range of -100.00 ..= 100.00 percent.
pub const SPEED_MAG_CAP: u64 = 10_000_000_000;

/// A signed speed in hundredths of a percent (`2508` stands for 25.08%).
/// Sign and magnitude are kept apart; a zero magnitude is never negative,
/// so equal values compare equal.
#[derive(Clone, Copy, PartialEq, Eq, Structural, Debug)]
pub struct Speed {
    pub neg: bool,
    pub mag: u64,
}

impl Speed {
    /// Well-formedness: the magnitude is within the cap and zero carries no sign.
    pub open spec fn wf(self) -> bool {
        self.mag <= SPEED_MAG_CAP && (self.neg ==> self.mag > 0)
    }

    /// The signed value in hundredths of a percent.
    pub open spec fn value(self) -> int {
        if self.neg {
            -(self.mag as int)
        } else {
            self.mag as int
        }
    }

    pub open spec fn from_hundredths_spec(h: int) -> Speed {
        if h <= -(SPEED_MAG_CAP as int) {
            Speed { neg: true, mag: SPEED_MAG_CAP }
        } else if h < 0 {
            Speed { neg: true, mag: (-h) as u64 }
        } else if h >= SPEED_MAG_CAP as int {
            Speed { neg: false, mag: SPEED_MAG_CAP }
        } else {
            Speed { neg: false, mag: h as u64 }
        }
    }

    /// Builds the speed closest to `h` hundredths of a percent (saturating at
    /// the cap).
    pub fn from_hundredths(h: i64) -> (s: Speed)
        ensures
            s == Self::from_hundredths_spec(h as int),
            s.wf(),
            -(SPEED_MAG_CAP as int) <= h <= SPEED_MAG_CAP as int ==> s.value() == h as int,
    {
        if h <= -(SPEED_MAG_CAP as i64) {
            Speed { neg: true, mag: SPEED_MAG_CAP }
        } else if h < 0 {
            Speed { neg: true, mag: (-h) as u64 }
        } else if h >= SPEED_MAG_CAP as i64 {
            Speed { neg: false, mag: SPEED_MAG_CAP }
        } else {
            Speed { neg: false, mag: h as u64 }
        }
    }

    /// The whole percentage points of this value: truncated toward zero, then
    /// saturated to the `i16` range.
    pub open spec fn to_i16_spec(self) -> i16 {
        let w = self.mag as int / 100;
        if self.neg {
            if w >= 32768 {
                i16::MIN
            } else {
                (-w) as i16
            }
        } else {
            if w >= 32767 {
                i16::MAX
            } else {
                w as i16
            }
        }
    }

    /// Truncates to whole percentage points, saturating to the `i16` range.
    pub fn to_i16(self) -> (r: i16)
        ensures
            r == self.to_i16_spec(),
    {
        let w: u64 = self.mag / 100;
        if self.neg {
            if w >= 32768 {
                i16::MIN
            } else {
                -((w as i64) as i16)
            }
        } else {
            if w >= 32767 {
                i16::MAX
            } else {
                w as i16
            }
        }
    }
}

/// One decoded instruction. The "no command yet" state is `Stop`.
#[derive(Clone, Copy, PartialEq, Eq, Structural, Debug)]
pub enum Message {
    LeftSpeed(Speed),
    RightSpeed(Speed),
    Stop,
}

impl Default for Message {
    fn default() -> (r: Self)
        ensures
            r == Message::Stop,
    {
        Message::Stop
    }
}

} // verus!
