//! Motor actuation: a signed speed command becomes a direction plus an
//! unsigned duty-cycle percentage, saturated at 100, driven onto two
//! mutually exclusive output channels.
use vstd::prelude::*;

verus! {

/// The direction a motor was last commanded to turn. Stopping does not erase
/// it, so the default only matters before the first `run`.
#[derive(Clone, Copy, PartialEq, Eq, Structural, Debug)]
pub enum Direction {
    Forward,
    Backward,
}

impl Default for Direction {
    fn default() -> (r: Self)
        ensures
            r == Direction::Forward,
    {
        Direction::Forward
    }
}

/// One output channel that can be driven at a duty-cycle percentage or fully
/// off. The motor is best-effort per channel: a channel may reject an update,
/// and the motor ignores the rejection, so no postcondition is asked of
/// implementors.
pub trait DutyCycleOutput {
    /// Drive the channel at `percent` of full duty.
    fn set_duty_cycle_percent(&mut self, percent: u8) -> Result<(), ()>
        requires
            percent <= 100,
    ;

    /// Drive the channel fully off.
    fn set_duty_cycle_fully_off(&mut self) -> Result<(), ()>;
}

/// An output channel that discards every update and always succeeds.
pub struct NullOutput;

impl DutyCycleOutput for NullOutput {
    fn set_duty_cycle_percent(&mut self, percent: u8) -> Result<(), ()> {
        Ok(())
    }

    fn set_duty_cycle_fully_off(&mut self) -> Result<(), ()> {
        Ok(())
    }
}

/// The observable state of one motor: the commanded duty-cycle magnitude
/// (0 ..= 100) and the last commanded direction.
#[derive(Clone, Copy, PartialEq, Eq, Structural, Debug)]
pub struct MotorState {
    pub speed: u8,
    pub direction: Direction,
}

impl MotorState {
    pub open spec fn wf(self) -> bool {
        self.speed <= 100
    }
}

/// The magnitude of `v` saturated at 100.
pub open spec fn clamped_magnitude(v: i16) -> u8 {
    if v <= -100 || v >= 100 {
        100
    } else if v < 0 {
        (-v) as u8
    } else {
        v as u8
    }
}

/// What `Motor::run(v)` leaves as the observable state: magnitude clamped to
/// 100, direction from the sign of `v`.
pub open spec fn run_spec(v: i16) -> MotorState {
    MotorState {
        speed: clamped_magnitude(v),
        direction: if v < 0 {
            Direction::Backward
        } else {
            Direction::Forward
        },
    }
}

/// What `Motor::stop` leaves as the observable state: speed zero, direction
/// kept.
pub open spec fn stop_spec(s: MotorState) -> MotorState {
    MotorState { speed: 0, direction: s.direction }
}

/// One motor bound to a forward channel and a backward channel.
pub struct Motor<T: DutyCycleOutput, U: DutyCycleOutput> {
    forward_pin: T,
    backward_pin: U,
    speed: u8,
    direction: Direction,
}

impl<T: DutyCycleOutput, U: DutyCycleOutput> Motor<T, U> {
    /// The observable state: commanded speed and direction.
    pub closed spec fn state(&self) -> MotorState {
        MotorState { speed: self.speed, direction: self.direction }
    }

    /// A fresh motor: stopped, facing forward.
    pub fn new(forward_pin: T, backward_pin: U) -> (m: Self)
        ensures
            m.state() == (MotorState { speed: 0, direction: Direction::Forward }),
    {
        Self { forward_pin, backward_pin, speed: 0, direction: Direction::Forward }
    }

    pub fn set_dir(&mut self, dir: Direction)
        ensures
            final(self).state() == (MotorState { speed: old(self).state().speed, direction: dir }),
    {
        self.direction = dir;
    }

    pub fn get_dir(&mut self) -> (r: Direction)
        ensures
            final(self).state() == old(self).state(),
            r == old(self).state().direction,
    {
        self.direction
    }

    pub fn get_speed(&self) -> (r: u8)
        ensures
            r == self.state().speed,
    {
        self.speed
    }

    /// Halt: commanded speed drops to zero, both channels are driven fully
    /// off (best effort), the direction is left unchanged.
    pub fn stop(&mut self)
        ensures
            final(self).state() == stop_spec(old(self).state()),
    {
        self.speed = 0;
        let _ = self.forward_pin.set_duty_cycle_fully_off();
        let _ = self.backward_pin.set_duty_cycle_fully_off();
    }

    /// Apply a signed speed: the sign picks the direction, the magnitude —
    /// saturated at 100 — becomes the duty-cycle percentage of the channel
    /// for that direction, while the opposite channel is driven to zero.
    /// Channel updates are best effort.
    pub fn run(&mut self, speed: i16)
        ensures
            final(self).state() == run_spec(speed),
    {
        if speed < 0 {
            self.direction = Direction::Backward;
            if speed <= -100 {
                self.speed = 100;
            } else {
                self.speed = (-speed) as u8;
            }
        } else {
            self.direction = Direction::Forward;
            if speed >= 100 {
                self.speed = 100;
            } else {
                self.speed = speed as u8;
            }
        }

        match self.direction {
            Direction::Forward => {
                let _ = self.forward_pin.set_duty_cycle_percent(self.speed);
                let _ = self.backward_pin.set_duty_cycle_percent(0);
            },
            Direction::Backward => {
                let _ = self.forward_pin.set_duty_cycle_percent(0);
                let _ = self.backward_pin.set_duty_cycle_percent(self.speed);
            },
        }
    }
}

/// Running at any `v` in -100 ..= 100 commands exactly the magnitude of `v`,
/// and the direction is Backward exactly when `v` is negative.
pub proof fn lemma_run_within_range(v: i16)
    requires
        -100 <= v <= 100,
    ensures
        run_spec(v).speed == (if v < 0 {
            -(v as int)
        } else {
            v as int
        }),
        run_spec(v).direction == Direction::Backward <==> v < 0,
        run_spec(v).wf(),
{
}

/// Running at any `v` beyond the -100 ..= 100 range saturates the commanded
/// speed at exactly 100.
pub proof fn lemma_run_saturates(v: i16)
    requires
        v < -100 || v > 100,
    ensures
        run_spec(v).speed == 100,
{
}

/// Stopping zeroes the commanded speed and keeps the direction, whatever the
/// state was.
pub proof fn lemma_stop_keeps_direction(s: MotorState)
    ensures
        stop_spec(s).speed == 0,
        stop_spec(s).direction == s.direction,
{
}

/// Stopping is idempotent: a second stop changes nothing.
pub proof fn lemma_stop_idempotent(s: MotorState)
    ensures
        stop_spec(stop_spec(s)) == stop_spec(s),
{
}

} // verus!
