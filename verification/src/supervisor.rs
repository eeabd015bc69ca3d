//! Link supervision: the decision core of the vehicle's control loop.
//!
//! Each iteration of the loop races "a frame arrived" against "the timeout
//! elapsed" and hands the outcome here as one `LinkEvent`. A timeout forces
//! both motors to stop (the failsafe). A frame is applied only when it is
//! addressed to this unit and decodes to a command; anything else leaves the
//! motors exactly as they were — garbage is ignored, only silence stops the
//! vehicle.
use vstd::prelude::*;
use vstd::utf8::{decode_utf8, valid_utf8};

use crate::drivers::motor::{run_spec, stop_spec, DutyCycleOutput, Motor, MotorState};
use crate::protocol::encoder::{
    ascii_bytes, encode_chars, lemma_encode_chars_ascii, lemma_encode_then_decode,
};
use crate::protocol::message::{Message, Speed};
use crate::protocol::parser::{decode_spec, parse};

verus! {

/// The outcome of one race between the transport and the timeout timer.
pub enum LinkEvent {
    /// A raw frame arrived: its destination address and its payload bytes.
    Frame { destination: [u8; 6], payload: Vec<u8> },
    /// No frame arrived within the timeout window.
    TimedOut,
}

/// The command a frame carries for the unit at `self_address`: `None` when
/// the frame is addressed elsewhere, is not UTF-8, or does not decode.
pub open spec fn frame_command(
    self_address: Seq<u8>,
    destination: Seq<u8>,
    payload: Seq<u8>,
) -> Option<Message> {
    if destination == self_address && valid_utf8(payload) {
        match decode_spec(decode_utf8(payload)) {
            Ok(message) => Some(message),
            Err(_) => None,
        }
    } else {
        None
    }
}

/// How one decoded command (or its absence) moves the two motors' states.
pub open spec fn apply_spec(
    left: MotorState,
    right: MotorState,
    command: Option<Message>,
) -> (MotorState, MotorState) {
    match command {
        None => (left, right),
        Some(Message::LeftSpeed(v)) => (run_spec(v.to_i16_spec()), right),
        Some(Message::RightSpeed(v)) => (left, run_spec(v.to_i16_spec())),
        Some(Message::Stop) => (stop_spec(left), stop_spec(right)),
    }
}

/// One full supervision step: a timeout stops both motors; a frame is applied
/// through `frame_command`.
pub open spec fn step_spec(
    left: MotorState,
    right: MotorState,
    self_address: Seq<u8>,
    event: LinkEvent,
) -> (MotorState, MotorState) {
    match event {
        LinkEvent::TimedOut => (stop_spec(left), stop_spec(right)),
        LinkEvent::Frame { destination, payload } => apply_spec(
            left,
            right,
            frame_command(self_address, destination@, payload@),
        ),
    }
}

/// Relies on core::str::from_utf8: it returns `Ok` exactly on UTF-8 input,
/// and the returned string slice is the decoding of those bytes.
#[verifier::external_body]
fn frame_text(bytes: &[u8]) -> (r: Option<&str>)
    ensures
        r is Some <==> valid_utf8(bytes@),
        r matches Some(s) ==> s@ == decode_utf8(bytes@),
{
    core::str::from_utf8(bytes).ok()
}

/// Element-wise equality of two hardware addresses.
fn addr_eq(a: &[u8; 6], b: &[u8; 6]) -> (r: bool)
    ensures
        r == (a@ == b@),
{
    let r = a[0] == b[0] && a[1] == b[1] && a[2] == b[2] && a[3] == b[3] && a[4] == b[4] && a[5]
        == b[5];
    proof {
        if r {
            assert(a@ =~= b@);
        }
    }
    r
}

/// The vehicle-side supervisor: the two motors it owns exclusively, and the
/// unit's own hardware address that inbound frames must be addressed to.
pub struct Supervisor<
    LF: DutyCycleOutput,
    LB: DutyCycleOutput,
    RF: DutyCycleOutput,
    RB: DutyCycleOutput,
> {
    pub left: Motor<LF, LB>,
    pub right: Motor<RF, RB>,
    pub address: [u8; 6],
}

impl<
    LF: DutyCycleOutput,
    LB: DutyCycleOutput,
    RF: DutyCycleOutput,
    RB: DutyCycleOutput,
> Supervisor<LF, LB, RF, RB> {
    /// The address inbound frames are matched against.
    pub open spec fn address_spec(&self) -> Seq<u8> {
        self.address@
    }

    pub fn new(left: Motor<LF, LB>, right: Motor<RF, RB>, address: [u8; 6]) -> (s: Self)
        ensures
            s.left == left,
            s.right == right,
            s.address_spec() == address@,
    {
        Supervisor { left, right, address }
    }

    /// Apply the outcome of one race iteration. A timeout stops both motors
    /// unconditionally; a frame moves a motor only when it is addressed here
    /// and decodes — a wrong address, bad UTF-8 or a parse error changes
    /// nothing.
    pub fn step(&mut self, event: LinkEvent)
        ensures
            final(self).address_spec() == old(self).address_spec(),
            (final(self).left.state(), final(self).right.state()) == step_spec(
                old(self).left.state(),
                old(self).right.state(),
                old(self).address_spec(),
                event,
            ),
    {
        match event {
            LinkEvent::TimedOut => {
                self.left.stop();
                self.right.stop();
            },
            LinkEvent::Frame { destination, payload } => {
                if addr_eq(&destination, &self.address) {
                    match frame_text(payload.as_slice()) {
                        Some(text) => {
                            match parse(text) {
                                Ok(message) => match message {
                                    Message::LeftSpeed(speed) => {
                                        self.left.run(speed.to_i16());
                                    },
                                    Message::RightSpeed(speed) => {
                                        self.right.run(speed.to_i16());
                                    },
                                    Message::Stop => {
                                        self.left.stop();
                                        self.right.stop();
                                    },
                                },
                                Err(_) => {},
                            }
                        },
                        None => {},
                    }
                }
            },
        }
    }
}

/// Silence is the failsafe: on a timeout both motors drop to speed zero,
/// whatever was commanded before, and keep their directions.
pub proof fn lemma_timeout_is_failsafe(left: MotorState, right: MotorState, self_address: Seq<u8>)
    ensures
        step_spec(left, right, self_address, LinkEvent::TimedOut).0.speed == 0,
        step_spec(left, right, self_address, LinkEvent::TimedOut).1.speed == 0,
        step_spec(left, right, self_address, LinkEvent::TimedOut).0.direction == left.direction,
        step_spec(left, right, self_address, LinkEvent::TimedOut).1.direction == right.direction,
{
}

/// A frame that decodes to a left-speed command moves only the left motor,
/// which then reports the commanded magnitude; the right motor is untouched.
pub proof fn lemma_left_speed_moves_left_only(
    left: MotorState,
    right: MotorState,
    self_address: Seq<u8>,
    destination: [u8; 6],
    payload: Vec<u8>,
    v: Speed,
)
    requires
        frame_command(self_address, destination@, payload@) == Some(Message::LeftSpeed(v)),
    ensures
        step_spec(left, right, self_address, LinkEvent::Frame { destination, payload }).0
            == run_spec(v.to_i16_spec()),
        step_spec(left, right, self_address, LinkEvent::Frame { destination, payload }).1 == right,
{
}

/// A frame that carries no usable command — wrong address, not UTF-8, or
/// undecodable — changes neither motor: garbage never triggers the failsafe.
pub proof fn lemma_garbage_is_ignored(
    left: MotorState,
    right: MotorState,
    self_address: Seq<u8>,
    destination: [u8; 6],
    payload: Vec<u8>,
)
    requires
        frame_command(self_address, destination@, payload@) is None,
    ensures
        step_spec(left, right, self_address, LinkEvent::Frame { destination, payload }) == (
            left,
            right,
        ),
{
}

/// End to end: a frame the transmitter encoded for this unit carries exactly
/// the left-speed command it was built from, so one supervision step on it
/// moves the left motor and leaves the right motor as it was.
pub proof fn lemma_encoded_frame_commands_left(self_address: Seq<u8>, left: Speed, right: Speed)
    requires
        left.wf(),
        right.wf(),
    ensures
        frame_command(self_address, self_address, ascii_bytes(encode_chars(left, right)))
            == Some(Message::LeftSpeed(left)),
{
    let chars = encode_chars(left, right);
    let payload = ascii_bytes(chars);
    lemma_encode_chars_ascii(left, right);
    vstd::utf8::is_ascii_chars_encode_utf8(chars);
    assert(payload =~= vstd::utf8::encode_utf8(chars));
    vstd::utf8::encode_utf8_valid_utf8(chars);
    vstd::utf8::encode_utf8_decode_utf8(chars);
    lemma_encode_then_decode(left, right);
}

} // verus!
