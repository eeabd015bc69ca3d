use robo_remote::drivers::motor::{Direction, Motor, NullOutput};
use robo_remote::supervisor::{LinkEvent, Supervisor};

const SELF_ADDRESS: [u8; 6] = [0x54, 0x32, 0x04, 0x32, 0xf2, 0xb8];

fn fresh_supervisor() -> Supervisor<NullOutput, NullOutput, NullOutput, NullOutput> {
    Supervisor::new(
        Motor::new(NullOutput, NullOutput),
        Motor::new(NullOutput, NullOutput),
        SELF_ADDRESS,
    )
}

fn frame(text: &str) -> LinkEvent {
    LinkEvent::Frame { destination: SELF_ADDRESS, payload: text.as_bytes().to_vec() }
}

#[test]
fn timeout_forces_both_motors_to_stop() {
    let mut sup = fresh_supervisor();
    sup.step(frame("LSPEED:80;"));
    sup.step(frame("RSPEED:-60;"));
    assert_eq!(sup.left.get_speed(), 80);
    assert_eq!(sup.right.get_speed(), 60);
    sup.step(LinkEvent::TimedOut);
    assert_eq!(sup.left.get_speed(), 0);
    assert_eq!(sup.right.get_speed(), 0);
    // the failsafe does not erase the last commanded directions
    assert_eq!(sup.left.get_dir(), Direction::Forward);
    assert_eq!(sup.right.get_dir(), Direction::Backward);
}

#[test]
fn left_speed_frame_moves_only_the_left_motor() {
    let mut sup = fresh_supervisor();
    sup.step(frame("RSPEED:30;"));
    sup.step(frame("LSPEED:50;"));
    assert_eq!(sup.left.get_speed(), 50);
    assert_eq!(sup.left.get_dir(), Direction::Forward);
    assert_eq!(sup.right.get_speed(), 30);
}

#[test]
fn right_speed_frame_moves_only_the_right_motor() {
    let mut sup = fresh_supervisor();
    sup.step(frame("LSPEED:20;"));
    sup.step(frame("RSPEED:-45.5;"));
    assert_eq!(sup.right.get_speed(), 45);
    assert_eq!(sup.right.get_dir(), Direction::Backward);
    assert_eq!(sup.left.get_speed(), 20);
}

#[test]
fn stop_frame_stops_both_motors() {
    let mut sup = fresh_supervisor();
    sup.step(frame("LSPEED:-70;"));
    sup.step(frame("RSPEED:70;"));
    sup.step(frame("STOP:;"));
    assert_eq!(sup.left.get_speed(), 0);
    assert_eq!(sup.right.get_speed(), 0);
    assert_eq!(sup.left.get_dir(), Direction::Backward);
    assert_eq!(sup.right.get_dir(), Direction::Forward);
}

#[test]
fn an_undecodable_frame_changes_nothing() {
    let mut sup = fresh_supervisor();
    sup.step(frame("LSPEED:25;"));
    sup.step(frame("LSPEED:garbage;"));
    assert_eq!(sup.left.get_speed(), 25);
    assert_eq!(sup.right.get_speed(), 0);
    sup.step(frame("no clause here"));
    assert_eq!(sup.left.get_speed(), 25);
}

#[test]
fn a_frame_that_is_not_utf8_changes_nothing() {
    let mut sup = fresh_supervisor();
    sup.step(frame("LSPEED:25;"));
    sup.step(LinkEvent::Frame { destination: SELF_ADDRESS, payload: vec![0xff, 0xfe, 0x3b] });
    assert_eq!(sup.left.get_speed(), 25);
    assert_eq!(sup.right.get_speed(), 0);
}

#[test]
fn a_frame_for_another_unit_changes_nothing() {
    let mut sup = fresh_supervisor();
    sup.step(frame("LSPEED:25;"));
    let elsewhere: [u8; 6] = [0, 1, 2, 3, 4, 5];
    sup.step(LinkEvent::Frame {
        destination: elsewhere,
        payload: "LSPEED:90;".as_bytes().to_vec(),
    });
    assert_eq!(sup.left.get_speed(), 25);
    assert_eq!(sup.right.get_speed(), 0);
}

#[test]
fn a_valid_frame_right_after_a_timeout_rearms_control() {
    let mut sup = fresh_supervisor();
    sup.step(frame("LSPEED:60;"));
    sup.step(LinkEvent::TimedOut);
    assert_eq!(sup.left.get_speed(), 0);
    sup.step(frame("LSPEED:60;"));
    assert_eq!(sup.left.get_speed(), 60);
}
