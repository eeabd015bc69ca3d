use robo_remote::drivers::motor::{Direction, Motor, NullOutput};

fn fresh_motor() -> Motor<NullOutput, NullOutput> {
    Motor::new(NullOutput, NullOutput)
}

#[test]
fn a_new_motor_is_stopped_facing_forward() {
    let mut m = fresh_motor();
    assert_eq!(m.get_speed(), 0);
    assert_eq!(m.get_dir(), Direction::Forward);
}

#[test]
fn run_sets_magnitude_and_direction() {
    let mut m = fresh_motor();
    for v in -100i16..=100 {
        m.run(v);
        assert_eq!(m.get_speed() as i16, v.abs());
        assert_eq!(m.get_dir() == Direction::Backward, v < 0);
    }
}

#[test]
fn run_saturates_at_one_hundred() {
    let mut m = fresh_motor();
    m.run(150);
    assert_eq!(m.get_speed(), 100);
    assert_eq!(m.get_dir(), Direction::Forward);
    m.run(-150);
    assert_eq!(m.get_speed(), 100);
    assert_eq!(m.get_dir(), Direction::Backward);
    m.run(i16::MAX);
    assert_eq!(m.get_speed(), 100);
    m.run(i16::MIN);
    assert_eq!(m.get_speed(), 100);
    assert_eq!(m.get_dir(), Direction::Backward);
}

#[test]
fn stop_zeroes_speed_and_keeps_direction() {
    let mut m = fresh_motor();
    m.run(-42);
    assert_eq!(m.get_speed(), 42);
    assert_eq!(m.get_dir(), Direction::Backward);
    m.stop();
    assert_eq!(m.get_speed(), 0);
    assert_eq!(m.get_dir(), Direction::Backward);
}

#[test]
fn stop_twice_is_stop_once() {
    let mut m = fresh_motor();
    m.run(77);
    m.stop();
    let speed_once = m.get_speed();
    let dir_once = m.get_dir();
    m.stop();
    assert_eq!(m.get_speed(), speed_once);
    assert_eq!(m.get_dir(), dir_once);
}

#[test]
fn set_dir_changes_only_the_direction() {
    let mut m = fresh_motor();
    m.run(30);
    m.set_dir(Direction::Backward);
    assert_eq!(m.get_dir(), Direction::Backward);
    assert_eq!(m.get_speed(), 30);
}

#[test]
fn default_direction_is_forward() {
    assert_eq!(Direction::default(), Direction::Forward);
}
