use harness::drive::{Drive, Event, Motor};

#[test]
fn every_action_is_written_and_a_zero_comes_last() {
    let mut m = Motor::new();
    assert_eq!(m.next(Event::Action(100)), Drive::Write(100));
    assert_eq!(m.next(Event::Written), Drive::Run);
    assert_eq!(m.next(Event::Action(-1)), Drive::Write(255));
    assert_eq!(m.next(Event::Written), Drive::Run);
    assert_eq!(m.next(Event::Over), Drive::Halt(0));
    assert_eq!(m.next(Event::Written), Drive::Done { ok: true });
}

#[test]
fn a_stopped_motor_is_given_nothing_more() {
    let mut m = Motor::new();
    assert_eq!(m.next(Event::Failed), Drive::Halt(0));
    assert_eq!(m.next(Event::Written), Drive::Done { ok: false });
    for e in [Event::Action(50), Event::Written, Event::Over, Event::Failed] {
        assert_eq!(m.next(e), Drive::Done { ok: false });
    }
}

#[test]
fn a_motor_stops_well_only_if_its_zero_was_written() {
    let mut m = Motor::new();
    assert_eq!(m.next(Event::Over), Drive::Halt(0));
    assert_eq!(m.next(Event::Failed), Drive::Done { ok: false });
    // An action that could not be written.
    let mut m = Motor::new();
    assert_eq!(m.next(Event::Action(3)), Drive::Write(3));
    assert_eq!(m.next(Event::Failed), Drive::Halt(0));
    assert_eq!(m.next(Event::Written), Drive::Done { ok: false });
}
