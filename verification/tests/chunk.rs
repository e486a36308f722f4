use harness::chunk::{repeat, DutyCycle, FakePolicy};
use harness::stats::Phase;
use rand::rngs::StdRng;
use rand::SeedableRng;
use std::time::Duration;

/// A cycle of these many seconds on and off, in slots of `period`.
fn cycle(active_s: f64, rest_s: f64, period: Duration) -> DutyCycle {
    let slots = |s: f64| (s / period.as_secs_f64()).round() as i64;
    DutyCycle::new(slots(active_s), slots(rest_s))
}

#[test]
fn rests_start_and_end_exactly_on_their_slots() {
    // 2 slots on, 3 off, at 20 ms per slot.
    let d = cycle(0.04, 0.06, Duration::from_millis(20));
    let pattern: Vec<bool> = (0..10).map(|k| d.resting(k)).collect();
    let (f, t) = (false, true);
    assert_eq!(pattern, [f, f, t, t, t, f, f, t, t, t]);
}

#[test]
fn no_rest_means_always_on() {
    let d = cycle(1.0, 0.0, Duration::from_millis(20));
    assert!((0..1000).all(|k| !d.resting(k)));
}

#[test]
fn a_chunk_straddling_a_rest_is_zeroed_from_the_boundary() {
    let mut p = FakePolicy {
        rng: StdRng::seed_from_u64(1),
        range: 30,
        chunk: 8,
        duty: cycle(0.1, 0.1, Duration::from_millis(20)), // 5 on, 5 off
    };
    // Slots 3..11: on for 3 and 4, resting 5..=9, on again at 10.
    let plan = p.plan(3);
    let a = plan[0];
    assert_ne!(a, 0, "seed 1 draws a non-zero action");
    assert_eq!(plan, [a, a, 0, 0, 0, 0, 0, a]);
}

#[test]
fn actions_are_drawn_from_the_whole_range() {
    let mut p = FakePolicy {
        rng: StdRng::seed_from_u64(7),
        range: 2,
        chunk: 1,
        duty: DutyCycle::new(1, 0),
    };
    let drawn: Vec<i8> = (0..500).map(|k| p.plan(k)[0]).collect();
    assert!(drawn.iter().all(|a| (-2..=2).contains(a)));
    assert!((-2..=2).all(|a| drawn.contains(&a)));
}

#[test]
fn slots_before_the_grid_are_in_a_cycle_too() {
    let d = DutyCycle::new(2, 3);
    let pattern: Vec<bool> = (-5..0).map(|k| d.resting(k)).collect();
    assert_eq!(pattern, [false, false, true, true, true]);
    assert_eq!(d.resting(i64::MIN), d.resting(i64::MIN + 5));
    assert_eq!(repeat(&d, -4, 4, 9), [9, 0, 0, 0]);
}

#[test]
fn a_cycle_has_at_least_one_active_slot() {
    let d = DutyCycle::new(0, -3);
    assert_eq!((d.active_slots(), d.rest_slots()), (1, 0));
    let d = DutyCycle::new(-7, 4);
    assert_eq!((d.active_slots(), d.rest_slots()), (1, 4));
}

#[test]
fn the_phase_is_that_of_the_slot_in_progress() {
    let d = DutyCycle::new(2, 3);
    assert_eq!(d.phase(Some(1)), Phase::Active);
    assert_eq!(d.phase(Some(2)), Phase::Resting);
    assert_eq!(d.phase(None), Phase::Unsaid);
    assert_eq!(DutyCycle::new(2, 0).phase(Some(2)), Phase::Unsaid);
}

#[test]
fn the_same_seed_draws_the_same_plans() {
    let policy = |seed| FakePolicy {
        rng: StdRng::seed_from_u64(seed),
        range: 60,
        chunk: 1,
        duty: DutyCycle::new(1, 0),
    };
    let plans = |mut p: FakePolicy| -> Vec<i8> { (0..100).map(|k| p.plan(k)[0]).collect() };
    assert_eq!(plans(policy(3)), plans(policy(3)));
    assert_ne!(plans(policy(3)), plans(policy(4)));
    let mut p = policy(3);
    assert_ne!((p.plan(0), p.plan(0), p.plan(0)), (p.plan(0), p.plan(0), p.plan(0)));
}
