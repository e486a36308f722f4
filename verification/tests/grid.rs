use harness::grid::{Grid, Pick, Plan, Schedule};
use std::sync::Arc;
use std::time::Duration;

fn plan(frame: u64, k_start: i64, actions: &[i8]) -> Arc<Plan> {
    Arc::new(Plan { frame, k_start, actions: actions.to_vec() })
}

fn actions(s: &mut Schedule, ks: std::ops::Range<i64>) -> Vec<i8> {
    ks.map(|k| s.pick(k).action()).collect()
}

fn grid() -> Grid {
    Grid { t0: Duration::from_millis(1000), period: Duration::from_millis(20) }
}

#[test]
fn k_start_rounds_up_to_the_next_slot() {
    let g = grid();
    let off = Duration::from_millis(60);
    assert_eq!(g.k_start(Duration::from_millis(1000), off), 3); // exactly on a slot
    assert_eq!(g.k_start(Duration::from_millis(1001), off), 4); // just after: next one
    assert_eq!(g.k_start(Duration::from_millis(1019), off), 4);
    assert_eq!(g.k_start(Duration::from_millis(900), off), -2); // before t0
    assert_eq!(g.slot_at(Duration::from_millis(1039)), Some(1));
    assert_eq!(g.slot_at(Duration::from_millis(999)), None);
}

#[test]
fn a_newer_plan_takes_over_from_its_start() {
    let mut s = Schedule::default();
    s.push(plan(1, 0, &[1, 1, 1, 1, 1, 1]));
    s.push(plan(2, 3, &[2, 2, 2, 2]));
    // Plan 2 arrived before slot 3; plan 1 keeps slots 0..3.
    assert_eq!(actions(&mut s, 0..8), [1, 1, 1, 2, 2, 2, 2, 0]);
}

#[test]
fn several_plans_can_be_waiting() {
    let mut s = Schedule::default();
    s.push(plan(1, 0, &[1; 8]));
    s.push(plan(2, 2, &[2; 8]));
    s.push(plan(3, 4, &[3; 8]));
    assert_eq!(actions(&mut s, 0..6), [1, 1, 2, 2, 3, 3]);
}

#[test]
fn a_late_plan_loses_the_slots_already_past() {
    let mut s = Schedule::default();
    s.push(plan(1, 0, &[1; 4]));
    assert_eq!(actions(&mut s, 0..3), [1, 1, 1]);
    // Starts at slot 2, but only arrives before slot 3.
    s.push(plan(2, 2, &[20, 21, 22, 23]));
    assert_eq!(s.pick(3), Pick::Plan { frame: 2, index: 1, action: 21 });
}

#[test]
fn running_off_the_end_is_a_gap_until_the_next_plan() {
    let mut s = Schedule::default();
    assert_eq!(s.pick(0), Pick::Gap); // nothing yet
    s.push(plan(1, 1, &[5, 5]));
    assert_eq!(actions(&mut s, 1..5), [5, 5, 0, 0]);
    s.push(plan(2, 6, &[7]));
    assert_eq!(actions(&mut s, 5..8), [0, 7, 0]);
}

#[test]
fn equal_starts_go_to_the_newer_plan() {
    let mut s = Schedule::default();
    s.push(plan(1, 2, &[1; 4]));
    s.push(plan(2, 2, &[2; 4]));
    assert_eq!(s.pick(2).action(), 2);
}

#[test]
fn slots_begin_a_period_apart() {
    let g = grid();
    assert_eq!(g.slot_time(0), Duration::from_millis(1000));
    assert_eq!(g.slot_time(7), Duration::from_millis(1140));
    assert_eq!(g.slot_at(g.slot_time(7)), Some(7));
    assert_eq!(g.slot_at(g.slot_time(7) - Duration::from_nanos(1)), Some(6));
}

#[test]
fn the_first_slot_is_the_first_not_before_its_target() {
    let g = grid();
    for ms in 800u64..1200 {
        let t = Duration::from_millis(ms);
        let k = g.k_start(t, Duration::ZERO);
        let begins = 1000 + 20 * k;
        assert!(begins >= ms as i64 && begins - 20 < ms as i64);
    }
}

#[test]
fn an_index_past_a_byte_is_counted_modulo_256() {
    let mut s = Schedule::default();
    s.push(plan(9, 0, &[3; 300]));
    assert_eq!(s.pick(299), Pick::Plan { frame: 9, index: 43, action: 3 });
}
