use harness::clock::{from_ns, ticks};
use harness::log::{watch, Logger, Ticker, Watch};
use harness::policy::DutyCycle;
use harness::record::{FrameRow, TagRow};
use harness::stats::{quantiles, slowest, Live, Phase, Quantiles, Stats};
use std::time::Duration;

fn ms(n: u64) -> Duration {
    Duration::from_millis(n)
}

fn tag() -> TagRow {
    TagRow { pose: [0; 7], err: 0, alt_err: None, margin: 0 }
}

fn row(frame: u64, policy: Option<(i64, i64, i64)>) -> FrameRow {
    FrameRow {
        frame,
        t_capture: 100,
        t_arrival: 103,
        t_detect_start: 110,
        t_detected: 117,
        tags: vec![Some(tag()), None, Some(tag())],
        acted: policy.is_some(),
        t_policy_start: policy.map(|p| p.0),
        t_policy_done: policy.map(|p| p.1),
        t_sent: policy.map(|p| p.2),
        action: 0,
    }
}

#[test]
fn rows_are_counted_and_timed() {
    let mut s = Stats::new(3);
    s.add(&row(0, None), true);
    s.add(&row(1, None), false);
    s.add(&row(2, Some((120, 131, 150))), false);
    assert_eq!((s.frames, s.acted, s.skipped), (3, 1, 1));
    assert_eq!(s.with_tag, [3, 0, 3]);
    assert_eq!(s.last_capture, Some(100));
    assert_eq!((s.age, s.detect), (vec![3; 3], vec![7; 3]));
    assert_eq!((s.wait, s.policy, s.delay), (vec![3], vec![11], vec![50]));
}

#[test]
fn the_phase_is_that_of_the_latest_row() {
    let duty = DutyCycle { active: Duration::from_nanos(100), rest: Duration::from_nanos(50) };
    let mut s = Stats::new(3);
    assert_eq!(s.phase(&duty), Phase::Unsaid);
    s.add(&row(0, None), true); // captured at 100
    assert_eq!(s.phase(&duty), Phase::Resting);
    let mut r = row(1, None);
    r.t_capture = -4; // before t0 counts as t0
    s.add(&r, true);
    assert_eq!(s.phase(&duty), Phase::Active);
    let always = DutyCycle { active: duty.active, rest: Duration::ZERO };
    assert_eq!(s.phase(&always), Phase::Unsaid);
}

#[test]
fn quantiles_are_at_the_nearest_rank() {
    assert_eq!(quantiles(vec![]), None);
    assert_eq!(quantiles(vec![5]), Some(Quantiles { min: 5, median: 5, p95: 5, max: 5 }));
    // Of two as near, the later: 0.5 and 9.5 round up.
    assert_eq!(quantiles(vec![2, 1]), Some(Quantiles { min: 1, median: 2, p95: 2, max: 2 }));
    let v: Vec<i128> = (0..11).rev().collect();
    assert_eq!(quantiles(v), Some(Quantiles { min: 0, median: 5, p95: 10, max: 10 }));
    let v: Vec<i128> = (0..101).map(|i| (i * 37 % 101) - 50).collect();
    assert_eq!(quantiles(v), Some(Quantiles { min: -50, median: 0, p95: 45, max: 50 }));
}

#[test]
fn ranks_are_those_of_floating_point() {
    for n in 1..3000usize {
        let q = quantiles((0..n as i128).collect()).unwrap();
        let at = |p: f64| ((n - 1) as f64 * p).round() as i128;
        assert_eq!((q.min, q.median, q.p95, q.max), (at(0.0), at(0.5), at(0.95), at(1.0)));
    }
}

#[test]
fn the_slowest_is_at_least_zero() {
    assert_eq!(slowest(&vec![]), 0);
    assert_eq!(slowest(&vec![-3, -9]), 0);
    assert_eq!(slowest(&vec![4, 12, 7]), 12);
}

#[test]
fn a_ticker_keeps_its_cadence_when_it_is_late() {
    let mut t = Ticker::new(ms(1000));
    assert!(!t.due(ms(999)));
    assert!(t.due(ms(2500)));
    assert!(t.due(ms(2500))); // the second one was due at 2000
    assert!(!t.due(ms(2500)));
    let mut never = Ticker::new(ms(0));
    assert!(!never.due(ms(1_000_000)));
    assert_eq!(t.first(&never), 3_000_000_000);
    assert_eq!(t.first(&Ticker::new(ms(200))), 200_000_000);
}

#[test]
fn a_logger_flushes_every_second_and_reports_intervals() {
    let mut l = Logger::new(3, ms(10_000));
    assert_eq!(l.wake(), 1_000_000_000);
    for n in 0..5 {
        l.row(&row(n, None));
    }
    let due = l.tick(ms(1000));
    assert!(due.flush && due.status.is_none());
    assert_eq!(l.wake(), 2_000_000_000);
    let status = l.tick(ms(10_000)).status.unwrap();
    // The first two only filled the history.
    assert_eq!((status.frames, status.skipped), (5, 3));
    l.row(&row(5, Some((1, 2, 3))));
    let status = l.tick(ms(20_000)).status.unwrap();
    assert_eq!((status.frames, status.acted, status.skipped), (1, 1, 0));
    let total = l.finish();
    assert_eq!((total.frames, total.acted, total.skipped), (6, 1, 3));
}

#[test]
fn no_status_line_is_due_without_an_interval() {
    let mut l = Logger::new(3, ms(0));
    assert!(l.tick(ms(60_000)).status.is_none());
    let mut l = Logger::new(3, ms(300));
    assert_eq!(l.wake(), 300_000_000);
    assert!(!l.tick(ms(300)).flush);
}

#[test]
fn a_run_stops_when_it_is_over_and_aborts_on_a_reset() {
    assert_eq!(watch(false, false, false, false), Watch::Run);
    assert_eq!(watch(true, false, true, false), Watch::Stop);
    assert_eq!(watch(false, true, true, true), Watch::Stop);
    assert_eq!(watch(false, false, true, true), Watch::Abort);
    assert_eq!(watch(false, false, false, true), Watch::Stop);
}

#[test]
fn a_status_line_covers_what_happened_since_the_last() {
    let mut live = Live::new(2);
    live.frame(&[true, false], 4_999_999, false);
    live.slot(700_000, true, false);
    let first = live.snapshot();
    live.frame(&[true, true], 2_000_000, true);
    live.slot(6_000_000, false, true);
    live.slot(0, false, false);
    live.skip(3);
    let s = live.status(&first);
    assert_eq!((s.counts.frames, s.counts.late_plans), (1, 1));
    assert_eq!(s.counts.tags, [1, 1]);
    assert_eq!((s.counts.slots, s.counts.gaps), (2, 0));
    assert_eq!((s.counts.skipped, s.counts.late_writes), (3, 1));
    assert_eq!((s.worst_write_us, s.slowest_detect_us), (6000, 4999));
    let now = live.snapshot();
    let s = live.status(&now);
    assert_eq!((s.counts.slots, s.worst_write_us, s.slowest_detect_us), (0, 0, 0));
}

#[test]
fn durations_are_made_of_nanoseconds() {
    assert_eq!(from_ns(1_999_999_999), Duration::new(1, 999_999_999));
    assert_eq!(ticks(ms(1), 125, 3), 24_000);
    assert_eq!(ticks(ms(20), 1, 1), 20_000_000);
}
