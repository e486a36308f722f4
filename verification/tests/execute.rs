use harness::chunk::{DutyCycle, FakePolicy};
use harness::execute::{Do, ExecuteLoop, Executor, Happened, Skip};
use harness::grid::{Grid, Pick};
use harness::collect::Seen;
use harness::perceive::{self, End, Fate, PerceiveRun, Perceiver, Times};
use harness::record::TagRow;
use rand::rngs::StdRng;
use rand::SeedableRng;
use std::time::Duration;

fn ms(n: u64) -> Duration {
    Duration::from_millis(n)
}

fn us(n: u64) -> Duration {
    Duration::from_micros(n)
}

fn grid() -> Grid {
    Grid { t0: ms(1000), period: ms(20) }
}

fn planned(action: i8) -> Pick {
    Pick::Plan { frame: 5, index: 2, action }
}

#[test]
fn every_slot_is_written_in_turn() {
    let mut e = Executor::new(grid());
    for k in 0..5 {
        assert!(e.can_schedule());
        assert_eq!(e.slot(), k);
        assert_eq!(e.deadline(), ms(1000 + 20 * k as u64));
        assert_eq!(e.wake(e.deadline() + us(50)), None);
        let w = e.wrote(planned(k as i8), e.deadline() + us(250));
        assert_eq!((w.row.slot, w.row.action), (k, k as i8));
        assert_eq!((w.row.frame, w.row.index), (Some(5), Some(2)));
        assert_eq!((w.late, w.warn), (250_000, false));
    }
    let s = e.finish();
    assert_eq!((s.slots, s.gaps, s.late, s.skipped, s.worst), (5, 0, 0, 0, 250_000));
    assert_eq!(s.hist[2], 5);
}

#[test]
fn an_executor_that_is_behind_skips_ahead() {
    let mut e = Executor::new(grid());
    e.wrote(Pick::Gap, ms(1000));
    assert_eq!(e.wake(ms(1105)), Some(Skip { from: 1, to: 5 }));
    assert_eq!(e.slot(), 5);
    let w = e.wrote(planned(1), ms(1105));
    assert_eq!((w.late, w.warn), (5_000_000, false));
    // Before the grid begins there is nothing to be behind.
    let mut early = Executor::new(grid());
    assert_eq!(early.wake(ms(10)), None);
    let s = e.finish();
    assert_eq!((s.slots, s.skipped, s.gaps), (2, 4, 1));
}

#[test]
fn gaps_send_zero_and_late_writes_are_reported() {
    let mut e = Executor::new(grid());
    let w = e.wrote(Pick::Gap, ms(1000) + us(5001));
    assert!(w.warn);
    assert_eq!((w.row.action, w.row.frame, w.row.index), (0, None, None));
    let w = e.wrote(planned(9), ms(500)); // a clock that reads early is not late
    assert_eq!(w.late, 0);
    let s = e.finish();
    assert_eq!((s.gaps, s.late, s.hist[50], s.hist[0]), (1, 1, 1, 1));
}

#[test]
fn lateness_quantiles_are_to_the_bin() {
    let mut e = Executor::new(grid());
    for k in 0..100u64 {
        e.wrote(Pick::Gap, ms(1000 + 20 * k) + us(100 * k + 7));
    }
    let s = e.finish();
    assert_eq!(s.quantile(50), us(4900));
    assert_eq!(s.quantile(99), us(9800));
    assert_eq!(s.quantile(100), us(9900));
    assert_eq!(s.quantile(0), us(0));
    assert_eq!(Executor::new(grid()).finish().quantile(99), us(0));
}

#[test]
fn very_late_writes_share_the_last_bin() {
    let mut e = Executor::new(grid());
    e.wrote(Pick::Gap, ms(5000));
    let s = e.finish();
    assert_eq!(s.hist[1000], 1);
    assert_eq!(s.quantile(50), ms(100));
    assert_eq!(s.worst, 4_000_000_000);
}

#[test]
fn slots_past_32_bits_cannot_be_scheduled() {
    let mut e = Executor::new(Grid { t0: ms(0), period: Duration::from_nanos(1) });
    e.wake(Duration::from_nanos(u32::MAX as u64));
    assert!(e.can_schedule());
    e.wake(Duration::from_nanos(u32::MAX as u64 + 1));
    assert!(!e.can_schedule());
}

fn perceiver(every: Duration) -> Perceiver {
    Perceiver::new(grid(), ms(60), every, vec![7, 9])
}

#[test]
fn planning_resumes_on_the_next_tick_after_an_overrun() {
    let mut p = perceiver(ms(80));
    assert_eq!(p.sleep_until(), Some(1_000_000_000));
    p.woke(ms(1000));
    assert_eq!(p.sleep_until(), Some(1_080_000_000));
    p.woke(ms(1079)); // not due yet
    assert_eq!(p.sleep_until(), Some(1_080_000_000));
    p.woke(ms(1399));
    assert_eq!(p.sleep_until(), Some(1_400_000_000));
    p.woke(ms(1400));
    assert_eq!(p.sleep_until(), Some(1_480_000_000));
    assert_eq!(perceiver(ms(0)).sleep_until(), None);
}

#[test]
fn a_frame_needs_a_timestamp_after_t0() {
    let mut p = perceiver(ms(80));
    p.woke(ms(1000));
    assert!(matches!(p.frame(None, ms(1000), ms(1001)), Fate::NoTimestamp));
    assert!(matches!(p.frame(Some(ms(999)), ms(1000), ms(1001)), Fate::BeforeT0));
    assert_eq!(p.sleep_until(), Some(1_001_000_000)); // tried again at once
    assert!(matches!(p.frame(Some(ms(1000)), ms(1004), ms(1005)), Fate::Plan(t) if t == ms(1000)));
    let s = p.finish();
    assert_eq!((s.frames, s.before_t0), (0, 1));
    assert_eq!(s.age, [4_000_000]);
}

#[test]
fn a_plan_is_recorded_with_its_lead() {
    let mut p = perceiver(ms(80));
    let mut policy = FakePolicy {
        rng: StdRng::seed_from_u64(1),
        range: 30,
        chunk: 3,
        duty: DutyCycle::new(4, 4),
    };
    let plan = p.plan(&mut policy, 17, ms(1001));
    assert_eq!((plan.frame, plan.k_start), (17, 4));
    assert_eq!(plan.actions, [0, 0, 0]); // slots 4 to 7 rest
    assert!(p.schedulable(plan.k_start));
    let tag = TagRow { pose: [0; 7], err: 0, alt_err: None, margin: 0 };
    let times = Times {
        capture: ms(1001),
        detect_start: ms(1010),
        detected: ms(1015),
        policy: ms(1016),
        planned: ms(1017),
    };
    let (row, late) = p.planned(&plan, vec![None, Some(tag)], &times);
    assert!(!late);
    assert_eq!((row.frame, row.k_start, row.plan), (17, Some(4), Some(vec![0, 0, 0])));
    assert_eq!((row.t_capture, row.t_detected), (1_000_000, 15_000_000));
    assert_eq!((row.t_policy, row.t_plan), (Some(16_000_000), Some(17_000_000)));
    let (_, late) = p.planned(&plan, vec![None, None], &Times { planned: ms(1081), ..times });
    assert!(late);
    let s = p.finish();
    assert_eq!(s.frames, 2);
    assert_eq!(s.with_tag.clone().into_iter().collect::<Vec<_>>(), [(9, 1)]);
    assert_eq!(s.detect, [5_000_000, 5_000_000]);
    assert_eq!(s.lead, [63_000_000, -1_000_000]);
    assert_eq!(s.late_plans(), 1);
}

#[test]
fn plans_past_32_bits_cannot_be_scheduled() {
    let p = perceiver(ms(80));
    assert!(p.schedulable(-3));
    assert!(p.schedulable(u32::MAX as i64));
    assert!(!p.schedulable(u32::MAX as i64 + 1));
}

#[test]
fn a_run_writes_what_it_records_and_then_a_zero() {
    let mut l = ExecuteLoop::new(grid());
    let picks = [planned(7), Pick::Gap, planned(-3)];
    let (mut bytes, mut rows) = (Vec::new(), Vec::new());
    for (k, pick) in picks.into_iter().enumerate() {
        let due = ms(1000 + 20 * k as u64);
        assert!(matches!(l.next(Happened::Turn), Do::Sleep(t) if t == due));
        let d = l.next(Happened::Woke(due + us(10)));
        assert!(matches!(d, Do::Pick { slot, skip: None } if slot == k as i64));
        match l.next(Happened::Picked(pick)) {
            Do::Write(b) => bytes.push(b),
            _ => panic!("a picked action is written"),
        }
        match l.next(Happened::Wrote(due + us(20))) {
            Do::Record(w) => rows.push((w.row.slot, w.row.action, w.row.frame, w.row.index)),
            _ => panic!("a written action is recorded"),
        }
    }
    assert!(matches!(l.next(Happened::Over), Do::Halt(0)));
    assert!(matches!(l.next(Happened::Wrote(ms(1100))), Do::Done { ok: true }));
    assert!(matches!(l.next(Happened::Turn), Do::Done { ok: true }));
    assert_eq!(bytes, [7, 0, 253]);
    assert_eq!(
        rows,
        [(0, 7, Some(5), Some(2)), (1, 0, None, None), (2, -3, Some(5), Some(2))]
    );
    let s = l.finish();
    assert_eq!((s.slots, s.gaps, s.skipped), (3, 1, 0));
    assert_eq!(s.hist.iter().sum::<u64>(), 3);
}

#[test]
fn a_run_that_fails_writes_one_zero_and_nothing_after() {
    // A write that fails.
    let mut l = ExecuteLoop::new(grid());
    l.next(Happened::Turn);
    l.next(Happened::Woke(ms(1000)));
    assert!(matches!(l.next(Happened::Picked(planned(9))), Do::Write(9)));
    assert!(matches!(l.next(Happened::Failed), Do::Halt(0)));
    assert!(matches!(l.next(Happened::Wrote(ms(1001))), Do::Done { ok: false }));
    assert!(matches!(l.next(Happened::Picked(planned(9))), Do::Done { ok: false }));
    assert_eq!(l.finish().slots, 0);
    // A zero that cannot be written.
    let mut l = ExecuteLoop::new(grid());
    assert!(matches!(l.next(Happened::Over), Do::Halt(0)));
    assert!(matches!(l.next(Happened::Failed), Do::Done { ok: false }));
    // A slot that cannot be scheduled.
    let mut l = ExecuteLoop::new(Grid { t0: ms(0), period: Duration::from_nanos(1) });
    l.next(Happened::Turn);
    assert!(matches!(l.next(Happened::Woke(Duration::from_secs(5))), Do::Halt(0)));
    // What does not belong where it happens.
    let mut l = ExecuteLoop::new(grid());
    assert!(matches!(l.next(Happened::Wrote(ms(1000))), Do::Halt(0)));
}

#[test]
fn a_run_that_is_behind_passes_slots_over() {
    let mut l = ExecuteLoop::new(grid());
    l.next(Happened::Turn);
    let d = l.next(Happened::Woke(ms(1065)));
    assert!(matches!(d, Do::Pick { slot: 3, skip: Some(Skip { from: 0, to: 3 }) }));
    l.next(Happened::Picked(planned(1)));
    assert!(matches!(l.next(Happened::Wrote(ms(1066))), Do::Record(w) if w.row.slot == 3));
    l.next(Happened::Over);
    let s = l.finish();
    assert_eq!((s.slots, s.skipped), (1, 3));
}

fn tag(n: u32) -> TagRow {
    TagRow { pose: [n; 7], err: n, alt_err: None, margin: n }
}

fn perceiving(every: Duration, ids: Vec<usize>) -> PerceiveRun {
    let duty = DutyCycle::new(4, 4);
    let policy = FakePolicy { rng: StdRng::seed_from_u64(1), range: 30, chunk: 3, duty };
    PerceiveRun::new(grid(), ms(60), every, ids, policy)
}

fn came(frame: u64, t: Option<Duration>) -> perceive::Happened {
    perceive::Happened::Came { frame, t_capture: t, t_arrival: ms(1300), now: ms(1301) }
}

#[test]
fn every_frame_from_t0_on_is_planned_on_and_recorded() {
    let mut l = perceiving(ms(0), vec![4, 2, 4]);
    // A frame from before t0 gives no plan.
    assert!(matches!(l.next(perceive::Happened::Turn), perceive::Do::Take));
    assert!(matches!(l.next(came(10, Some(ms(999)))), perceive::Do::Again));
    // Nor does a turn in which no frame comes.
    l.next(perceive::Happened::Turn);
    assert!(matches!(l.next(perceive::Happened::Nothing), perceive::Do::Again));
    for (frame, t) in [(11, 1001), (12, 1081)] {
        l.next(perceive::Happened::Turn);
        assert!(matches!(l.next(came(frame, Some(ms(t)))), perceive::Do::Detect));
        let (start, detected) = (ms(t + 5), ms(t + 9));
        let seen = vec![Seen { id: 4, row: Some(tag(1)) }, Seen { id: 3, row: Some(tag(2)) }];
        let d = l.next(perceive::Happened::Detected { start, detected, seen });
        assert!(matches!(d, perceive::Do::Ask));
        let plan = match l.next(perceive::Happened::Asking(ms(t + 10))) {
            perceive::Do::Schedule(plan) => plan,
            _ => panic!("a plan is scheduled"),
        };
        assert_eq!((plan.frame, plan.k_start), (frame, if t == 1001 { 4 } else { 8 }));
        assert_eq!(plan.actions.len(), 3);
        match l.next(perceive::Happened::Scheduled(ms(t + 11))) {
            perceive::Do::Record { row, late } => {
                assert!(!late);
                assert_eq!((row.frame, row.k_start), (frame, Some(plan.k_start)));
                assert_eq!(row.plan, Some(plan.actions));
                let seen: Vec<bool> = row.tags.iter().map(|t| t.is_some()).collect();
                assert_eq!(seen, [true, false, true]);
            }
            _ => panic!("a plan is recorded"),
        }
    }
    let d = l.next(perceive::Happened::Over);
    assert!(matches!(d, perceive::Do::Done(End::Over)));
    assert!(matches!(l.next(perceive::Happened::Turn), perceive::Do::Done(End::Over)));
    let s = l.finish();
    assert_eq!((s.frames, s.before_t0, s.age.len(), s.lead.len()), (2, 1, 2, 2));
    // A tag in two columns is counted in each.
    assert_eq!(s.with_tag.into_iter().collect::<Vec<_>>(), [(4, 4)]);
}

#[test]
fn perception_sleeps_until_it_is_to_plan() {
    let mut l = perceiving(ms(80), vec![]);
    let d = l.next(perceive::Happened::Turn);
    assert!(matches!(d, perceive::Do::Sleep(1_000_000_000)));
    assert!(matches!(l.next(perceive::Happened::Woke(ms(1000))), perceive::Do::Take));
    l.next(perceive::Happened::Nothing);
    let d = l.next(perceive::Happened::Turn);
    assert!(matches!(d, perceive::Do::Sleep(1_080_000_000)));
}

#[test]
fn perception_ends_for_a_reason() {
    let mut l = perceiving(ms(0), vec![]);
    l.next(perceive::Happened::Turn);
    assert!(matches!(l.next(came(5, None)), perceive::Do::Done(End::NoTimestamp(5))));
    assert!(matches!(l.next(perceive::Happened::Turn), perceive::Do::Done(End::NoTimestamp(5))));
    // The mailbox was closed.
    let mut l = perceiving(ms(0), vec![]);
    l.next(perceive::Happened::Turn);
    assert!(matches!(l.next(perceive::Happened::Over), perceive::Do::Done(End::Over)));
    // What does not belong where it happens.
    let mut l = perceiving(ms(0), vec![]);
    let d = l.next(perceive::Happened::Scheduled(ms(1)));
    assert!(matches!(d, perceive::Do::Done(End::Failed)));
    // A plan past the end of the grid.
    let mut l = perceiving(ms(0), vec![]);
    l.next(perceive::Happened::Turn);
    l.next(came(6, Some(Duration::from_secs(100_000_000_000))));
    let (start, detected) = (ms(0), ms(0));
    l.next(perceive::Happened::Detected { start, detected, seen: vec![] });
    let d = l.next(perceive::Happened::Asking(ms(0)));
    assert!(matches!(d, perceive::Do::Done(End::OffGrid)));
}
