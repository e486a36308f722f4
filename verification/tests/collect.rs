use harness::collect::{tag_rows, Detected, Do, Happened, PolicyLoop, PolicyRun, Seen};
use harness::record::TagRow;
use std::time::Duration;

fn tag(n: u32) -> TagRow {
    TagRow { pose: [n; 7], err: n, alt_err: Some(n), margin: n }
}

fn ms(n: u64) -> Duration {
    Duration::from_millis(n)
}

/// Frame `n`, captured 8 ms after the one before it, with one tag in it.
fn detected(n: u64) -> Detected {
    let t = ms(1000 + 8 * n);
    Detected {
        frame: n,
        t_capture: t,
        t_arrival: t + ms(1),
        t_detect_start: t + ms(2),
        t_detected: t + ms(7),
        tags: vec![Some(tag(n as u32)), None],
    }
}

#[test]
fn the_first_tag_with_an_id_counts() {
    let seen = [
        Seen { id: 2, row: Some(tag(20)) },
        Seen { id: 0, row: None },
        Seen { id: 0, row: Some(tag(1)) },
        Seen { id: 2, row: Some(tag(21)) },
    ];
    let rows = tag_rows(&seen, &[0, 1, 2]);
    assert!(rows[0].is_none()); // the first has no pose, and later ones do not count
    assert!(rows[1].is_none());
    assert_eq!(rows[2].unwrap().err, 20);
}

#[test]
fn the_first_frames_only_fill_the_history() {
    let mut l = PolicyLoop::new(ms(1000));
    for n in 0..2 {
        let r = l.receive(vec![detected(n)]);
        assert!(r.newest.is_none());
        assert_eq!(r.rows.len(), 1);
        assert_eq!((r.rows[0].frame, r.rows[0].acted, r.rows[0].action), (n, false, 0));
    }
    let r = l.receive(vec![detected(2)]);
    assert!(r.rows.is_empty());
    assert_eq!(r.newest.unwrap().frame, 2);
}

#[test]
fn the_policy_is_shown_the_newest_frames_newest_first() {
    let mut l = PolicyLoop::new(ms(1000));
    // Three frames at once: two fill the history, and the policy acts on the third.
    let r = l.receive(vec![detected(0), detected(1), detected(2)]);
    assert_eq!(r.rows.len(), 2);
    let newest = r.newest.unwrap();
    let input = l.input(&newest);
    let frames: Vec<u64> = input.iter().map(|s| s.frame).collect();
    assert_eq!(frames, [2, 1, 0]);
    assert_eq!(input[0].action, None);
    assert_eq!((input[1].action, input[2].action), (Some(0), Some(0)));
    assert_eq!(input[0].t, ms(16));
    assert_eq!(input[0].poses, vec![Some([2; 7]), None]);
}

#[test]
fn skipped_frames_carry_the_action_in_effect() {
    let mut l = PolicyLoop::new(ms(1000));
    let newest = l.receive(vec![detected(0), detected(1), detected(2)]).newest.unwrap();
    let row = l.acted(newest, -7, (ms(1100), ms(1101), ms(1102)));
    assert!(row.acted);
    assert_eq!(row.action, -7);
    assert_eq!(
        (row.t_policy_start, row.t_policy_done, row.t_sent),
        (Some(100_000_000), Some(101_000_000), Some(102_000_000))
    );
    // Three more came while the policy was busy.
    let r = l.receive(vec![detected(3), detected(4), detected(5)]);
    let skipped: Vec<(u64, bool, i8)> =
        r.rows.iter().map(|r| (r.frame, r.acted, r.action)).collect();
    assert_eq!(skipped, [(3, false, -7), (4, false, -7)]);
    assert!(r.rows[0].t_sent.is_none());
    let input = l.input(&r.newest.unwrap());
    let shown: Vec<(u64, Option<i8>)> = input.iter().map(|s| (s.frame, s.action)).collect();
    assert_eq!(shown, [(5, None), (4, Some(-7)), (3, Some(-7))]);
}

#[test]
fn rows_hold_every_time_relative_to_t0() {
    let mut l = PolicyLoop::new(ms(1005));
    let r = l.receive(vec![detected(0)]);
    let row = &r.rows[0];
    assert_eq!(
        [row.t_capture, row.t_arrival, row.t_detect_start, row.t_detected],
        [-5_000_000, -4_000_000, -3_000_000, 2_000_000]
    );
    assert_eq!(row.tags.len(), 2);
    assert_eq!(row.tags[0].unwrap().margin, 0);
    // A frame from before t0 is shown at t0.
    let mut l = PolicyLoop::new(ms(1010));
    let newest = l.receive(vec![detected(0), detected(1), detected(2)]).newest.unwrap();
    let input = l.input(&newest);
    assert_eq!((input[2].t, input[1].t, input[0].t), (ms(0), ms(0), ms(6)));
}

#[test]
fn a_policy_run_writes_what_the_policy_chose_and_then_a_zero() {
    let mut run = PolicyRun::new(ms(1000));
    let mut bytes = Vec::new();
    // The first frames only fill the history.
    for n in 0..2 {
        match run.next(Happened::Arrived(vec![detected(n)])) {
            Do::Record { rows, act } => {
                assert_eq!((rows.len(), rows[0].action, act), (1, 0, false));
            }
            _ => panic!("frames are recorded"),
        }
    }
    for (n, action) in [(2, 40), (3, -40)] {
        match run.next(Happened::Arrived(vec![detected(n)])) {
            Do::Record { rows, act } => assert!(rows.is_empty() && act),
            _ => panic!("frames are recorded"),
        }
        match run.next(Happened::Asking(ms(1100))) {
            Do::Act(input) => {
                let shown: Vec<u64> = input.iter().map(|s| s.frame).collect();
                assert_eq!(shown, [n, n - 1, n - 2]);
                assert_eq!(input[0].action, None);
                assert_eq!(input[1].action, Some(if n == 2 { 0 } else { 40 }));
                assert_eq!(input[2].action, Some(0));
            }
            _ => panic!("the policy acts"),
        }
        match run.next(Happened::Chose(action, ms(1101))) {
            Do::Write(b) => bytes.push(b),
            _ => panic!("a chosen action is written"),
        }
        match run.next(Happened::Wrote(ms(1102))) {
            Do::Acted(row) => assert_eq!(
                (row.frame, row.action, row.acted, row.t_sent),
                (n, action, true, Some(102_000_000))
            ),
            _ => panic!("a written action is recorded"),
        }
    }
    assert_eq!(bytes, [40, 216]);
    assert!(matches!(run.next(Happened::Over), Do::Halt(0)));
    assert!(matches!(run.next(Happened::Wrote(ms(1200))), Do::Done { ok: true }));
    assert!(matches!(run.next(Happened::Chose(1, ms(1201))), Do::Done { ok: true }));
}

#[test]
fn a_policy_run_that_fails_writes_one_zero_and_nothing_after() {
    let frames = || vec![detected(0), detected(1), detected(2)];
    let mut run = PolicyRun::new(ms(1000));
    run.next(Happened::Arrived(frames()));
    run.next(Happened::Asking(ms(1100)));
    assert!(matches!(run.next(Happened::Chose(5, ms(1101))), Do::Write(5)));
    assert!(matches!(run.next(Happened::Failed), Do::Halt(0)));
    assert!(matches!(run.next(Happened::Wrote(ms(1102))), Do::Done { ok: false }));
    assert!(matches!(run.next(Happened::Arrived(frames())), Do::Done { ok: false }));
    // An action nobody asked for is not sent.
    let mut run = PolicyRun::new(ms(1000));
    assert!(matches!(run.next(Happened::Chose(5, ms(1101))), Do::Halt(0)));
    // No frames change nothing.
    let mut run = PolicyRun::new(ms(1000));
    let d = run.next(Happened::Arrived(Vec::new()));
    assert!(matches!(d, Do::Record { rows, act: false } if rows.is_empty()));
    assert!(matches!(run.next(Happened::Over), Do::Halt(0)));
}

#[test]
fn every_frame_received_is_recorded_once_and_in_order() {
    let mut run = PolicyRun::new(ms(1000));
    let mut recorded = Vec::new();
    for came in [vec![0], vec![1, 2, 3], vec![4], vec![5, 6]] {
        let frames = came.into_iter().map(detected).collect();
        let act = match run.next(Happened::Arrived(frames)) {
            Do::Record { rows, act } => {
                recorded.extend(rows.iter().map(|r| (r.frame, r.acted)));
                act
            }
            _ => panic!("frames are recorded"),
        };
        if act {
            run.next(Happened::Asking(ms(1100)));
            run.next(Happened::Chose(1, ms(1101)));
            match run.next(Happened::Wrote(ms(1102))) {
                Do::Acted(row) => recorded.push((row.frame, row.acted)),
                _ => panic!("a written action is recorded"),
            }
        }
    }
    assert_eq!(
        recorded,
        [(0, false), (1, false), (2, false), (3, true), (4, true), (5, false), (6, true)]
    );
}
