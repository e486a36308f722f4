use harness::policy::{splitmix64, wait, DutyCycle, Policy, RandomWalk, Step, Wait};
use std::time::{Duration, Instant};

fn ms(n: u64) -> Duration {
    Duration::from_millis(n)
}

fn step(frame: u64, t: Duration, action: Option<i8>) -> Step<()> {
    Step { frame, t, poses: vec![], action }
}

fn walk(range: i8, step: u8, duty: DutyCycle) -> RandomWalk {
    RandomWalk { seed: 1, range, step, latency: Duration::ZERO, duty }
}

const ALWAYS: DutyCycle = DutyCycle { active: Duration::from_secs(1), rest: Duration::ZERO };

/// Runs the walk over `n` frames 8 ms apart, feeding each action back.
fn run(p: &mut RandomWalk, n: u64) -> Vec<i8> {
    let mut prev: Option<Step<()>> = None;
    let mut out = Vec::new();
    for f in 0..n {
        let now = step(f, ms(8 * f), None);
        let history: Vec<Step<()>> = std::iter::once(now.clone()).chain(prev.clone()).collect();
        let a = p.act(&history);
        out.push(a);
        prev = Some(Step { action: Some(a), ..now });
    }
    out
}

#[test]
fn simulated_latency_is_close_to_what_was_asked() {
    for want in [ms(0), ms(1), ms(7)] {
        let t = Instant::now();
        loop {
            match wait(want.saturating_sub(t.elapsed())) {
                Wait::Over => break,
                Wait::Sleep(_) | Wait::Spin => std::hint::spin_loop(),
            }
        }
        let took = t.elapsed();
        assert!(took >= want && took < want + Duration::from_micros(500), "{want:?} took {took:?}");
    }
}

#[test]
fn rests_start_and_end_on_time() {
    let d = DutyCycle { active: ms(40), rest: ms(60) };
    let pattern: Vec<bool> = (0..10).map(|i| d.resting(ms(20 * i))).collect();
    let (f, t) = (false, true);
    assert_eq!(pattern, [f, f, t, t, t, f, f, t, t, t]);
    assert!((0..1000).all(|i| !ALWAYS.resting(ms(i))));
}

#[test]
fn the_walk_moves_by_at_most_a_step_and_stays_in_range() {
    let a = run(&mut walk(20, 5, ALWAYS), 5000);
    assert!(a.windows(2).all(|w| (w[1] as i16 - w[0] as i16).abs() <= 5));
    assert!(a.iter().all(|x| (-20..=20).contains(x)));
    // It gets to both ends, and reflection keeps it from sticking there.
    assert!(a.contains(&20) && a.contains(&-20));
    let at_ends = a.iter().filter(|x| x.abs() == 20).count();
    assert!(at_ends < a.len() / 10, "{at_ends} of {} at the limits", a.len());
}

#[test]
fn the_same_inputs_give_the_same_action() {
    let p = walk(60, 10, ALWAYS);
    let now = step(123, ms(5000), None);
    assert_eq!(p.decide(&now, 17), p.decide(&now, 17));
    // Frame numbers pick the step, so different frames differ somewhere.
    assert!((0..50).any(|f| p.decide(&step(f, ms(0), None), 0) != p.decide(&now, 0)));
}

#[test]
fn it_rests_at_zero_and_restarts_from_zero() {
    // 400 ms on, 400 ms off; frames every 8 ms.
    let a = run(&mut walk(60, 10, DutyCycle { active: ms(400), rest: ms(400) }), 150);
    assert!(a[50..100].iter().all(|&x| x == 0), "not zero while resting");
    assert!(a[..50].iter().any(|&x| x != 0), "never moved while active");
    assert!(a[100].abs() <= 10, "did not restart from zero: {}", a[100]);
}

#[test]
fn a_skipped_frame_continues_from_the_action_carried_through_it() {
    let mut p = walk(60, 10, ALWAYS);
    // Frame 2 was skipped: its action is the one carried from frame 1.
    let history = [step(3, ms(24), None), step(2, ms(16), Some(40)), step(1, ms(8), Some(40))];
    let a = p.act(&history);
    assert!((30..=50).contains(&a));
}

#[test]
fn the_mixing_function_is_splitmix64() {
    // The first outputs of SplitMix64 seeded with 0, as its reference gives them.
    assert_eq!(splitmix64(0), 0xe220_a839_7b1d_cdaf);
    assert_eq!(splitmix64(0x9e37_79b9_7f4a_7c15), 0x6e78_9e6a_a1b9_65f4);
}

#[test]
fn a_step_larger_than_the_range_stays_in_range() {
    let p = walk(3, 127, ALWAYS);
    assert!((0..500).all(|f| (-3..=3).contains(&p.decide(&step(f, ms(0), None), 3))));
    let still = walk(0, 10, ALWAYS);
    assert!((0..500).all(|f| still.decide(&step(f, ms(0), None), 0) == 0));
}

#[test]
fn a_wait_halves_its_sleeps_and_spins_at_the_end() {
    assert!(matches!(wait(ms(0)), Wait::Over));
    assert!(matches!(wait(ms(7)), Wait::Sleep(d) if d == Duration::from_micros(3500)));
    assert!(matches!(wait(Duration::from_micros(1500)), Wait::Spin));
    assert!(matches!(wait(Duration::from_nanos(1_500_001)), Wait::Sleep(d) if d.as_nanos() == 750_000));
}
