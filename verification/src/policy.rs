//! The policy interface the motor is driven through, and a stand-in.
//!
//! A policy sees the newest detected frame and the ones before it, and
//! returns one action, which is sent to the motor at once. It is called on
//! the newest frame only; frames that arrived while it was busy still appear
//! in the history it gets next time, with the action that was in effect.

use crate::clock::{from_ns, nanos};
use std::time::Duration;
use vstd::arithmetic::div_mod::{
    lemma_fundamental_div_mod_converse, lemma_mul_mod_noop_left, lemma_small_mod,
};
use vstd::prelude::*;

verus! {

/// How many frames a policy sees: the current one and the two before it.
pub const HISTORY: usize = 3;

/// One detected frame, as a policy sees it. `P` is a pose: x y z in metres,
/// then the quaternion w x y z with w >= 0.
#[derive(Debug)]
pub struct Step<P> {
    /// Camera sequence number.
    pub frame: u64,
    /// Capture time, since the recording's t0.
    pub t: Duration,
    /// One pose per recorded tag, in the order the tags are recorded in. None
    /// when the tag was not seen.
    pub poses: Vec<Option<P>>,
    /// The action in effect after this frame: the one the policy chose for
    /// it, or the one carried over if it was skipped. None for the frame
    /// being decided.
    pub action: Option<i8>,
}

/// A [`Step`], with its time in nanoseconds and its poses as a sequence.
pub ghost struct StepModel<P> {
    pub frame: u64,
    pub t: nat,
    pub poses: Seq<Option<P>>,
    pub action: Option<i8>,
}

impl<P> View for Step<P> {
    type V = StepModel<P>;

    open spec fn view(&self) -> StepModel<P> {
        StepModel {
            frame: self.frame,
            t: nanos(self.t),
            poses: self.poses@,
            action: self.action,
        }
    }
}

impl<P: Copy> Clone for Step<P> {
    fn clone(&self) -> (s: Self)
        ensures
            s@ == self@,
    {
        let mut poses: Vec<Option<P>> = Vec::new();
        let mut i: usize = 0;
        while i < self.poses.len()
            invariant
                i <= self.poses@.len(),
                poses@ =~= self.poses@.take(i as int),
            decreases self.poses@.len() - i,
        {
            poses.push(self.poses[i]);
            i = i + 1;
        }
        assert(poses@ =~= self.poses@);
        Step { frame: self.frame, t: self.t, poses, action: self.action }
    }
}

/// Chooses a motor action from recent frames.
pub trait Policy<P> {
    /// Whether the policy can be asked about these frames.
    spec fn ready(&self, history: Seq<Step<P>>) -> bool;

    /// `history` is newest first: the frame to act on, then up to
    /// `HISTORY - 1` earlier ones (fewer at the start of a recording).
    fn act(&mut self, history: &[Step<P>]) -> (action: i8)
        requires
            history@.len() >= 1,
            old(self).ready(history@),
    ;
}

/// Alternating active and rest periods, in time since t0.
#[derive(Clone, Copy, Debug)]
pub struct DutyCycle {
    pub active: Duration,
    /// Zero never rests.
    pub rest: Duration,
}

impl DutyCycle {
    /// Whether `t` nanoseconds after t0 falls in a rest.
    pub open spec fn rests_at(self, t: int) -> bool {
        nanos(self.rest) > 0 && t % (nanos(self.active) + nanos(self.rest)) as int >= nanos(
            self.active,
        )
    }

    pub fn resting(&self, t: Duration) -> (b: bool)
        ensures
            b == self.rests_at(nanos(t) as int),
    {
        self.resting_ns(t.as_nanos())
    }

    /// Whether `t` nanoseconds after t0 falls in a rest.
    pub fn resting_ns(&self, t: u128) -> (b: bool)
        ensures
            b == self.rests_at(t as int),
    {
        let active: u128 = self.active.as_nanos();
        let rest: u128 = self.rest.as_nanos();
        rest != 0 && t % (active + rest) >= active
    }
}

/// A cycle begins at t0, and at every multiple of its whole length: `into` a
/// cycle, the arm rests exactly when the active period is over.
pub proof fn law_rests_start_and_end_on_time(duty: DutyCycle, cycle: int, into: int)
    requires
        nanos(duty.rest) > 0,
        0 <= into < nanos(duty.active) + nanos(duty.rest),
    ensures
        duty.rests_at(cycle * (nanos(duty.active) + nanos(duty.rest)) + into) <==> into >= nanos(
            duty.active,
        ),
{
    let whole = (nanos(duty.active) + nanos(duty.rest)) as int;
    lemma_fundamental_div_mod_converse(cycle * whole + into, whole, cycle, into);
}

/// Without a rest the policy is always on.
pub proof fn law_no_rest_means_always_on(duty: DutyCycle, t: int)
    requires
        nanos(duty.rest) == 0,
    ensures
        !duty.rests_at(t),
{
}

/// A 64-bit mixing function (SplitMix64's finaliser), modulo 2^64.
pub open spec fn mixed(x: u64) -> u64 {
    let a = ((x + 0x9e37_79b9_7f4a_7c15) % 0x1_0000_0000_0000_0000) as u64;
    let b = ((a ^ (a >> 30u64)) * 0xbf58_476d_1ce4_e5b9 % 0x1_0000_0000_0000_0000) as u64;
    let c = ((b ^ (b >> 27u64)) * 0x94d0_49bb_1331_11eb % 0x1_0000_0000_0000_0000) as u64;
    c ^ (c >> 31u64)
}

/// A 64-bit mixing function (SplitMix64's finaliser): nearby inputs give
/// unrelated outputs, and it is fixed here, independent of any crate.
pub fn splitmix64(x: u64) -> (z: u64)
    ensures
        z == mixed(x),
{
    let a: u64 = x.wrapping_add(0x9e37_79b9_7f4a_7c15);
    let b: u64 = (a ^ (a >> 30u64)).wrapping_mul(0xbf58_476d_1ce4_e5b9);
    let c: u64 = (b ^ (b >> 27u64)).wrapping_mul(0x94d0_49bb_1331_11eb);
    c ^ (c >> 31u64)
}

/// `a`, reflected at `r` and `-r`, and kept between them.
pub open spec fn reflected(a: int, r: int) -> int {
    let b = if a > r {
        2 * r - a
    } else if a < -r {
        -2 * r - a
    } else {
        a
    };
    if b < -r {
        -r
    } else if b > r {
        r
    } else {
        b
    }
}

/// Stand-in for a real policy: a random walk, reflected at ±`range`, that
/// moves by a step drawn uniformly from -`step`..=`step` on each frame, and
/// is zero while resting. It spends `latency` on each call, standing in for
/// inference.
///
/// It keeps no state: the walk continues from the previous frame's action,
/// which is in the history, and each step is a hash of the seed and the
/// frame number rather than a draw from a running generator.
pub struct RandomWalk {
    pub seed: u64,
    pub range: i8,
    pub step: u8,
    pub latency: Duration,
    pub duty: DutyCycle,
}

impl RandomWalk {
    /// The step taken on frame `frame`.
    pub open spec fn step_on(&self, frame: u64) -> int {
        mixed(self.seed ^ mixed(frame)) as int % (2 * self.step + 1) - self.step
    }

    /// The action on `frame`, captured `t` nanoseconds after t0, after `prev`.
    pub open spec fn action_on(&self, frame: u64, t: int, prev: i8) -> int {
        if self.duty.rests_at(t) {
            0
        } else {
            reflected(prev + self.step_on(frame), self.range as int)
        }
    }

    /// The action for `now` given the previous frame's action, without the
    /// simulated latency.
    pub fn decide<P>(&self, now: &Step<P>, prev: i8) -> (action: i8)
        requires
            !self.duty.rests_at(nanos(now.t) as int) ==> self.range >= 0,
        ensures
            action == self.action_on(now.frame, nanos(now.t) as int, prev),
    {
        if self.duty.resting(now.t) {
            return 0;
        }
        let span: u64 = 2 * self.step as u64 + 1;
        let hash: u64 = splitmix64(self.seed ^ splitmix64(now.frame));
        let da: i64 = (hash % span) as i64 - self.step as i64;
        let r: i64 = self.range as i64;
        let mut a: i64 = prev as i64 + da;
        if a > r {
            a = 2 * r - a;
        } else if a < -r {
            a = -(2 * r) - a;
        }
        // A step larger than the whole range could reflect past the far end.
        let kept: i64 = if a < -r {
            -r
        } else if a > r {
            r
        } else {
            a
        };
        kept as i8
    }
}

/// The action before the frame to act on, as a history gives it: 0 where
/// there is none.
pub open spec fn previous_action<P>(history: Seq<Step<P>>) -> i8 {
    if history.len() > 1 && history[1].action is Some {
        history[1].action->0
    } else {
        0
    }
}

impl<P> Policy<P> for RandomWalk {
    /// A walk that is not resting needs a range to walk in.
    open spec fn ready(&self, history: Seq<Step<P>>) -> bool {
        !self.duty.rests_at(nanos(history[0].t) as int) ==> self.range >= 0
    }

    fn act(&mut self, history: &[Step<P>]) -> (action: i8)
        ensures
            action == old(self).action_on(
                history@[0].frame,
                nanos(history@[0].t) as int,
                previous_action(history@),
            ),
            *final(self) == *old(self),
    {
        let prev: i8 = if history.len() > 1 {
            match history[1].action {
                Some(a) => a,
                None => 0,
            }
        } else {
            0
        };
        self.decide(&history[0], prev)
    }
}

/// Every step is between `-step` and `step`.
pub proof fn law_a_step_is_within_its_bounds(walk: RandomWalk, frame: u64)
    ensures
        -walk.step <= walk.step_on(frame) <= walk.step,
{
}

/// The walk never leaves its range.
pub proof fn law_the_walk_stays_in_range(walk: RandomWalk, frame: u64, t: int, prev: i8)
    requires
        walk.range >= 0,
    ensures
        -walk.range <= walk.action_on(frame, t, prev) <= walk.range,
{
}

/// From an action in range, the walk moves by at most a step.
pub proof fn law_the_walk_moves_by_at_most_a_step(
    walk: RandomWalk,
    frame: u64,
    t: int,
    prev: i8,
)
    requires
        -walk.range <= prev <= walk.range,
        !walk.duty.rests_at(t),
    ensures
        -walk.step <= walk.action_on(frame, t, prev) - prev <= walk.step,
{
    law_a_step_is_within_its_bounds(walk, frame);
}

/// The walk is zero while resting, whatever came before, and the first action
/// after a rest is at most a step from zero.
pub proof fn law_the_walk_rests_at_zero_and_restarts_from_zero(
    walk: RandomWalk,
    frame: u64,
    t: int,
    prev: i8,
    next_frame: u64,
    next_t: int,
)
    requires
        walk.range >= 0,
        walk.duty.rests_at(t),
        !walk.duty.rests_at(next_t),
    ensures
        walk.action_on(frame, t, prev) == 0,
        -walk.step <= walk.action_on(
            next_frame,
            next_t,
            walk.action_on(frame, t, prev) as i8,
        ) <= walk.step,
{
    law_the_walk_moves_by_at_most_a_step(walk, next_frame, next_t, 0);
}

/// What to do with the time left of a wait.
pub enum Wait {
    Over,
    /// Sleep this long, then look again.
    Sleep(Duration),
    /// Look again at once.
    Spin,
}

/// How long to sleep with `left` nanoseconds to go, if at all.
pub open spec fn sleep_for(left: nat) -> Option<nat> {
    if left > 1_500_000 {
        Some(left / 2)
    } else {
        None
    }
}

/// A sleep is for half of what is left, rounded down, and there is none for the
/// last millisecond and a half.
pub proof fn law_sleeps_are_half_of_what_is_left(half: nat, odd: nat)
    requires
        odd < 2,
    ensures
        2 * half + odd > 1_500_000 ==> sleep_for(2 * half + odd) == Some(half),
        2 * half + odd <= 1_500_000 ==> sleep_for(2 * half + odd) is None,
{
}

/// How to wait out `left`, precisely. An ordinary sleep is stretched by more
/// than a camera frame, so this sleeps half of what is left while that is
/// more than the stretch could matter, then spins for the last millisecond or
/// so.
pub fn wait(left: Duration) -> (w: Wait)
    ensures
        match w {
            Wait::Over => nanos(left) == 0,
            Wait::Sleep(d) => nanos(left) > 1_500_000 && nanos(d) == nanos(left) / 2,
            Wait::Spin => 0 < nanos(left) <= 1_500_000,
        },
        match w {
            Wait::Over => nanos(left) == 0,
            Wait::Sleep(d) => sleep_for(nanos(left)) == Some(nanos(d)),
            Wait::Spin => nanos(left) > 0 && sleep_for(nanos(left)) is None,
        },
{
    let ns: u128 = left.as_nanos();
    if ns == 0 {
        Wait::Over
    } else if ns > 1_500_000 {
        Wait::Sleep(from_ns(ns / 2))
    } else {
        Wait::Spin
    }
}

/// The number that [`mixed`] mixes to `y`: each of its steps undone, from the
/// last to the first.
pub open spec fn unmixed(y: u64) -> u64 {
    let c = y ^ (y >> 31u64) ^ (y >> 62u64);
    let b1 = (c * 0x3196_42b2_d24d_8ec3 % 0x1_0000_0000_0000_0000) as u64;
    let b = b1 ^ (b1 >> 27u64) ^ (b1 >> 54u64);
    let a1 = (b * 0x96de_1b17_3f11_9089 % 0x1_0000_0000_0000_0000) as u64;
    let a = a1 ^ (a1 >> 30u64) ^ (a1 >> 60u64);
    ((a - 0x9e37_79b9_7f4a_7c15) % 0x1_0000_0000_0000_0000) as u64
}

/// Multiplying by `c` and then by its inverse `d`, modulo `m`.
proof fn lemma_inverse(x: int, c: int, d: int, q: int, m: int)
    requires
        0 <= x < m,
        c * d == 1 + q * m,
    ensures
        (x * c % m) * d % m == x,
{
    lemma_mul_mod_noop_left(x * c, d, m);
    assert(x * c * d == x * (c * d)) by (nonlinear_arith);
    assert(x * (1 + q * m) == x * q * m + x) by (nonlinear_arith);
    lemma_fundamental_div_mod_converse(x * q * m + x, m, x * q, x);
}

proof fn lemma_inverses()
    ensures
        0xbf58_476d_1ce4_e5b9 * 0x96de_1b17_3f11_9089 == 1 + 0x70c3_bca7_8f27_f46c
            * 0x1_0000_0000_0000_0000,
        0x94d0_49bb_1331_11eb * 0x3196_42b2_d24d_8ec3 == 1 + 0x1cd3_36ed_a85f_1453
            * 0x1_0000_0000_0000_0000,
{
}

/// Mixing loses nothing: it can be undone.
#[verifier::spinoff_prover]
pub proof fn law_mixing_can_be_undone(x: u64)
    ensures
        unmixed(mixed(x)) == x,
{
    let a = ((x + 0x9e37_79b9_7f4a_7c15) % 0x1_0000_0000_0000_0000) as u64;
    let a1 = a ^ (a >> 30u64);
    let b = (a1 * 0xbf58_476d_1ce4_e5b9 % 0x1_0000_0000_0000_0000) as u64;
    let b1 = b ^ (b >> 27u64);
    let c = (b1 * 0x94d0_49bb_1331_11eb % 0x1_0000_0000_0000_0000) as u64;
    let y = c ^ (c >> 31u64);
    assert(y ^ (y >> 31u64) ^ (y >> 62u64) == c) by (bit_vector)
        requires
            y == c ^ (c >> 31u64),
    ;
    assert(b1 ^ (b1 >> 27u64) ^ (b1 >> 54u64) == b) by (bit_vector)
        requires
            b1 == b ^ (b >> 27u64),
    ;
    assert(a1 ^ (a1 >> 30u64) ^ (a1 >> 60u64) == a) by (bit_vector)
        requires
            a1 == a ^ (a >> 30u64),
    ;
    lemma_inverses();
    lemma_inverse(
        b1 as int,
        0x94d0_49bb_1331_11eb,
        0x3196_42b2_d24d_8ec3,
        0x1cd3_36ed_a85f_1453,
        0x1_0000_0000_0000_0000,
    );
    lemma_inverse(
        a1 as int,
        0xbf58_476d_1ce4_e5b9,
        0x96de_1b17_3f11_9089,
        0x70c3_bca7_8f27_f46c,
        0x1_0000_0000_0000_0000,
    );
}

/// Every number is what some number mixes to.
#[verifier::spinoff_prover]
pub proof fn law_mixing_reaches_every_number(y: u64)
    ensures
        mixed(unmixed(y)) == y,
{
    let c = y ^ (y >> 31u64) ^ (y >> 62u64);
    let b1 = (c * 0x3196_42b2_d24d_8ec3 % 0x1_0000_0000_0000_0000) as u64;
    let b = b1 ^ (b1 >> 27u64) ^ (b1 >> 54u64);
    let a1 = (b * 0x96de_1b17_3f11_9089 % 0x1_0000_0000_0000_0000) as u64;
    let a = a1 ^ (a1 >> 30u64) ^ (a1 >> 60u64);
    assert(c ^ (c >> 31u64) == y) by (bit_vector)
        requires
            c == y ^ (y >> 31u64) ^ (y >> 62u64),
    ;
    assert(b ^ (b >> 27u64) == b1) by (bit_vector)
        requires
            b == b1 ^ (b1 >> 27u64) ^ (b1 >> 54u64),
    ;
    assert(a ^ (a >> 30u64) == a1) by (bit_vector)
        requires
            a == a1 ^ (a1 >> 30u64) ^ (a1 >> 60u64),
    ;
    lemma_inverses();
    lemma_inverse(
        c as int,
        0x3196_42b2_d24d_8ec3,
        0x94d0_49bb_1331_11eb,
        0x1cd3_36ed_a85f_1453,
        0x1_0000_0000_0000_0000,
    );
    lemma_inverse(
        b as int,
        0x96de_1b17_3f11_9089,
        0xbf58_476d_1ce4_e5b9,
        0x70c3_bca7_8f27_f46c,
        0x1_0000_0000_0000_0000,
    );
}

/// A step comes from the seed and the frame number alone: from the number
/// that unmixes to the seed xored with one that unmixes to the frame.
#[verifier::spinoff_prover]
pub proof fn law_a_step_mixes_the_seed_and_the_frame(walk: RandomWalk, frame: u64, hash: u64)
    requires
        unmixed(unmixed(hash) ^ walk.seed) == frame,
    ensures
        walk.step_on(frame) == hash as int % (2 * walk.step + 1) - walk.step,
{
    let u = unmixed(hash);
    let s = walk.seed;
    let f = u ^ s;
    law_mixing_reaches_every_number(hash);
    law_mixing_reaches_every_number(f);
    assert(s ^ f == u) by (bit_vector)
        requires
            f == u ^ s,
    ;
}

proof fn lemma_seed_of_a_hash(frame: u64, hash: u64) -> (seed: u64)
    ensures
        unmixed(unmixed(hash) ^ seed) == frame,
{
    let u = unmixed(hash);
    let f = mixed(frame);
    let seed = u ^ f;
    law_mixing_can_be_undone(frame);
    assert(u ^ seed == f) by (bit_vector)
        requires
            seed == u ^ f,
    ;
    seed
}

/// On every frame each step from `-step` to `step` is taken with some seed, so
/// that the walks of different seeds part on every frame.
pub proof fn law_every_step_is_taken_with_some_seed(walk: RandomWalk, frame: u64, step: int)
    requires
        -walk.step <= step <= walk.step,
    ensures
        exists|seed: u64| (#[trigger] (RandomWalk { seed, ..walk }).step_on(frame)) == step,
{
    let hash = (step + walk.step) as u64;
    let seed = lemma_seed_of_a_hash(frame, hash);
    let other = RandomWalk { seed, ..walk };
    assert(other.step_on(frame) == step) by {
        law_a_step_mixes_the_seed_and_the_frame(other, frame, hash);
        lemma_small_mod(hash as nat, (2 * walk.step + 1) as nat);
    }
}

/// The walk goes on from the action before by its step, as long as that stays
/// in range. A step that would leave the range comes back from its end by as
/// much as it went past it, and stops at the far end if that is too much.
pub proof fn law_the_walk_turns_back_at_its_range(
    walk: RandomWalk,
    frame: u64,
    t: int,
    prev: i8,
)
    requires
        walk.range >= 0,
        !walk.duty.rests_at(t),
    ensures
        ({
            let to = prev + walk.step_on(frame);
            let action = walk.action_on(frame, t, prev);
            let r = walk.range as int;
            &&& -r <= to <= r ==> action == to
            &&& r < to <= 3 * r ==> r - action == to - r
            &&& -3 * r <= to < -r ==> action + r == -r - to
            &&& to > 3 * r && to > r ==> action == -r
            &&& to < -3 * r && to < -r ==> action == r
        }),
{
}

/// The action before is that of the frame before the newest.
pub proof fn law_the_walk_continues_from_the_frame_before<P>(
    now: Step<P>,
    before: Step<P>,
    older: Seq<Step<P>>,
)
    ensures
        before.action is Some ==> previous_action(seq![now, before] + older) == before.action->0,
        before.action is None ==> previous_action(seq![now, before] + older) == 0,
        previous_action(seq![now]) == 0,
{
}

/// The walks of two seeds part on every frame.
pub proof fn law_two_seeds_take_different_steps(walk: RandomWalk, frame: u64)
    requires
        walk.step >= 1,
    ensures
        exists|a: u64, b: u64|
            (#[trigger] (RandomWalk { seed: a, ..walk }).step_on(frame)) != (
            #[trigger] (RandomWalk { seed: b, ..walk }).step_on(frame)),
{
    law_every_step_is_taken_with_some_seed(walk, frame, 0);
    law_every_step_is_taken_with_some_seed(walk, frame, 1);
    let a = choose|seed: u64| (#[trigger] (RandomWalk { seed, ..walk }).step_on(frame)) == 0;
    let b = choose|seed: u64| (#[trigger] (RandomWalk { seed, ..walk }).step_on(frame)) == 1;
    assert((RandomWalk { seed: a, ..walk }).step_on(frame) != (RandomWalk {
        seed: b,
        ..walk
    }).step_on(frame));
}

/// The steps of mixing, one by one.
#[verifier::spinoff_prover]
proof fn lemma_mixed_in_steps(x: u64, a: u64, b: u64, c: u64, first: u64, second: u64, z: u64)
    requires
        a == (x + 0x9e37_79b9_7f4a_7c15) % 0x1_0000_0000_0000_0000,
        first == a ^ (a >> 30u64),
        b == first * 0xbf58_476d_1ce4_e5b9 % 0x1_0000_0000_0000_0000,
        second == b ^ (b >> 27u64),
        c == second * 0x94d0_49bb_1331_11eb % 0x1_0000_0000_0000_0000,
        z == c ^ (c >> 31u64),
    ensures
        mixed(x) == z,
{
}

/// The first two numbers of the published sequence that starts from 0.
#[verifier::spinoff_prover]
pub proof fn law_known_values_of_mixing()
    ensures
        mixed(0) == 0xe220_a839_7b1d_cdaf,
        mixed(0x9e37_79b9_7f4a_7c15) == 0x6e78_9e6a_a1b9_65f4,
{
    assert(0x9e37_79b9_7f4a_7c15u64 ^ (0x9e37_79b9_7f4a_7c15u64 >> 30u64)
        == 0x9e37_79bb_0797_9af0u64) by (bit_vector);
    assert(0x6f68_261b_57e7_a770u64 ^ (0x6f68_261b_57e7_a770u64 >> 27u64)
        == 0x6f68_2616_bae3_641au64) by (bit_vector);
    assert(0xe220_a838_bf5c_9ddeu64 ^ (0xe220_a838_bf5c_9ddeu64 >> 31u64)
        == 0xe220_a839_7b1d_cdafu64) by (bit_vector);
    lemma_mixed_in_steps(
        0,
        0x9e37_79b9_7f4a_7c15,
        0x6f68_261b_57e7_a770,
        0xe220_a838_bf5c_9dde,
        0x9e37_79bb_0797_9af0,
        0x6f68_2616_bae3_641a,
        0xe220_a839_7b1d_cdaf,
    );
    assert(0x3c6e_f372_fe94_f82au64 ^ (0x3c6e_f372_fe94_f82au64 >> 30u64)
        == 0x3c6e_f372_0f2f_35e1u64) by (bit_vector);
    assert(0x2a94_fcbf_ccb4_3499u64 ^ (0x2a94_fcbf_ccb4_3499u64 >> 27u64)
        == 0x2a94_fcba_9e2b_a360u64) by (bit_vector);
    assert(0x6e78_9e6a_7d48_5920u64 ^ (0x6e78_9e6a_7d48_5920u64 >> 31u64)
        == 0x6e78_9e6a_a1b9_65f4u64) by (bit_vector);
    lemma_mixed_in_steps(
        0x9e37_79b9_7f4a_7c15,
        0x3c6e_f372_fe94_f82a,
        0x2a94_fcbf_ccb4_3499,
        0x6e78_9e6a_7d48_5920,
        0x3c6e_f372_0f2f_35e1,
        0x2a94_fcba_9e2b_a360,
        0x6e78_9e6a_a1b9_65f4,
    );
}

} // verus!
