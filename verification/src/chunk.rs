//! A stand-in policy that plans in chunks of actions, one per grid slot.

use crate::stats::Phase;
use rand::rngs::StdRng;
use rand::RngExt;
use vstd::arithmetic::div_mod::lemma_fundamental_div_mod_converse;
use vstd::prelude::*;

verus! {

#[verifier::external_type_specification]
#[verifier::external_body]
pub struct ExStdRng(StdRng);

/// Alternating active and rest periods, measured in slots from slot 0.
/// Deciding per slot, not per plan, makes a rest start exactly on time even
/// when a chunk straddles the boundary.
#[derive(Clone, Copy, Debug)]
pub struct DutyCycle {
    active: i64,
    rest: i64,
}

impl DutyCycle {
    /// Slots a cycle is active for.
    pub closed spec fn active(self) -> int {
        self.active as int
    }

    /// Slots a cycle rests for.
    pub closed spec fn rest(self) -> int {
        self.rest as int
    }

    pub open spec fn wf(self) -> bool {
        self.active() >= 1 && self.rest() >= 0
    }

    /// Whether a slot falls in a rest.
    pub open spec fn rests_at(self, slot: int) -> bool {
        self.rest() > 0 && slot % (self.active() + self.rest()) >= self.active()
    }

    /// A cycle of `active` slots on, at least one, and `rest` off, none if
    /// that is negative.
    pub fn new(active: i64, rest: i64) -> (d: Self)
        ensures
            d.wf(),
            d.active() == (if active < 1 {
                1
            } else {
                active as int
            }),
            d.rest() == (if rest < 0 {
                0
            } else {
                rest as int
            }),
    {
        DutyCycle {
            active: if active < 1 {
                1
            } else {
                active
            },
            rest: if rest < 0 {
                0
            } else {
                rest
            },
        }
    }

    /// How many slots a cycle is active for.
    pub fn active_slots(&self) -> (n: i64)
        ensures
            n == self.active(),
    {
        self.active
    }

    /// How many slots a cycle rests for.
    pub fn rest_slots(&self) -> (n: i64)
        ensures
            n == self.rest(),
    {
        self.rest
    }

    pub fn resting(&self, slot: i64) -> (b: bool)
        requires
            self.wf(),
        ensures
            b == self.rests_at(slot as int),
    {
        self.resting_in(slot as i128)
    }

    /// Whether a slot falls in a rest, however far on it is.
    fn resting_in(&self, slot: i128) -> (b: bool)
        requires
            self.wf(),
            i64::MIN <= slot <= i64::MAX + usize::MAX,
        ensures
            b == self.rests_at(slot as int),
    {
        if self.rest <= 0 {
            return false;
        }
        let whole: i128 = self.active as i128 + self.rest as i128;
        let size: i128 = if slot < 0 {
            -(slot + 1)
        } else {
            slot
        };
        let r: i128 = (size as u128 % whole as u128) as i128;
        let into: i128 = if slot < 0 {
            whole - 1 - r
        } else {
            r
        };
        proof {
            let w = whole as int;
            let q = size as int / w;
            assert(size == q * w + r) by (nonlinear_arith)
                requires
                    w > 0,
                    q == size as int / w,
                    r == size as int % w,
            ;
            if slot < 0 {
                assert(slot == (-q - 1) * w + into) by (nonlinear_arith)
                    requires
                        size == -(slot + 1),
                        size == q * w + r,
                        into == w - 1 - r,
                ;
                lemma_fundamental_div_mod_converse(slot as int, w, -q - 1, into as int);
            }
        }
        into >= self.active as i128
    }
}

impl DutyCycle {
    /// What the arm is doing in this slot, if the grid has begun.
    pub fn phase(&self, slot: Option<i64>) -> (p: Phase)
        requires
            self.wf(),
        ensures
            p == (match slot {
                Some(k) => if self.rest() == 0 {
                    Phase::Unsaid
                } else if self.rests_at(k as int) {
                    Phase::Resting
                } else {
                    Phase::Active
                },
                None => Phase::Unsaid,
            }),
    {
        match slot {
            Some(k) => if self.rest <= 0 {
                Phase::Unsaid
            } else if self.resting(k) {
                Phase::Resting
            } else {
                Phase::Active
            },
            None => Phase::Unsaid,
        }
    }
}

/// A rest starts and ends exactly on its slots: `into` a cycle, the arm rests
/// when the active slots are over.
pub proof fn law_rests_start_and_end_on_their_slots(duty: DutyCycle, cycle: int, into: int)
    requires
        duty.wf(),
        duty.rest() > 0,
        0 <= into < duty.active() + duty.rest(),
    ensures
        duty.rests_at(cycle * (duty.active() + duty.rest()) + into) <==> into >= duty.active(),
{
    let whole = duty.active() + duty.rest();
    lemma_fundamental_div_mod_converse(cycle * whole + into, whole, cycle, into);
}

/// Without a rest the policy is always on.
pub proof fn law_no_rest_slots_mean_always_on(duty: DutyCycle, slot: int)
    requires
        duty.rest() == 0,
    ensures
        !duty.rests_at(slot),
{
}

/// What a generator draws from `-range..=range`.
pub uninterp spec fn drawn(rng: StdRng, range: i8) -> i8;

/// A generator after it has drawn from `-range..=range`.
pub uninterp spec fn advanced(rng: StdRng, range: i8) -> StdRng;

/// `Rng::random_range` draws from a range that is not empty; on an empty one
/// it panics, which is left out. A [`StdRng`] is seeded and computes what it
/// draws, so its state decides the number and the state that follows. That
/// the numbers in the range are drawn equally often is left unsaid.
#[verifier::external_body]
fn draw(rng: &mut StdRng, range: i8) -> (a: i8)
    requires
        range >= 0,
    ensures
        a == drawn(*old(rng), range),
        -range <= a <= range,
        *final(rng) == advanced(*old(rng), range),
{
    rng.random_range(-range..=range)
}

/// The plan that repeats `a` from slot `k_start` on, except in the slots that
/// fall in a rest.
pub open spec fn repeated(duty: DutyCycle, k_start: int, chunk: nat, a: i8) -> Seq<i8> {
    Seq::new(
        chunk,
        |i: int|
            if duty.rests_at(k_start + i) {
                0
            } else {
                a
            },
    )
}

/// Repeats `a` for `chunk` slots from `k_start` on, except in the slots that
/// fall in a rest.
pub fn repeat(duty: &DutyCycle, k_start: i64, chunk: usize, a: i8) -> (plan: Vec<i8>)
    requires
        duty.wf(),
    ensures
        plan@ == repeated(*duty, k_start as int, chunk as nat, a),
{
    let mut plan: Vec<i8> = Vec::new();
    let mut i: usize = 0;
    while i < chunk
        invariant
            i <= chunk,
            duty.wf(),
            plan@ == repeated(*duty, k_start as int, i as nat, a),
        decreases chunk - i,
    {
        plan.push(
            if duty.resting_in(k_start as i128 + i as i128) {
                0
            } else {
                a
            },
        );
        i = i + 1;
        assert(plan@ =~= repeated(*duty, k_start as int, i as nat, a));
    }
    plan
}

/// Stand-in for a real policy: one random action, repeated for the chunk,
/// except in the slots that fall in a rest period.
pub struct FakePolicy {
    pub rng: StdRng,
    pub range: i8,
    pub chunk: usize,
    pub duty: DutyCycle,
}

impl FakePolicy {
    /// The next plan, from slot `k_start` on: the action drawn, repeated.
    pub open spec fn next_plan(&self, k_start: int) -> Seq<i8> {
        repeated(self.duty, k_start, self.chunk as nat, drawn(self.rng, self.range))
    }

    /// The policy after it has planned.
    pub open spec fn next(self) -> FakePolicy {
        FakePolicy { rng: advanced(self.rng, self.range), ..self }
    }

    /// Plans a chunk that starts at slot `k_start`.
    pub fn plan(&mut self, k_start: i64) -> (plan: Vec<i8>)
        requires
            old(self).range >= 0,
            old(self).duty.wf(),
        ensures
            plan@ == old(self).next_plan(k_start as int),
            -old(self).range <= drawn(old(self).rng, old(self).range) <= old(self).range,
            *final(self) == old(self).next(),
    {
        let a: i8 = draw(&mut self.rng, self.range);
        repeat(&self.duty, k_start, self.chunk, a)
    }
}

/// A chunk that straddles a rest is zero exactly in the slots of the rest, and
/// the one action in every other.
pub proof fn law_a_chunk_straddling_a_rest_is_zeroed_from_the_boundary(
    duty: DutyCycle,
    k_start: int,
    chunk: nat,
    a: i8,
    i: int,
)
    requires
        0 <= i < chunk,
    ensures
        duty.rests_at(k_start + i) ==> repeated(duty, k_start, chunk, a)[i] == 0,
        !duty.rests_at(k_start + i) ==> repeated(duty, k_start, chunk, a)[i] == a,
{
}

/// A plan has as many actions as a chunk, each zero in a slot that rests and
/// otherwise the one action that was drawn.
pub proof fn law_a_plan_repeats_the_action_that_was_drawn(p: FakePolicy, k_start: int, i: int)
    requires
        0 <= i < p.chunk,
    ensures
        p.next_plan(k_start).len() == p.chunk,
        p.duty.rests_at(k_start + i) ==> p.next_plan(k_start)[i] == 0,
        !p.duty.rests_at(k_start + i) ==> p.next_plan(k_start)[i] == drawn(p.rng, p.range),
        p.next().rng == advanced(p.rng, p.range),
        p.next().range == p.range,
        p.next().chunk == p.chunk,
        p.next().duty == p.duty,
{
}

} // verus!
