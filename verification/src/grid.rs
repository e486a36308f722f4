//! The action grid and the rule that splices plans onto it.
//!
//! Slot `k` is active from `t0 + k * period`. A plan is a chunk of actions
//! whose first one belongs to slot `k_start`, a fixed offset after the
//! capture time of the frame the plan was computed from. Plans supersede
//! each other from their `k_start` onwards.
//!
//! Because a plan starts some way after its frame was captured, a new plan
//! usually arrives *before* its first slot. Until then the previous plan
//! still owns the slots in between, so the executor cannot just take the
//! newest plan: it takes the newest one that has started.

use crate::clock::{from_ns, low_i64, nanos, wrap_i64, MAX_NS};
use std::collections::VecDeque;
use std::sync::Arc;
use std::time::Duration;
use vstd::arithmetic::div_mod::{
    lemma_div_is_ordered, lemma_fundamental_div_mod, lemma_fundamental_div_mod_converse,
};
use vstd::arithmetic::mul::lemma_mul_is_commutative;
use vstd::prelude::*;

verus! {

/// The slots actions are sent in.
#[derive(Clone, Copy, Debug)]
pub struct Grid {
    /// When slot 0 begins.
    pub t0: Duration,
    pub period: Duration,
}

/// `a / b`, rounded up.
pub open spec fn ceil_div(a: int, b: int) -> int {
    (a + b - 1) / b
}

impl Grid {
    /// When slot `k` begins, in nanoseconds.
    pub open spec fn slot_ns(self, k: int) -> int {
        nanos(self.t0) + k * nanos(self.period)
    }

    /// The first slot that begins `target` nanoseconds on the clock or later,
    /// counting backwards before slot 0.
    pub open spec fn first_slot_from(self, target: int) -> int {
        ceil_div(target - nanos(self.t0), nanos(self.period) as int)
    }

    /// When slot `k` begins.
    pub fn slot_time(&self, k: i64) -> (t: Duration)
        requires
            0 <= k <= u32::MAX,
            self.slot_ns(k as int) <= MAX_NS,
        ensures
            nanos(t) == self.slot_ns(k as int),
    {
        let t0: u128 = self.t0.as_nanos();
        let period: u128 = self.period.as_nanos();
        assert(0 <= k * period) by (nonlinear_arith)
            requires
                0 <= k,
        ;
        from_ns(t0 + (k as u128) * period)
    }

    /// The first slot starting at or after `t_capture + offset`.
    pub fn k_start(&self, t_capture: Duration, offset: Duration) -> (k: i64)
        requires
            nanos(self.period) > 0,
        ensures
            k == wrap_i64(self.first_slot_from((nanos(t_capture) + nanos(offset)) as int)),
    {
        let target: u128 = t_capture.as_nanos() + offset.as_nanos();
        let t0: u128 = self.t0.as_nanos();
        let p: u128 = self.period.as_nanos();
        if target >= t0 {
            let ahead: u128 = target - t0;
            let whole: u128 = ahead / p;
            let part: u128 = ahead % p;
            proof {
                lemma_ceil_div(ahead as int, p as int);
            }
            if part == 0 {
                low_i64(whole as i128)
            } else {
                low_i64(whole as i128 + 1)
            }
        } else {
            let before: u128 = t0 - target;
            let whole: u128 = before / p;
            proof {
                lemma_ceil_div_negative(before as int, p as int);
            }
            low_i64(-(whole as i128))
        }
    }

    /// The slot in progress at `t`, or None before slot 0.
    pub fn slot_at(&self, t: Duration) -> (k: Option<i64>)
        requires
            nanos(t) >= nanos(self.t0) ==> nanos(self.period) > 0,
        ensures
            nanos(t) < nanos(self.t0) <==> k is None,
            k matches Some(k) ==> k == wrap_i64(
                (nanos(t) - nanos(self.t0)) / (nanos(self.period) as int),
            ),
    {
        let now: u128 = t.as_nanos();
        let t0: u128 = self.t0.as_nanos();
        if now < t0 {
            return None;
        }
        let p: u128 = self.period.as_nanos();
        let whole: u128 = (now - t0) / p;
        Some(low_i64(whole as i128))
    }
}

proof fn lemma_ceil_div(a: int, b: int)
    requires
        0 <= a,
        0 < b,
    ensures
        ceil_div(a, b) == a / b + (if a % b == 0 { 0int } else { 1int }),
        0 <= a / b <= a,
{
    lemma_fundamental_div_mod(a, b);
    lemma_mul_is_commutative(b, a / b);
    if a % b == 0 {
        lemma_fundamental_div_mod_converse(a + b - 1, b, a / b, b - 1);
    } else {
        assert((a / b + 1) * b == (a / b) * b + b) by (nonlinear_arith);
        lemma_fundamental_div_mod_converse(a + b - 1, b, a / b + 1, a % b - 1);
    }
    assert(0 <= a / b <= a) by (nonlinear_arith)
        requires
            0 <= a,
            0 < b,
    ;
}

proof fn lemma_ceil_div_negative(a: int, b: int)
    requires
        0 <= a,
        0 < b,
    ensures
        ceil_div(-a, b) == -(a / b),
        0 <= a / b <= a,
{
    lemma_fundamental_div_mod(a, b);
    lemma_mul_is_commutative(b, a / b);
    assert((-(a / b)) * b == -((a / b) * b)) by (nonlinear_arith);
    lemma_fundamental_div_mod_converse(-a + b - 1, b, -(a / b), b - 1 - a % b);
    assert(0 <= a / b <= a) by (nonlinear_arith)
        requires
            0 <= a,
            0 < b,
    ;
}

/// A frame's first slot begins no earlier than `target`, and the slot before
/// it begins earlier: no slot in between is passed over.
pub proof fn law_first_slot_is_the_first(grid: Grid, target: int)
    requires
        nanos(grid.period) > 0,
    ensures
        grid.slot_ns(grid.first_slot_from(target)) >= target,
        grid.slot_ns(grid.first_slot_from(target) - 1) < target,
{
    let a = target - nanos(grid.t0);
    let b = nanos(grid.period) as int;
    let c = ceil_div(a, b);
    lemma_fundamental_div_mod(a + b - 1, b);
    lemma_mul_is_commutative(b, c);
    assert((c - 1) * b == c * b - b) by (nonlinear_arith);
}

/// The slot in progress has begun, and the next one has not.
pub proof fn law_the_slot_in_progress_has_begun(grid: Grid, t: int)
    requires
        nanos(grid.period) > 0,
        t >= nanos(grid.t0),
    ensures
        ({
            let k = (t - nanos(grid.t0)) / (nanos(grid.period) as int);
            0 <= k && grid.slot_ns(k) <= t < grid.slot_ns(k + 1)
        }),
{
    let a = t - nanos(grid.t0);
    let b = nanos(grid.period) as int;
    lemma_fundamental_div_mod(a, b);
    lemma_mul_is_commutative(b, a / b);
    assert((a / b + 1) * b == (a / b) * b + b) by (nonlinear_arith);
    assert(0 <= a / b) by (nonlinear_arith)
        requires
            0 <= a,
            0 < b,
    ;
}

/// Frames in capture order start their plans in slot order.
pub proof fn law_later_captures_never_start_earlier(grid: Grid, earlier: int, later: int)
    requires
        nanos(grid.period) > 0,
        earlier <= later,
    ensures
        grid.first_slot_from(earlier) <= grid.first_slot_from(later),
{
    let b = nanos(grid.period) as int;
    lemma_div_is_ordered(
        earlier - nanos(grid.t0) + b - 1,
        later - nanos(grid.t0) + b - 1,
        b,
    );
}

/// A chunk of actions and where it sits on the grid.
#[derive(Debug)]
pub struct Plan {
    /// The camera frame the plan was computed from.
    pub frame: u64,
    pub k_start: i64,
    pub actions: Vec<i8>,
}

impl Plan {
    /// Whether the plan has begun by slot `k`.
    pub open spec fn started(&self, k: int) -> bool {
        self.k_start <= k
    }

    /// Whether one of the plan's actions belongs to slot `k`.
    pub open spec fn covers(&self, k: int) -> bool {
        self.k_start <= k < self.k_start + self.actions@.len()
    }

    /// What the plan has for slot `k`.
    pub open spec fn pick(&self, k: int) -> Pick {
        if self.covers(k) {
            Pick::Plan {
                frame: self.frame,
                index: ((k - self.k_start) % 256) as u8,
                action: self.actions@[k - self.k_start],
            }
        } else {
            Pick::Gap
        }
    }
}

/// Where a slot's action comes from.
#[derive(Clone, Copy, Debug, PartialEq, Eq, Structural)]
pub enum Pick {
    /// Action `index` of the plan computed from `frame`; the index is counted
    /// modulo 256.
    Plan { frame: u64, index: u8, action: i8 },
    /// No plan covers the slot: the executor sends 0.
    Gap,
}

impl Pick {
    /// The byte to send.
    pub open spec fn value(self) -> i8 {
        match self {
            Pick::Plan { action, .. } => action,
            Pick::Gap => 0,
        }
    }

    pub fn action(&self) -> (a: i8)
        ensures
            a == self.value(),
    {
        match *self {
            Pick::Plan { action, .. } => action,
            Pick::Gap => 0,
        }
    }
}

/// The plans that may still own a current or future slot, oldest first.
/// Plans are pushed in frame order, so their `k_start`s never decrease.
pub struct Schedule {
    plans: VecDeque<Arc<Plan>>,
}

/// How many plans at the front are superseded at slot `k`: each is followed
/// by one that has started.
pub open spec fn superseded(plans: Seq<Arc<Plan>>, k: int) -> nat
    decreases plans.len(),
{
    if plans.len() >= 2 && plans[1].started(k) {
        1 + superseded(plans.skip(1), k)
    } else {
        0
    }
}

/// What a schedule of `plans` has for slot `k`: the oldest plan not
/// superseded decides.
pub open spec fn pick_from(plans: Seq<Arc<Plan>>, k: int) -> Pick {
    let left = plans.skip(superseded(plans, k) as int);
    if left.len() == 0 {
        Pick::Gap
    } else {
        left[0].pick(k)
    }
}

/// Whether the plans start in the order they were pushed in.
pub open spec fn in_order(plans: Seq<Arc<Plan>>) -> bool {
    forall|i: int, j: int| 0 <= i <= j < plans.len() ==> plans[i].k_start <= plans[j].k_start
}

impl View for Schedule {
    type V = Seq<Arc<Plan>>;

    closed spec fn view(&self) -> Seq<Arc<Plan>> {
        self.plans@
    }
}

impl Default for Schedule {
    /// No plans.
    fn default() -> (s: Self)
        ensures
            s@ == Seq::<Arc<Plan>>::empty(),
    {
        Schedule { plans: VecDeque::new() }
    }
}

impl Schedule {
    pub fn push(&mut self, plan: Arc<Plan>)
        ensures
            final(self)@ == old(self)@.push(plan),
    {
        self.plans.push_back(plan);
    }

    /// The action for slot `k`: from the newest plan that has started by `k`,
    /// if it still covers `k`, else a gap. Slots must be asked for in
    /// increasing order, because plans superseded at `k` are dropped.
    pub fn pick(&mut self, k: i64) -> (p: Pick)
        ensures
            p == pick_from(old(self)@, k as int),
            final(self)@ == old(self)@.skip(superseded(old(self)@, k as int) as int),
    {
        let ghost all = self.plans@;
        let ghost mut dropped: int = 0;
        // The oldest plan is superseded once the next one has started.
        while self.plans.len() >= 2 && self.plans[1].k_start <= k
            invariant
                0 <= dropped <= all.len(),
                self.plans@ == all.skip(dropped),
                superseded(all, k as int) == dropped + superseded(self.plans@, k as int),
            decreases self.plans@.len(),
        {
            let ghost before = self.plans@;
            self.plans.pop_front();
            proof {
                assert(self.plans@ =~= before.skip(1));
                dropped = dropped + 1;
                assert(self.plans@ =~= all.skip(dropped));
            }
        }
        if self.plans.len() == 0 {
            return Pick::Gap;
        }
        let p = &self.plans[0];
        if p.k_start > k {
            return Pick::Gap;
        }
        let ahead: i128 = k as i128 - p.k_start as i128;
        if ahead >= p.actions.len() as i128 {
            return Pick::Gap;
        }
        let index: usize = ahead as usize;
        Pick::Plan { frame: p.frame, index: (index % 256) as u8, action: p.actions[index] }
    }
}

proof fn lemma_superseded_step(plans: Seq<Arc<Plan>>, k: int)
    requires
        plans.len() >= 2,
        plans[1].started(k),
    ensures
        plans.skip(superseded(plans, k) as int) == plans.skip(1).skip(
            superseded(plans.skip(1), k) as int,
        ),
{
    lemma_superseded_is_bounded(plans.skip(1), k);
    assert(plans.skip(superseded(plans, k) as int) =~= plans.skip(1).skip(
        superseded(plans.skip(1), k) as int,
    ));
}

proof fn lemma_superseded_is_bounded(plans: Seq<Arc<Plan>>, k: int)
    ensures
        superseded(plans, k) <= plans.len(),
    decreases plans.len(),
{
    if plans.len() >= 2 && plans[1].started(k) {
        lemma_superseded_is_bounded(plans.skip(1), k);
    }
}

/// With plans in start order, a slot belongs to the newest plan that has
/// started: that plan's action if it still covers the slot, else a gap.
pub proof fn law_the_newest_started_plan_owns_the_slot(
    plans: Seq<Arc<Plan>>,
    k: int,
    newest: int,
)
    requires
        in_order(plans),
        0 <= newest < plans.len(),
        plans[newest].started(k),
        forall|j: int| newest < j < plans.len() ==> !(#[trigger] plans[j]).started(k),
    ensures
        pick_from(plans, k) == plans[newest].pick(k),
    decreases plans.len(),
{
    if newest == 0 {
        assert(superseded(plans, k) == 0);
        assert(plans.skip(0) =~= plans);
    } else {
        assert(plans[1].k_start <= plans[newest].k_start);
        let rest = plans.skip(1);
        assert forall|j: int| newest - 1 < j < rest.len() implies !(#[trigger] rest[j]).started(
            k,
        ) by {
            assert(rest[j] == plans[j + 1]);
        }
        law_the_newest_started_plan_owns_the_slot(rest, k, newest - 1);
        lemma_superseded_step(plans, k);
    }
}

/// Until the first plan starts, every slot is a gap, and zero is sent.
pub proof fn law_a_slot_before_every_plan_is_a_gap(plans: Seq<Arc<Plan>>, k: int)
    requires
        forall|j: int| 0 <= j < plans.len() ==> !(#[trigger] plans[j]).started(k),
    ensures
        pick_from(plans, k) == Pick::Gap,
        pick_from(plans, k).value() == 0,
{
    assert(superseded(plans, k) == 0);
    assert(plans.skip(0) =~= plans);
}

/// Dropping the plans superseded at slot `k` changes no later slot, whatever
/// is pushed afterwards.
pub proof fn law_dropping_superseded_plans_changes_no_later_slot(
    plans: Seq<Arc<Plan>>,
    later: Seq<Arc<Plan>>,
    k: int,
    next: int,
)
    requires
        k <= next,
    ensures
        pick_from(plans.skip(superseded(plans, k) as int) + later, next) == pick_from(
            plans + later,
            next,
        ),
    decreases plans.len(),
{
    if plans.len() >= 2 && plans[1].started(k) {
        let rest = plans.skip(1);
        law_dropping_superseded_plans_changes_no_later_slot(rest, later, k, next);
        lemma_superseded_step(plans, k);
        let all = plans + later;
        assert(all.skip(1) =~= rest + later);
        assert(all[1] == plans[1]);
        lemma_superseded_step(all, next);
    } else {
        assert(plans.skip(0) =~= plans);
    }
}

/// Asking for slots keeps the plans in start order.
pub proof fn law_picking_keeps_the_order(plans: Seq<Arc<Plan>>, k: int)
    requires
        in_order(plans),
    ensures
        in_order(plans.skip(superseded(plans, k) as int)),
    decreases plans.len(),
{
    if plans.len() >= 2 && plans[1].started(k) {
        let rest = plans.skip(1);
        law_picking_keeps_the_order(rest, k);
        lemma_superseded_step(plans, k);
    } else {
        assert(plans.skip(0) =~= plans);
    }
}

/// The action that a plan has for each of its slots: its first action for the
/// slot it starts at, then one for each slot after that, counted from 0 and
/// again from 0 after 255. It has none for the slots before and after.
pub proof fn law_a_plan_has_one_action_for_each_slot(plan: Plan, i: int)
    ensures
        0 <= i < plan.actions@.len() ==> plan.pick(plan.k_start + i) == (Pick::Plan {
            frame: plan.frame,
            index: (i % 256) as u8,
            action: plan.actions@[i],
        }),
        0 <= i < plan.actions@.len() ==> plan.pick(plan.k_start + i).value() == plan.actions@[i],
        i < 0 || i >= plan.actions@.len() ==> plan.pick(plan.k_start + i) == Pick::Gap,
        i < 0 || i >= plan.actions@.len() ==> plan.pick(plan.k_start + i).value() == 0,
{
}

/// What is sent in a slot. With plans in start order, slot `i` after the start
/// of the newest plan to have started by then gets that plan's action number
/// `i`, and is a gap where the plan has none left.
pub proof fn law_a_slot_gets_the_newest_plans_action(
    plans: Seq<Arc<Plan>>,
    newest: int,
    i: int,
)
    requires
        forall|a: int, b: int|
            #![trigger plans[a], plans[b]]
            0 <= a < b < plans.len() ==> plans[a].k_start <= plans[b].k_start,
        0 <= newest < plans.len(),
        0 <= i,
        forall|j: int|
            newest < j < plans.len() ==> plans[newest].k_start + i < (#[trigger] plans[j]).k_start,
    ensures
        i < plans[newest].actions@.len() ==> pick_from(plans, plans[newest].k_start + i) == (
        Pick::Plan {
            frame: plans[newest].frame,
            index: (i % 256) as u8,
            action: plans[newest].actions@[i],
        }),
        i >= plans[newest].actions@.len() ==> pick_from(plans, plans[newest].k_start + i)
            == Pick::Gap,
{
    law_the_newest_started_plan_owns_the_slot(plans, plans[newest].k_start + i, newest);
}

/// The slots follow each other without a break: the first begins at t0, and
/// each lasts for the period.
pub proof fn law_slots_tile_the_time_from_t0(grid: Grid, k: int)
    ensures
        grid.slot_ns(0) == nanos(grid.t0),
        grid.slot_ns(k + 1) == grid.slot_ns(k) + nanos(grid.period),
{
    assert((k + 1) * nanos(grid.period) == k * nanos(grid.period) + nanos(grid.period))
        by (nonlinear_arith);
}

} // verus!
