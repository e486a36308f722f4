//! Perception and planning on the action grid: when to plan, on which frame,
//! and what is recorded of it.

use crate::chunk::FakePolicy;
use crate::clock::{nanos, wrap_i64, MAX_NS};
use crate::collect::{tag_rows, tags_seen, Seen};
use crate::grid::{law_first_slot_is_the_first, Grid, Plan};
use crate::record::{copied, rel_ns, ObsRow, TagRow};
use crate::stats::{counted, lemma_occurrences, occurrences, tally};
use std::collections::BTreeMap;
use std::time::Duration;
use vstd::arithmetic::div_mod::{lemma_fundamental_div_mod, lemma_fundamental_div_mod_converse};
use vstd::prelude::*;

verus! {

/// An account of perception. Times are in nanoseconds.
pub struct PerceiveStats {
    pub frames: u64,
    pub before_t0: u64,
    /// How often each recorded tag was seen, by its id: once for each of its
    /// columns in each frame.
    pub with_tag: BTreeMap<u64, u64>,
    pub detect: Vec<i128>,
    /// How old each frame was when it arrived: arrival minus capture.
    pub age: Vec<i128>,
    /// How long before its first slot each plan was ready; negative = late.
    pub lead: Vec<i128>,
}

impl PerceiveStats {
    /// No tag was counted more often than it could have been, if each frame
    /// has this many columns.
    pub open spec fn wf(&self, columns: nat) -> bool {
        forall|id: u64| #[trigger] counted(self.with_tag@, id) <= self.frames * columns
    }

    pub fn new() -> (s: Self)
        ensures
            s.frames == 0,
            s.before_t0 == 0,
            s.with_tag@ == Map::<u64, u64>::empty(),
            s.detect@ == Seq::<i128>::empty(),
            s.age@ == Seq::<i128>::empty(),
            s.lead@ == Seq::<i128>::empty(),
    {
        PerceiveStats {
            frames: 0,
            before_t0: 0,
            with_tag: BTreeMap::new(),
            detect: Vec::new(),
            age: Vec::new(),
            lead: Vec::new(),
        }
    }

    /// How many plans were ready only after their first slot had begun.
    pub fn late_plans(&self) -> (n: usize)
        ensures
            n == self.lead@.filter(|l: i128| l < 0).len(),
    {
        let mut n: usize = 0;
        let mut i: usize = 0;
        assert(self.lead@.take(0) =~= Seq::<i128>::empty());
        proof {
            reveal(Seq::filter);
        }
        while i < self.lead.len()
            invariant
                i <= self.lead@.len(),
                n <= i,
                n == self.lead@.take(i as int).filter(|l: i128| l < 0).len(),
            decreases self.lead@.len() - i,
        {
            proof {
                reveal(Seq::filter);
            }
            assert(self.lead@.take(i + 1).drop_last() =~= self.lead@.take(i as int));
            if self.lead[i] < 0 {
                n = n + 1;
            }
            i = i + 1;
        }
        assert(self.lead@.take(i as int) =~= self.lead@);
        n
    }
}

/// What is to be done with a frame.
#[derive(Clone, Copy, Debug)]
pub enum Fate {
    /// The camera gave no capture time: the recording cannot go on.
    NoTimestamp,
    /// Captured before t0, too early to record: try the next one at once.
    BeforeT0,
    /// Detect tags in it, and plan.
    Plan(Duration),
}

/// What is to be done with a frame captured then.
pub open spec fn fate_of(grid: Grid, t_capture: Option<Duration>) -> Fate {
    match t_capture {
        None => Fate::NoTimestamp,
        Some(t) => if nanos(t) < nanos(grid.t0) {
            Fate::BeforeT0
        } else {
            Fate::Plan(t)
        },
    }
}

/// When a frame went through what.
#[derive(Clone, Copy, Debug)]
pub struct Times {
    pub capture: Duration,
    pub detect_start: Duration,
    pub detected: Duration,
    /// When the policy was asked.
    pub policy: Duration,
    /// When the plan had been scheduled.
    pub planned: Duration,
}

/// The ids of the recorded tags that were seen, one for each column that has
/// one.
pub open spec fn ids_seen(ids: Seq<usize>, tags: Seq<Option<TagRow>>) -> Seq<u64>
    decreases ids.len(),
{
    if ids.len() == 0 {
        Seq::empty()
    } else {
        let before = ids_seen(ids.drop_last(), tags.drop_last());
        if tags.last() is Some {
            before.push(ids.last() as u64)
        } else {
            before
        }
    }
}

/// Whether `after` is the tick to plan on after `now`: the one there was,
/// `next`, if it is still to come, or else the first a whole number of
/// intervals later that is.
pub open spec fn ticked(next: nat, every: nat, now: nat, after: nat) -> bool {
    if every == 0 || next > now {
        after == next
    } else {
        &&& now < after <= now + every
        &&& (after - next) % (every as int) == 0
    }
}

/// Perception's side of a recording: the grid it plans on, and when it plans
/// next.
pub struct Perceiver {
    grid: Grid,
    /// From capture to the first slot of a plan.
    offset: Duration,
    every: u128,
    next_plan: u128,
    /// The tags that are recorded, column by column.
    ids: Vec<usize>,
    stats: PerceiveStats,
}

impl Perceiver {
    pub closed spec fn grid(&self) -> Grid {
        self.grid
    }

    pub closed spec fn offset(&self) -> Duration {
        self.offset
    }

    /// The interval between plans, in nanoseconds. Zero plans on every frame.
    pub closed spec fn every(&self) -> nat {
        self.every as nat
    }

    /// When to plan next, in nanoseconds on the clock.
    pub closed spec fn next_plan(&self) -> nat {
        self.next_plan as nat
    }

    /// The tags that are recorded, column by column.
    pub closed spec fn ids(&self) -> Seq<usize> {
        self.ids@
    }

    pub closed spec fn stats(&self) -> PerceiveStats {
        self.stats
    }

    /// Whether another frame can be counted, with all its tags.
    pub open spec fn countable(&self) -> bool {
        &&& self.stats().frames < u64::MAX
        &&& (self.stats().frames + 1) * self.ids().len() <= u64::MAX
    }

    pub open spec fn wf(&self) -> bool {
        &&& self.stats().wf(self.ids().len())
        &&& self.every() <= MAX_NS
        &&& self.next_plan() <= 2 * MAX_NS
    }

    /// Whether two perceivers are of one recording.
    pub open spec fn alike(before: Perceiver, after: Perceiver) -> bool {
        &&& after.grid() == before.grid()
        &&& after.offset() == before.offset()
        &&& after.every() == before.every()
        &&& after.ids() == before.ids()
    }

    /// What waking at `now` changes: when to plan next.
    pub open spec fn slept(before: Perceiver, after: Perceiver, now: Duration) -> bool {
        &&& Self::alike(before, after)
        &&& after.stats() == before.stats()
        &&& ticked(before.next_plan(), before.every(), nanos(now), after.next_plan())
    }

    /// What a frame changes, and what is to be done with it.
    pub open spec fn took(
        before: Perceiver,
        after: Perceiver,
        t_capture: Option<Duration>,
        t_arrival: Duration,
        now: Duration,
        fate: Fate,
    ) -> bool {
        &&& Self::alike(before, after)
        &&& fate == fate_of(before.grid(), t_capture)
        &&& match fate {
            Fate::NoTimestamp => {
                &&& after.next_plan() == before.next_plan()
                &&& after.stats() == before.stats()
            },
            Fate::BeforeT0 => {
                &&& after.next_plan() == nanos(now)
                &&& after.stats() == (PerceiveStats {
                    before_t0: (before.stats().before_t0 + 1) as u64,
                    ..before.stats()
                })
            },
            Fate::Plan(t) => {
                &&& after.next_plan() == before.next_plan()
                &&& after.stats().age@ == before.stats().age@.push(
                    (nanos(t_arrival) - nanos(t)) as i128,
                )
                &&& after.stats() == (PerceiveStats { age: after.stats().age, ..before.stats() })
            },
        }
    }

    /// What a frame that has been planned on changes, how it is recorded, and
    /// whether its plan was late.
    pub open spec fn recorded(
        before: Perceiver,
        after: Perceiver,
        plan: Plan,
        tags: Vec<Option<TagRow>>,
        times: Times,
        row: ObsRow,
        late: bool,
    ) -> bool {
        let t0 = nanos(before.grid().t0);
        let had = before.stats();
        let has = after.stats();
        let lead = before.grid().slot_ns(Self::first_slot(plan.k_start)) - nanos(times.planned);
        let seen = ids_seen(before.ids(), tags@);
        &&& Self::alike(before, after)
        &&& after.next_plan() == before.next_plan()
        &&& row.frame == plan.frame
        &&& row.t_capture == wrap_i64(nanos(times.capture) - t0)
        &&& row.t_detected == wrap_i64(nanos(times.detected) - t0)
        &&& row.tags == tags
        &&& row.t_policy is Some
        &&& row.t_policy->0 == wrap_i64(nanos(times.policy) - t0)
        &&& row.t_plan is Some
        &&& row.t_plan->0 == wrap_i64(nanos(times.planned) - t0)
        &&& row.k_start == Some(plan.k_start)
        &&& row.plan is Some
        &&& row.plan->0@ == plan.actions@
        &&& late <==> lead < 0
        &&& has.frames == had.frames + 1
        &&& has.before_t0 == had.before_t0
        &&& has.age == had.age
        &&& has.detect@ == had.detect@.push(
            (nanos(times.detected) - nanos(times.detect_start)) as i128,
        )
        &&& has.lead@ == had.lead@.push(lead as i128)
        &&& forall|id: u64| #[trigger]
            counted(has.with_tag@, id) == counted(had.with_tag@, id) + occurrences(seen, id)
        &&& has.with_tag@.dom() == had.with_tag@.dom().union(seen.to_set())
    }

    /// Plans every `every` from t0 on, or on every frame if that is zero, and
    /// records the tags with these ids.
    pub fn new(grid: Grid, offset: Duration, every: Duration, ids: Vec<usize>) -> (p: Self)
        ensures
            p.wf(),
            p.grid() == grid,
            p.offset() == offset,
            p.every() == nanos(every),
            p.next_plan() == nanos(grid.t0),
            p.ids() == ids@,
            p.stats().frames == 0,
            p.stats().before_t0 == 0,
            p.stats().with_tag@ == Map::<u64, u64>::empty(),
            p.stats().detect@ == Seq::<i128>::empty(),
            p.stats().age@ == Seq::<i128>::empty(),
            p.stats().lead@ == Seq::<i128>::empty(),
    {
        Perceiver {
            grid,
            offset,
            every: every.as_nanos(),
            next_plan: grid.t0.as_nanos(),
            ids,
            stats: PerceiveStats::new(),
        }
    }

    /// Whether another frame can be counted, with all its tags.
    pub fn can_count(&self) -> (b: bool)
        ensures
            b == self.countable(),
    {
        let frames: u128 = self.stats.frames as u128 + 1;
        let columns: u128 = self.ids.len() as u128;
        assert(0 <= frames * columns <= 0x1_0000_0000_0000_0000 * u64::MAX) by (nonlinear_arith)
            requires
                0 <= frames <= 0x1_0000_0000_0000_0000,
                0 <= columns <= u64::MAX,
        ;
        self.stats.frames < u64::MAX && frames * columns <= u64::MAX as u128
    }

    /// Whether another frame can be taken and counted.
    pub fn can_take(&self) -> (b: bool)
        ensures
            b <==> self.countable() && self.stats().before_t0 < u64::MAX,
    {
        self.can_count() && self.stats.before_t0 < u64::MAX
    }

    /// When to sleep until before the next plan, in nanoseconds on the clock,
    /// or None where every frame is planned on.
    pub fn sleep_until(&self) -> (t: Option<u128>)
        ensures
            t is Some <==> self.every() > 0,
            t is Some ==> t->0 == self.next_plan(),
    {
        if self.every == 0 {
            None
        } else {
            Some(self.next_plan)
        }
    }

    /// It is time to plan. The next plan is on the first tick after `now`:
    /// after an overrun, planning resumes there rather than catching up.
    pub fn woke(&mut self, now: Duration)
        requires
            old(self).wf(),
        ensures
            final(self).wf(),
            Self::slept(*old(self), *final(self), now),
    {
        let now: u128 = now.as_nanos();
        if self.every == 0 || self.next_plan > now {
            return;
        }
        let behind: u128 = now - self.next_plan;
        let ticks: u128 = behind / self.every + 1;
        proof {
            let b = behind as int;
            let e = self.every as int;
            lemma_fundamental_div_mod(b, e);
            assert((b / e + 1) * e == e * (b / e) + e) by (nonlinear_arith);
            assert(self.next_plan + ticks * e > now);
            assert(self.next_plan + ticks * e <= now + e);
            lemma_fundamental_div_mod_converse(ticks * e, e, ticks as int, 0);
        }
        self.next_plan = self.next_plan + ticks * self.every;
    }

    /// A frame has come, and it is now `now`.
    pub fn frame(
        &mut self,
        t_capture: Option<Duration>,
        t_arrival: Duration,
        now: Duration,
    ) -> (fate: Fate)
        requires
            old(self).wf(),
            old(self).stats().before_t0 < u64::MAX,
        ensures
            final(self).wf(),
            Self::took(*old(self), *final(self), t_capture, t_arrival, now, fate),
    {
        let t: Duration = match t_capture {
            Some(t) => t,
            None => return Fate::NoTimestamp,
        };
        let captured: u128 = t.as_nanos();
        if captured < self.grid.t0.as_nanos() {
            self.stats.before_t0 = self.stats.before_t0 + 1;
            self.next_plan = now.as_nanos();
            return Fate::BeforeT0;
        }
        self.stats.age.push(t_arrival.as_nanos() as i128 - captured as i128);
        Fate::Plan(t)
    }

    /// Asks the policy for a plan from a frame captured at `t_capture`.
    pub fn plan(&self, policy: &mut FakePolicy, frame: u64, t_capture: Duration) -> (plan: Plan)
        requires
            nanos(self.grid().period) > 0,
            old(policy).range >= 0,
            old(policy).duty.wf(),
        ensures
            plan.frame == frame,
            plan.k_start == wrap_i64(
                self.grid().first_slot_from((nanos(t_capture) + nanos(self.offset())) as int),
            ),
            plan.actions@ == old(policy).next_plan(plan.k_start as int),
            *final(policy) == old(policy).next(),
    {
        let k_start: i64 = self.grid.k_start(t_capture, self.offset);
        let actions: Vec<i8> = policy.plan(k_start);
        Plan { frame, k_start, actions }
    }

    /// The first of a plan's slots that is on the grid.
    pub open spec fn first_slot(k_start: i64) -> int {
        if k_start > 0 {
            k_start as int
        } else {
            0
        }
    }

    /// Whether a plan that starts here can be scheduled: its number fits in 32
    /// bits, and its time in a [`Duration`].
    pub open spec fn can_plan(&self, k_start: i64) -> bool {
        &&& k_start <= u32::MAX
        &&& self.grid().slot_ns(Self::first_slot(k_start)) <= MAX_NS
    }

    /// Whether a plan that starts here can be scheduled.
    pub fn schedulable(&self, k_start: i64) -> (b: bool)
        ensures
            b == self.can_plan(k_start),
    {
        if k_start > u32::MAX as i64 {
            return false;
        }
        let k: u128 = if k_start > 0 {
            k_start as u128
        } else {
            0
        };
        let period: u128 = self.grid.period.as_nanos();
        let t0: u128 = self.grid.t0.as_nanos();
        proof {
            assert(0 <= k * period <= 0xffff_ffff * MAX_NS) by (nonlinear_arith)
                requires
                    0 <= k <= 0xffff_ffff,
                    0 <= period <= MAX_NS,
            ;
        }
        t0 + k * period <= MAX_NS
    }

    /// Records a frame that has been planned on, with the tags seen in it.
    /// Returns its row, and whether the plan was late.
    pub fn planned(
        &mut self,
        plan: &Plan,
        tags: Vec<Option<TagRow>>,
        times: &Times,
    ) -> (r: (ObsRow, bool))
        requires
            old(self).wf(),
            old(self).can_plan(plan.k_start),
            old(self).countable(),
            tags@.len() == old(self).ids().len(),
        ensures
            final(self).wf(),
            Self::recorded(*old(self), *final(self), *plan, tags, *times, r.0, r.1),
    {
        let mut seen: Vec<u64> = Vec::new();
        let mut i: usize = 0;
        assert(self.ids@.take(0) =~= Seq::<usize>::empty());
        while i < self.ids.len()
            invariant
                i <= self.ids@.len(),
                tags@.len() == self.ids@.len(),
                seen@.len() <= i,
                seen@ == ids_seen(self.ids@.take(i as int), tags@.take(i as int)),
            decreases self.ids@.len() - i,
        {
            assert(self.ids@.take(i + 1).drop_last() =~= self.ids@.take(i as int));
            assert(tags@.take(i + 1).drop_last() =~= tags@.take(i as int));
            if tags[i].is_some() {
                seen.push(self.ids[i] as u64);
            }
            i = i + 1;
        }
        assert(self.ids@.take(i as int) =~= self.ids@);
        assert(tags@.take(i as int) =~= tags@);
        let ghost columns = self.ids@.len();
        let ghost frames = self.stats.frames as int;
        assert((frames + 1) * columns == frames * columns + columns) by (nonlinear_arith);
        assert forall|id: u64| #[trigger]
            counted(self.stats.with_tag@, id) + seen@.len() <= u64::MAX by {}
        tally(&mut self.stats.with_tag, seen.as_slice());
        self.stats.frames = self.stats.frames + 1;
        self.stats.detect.push(
            times.detected.as_nanos() as i128 - times.detect_start.as_nanos() as i128,
        );
        assert(self.stats.wf(columns)) by {
            assert forall|id: u64| #[trigger]
                counted(self.stats.with_tag@, id) <= self.stats.frames * columns by {
                lemma_occurrences(seen@, id);
                assert(counted(old(self).stats.with_tag@, id) <= frames * columns);
            }
        }
        let first: i64 = if plan.k_start > 0 {
            plan.k_start
        } else {
            0
        };
        let start: u128 = self.grid.slot_time(first).as_nanos();
        let lead: i128 = start as i128 - times.planned.as_nanos() as i128;
        self.stats.lead.push(lead);
        let t0: Duration = self.grid.t0;
        let row = ObsRow {
            frame: plan.frame,
            t_capture: rel_ns(times.capture, t0),
            t_detected: rel_ns(times.detected, t0),
            tags,
            t_policy: Some(rel_ns(times.policy, t0)),
            t_plan: Some(rel_ns(times.planned, t0)),
            k_start: Some(plan.k_start),
            plan: Some(copied(&plan.actions)),
        };
        (row, lead < 0)
    }

    /// How it went.
    pub fn finish(self) -> (stats: PerceiveStats)
        ensures
            stats == self.stats(),
    {
        self.stats
    }
}

/// Planning keeps to its cadence: a tick is a whole number of intervals from
/// t0, and so is the next one, however long the overrun.
pub proof fn law_planning_keeps_its_cadence(t0: int, next: nat, every: nat, now: nat, after: nat)
    requires
        every > 0,
        (next - t0) % (every as int) == 0,
        ticked(next, every, now, after),
    ensures
        (after - t0) % (every as int) == 0,
        after > now,
{
    let e = every as int;
    lemma_fundamental_div_mod(next - t0, e);
    lemma_fundamental_div_mod(after - next, e);
    if next <= now {
        let m = (next - t0) / e;
        let n = (after - next) / e;
        assert((m + n) * e == e * m + e * n) by (nonlinear_arith);
        lemma_fundamental_div_mod_converse(after - t0, e, m + n, 0);
    }
}

/// What has happened in perception's loop.
pub enum Happened {
    /// A turn begins, and the recording goes on.
    Turn,
    /// The recording is over, or no frame will come any more.
    Over,
    /// The loop slept until now.
    Woke(Duration),
    /// No frame came in time.
    Nothing,
    /// This frame came.
    Came { frame: u64, t_capture: Option<Duration>, t_arrival: Duration, now: Duration },
    /// These tags were seen in the frame. When detection started, and when it
    /// was done.
    Detected { start: Duration, detected: Duration, seen: Vec<Seen> },
    /// The policy is about to be asked.
    Asking(Duration),
    /// The plan had been scheduled by then.
    Scheduled(Duration),
    /// Something went wrong.
    Failed,
}

/// How perception's loop ends.
#[derive(Clone, Copy, Debug, PartialEq, Eq, Structural)]
pub enum End {
    /// The recording is over.
    Over,
    /// This frame had no capture time.
    NoTimestamp(u64),
    /// A plan cannot be scheduled: the grid does not reach that far.
    OffGrid,
    /// There are too many frames to count.
    Full,
    /// Something went wrong.
    Failed,
}

/// What perception's loop does next.
pub enum Do {
    /// Sleep until then, in nanoseconds on the clock.
    Sleep(u128),
    /// Take the newest frame.
    Take,
    /// Nothing: the turn is over.
    Again,
    /// Detect tags in the frame taken.
    Detect,
    /// Ask the policy for a plan.
    Ask,
    /// Schedule this plan.
    Schedule(Plan),
    /// Record this frame, whose plan was late or not. The turn is over.
    Record { row: ObsRow, late: bool },
    /// Stop.
    Done(End),
}

/// How far perception's loop has come in its turn.
pub enum Turn {
    /// The next turn is about to begin.
    Between,
    /// It sleeps until it is to plan.
    Asleep,
    /// It takes the newest frame.
    Taking,
    /// It detects tags in this frame.
    Detecting { frame: u64, capture: Duration },
    /// It asks the policy about this frame.
    Asking {
        frame: u64,
        capture: Duration,
        tags: Vec<Option<TagRow>>,
        start: Duration,
        detected: Duration,
    },
    /// It schedules this plan.
    Scheduling {
        plan: Plan,
        tags: Vec<Option<TagRow>>,
        capture: Duration,
        start: Duration,
        detected: Duration,
        asked: Duration,
    },
    /// There is no other turn.
    Ended(End),
}

/// A frame captured from t0 on: its number, and when it was captured.
pub type Captured = (u64, Duration);

/// A plan that was scheduled: the frame it is from, its first slot, and its
/// actions.
pub type Planned = (u64, i64, Seq<i8>);

/// What a plan says.
pub open spec fn planned_as(plan: Plan) -> Planned {
    (plan.frame, plan.k_start, plan.actions@)
}

/// Whether a plan is of this frame, and starts as long after it as it is to.
pub open spec fn plan_of(grid: Grid, offset: Duration, c: Captured, p: Planned) -> bool {
    &&& p.0 == c.0
    &&& p.1 == wrap_i64(grid.first_slot_from((nanos(c.1) + nanos(offset)) as int))
}

/// Whether a row records this frame with this plan.
pub open spec fn row_of(grid: Grid, c: Captured, p: Planned, r: ObsRow) -> bool {
    &&& r.frame == c.0
    &&& r.t_capture == wrap_i64(nanos(c.1) - nanos(grid.t0))
    &&& r.frame == p.0
    &&& r.k_start == Some(p.1)
    &&& r.plan is Some
    &&& r.plan->0@ == p.2
}

/// A recording as perception runs it: it takes the newest frame whenever it is
/// to plan, detects the tags in it, and schedules and records a plan from it.
pub struct PerceiveRun {
    perceiver: Perceiver,
    policy: FakePolicy,
    turn: Turn,
    /// The frames captured from t0 on.
    captured: Ghost<Seq<Captured>>,
    /// The plans scheduled.
    plans: Ghost<Seq<Planned>>,
    /// The rows recorded.
    rows: Ghost<Seq<ObsRow>>,
}

impl PerceiveRun {
    pub closed spec fn perceiver(&self) -> Perceiver {
        self.perceiver
    }

    pub closed spec fn policy(&self) -> FakePolicy {
        self.policy
    }

    pub closed spec fn turn(&self) -> Turn {
        self.turn
    }

    /// The frames captured from t0 on, in the order they came.
    pub closed spec fn captured(&self) -> Seq<Captured> {
        self.captured@
    }

    /// The plans scheduled, oldest first.
    pub closed spec fn plans(&self) -> Seq<Planned> {
        self.plans@
    }

    /// The rows recorded, oldest first.
    pub closed spec fn rows(&self) -> Seq<ObsRow> {
        self.rows@
    }

    /// Every frame captured from t0 on is planned on and recorded in turn, and
    /// no turn begins before the one before it is over.
    pub open spec fn wf(&self) -> bool {
        let grid = self.perceiver().grid();
        let n = self.rows().len();
        &&& self.perceiver().wf()
        &&& nanos(grid.period) > 0
        &&& self.policy().range >= 0
        &&& self.policy().duty.wf()
        &&& n == self.perceiver().stats().frames
        &&& n == self.perceiver().stats().lead@.len()
        &&& n == self.perceiver().stats().detect@.len()
        &&& n <= self.plans().len() <= self.captured().len() <= n + 1
        &&& self.captured().len() == self.perceiver().stats().age@.len()
        &&& forall|i: int|
            0 <= i < self.plans().len() ==> plan_of(
                grid,
                self.perceiver().offset(),
                self.captured()[i],
                #[trigger] self.plans()[i],
            )
        &&& forall|i: int|
            0 <= i < n ==> row_of(
                grid,
                self.captured()[i],
                self.plans()[i],
                #[trigger] self.rows()[i],
            )
        &&& match self.turn() {
            Turn::Between | Turn::Asleep | Turn::Taking => self.captured().len() == n,
            Turn::Detecting { frame, capture } => {
                &&& self.perceiver().countable()
                &&& self.plans().len() == n
                &&& self.captured().len() == n + 1
                &&& self.captured().last() == (frame, capture)
            },
            Turn::Asking { frame, capture, tags, .. } => {
                &&& self.perceiver().countable()
                &&& tags@.len() == self.perceiver().ids().len()
                &&& self.plans().len() == n
                &&& self.captured().len() == n + 1
                &&& self.captured().last() == (frame, capture)
            },
            Turn::Scheduling { plan, tags, capture, .. } => {
                &&& self.perceiver().countable()
                &&& self.perceiver().can_plan(plan.k_start)
                &&& tags@.len() == self.perceiver().ids().len()
                &&& self.plans().len() == n + 1
                &&& self.plans().last() == planned_as(plan)
                &&& self.captured().last() == (plan.frame, capture)
            },
            Turn::Ended(end) => end == End::Over ==> self.captured().len() == n,
        }
    }

    /// Whether nothing has changed but how far the turn has come.
    pub open spec fn same(&self, was: Self) -> bool {
        &&& self.perceiver() == was.perceiver()
        &&& self.policy() == was.policy()
        &&& self.captured() == was.captured()
        &&& self.plans() == was.plans()
        &&& self.rows() == was.rows()
    }

    /// Whether the loop has ended so, with nothing changed.
    pub open spec fn ended(&self, was: Self, end: End, d: Do) -> bool {
        &&& self.same(was)
        &&& self.turn() == Turn::Ended(end)
        &&& d == Do::Done(end)
    }

    /// Plans every `every` from t0 on, or on every frame if that is zero, with
    /// this policy, and records the tags with these ids.
    pub fn new(
        grid: Grid,
        offset: Duration,
        every: Duration,
        ids: Vec<usize>,
        policy: FakePolicy,
    ) -> (l: Self)
        requires
            nanos(grid.period) > 0,
            policy.range >= 0,
            policy.duty.wf(),
        ensures
            l.wf(),
            l.turn() == Turn::Between,
            l.policy() == policy,
            l.perceiver().grid() == grid,
            l.perceiver().offset() == offset,
            l.perceiver().every() == nanos(every),
            l.perceiver().next_plan() == nanos(grid.t0),
            l.perceiver().ids() == ids@,
            l.perceiver().stats().before_t0 == 0,
            l.perceiver().stats().with_tag@ == Map::<u64, u64>::empty(),
            l.captured() == Seq::<Captured>::empty(),
            l.plans() == Seq::<Planned>::empty(),
            l.rows() == Seq::<ObsRow>::empty(),
    {
        PerceiveRun {
            perceiver: Perceiver::new(grid, offset, every, ids),
            policy,
            turn: Turn::Between,
            captured: Ghost(Seq::empty()),
            plans: Ghost(Seq::empty()),
            rows: Ghost(Seq::empty()),
        }
    }

    /// Stops.
    fn end(&mut self, end: End) -> (d: Do)
        ensures
            final(self).ended(*old(self), end, d),
    {
        self.turn = Turn::Ended(end);
        Do::Done(end)
    }

    /// What to do about what has happened. What does not belong where it
    /// happens counts as a failure.
    pub fn next(&mut self, e: Happened) -> (d: Do)
        requires
            old(self).wf(),
        ensures
            final(self).wf(),
            Perceiver::alike(old(self).perceiver(), final(self).perceiver()),
            final(self).rows() == (match d {
                Do::Record { row, .. } => old(self).rows().push(row),
                _ => old(self).rows(),
            }),
            final(self).plans() == (match d {
                Do::Schedule(plan) => old(self).plans().push(planned_as(plan)),
                _ => old(self).plans(),
            }),
            match (old(self).turn(), e) {
                (Turn::Between, Happened::Turn) => {
                    let p = old(self).perceiver();
                    &&& final(self).same(*old(self))
                    &&& if p.every() > 0 {
                        &&& final(self).turn() == Turn::Asleep
                        &&& d == Do::Sleep(p.next_plan() as u128)
                    } else {
                        &&& final(self).turn() == Turn::Taking
                        &&& d == Do::Take
                    }
                },
                (Turn::Between, Happened::Over) => final(self).ended(*old(self), End::Over, d),
                (Turn::Asleep, Happened::Woke(now)) => {
                    &&& Perceiver::slept(old(self).perceiver(), final(self).perceiver(), now)
                    &&& final(self).policy() == old(self).policy()
                    &&& final(self).captured() == old(self).captured()
                    &&& final(self).turn() == Turn::Taking
                    &&& d == Do::Take
                },
                (Turn::Taking, Happened::Nothing) => {
                    &&& final(self).same(*old(self))
                    &&& final(self).turn() == Turn::Between
                    &&& d == Do::Again
                },
                (Turn::Taking, Happened::Over) => final(self).ended(*old(self), End::Over, d),
                (Turn::Taking, Happened::Came { frame, t_capture, t_arrival, now }) => {
                    let p = old(self).perceiver();
                    if !p.countable() || p.stats().before_t0 == u64::MAX {
                        final(self).ended(*old(self), End::Full, d)
                    } else {
                        &&& final(self).policy() == old(self).policy()
                        &&& Perceiver::took(
                            p,
                            final(self).perceiver(),
                            t_capture,
                            t_arrival,
                            now,
                            fate_of(p.grid(), t_capture),
                        )
                        &&& match fate_of(p.grid(), t_capture) {
                            Fate::NoTimestamp => {
                                &&& final(self).captured() == old(self).captured()
                                &&& final(self).turn() == Turn::Ended(End::NoTimestamp(frame))
                                &&& d == Do::Done(End::NoTimestamp(frame))
                            },
                            Fate::BeforeT0 => {
                                &&& final(self).captured() == old(self).captured()
                                &&& final(self).turn() == Turn::Between
                                &&& d == Do::Again
                            },
                            Fate::Plan(t) => {
                                &&& final(self).captured() == old(self).captured().push((frame, t))
                                &&& final(self).turn() == (Turn::Detecting { frame, capture: t })
                                &&& d == Do::Detect
                            },
                        }
                    }
                },
                (
                    Turn::Detecting { frame, capture },
                    Happened::Detected { start, detected, seen },
                ) => {
                    &&& final(self).same(*old(self))
                    &&& d == Do::Ask
                    &&& match final(self).turn() {
                        Turn::Asking { frame: f, capture: c, tags, start: s, detected: t } => {
                            &&& (f, c, s, t) == (frame, capture, start, detected)
                            &&& tags@ == tags_seen(seen@, old(self).perceiver().ids())
                        },
                        _ => false,
                    }
                },
                (
                    Turn::Asking { frame, capture, tags, start, detected },
                    Happened::Asking(asked),
                ) => {
                    let p = old(self).perceiver();
                    let k = wrap_i64(
                        p.grid().first_slot_from((nanos(capture) + nanos(p.offset())) as int),
                    );
                    &&& final(self).perceiver() == p
                    &&& final(self).policy() == old(self).policy().next()
                    &&& final(self).captured() == old(self).captured()
                    &&& if p.can_plan(k as i64) {
                        &&& d is Schedule
                        &&& planned_as(d->Schedule_0) == (
                            frame,
                            k as i64,
                            old(self).policy().next_plan(k),
                        )
                        &&& match final(self).turn() {
                            Turn::Scheduling {
                                plan,
                                tags: g,
                                capture: c,
                                start: s,
                                detected: t,
                                asked: a,
                            } => {
                                &&& planned_as(plan) == planned_as(d->Schedule_0)
                                &&& (g, c, s, t, a) == (tags, capture, start, detected, asked)
                            },
                            _ => false,
                        }
                    } else {
                        &&& final(self).turn() == Turn::Ended(End::OffGrid)
                        &&& d == Do::Done(End::OffGrid)
                    }
                },
                (
                    Turn::Scheduling { plan, tags, capture, start, detected, asked },
                    Happened::Scheduled(planned),
                ) => {
                    let times = Times {
                        capture,
                        detect_start: start,
                        detected,
                        policy: asked,
                        planned,
                    };
                    &&& d is Record
                    &&& Perceiver::recorded(
                        old(self).perceiver(),
                        final(self).perceiver(),
                        plan,
                        tags,
                        times,
                        d->row,
                        d->late,
                    )
                    &&& final(self).policy() == old(self).policy()
                    &&& final(self).captured() == old(self).captured()
                    &&& final(self).turn() == Turn::Between
                },
                (Turn::Ended(end), _) => final(self).ended(*old(self), end, d),
                _ => final(self).ended(*old(self), End::Failed, d),
            },
    {
        let mut turn: Turn = Turn::Ended(End::Failed);
        std::mem::swap(&mut turn, &mut self.turn);
        match (turn, e) {
            (Turn::Between, Happened::Turn) => match self.perceiver.sleep_until() {
                Some(t) => {
                    self.turn = Turn::Asleep;
                    Do::Sleep(t)
                },
                None => {
                    self.turn = Turn::Taking;
                    Do::Take
                },
            },
            (Turn::Between, Happened::Over) => self.end(End::Over),
            (Turn::Asleep, Happened::Woke(now)) => {
                self.perceiver.woke(now);
                self.turn = Turn::Taking;
                Do::Take
            },
            (Turn::Taking, Happened::Nothing) => {
                self.turn = Turn::Between;
                Do::Again
            },
            (Turn::Taking, Happened::Over) => self.end(End::Over),
            (Turn::Taking, Happened::Came { frame, t_capture, t_arrival, now }) => {
                if !self.perceiver.can_take() {
                    return self.end(End::Full);
                }
                match self.perceiver.frame(t_capture, t_arrival, now) {
                    Fate::NoTimestamp => self.end(End::NoTimestamp(frame)),
                    Fate::BeforeT0 => {
                        self.turn = Turn::Between;
                        Do::Again
                    },
                    Fate::Plan(capture) => {
                        self.turn = Turn::Detecting { frame, capture };
                        proof {
                            self.captured@ = self.captured@.push((frame, capture));
                        }
                        Do::Detect
                    },
                }
            },
            (Turn::Detecting { frame, capture }, Happened::Detected { start, detected, seen }) => {
                let tags: Vec<Option<TagRow>> = tag_rows(
                    seen.as_slice(),
                    self.perceiver.ids.as_slice(),
                );
                self.turn = Turn::Asking { frame, capture, tags, start, detected };
                Do::Ask
            },
            (Turn::Asking { frame, capture, tags, start, detected }, Happened::Asking(asked)) => {
                let plan: Plan = self.perceiver.plan(&mut self.policy, frame, capture);
                if !self.perceiver.schedulable(plan.k_start) {
                    return self.end(End::OffGrid);
                }
                let scheduled = Plan {
                    frame: plan.frame,
                    k_start: plan.k_start,
                    actions: copied(&plan.actions),
                };
                proof {
                    self.plans@ = self.plans@.push(planned_as(plan));
                }
                self.turn = Turn::Scheduling { plan, tags, capture, start, detected, asked };
                Do::Schedule(scheduled)
            },
            (
                Turn::Scheduling { plan, tags, capture, start, detected, asked },
                Happened::Scheduled(planned),
            ) => {
                let times = Times {
                    capture,
                    detect_start: start,
                    detected,
                    policy: asked,
                    planned,
                };
                let (row, late) = self.perceiver.planned(&plan, tags, &times);
                proof {
                    self.rows@ = self.rows@.push(row);
                }
                self.turn = Turn::Between;
                Do::Record { row, late }
            },
            (Turn::Ended(end), _) => self.end(end),
            _ => self.end(End::Failed),
        }
    }

    /// How it went.
    pub fn finish(self) -> (stats: PerceiveStats)
        ensures
            stats == self.perceiver().stats(),
    {
        self.perceiver.finish()
    }
}

/// Every frame captured from t0 on gives one plan and one row, in the order the
/// frames came: plan and row are of that frame and say the same, and as many
/// are counted. Only of the frame being worked on there may be no plan or no
/// row yet.
pub proof fn law_every_frame_is_planned_on_and_recorded_once(l: PerceiveRun, i: int)
    requires
        l.wf(),
        0 <= i < l.rows().len(),
    ensures
        l.captured().len() <= l.rows().len() + 1,
        l.rows().len() == l.perceiver().stats().frames,
        plan_of(l.perceiver().grid(), l.perceiver().offset(), l.captured()[i], l.plans()[i]),
        row_of(l.perceiver().grid(), l.captured()[i], l.plans()[i], l.rows()[i]),
{
}

/// A recording that is over has left no frame without its plan and its row.
pub proof fn law_a_recording_leaves_no_frame_out(l: PerceiveRun)
    requires
        l.wf(),
        l.turn() == Turn::Ended(End::Over),
    ensures
        l.rows().len() == l.plans().len(),
        l.rows().len() == l.captured().len(),
        l.rows().len() == l.perceiver().stats().frames,
{
}

/// A plan starts in the first slot that begins no earlier than the offset after
/// its frame was captured.
pub proof fn law_a_plan_starts_in_the_first_slot_after_its_offset(
    grid: Grid,
    offset: Duration,
    c: Captured,
    p: Planned,
)
    requires
        nanos(grid.period) > 0,
        plan_of(grid, offset, c, p),
        i64::MIN <= grid.first_slot_from((nanos(c.1) + nanos(offset)) as int) <= i64::MAX,
    ensures
        p.0 == c.0,
        grid.slot_ns(p.1 as int) >= nanos(c.1) + nanos(offset),
        grid.slot_ns(p.1 - 1) < nanos(c.1) + nanos(offset),
{
    law_first_slot_is_the_first(grid, (nanos(c.1) + nanos(offset)) as int);
}

/// A row holds the frame's times in nanoseconds after t0, each in its own
/// column, wherever 64 bits can hold them, and the plan that was made on it.
/// The plan was late if it was ready after its first slot began, and is counted
/// with that lead.
pub proof fn law_an_observation_holds_its_times_and_its_plan(
    before: Perceiver,
    after: Perceiver,
    plan: Plan,
    tags: Vec<Option<TagRow>>,
    times: Times,
    row: ObsRow,
    late: bool,
)
    requires
        Perceiver::recorded(before, after, plan, tags, times, row, late),
        nanos(before.grid().t0) <= i64::MAX,
        nanos(times.capture) <= i64::MAX,
        nanos(times.detect_start) <= i64::MAX,
        nanos(times.detected) <= i64::MAX,
        nanos(times.policy) <= i64::MAX,
        nanos(times.planned) <= i64::MAX,
        0 <= plan.k_start,
    ensures
        ({
            let t0 = nanos(before.grid().t0);
            let starts = t0 + plan.k_start * nanos(before.grid().period);
            &&& row.frame == plan.frame
            &&& t0 + row.t_capture == nanos(times.capture)
            &&& t0 + row.t_detected == nanos(times.detected)
            &&& row.t_policy is Some
            &&& t0 + row.t_policy->0 == nanos(times.policy)
            &&& row.t_plan is Some
            &&& t0 + row.t_plan->0 == nanos(times.planned)
            &&& row.k_start == Some(plan.k_start)
            &&& row.plan is Some
            &&& row.plan->0@ == plan.actions@
            &&& row.tags@ == tags@
            &&& late <==> nanos(times.planned) > starts
            &&& after.stats().frames == before.stats().frames + 1
            &&& nanos(times.detect_start) + after.stats().detect@.last() == nanos(times.detected)
            &&& starts <= i64::MAX ==> nanos(times.planned) + after.stats().lead@.last() == starts
        }),
{
}

/// A tag is counted in a frame exactly if it was seen in it.
pub proof fn law_a_frame_counts_the_tags_it_saw(
    ids: Seq<usize>,
    tags: Seq<Option<TagRow>>,
    id: usize,
    tag: Option<TagRow>,
)
    requires
        ids.len() == tags.len(),
    ensures
        tag is Some ==> ids_seen(ids.push(id), tags.push(tag)) == ids_seen(ids, tags).push(
            id as u64,
        ),
        tag is None ==> ids_seen(ids.push(id), tags.push(tag)) == ids_seen(ids, tags),
        ids_seen(Seq::empty(), Seq::empty()) == Seq::<u64>::empty(),
{
    assert(ids.push(id).drop_last() =~= ids);
    assert(tags.push(tag).drop_last() =~= tags);
}

/// A frame is planned on if it has a timestamp, and that is not before t0.
pub proof fn law_frames_from_t0_on_are_planned_on(grid: Grid, t: Duration)
    ensures
        nanos(t) >= nanos(grid.t0) ==> fate_of(grid, Some(t)) == Fate::Plan(t),
        nanos(t) < nanos(grid.t0) ==> fate_of(grid, Some(t)) == Fate::BeforeT0,
        fate_of(grid, None) == Fate::NoTimestamp,
{
}

/// A plan's lead is counted from its first slot on, or from slot 0 if that is
/// earlier.
pub proof fn law_no_slot_comes_before_the_first(k_start: i64)
    ensures
        k_start >= 0 ==> Perceiver::first_slot(k_start) == k_start,
        k_start < 0 ==> Perceiver::first_slot(k_start) == 0,
{
}

/// An interval after the last tick is the next, and while one is still to come
/// it stays.
pub proof fn law_a_tick_to_come_stays(next: nat, every: nat, now: nat, after: nat)
    requires
        ticked(next, every, now, after),
    ensures
        next > now ==> after == next,
        every == 0 ==> after == next,
        next <= now && every > 0 ==> now < after <= now + every,
{
}

} // verus!
