//! The executor: it wakes at every slot boundary, sends the action the
//! schedule assigns to that slot, and accounts for how late it had.

use crate::clock::{from_ns, nanos, wrap_i64, MAX_NS};
use crate::drive::{after, bytes, Drive, Event, Motor, Stage};
use crate::grid::{law_the_slot_in_progress_has_begun, Grid, Pick};
use crate::record::ActRow;
use std::time::Duration;
use vstd::prelude::*;

verus! {

/// Lateness histogram bin width, in nanoseconds, and how far it reaches.
pub const LATE_BIN: u128 = 100_000;

pub const LATE_BINS: usize = 1000;

/// Writes later than this, in nanoseconds, are reported as they happen.
pub const LATE_WARN: u128 = 5_000_000;

/// How many are in the first `n` bins.
pub open spec fn within(hist: Seq<u64>, n: int) -> nat
    decreases n,
{
    if n <= 0 {
        0
    } else {
        within(hist, n - 1) + hist[n - 1] as nat
    }
}

proof fn lemma_within_grows(hist: Seq<u64>, m: int, n: int)
    requires
        0 <= m <= n,
    ensures
        within(hist, m) <= within(hist, n),
    decreases n - m,
{
    if m < n {
        lemma_within_grows(hist, m, n - 1);
    }
}

proof fn lemma_within_counts_one_more(hist: Seq<u64>, i: int, n: int)
    requires
        0 <= i < hist.len(),
        0 <= n <= hist.len(),
        hist[i] < u64::MAX,
    ensures
        within(hist.update(i, (hist[i] + 1) as u64), n) == within(hist, n) + (if i < n {
            1int
        } else {
            0
        }),
    decreases n,
{
    if n > 0 {
        lemma_within_counts_one_more(hist, i, n - 1);
    }
}

proof fn lemma_within_bounds_a_bin(hist: Seq<u64>, i: int, n: int)
    requires
        0 <= i < n,
    ensures
        hist[i] <= within(hist, n),
    decreases n,
{
    if i < n - 1 {
        lemma_within_bounds_a_bin(hist, i, n - 1);
    }
}

/// How the executor did.
pub struct ExecStats {
    /// Slots written.
    pub slots: u64,
    /// Slots no plan covered.
    pub gaps: u64,
    /// Slots written later than [`LATE_WARN`].
    pub late: u64,
    /// Slots passed over.
    pub skipped: u64,
    /// The latest write, in nanoseconds.
    pub worst: u128,
    /// Lateness in [`LATE_BIN`] steps; the last bin collects everything
    /// beyond.
    pub hist: Vec<u64>,
}

impl ExecStats {
    /// Every slot written is in the histogram.
    pub open spec fn wf(&self) -> bool {
        &&& self.hist@.len() == LATE_BINS + 1
        &&& within(self.hist@, LATE_BINS + 1) == self.slots
        &&& self.gaps <= self.slots
        &&& self.late <= self.slots
    }

    /// How many of the slots written make up `percent` of them, at least one.
    pub open spec fn share(&self, percent: nat) -> nat {
        let n = (self.slots * percent + 99) as nat / 100;
        if n == 0 {
            1
        } else {
            n
        }
    }

    /// The lateness that `percent` of the slots written stayed within, to the
    /// bin.
    pub fn quantile(&self, percent: u64) -> (t: Duration)
        requires
            self.wf(),
            percent <= 100,
        ensures
            self.slots == 0 ==> nanos(t) == 0,
            self.slots > 0 ==> exists|i: int|
                #![trigger within(self.hist@, i)]
                0 <= i <= LATE_BINS && nanos(t) == LATE_BIN * i && within(self.hist@, i)
                    < self.share(percent as nat) <= within(self.hist@, i + 1),
    {
        proof {
            assert(0 <= self.slots * percent <= self.slots * 100) by (nonlinear_arith)
                requires
                    percent <= 100,
            ;
        }
        let share: u128 = (self.slots as u128 * percent as u128 + 99) / 100;
        let target: u128 = if share == 0 {
            1
        } else {
            share
        };
        let mut seen: u128 = 0;
        let mut i: usize = 0;
        while i < self.hist.len()
            invariant
                self.wf(),
                i <= self.hist@.len(),
                seen == within(self.hist@, i as int),
                seen < target,
                target == self.share(percent as nat),
            decreases self.hist@.len() - i,
        {
            proof {
                lemma_within_grows(self.hist@, i + 1, LATE_BINS + 1);
            }
            seen = seen + self.hist[i] as u128;
            if seen >= target {
                assert(within(self.hist@, i as int) < target);
                return from_ns(LATE_BIN * i as u128);
            }
            i = i + 1;
        }
        assert(self.slots == 0) by {
            assert(self.slots > 0 ==> (self.slots * percent + 99) / 100 <= self.slots)
                by (nonlinear_arith)
                requires
                    percent <= 100,
                    0 <= self.slots * percent <= self.slots * 100,
            ;
        }
        from_ns(0)
    }
}

/// `a` later than `b`, in nanoseconds; none if it is earlier.
pub open spec fn late_by(a: int, b: int) -> int {
    if a > b {
        a - b
    } else {
        0
    }
}

/// The histogram bin for a write this late.
pub open spec fn late_bin(late: int) -> int {
    if late / LATE_BIN as int > LATE_BINS {
        LATE_BINS as int
    } else {
        late / LATE_BIN as int
    }
}

/// Slots passed over.
#[derive(Clone, Copy, Debug, PartialEq, Eq, Structural)]
pub struct Skip {
    /// The first slot passed over.
    pub from: i64,
    /// The slot that is written instead.
    pub to: i64,
}

/// A slot that was written.
pub struct Written {
    pub row: ActRow,
    /// How late it was written, in nanoseconds.
    pub late: u128,
    /// Whether that is to be reported.
    pub warn: bool,
}

/// The executor's side of a recording: the slot it is to write next.
pub struct Executor {
    grid: Grid,
    k: i64,
    stats: ExecStats,
}

impl Executor {
    pub closed spec fn grid(&self) -> Grid {
        self.grid
    }

    /// The slot to write next.
    pub closed spec fn next(&self) -> int {
        self.k as int
    }

    pub closed spec fn stats(&self) -> ExecStats {
        self.stats
    }

    /// Every slot before the next was written or skipped, and none was both.
    pub open spec fn wf(&self) -> bool {
        &&& self.stats().wf()
        &&& self.stats().slots + self.stats().skipped == self.next()
    }

    /// Whether the next slot can be scheduled: its number fits in 32 bits, and
    /// its time in a [`Duration`].
    pub open spec fn on_grid(&self) -> bool {
        self.next() <= u32::MAX && self.grid().slot_ns(self.next()) <= MAX_NS
    }

    /// What waking at `now` changes: more than a slot behind, the next slot is
    /// the one in progress, and those between are skipped.
    pub open spec fn woken(
        before: Executor,
        after: Executor,
        now: Duration,
        skip: Option<Skip>,
    ) -> bool {
        let grid = before.grid();
        let current = wrap_i64((nanos(now) - nanos(grid.t0)) / (nanos(grid.period) as int));
        let behind = nanos(now) >= nanos(grid.t0) && current > before.next();
        &&& after.grid() == grid
        &&& skip == (if behind {
            Some(Skip { from: before.next() as i64, to: current as i64 })
        } else {
            None
        })
        &&& after.next() == (if behind {
            current
        } else {
            before.next()
        })
        &&& after.stats() == (ExecStats { skipped: after.stats().skipped, ..before.stats() })
    }

    /// What sending `pick` for the next slot changes, if it was written at
    /// `now`, and how it is recorded.
    pub open spec fn sent(
        before: Executor,
        after: Executor,
        pick: Pick,
        now: Duration,
        w: Written,
    ) -> bool {
        let had = before.stats();
        let has = after.stats();
        let bin = late_bin(w.late as int);
        &&& after.grid() == before.grid()
        &&& after.next() == before.next() + 1
        &&& w.late == late_by(nanos(now) as int, before.grid().slot_ns(before.next()))
        &&& w.warn <==> w.late > LATE_WARN
        &&& w.row == (ActRow {
            slot: before.next() as i64,
            action: pick.value(),
            frame: match pick {
                Pick::Plan { frame, .. } => Some(frame),
                Pick::Gap => None,
            },
            index: match pick {
                Pick::Plan { index, .. } => Some(index),
                Pick::Gap => None,
            },
        })
        &&& has.slots == had.slots + 1
        &&& has.skipped == had.skipped
        &&& has.gaps == had.gaps + (if pick is Gap {
            1int
        } else {
            0
        })
        &&& has.late == had.late + (if w.warn {
            1int
        } else {
            0
        })
        &&& has.worst == (if w.late > had.worst {
            w.late
        } else {
            had.worst
        })
        &&& has.hist@ == had.hist@.update(bin, (had.hist@[bin] + 1) as u64)
    }

    /// Starts at slot 0.
    pub fn new(grid: Grid) -> (e: Self)
        ensures
            e.wf(),
            e.grid() == grid,
            e.next() == 0,
            e.stats().slots == 0,
            e.stats().gaps == 0,
            e.stats().late == 0,
            e.stats().skipped == 0,
            e.stats().worst == 0,
            e.stats().hist@ == Seq::new((LATE_BINS + 1) as nat, |i: int| 0u64),
    {
        let mut hist: Vec<u64> = Vec::new();
        let mut i: usize = 0;
        while i < LATE_BINS + 1
            invariant
                i <= LATE_BINS + 1,
                hist@ == Seq::new(i as nat, |i: int| 0u64),
                within(hist@, i as int) == 0,
            decreases LATE_BINS + 1 - i,
        {
            let ghost before = hist@;
            hist.push(0);
            proof {
                lemma_within_of_more(before, hist@, i as int);
            }
            i = i + 1;
            assert(hist@ =~= Seq::new(i as nat, |i: int| 0u64));
        }
        Executor {
            grid,
            k: 0,
            stats: ExecStats { slots: 0, gaps: 0, late: 0, skipped: 0, worst: 0, hist },
        }
    }

    /// The slot to write next.
    pub fn slot(&self) -> (k: i64)
        ensures
            k == self.next(),
    {
        self.k
    }

    /// Whether the next slot can be scheduled.
    pub fn can_schedule(&self) -> (b: bool)
        requires
            self.wf(),
        ensures
            b == self.on_grid(),
    {
        if self.k > u32::MAX as i64 {
            return false;
        }
        let period: u128 = self.grid.period.as_nanos();
        let t0: u128 = self.grid.t0.as_nanos();
        proof {
            let k = self.k as int;
            assert(0 <= k * period <= 0xffff_ffff * MAX_NS) by (nonlinear_arith)
                requires
                    0 <= k <= 0xffff_ffff,
                    0 <= period <= MAX_NS,
            ;
        }
        t0 + self.k as u128 * period <= MAX_NS
    }

    /// When the next slot begins.
    pub fn deadline(&self) -> (t: Duration)
        requires
            self.wf(),
            self.on_grid(),
        ensures
            nanos(t) == self.grid().slot_ns(self.next()),
    {
        self.grid.slot_time(self.k)
    }

    /// The executor has slept until its deadline, and it is now `now`. More
    /// than a slot behind, it skips ahead rather than send a burst of stale
    /// actions. The board keeps the last duty meanwhile, and the skipped slots
    /// are missing from the actions table.
    pub fn wake(&mut self, now: Duration) -> (skip: Option<Skip>)
        requires
            old(self).wf(),
            nanos(old(self).grid().period) > 0,
        ensures
            final(self).wf(),
            Self::woken(*old(self), *final(self), now, skip),
    {
        match self.grid.slot_at(now) {
            Some(current) => {
                if current > self.k {
                    let from: i64 = self.k;
                    self.stats.skipped = self.stats.skipped + (current - from) as u64;
                    self.k = current;
                    Some(Skip { from, to: current })
                } else {
                    None
                }
            },
            None => None,
        }
    }

    /// Records that `pick` was sent for the next slot, at `now`.
    pub fn wrote(&mut self, pick: Pick, now: Duration) -> (w: Written)
        requires
            old(self).wf(),
            old(self).on_grid(),
        ensures
            final(self).wf(),
            Self::sent(*old(self), *final(self), pick, now, w),
    {
        let k: i64 = self.k;
        let due: u128 = self.grid.slot_time(k).as_nanos();
        let now: u128 = now.as_nanos();
        let late: u128 = if now > due {
            now - due
        } else {
            0
        };
        let bin: usize = if late / LATE_BIN > LATE_BINS as u128 {
            LATE_BINS
        } else {
            (late / LATE_BIN) as usize
        };
        proof {
            lemma_within_bounds_a_bin(self.stats.hist@, bin as int, LATE_BINS + 1);
            lemma_within_counts_one_more(self.stats.hist@, bin as int, LATE_BINS + 1);
        }
        let n: u64 = self.stats.hist[bin];
        self.stats.hist.set(bin, n + 1);
        self.stats.slots = self.stats.slots + 1;
        if late > self.stats.worst {
            self.stats.worst = late;
        }
        let warn: bool = late > LATE_WARN;
        if warn {
            self.stats.late = self.stats.late + 1;
        }
        let (frame, index) = match pick {
            Pick::Plan { frame, index, .. } => (Some(frame), Some(index)),
            Pick::Gap => {
                self.stats.gaps = self.stats.gaps + 1;
                (None, None)
            },
        };
        self.k = k + 1;
        Written { row: ActRow { slot: k, action: pick.action(), frame, index }, late, warn }
    }

    /// How it did.
    pub fn finish(self) -> (stats: ExecStats)
        ensures
            stats == self.stats(),
    {
        self.stats
    }
}

proof fn lemma_within_of_more(hist: Seq<u64>, more: Seq<u64>, n: int)
    requires
        0 <= n <= hist.len(),
        more.len() >= hist.len(),
        forall|i: int| 0 <= i < n ==> hist[i] == more[i],
    ensures
        within(hist, n) == within(more, n),
    decreases n,
{
    if n > 0 {
        lemma_within_of_more(hist, more, n - 1);
    }
}

/// No slot is sent twice and none is forgotten: of the slots before the next,
/// each was written or skipped, and the two counts add up.
pub proof fn law_every_slot_is_written_or_skipped(e: Executor)
    requires
        e.wf(),
    ensures
        e.next() == e.stats().slots + e.stats().skipped,
{
}

/// After waking, the executor is never a whole slot behind: the slot it writes
/// is the one in progress, or one still to come.
pub proof fn law_the_executor_sends_no_stale_action(grid: Grid, now: int, next: int)
    requires
        nanos(grid.period) > 0,
        now >= nanos(grid.t0),
        next >= (now - nanos(grid.t0)) / (nanos(grid.period) as int),
    ensures
        now < grid.slot_ns(next + 1),
{
    let k = (now - nanos(grid.t0)) / (nanos(grid.period) as int);
    law_the_slot_in_progress_has_begun(grid, now);
    assert((k + 1) * nanos(grid.period) <= (next + 1) * nanos(grid.period)) by (nonlinear_arith)
        requires
            k <= next,
            nanos(grid.period) > 0,
    ;
}

/// What has happened in the executor's loop.
pub enum Happened {
    /// A turn begins, and the recording goes on.
    Turn,
    /// A turn would begin, and the recording is over.
    Over,
    /// The executor slept until now.
    Woke(Duration),
    /// The schedule has this for the slot asked for.
    Picked(Pick),
    /// The byte has been written by now.
    Wrote(Duration),
    /// Something went wrong.
    Failed,
}

/// What the executor's loop does next.
pub enum Do {
    /// Sleep until then.
    Sleep(Duration),
    /// Ask the schedule for this slot. Some slots may have been passed over.
    Pick { slot: i64, skip: Option<Skip> },
    /// Write this byte.
    Write(u8),
    /// Record this slot. The turn is over.
    Record(Written),
    /// Write this byte, and see that it leaves.
    Halt(u8),
    /// Write nothing more. Whether all went well.
    Done { ok: bool },
}

/// How far the executor's loop has come in its turn.
#[derive(Clone, Copy, Debug, PartialEq, Eq, Structural)]
pub enum Turn {
    /// The next turn is about to begin.
    Between,
    /// It sleeps until the next slot begins.
    Asleep,
    /// It asks the schedule.
    Picking,
    /// It writes the action picked.
    Writing(Pick),
    /// There is no other turn.
    Ended,
}

/// The actions of some slots.
pub open spec fn actions_of(rows: Seq<ActRow>) -> Seq<i8> {
    rows.map_values(|r: ActRow| r.action)
}

/// How many of some slots no plan covered.
pub open spec fn gaps_in(rows: Seq<ActRow>) -> nat
    decreases rows.len(),
{
    if rows.len() == 0 {
        0
    } else {
        gaps_in(rows.drop_last()) + (if rows.last().frame is None {
            1nat
        } else {
            0
        })
    }
}

/// Whether the slots come one after the other, and a gap is a zero of no plan.
pub open spec fn in_turn(rows: Seq<ActRow>) -> bool {
    &&& forall|i: int, j: int| 0 <= i < j < rows.len() ==> rows[i].slot < rows[j].slot
    &&& forall|i: int|
        0 <= i < rows.len() ==> {
            &&& (#[trigger] rows[i]).frame is None <==> rows[i].index is None
            &&& rows[i].frame is None ==> rows[i].action == 0
        }
}

/// Whether what was written and recorded so far leaves off where the executor
/// is: every slot before its next was recorded or skipped.
pub open spec fn caught_up(rows: Seq<ActRow>, e: Executor) -> bool {
    e.next() == (if rows.len() > 0 {
        rows.last().slot + 1
    } else {
        0
    })
}

/// The executor's loop: at every slot boundary it sends the action the
/// schedule has, until the recording is over, and then it stops the motor.
pub struct ExecuteLoop {
    executor: Executor,
    motor: Motor,
    turn: Turn,
    /// The slots recorded.
    rows: Ghost<Seq<ActRow>>,
}

impl ExecuteLoop {
    pub closed spec fn executor(&self) -> Executor {
        self.executor
    }

    pub closed spec fn motor(&self) -> Motor {
        self.motor
    }

    pub closed spec fn turn(&self) -> Turn {
        self.turn
    }

    /// The slots recorded, oldest first.
    pub closed spec fn rows(&self) -> Seq<ActRow> {
        self.rows@
    }

    /// Whether everything so far went well.
    pub open spec fn well(&self) -> bool {
        self.motor().stage() != (Stage::Stopping { failed: true }) && self.motor().stage() != (
        Stage::Stopped { failed: true })
    }

    /// What was written is what was recorded, and an action still being
    /// written.
    pub open spec fn wf(&self) -> bool {
        &&& self.executor().wf()
        &&& self.motor().wf()
        &&& nanos(self.executor().grid().period) > 0
        &&& in_turn(self.rows())
        &&& self.rows().len() == self.executor().stats().slots
        &&& gaps_in(self.rows()) == self.executor().stats().gaps
        &&& self.rows().len() > 0 ==> self.rows().last().slot < self.executor().next()
        &&& self.motor().stage() == Stage::Ready <==> self.turn() is Between || self.turn()
            is Asleep || self.turn() is Picking
        &&& self.motor().stage() == Stage::Writing <==> self.turn() is Writing
        &&& self.turn() is Picking || self.turn() is Writing ==> self.executor().on_grid()
        &&& self.turn() is Between || self.turn() is Asleep || (self.turn() is Ended
            && self.well()) ==> caught_up(self.rows(), self.executor())
        &&& match self.turn() {
            Turn::Writing(pick) => self.motor().actions() == actions_of(self.rows()).push(
                pick.value(),
            ),
            Turn::Ended => {
                ||| self.motor().actions() == actions_of(self.rows())
                ||| !self.well() && self.motor().actions().len() > 0
                    && self.motor().actions().drop_last() == actions_of(self.rows())
            },
            _ => self.motor().actions() == actions_of(self.rows()),
        }
    }

    /// Whether the loop has given up: the motor is to be stopped.
    pub open spec fn halted(&self, was: Self, d: Do) -> bool {
        &&& self.turn() is Ended
        &&& d == Do::Halt(0)
        &&& self.motor().stage() == (Stage::Stopping { failed: true })
        &&& self.motor().actions() == was.motor().actions()
        &&& self.executor().stats().slots == was.executor().stats().slots
    }

    /// Starts at slot 0.
    pub fn new(grid: Grid) -> (l: Self)
        requires
            nanos(grid.period) > 0,
        ensures
            l.wf(),
            l.turn() == Turn::Between,
            l.executor().grid() == grid,
            l.executor().next() == 0,
            l.rows() == Seq::<ActRow>::empty(),
            l.motor().asked() == Seq::<u8>::empty(),
    {
        let l = ExecuteLoop {
            executor: Executor::new(grid),
            motor: Motor::new(),
            turn: Turn::Between,
            rows: Ghost(Seq::empty()),
        };
        assert(l.motor().actions() =~= actions_of(l.rows()));
        l
    }

    /// Gives up: the motor is to be stopped.
    fn fail(&mut self) -> (d: Do)
        requires
            old(self).executor().wf(),
            old(self).motor().wf(),
            old(self).motor().stage() == Stage::Ready || old(self).motor().stage()
                == Stage::Writing,
        ensures
            final(self).halted(*old(self), d),
            final(self).motor().wf(),
            final(self).executor() == old(self).executor(),
            final(self).rows() == old(self).rows(),
    {
        self.turn = Turn::Ended;
        match self.motor.next(Event::Failed) {
            Drive::Halt(b) => Do::Halt(b),
            _ => Do::Halt(0),
        }
    }

    /// What to do about what has happened. A slot that cannot be scheduled, and
    /// what does not belong where it happens, count as failures. Once the
    /// recording is over or has failed, one write is left, and it stops the
    /// motor.
    pub fn next(&mut self, e: Happened) -> (d: Do)
        requires
            old(self).wf(),
        ensures
            final(self).wf(),
            final(self).executor().grid() == old(self).executor().grid(),
            final(self).rows() == (match d {
                Do::Record(w) => old(self).rows().push(w.row),
                _ => old(self).rows(),
            }),
            final(self).motor().asked() == (match d {
                Do::Write(b) => old(self).motor().asked().push(b),
                Do::Halt(b) => old(self).motor().asked().push(b),
                _ => old(self).motor().asked(),
            }),
            match (old(self).turn(), e) {
                (Turn::Between, Happened::Turn) => if old(self).executor().on_grid() {
                    &&& final(self).turn() == Turn::Asleep
                    &&& final(self).executor() == old(self).executor()
                    &&& d is Sleep
                    &&& nanos(d->Sleep_0) == old(self).executor().grid().slot_ns(
                        old(self).executor().next(),
                    )
                } else {
                    &&& final(self).halted(*old(self), d)
                    &&& final(self).executor() == old(self).executor()
                },
                (Turn::Between, Happened::Over) => {
                    &&& final(self).turn() == Turn::Ended
                    &&& final(self).executor() == old(self).executor()
                    &&& final(self).motor().stage() == (Stage::Stopping { failed: false })
                    &&& d == Do::Halt(0)
                },
                (Turn::Asleep, Happened::Woke(now)) => exists|skip: Option<Skip>|
                    {
                        &&& #[trigger] Executor::woken(
                            old(self).executor(),
                            final(self).executor(),
                            now,
                            skip,
                        )
                        &&& if final(self).executor().on_grid() {
                            &&& final(self).turn() == Turn::Picking
                            &&& d == (Do::Pick {
                                slot: final(self).executor().next() as i64,
                                skip,
                            })
                        } else {
                            final(self).halted(*old(self), d)
                        }
                    },
                (Turn::Picking, Happened::Picked(pick)) => {
                    &&& final(self).turn() == Turn::Writing(pick)
                    &&& final(self).executor() == old(self).executor()
                    &&& d == Do::Write((pick.value() as int % 256) as u8)
                },
                (Turn::Writing(pick), Happened::Wrote(now)) => {
                    &&& final(self).turn() == Turn::Between
                    &&& d is Record
                    &&& Executor::sent(
                        old(self).executor(),
                        final(self).executor(),
                        pick,
                        now,
                        d->Record_0,
                    )
                },
                (Turn::Ended, e) => {
                    let told = if e is Wrote {
                        Event::Written
                    } else {
                        Event::Failed
                    };
                    &&& final(self).turn() == Turn::Ended
                    &&& final(self).executor() == old(self).executor()
                    &&& final(self).motor().stage() == after(old(self).motor().stage(), told).0
                    &&& final(self).motor().stage() is Stopped
                    &&& d == (Do::Done { ok: final(self).well() })
                },
                _ => {
                    &&& final(self).halted(*old(self), d)
                    &&& final(self).executor() == old(self).executor()
                },
            },
    {
        match self.turn {
            Turn::Between => match e {
                Happened::Turn => {
                    if !self.executor.can_schedule() {
                        return self.fail();
                    }
                    self.turn = Turn::Asleep;
                    Do::Sleep(self.executor.deadline())
                },
                Happened::Over => {
                    self.turn = Turn::Ended;
                    match self.motor.next(Event::Over) {
                        Drive::Halt(b) => Do::Halt(b),
                        _ => Do::Halt(0),
                    }
                },
                _ => self.fail(),
            },
            Turn::Asleep => match e {
                Happened::Woke(now) => {
                    let skip: Option<Skip> = self.executor.wake(now);
                    if !self.executor.can_schedule() {
                        return self.fail();
                    }
                    self.turn = Turn::Picking;
                    Do::Pick { slot: self.executor.slot(), skip }
                },
                _ => self.fail(),
            },
            Turn::Picking => match e {
                Happened::Picked(pick) => {
                    self.turn = Turn::Writing(pick);
                    match self.motor.next(Event::Action(pick.action())) {
                        Drive::Write(b) => Do::Write(b),
                        _ => Do::Write(0),
                    }
                },
                _ => self.fail(),
            },
            Turn::Writing(pick) => match e {
                Happened::Wrote(now) => {
                    let _ = self.motor.next(Event::Written);
                    let w = self.executor.wrote(pick, now);
                    self.turn = Turn::Between;
                    proof {
                        let rows = old(self).rows();
                        self.rows@ = rows.push(w.row);
                        assert(self.rows@.drop_last() =~= rows);
                        assert(actions_of(self.rows@) =~= actions_of(rows).push(w.row.action));
                    }
                    Do::Record(w)
                },
                _ => {
                    assert(self.motor.actions().drop_last() =~= actions_of(self.rows()));
                    self.fail()
                },
            },
            Turn::Ended => {
                let told: Event = match e {
                    Happened::Wrote(_) => Event::Written,
                    _ => Event::Failed,
                };
                match self.motor.next(told) {
                    Drive::Done { ok } => Do::Done { ok },
                    _ => Do::Done { ok: false },
                }
            },
        }
    }

    /// How it did.
    pub fn finish(self) -> (stats: ExecStats)
        ensures
            stats == self.executor().stats(),
    {
        self.executor.finish()
    }
}

/// However a run of the executor ends, the last byte written stops the motor.
pub proof fn law_a_run_ends_with_a_zero(l: ExecuteLoop)
    requires
        l.wf(),
        l.turn() is Ended,
    ensures
        l.motor().asked().len() > 0,
        l.motor().asked().last() == 0,
{
}

/// A run that went well wrote the actions it recorded, in order, and a zero
/// after them. It recorded one row for each slot it counts, slot after slot,
/// each lateness in the histogram, and a gap for each row of no plan. The last
/// slot recorded is the last of those written or skipped.
pub proof fn law_a_run_records_what_it_wrote(l: ExecuteLoop)
    requires
        l.wf(),
        l.turn() is Ended,
        l.well(),
    ensures
        l.motor().asked() == bytes(actions_of(l.rows())).push(0),
        in_turn(l.rows()),
        l.rows().len() == l.executor().stats().slots,
        gaps_in(l.rows()) == l.executor().stats().gaps,
        within(l.executor().stats().hist@, LATE_BINS + 1) == l.executor().stats().slots,
        l.rows().len() > 0 ==> l.rows().last().slot + 1 == l.executor().stats().slots
            + l.executor().stats().skipped,
{
}

/// A lateness is in the bin of its tenth of a millisecond, and from a tenth of
/// a second on in the last. What is on time or early is not late at all.
pub proof fn law_a_lateness_is_in_its_bin(at: int, due: int, bin: int, rest: int)
    requires
        0 <= rest < 100_000,
        0 <= bin,
    ensures
        bin < 1_000 ==> late_bin(bin * 100_000 + rest) == bin,
        bin >= 1_000 ==> late_bin(bin * 100_000 + rest) == 1_000,
        at >= due ==> due + late_by(at, due) == at,
        at <= due ==> late_by(at, due) == 0,
{
}

/// How many are in the first bins is how many are in each of them together.
pub proof fn law_the_first_bins_add_up(hist: Seq<u64>, n: int)
    requires
        0 <= n < hist.len(),
    ensures
        within(hist, 0) == 0,
        within(hist, n + 1) == within(hist, n) + hist[n],
{
}

/// The share of some slots is the fewest that are at least that part of them,
/// and never none.
pub proof fn law_a_share_is_the_fewest_that_is_enough(s: ExecStats, percent: nat)
    requires
        percent <= 100,
    ensures
        s.share(percent) >= 1,
        100 * s.share(percent) >= s.slots * percent,
        s.share(percent) > 1 ==> 100 * (s.share(percent) - 1) < s.slots * percent,
{
}

/// What is recorded of a slot that was sent: its number, what was sent, and
/// the plan it came from, if there was one; late by as long as it was written
/// after its time on the grid.
pub proof fn law_a_slot_sent_is_recorded(
    before: Executor,
    after: Executor,
    pick: Pick,
    now: Duration,
    w: Written,
)
    requires
        Executor::sent(before, after, pick, now, w),
        0 <= before.next() <= i64::MAX,
    ensures
        w.row.slot == before.next(),
        after.next() == before.next() + 1,
        ({
            let due = nanos(before.grid().t0) + before.next() * nanos(before.grid().period);
            &&& nanos(now) >= due ==> due + w.late == nanos(now)
            &&& nanos(now) < due ==> w.late == 0
        }),
        w.warn <==> w.late > 5_000_000,
        pick matches Pick::Plan { frame, index, action } ==> {
            &&& w.row.action == action
            &&& w.row.frame == Some(frame)
            &&& w.row.index == Some(index)
            &&& after.stats().gaps == before.stats().gaps
        },
        pick is Gap ==> {
            &&& w.row.action == 0
            &&& w.row.frame is None
            &&& w.row.index is None
            &&& after.stats().gaps == before.stats().gaps + 1
        },
        after.stats().slots == before.stats().slots + 1,
        w.late > 5_000_000 ==> after.stats().late == before.stats().late + 1,
        w.late <= 5_000_000 ==> after.stats().late == before.stats().late,
{
}

/// Waking late moves on to the slot in progress, and waking in time to none
/// other than the next.
pub proof fn law_waking_moves_on_to_the_slot_in_progress(
    before: Executor,
    after: Executor,
    now: Duration,
    skip: Option<Skip>,
    k: int,
)
    requires
        Executor::woken(before, after, now, skip),
        nanos(before.grid().period) > 0,
        before.grid().slot_ns(k) <= nanos(now) < before.grid().slot_ns(k + 1),
        0 <= before.next() <= i64::MAX,
        0 <= k <= i64::MAX,
    ensures
        k > before.next() ==> after.next() == k,
        k > before.next() ==> skip == Some(Skip { from: before.next() as i64, to: k as i64 }),
        k <= before.next() ==> after.next() == before.next() && skip is None,
{
    let p = nanos(before.grid().period) as int;
    let t = nanos(now) - nanos(before.grid().t0);
    assert(t / p == k && t >= 0) by (nonlinear_arith)
        requires
            p > 0,
            k >= 0,
            k * p <= t < (k + 1) * p,
    ;
}

/// A slot sent is counted in the bin of its lateness, and in no other, and the
/// worst lateness is the greatest there has been.
pub proof fn law_a_lateness_is_counted_in_its_bin(
    before: Executor,
    after: Executor,
    pick: Pick,
    now: Duration,
    w: Written,
    bin: int,
)
    requires
        Executor::sent(before, after, pick, now, w),
        before.stats().hist@.len() == 1_001,
        0 <= bin <= 1_000,
        before.stats().hist@[bin] < u64::MAX,
    ensures
        ({
            let had = before.stats().hist@[bin];
            let has = after.stats().hist@[bin];
            let here = bin * 100_000 <= w.late && (bin == 1_000 || w.late < bin * 100_000
                + 100_000);
            &&& here ==> has == had + 1
            &&& !here ==> has == had
        }),
        after.stats().worst >= w.late,
        after.stats().worst >= before.stats().worst,
        after.stats().worst == w.late || after.stats().worst == before.stats().worst,
{
}

} // verus!
