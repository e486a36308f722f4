//! When a recording flushes its tables and prints a status line. Times are
//! since the logger started.

use crate::clock::{nanos, MAX_NS};
use crate::policy::HISTORY;
use crate::record::FrameRow;
use crate::stats::Stats;
use std::time::Duration;
use vstd::prelude::*;

verus! {

/// Something to be done at a fixed interval, from the first interval's end.
pub struct Ticker {
    next: u128,
    every: u128,
    /// How often it has been done.
    ticks: Ghost<nat>,
}

impl Ticker {
    /// When it is next to be done, in nanoseconds.
    pub closed spec fn next(&self) -> nat {
        self.next as nat
    }

    /// The interval, in nanoseconds. Zero is never.
    pub closed spec fn every(&self) -> nat {
        self.every as nat
    }

    /// How often it has been done.
    pub closed spec fn ticks(&self) -> nat {
        self.ticks@
    }

    pub open spec fn wf(&self) -> bool {
        &&& self.every() <= MAX_NS
        &&& self.next() <= 2 * MAX_NS
        &&& self.next() == (self.ticks() + 1) * self.every()
    }

    /// Whether it is to be done now.
    pub open spec fn is_due(&self, now: nat) -> bool {
        self.every() > 0 && now >= self.next()
    }

    pub fn new(every: Duration) -> (t: Self)
        ensures
            t.wf(),
            t.every() == nanos(every),
            t.ticks() == 0,
    {
        let every: u128 = every.as_nanos();
        assert((0 + 1) * every == every) by (nonlinear_arith);
        Ticker { next: every, every, ticks: Ghost(0) }
    }

    /// Whether it is to be done now. If so, it is next an interval after it
    /// was due, however late it is now.
    pub fn due(&mut self, now: Duration) -> (b: bool)
        requires
            old(self).wf(),
        ensures
            final(self).wf(),
            final(self).every() == old(self).every(),
            b <==> old(self).is_due(nanos(now)),
            final(self).ticks() == old(self).ticks() + (if b {
                1int
            } else {
                0
            }),
    {
        if self.every == 0 || now.as_nanos() < self.next {
            return false;
        }
        assert((self.ticks() + 1 + 1) * self.every() == (self.ticks() + 1) * self.every()
            + self.every()) by (nonlinear_arith);
        self.next = self.next + self.every;
        self.ticks = Ghost((self.ticks@ + 1) as nat);
        true
    }

    /// When the first of two is to be done, in nanoseconds, of those that
    /// ever are.
    pub fn first(&self, other: &Ticker) -> (t: u128)
        requires
            self.every() > 0,
        ensures
            t == (if other.every() > 0 && other.next() < self.next() {
                other.next()
            } else {
                self.next()
            }),
    {
        if other.every > 0 && other.next < self.next {
            other.next
        } else {
            self.next
        }
    }
}

/// Ticks fall on a fixed cadence: the one after `n` others is due `n + 1`
/// intervals from the start, late or not.
pub proof fn law_ticks_fall_on_a_fixed_cadence(t: Ticker, now: nat)
    requires
        t.wf(),
        t.every() > 0,
    ensures
        t.is_due(now) <==> now >= (t.ticks() + 1) * t.every(),
{
}

/// What is to be done now.
pub struct Due {
    /// Flush the table.
    pub flush: bool,
    /// Print a status line on this interval.
    pub status: Option<Stats>,
}

/// Keeps a run's statistics, from the rows it writes: of the whole run, and of
/// the interval since the last status line.
pub struct Logger {
    total: Stats,
    interval: Stats,
    n_tags: usize,
    flush: Ticker,
    status: Ticker,
    /// How many frames status lines have been printed on.
    reported: Ghost<nat>,
}

impl Logger {
    pub closed spec fn total(&self) -> Stats {
        self.total
    }

    pub closed spec fn interval(&self) -> Stats {
        self.interval
    }

    /// How many tags are recorded.
    pub closed spec fn n_tags(&self) -> nat {
        self.n_tags as nat
    }

    pub closed spec fn flush(&self) -> Ticker {
        self.flush
    }

    pub closed spec fn status(&self) -> Ticker {
        self.status
    }

    /// How many frames status lines have been printed on.
    pub closed spec fn reported(&self) -> nat {
        self.reported@
    }

    /// Every frame is in one status line's interval, or in the one under way.
    pub open spec fn wf(&self) -> bool {
        &&& self.total().wf()
        &&& self.interval().wf()
        &&& self.flush().wf()
        &&& self.flush().every() == 1_000_000_000
        &&& self.status().wf()
        &&& self.total().frames == self.reported() + self.interval().frames
    }

    /// Flushes every second, and prints a status line every `status_every`;
    /// none if that is zero.
    pub fn new(n_tags: usize, status_every: Duration) -> (l: Self)
        ensures
            l.wf(),
            l.n_tags() == n_tags,
            l.total().is_new(n_tags as nat),
            l.interval().is_new(n_tags as nat),
            l.flush().ticks() == 0,
            l.status().every() == nanos(status_every),
            l.status().ticks() == 0,
    {
        Logger {
            total: Stats::new(n_tags),
            interval: Stats::new(n_tags),
            n_tags,
            flush: Ticker::new(Duration::new(1, 0)),
            status: Ticker::new(status_every),
            reported: Ghost(0),
        }
    }

    /// When to look again if no row comes, in nanoseconds.
    pub fn wake(&self) -> (t: u128)
        requires
            self.wf(),
        ensures
            t == (if self.status().every() > 0 && self.status().next() < self.flush().next() {
                self.status().next()
            } else {
                self.flush().next()
            }),
    {
        self.flush.first(&self.status)
    }

    /// Counts a row. The first rows only fill the policy's history; after
    /// them, a row not acted on was skipped while the policy was busy.
    pub fn row(&mut self, r: &FrameRow)
        requires
            old(self).wf(),
            old(self).total().frames < u64::MAX,
        ensures
            final(self).wf(),
            ({
                let startup = old(self).total().frames < HISTORY - 1;
                &&& old(self).total().adds(*r, startup, final(self).total())
                &&& old(self).interval().adds(*r, startup, final(self).interval())
            }),
            final(self).n_tags() == old(self).n_tags(),
            final(self).flush() == old(self).flush(),
            final(self).status() == old(self).status(),
            final(self).reported() == old(self).reported(),
    {
        let startup: bool = self.total.frames < HISTORY as u64 - 1;
        self.total.add(r, startup);
        self.interval.add(r, startup);
    }

    /// What is to be done `now`. A status line ends its interval.
    pub fn tick(&mut self, now: Duration) -> (due: Due)
        requires
            old(self).wf(),
        ensures
            final(self).wf(),
            final(self).total() == old(self).total(),
            final(self).n_tags() == old(self).n_tags(),
            final(self).status().every() == old(self).status().every(),
            due.flush <==> old(self).flush().is_due(nanos(now)),
            final(self).flush().ticks() == old(self).flush().ticks() + (if due.flush {
                1int
            } else {
                0
            }),
            due.status is Some <==> old(self).status().is_due(nanos(now)),
            match due.status {
                Some(s) => {
                    &&& s == old(self).interval()
                    &&& final(self).interval().is_new(old(self).n_tags())
                    &&& final(self).reported() == old(self).reported() + s.frames
                    &&& final(self).status().ticks() == old(self).status().ticks() + 1
                },
                None => {
                    &&& final(self).interval() == old(self).interval()
                    &&& final(self).reported() == old(self).reported()
                    &&& final(self).status().ticks() == old(self).status().ticks()
                },
            },
    {
        let flush: bool = self.flush.due(now);
        if !self.status.due(now) {
            return Due { flush, status: None };
        }
        let mut interval: Stats = Stats::new(self.n_tags);
        std::mem::swap(&mut interval, &mut self.interval);
        self.reported = Ghost((self.reported@ + interval.frames) as nat);
        Due { flush, status: Some(interval) }
    }

    /// The account of the whole run.
    pub fn finish(self) -> (total: Stats)
        ensures
            total == self.total(),
    {
        self.total
    }
}

/// Status lines leave no frame out and count none twice: the frames of the
/// run are those reported and those of the interval under way.
pub proof fn law_status_intervals_add_up_to_the_run(l: Logger)
    requires
        l.wf(),
    ensures
        l.total().frames == l.reported() + l.interval().frames,
{
}

/// What a run does next.
#[derive(Clone, Copy, Debug, PartialEq, Eq, Structural)]
pub enum Watch {
    Run,
    Stop,
    /// Stop, and report the recording as unreliable: the board reset, so the
    /// actions around that moment were not applied.
    Abort,
}

/// What a run does next, given whether it was asked to stop, its time is
/// `over`, the board has `reset`, or a thread has `finished` on its own.
pub fn watch(stop: bool, over: bool, reset: bool, finished: bool) -> (w: Watch)
    ensures
        w == (if stop || over {
            Watch::Stop
        } else if reset {
            Watch::Abort
        } else if finished {
            Watch::Stop
        } else {
            Watch::Run
        }),
{
    if stop || over {
        Watch::Stop
    } else if reset {
        Watch::Abort
    } else if finished {
        Watch::Stop
    } else {
        Watch::Run
    }
}

} // verus!
