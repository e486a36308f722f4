//! An account of a run: how many frames came, what became of them, and how
//! long everything took. Times are in nanoseconds.

use crate::clock::nanos;
use crate::policy::DutyCycle;
use crate::record::FrameRow;
use std::collections::BTreeMap;
use vstd::prelude::*;

verus! {

/// Whether numbers are in ascending order.
pub open spec fn ascending(s: Seq<i128>) -> bool {
    forall|i: int, j: int| 0 <= i <= j < s.len() ==> s[i] <= s[j]
}

/// `slice::sort` puts numbers in ascending order: the same numbers, each as
/// often as before.
#[verifier::external_body]
pub(crate) fn sort(v: &mut Vec<i128>)
    ensures
        ascending(final(v)@),
        final(v)@.to_multiset() == old(v)@.to_multiset(),
{
    v.sort();
}

/// Four order statistics of some times.
#[derive(Clone, Copy, Debug, PartialEq, Eq, Structural)]
pub struct Quantiles {
    pub min: i128,
    pub median: i128,
    pub p95: i128,
    pub max: i128,
}

/// The index of the `percent` quantile of `n` numbers in ascending order: the
/// nearest to that part of the way, and the later one of two as near.
pub open spec fn rank(n: nat, percent: nat) -> int {
    ((n - 1) * percent + 50) / 100
}

/// The index of the `percent` quantile.
fn rank_of(n: usize, percent: u64) -> (k: usize)
    requires
        n > 0,
        percent <= 100,
    ensures
        k == rank(n as nat, percent as nat),
        k < n,
{
    let last: u128 = (n - 1) as u128;
    proof {
        assert(last * percent <= last * 100) by (nonlinear_arith)
            requires
                percent <= 100,
        ;
    }
    ((last * percent as u128 + 50) / 100) as usize
}

/// The quantiles of these numbers once they are in order.
pub open spec fn quantiles_of(ordered: Seq<i128>) -> Quantiles {
    Quantiles {
        min: ordered[rank(ordered.len(), 0)],
        median: ordered[rank(ordered.len(), 50)],
        p95: ordered[rank(ordered.len(), 95)],
        max: ordered[rank(ordered.len(), 100)],
    }
}

/// The least, the median, the 95th percentile and the greatest of some
/// numbers, if there are any.
pub fn quantiles(v: Vec<i128>) -> (q: Option<Quantiles>)
    ensures
        q is Some <==> v@.len() > 0,
        q is Some ==> exists|ordered: Seq<i128>| #[trigger]
            ascending(ordered) && ordered.to_multiset() == v@.to_multiset() && q->0 == quantiles_of(
                ordered,
            ),
{
    let mut v = v;
    if v.len() == 0 {
        return None;
    }
    let ghost given = v@;
    sort(&mut v);
    proof {
        given.to_multiset_ensures();
        v@.to_multiset_ensures();
    }
    let n: usize = v.len();
    Some(
        Quantiles {
            min: v[rank_of(n, 0)],
            median: v[rank_of(n, 50)],
            p95: v[rank_of(n, 95)],
            max: v[rank_of(n, 100)],
        },
    )
}

/// Numbers have one ascending order, so their quantiles depend on the numbers
/// alone.
pub proof fn law_quantiles_depend_on_the_numbers_alone(a: Seq<i128>, b: Seq<i128>)
    requires
        ascending(a),
        ascending(b),
        a.to_multiset() == b.to_multiset(),
    ensures
        a == b,
    decreases a.len(),
{
    a.to_multiset_ensures();
    b.to_multiset_ensures();
    if a.len() > 0 {
        assert(a.to_multiset().contains(a.last()));
        assert(b.to_multiset().contains(b.last()));
        assert(b.contains(a.last()));
        assert(a.contains(b.last()));
        assert(a.last() == b.last());
        assert(a =~= a.drop_last().push(a.last()));
        assert(b =~= b.drop_last().push(b.last()));
        a.drop_last().to_multiset_ensures();
        b.drop_last().to_multiset_ensures();
        assert(a.drop_last().to_multiset() =~= a.to_multiset().remove(a.last()));
        assert(b.drop_last().to_multiset() =~= b.to_multiset().remove(b.last()));
        law_quantiles_depend_on_the_numbers_alone(a.drop_last(), b.drop_last());
    } else {
        assert(a =~= b);
    }
}

/// The greatest of some numbers and zero.
pub fn slowest(v: &Vec<i128>) -> (m: i128)
    ensures
        m >= 0,
        m == 0 || v@.contains(m),
        forall|i: int| 0 <= i < v@.len() ==> #[trigger] v@[i] <= m,
{
    let mut m: i128 = 0;
    let mut i: usize = 0;
    while i < v.len()
        invariant
            i <= v@.len(),
            m >= 0,
            m == 0 || v@.contains(m),
            forall|j: int| 0 <= j < i ==> #[trigger] v@[j] <= m,
        decreases v@.len() - i,
    {
        if v[i] > m {
            m = v[i];
            assert(v@.contains(m));
        }
        i = i + 1;
    }
    m
}

/// What the arm was doing at the last frame of an interval.
#[derive(Clone, Copy, Debug, PartialEq, Eq, Structural)]
pub enum Phase {
    /// There is nothing to say: the policy never rests, or no frame came.
    Unsaid,
    Resting,
    Active,
}

/// An account of frame rows: of a whole run, or of one status interval.
pub struct Stats {
    pub frames: u64,
    /// Frames each recorded tag was seen in.
    pub with_tag: Vec<u64>,
    pub acted: u64,
    /// Frames not acted on because the policy was busy, not counting the
    /// startup frames that only fill its history.
    pub skipped: u64,
    /// Capture time of the latest row, since t0.
    pub last_capture: Option<i64>,
    /// Capture to arrival, detection, queued between detection and policy,
    /// inference, and capture to the action written.
    pub age: Vec<i128>,
    pub detect: Vec<i128>,
    pub wait: Vec<i128>,
    pub policy: Vec<i128>,
    pub delay: Vec<i128>,
}

/// Whether a row says when the policy started, was done and had its action
/// sent.
pub open spec fn policy_ran(r: FrameRow) -> bool {
    r.t_policy_start is Some && r.t_policy_done is Some && r.t_sent is Some
}

/// How long it took from `a` to `b`.
pub open spec fn took(a: i64, b: i64) -> i128 {
    (b - a) as i128
}

impl Stats {
    /// No frame is counted twice, and each has its times.
    pub open spec fn wf(&self) -> bool {
        &&& forall|i: int| 0 <= i < self.with_tag@.len() ==> #[trigger] self.with_tag@[i]
            <= self.frames
        &&& self.acted + self.skipped <= self.frames
        &&& self.age@.len() == self.detect@.len() == self.frames
        &&& self.wait@.len() == self.policy@.len() == self.delay@.len() == self.acted
        &&& self.last_capture is Some <==> self.frames > 0
    }

    /// Whether no row has been added.
    pub open spec fn is_new(&self, n_tags: nat) -> bool {
        &&& self.wf()
        &&& self.frames == 0
        &&& self.with_tag@ == Seq::new(n_tags, |i: int| 0u64)
    }

    /// An account of no rows of a table that records this many tags.
    pub fn new(n_tags: usize) -> (s: Self)
        ensures
            s.is_new(n_tags as nat),
    {
        let mut with_tag: Vec<u64> = Vec::new();
        let mut i: usize = 0;
        while i < n_tags
            invariant
                i <= n_tags,
                with_tag@ == Seq::new(i as nat, |j: int| 0u64),
            decreases n_tags - i,
        {
            with_tag.push(0);
            i = i + 1;
            assert(with_tag@ =~= Seq::new(i as nat, |j: int| 0u64));
        }
        Stats {
            frames: 0,
            with_tag,
            acted: 0,
            skipped: 0,
            last_capture: None,
            age: Vec::new(),
            detect: Vec::new(),
            wait: Vec::new(),
            policy: Vec::new(),
            delay: Vec::new(),
        }
    }

    /// Whether `after` is this account with row `r` added. A startup row only
    /// fills the policy's history; after those, a row not acted on was skipped
    /// while the policy was busy.
    pub open spec fn adds(&self, r: FrameRow, startup: bool, after: Self) -> bool {
        &&& after.frames == self.frames + 1
        &&& after.with_tag@ == Seq::new(
            self.with_tag@.len(),
            |i: int|
                if i < r.tags@.len() && r.tags@[i] is Some {
                    (self.with_tag@[i] + 1) as u64
                } else {
                    self.with_tag@[i]
                },
        )
        &&& after.last_capture == Some(r.t_capture)
        &&& after.age@ == self.age@.push(took(r.t_capture, r.t_arrival))
        &&& after.detect@ == self.detect@.push(took(r.t_detect_start, r.t_detected))
        &&& if policy_ran(r) {
            &&& after.acted == self.acted + 1
            &&& after.skipped == self.skipped
            &&& after.wait@ == self.wait@.push(took(r.t_detected, r.t_policy_start->0))
            &&& after.policy@ == self.policy@.push(
                took(r.t_policy_start->0, r.t_policy_done->0),
            )
            &&& after.delay@ == self.delay@.push(took(r.t_capture, r.t_sent->0))
        } else {
            &&& after.acted == self.acted
            &&& after.skipped == self.skipped + (if startup {
                0int
            } else {
                1
            })
            &&& after.wait@ == self.wait@
            &&& after.policy@ == self.policy@
            &&& after.delay@ == self.delay@
        }
    }

    /// Adds a row.
    pub fn add(&mut self, r: &FrameRow, startup: bool)
        requires
            old(self).wf(),
            old(self).frames < u64::MAX,
        ensures
            final(self).wf(),
            old(self).adds(*r, startup, *final(self)),
    {
        self.frames = self.frames + 1;
        let mut i: usize = 0;
        while i < self.with_tag.len() && i < r.tags.len()
            invariant
                i <= self.with_tag@.len(),
                i <= r.tags@.len(),
                old(self).wf(),
                self.frames == old(self).frames + 1,
                self.with_tag@.len() == old(self).with_tag@.len(),
                forall|j: int|
                    0 <= j < self.with_tag@.len() ==> #[trigger] self.with_tag@[j] == old(
                        self,
                    ).with_tag@[j] + (if j < i && r.tags@[j] is Some {
                        1int
                    } else {
                        0
                    }),
                self.acted == old(self).acted,
                self.skipped == old(self).skipped,
                self.age == old(self).age,
                self.detect == old(self).detect,
                self.wait == old(self).wait,
                self.policy == old(self).policy,
                self.delay == old(self).delay,
            decreases self.with_tag@.len() - i,
        {
            if r.tags[i].is_some() {
                assert(self.with_tag@[i as int] <= old(self).frames);
                let n: u64 = self.with_tag[i];
                self.with_tag.set(i, n + 1);
            }
            i = i + 1;
        }
        self.last_capture = Some(r.t_capture);
        self.age.push(r.t_arrival as i128 - r.t_capture as i128);
        self.detect.push(r.t_detected as i128 - r.t_detect_start as i128);
        match (r.t_policy_start, r.t_policy_done, r.t_sent) {
            (Some(start), Some(done), Some(sent)) => {
                self.acted = self.acted + 1;
                self.wait.push(start as i128 - r.t_detected as i128);
                self.policy.push(done as i128 - start as i128);
                self.delay.push(sent as i128 - r.t_capture as i128);
            },
            _ => {
                if !startup {
                    self.skipped = self.skipped + 1;
                }
            },
        }
        proof {
            let counted = Seq::new(
                old(self).with_tag@.len(),
                |i: int|
                    if i < r.tags@.len() && r.tags@[i] is Some {
                        (old(self).with_tag@[i] + 1) as u64
                    } else {
                        old(self).with_tag@[i]
                    },
            );
            assert forall|j: int| 0 <= j < counted.len() implies self.with_tag@[j]
                == counted[j] by {
                assert(old(self).with_tag@[j] <= old(self).frames);
            }
            assert(self.with_tag@ =~= counted);
        }
    }

    /// What the arm was doing at the latest row.
    pub fn phase(&self, duty: &DutyCycle) -> (p: Phase)
        ensures
            p == (if nanos(duty.rest) == 0 || self.last_capture is None {
                Phase::Unsaid
            } else if duty.rests_at(
                if self.last_capture->0 > 0 {
                    self.last_capture->0 as int
                } else {
                    0
                },
            ) {
                Phase::Resting
            } else {
                Phase::Active
            }),
    {
        if duty.rest.as_nanos() == 0 {
            return Phase::Unsaid;
        }
        match self.last_capture {
            None => Phase::Unsaid,
            Some(t) => {
                let t: u128 = if t > 0 {
                    t as u128
                } else {
                    0
                };
                if duty.resting_ns(t) {
                    Phase::Resting
                } else {
                    Phase::Active
                }
            },
        }
    }
}

/// How often everything has happened since a run began.
pub struct Counts {
    pub frames: u64,
    /// Frames each recorded tag was seen in.
    pub tags: Vec<u64>,
    pub late_plans: u64,
    pub slots: u64,
    pub gaps: u64,
    pub skipped: u64,
    pub late_writes: u64,
}

impl Counts {
    /// Whether these counts can have come after those.
    pub open spec fn follows(&self, prev: &Counts) -> bool {
        &&& prev.frames <= self.frames
        &&& forall|i: int|
            0 <= i < prev.tags@.len() && i < self.tags@.len() ==> #[trigger] prev.tags@[i]
                <= self.tags@[i]
        &&& prev.late_plans <= self.late_plans
        &&& prev.slots <= self.slots
        &&& prev.gaps <= self.gaps
        &&& prev.skipped <= self.skipped
        &&& prev.late_writes <= self.late_writes
    }

    /// How often everything has happened since `prev`.
    pub fn since(&self, prev: &Counts) -> (c: Counts)
        requires
            self.follows(prev),
        ensures
            c.frames == self.frames - prev.frames,
            c.tags@.len() == (if self.tags@.len() < prev.tags@.len() {
                self.tags@.len()
            } else {
                prev.tags@.len()
            }),
            forall|i: int|
                0 <= i < c.tags@.len() ==> #[trigger] c.tags@[i] == self.tags@[i] - prev.tags@[i],
            c.late_plans == self.late_plans - prev.late_plans,
            c.slots == self.slots - prev.slots,
            c.gaps == self.gaps - prev.gaps,
            c.skipped == self.skipped - prev.skipped,
            c.late_writes == self.late_writes - prev.late_writes,
    {
        let mut tags: Vec<u64> = Vec::new();
        let mut i: usize = 0;
        while i < self.tags.len() && i < prev.tags.len()
            invariant
                i <= self.tags@.len(),
                i <= prev.tags@.len(),
                self.follows(prev),
                tags@.len() == i,
                forall|j: int| 0 <= j < i ==> #[trigger] tags@[j] == self.tags@[j] - prev.tags@[j],
            decreases self.tags@.len() - i,
        {
            assert(prev.tags@[i as int] <= self.tags@[i as int]);
            tags.push(self.tags[i] - prev.tags[i]);
            i = i + 1;
        }
        Counts {
            frames: self.frames - prev.frames,
            tags,
            late_plans: self.late_plans - prev.late_plans,
            slots: self.slots - prev.slots,
            gaps: self.gaps - prev.gaps,
            skipped: self.skipped - prev.skipped,
            late_writes: self.late_writes - prev.late_writes,
        }
    }
}

/// What one status line covers.
pub struct Status {
    /// How often everything happened in the interval.
    pub counts: Counts,
    /// Worst write lateness, in microseconds.
    pub worst_write_us: u64,
    /// Slowest detection, in microseconds.
    pub slowest_detect_us: u64,
}

/// Counters both loops bump as they go, read by the periodic status line.
pub struct Live {
    counts: Counts,
    worst_write_us: u64,
    slowest_detect_us: u64,
}

/// `n` nanoseconds in microseconds, as far as they can be counted.
pub open spec fn micros(n: int) -> int {
    n / 1_000 % 0x1_0000_0000_0000_0000
}

/// `n` nanoseconds in microseconds, as far as they can be counted.
fn to_micros(n: u128) -> (us: u64)
    ensures
        us == micros(n as int),
{
    let us: u128 = n / 1_000 % 0x1_0000_0000_0000_0000;
    us as u64
}

impl Live {
    pub closed spec fn counts(&self) -> Counts {
        self.counts
    }

    /// Worst write lateness since the last status line, in microseconds.
    pub closed spec fn worst_write_us(&self) -> u64 {
        self.worst_write_us
    }

    /// Slowest detection since the last status line, in microseconds.
    pub closed spec fn slowest_detect_us(&self) -> u64 {
        self.slowest_detect_us
    }

    /// Nothing has happened more often than it had occasion to.
    pub open spec fn wf(&self) -> bool {
        let c = self.counts();
        &&& forall|i: int| 0 <= i < c.tags@.len() ==> #[trigger] c.tags@[i] <= c.frames
        &&& c.late_plans <= c.frames
        &&& c.gaps <= c.slots
        &&& c.late_writes <= c.slots
    }

    pub fn new(n_tags: usize) -> (l: Self)
        ensures
            l.wf(),
            l.counts().frames == 0,
            l.counts().tags@ == Seq::new(n_tags as nat, |i: int| 0u64),
            l.counts().slots == 0,
            l.counts().skipped == 0,
            l.worst_write_us() == 0,
            l.slowest_detect_us() == 0,
    {
        Live {
            counts: Counts {
                frames: 0,
                tags: Stats::new(n_tags).with_tag,
                late_plans: 0,
                slots: 0,
                gaps: 0,
                skipped: 0,
                late_writes: 0,
            },
            worst_write_us: 0,
            slowest_detect_us: 0,
        }
    }

    /// Whether another frame, another slot, and `skipped` more slots passed
    /// over can be counted.
    pub fn can_count(&self, skipped: u64) -> (b: bool)
        ensures
            b <==> self.counts().frames < u64::MAX && self.counts().slots < u64::MAX
                && self.counts().skipped + skipped <= u64::MAX,
    {
        self.counts.frames < u64::MAX && self.counts.slots < u64::MAX && skipped <= u64::MAX
            - self.counts.skipped
    }

    /// A frame was detected in this many nanoseconds, with these of the tags
    /// seen in it, and its plan was late or not.
    pub fn frame(&mut self, seen: &[bool], detect_ns: u128, late_plan: bool)
        requires
            old(self).wf(),
            old(self).counts().frames < u64::MAX,
        ensures
            final(self).wf(),
            ({
                let before = old(self).counts();
                let after = final(self).counts();
                let us = micros(detect_ns as int);
                &&& after.frames == before.frames + 1
                &&& after.tags@.len() == before.tags@.len()
                &&& forall|i: int|
                    0 <= i < before.tags@.len() ==> #[trigger] after.tags@[i] == before.tags@[i] + (
                    if i < seen@.len() && seen@[i] {
                        1int
                    } else {
                        0
                    })
                &&& after.late_plans == before.late_plans + (if late_plan {
                    1int
                } else {
                    0
                })
                &&& after.slots == before.slots
                &&& after.gaps == before.gaps
                &&& after.skipped == before.skipped
                &&& after.late_writes == before.late_writes
                &&& final(self).slowest_detect_us() == (if us > old(self).slowest_detect_us() {
                    us
                } else {
                    old(self).slowest_detect_us() as int
                })
            }),
            final(self).worst_write_us() == old(self).worst_write_us(),
    {
        self.counts.frames = self.counts.frames + 1;
        let mut i: usize = 0;
        while i < self.counts.tags.len() && i < seen.len()
            invariant
                i <= self.counts.tags@.len(),
                i <= seen@.len(),
                old(self).wf(),
                self.counts.tags@.len() == old(self).counts.tags@.len(),
                forall|j: int|
                    0 <= j < self.counts.tags@.len() ==> #[trigger] self.counts.tags@[j] == old(
                        self,
                    ).counts.tags@[j] + (if j < i && seen@[j] {
                        1int
                    } else {
                        0
                    }),
                self.counts.frames == old(self).counts.frames + 1,
                self.counts.late_plans == old(self).counts.late_plans,
                self.counts.slots == old(self).counts.slots,
                self.counts.gaps == old(self).counts.gaps,
                self.counts.skipped == old(self).counts.skipped,
                self.counts.late_writes == old(self).counts.late_writes,
                self.worst_write_us == old(self).worst_write_us,
                self.slowest_detect_us == old(self).slowest_detect_us,
            decreases self.counts.tags@.len() - i,
        {
            if seen[i] {
                assert(old(self).counts.tags@[i as int] <= old(self).counts.frames);
                let n: u64 = self.counts.tags[i];
                self.counts.tags.set(i, n + 1);
            }
            i = i + 1;
        }
        if late_plan {
            self.counts.late_plans = self.counts.late_plans + 1;
        }
        let us: u64 = to_micros(detect_ns);
        if us > self.slowest_detect_us {
            self.slowest_detect_us = us;
        }
        assert forall|j: int| 0 <= j < self.counts.tags@.len() implies #[trigger] self.counts.tags@[j]
            <= self.counts.frames by {
            assert(old(self).counts.tags@[j] <= old(self).counts.frames);
        }
    }

    /// A slot was written this many nanoseconds late; it was a gap or not, and
    /// later than is right or not.
    pub fn slot(&mut self, late_ns: u128, gap: bool, late: bool)
        requires
            old(self).wf(),
            old(self).counts().slots < u64::MAX,
        ensures
            final(self).wf(),
            ({
                let before = old(self).counts();
                let after = final(self).counts();
                let us = micros(late_ns as int);
                &&& after == (Counts {
                    slots: (before.slots + 1) as u64,
                    gaps: after.gaps,
                    late_writes: after.late_writes,
                    ..before
                })
                &&& after.gaps == before.gaps + (if gap {
                    1int
                } else {
                    0
                })
                &&& after.late_writes == before.late_writes + (if late {
                    1int
                } else {
                    0
                })
                &&& final(self).worst_write_us() == (if us > old(self).worst_write_us() {
                    us
                } else {
                    old(self).worst_write_us() as int
                })
            }),
            final(self).slowest_detect_us() == old(self).slowest_detect_us(),
    {
        self.counts.slots = self.counts.slots + 1;
        if gap {
            self.counts.gaps = self.counts.gaps + 1;
        }
        if late {
            self.counts.late_writes = self.counts.late_writes + 1;
        }
        let us: u64 = to_micros(late_ns);
        if us > self.worst_write_us {
            self.worst_write_us = us;
        }
    }

    /// This many slots were passed over.
    pub fn skip(&mut self, n: u64)
        requires
            old(self).wf(),
            old(self).counts().skipped + n <= u64::MAX,
        ensures
            final(self).wf(),
            final(self).counts() == (Counts {
                skipped: (old(self).counts().skipped + n) as u64,
                ..old(self).counts()
            }),
            final(self).worst_write_us() == old(self).worst_write_us(),
            final(self).slowest_detect_us() == old(self).slowest_detect_us(),
    {
        self.counts.skipped = self.counts.skipped + n;
    }

    /// How often everything has happened so far.
    pub fn snapshot(&self) -> (c: Counts)
        ensures
            c.frames == self.counts().frames,
            c.tags@ == self.counts().tags@,
            c.late_plans == self.counts().late_plans,
            c.slots == self.counts().slots,
            c.gaps == self.counts().gaps,
            c.skipped == self.counts().skipped,
            c.late_writes == self.counts().late_writes,
    {
        let mut tags: Vec<u64> = Vec::new();
        let mut i: usize = 0;
        while i < self.counts.tags.len()
            invariant
                i <= self.counts.tags@.len(),
                tags@ == self.counts.tags@.take(i as int),
            decreases self.counts.tags@.len() - i,
        {
            tags.push(self.counts.tags[i]);
            i = i + 1;
            assert(tags@ =~= self.counts.tags@.take(i as int));
        }
        assert(tags@ =~= self.counts.tags@);
        Counts {
            frames: self.counts.frames,
            tags,
            late_plans: self.counts.late_plans,
            slots: self.counts.slots,
            gaps: self.counts.gaps,
            skipped: self.counts.skipped,
            late_writes: self.counts.late_writes,
        }
    }

    /// What a status line since `prev` covers. The worst times start afresh.
    pub fn status(&mut self, prev: &Counts) -> (s: Status)
        requires
            old(self).wf(),
            old(self).counts().follows(prev),
            old(self).counts().tags@.len() == prev.tags@.len(),
        ensures
            final(self).wf(),
            final(self).counts() == old(self).counts(),
            final(self).worst_write_us() == 0,
            final(self).slowest_detect_us() == 0,
            s.worst_write_us == old(self).worst_write_us(),
            s.slowest_detect_us == old(self).slowest_detect_us(),
            s.counts.frames == old(self).counts().frames - prev.frames,
            s.counts.tags@.len() == prev.tags@.len(),
            forall|i: int|
                0 <= i < prev.tags@.len() ==> #[trigger] s.counts.tags@[i] == old(
                    self,
                ).counts().tags@[i] - prev.tags@[i],
            s.counts.late_plans == old(self).counts().late_plans - prev.late_plans,
            s.counts.slots == old(self).counts().slots - prev.slots,
            s.counts.gaps == old(self).counts().gaps - prev.gaps,
            s.counts.skipped == old(self).counts().skipped - prev.skipped,
            s.counts.late_writes == old(self).counts().late_writes - prev.late_writes,
    {
        let s = Status {
            counts: self.counts.since(prev),
            worst_write_us: self.worst_write_us,
            slowest_detect_us: self.slowest_detect_us,
        };
        self.worst_write_us = 0;
        self.slowest_detect_us = 0;
        s
    }
}

/// How often an id occurs.
pub open spec fn occurrences(ids: Seq<u64>, id: u64) -> nat
    decreases ids.len(),
{
    if ids.len() == 0 {
        0
    } else {
        occurrences(ids.drop_last(), id) + (if ids.last() == id {
            1nat
        } else {
            0
        })
    }
}

/// How often an id was counted.
pub open spec fn counted(per_id: Map<u64, u64>, id: u64) -> nat {
    if per_id.contains_key(id) {
        per_id[id] as nat
    } else {
        0
    }
}

/// Counts each of these ids.
pub(crate) fn tally(per_id: &mut BTreeMap<u64, u64>, ids: &[u64])
    requires
        forall|id: u64| #[trigger] counted(old(per_id)@, id) + ids@.len() <= u64::MAX,
    ensures
        forall|id: u64| #[trigger]
            counted(final(per_id)@, id) == counted(old(per_id)@, id) + occurrences(ids@, id),
        final(per_id)@.dom() == old(per_id)@.dom().union(ids@.to_set()),
{
    let mut i: usize = 0;
    while i < ids.len()
        invariant
            i <= ids@.len(),
            forall|id: u64| #[trigger] counted(old(per_id)@, id) + ids@.len() <= u64::MAX,
            forall|id: u64| #[trigger]
                counted(per_id@, id) == counted(old(per_id)@, id) + occurrences(
                    ids@.take(i as int),
                    id,
                ),
            per_id@.dom() == old(per_id)@.dom().union(ids@.take(i as int).to_set()),
        decreases ids@.len() - i,
    {
        let id: u64 = ids[i];
        let ghost before = per_id@;
        let n: u64 = match per_id.get(&id) {
            Some(n) => *n,
            None => 0,
        };
        proof {
            lemma_occurrences(ids@.take(i as int), id);
            assert(counted(before, id) <= counted(old(per_id)@, id) + i);
            assert(ids@.take(i + 1).drop_last() =~= ids@.take(i as int));
        }
        per_id.insert(id, n + 1);
        proof {
            assert(per_id@ == before.insert(id, (n + 1) as u64));
            assert forall|other: u64| #[trigger]
                counted(per_id@, other) == counted(old(per_id)@, other) + occurrences(
                    ids@.take(i + 1),
                    other,
                ) by {
                assert(counted(before, other) == counted(old(per_id)@, other) + occurrences(
                    ids@.take(i as int),
                    other,
                ));
            }
            assert(ids@.take(i + 1) =~= ids@.take(i as int).push(id));
            assert(per_id@.dom() =~= old(per_id)@.dom().union(ids@.take(i + 1).to_set())) by {
                assert forall|x: u64| #[trigger]
                    ids@.take(i + 1).contains(x) <==> ids@.take(i as int).contains(x) || x
                        == id by {
                    lemma_push_contains(ids@.take(i as int), id, x);
                }
            }
        }
        i = i + 1;
    }
    assert(ids@.take(i as int) =~= ids@);
}

proof fn lemma_push_contains(s: Seq<u64>, id: u64, x: u64)
    ensures
        s.push(id).contains(x) <==> s.contains(x) || x == id,
{
    if s.contains(x) {
        let i = choose|i: int| 0 <= i < s.len() && s[i] == x;
        assert(s.push(id)[i] == x);
    }
    assert(s.push(id)[s.len() as int] == id);
}

/// An id occurs no more often than there are ids.
pub(crate) proof fn lemma_occurrences(ids: Seq<u64>, id: u64)
    ensures
        occurrences(ids, id) <= ids.len(),
    decreases ids.len(),
{
    if ids.len() > 0 {
        lemma_occurrences(ids.drop_last(), id);
    }
}

/// A quantile is the number nearest to its part of the way from the first to
/// the last: within half a place of it, and behind it if it is half a place
/// off. The least is the first, the greatest the last, and the median of an odd
/// count has as many before it as after.
pub proof fn law_a_quantile_is_the_nearest(n: nat, percent: nat)
    requires
        n > 0,
        percent <= 100,
    ensures
        0 <= rank(n, percent) < n,
        -50 < 100 * rank(n, percent) - (n - 1) * percent <= 50,
        rank(n, 0) == 0,
        rank(n, 100) == n - 1,
        n % 2 == 1 ==> rank(n, 50) == n - 1 - rank(n, 50),
{
    let part = (n - 1) * percent;
    assert(0 <= part <= (n - 1) * 100) by (nonlinear_arith)
        requires
            n > 0,
            percent <= 100,
            part == (n - 1) * percent,
    ;
}

/// Some numbers in order have their least first among the quantiles, their
/// greatest last, and the others in between.
pub proof fn law_quantiles_are_in_order(ordered: Seq<i128>, i: int)
    requires
        ascending(ordered),
        0 <= i < ordered.len(),
    ensures
        quantiles_of(ordered).min <= ordered[i] <= quantiles_of(ordered).max,
        quantiles_of(ordered).min == ordered[0],
        quantiles_of(ordered).max == ordered.last(),
        quantiles_of(ordered).min <= quantiles_of(ordered).median <= quantiles_of(ordered).p95
            <= quantiles_of(ordered).max,
{
    let n = ordered.len();
    law_a_quantile_is_the_nearest(n, 0);
    law_a_quantile_is_the_nearest(n, 50);
    law_a_quantile_is_the_nearest(n, 95);
    law_a_quantile_is_the_nearest(n, 100);
}

/// What a row adds to the account: its own times, from capture to arrival, from
/// the start of detection to its end, and where the policy ran, from there to
/// the policy's start, from its start to its end, and from capture to sending.
pub proof fn law_a_row_adds_its_own_times(s: Stats, r: FrameRow, startup: bool, after: Stats)
    requires
        s.adds(r, startup, after),
    ensures
        after.frames == s.frames + 1,
        after.last_capture == Some(r.t_capture),
        after.age@.len() == s.age@.len() + 1,
        r.t_capture + after.age@.last() == r.t_arrival,
        after.detect@.len() == s.detect@.len() + 1,
        r.t_detect_start + after.detect@.last() == r.t_detected,
        r.t_policy_start is Some && r.t_policy_done is Some && r.t_sent is Some ==> {
            &&& after.acted == s.acted + 1
            &&& after.skipped == s.skipped
            &&& after.wait@.len() == s.wait@.len() + 1
            &&& r.t_detected + after.wait@.last() == r.t_policy_start->0
            &&& after.policy@.len() == s.policy@.len() + 1
            &&& r.t_policy_start->0 + after.policy@.last() == r.t_policy_done->0
            &&& after.delay@.len() == s.delay@.len() + 1
            &&& r.t_capture + after.delay@.last() == r.t_sent->0
        },
        r.t_policy_start is None || r.t_policy_done is None || r.t_sent is None ==> {
            &&& after.acted == s.acted
            &&& startup ==> after.skipped == s.skipped
            &&& !startup ==> after.skipped == s.skipped + 1
            &&& after.wait@ == s.wait@
            &&& after.policy@ == s.policy@
            &&& after.delay@ == s.delay@
        },
{
}

/// A tag is counted in a row if it was seen in it, and in no other.
pub proof fn law_a_row_counts_the_tags_it_saw(
    s: Stats,
    r: FrameRow,
    startup: bool,
    after: Stats,
    i: int,
)
    requires
        s.adds(r, startup, after),
        0 <= i < s.with_tag@.len(),
        s.with_tag@[i] < u64::MAX,
    ensures
        after.with_tag@.len() == s.with_tag@.len(),
        i < r.tags@.len() && r.tags@[i] is Some ==> after.with_tag@[i] == s.with_tag@[i] + 1,
        i >= r.tags@.len() || r.tags@[i] is None ==> after.with_tag@[i] == s.with_tag@[i],
{
}

/// A microsecond is a thousand nanoseconds, and what is left of one does not
/// count.
pub proof fn law_micros_are_whole_thousands(us: int, rest: int)
    requires
        0 <= us <= u64::MAX,
        0 <= rest < 1_000,
    ensures
        micros(1_000 * us + rest) == us,
{
}

/// Ids are counted wherever they stand: a list has as many as its parts, and
/// one of a single id has it once, and no other.
pub proof fn law_occurrences_add_up(a: Seq<u64>, b: Seq<u64>, id: u64, other: u64)
    ensures
        occurrences(a + b, id) == occurrences(a, id) + occurrences(b, id),
        occurrences(seq![id], id) == 1,
        other != id ==> occurrences(seq![other], id) == 0,
        occurrences(Seq::empty(), id) == 0,
    decreases b.len(),
{
    reveal_with_fuel(occurrences, 2);
    assert(seq![id].drop_last() =~= Seq::empty());
    assert(seq![other].drop_last() =~= Seq::empty());
    if b.len() == 0 {
        assert(a + b =~= a);
    } else {
        law_occurrences_add_up(a, b.drop_last(), id, other);
        assert((a + b).drop_last() =~= a + b.drop_last());
    }
}

} // verus!
