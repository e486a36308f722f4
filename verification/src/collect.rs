//! What a recording does with the frames that come out of detection: the
//! policy acts on the newest, and every one of them is recorded.
//!
//! Frames the policy skipped while it was busy go into its history and the
//! table all the same, with the action that was in effect. Nothing waits on a
//! clock: an action goes out as soon as it is ready, and its send time is
//! recorded.

use crate::clock::{from_ns, nanos, wrap_i64};
use crate::drive::{after, bytes, Drive, Event, Motor, Stage};
use crate::policy::{Step, StepModel, HISTORY};
use crate::record::{rel_ns, FrameRow, TagRow};
use std::collections::VecDeque;
use std::time::Duration;
use vstd::prelude::*;

verus! {

/// A recorded pose: seven single-precision numbers, as their bits.
pub type Pose = [u32; 7];

/// A tag the detector saw: its id, and what is recorded of it if its pose was
/// found.
#[derive(Clone, Copy, Debug)]
pub struct Seen {
    pub id: usize,
    pub row: Option<TagRow>,
}

/// What is recorded of the tag with this id: the first one seen counts.
pub open spec fn tag_seen(seen: Seq<Seen>, id: usize) -> Option<TagRow>
    decreases seen.len(),
{
    if seen.len() == 0 {
        None
    } else if seen[0].id == id {
        seen[0].row
    } else {
        tag_seen(seen.drop_first(), id)
    }
}

/// What is recorded of the tag with this id.
fn tag_row(seen: &[Seen], id: usize) -> (row: Option<TagRow>)
    ensures
        row == tag_seen(seen@, id),
{
    let mut i: usize = 0;
    assert(seen@.skip(0) =~= seen@);
    while i < seen.len()
        invariant
            i <= seen@.len(),
            tag_seen(seen@, id) == tag_seen(seen@.skip(i as int), id),
        decreases seen@.len() - i,
    {
        assert(seen@.skip(i as int)[0] == seen@[i as int]);
        if seen[i].id == id {
            return seen[i].row;
        }
        assert(seen@.skip(i as int).drop_first() =~= seen@.skip(i + 1));
        i = i + 1;
    }
    None
}

/// What is recorded of the tags with these ids, in their order.
pub open spec fn tags_seen(seen: Seq<Seen>, ids: Seq<usize>) -> Seq<Option<TagRow>> {
    ids.map_values(|id: usize| tag_seen(seen, id))
}

/// What is recorded of the tags with these ids, in their order.
pub fn tag_rows(seen: &[Seen], ids: &[usize]) -> (rows: Vec<Option<TagRow>>)
    ensures
        rows@ == tags_seen(seen@, ids@),
{
    let mut rows: Vec<Option<TagRow>> = Vec::new();
    let mut i: usize = 0;
    while i < ids.len()
        invariant
            i <= ids@.len(),
            rows@ == tags_seen(seen@, ids@.take(i as int)),
        decreases ids@.len() - i,
    {
        rows.push(tag_row(seen, ids[i]));
        i = i + 1;
        assert(rows@ =~= tags_seen(seen@, ids@.take(i as int)));
    }
    assert(ids@.take(i as int) =~= ids@);
    rows
}

/// A frame through detection, on its way to the policy.
pub struct Detected {
    pub frame: u64,
    pub t_capture: Duration,
    pub t_arrival: Duration,
    pub t_detect_start: Duration,
    pub t_detected: Duration,
    /// The recorded tags, in the order of the table's columns.
    pub tags: Vec<Option<TagRow>>,
}

/// The pose of a tag, where it was seen.
pub open spec fn pose_of(tag: Option<TagRow>) -> Option<Pose> {
    match tag {
        Some(t) => Some(t.pose),
        None => None,
    }
}

/// `t` after `t0`, in nanoseconds: zero where it is before.
pub open spec fn since(t: Duration, t0: Duration) -> nat {
    if nanos(t) >= nanos(t0) {
        (nanos(t) - nanos(t0)) as nat
    } else {
        0
    }
}

impl Detected {
    /// The frame as a policy sees it.
    pub open spec fn seen(&self, t0: Duration, action: Option<i8>) -> StepModel<Pose> {
        StepModel {
            frame: self.frame,
            t: since(self.t_capture, t0),
            poses: self.tags@.map_values(|tag: Option<TagRow>| pose_of(tag)),
            action,
        }
    }

    /// Whether `r` is of this frame: its number, its times, and the tags seen in
    /// it.
    pub open spec fn recorded_in(&self, r: FrameRow, t0: Duration) -> bool {
        &&& r.frame == self.frame
        &&& r.t_capture == wrap_i64(nanos(self.t_capture) - nanos(t0))
        &&& r.t_arrival == wrap_i64(nanos(self.t_arrival) - nanos(t0))
        &&& r.t_detect_start == wrap_i64(nanos(self.t_detect_start) - nanos(t0))
        &&& r.t_detected == wrap_i64(nanos(self.t_detected) - nanos(t0))
        &&& r.tags@ == self.tags@
    }

    /// Whether `r` records the frame: `action` in effect after it, and when
    /// the policy started, was done and had its action sent, if it acted.
    pub open spec fn recorded_as(
        &self,
        r: FrameRow,
        t0: Duration,
        action: i8,
        times: Option<(Duration, Duration, Duration)>,
    ) -> bool {
        &&& self.recorded_in(r, t0)
        &&& r.action == action
        &&& match times {
            Some((start, done, sent)) => {
                &&& r.acted
                &&& r.t_policy_start is Some
                &&& r.t_policy_start->0 == wrap_i64(nanos(start) - nanos(t0))
                &&& r.t_policy_done is Some
                &&& r.t_policy_done->0 == wrap_i64(nanos(done) - nanos(t0))
                &&& r.t_sent is Some
                &&& r.t_sent->0 == wrap_i64(nanos(sent) - nanos(t0))
            },
            None => {
                &&& !r.acted
                &&& r.t_policy_start is None
                &&& r.t_policy_done is None
                &&& r.t_sent is None
            },
        }
    }

    fn step(&self, t0: Duration, action: Option<i8>) -> (s: Step<Pose>)
        ensures
            s@ == self.seen(t0, action),
    {
        let mut poses: Vec<Option<Pose>> = Vec::new();
        let mut i: usize = 0;
        while i < self.tags.len()
            invariant
                i <= self.tags@.len(),
                poses@.len() == i,
                forall|j: int| 0 <= j < i ==> #[trigger] poses@[j] == pose_of(self.tags@[j]),
            decreases self.tags@.len() - i,
        {
            match self.tags[i] {
                Some(tag) => poses.push(Some(tag.pose)),
                None => poses.push(None),
            }
            i = i + 1;
        }
        let t: u128 = self.t_capture.as_nanos();
        let zero: u128 = t0.as_nanos();
        let t: Duration = from_ns(
            if t >= zero {
                t - zero
            } else {
                0
            },
        );
        let s = Step { frame: self.frame, t, poses, action };
        assert(s@.poses =~= self.seen(t0, action).poses);
        s
    }

    fn row(
        self,
        t0: Duration,
        action: i8,
        times: Option<(Duration, Duration, Duration)>,
    ) -> (r: FrameRow)
        ensures
            self.recorded_as(r, t0, action, times),
    {
        let (acted, t_policy_start, t_policy_done, t_sent) = match times {
            Some((start, done, sent)) => (
                true,
                Some(rel_ns(start, t0)),
                Some(rel_ns(done, t0)),
                Some(rel_ns(sent, t0)),
            ),
            None => (false, None, None, None),
        };
        FrameRow {
            frame: self.frame,
            t_capture: rel_ns(self.t_capture, t0),
            t_arrival: rel_ns(self.t_arrival, t0),
            t_detect_start: rel_ns(self.t_detect_start, t0),
            t_detected: rel_ns(self.t_detected, t0),
            tags: self.tags,
            acted,
            t_policy_start,
            t_policy_done,
            t_sent,
            action,
        }
    }
}

/// What some steps say.
pub open spec fn modelled(steps: Seq<Step<Pose>>) -> Seq<StepModel<Pose>> {
    steps.map_values(|s: Step<Pose>| s@)
}

/// The newest frames a policy remembers beside the one it acts on.
pub open spec fn newest<A>(frames: Seq<A>) -> Seq<A> {
    let kept = HISTORY - 1;
    if frames.len() > kept {
        frames.skip(frames.len() - kept)
    } else {
        frames
    }
}

/// What came of the frames that arrived.
pub struct Received {
    /// The rows of the frames the policy does not act on.
    pub rows: Vec<FrameRow>,
    /// The frame to act on. None at the start of a recording, while frames
    /// only fill the history.
    pub newest: Option<Detected>,
}

/// The policy's side of a recording: its history, and the action in effect.
pub struct PolicyLoop {
    t0: Duration,
    /// The frames before the newest, oldest first, each with the action in
    /// effect after it.
    history: VecDeque<Step<Pose>>,
    current: i8,
}

impl PolicyLoop {
    /// The recording's t0.
    pub closed spec fn t0(&self) -> Duration {
        self.t0
    }

    /// The frames the policy remembers, oldest first.
    pub closed spec fn history(&self) -> Seq<StepModel<Pose>> {
        modelled(self.history@)
    }

    /// The action in effect.
    pub closed spec fn current(&self) -> i8 {
        self.current
    }

    /// A policy never remembers more than it is shown, and the last thing it
    /// remembers is the action in effect.
    pub open spec fn wf(&self) -> bool {
        &&& self.history().len() <= HISTORY - 1
        &&& self.history().len() > 0 ==> self.history().last().action == Some(self.current())
    }

    /// These frames, skipped while `action` was in effect.
    pub open spec fn skipped(
        frames: Seq<Detected>,
        t0: Duration,
        action: i8,
    ) -> Seq<StepModel<Pose>> {
        frames.map_values(|d: Detected| d.seen(t0, Some(action)))
    }

    /// What becomes of the frames that have arrived: all but the newest join
    /// the history and the table with the action in effect, and the newest
    /// does too while the history is not whole.
    pub open spec fn took(
        before: PolicyLoop,
        after: PolicyLoop,
        waiting: Seq<Detected>,
        r: Received,
    ) -> bool {
        let t0 = before.t0();
        let current = before.current();
        let earlier = newest(
            before.history() + Self::skipped(waiting.drop_last(), t0, current),
        );
        let acting = earlier.len() == HISTORY - 1;
        &&& after.t0() == t0
        &&& after.current() == current
        &&& r.newest is Some <==> acting
        &&& acting ==> r.newest->0 == waiting.last()
        &&& r.rows@.len() == (if acting {
            waiting.len() - 1
        } else {
            waiting.len() as int
        })
        &&& forall|i: int|
            0 <= i < r.rows@.len() ==> waiting[i].recorded_as(
                #[trigger] r.rows@[i],
                t0,
                current,
                None,
            )
        &&& after.history() == (if acting {
            earlier
        } else {
            newest(before.history() + Self::skipped(waiting, t0, current))
        })
    }

    /// What the policy is shown for this frame: it, then the history from its
    /// end.
    pub open spec fn shown(&self, last: Detected) -> Seq<StepModel<Pose>> {
        seq![last.seen(self.t0(), None)] + self.history().reverse()
    }

    /// Starts with no history, and the startup 0 in effect.
    pub fn new(t0: Duration) -> (l: Self)
        ensures
            l.wf(),
            l.t0() == t0,
            l.history() == Seq::<StepModel<Pose>>::empty(),
            l.current() == 0,
    {
        let l = PolicyLoop { t0, history: VecDeque::new(), current: 0 };
        assert(l.history() =~= Seq::<StepModel<Pose>>::empty());
        l
    }

    /// Adds a frame to the history, and lets the oldest go.
    fn remember(&mut self, s: Step<Pose>)
        requires
            old(self).history().len() <= HISTORY - 1,
            s.action == Some(old(self).current()),
        ensures
            final(self).wf(),
            final(self).t0() == old(self).t0(),
            final(self).current() == old(self).current(),
            final(self).history() == newest(old(self).history().push(s@)),
    {
        if self.history.len() == HISTORY - 1 {
            let _ = self.history.pop_front();
        }
        self.history.push_back(s);
        assert(self.history() =~= newest(old(self).history().push(s@)));
    }

    /// Takes the frames that have arrived since the last time, oldest first.
    /// All but the newest were skipped while the policy was busy: they join
    /// the history, and the table, with the action in effect. At the start of
    /// a recording the newest does too.
    pub fn receive(&mut self, waiting: Vec<Detected>) -> (r: Received)
        requires
            old(self).wf(),
            waiting@.len() > 0,
        ensures
            final(self).wf(),
            Self::took(*old(self), *final(self), waiting@, r),
    {
        let mut waiting = waiting;
        let ghost all = waiting@;
        let ghost before = self.history();
        let ghost t0 = self.t0;
        let ghost current = self.current();
        let last: Detected = waiting.pop().unwrap();
        let mut rows: Vec<FrameRow> = Vec::new();
        let ghost mut n: int = 0;
        assert(before + Self::skipped(all.take(0), t0, current) =~= before);
        assert(newest(before) =~= before);
        for d in it: waiting
            invariant
                all.len() > 0,
                it.seq() == all.drop_last(),
                n == it.index(),
                self.wf(),
                self.t0 == t0,
                self.current() == current,
                rows@.len() == n,
                forall|i: int|
                    0 <= i < n ==> all[i].recorded_as(#[trigger] rows@[i], t0, current, None),
                self.history() == newest(before + Self::skipped(all.take(n), t0, current)),
        {
            let action: i8 = self.current;
            assert(d == all.drop_last()[n]);
            self.remember(d.step(self.t0, Some(action)));
            proof {
                let shown = before + Self::skipped(all.take(n), t0, current);
                let next = before + Self::skipped(all.take(n + 1), t0, current);
                assert(next =~= shown.push(d.seen(t0, Some(current))));
                law_the_history_is_the_newest_frames(shown, seq![d.seen(t0, Some(current))]);
                assert(shown.push(d.seen(t0, Some(current))) =~= shown + seq![
                    d.seen(t0, Some(current)),
                ]);
                assert(newest(shown).push(d.seen(t0, Some(current))) =~= newest(shown) + seq![
                    d.seen(t0, Some(current)),
                ]);
                n = n + 1;
            }
            rows.push(d.row(self.t0, action, None));
        }
        assert(all.take(n) =~= all.drop_last());
        if self.history.len() < HISTORY - 1 {
            // The start of the recording: this frame only fills the history,
            // and the startup 0 stays in effect.
            let action: i8 = self.current;
            let ghost earlier = before + Self::skipped(all.drop_last(), t0, current);
            self.remember(last.step(self.t0, Some(action)));
            proof {
                assert(before + Self::skipped(all, t0, current) =~= earlier.push(
                    last.seen(t0, Some(current)),
                ));
            }
            rows.push(last.row(self.t0, action, None));
            return Received { rows, newest: None };
        }
        Received { rows, newest: Some(last) }
    }

    /// What the policy is shown: this frame, then the history from its end.
    pub fn input(&self, last: &Detected) -> (input: Vec<Step<Pose>>)
        requires
            self.wf(),
            self.history().len() == HISTORY - 1,
        ensures
            modelled(input@) == self.shown(*last),
    {
        let mut input: Vec<Step<Pose>> = Vec::new();
        input.push(last.step(self.t0, None));
        let ghost shown = seq![last.seen(self.t0(), None)] + self.history().reverse();
        let mut left: usize = self.history.len();
        while left > 0
            invariant
                left <= self.history@.len(),
                shown == seq![last.seen(self.t0(), None)] + self.history().reverse(),
                input@.len() == 1 + self.history@.len() - left,
                forall|i: int| 0 <= i < input@.len() ==> (#[trigger] input@[i])@ == shown[i],
            decreases left,
        {
            left = left - 1;
            input.push(self.history[left].clone());
        }
        assert(modelled(input@) =~= shown);
        input
    }

    /// Records that the policy chose `action` for this frame and it was sent.
    /// `times` are when the policy started, when it was done, and when the
    /// action had been written.
    pub fn acted(
        &mut self,
        last: Detected,
        action: i8,
        times: (Duration, Duration, Duration),
    ) -> (r: FrameRow)
        requires
            old(self).wf(),
        ensures
            final(self).wf(),
            final(self).t0() == old(self).t0(),
            final(self).current() == action,
            final(self).history() == newest(
                old(self).history().push(last.seen(old(self).t0(), Some(action))),
            ),
            last.recorded_as(r, old(self).t0(), action, Some(times)),
    {
        self.current = action;
        self.remember(last.step(self.t0, Some(action)));
        last.row(self.t0, action, Some(times))
    }
}

/// The policy's history is the newest of all the frames there have been,
/// however they arrived: remembering only the newest loses nothing that would
/// be shown later.
pub proof fn law_the_history_is_the_newest_frames<A>(frames: Seq<A>, more: Seq<A>)
    ensures
        newest(newest(frames) + more) == newest(frames + more),
{
    assert(newest(newest(frames) + more) =~= newest(frames + more));
}

/// The policy first acts once a recording has as many frames as it is shown.
/// Until then they only fill its history.
pub proof fn law_the_policy_acts_once_its_history_is_full(
    l: PolicyLoop,
    waiting: Seq<Detected>,
)
    requires
        l.wf(),
        waiting.len() > 0,
    ensures
        newest(
            l.history() + PolicyLoop::skipped(waiting.drop_last(), l.t0(), l.current()),
        ).len() == HISTORY - 1 <==> l.history().len() + waiting.len() >= HISTORY,
{
}

/// The policy is shown exactly as many frames as it looks at: the one to act
/// on, with no action yet, and the ones before it, newest first.
pub proof fn law_the_policy_is_shown_a_whole_history(l: PolicyLoop, last: Detected, i: int)
    requires
        l.wf(),
        l.history().len() == HISTORY - 1,
        1 <= i < HISTORY,
    ensures
        ({
            let shown = l.shown(last);
            &&& shown.len() == HISTORY
            &&& shown[0].frame == last.frame
            &&& shown[0].action is None
            &&& shown[i] == l.history()[HISTORY - 1 - i]
        }),
{
}

/// What a policy is shown of earlier frames ends with the action in effect,
/// whether the frame before was acted on or skipped.
pub proof fn law_a_skipped_frame_carries_the_action_in_effect(l: PolicyLoop)
    requires
        l.wf(),
        l.history().len() > 0,
    ensures
        l.history().reverse()[0].action == Some(l.current()),
{
}

/// What has happened in the policy's loop.
pub enum Happened {
    /// These frames have arrived, oldest first, and the recording goes on.
    Arrived(Vec<Detected>),
    /// The recording is over.
    Over,
    /// The policy is about to be asked.
    Asking(Duration),
    /// The policy chose this action, and was done by then.
    Chose(i8, Duration),
    /// The byte had been written by then.
    Wrote(Duration),
    /// Something went wrong.
    Failed,
}

/// What the policy's loop does next.
pub enum Do {
    /// Record these frames. Then ask the policy, if it is to act, or wait for
    /// more frames.
    Record { rows: Vec<FrameRow>, act: bool },
    /// Show the policy this.
    Act(Vec<Step<Pose>>),
    /// Write this byte.
    Write(u8),
    /// Record this frame, which the policy acted on.
    Acted(FrameRow),
    /// Write this byte, and see that it leaves.
    Halt(u8),
    /// Write nothing more. Whether all went well.
    Done { ok: bool },
}

/// How far the policy's loop has come in its turn.
pub enum Turn {
    /// It waits for frames.
    Waiting,
    /// It is to act on this frame.
    Acting(Detected),
    /// The policy is being asked about this frame, since then.
    Asked(Detected, Duration),
    /// An action for this frame is being written. When the policy started, and
    /// when it was done.
    Writing(Detected, i8, Duration, Duration),
    /// There is no other turn.
    Ended,
}

/// The last of some actions. Before any, the startup 0 is in effect.
pub open spec fn in_effect(actions: Seq<i8>) -> i8 {
    if actions.len() > 0 {
        actions.last()
    } else {
        0
    }
}

/// The actions that were sent, as some rows have it.
pub open spec fn sent_in(rows: Seq<FrameRow>) -> Seq<i8>
    decreases rows.len(),
{
    if rows.len() == 0 {
        Seq::empty()
    } else {
        let before = sent_in(rows.drop_last());
        if rows.last().acted {
            before.push(rows.last().action)
        } else {
            before
        }
    }
}

/// Rows of frames that were not acted on add nothing to what was sent.
proof fn lemma_skipped_rows_send_nothing(rows: Seq<FrameRow>, more: Seq<FrameRow>)
    requires
        forall|i: int| 0 <= i < more.len() ==> !(#[trigger] more[i]).acted,
    ensures
        sent_in(rows + more) == sent_in(rows),
    decreases more.len(),
{
    if more.len() > 0 {
        lemma_skipped_rows_send_nothing(rows, more.drop_last());
        assert((rows + more).drop_last() =~= rows + more.drop_last());
        assert((rows + more).last() == more[more.len() - 1]);
    } else {
        assert(rows + more =~= rows);
    }
}

/// The frames there are rows of, each with the action its row has.
pub open spec fn remembered(
    frames: Seq<Detected>,
    rows: Seq<FrameRow>,
    t0: Duration,
) -> Seq<StepModel<Pose>> {
    Seq::new(rows.len(), |i: int| frames[i].seen(t0, Some(rows[i].action)))
}

/// A recording as the policy runs it: it acts on the newest frame, its action
/// is sent at once, and when the recording is over the motor is stopped.
pub struct PolicyRun {
    state: PolicyLoop,
    motor: Motor,
    turn: Turn,
    /// The frames that have arrived.
    received: Ghost<Seq<Detected>>,
    /// The rows recorded.
    rows: Ghost<Seq<FrameRow>>,
}

impl PolicyRun {
    pub closed spec fn state(&self) -> PolicyLoop {
        self.state
    }

    pub closed spec fn motor(&self) -> Motor {
        self.motor
    }

    pub closed spec fn turn(&self) -> Turn {
        self.turn
    }

    /// The frames that have arrived, in order.
    pub closed spec fn received(&self) -> Seq<Detected> {
        self.received@
    }

    /// The rows recorded, oldest first.
    pub closed spec fn rows(&self) -> Seq<FrameRow> {
        self.rows@
    }

    /// Whether everything so far went well.
    pub open spec fn well(&self) -> bool {
        self.motor().stage() != (Stage::Stopping { failed: true }) && self.motor().stage() != (
        Stage::Stopped { failed: true })
    }

    /// A policy that is asked has a whole history, the action in effect is the
    /// last that was written, and every frame but the one acted on is recorded,
    /// with what was sent.
    pub open spec fn wf(&self) -> bool {
        &&& self.state().wf()
        &&& self.motor().wf()
        &&& self.rows().len() <= self.received().len() <= self.rows().len() + 1
        &&& forall|i: int|
            0 <= i < self.rows().len() ==> self.received()[i].recorded_in(
                #[trigger] self.rows()[i],
                self.state().t0(),
            )
        &&& self.turn() !is Ended ==> self.state().history() == newest(
            remembered(self.received(), self.rows(), self.state().t0()),
        )
        &&& match self.turn() {
            Turn::Waiting => {
                &&& self.rows().len() == self.received().len()
                &&& sent_in(self.rows()) == self.motor().actions()
                &&& self.motor().stage() == Stage::Ready
                &&& self.state().current() == in_effect(self.motor().actions())
            },
            Turn::Acting(newest) | Turn::Asked(newest, _) => {
                &&& self.received().len() == self.rows().len() + 1
                &&& self.received().last() == newest
                &&& sent_in(self.rows()) == self.motor().actions()
                &&& self.motor().stage() == Stage::Ready
                &&& self.state().current() == in_effect(self.motor().actions())
                &&& self.state().history().len() == HISTORY - 1
            },
            Turn::Writing(newest, action, _, _) => {
                &&& self.received().len() == self.rows().len() + 1
                &&& self.received().last() == newest
                &&& sent_in(self.rows()) == self.motor().actions().drop_last()
                &&& self.motor().stage() == Stage::Writing
                &&& self.motor().actions().last() == action
                &&& self.state().current() == in_effect(self.motor().actions().drop_last())
            },
            Turn::Ended => {
                &&& self.motor().stage() is Stopping || self.motor().stage() is Stopped
                &&& self.well() ==> self.rows().len() == self.received().len() && sent_in(
                    self.rows(),
                ) == self.motor().actions()
            },
        }
    }

    /// Whether the run has given up: the motor is to be stopped.
    pub open spec fn halted(&self, was: Self, d: Do) -> bool {
        &&& self.turn() is Ended
        &&& d == Do::Halt(0)
        &&& self.motor().stage() == (Stage::Stopping { failed: true })
        &&& self.motor().actions() == was.motor().actions()
        &&& self.state() == was.state()
        &&& self.received() == was.received()
        &&& self.rows() == was.rows()
    }

    /// Starts with no history, and the startup 0 in effect.
    pub fn new(t0: Duration) -> (l: Self)
        ensures
            l.wf(),
            l.turn() == Turn::Waiting,
            l.state().t0() == t0,
            l.state().history() == Seq::<StepModel<Pose>>::empty(),
            l.state().current() == 0,
            l.motor().asked() == Seq::<u8>::empty(),
            l.motor().actions() == Seq::<i8>::empty(),
            l.received() == Seq::<Detected>::empty(),
            l.rows() == Seq::<FrameRow>::empty(),
    {
        assert(newest(remembered(Seq::empty(), Seq::empty(), t0)) =~= Seq::empty());
        PolicyRun {
            state: PolicyLoop::new(t0),
            motor: Motor::new(),
            turn: Turn::Waiting,
            received: Ghost(Seq::empty()),
            rows: Ghost(Seq::empty()),
        }
    }

    /// Gives up: the motor is to be stopped.
    fn fail(&mut self) -> (d: Do)
        requires
            old(self).state().wf(),
            old(self).motor().wf(),
            old(self).motor().stage() == Stage::Ready || old(self).motor().stage()
                == Stage::Writing,
            old(self).rows().len() <= old(self).received().len() <= old(self).rows().len() + 1,
            forall|i: int|
                0 <= i < old(self).rows().len() ==> old(self).received()[i].recorded_in(
                    #[trigger] old(self).rows()[i],
                    old(self).state().t0(),
                ),
        ensures
            final(self).wf(),
            final(self).halted(*old(self), d),
            final(self).motor().asked() == old(self).motor().asked().push(0),
    {
        self.turn = Turn::Ended;
        match self.motor.next(Event::Failed) {
            Drive::Halt(b) => Do::Halt(b),
            _ => Do::Halt(0),
        }
    }

    /// What to do about what has happened. What does not belong where it
    /// happens counts as a failure. Once the recording is over or has failed,
    /// one write is left, and it stops the motor.
    pub fn next(&mut self, e: Happened) -> (d: Do)
        requires
            old(self).wf(),
        ensures
            final(self).wf(),
            final(self).state().t0() == old(self).state().t0(),
            final(self).motor().asked() == (match d {
                Do::Write(b) => old(self).motor().asked().push(b),
                Do::Halt(b) => old(self).motor().asked().push(b),
                _ => old(self).motor().asked(),
            }),
            final(self).received() == (match (old(self).turn(), e) {
                (Turn::Waiting, Happened::Arrived(frames)) => old(self).received() + frames@,
                _ => old(self).received(),
            }),
            final(self).rows() == (match d {
                Do::Record { rows, .. } => old(self).rows() + rows@,
                Do::Acted(row) => old(self).rows().push(row),
                _ => old(self).rows(),
            }),
            final(self).motor().actions() == (match (old(self).turn(), e) {
                (Turn::Asked(_, _), Happened::Chose(action, _)) => old(
                    self,
                ).motor().actions().push(action),
                _ => old(self).motor().actions(),
            }),
            match (old(self).turn(), e) {
                (Turn::Waiting, Happened::Arrived(frames)) => if frames@.len() > 0 {
                    &&& d is Record
                    &&& PolicyLoop::took(
                        old(self).state(),
                        final(self).state(),
                        frames@,
                        (Received {
                            rows: d->rows,
                            newest: if d->act {
                                Some(frames@.last())
                            } else {
                                None
                            },
                        }),
                    )
                    &&& final(self).turn() == (if d->act {
                        Turn::Acting(frames@.last())
                    } else {
                        Turn::Waiting
                    })
                } else {
                    &&& d is Record
                    &&& d->rows@.len() == 0
                    &&& !d->act
                    &&& final(self).turn() == Turn::Waiting
                    &&& final(self).state() == old(self).state()
                },
                (Turn::Waiting, Happened::Over) => {
                    &&& final(self).turn() == Turn::Ended
                    &&& final(self).state() == old(self).state()
                    &&& final(self).motor().stage() == (Stage::Stopping { failed: false })
                    &&& d == Do::Halt(0)
                },
                (Turn::Acting(newest), Happened::Asking(start)) => {
                    &&& final(self).turn() == Turn::Asked(newest, start)
                    &&& final(self).state() == old(self).state()
                    &&& d is Act
                    &&& modelled(d->Act_0@) == old(self).state().shown(newest)
                    &&& d->Act_0@.len() == HISTORY
                },
                (Turn::Asked(newest, start), Happened::Chose(action, done)) => {
                    &&& final(self).turn() == Turn::Writing(newest, action, start, done)
                    &&& final(self).state() == old(self).state()
                    &&& d == Do::Write((action as int % 256) as u8)
                },
                (Turn::Writing(newest, action, start, done), Happened::Wrote(sent)) => {
                    let t0 = old(self).state().t0();
                    &&& final(self).turn() == Turn::Waiting
                    &&& final(self).state().current() == action
                    &&& final(self).state().history() == crate::collect::newest(
                        old(self).state().history().push(newest.seen(t0, Some(action))),
                    )
                    &&& d is Acted
                    &&& newest.recorded_as(d->Acted_0, t0, action, Some((start, done, sent)))
                },
                (Turn::Ended, e) => {
                    let told = if e is Wrote {
                        Event::Written
                    } else {
                        Event::Failed
                    };
                    &&& final(self).turn() == Turn::Ended
                    &&& final(self).state() == old(self).state()
                    &&& final(self).motor().stage() == after(old(self).motor().stage(), told).0
                    &&& final(self).motor().stage() is Stopped
                    &&& d == (Do::Done { ok: final(self).well() })
                },
                _ => final(self).halted(*old(self), d),
            },
    {
        let mut turn: Turn = Turn::Ended;
        std::mem::swap(&mut turn, &mut self.turn);
        match turn {
            Turn::Waiting => match e {
                Happened::Arrived(frames) => {
                    if frames.len() == 0 {
                        self.turn = Turn::Waiting;
                        return Do::Record { rows: Vec::new(), act: false };
                    }
                    let ghost came = frames@;
                    let r = self.state.receive(frames);
                    proof {
                        let rows = r.rows@;
                        lemma_skipped_rows_send_nothing(self.rows@, rows);
                        self.received@ = self.received@ + came;
                        self.rows@ = self.rows@ + rows;
                        let t0 = self.state.t0();
                        let had = old(self).rows().len();
                        assert forall|i: int|
                            0 <= i < self.rows().len() implies self.received()[i].recorded_in(
                            #[trigger] self.rows()[i],
                            t0,
                        ) by {
                            if i >= had {
                                assert(came[i - had].recorded_in(rows[i - had], t0));
                            } else {
                                let row = old(self).rows()[i];
                                assert(old(self).received()[i].recorded_in(row, t0));
                            }
                        }
                    }
                    proof {
                        let t0 = self.state.t0();
                        let current = self.state.current();
                        let had = remembered(old(self).received(), old(self).rows(), t0);
                        let skipped = came.take(r.rows@.len() as int);
                        let more = PolicyLoop::skipped(skipped, t0, current);
                        assert(remembered(self.received(), self.rows(), t0) =~= had + more) by {
                            assert forall|i: int| 0 <= i < r.rows@.len() implies r.rows@[i].action
                                == current by {
                                assert(came[i].recorded_as(r.rows@[i], t0, current, None));
                            }
                        }
                        law_the_history_is_the_newest_frames(had, more);
                        assert(r.newest is Some ==> came.take(r.rows@.len() as int)
                            =~= came.drop_last());
                        assert(r.newest is None ==> came.take(r.rows@.len() as int) =~= came);
                    }
                    let act: bool = r.newest.is_some();
                    self.turn = match r.newest {
                        Some(newest) => Turn::Acting(newest),
                        None => Turn::Waiting,
                    };
                    Do::Record { rows: r.rows, act }
                },
                Happened::Over => {
                    match self.motor.next(Event::Over) {
                        Drive::Halt(b) => Do::Halt(b),
                        _ => Do::Halt(0),
                    }
                },
                _ => self.fail(),
            },
            Turn::Acting(newest) => match e {
                Happened::Asking(start) => {
                    let input: Vec<Step<Pose>> = self.state.input(&newest);
                    assert(input@.len() == modelled(input@).len());
                    self.turn = Turn::Asked(newest, start);
                    Do::Act(input)
                },
                _ => self.fail(),
            },
            Turn::Asked(newest, start) => match e {
                Happened::Chose(action, done) => {
                    let ghost before = self.motor.actions();
                    let d: Drive = self.motor.next(Event::Action(action));
                    assert(before.push(action).drop_last() =~= before);
                    self.turn = Turn::Writing(newest, action, start, done);
                    match d {
                        Drive::Write(b) => Do::Write(b),
                        _ => Do::Write(0),
                    }
                },
                _ => self.fail(),
            },
            Turn::Writing(newest, action, start, done) => match e {
                Happened::Wrote(sent) => {
                    let _ = self.motor.next(Event::Written);
                    self.turn = Turn::Waiting;
                    let row: FrameRow = self.state.acted(newest, action, (start, done, sent));
                    proof {
                        let before = self.rows@;
                        self.rows@ = before.push(row);
                        assert(self.rows@.drop_last() =~= before);
                        let t0 = self.state.t0();
                        let had = remembered(self.received@, before, t0);
                        let one = newest.seen(t0, Some(action));
                        assert(remembered(self.received@, self.rows@, t0) =~= had + seq![one]);
                        law_the_history_is_the_newest_frames(had, seq![one]);
                        assert(crate::collect::newest(had).push(one) =~= crate::collect::newest(had)
                            + seq![one]);
                        let actions = self.motor.actions();
                        assert(actions.drop_last().push(actions.last()) =~= actions);
                    }
                    Do::Acted(row)
                },
                _ => self.fail(),
            },
            Turn::Ended => {
                let told: Event = match e {
                    Happened::Wrote(_) => Event::Written,
                    _ => Event::Failed,
                };
                match self.motor.next(told) {
                    Drive::Done { ok } => Do::Done { ok },
                    _ => Do::Done { ok: false },
                }
            },
        }
    }
}

/// However a run ends, what was to be written is every action the policy chose,
/// in order, and a zero after them that stops the motor.
pub proof fn law_a_policy_run_ends_with_a_zero(l: PolicyRun)
    requires
        l.wf(),
        l.turn() is Ended,
    ensures
        l.motor().asked() == bytes(l.motor().actions()).push(0),
{
}

/// The rows recorded are of the frames received, each once and in the order
/// they arrived. Only the frame being acted on may have no row yet.
pub proof fn law_every_frame_received_is_recorded_once(l: PolicyRun, i: int)
    requires
        l.wf(),
        0 <= i < l.rows().len(),
    ensures
        l.rows().len() <= l.received().len() <= l.rows().len() + 1,
        l.turn() is Waiting ==> l.rows().len() == l.received().len(),
        l.received()[i].recorded_in(l.rows()[i], l.state().t0()),
{
}

/// A run that went well has recorded every frame it received, and wrote the
/// actions its rows say were sent, in order, and a zero after them.
pub proof fn law_a_policy_run_records_what_it_wrote(l: PolicyRun)
    requires
        l.wf(),
        l.turn() is Ended,
        l.well(),
    ensures
        l.rows().len() == l.received().len(),
        l.motor().asked() == bytes(sent_in(l.rows())).push(0),
{
}

/// While a run goes on, what frames carry as the action in effect is the last
/// action that was written, or the startup 0 before any.
pub proof fn law_the_action_in_effect_is_the_last_one_written(l: PolicyRun)
    requires
        l.wf(),
        l.turn() is Waiting || l.turn() is Acting || l.turn() is Asked,
    ensures
        l.motor().asked() == bytes(l.motor().actions()),
        l.state().current() == in_effect(l.motor().actions()),
{
}

/// What a policy sees of a frame: a pose for each recorded tag that was seen,
/// whatever its errors and margin, number by number the one that is recorded,
/// none for a tag that was not, and the time since t0.
pub proof fn law_a_policy_sees_the_recorded_poses(
    d: Detected,
    t0: Duration,
    action: Option<i8>,
    j: int,
)
    requires
        0 <= j < d.tags@.len(),
    ensures
        d.seen(t0, action).frame == d.frame,
        d.seen(t0, action).action == action,
        d.seen(t0, action).poses.len() == d.tags@.len(),
        d.seen(t0, action).poses[j] is Some <==> d.tags@[j] is Some,
        d.tags@[j] is Some ==> forall|n: int|
            0 <= n < 7 ==> #[trigger] d.seen(t0, action).poses[j]->0@[n] == d.tags@[j]->0.pose@[n],
        nanos(d.t_capture) >= nanos(t0) ==> nanos(t0) + d.seen(t0, action).t == nanos(d.t_capture),
        nanos(d.t_capture) < nanos(t0) ==> d.seen(t0, action).t == 0,
{
}

/// Each frame that was skipped joins the history as the policy would have been
/// shown it, with the action in effect.
pub proof fn law_skipped_frames_are_remembered_as_seen(
    frames: Seq<Detected>,
    t0: Duration,
    action: i8,
    i: int,
    j: int,
)
    requires
        0 <= i < frames.len(),
        0 <= j < frames[i].tags@.len(),
    ensures
        ({
            let s = PolicyLoop::skipped(frames, t0, action);
            &&& s.len() == frames.len()
            &&& s[i].frame == frames[i].frame
            &&& s[i].action == Some(action)
            &&& s[i].poses.len() == frames[i].tags@.len()
            &&& s[i].poses[j] is Some <==> frames[i].tags@[j] is Some
            &&& frames[i].tags@[j] is Some ==> s[i].poses[j] == Some(frames[i].tags@[j]->0.pose)
        }),
{
}

/// A row holds the frame's times in nanoseconds after t0, each in its own
/// column, wherever 64 bits can hold them.
pub proof fn law_a_row_holds_the_frames_times(
    d: Detected,
    r: FrameRow,
    t0: Duration,
    action: i8,
    times: Option<(Duration, Duration, Duration)>,
)
    requires
        d.recorded_as(r, t0, action, times),
        nanos(t0) <= i64::MAX,
        nanos(d.t_capture) <= i64::MAX,
        nanos(d.t_arrival) <= i64::MAX,
        nanos(d.t_detect_start) <= i64::MAX,
        nanos(d.t_detected) <= i64::MAX,
        times matches Some((start, done, sent)) ==> {
            &&& nanos(start) <= i64::MAX
            &&& nanos(done) <= i64::MAX
            &&& nanos(sent) <= i64::MAX
        },
    ensures
        r.frame == d.frame,
        r.tags@ == d.tags@,
        r.action == action,
        r.acted <==> times is Some,
        nanos(t0) + r.t_capture == nanos(d.t_capture),
        nanos(t0) + r.t_arrival == nanos(d.t_arrival),
        nanos(t0) + r.t_detect_start == nanos(d.t_detect_start),
        nanos(t0) + r.t_detected == nanos(d.t_detected),
        r.t_policy_start is Some <==> times is Some,
        r.t_policy_done is Some <==> times is Some,
        r.t_sent is Some <==> times is Some,
        times matches Some((start, done, sent)) ==> {
            &&& nanos(t0) + r.t_policy_start->0 == nanos(start)
            &&& nanos(t0) + r.t_policy_done->0 == nanos(done)
            &&& nanos(t0) + r.t_sent->0 == nanos(sent)
        },
{
}

/// Of the tags with an id, the first that was seen counts; of one that was not
/// seen nothing is recorded.
pub proof fn law_the_first_tag_seen_counts(seen: Seq<Seen>, id: usize, i: int)
    requires
        forall|j: int| 0 <= j < i ==> (#[trigger] seen[j]).id != id,
        0 <= i <= seen.len(),
    ensures
        i < seen.len() && seen[i].id == id ==> tag_seen(seen, id) == seen[i].row,
        i == seen.len() ==> tag_seen(seen, id) is None,
    decreases seen.len(),
{
    if i > 0 {
        let rest = seen.drop_first();
        assert forall|j: int| 0 <= j < i - 1 implies (#[trigger] rest[j]).id != id by {
            assert(rest[j] == seen[j + 1]);
        }
        law_the_first_tag_seen_counts(rest, id, i - 1);
    }
}

/// There is an entry for each recorded tag, in the order of their ids.
pub proof fn law_tags_are_recorded_in_order(seen: Seq<Seen>, ids: Seq<usize>, j: int)
    requires
        0 <= j < ids.len(),
    ensures
        tags_seen(seen, ids).len() == ids.len(),
        tags_seen(seen, ids)[j] == tag_seen(seen, ids[j]),
{
}

/// The newest frames are the last two, or all there are.
pub proof fn law_the_newest_are_the_last_two<A>(frames: Seq<A>, a: A, b: A)
    ensures
        newest(frames + seq![a, b]) == seq![a, b],
        newest(seq![a]) == seq![a],
        newest(Seq::<A>::empty()) == Seq::<A>::empty(),
{
    assert(newest(frames + seq![a, b]) =~= seq![a, b]);
}

/// What a policy is shown when it is to act: the newest frame received, with no
/// action yet, and before it the two that were recorded last, the newer one
/// first, each with the action its row has. In each of them pose number `j` is
/// there exactly if tag number `j` was seen, and is the one that was recorded.
pub proof fn law_a_policy_is_shown_the_frames_received(l: PolicyRun, d: Detected, i: int, j: int)
    requires
        l.wf(),
        l.turn() == Turn::Acting(d),
        0 <= i < 3,
        0 <= j < l.received()[l.rows().len() - i].tags@.len(),
    ensures
        ({
            let shown = l.state().shown(d);
            let n = l.rows().len() as int;
            let frame = l.received()[n - i];
            let step = shown[i];
            &&& shown.len() == 3
            &&& n >= 2
            &&& l.received().len() == n + 1
            &&& step.frame == frame.frame
            &&& i == 0 ==> step.action is None
            &&& i > 0 ==> step.action == Some(l.rows()[n - i].action)
            &&& step.poses.len() == frame.tags@.len()
            &&& step.poses[j] is Some <==> frame.tags@[j] is Some
            &&& frame.tags@[j] is Some ==> step.poses[j] == Some(frame.tags@[j]->0.pose)
            &&& i > 0 ==> frame.tags@[j] == l.rows()[n - i].tags@[j]
        }),
{
    let shown = l.state().shown(d);
    let all = remembered(l.received(), l.rows(), l.state().t0());
    let n = l.rows().len() as int;
    assert(l.state().history() == newest(all));
    assert(all.len() >= 2);
    assert(shown[1] == all[n - 1]);
    assert(shown[2] == all[n - 2]);
    assert(i > 0 ==> l.received()[n - i].recorded_in(l.rows()[n - i], l.state().t0()));
}

/// What was sent is what the rows of the frames acted on say, in order.
pub proof fn law_the_rows_say_what_was_sent(rows: Seq<FrameRow>, row: FrameRow)
    ensures
        row.acted ==> sent_in(rows.push(row)) == sent_in(rows).push(row.action),
        !row.acted ==> sent_in(rows.push(row)) == sent_in(rows),
        sent_in(Seq::empty()) == Seq::<i8>::empty(),
{
    assert(rows.push(row).drop_last() =~= rows);
}

} // verus!
