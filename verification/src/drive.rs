//! The motor's side of a recording: which byte goes to the board next.
//!
//! A loop that drives the motor asks here what to write. However the loop
//! ends, the last byte it is given stops the motor.

use crate::serial::command;
use vstd::prelude::*;

verus! {

/// The byte that sets this duty.
pub open spec fn byte(duty: i8) -> u8 {
    (duty as int % 256) as u8
}

/// The bytes that set these duties, one after the other.
pub open spec fn bytes(duties: Seq<i8>) -> Seq<u8> {
    duties.map_values(|duty: i8| byte(duty))
}

/// How far a motor has come.
#[derive(Clone, Copy, Debug, PartialEq, Eq, Structural)]
pub enum Stage {
    /// It waits for an action.
    Ready,
    /// An action is being written.
    Writing,
    /// The zero that stops it is being written.
    Stopping { failed: bool },
    /// It has stopped.
    Stopped { failed: bool },
}

/// What has happened.
#[derive(Clone, Copy, Debug, PartialEq, Eq, Structural)]
pub enum Event {
    /// There is an action to send.
    Action(i8),
    /// What was to be written has been.
    Written,
    /// The recording is over.
    Over,
    /// Something went wrong, with the write or elsewhere.
    Failed,
}

/// What to do next.
#[derive(Clone, Copy, Debug, PartialEq, Eq, Structural)]
pub enum Drive {
    /// Go on with the recording.
    Run,
    /// Write this byte.
    Write(u8),
    /// Write this byte, and see that it leaves.
    Halt(u8),
    /// Write nothing more. Whether all went well.
    Done { ok: bool },
}

/// Where an event leads, and what is done about it. What does not belong where
/// it happens counts as a failure.
pub open spec fn after(stage: Stage, e: Event) -> (Stage, Drive) {
    match stage {
        Stage::Ready => match e {
            Event::Action(duty) => (Stage::Writing, Drive::Write(byte(duty))),
            Event::Over => (Stage::Stopping { failed: false }, Drive::Halt(byte(0))),
            _ => (Stage::Stopping { failed: true }, Drive::Halt(byte(0))),
        },
        Stage::Writing => match e {
            Event::Written => (Stage::Ready, Drive::Run),
            _ => (Stage::Stopping { failed: true }, Drive::Halt(byte(0))),
        },
        Stage::Stopping { failed } => {
            let failed = failed || e != Event::Written;
            (Stage::Stopped { failed }, (Drive::Done { ok: !failed }))
        },
        Stage::Stopped { failed } => (stage, (Drive::Done { ok: !failed })),
    }
}

/// What goes to the motor in a recording.
pub struct Motor {
    stage: Stage,
    /// The actions there have been.
    actions: Ghost<Seq<i8>>,
    /// The bytes there were to write.
    asked: Ghost<Seq<u8>>,
}

impl Motor {
    pub closed spec fn stage(&self) -> Stage {
        self.stage
    }

    /// The actions there have been.
    pub closed spec fn actions(&self) -> Seq<i8> {
        self.actions@
    }

    /// Every byte that was to be written, in order.
    pub closed spec fn asked(&self) -> Seq<u8> {
        self.asked@
    }

    /// What was to be written is the actions, and once the motor is to stop, a
    /// zero after them.
    pub open spec fn wf(&self) -> bool {
        match self.stage() {
            Stage::Ready => self.asked() == bytes(self.actions()),
            Stage::Writing => self.asked() == bytes(self.actions()) && self.actions().len() > 0,
            _ => self.asked() == bytes(self.actions()).push(byte(0)),
        }
    }

    /// Nothing has been written yet.
    pub fn new() -> (m: Self)
        ensures
            m.wf(),
            m.stage() == Stage::Ready,
            m.actions() == Seq::<i8>::empty(),
            m.asked() == Seq::<u8>::empty(),
    {
        let m = Motor {
            stage: Stage::Ready,
            actions: Ghost(Seq::empty()),
            asked: Ghost(Seq::empty()),
        };
        assert(m.asked() =~= bytes(m.actions()));
        m
    }

    /// What to do about what has happened.
    pub fn next(&mut self, e: Event) -> (d: Drive)
        requires
            old(self).wf(),
        ensures
            final(self).wf(),
            (final(self).stage(), d) == after(old(self).stage(), e),
            final(self).actions() == (match (old(self).stage(), e) {
                (Stage::Ready, Event::Action(duty)) => old(self).actions().push(duty),
                _ => old(self).actions(),
            }),
            final(self).asked() == (match d {
                Drive::Write(b) => old(self).asked().push(b),
                Drive::Halt(b) => old(self).asked().push(b),
                _ => old(self).asked(),
            }),
    {
        let (stage, d) = match self.stage {
            Stage::Ready => match e {
                Event::Action(duty) => (Stage::Writing, Drive::Write(command(duty))),
                Event::Over => (Stage::Stopping { failed: false }, Drive::Halt(command(0))),
                _ => (Stage::Stopping { failed: true }, Drive::Halt(command(0))),
            },
            Stage::Writing => match e {
                Event::Written => (Stage::Ready, Drive::Run),
                _ => (Stage::Stopping { failed: true }, Drive::Halt(command(0))),
            },
            Stage::Stopping { failed } => {
                let failed: bool = failed || e != Event::Written;
                (Stage::Stopped { failed }, Drive::Done { ok: !failed })
            },
            Stage::Stopped { failed } => (Stage::Stopped { failed }, Drive::Done { ok: !failed }),
        };
        self.stage = stage;
        proof {
            match d {
                Drive::Write(b) => {
                    let duty = e->Action_0;
                    assert(bytes(self.actions@.push(duty)) =~= bytes(self.actions@).push(b));
                    self.actions@ = self.actions@.push(duty);
                    self.asked@ = self.asked@.push(b);
                },
                Drive::Halt(b) => {
                    self.asked@ = self.asked@.push(b);
                },
                _ => {},
            }
        }
        d
    }
}

/// However a recording ends, the last byte written stops the motor, and
/// before it went the actions and nothing else.
pub proof fn law_the_last_byte_stops_the_motor(m: Motor)
    requires
        m.wf(),
        m.stage() is Stopping || m.stage() is Stopped,
    ensures
        m.asked().len() > 0,
        m.asked().last() == 0,
        m.asked().drop_last() == bytes(m.actions()),
{
    assert(m.asked().drop_last() =~= bytes(m.actions()));
}

/// Once a recording is over or has failed, one write is left and it stops the
/// motor; whatever comes of that write, there is no other.
pub proof fn law_nothing_is_written_after_the_stop(
    stage: Stage,
    end: Event,
    more: Event,
    late: Event,
)
    requires
        stage is Ready || stage is Writing,
        end == Event::Over || end == Event::Failed,
    ensures
        after(stage, end).1 == Drive::Halt(0),
        after(after(stage, end).0, more).1 is Done,
        after(after(after(stage, end).0, more).0, late) == after(after(stage, end).0, more),
{
}

/// A recording goes well only if it ends on its own and the zero was written.
pub proof fn law_a_motor_stops_well_only_if_the_zero_was_written(stage: Stage, e: Event)
    requires
        stage is Ready || stage is Writing,
        after(stage, e).0 is Stopping,
    ensures
        after(after(stage, e).0, Event::Written).1 == (Drive::Done {
            ok: stage is Ready && e == Event::Over,
        }),
        after(after(stage, e).0, Event::Failed).1 == (Drive::Done { ok: false }),
{
}

/// A duty's byte is its two's complement, so that no two duties share one: the
/// duty itself, or 256 more where it is negative.
pub proof fn law_a_byte_is_the_twos_complement(duty: i8, duties: Seq<i8>, i: int)
    ensures
        duty >= 0 ==> byte(duty) == duty,
        duty < 0 ==> byte(duty) == 256 + duty,
        bytes(duties).len() == duties.len(),
        0 <= i < duties.len() && duties[i] >= 0 ==> bytes(duties)[i] == duties[i],
        0 <= i < duties.len() && duties[i] < 0 ==> bytes(duties)[i] == 256 + duties[i],
{
}

/// What goes wrong stops the motor, with a zero, whatever it was doing, and is
/// remembered to the end.
pub proof fn law_a_failure_stops_the_motor(stage: Stage, e: Event)
    ensures
        stage == Stage::Ready && !(e is Action) && !(e is Over) ==> after(stage, e) == (
            Stage::Stopping { failed: true },
            Drive::Halt(0),
        ),
        stage == Stage::Writing && e != Event::Written ==> after(stage, e) == (
            Stage::Stopping { failed: true },
            Drive::Halt(0),
        ),
        stage == Stage::Ready && e is Over ==> after(stage, e) == (
            Stage::Stopping { failed: false },
            Drive::Halt(0),
        ),
        stage is Stopping || stage is Stopped ==> after(stage, e).0 is Stopped,
        stage == (Stage::Stopping { failed: true }) || stage == (Stage::Stopped { failed: true })
            ==> after(stage, e).1 == (Drive::Done { ok: false }),
        stage == (Stage::Stopping { failed: false }) ==> after(stage, e).1 == (Drive::Done {
            ok: e == Event::Written,
        }),
{
}

} // verus!
