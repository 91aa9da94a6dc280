//! The order and pacing in which the reports of a message go to the device.
//!
//! Writing to the device and waiting are the caller's part. What is decided
//! here is what the caller does next, given what came of the last step:
//! the reports are written in order, each write is followed by a pause, and
//! after a failed write nothing more is sent.

use vstd::prelude::*;
use crate::message::Message;

verus! {

/// Time to wait after each report of a message, in milliseconds. The
/// device drops or misreads reports that follow each other faster.
pub const REPORT_INTERVAL_MS: u64 = 150;

/// Where a transfer stands.
#[derive(Debug, Clone, Copy, PartialEq, Eq, Structural)]
pub enum Phase {
    /// The next report is to be written.
    Writing,
    /// A report was written and the pause after it is due.
    Pausing,
    /// Every report was written and every pause kept.
    Done,
    /// A write failed.
    Failed,
}

/// What the caller is to do next.
#[derive(Debug, Clone, Copy, PartialEq, Eq, Structural)]
pub enum Action {
    /// Write report `index` of the message.
    Write { index: usize },
    /// Wait for `millis` milliseconds.
    Pause { millis: u64 },
    /// Nothing: the message was sent.
    Finish,
    /// Nothing: the write of report `index` failed, and the reports after
    /// it stay unsent.
    Abort { index: usize },
}

/// What came of the last action.
#[derive(Debug, Clone, Copy, PartialEq, Eq, Structural)]
pub enum Event {
    /// The device took the report.
    Written,
    /// The write failed.
    WriteFailed,
    /// The pause is over.
    Paused,
}

/// The mathematical model of a transfer: `written` of `total` reports
/// have been written so far.
pub struct Progress {
    pub total: nat,
    pub written: nat,
    pub phase: Phase,
}

impl Progress {
    pub open spec fn wf(self) -> bool {
        &&& self.written <= self.total
        &&& self.phase == Phase::Writing ==> self.written < self.total
        &&& self.phase == Phase::Pausing ==> self.written > 0
        &&& self.phase == Phase::Done ==> self.written == self.total
        &&& self.phase == Phase::Failed ==> self.written < self.total
    }

    /// The transfer of a message of `total` reports, before the first write.
    pub open spec fn start(total: nat) -> Progress {
        Progress {
            total,
            written: 0,
            phase: if total == 0 {
                Phase::Done
            } else {
                Phase::Writing
            },
        }
    }

    /// The action that is due.
    pub open spec fn action(self) -> Action {
        match self.phase {
            Phase::Writing => Action::Write { index: self.written as usize },
            Phase::Pausing => Action::Pause { millis: REPORT_INTERVAL_MS },
            Phase::Done => Action::Finish,
            Phase::Failed => Action::Abort { index: self.written as usize },
        }
    }

    /// The transfer after `event`. An event that does not answer the action
    /// that was due changes nothing.
    pub open spec fn step(self, event: Event) -> Progress {
        match (self.phase, event) {
            (Phase::Writing, Event::Written) => Progress {
                written: self.written + 1,
                phase: Phase::Pausing,
                ..self
            },
            (Phase::Writing, Event::WriteFailed) => Progress { phase: Phase::Failed, ..self },
            (Phase::Pausing, Event::Paused) => Progress {
                phase: if self.written < self.total {
                    Phase::Writing
                } else {
                    Phase::Done
                },
                ..self
            },
            _ => self,
        }
    }

    /// The transfer after each of `events` in turn.
    pub open spec fn run(self, events: Seq<Event>) -> Progress
        decreases events.len(),
    {
        if events.len() == 0 {
            self
        } else {
            self.run(events.drop_last()).step(events.last())
        }
    }

    /// A step keeps a transfer well formed and never takes a report back.
    pub proof fn lemma_step(self, event: Event)
        requires
            self.wf(),
        ensures
            self.step(event).wf(),
            self.step(event).total == self.total,
            self.written <= self.step(event).written <= self.written + 1,
    {
    }

    /// Reports are written in order: the report to write is always the one
    /// after those already written.
    pub proof fn lemma_writes_in_order(self)
        requires
            self.wf(),
            self.total <= usize::MAX,
        ensures
            self.action() matches Action::Write { index } ==> index == self.written && index
                < self.total,
    {
    }

    /// Every write is followed by a pause of the fixed interval, and only
    /// the end of that pause lets the transfer go on.
    pub proof fn lemma_pause_after_write(self, event: Event)
        requires
            self.wf(),
            self.phase == Phase::Writing,
        ensures
            self.step(Event::Written).action() == (Action::Pause { millis: REPORT_INTERVAL_MS }),
            event != Event::Paused ==> self.step(Event::Written).step(event) == self.step(
                Event::Written,
            ),
    {
    }

    /// After a failed write nothing is sent: whatever happens next, the
    /// transfer stays aborted at the report that failed.
    pub proof fn lemma_failure_is_final(self, events: Seq<Event>)
        requires
            self.phase == Phase::Failed,
        ensures
            self.run(events) == self,
        decreases events.len(),
    {
        if events.len() > 0 {
            self.lemma_failure_is_final(events.drop_last());
        }
    }
}

/// The transfer of one message to the device.
#[derive(Debug, Clone, Copy, PartialEq, Eq)]
pub struct Transfer {
    total: usize,
    written: usize,
    phase: Phase,
}

impl View for Transfer {
    type V = Progress;

    closed spec fn view(&self) -> Progress {
        Progress { total: self.total as nat, written: self.written as nat, phase: self.phase }
    }
}

impl Transfer {
    #[verifier::type_invariant]
    spec fn inv(self) -> bool {
        self@.wf()
    }

    /// The transfer of `message`, before the first write.
    pub fn new(message: &Message) -> (t: Self)
        ensures
            t@ == Progress::start(message@.len()),
            t@.wf(),
    {
        Transfer { total: message.len(), written: 0, phase: Phase::Writing }
    }

    /// The action that is due.
    pub fn action(&self) -> (a: Action)
        ensures
            a == self@.action(),
    {
        match self.phase {
            Phase::Writing => Action::Write { index: self.written },
            Phase::Pausing => Action::Pause { millis: REPORT_INTERVAL_MS },
            Phase::Done => Action::Finish,
            Phase::Failed => Action::Abort { index: self.written },
        }
    }

    /// Takes note of what came of the last action, and says what is due
    /// next.
    pub fn step(self, event: Event) -> (next: (Self, Action))
        ensures
            next.0@ == self@.step(event),
            next.0@.wf(),
            next.1 == self@.step(event).action(),
    {
        proof {
            use_type_invariant(&self);
        }
        let Transfer { total, written, phase } = self;
        let t = match (phase, event) {
            (Phase::Writing, Event::Written) => Transfer {
                total,
                written: written + 1,
                phase: Phase::Pausing,
            },
            (Phase::Writing, Event::WriteFailed) => Transfer { total, written, phase: Phase::Failed },
            (Phase::Pausing, Event::Paused) => Transfer {
                total,
                written,
                phase: if written < total {
                    Phase::Writing
                } else {
                    Phase::Done
                },
            },
            _ => Transfer { total, written, phase },
        };
        let a = t.action();
        (t, a)
    }
}

} // verus!
