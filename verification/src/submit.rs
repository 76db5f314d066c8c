//! Submitting a command and waiting for what comes of it.
//!
//! Two signals are told apart: that the shim has delivered the command, and that the
//! game has advanced a turn. A key that only opens a menu causes the first and not the
//! second.

use crate::bytes;
use crate::bytes::{to_i32, word_at};
use crate::error::Error;
use crate::mailbox;
use crate::mailbox::{
    command_writes, label, Command, MailboxCmd, MB_ACK, MB_EXPECT_VERSION, MB_SEQ, MB_SIZE,
    MB_STATUS, MB_VERSION,
};
use crate::memory::{Answer, Read, Reply, Stored, Write};
use crate::text;
use crate::text::{push_dec, push_dec_u};
use vstd::prelude::*;
use vstd::string::StringExecFns;

verus! {

/// How long a turn is waited for, in milliseconds.
pub const TURN_TIMEOUT: u64 = 750;

/// What a submission waits for.
#[derive(Debug, Clone, Copy, PartialEq, Eq, Structural)]
pub enum Phase {
    /// The mailbox's protocol version.
    Version,
    /// The mailbox to become writable.
    Protect,
    /// The mailbox's sequence number.
    Number,
    /// The turn counter before the command.
    Before,
    /// One of the command's writes.
    Write { index: usize },
    /// The stopwatch to be started.
    Start,
    /// The time since then.
    Wait,
    /// The acknowledged sequence number.
    Ack,
    /// A pause before the next look at it.
    Nap,
    /// The time that the delivery took.
    Timing,
    /// What the shim says of the command.
    Status,
    /// The stopwatch to be started again.
    StartTurn,
    /// The time since then.
    Turn,
    /// The turn counter.
    Sample,
    /// A pause before the next look at it.
    TurnNap,
    /// Nothing: the command was delivered.
    Done,
    /// Nothing: it was not.
    Failed { failure: Failure },
}

/// Why a command was not delivered.
#[derive(Debug, Clone, Copy, PartialEq, Eq, Structural)]
pub enum Failure {
    /// The mailbox could not be used.
    Memory { error: Error },
    /// The shim did not acknowledge the command in time.
    NeverAcked,
    /// The shim refused it.
    Rejected { status: i32 },
}

/// What has to be done next.
#[derive(Debug)]
pub enum Action {
    Read(Read),
    /// Make this part of the target's memory writable.
    Protect { addr: u64, len: usize },
    Write(Write),
    /// Read the turn counter out of the mirror, if that is possible.
    Sample,
    /// Start the stopwatch.
    Start,
    /// Look at the stopwatch.
    Clock,
    /// Sleep for this many milliseconds.
    Sleep(u64),
    /// The submission is over.
    Over,
}

/// An action, as contracts speak of it.
pub enum Deed {
    Read(Read),
    Protect { addr: u64, len: usize },
    Write(Stored),
    Sample,
    Start,
    Clock,
    Sleep(u64),
    Over,
}

impl View for Action {
    type V = Deed;

    open spec fn view(&self) -> Deed {
        match self {
            Action::Read(q) => Deed::Read(*q),
            Action::Protect { addr, len } => Deed::Protect { addr: *addr, len: *len },
            Action::Write(w) => Deed::Write(w@),
            Action::Sample => Deed::Sample,
            Action::Start => Deed::Start,
            Action::Clock => Deed::Clock,
            Action::Sleep(ms) => Deed::Sleep(*ms),
            Action::Over => Deed::Over,
        }
    }
}

/// What came of an action.
#[derive(Debug)]
pub enum Event {
    Reply(Reply),
    /// Nothing, or why the memory stays as it is.
    Protected(Option<Error>),
    /// Nothing, or the operating system's code for why the write failed.
    Written(Option<i32>),
    Sampled(Option<i32>),
    /// Milliseconds on the stopwatch.
    Elapsed(u64),
    /// The stopwatch runs, or the pause is over.
    Done,
}

/// An event, as contracts speak of it.
pub enum Outcome {
    Reply(Answer),
    Protected(Option<Error>),
    Written(Option<i32>),
    Sampled(Option<i32>),
    Elapsed(u64),
    Done,
}

impl View for Event {
    type V = Outcome;

    open spec fn view(&self) -> Outcome {
        match self {
            Event::Reply(r) => Outcome::Reply(r@),
            Event::Protected(e) => Outcome::Protected(*e),
            Event::Written(c) => Outcome::Written(*c),
            Event::Sampled(a) => Outcome::Sampled(*a),
            Event::Elapsed(ms) => Outcome::Elapsed(*ms),
            Event::Done => Outcome::Done,
        }
    }
}

impl Outcome {
    /// Whether this can come of an action.
    pub open spec fn follows(self, deed: Deed) -> bool {
        match deed {
            Deed::Read(q) => self matches Outcome::Reply(a) && a.fits(q),
            Deed::Protect { .. } => self is Protected,
            Deed::Write(_) => self is Written,
            Deed::Sample => self is Sampled,
            Deed::Start => self is Done,
            Deed::Clock => self is Elapsed,
            Deed::Sleep(_) => self is Done,
            Deed::Over => true,
        }
    }
}

/// How long a delivery is waited for, in milliseconds. A dump is acknowledged only when
/// the file is written.
pub open spec fn timeout(cmd: Command) -> int {
    match cmd {
        Command::Dump { budget_ms } => budget_ms + 3000,
        _ => 2000,
    }
}

/// How far a submission has come.
pub struct Course {
    pub cmd: Command,
    pub addr: u64,
    pub phase: Phase,
    pub seq: u32,
    pub before: i32,
    pub after: i32,
    pub deliver_ms: u64,
}

impl Course {
    /// Before the first action.
    pub open spec fn start(cmd: Command, addr: u64) -> Course {
        Course { cmd, addr, phase: Phase::Version, seq: 0, before: -1i32, after: -1i32, deliver_ms: 0 }
    }

    /// The read of a word of the mailbox.
    pub open spec fn word(self, off: u64) -> Deed {
        Deed::Read(Read { addr: (self.addr + off) as u64, len: 4 })
    }

    /// The writes of the command.
    pub open spec fn writes(self) -> Seq<Stored> {
        mailbox::writes(self.cmd, self.addr, self.seq)
    }

    /// The next action.
    pub open spec fn deed(self) -> Deed {
        match self.phase {
            Phase::Version => self.word(MB_VERSION),
            Phase::Protect => Deed::Protect { addr: self.addr, len: MB_SIZE },
            Phase::Number => self.word(MB_SEQ),
            Phase::Before => Deed::Sample,
            Phase::Write { index } => Deed::Write(self.writes()[index as int]),
            Phase::Start => Deed::Start,
            Phase::Wait => Deed::Clock,
            Phase::Ack => self.word(MB_ACK),
            Phase::Nap => Deed::Sleep(2),
            Phase::Timing => Deed::Clock,
            Phase::Status => self.word(MB_STATUS),
            Phase::StartTurn => Deed::Start,
            Phase::Turn => Deed::Clock,
            Phase::Sample => Deed::Sample,
            Phase::TurnNap => Deed::Sleep(5),
            Phase::Done => Deed::Over,
            Phase::Failed { .. } => Deed::Over,
        }
    }

    /// The same submission in another phase.
    pub open spec fn at(self, phase: Phase) -> Course {
        Course { phase, ..self }
    }

    /// The submission after a failed use of the mailbox.
    pub open spec fn broken(self, error: Error) -> Course {
        self.at(Phase::Failed { failure: Failure::Memory { error } })
    }

    /// What comes of reading a word of the mailbox.
    pub open spec fn on_word(self, w: int) -> Course {
        match self.phase {
            Phase::Version => if w == MB_EXPECT_VERSION {
                self.at(Phase::Protect)
            } else {
                self.broken(Error::MailboxVersion { version: w as u32 })
            },
            Phase::Number => Course { seq: w as u32, phase: Phase::Before, ..self },
            Phase::Ack => if w == mailbox::next_seq(self.seq) {
                self.at(Phase::Timing)
            } else {
                self.at(Phase::Nap)
            },
            Phase::Status => if bytes::signed32(w) < 0 {
                self.at(
                    Phase::Failed {
                        failure: Failure::Rejected { status: bytes::signed32(w) as i32 },
                    },
                )
            } else if self.cmd is Dump {
                self.at(Phase::Done)
            } else {
                self.at(Phase::StartTurn)
            },
            _ => self,
        }
    }

    /// What comes of looking at the stopwatch.
    pub open spec fn on_clock(self, ms: u64) -> Course {
        match self.phase {
            Phase::Wait => if ms < timeout(self.cmd) {
                self.at(Phase::Ack)
            } else {
                self.at(Phase::Failed { failure: Failure::NeverAcked })
            },
            Phase::Timing => Course { deliver_ms: ms, phase: Phase::Status, ..self },
            Phase::Turn => if ms < TURN_TIMEOUT {
                self.at(Phase::Sample)
            } else {
                self.at(Phase::Done)
            },
            _ => self,
        }
    }

    /// What comes of looking at the turn counter.
    pub open spec fn on_sample(self, a: Option<i32>) -> Course {
        match self.phase {
            Phase::Before => {
                let v = match a {
                    Some(v) => v,
                    None => -1i32,
                };
                Course { before: v, after: v, phase: Phase::Write { index: 0 }, ..self }
            },
            Phase::Sample => match a {
                Some(v) if v != self.before => Course { after: v, phase: Phase::Done, ..self },
                _ => self.at(Phase::TurnNap),
            },
            _ => self,
        }
    }

    /// What an event leads to.
    pub open spec fn step(self, e: Outcome) -> Course {
        match e {
            Outcome::Reply(Answer::Bytes(b)) => self.on_word(bytes::le32(b, 0)),
            Outcome::Reply(Answer::Failed(code)) => match self.phase {
                Phase::Version | Phase::Number | Phase::Ack | Phase::Status => self.broken(
                    Error::Os { code },
                ),
                _ => self,
            },
            Outcome::Protected(error) => match (self.phase, error) {
                (Phase::Protect, None) => self.at(Phase::Number),
                (Phase::Protect, Some(error)) => self.broken(error),
                _ => self,
            },
            Outcome::Written(code) => match (self.phase, code) {
                (Phase::Write { index }, None) => if index + 1 < self.writes().len() {
                    self.at(Phase::Write { index: (index + 1) as usize })
                } else {
                    self.at(Phase::Start)
                },
                (Phase::Write { .. }, Some(code)) => self.broken(Error::WriteFailed { code }),
                _ => self,
            },
            Outcome::Sampled(a) => self.on_sample(a),
            Outcome::Elapsed(ms) => self.on_clock(ms),
            Outcome::Done => match self.phase {
                Phase::Start => self.at(Phase::Wait),
                Phase::Nap => self.at(Phase::Wait),
                Phase::StartTurn => self.at(Phase::Turn),
                Phase::TurnNap => self.at(Phase::Turn),
                _ => self,
            },
        }
    }

    /// What holds at every point of a submission.
    pub open spec fn valid(self) -> bool {
        &&& self.addr + MB_SIZE <= u64::MAX
        &&& self.cmd.fits()
        &&& self.phase matches Phase::Write { index } ==> index < self.writes().len()
    }

    /// How the command is called.
    pub open spec fn label(self) -> Seq<char> {
        self.cmd.label(self.cmd.quoted())
    }

    /// What is reported once the command was delivered.
    pub open spec fn report(self) -> Seq<char> {
        if self.cmd is Dump {
            self.label() + " completed in "@ + text::dec(self.deliver_ms as int) + "ms"@
        } else if self.after != self.before {
            self.label() + " delivered in "@ + text::dec(self.deliver_ms as int)
                + "ms; turn advanced "@ + text::dec(self.before as int) + " -> "@ + text::dec(
                self.after as int,
            )
        } else {
            self.label() + " delivered in "@ + text::dec(self.deliver_ms as int)
                + "ms; no turn advanced (actionReady still "@ + text::dec(self.before as int)
                + ") -- UI-only key, or the game is waiting on something"@
        }
    }

    /// What is reported once the command has failed. `os` describes the operating
    /// system's code, where there is one.
    pub open spec fn complaint(self, failure: Failure, os: Seq<char>) -> Seq<char> {
        match failure {
            Failure::Memory { error } => error.text(os),
            Failure::NeverAcked => self.label() + ": shim never acked (seq="@ + text::dec(
                mailbox::next_seq(self.seq) as int,
            ) + ") -- is the patched SDL.dll loaded?"@,
            Failure::Rejected { status } => self.label()
                + ": shim rejected the command (status "@ + text::dec(status as int) + ")"@,
        }
    }
}

/// A submission, waiting for an event or over.
#[derive(Debug)]
pub struct Submission {
    cmd: MailboxCmd,
    addr: u64,
    phase: Phase,
    seq: u32,
    before: i32,
    after: i32,
    deliver_ms: u64,
    writes: Vec<Write>,
}

impl View for Submission {
    type V = Course;

    closed spec fn view(&self) -> Course {
        Course {
            cmd: self.cmd@,
            addr: self.addr,
            phase: self.phase,
            seq: self.seq,
            before: self.before,
            after: self.after,
            deliver_ms: self.deliver_ms,
        }
    }
}

/// Starts submitting a command through the mailbox at `addr`.
pub fn submit(cmd: MailboxCmd, addr: u64) -> (s: Submission)
    requires
        addr + MB_SIZE <= u64::MAX,
        cmd@.fits(),
    ensures
        s@ == Course::start(cmd@, addr),
        s@.valid(),
{
    Submission {
        cmd,
        addr,
        phase: Phase::Version,
        seq: 0,
        before: -1,
        after: -1,
        deliver_ms: 0,
        writes: Vec::new(),
    }
}

fn copy(w: &Write) -> (r: Write)
    ensures
        r@ == w@,
{
    let mut b: Vec<u8> = Vec::new();
    let mut i: usize = 0;
    while i < w.bytes.len()
        invariant
            i <= w.bytes@.len(),
            b@ == w.bytes@.take(i as int),
        decreases w.bytes@.len() - i,
    {
        b.push(w.bytes[i]);
        i = i + 1;
        assert(b@ =~= w.bytes@.take(i as int));
    }
    assert(b@ =~= w.bytes@);
    Write { addr: w.addr, bytes: b }
}

fn memory_failure(error: Error) -> (r: Phase)
    ensures
        r == (Phase::Failed { failure: Failure::Memory { error } }),
{
    Phase::Failed { failure: Failure::Memory { error } }
}

impl Submission {
    #[verifier::type_invariant]
    spec fn sound(self) -> bool {
        &&& self@.valid()
        &&& self.phase is Write ==> mailbox::writes_view(self.writes@) == self@.writes()
    }

    /// The next action.
    pub fn next(&self) -> (r: Action)
        ensures
            r@ == self@.deed(),
    {
        proof {
            use_type_invariant(self);
        }
        match self.phase {
            Phase::Version => Action::Read(Read { addr: self.addr + MB_VERSION, len: 4 }),
            Phase::Protect => Action::Protect { addr: self.addr, len: MB_SIZE },
            Phase::Number => Action::Read(Read { addr: self.addr + MB_SEQ, len: 4 }),
            Phase::Before => Action::Sample,
            Phase::Write { index } => {
                assert(mailbox::writes_view(self.writes@)[index as int] == self.writes@[index as int]@);
                Action::Write(copy(&self.writes[index]))
            },
            Phase::Start => Action::Start,
            Phase::Wait => Action::Clock,
            Phase::Ack => Action::Read(Read { addr: self.addr + MB_ACK, len: 4 }),
            Phase::Nap => Action::Sleep(2),
            Phase::Timing => Action::Clock,
            Phase::Status => Action::Read(Read { addr: self.addr + MB_STATUS, len: 4 }),
            Phase::StartTurn => Action::Start,
            Phase::Turn => Action::Clock,
            Phase::Sample => Action::Sample,
            Phase::TurnNap => Action::Sleep(5),
            Phase::Done => Action::Over,
            Phase::Failed { failure } => Action::Over,
        }
    }

    /// Takes what came of the next action.
    pub fn supply(self, e: Event) -> (s: Submission)
        requires
            e@.follows(self@.deed()),
        ensures
            s@ == self@.step(e@),
            s@.valid(),
    {
        proof {
            use_type_invariant(&self);
        }
        match e {
            Event::Reply(Reply::Bytes(b)) => match self.phase {
                Phase::Version | Phase::Number | Phase::Ack | Phase::Status => {
                    let w: u32 = word_at(&b, 0);
                    self.on_word(w)
                },
                _ => self,
            },
            Event::Reply(Reply::Failed(code)) => match self.phase {
                Phase::Version | Phase::Number | Phase::Ack | Phase::Status => Submission {
                    phase: memory_failure(Error::Os { code }),
                    ..self
                },
                _ => self,
            },
            Event::Protected(error) => match (self.phase, error) {
                (Phase::Protect, None) => Submission { phase: Phase::Number, ..self },
                (Phase::Protect, Some(error)) => Submission {
                    phase: memory_failure(error),
                    ..self
                },
                _ => self,
            },
            Event::Written(code) => match (self.phase, code) {
                (Phase::Write { index }, None) => {
                    assert(mailbox::writes_view(self.writes@).len() == self.writes@.len());
                    let n: usize = self.writes.len();
                    if index + 1 < n {
                        Submission { phase: Phase::Write { index: index + 1 }, ..self }
                    } else {
                        Submission { phase: Phase::Start, ..self }
                    }
                },
                (Phase::Write { .. }, Some(code)) => Submission {
                    phase: memory_failure(Error::WriteFailed { code }),
                    ..self
                },
                _ => self,
            },
            Event::Sampled(a) => self.on_sample(a),
            Event::Elapsed(ms) => self.on_clock(ms),
            Event::Done => match self.phase {
                Phase::Start => Submission { phase: Phase::Wait, ..self },
                Phase::Nap => Submission { phase: Phase::Wait, ..self },
                Phase::StartTurn => Submission { phase: Phase::Turn, ..self },
                Phase::TurnNap => Submission { phase: Phase::Turn, ..self },
                _ => self,
            },
        }
    }

    fn on_word(self, w: u32) -> (s: Submission)
        ensures
            s@ == self@.on_word(w as int),
            s@.valid(),
    {
        proof {
            use_type_invariant(&self);
        }
        match self.phase {
            Phase::Version => if w == MB_EXPECT_VERSION {
                Submission { phase: Phase::Protect, ..self }
            } else {
                Submission { phase: memory_failure(Error::MailboxVersion { version: w }), ..self }
            },
            Phase::Number => Submission { seq: w, phase: Phase::Before, ..self },
            Phase::Ack => if w == self.seq.wrapping_add(1) {
                Submission { phase: Phase::Timing, ..self }
            } else {
                Submission { phase: Phase::Nap, ..self }
            },
            Phase::Status => {
                let status: i32 = to_i32(w);
                if status < 0 {
                    Submission {
                        phase: Phase::Failed { failure: Failure::Rejected { status } },
                        ..self
                    }
                } else {
                    match self.cmd {
                        MailboxCmd::Dump { .. } => Submission { phase: Phase::Done, ..self },
                        _ => Submission { phase: Phase::StartTurn, ..self },
                    }
                }
            },
            _ => self,
        }
    }

    fn on_clock(self, ms: u64) -> (s: Submission)
        ensures
            s@ == self@.on_clock(ms),
            s@.valid(),
    {
        proof {
            use_type_invariant(&self);
        }
        match self.phase {
            Phase::Wait => {
                let limit: u64 = match &self.cmd {
                    MailboxCmd::Dump { budget_ms } => *budget_ms as u64 + 3000,
                    _ => 2000,
                };
                if ms < limit {
                    Submission { phase: Phase::Ack, ..self }
                } else {
                    Submission { phase: Phase::Failed { failure: Failure::NeverAcked }, ..self }
                }
            },
            Phase::Timing => Submission { deliver_ms: ms, phase: Phase::Status, ..self },
            Phase::Turn => if ms < TURN_TIMEOUT {
                Submission { phase: Phase::Sample, ..self }
            } else {
                Submission { phase: Phase::Done, ..self }
            },
            _ => self,
        }
    }

    fn on_sample(self, a: Option<i32>) -> (s: Submission)
        ensures
            s@ == self@.on_sample(a),
            s@.valid(),
    {
        proof {
            use_type_invariant(&self);
        }
        match self.phase {
            Phase::Before => {
                let v: i32 = match a {
                    Some(v) => v,
                    None => -1,
                };
                let writes: Vec<Write> = command_writes(&self.cmd, self.addr, self.seq);
                Submission { before: v, after: v, phase: Phase::Write { index: 0 }, writes, ..self }
            },
            Phase::Sample => match a {
                Some(v) => if v != self.before {
                    Submission { after: v, phase: Phase::Done, ..self }
                } else {
                    Submission { phase: Phase::TurnNap, ..self }
                },
                None => Submission { phase: Phase::TurnNap, ..self },
            },
            _ => self,
        }
    }

    /// Why the command was not delivered, where it was not.
    pub fn failure(&self) -> (r: Option<Failure>)
        ensures
            r == match self@.phase {
                Phase::Failed { failure } => Some(failure),
                _ => None,
            },
    {
        match self.phase {
            Phase::Failed { failure } => Some(failure),
            _ => None,
        }
    }

    /// What is reported, once the submission is over. `os` describes the operating
    /// system's code, where there is one.
    pub fn message(&self, os: &str) -> (r: Option<Result<String, String>>)
        ensures
            match self@.phase {
                Phase::Done => r matches Some(Ok(s)) && s@ == self@.report(),
                Phase::Failed { failure } => r matches Some(Err(s)) && s@ == self@.complaint(
                    failure,
                    os@,
                ),
                _ => r is None,
            },
    {
        match self.phase {
            Phase::Done => Some(Ok(self.report())),
            Phase::Failed { failure } => Some(Err(self.complaint(failure, os))),
            _ => None,
        }
    }

    fn report(&self) -> (r: String)
        ensures
            r@ == self@.report(),
    {
        let mut r: String = label(&self.cmd);
        let dump: bool = match &self.cmd {
            MailboxCmd::Dump { .. } => true,
            _ => false,
        };
        if dump {
            r.append(" completed in ");
            push_dec_u(&mut r, self.deliver_ms);
            r.append("ms");
        } else {
            r.append(" delivered in ");
            push_dec_u(&mut r, self.deliver_ms);
            if self.after != self.before {
                r.append("ms; turn advanced ");
                push_dec(&mut r, self.before as i64);
                r.append(" -> ");
                push_dec(&mut r, self.after as i64);
            } else {
                r.append("ms; no turn advanced (actionReady still ");
                push_dec(&mut r, self.before as i64);
                r.append(") -- UI-only key, or the game is waiting on something");
            }
        }
        r
    }

    fn complaint(&self, failure: Failure, os: &str) -> (r: String)
        ensures
            r@ == self@.complaint(failure, os@),
    {
        match failure {
            Failure::Memory { error } => error.to_text(os),
            Failure::NeverAcked => {
                let mut r: String = label(&self.cmd);
                r.append(": shim never acked (seq=");
                push_dec_u(&mut r, self.seq.wrapping_add(1) as u64);
                r.append(") -- is the patched SDL.dll loaded?");
                r
            },
            Failure::Rejected { status } => {
                let mut r: String = label(&self.cmd);
                r.append(": shim rejected the command (status ");
                push_dec(&mut r, status as i64);
                r.append(")");
                r
            },
        }
    }
}

impl Course {
    /// The submission after a series of events.
    pub open spec fn run(self, events: Seq<Outcome>) -> Course
        decreases events.len(),
    {
        if events.len() == 0 {
            self
        } else {
            self.run(events.drop_last()).step(events.last())
        }
    }

    /// The command was acknowledged.
    pub open spec fn acked(self) -> bool {
        match self.phase {
            Phase::Timing | Phase::Status | Phase::StartTurn | Phase::Turn | Phase::Sample
            | Phase::TurnNap | Phase::Done => true,
            Phase::Failed { failure } => failure is Rejected,
            _ => false,
        }
    }

    /// All writes of the command were performed.
    pub open spec fn published(self) -> bool {
        match self.phase {
            Phase::Start | Phase::Wait | Phase::Ack | Phase::Nap => true,
            Phase::Failed { failure } => failure is NeverAcked,
            _ => self.acked(),
        }
    }

    /// The event `k` of a series is the acknowledgement of the command.
    pub open spec fn acks(self, events: Seq<Outcome>, k: int) -> bool {
        let then = self.run(events.take(k));
        &&& then.phase is Ack
        &&& events[k] matches Outcome::Reply(Answer::Bytes(b)) && bytes::le32(b, 0)
            == mailbox::next_seq(then.seq)
    }

    /// The event `k` of a series is the success of the command's write `i`.
    pub open spec fn writes_out(self, events: Seq<Outcome>, k: int, i: int) -> bool {
        let then = self.run(events.take(k));
        &&& then.phase matches Phase::Write { index } && index == i
        &&& events[k] matches Outcome::Written(None)
    }
}

/// A success, and a refusal by the shim, mean that the shim has acknowledged the command:
/// it was seen to copy the number under which the command was published.
pub proof fn success_means_acknowledged(c: Course, events: Seq<Outcome>) -> (k: int)
    requires
        !c.acked(),
        c.run(events).acked(),
    ensures
        0 <= k < events.len(),
        c.acks(events, k),
    decreases events.len(),
{
    let fewer = events.drop_last();
    if c.run(fewer).acked() {
        let k = success_means_acknowledged(c, fewer);
        assert(fewer.take(k) =~= events.take(k));
        k
    } else {
        let k = events.len() - 1;
        assert(events.take(k) =~= fewer);
        k
    }
}

proof fn step_stays_valid(c: Course, e: Outcome)
    requires
        c.valid(),
    ensures
        c.step(e).valid(),
{
    mailbox::writes_are_several(c.cmd, c.addr, c.seq);
    let n = c.step(e);
    assert(n.cmd == c.cmd && n.addr == c.addr);
    if n.phase is Write {
        assert(n.seq == c.seq);
        assert(n.writes() == c.writes());
    }
}

/// A submission stays valid, whatever happens.
pub proof fn submission_stays_valid(c: Course, events: Seq<Outcome>)
    requires
        c.valid(),
    ensures
        c.run(events).valid(),
    decreases events.len(),
{
    if events.len() > 0 {
        submission_stays_valid(c, events.drop_last());
        step_stays_valid(c.run(events.drop_last()), events.last());
    }
}

proof fn writes_proceed(c: Course, events: Seq<Outcome>, i: int) -> (k: int)
    requires
        c.valid(),
        c.phase is Version,
        ({
            let now = c.run(events);
            now.published() && i < now.writes().len() || (now.phase matches Phase::Write { index }
                && i < index < now.writes().len())
        }),
        0 <= i,
    ensures
        0 <= k < events.len(),
        c.writes_out(events, k, i),
        c.run(events.take(k)).writes() == c.run(events).writes(),
    decreases events.len(),
{
    let now = c.run(events);
    let fewer = events.drop_last();
    let then = c.run(fewer);
    let e = events.last();
    let k = events.len() - 1;
    assert(events.take(k) =~= fewer);
    submission_stays_valid(c, fewer);
    if then.published() || (then.phase matches Phase::Write { index } && i < index
        < then.writes().len()) {
        let j = writes_proceed(c, fewer, i);
        assert(fewer.take(j) =~= events.take(j));
        j
    } else {
        assert(then.phase matches Phase::Write { index } && index == i);
        k
    }
}

/// A command that was published, acknowledged or refused was written in full: each of its
/// writes has succeeded.
pub proof fn published_means_written(c: Course, events: Seq<Outcome>, i: int) -> (k: int)
    requires
        c.valid(),
        c.phase is Version,
        c.run(events).published(),
        0 <= i < c.run(events).writes().len(),
    ensures
        0 <= k < events.len(),
        c.writes_out(events, k, i),
        c.run(events.take(k)).writes() == c.run(events).writes(),
{
    writes_proceed(c, events, i)
}

/// Once a command is accepted, nothing makes its submission fail: a turn that does not
/// advance is no error.
pub proof fn acceptance_is_final(c: Course, events: Seq<Outcome>)
    requires
        c.phase is StartTurn || c.phase is Turn || c.phase is Sample || c.phase is TurnNap
            || c.phase is Done,
    ensures
        !(c.run(events).phase is Failed),
        ({
            let p = c.run(events).phase;
            p is StartTurn || p is Turn || p is Sample || p is TurnNap || p is Done
        }),
    decreases events.len(),
{
    if events.len() > 0 {
        acceptance_is_final(c, events.drop_last());
    }
}

/// A turn is reported as advanced exactly if the turn counter was seen to change.
pub proof fn turn_is_seen_to_change(c: Course, a: Option<i32>)
    requires
        c.phase is Sample,
        c.after == c.before,
    ensures
        c.step(Outcome::Sampled(a)).phase is Done <==> (a matches Some(v) && v != c.before),
        c.step(Outcome::Sampled(a)).phase is Done ==> a == Some(
            c.step(Outcome::Sampled(a)).after,
        ) && c.step(Outcome::Sampled(a)).after != c.before,
{
}

} // verus!
