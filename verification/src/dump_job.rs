//! Carrying out the tools that work on the score sheet channel.
//!
//! Both find the status block first, unless it was found before. A dump is asked for only
//! where the writer is ready, and is answered with the state after it.

use crate::error::Error;
use crate::memory::{Answer, Exchange, Read, Reply, Stop, Tape};
use crate::scoresheet;
use crate::scoresheet::{ready, status, DumpStatus, DumpView, OFF_RET_RAW};
use vstd::prelude::*;

verus! {

/// What is asked of the channel.
#[derive(Debug, Clone, Copy, PartialEq, Eq, Structural)]
pub enum DumpTool {
    /// Its state.
    Status,
    /// A dump.
    Dump { budget_ms: u16 },
}

/// What a job waits for.
#[derive(Debug, Clone, Copy, PartialEq, Eq, Structural)]
pub enum Phase {
    /// The status block to be found.
    Find,
    /// The state before a dump.
    Before,
    /// The dump.
    Submit,
    /// The state in the end.
    After,
    /// Nothing: there is an answer.
    Done,
    /// Nothing: the dump was refused, and the note says why.
    Refused,
    /// Nothing: it failed.
    Failed { error: Error },
}

/// What has to be done next.
#[derive(Debug, Clone, Copy, PartialEq, Eq, Structural)]
pub enum Action {
    /// Search for the status block.
    Find,
    Read(Read),
    /// Submit the command for a dump.
    Submit { budget_ms: u16 },
    /// The job is over.
    Over,
}

/// What came of an action.
#[derive(Debug)]
pub enum Event {
    Found(Result<u64, Error>),
    Reply(Reply),
    /// What the submission reports, or why it failed.
    Submitted(Result<String, String>),
}

/// An event, as contracts speak of it.
pub enum Outcome {
    Found(Result<u64, Error>),
    Reply(Answer),
    Submitted(Result<Seq<char>, Seq<char>>),
}

impl View for Event {
    type V = Outcome;

    open spec fn view(&self) -> Outcome {
        match self {
            Event::Found(r) => Outcome::Found(*r),
            Event::Reply(r) => Outcome::Reply(r@),
            Event::Submitted(Ok(s)) => Outcome::Submitted(Ok(s@)),
            Event::Submitted(Err(s)) => Outcome::Submitted(Err(s@)),
        }
    }
}

impl Outcome {
    /// Whether this can come of an action.
    pub open spec fn follows(self, action: Action) -> bool {
        match action {
            Action::Find => self matches Outcome::Found(r) && (r matches Ok(a) ==> a + OFF_RET_RAW
                <= u64::MAX),
            Action::Read(q) => self matches Outcome::Reply(a) && a.fits(q),
            Action::Submit { .. } => self is Submitted,
            Action::Over => true,
        }
    }
}

/// How far a job has come. `log` holds the reads for what it waits for.
pub struct Errand {
    pub tool: DumpTool,
    pub addr: Option<u64>,
    pub note: Seq<char>,
    pub phase: Phase,
    pub log: Seq<Exchange>,
}

impl Errand {
    /// The status block's address, once it is known.
    pub open spec fn at(self) -> u64 {
        match self.addr {
            Some(a) => a,
            None => 0,
        }
    }

    /// The job in another phase, with nothing read for it yet.
    pub open spec fn enter(self, phase: Phase) -> Errand {
        Errand { phase, log: seq![], ..self }
    }

    /// The job, once the status block is known.
    pub open spec fn located(self) -> Errand {
        self.enter(
            match self.tool {
                DumpTool::Status => Phase::After,
                DumpTool::Dump { .. } => Phase::Before,
            },
        )
    }

    /// Before the first action. `cached` is where the status block was found before.
    pub open spec fn start(tool: DumpTool, cached: Option<u64>) -> Errand {
        let e = Errand { tool, addr: cached, note: seq![], phase: Phase::Find, log: seq![] };
        if cached is Some {
            e.located()
        } else {
            e
        }
    }

    /// What the reads so far say of the channel.
    pub open spec fn status(self) -> Result<DumpView, Stop> {
        scoresheet::status_on(self.log, self.at())
    }

    /// The next action.
    pub open spec fn deed(self) -> Action {
        match self.phase {
            Phase::Find => Action::Find,
            Phase::Before | Phase::After => match self.status() {
                Err(Stop::Need(q)) => Action::Read(q),
                _ => Action::Over,
            },
            Phase::Submit => match self.tool {
                DumpTool::Dump { budget_ms } => Action::Submit { budget_ms },
                DumpTool::Status => Action::Over,
            },
            _ => Action::Over,
        }
    }

    /// The job, once what was read is taken into account.
    pub open spec fn settle(self) -> Errand {
        match (self.phase, self.status()) {
            (Phase::Before, Err(Stop::Fail(error))) => self.enter(Phase::Failed { error }),
            (Phase::Before, Ok(s)) => if s.status == 1 {
                self.enter(Phase::Submit)
            } else {
                self.enter(Phase::Failed { error: Error::DumpUnavailable { status: s.status } })
            },
            (Phase::After, Err(Stop::Fail(error))) => self.enter(Phase::Failed { error }),
            (Phase::After, Ok(_)) => Errand { phase: Phase::Done, ..self },
            _ => self,
        }
    }

    /// What an event leads to.
    pub open spec fn step(self, e: Outcome) -> Errand {
        match e {
            Outcome::Found(r) => match (self.phase, r) {
                (Phase::Find, Ok(a)) => Errand { addr: Some(a), ..self }.located(),
                (Phase::Find, Err(error)) => self.enter(Phase::Failed { error }),
                _ => self,
            },
            Outcome::Reply(a) => match self.deed() {
                Action::Read(q) => Errand {
                    log: self.log.push(Exchange { read: q, answer: a }),
                    ..self
                }.settle(),
                _ => self,
            },
            Outcome::Submitted(r) => match (self.phase, r) {
                (Phase::Submit, Ok(note)) => Errand { note, ..self }.enter(Phase::After),
                (Phase::Submit, Err(note)) => Errand { note, ..self }.enter(Phase::Refused),
                _ => self,
            },
        }
    }

    /// What holds at every point of a job.
    pub open spec fn valid(self) -> bool {
        &&& self.at() + OFF_RET_RAW <= u64::MAX
        &&& self.addr is Some || self.phase is Find || self.phase is Failed
        &&& (self.phase is Before || self.phase is Submit || self.phase is Refused) ==> self.tool
            is Dump
        &&& (self.phase is Before || self.phase is After) ==> (self.status() matches Err(
            Stop::Need(_),
        ))
        &&& self.phase is Done ==> self.status() is Ok
    }
}

/// What comes of a job.
#[derive(Debug)]
pub enum DumpEnd {
    /// The state of the channel.
    Status(DumpStatus),
    /// The report of a dump, and the state after it.
    Dumped { note: String, after: DumpStatus },
    /// Why a dump was refused.
    Refused { note: String },
    Failed { error: Error },
}

/// A tool at work on the channel.
pub struct DumpJob {
    tool: DumpTool,
    addr: Option<u64>,
    note: String,
    phase: Phase,
    tape: Tape,
    need: Read,
    status: Option<DumpStatus>,
}

impl View for DumpJob {
    type V = Errand;

    closed spec fn view(&self) -> Errand {
        Errand {
            tool: self.tool,
            addr: self.addr,
            note: self.note@,
            phase: self.phase,
            log: self.tape.all(),
        }
    }
}

/// Starts work on the channel. `cached` is where the status block was found before.
pub fn dump_job(tool: DumpTool, cached: Option<u64>) -> (s: DumpJob)
    requires
        cached matches Some(a) ==> a + OFF_RET_RAW <= u64::MAX,
    ensures
        s@ == Errand::start(tool, cached),
        s@.valid(),
{
    let note: String = String::new();
    assert(note@ =~= Seq::<char>::empty());
    match cached {
        Some(_) => DumpJob::begin(tool, cached, note),
        None => DumpJob::resume(tool, cached, note, Phase::Find, Tape::new()),
    }
}

impl DumpJob {
    #[verifier::type_invariant]
    spec fn sound(self) -> bool {
        &&& self@.valid()
        &&& (self.phase is Before || self.phase is After) ==> self@.status() == Err::<
            DumpView,
            Stop,
        >(Stop::Need(self.need))
        &&& self.phase is Done ==> self.status is Some && self@.status() == Ok::<DumpView, Stop>(
            self.status->0@,
        )
    }

    fn resume(tool: DumpTool, addr: Option<u64>, note: String, phase: Phase, tape: Tape) -> (s:
        DumpJob)
        requires
            tape.rest() == tape.all(),
            addr matches Some(a) ==> a + OFF_RET_RAW <= u64::MAX,
            addr is Some || phase is Find || phase is Failed,
            (phase is Before || phase is Submit || phase is Refused) ==> tool is Dump,
            !(phase is Done),
        ensures
            s@ == (Errand { tool, addr, note: note@, phase, log: tape.all() }).settle(),
            s@.valid(),
    {
        let at: u64 = match addr {
            Some(a) => a,
            None => 0,
        };
        let mut tape = tape;
        let mut phase: Phase = phase;
        let mut need: Read = Read { addr: 0, len: 0 };
        let mut last: Option<DumpStatus> = None;
        match phase {
            Phase::Before => match status(at, &mut tape) {
                Ok(s) => {
                    phase = match ready(&s) {
                        Ok(_) => Phase::Submit,
                        Err(error) => Phase::Failed { error },
                    };
                    tape = Tape::new();
                },
                Err(Stop::Need(q)) => {
                    need = q;
                },
                Err(Stop::Fail(error)) => {
                    phase = Phase::Failed { error };
                    tape = Tape::new();
                },
            },
            Phase::After => match status(at, &mut tape) {
                Ok(s) => {
                    last = Some(s);
                    phase = Phase::Done;
                },
                Err(Stop::Need(q)) => {
                    need = q;
                },
                Err(Stop::Fail(error)) => {
                    phase = Phase::Failed { error };
                    tape = Tape::new();
                },
            },
            _ => {},
        }
        DumpJob { tool, addr, note, phase, tape, need, status: last }
    }

    fn begin(tool: DumpTool, addr: Option<u64>, note: String) -> (s: DumpJob)
        requires
            addr matches Some(a) && a + OFF_RET_RAW <= u64::MAX,
        ensures
            s@ == (Errand { tool, addr, note: note@, phase: Phase::Find, log: seq![] }).located(),
            s@.valid(),
    {
        let phase: Phase = match tool {
            DumpTool::Status => Phase::After,
            DumpTool::Dump { .. } => Phase::Before,
        };
        DumpJob::resume(tool, addr, note, phase, Tape::new())
    }

    /// The next action.
    pub fn next(&self) -> (r: Action)
        ensures
            r == self@.deed(),
    {
        proof {
            use_type_invariant(self);
        }
        match (self.phase, self.tool) {
            (Phase::Find, _) => Action::Find,
            (Phase::Before, _) => Action::Read(self.need),
            (Phase::Submit, DumpTool::Dump { budget_ms }) => Action::Submit { budget_ms },
            (Phase::After, _) => Action::Read(self.need),
            _ => Action::Over,
        }
    }

    /// Takes what came of the next action.
    pub fn supply(self, e: Event) -> (s: DumpJob)
        requires
            e@.follows(self@.deed()),
        ensures
            s@ == self@.step(e@),
            s@.valid(),
    {
        proof {
            use_type_invariant(&self);
        }
        match e {
            Event::Found(r) => match (self.phase, r) {
                (Phase::Find, Ok(a)) => DumpJob::begin(self.tool, Some(a), self.note),
                (Phase::Find, Err(error)) => DumpJob::resume(
                    self.tool,
                    self.addr,
                    self.note,
                    Phase::Failed { error },
                    Tape::new(),
                ),
                _ => self,
            },
            Event::Reply(reply) => match self.phase {
                Phase::Before | Phase::After => {
                    let mut tape: Tape = self.tape;
                    tape.record(self.need, reply);
                    DumpJob::resume(self.tool, self.addr, self.note, self.phase, tape)
                },
                _ => self,
            },
            Event::Submitted(r) => match (self.phase, r) {
                (Phase::Submit, Ok(note)) => DumpJob::resume(
                    self.tool,
                    self.addr,
                    note,
                    Phase::After,
                    Tape::new(),
                ),
                (Phase::Submit, Err(note)) => DumpJob::resume(
                    self.tool,
                    self.addr,
                    note,
                    Phase::Refused,
                    Tape::new(),
                ),
                _ => self,
            },
        }
    }

    /// Where the status block is, once it is known.
    pub fn located(&self) -> (r: Option<u64>)
        ensures
            r == self@.addr,
    {
        self.addr
    }

    /// What comes of the job, once it is over.
    pub fn finish(self) -> (r: Option<DumpEnd>)
        ensures
            match self@.phase {
                Phase::Done => match self@.tool {
                    DumpTool::Status => r matches Some(DumpEnd::Status(s)) && self@.status() == Ok::<
                        DumpView,
                        Stop,
                    >(s@),
                    DumpTool::Dump { .. } => r matches Some(DumpEnd::Dumped { note, after }) && note@
                        == self@.note && self@.status() == Ok::<DumpView, Stop>(after@),
                },
                Phase::Refused => r matches Some(DumpEnd::Refused { note }) && note@ == self@.note,
                Phase::Failed { error } => r matches Some(DumpEnd::Failed { error: e }) && e == error,
                _ => r is None,
            },
    {
        proof {
            use_type_invariant(&self);
        }
        match self.phase {
            Phase::Done => match (self.tool, self.status) {
                (DumpTool::Status, Some(s)) => Some(DumpEnd::Status(s)),
                (DumpTool::Dump { .. }, Some(s)) => Some(
                    DumpEnd::Dumped { note: self.note, after: s },
                ),
                (_, None) => None,
            },
            Phase::Refused => Some(DumpEnd::Refused { note: self.note }),
            Phase::Failed { error } => Some(DumpEnd::Failed { error }),
            _ => None,
        }
    }
}

impl Errand {
    /// The job after a series of events.
    pub open spec fn run(self, events: Seq<Outcome>) -> Errand
        decreases events.len(),
    {
        if events.len() == 0 {
            self
        } else {
            self.run(events.drop_last()).step(events.last())
        }
    }

    /// The event `k` of a series is the one that shows the writer ready.
    pub open spec fn shows_ready(self, events: Seq<Outcome>, k: int) -> bool {
        let then = self.run(events.take(k));
        &&& then.phase is Before
        &&& events[k] matches Outcome::Reply(a) && then.deed() matches Action::Read(q) && {
            let read = Errand { log: then.log.push(Exchange { read: q, answer: a }), ..then };
            read.status() matches Ok(s) && s.status == 1
        }
    }
}

/// A dump is asked for only after the writer was seen to be ready.
pub proof fn dump_means_ready(tool: DumpTool, cached: Option<u64>, events: Seq<Outcome>) -> (k: int)
    requires
        Errand::start(tool, cached).run(events).phase is Submit,
    ensures
        0 <= k < events.len(),
        Errand::start(tool, cached).shows_ready(events, k),
    decreases events.len(),
{
    let e = Errand::start(tool, cached);
    assert(events.len() > 0);
    let fewer = events.drop_last();
    if e.run(fewer).phase is Submit {
        let k = dump_means_ready(tool, cached, fewer);
        assert(fewer.take(k) =~= events.take(k));
        k
    } else {
        let k = events.len() - 1;
        assert(events.take(k) =~= fewer);
        k
    }
}

/// A dump is asked for at most once in a job.
pub proof fn dump_is_asked_once(e: Errand, r: Result<Seq<char>, Seq<char>>, events: Seq<Outcome>)
    requires
        e.phase is Submit,
    ensures
        !(e.step(Outcome::Submitted(r)).run(events).phase is Submit),
        !(e.step(Outcome::Submitted(r)).run(events).phase is Before),
        !(e.step(Outcome::Submitted(r)).run(events).phase is Find),
    decreases events.len(),
{
    if events.len() > 0 {
        dump_is_asked_once(e, r, events.drop_last());
    }
}

} // verus!
