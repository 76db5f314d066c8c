//! Carrying out the tools that work on the draw log.
//!
//! Each of them finds the log first, unless it was found before. Those that change its
//! header make it writable, write one word and read the header back.

use crate::blit;
use crate::blit::{
    clear_write, enable_write, read_draws, read_view_origin, status, BlitStatus, Draw, ViewOrigin,
    DRAW_MAX, HEADER_LEN, OFF_CLEAR_REQ, OFF_DRAWS, OFF_ENABLED,
};
use crate::bytes;
use crate::common::Addrs;
use crate::error::Error;
use crate::memory;
use crate::memory::{Answer, Exchange, Read, Reply, Stop, Stored, Tape, Write};
use crate::screen;
use crate::screen::{fits, screen, Screen};
use vstd::prelude::*;

verus! {

/// What is asked of the draw log.
#[derive(Debug, Clone, Copy, PartialEq, Eq, Structural)]
pub enum BlitTool {
    /// Its header.
    Status,
    /// To record or not.
    Enable { on: bool },
    /// To start afresh.
    Clear,
    /// The view's origin.
    View,
    /// The map cells that were drawn.
    Screen,
    /// Its draws.
    Frame { limit: usize },
    /// Nothing that exists.
    Unknown,
}

/// What the log is asked to show in the end.
pub enum Shown {
    Status(Seq<int>),
    View((i32, i32)),
    Screen { origin: (i32, i32), log: (u32, u32, Seq<Draw>) },
    Frame((u32, u32, Seq<Draw>)),
    Nothing,
}

/// What a tape says of what a tool shows in the end.
pub open spec fn shown_on(
    rest: Seq<Exchange>,
    tool: BlitTool,
    addr: u64,
    addrs: Result<Addrs, Error>,
) -> Result<Shown, Stop> {
    match tool {
        BlitTool::View => match blit::origin_on(rest, addrs) {
            Err(stop) => Err(stop),
            Ok(o) => Ok(Shown::View(o)),
        },
        BlitTool::Screen => match blit::origin_on(rest, addrs) {
            Err(stop) => Err(stop),
            Ok(origin) => match blit::draws_on(rest.skip(2), addr, DRAW_MAX) {
                Err(stop) => Err(stop),
                Ok(log) => Ok(Shown::Screen { origin, log }),
            },
        },
        BlitTool::Frame { limit } => match blit::draws_on(rest, addr, limit) {
            Err(stop) => Err(stop),
            Ok(log) => Ok(Shown::Frame(log)),
        },
        BlitTool::Unknown => Ok(Shown::Nothing),
        _ => match memory::ask_words(rest, blit::status_reads(addr)) {
            Err(stop) => Err(stop),
            Ok(w) => Ok(Shown::Status(w)),
        },
    }
}

/// What a tool answers.
#[derive(Debug)]
pub enum BlitAnswer {
    Status(BlitStatus),
    View(ViewOrigin),
    Screen { frame: u32, count: u32, origin: (i32, i32), dims: (i32, i32), screen: Screen },
    Frame { frame: u32, count: u32, draws: Vec<Draw> },
    Nothing,
}

/// Whether an answer is the one for what is shown.
pub open spec fn answers(
    a: BlitAnswer,
    s: Shown,
    addr: u64,
    addrs: Result<Addrs, Error>,
    dims: (i32, i32),
) -> bool {
    match s {
        Shown::Status(w) => a matches BlitAnswer::Status(b) && blit::status_is(b, addr, w),
        Shown::View(o) => {
            &&& a matches BlitAnswer::View(v)
            &&& blit::origin_is(v, addrs->Ok_0.view_origin, o)
        },
        Shown::Screen { origin, log } => {
            &&& a matches BlitAnswer::Screen { frame, count, origin: from, dims: size, screen: r }
            &&& frame == log.0
            &&& count == log.1
            &&& from == origin
            &&& size == dims
            &&& screen::shows(r.cells@, log.2, log.2.len() as int, origin, dims)
            &&& r.hud_draws == screen::strays(log.2, log.2.len() as int, origin, dims)
            &&& screen::drawn(r.cells@) + r.hud_draws == log.2.len()
        },
        Shown::Frame(log) => {
            &&& a matches BlitAnswer::Frame { frame, count, draws }
            &&& frame == log.0
            &&& count == log.1
            &&& draws@ == log.2
        },
        Shown::Nothing => a is Nothing,
    }
}

/// Whether what is shown can be answered. Draws under which a cell would have coordinates
/// that cannot be represented are not.
pub open spec fn answerable(s: Shown) -> bool {
    match s {
        Shown::Screen { origin, log } => screen::cells_fit(log.2, origin),
        _ => true,
    }
}

/// Reads what a tool shows in the end. There is no answer where what is shown is not
/// answerable.
pub fn read_answer(
    tool: BlitTool,
    addr: u64,
    addrs: Result<Addrs, Error>,
    dims: (i32, i32),
    tape: &mut Tape,
) -> (r: Result<Option<BlitAnswer>, Stop>)
    requires
        addr + OFF_DRAWS <= u64::MAX,
        addrs matches Ok(a) ==> a.view_origin + 4 <= u64::MAX,
    ensures
        final(tape).all() == old(tape).all(),
        match shown_on(old(tape).rest(), tool, addr, addrs) {
            Ok(s) => if answerable(s) {
                r matches Ok(Some(a)) && answers(a, s, addr, addrs, dims)
            } else {
                r matches Ok(None)
            },
            Err(stop) => r matches Err(e) && e == stop,
        },
{
    match tool {
        BlitTool::View => Ok(Some(BlitAnswer::View(read_view_origin(addrs, tape)?))),
        BlitTool::Screen => {
            let v: ViewOrigin = read_view_origin(addrs, tape)?;
            let (frame, count, draws) = read_draws(addr, DRAW_MAX, tape)?;
            let origin: (i32, i32) = (v.x, v.y);
            if fits(&draws, origin) {
                let s: Screen = screen(&draws, origin, dims);
                Ok(Some(BlitAnswer::Screen { frame, count, origin, dims, screen: s }))
            } else {
                Ok(None)
            }
        },
        BlitTool::Frame { limit } => {
            let (frame, count, draws) = read_draws(addr, limit, tape)?;
            Ok(Some(BlitAnswer::Frame { frame, count, draws }))
        },
        BlitTool::Unknown => Ok(Some(BlitAnswer::Nothing)),
        _ => Ok(Some(BlitAnswer::Status(status(addr, tape)?))),
    }
}

/// What a job waits for.
#[derive(Debug, Clone, Copy, PartialEq, Eq, Structural)]
pub enum Phase {
    /// The log to be found.
    Find,
    /// The size of the map.
    Header,
    /// The addresses for the running build.
    Addrs,
    /// The header of the log before a change.
    Before,
    /// The log to become writable.
    Protect,
    /// The change.
    Store,
    /// What is shown in the end.
    After,
    /// Nothing: there is an answer.
    Done,
    /// Nothing: a number has run out of its range.
    Overflow,
    /// Nothing: it failed.
    Failed { error: Error },
}

/// What has to be done next.
#[derive(Debug)]
pub enum Action {
    /// Search for the log.
    Find,
    /// Read the map's header, if that is possible.
    Header,
    /// Get the addresses for the running build.
    Addrs,
    Read(Read),
    /// Make this part of the target's memory writable.
    Protect { addr: u64, len: usize },
    Write(Write),
    /// The job is over.
    Over,
}

/// An action, as contracts speak of it.
pub enum Deed {
    Find,
    Header,
    Addrs,
    Read(Read),
    Protect { addr: u64, len: usize },
    Write(Stored),
    Over,
}

impl View for Action {
    type V = Deed;

    open spec fn view(&self) -> Deed {
        match self {
            Action::Find => Deed::Find,
            Action::Header => Deed::Header,
            Action::Addrs => Deed::Addrs,
            Action::Read(q) => Deed::Read(*q),
            Action::Protect { addr, len } => Deed::Protect { addr: *addr, len: *len },
            Action::Write(w) => Deed::Write(w@),
            Action::Over => Deed::Over,
        }
    }
}

/// What came of an action.
#[derive(Debug)]
pub enum Event {
    Found(Result<u64, Error>),
    /// The map's width and height, where they could be read.
    Header(Option<(i32, i32)>),
    /// The addresses for the running build, or why there are none.
    Addrs(Result<Addrs, Error>),
    Reply(Reply),
    Protected(Option<Error>),
    Written(Option<i32>),
}

/// An event, as contracts speak of it.
pub enum Outcome {
    Found(Result<u64, Error>),
    Header(Option<(i32, i32)>),
    Addrs(Result<Addrs, Error>),
    Reply(Answer),
    Protected(Option<Error>),
    Written(Option<i32>),
}

impl View for Event {
    type V = Outcome;

    open spec fn view(&self) -> Outcome {
        match self {
            Event::Found(r) => Outcome::Found(*r),
            Event::Header(d) => Outcome::Header(*d),
            Event::Addrs(r) => Outcome::Addrs(*r),
            Event::Reply(r) => Outcome::Reply(r@),
            Event::Protected(e) => Outcome::Protected(*e),
            Event::Written(c) => Outcome::Written(*c),
        }
    }
}

impl Outcome {
    /// Whether this can come of an action.
    pub open spec fn follows(self, deed: Deed) -> bool {
        match deed {
            Deed::Find => self matches Outcome::Found(r) && (r matches Ok(a) ==> a + OFF_DRAWS
                <= u64::MAX),
            Deed::Header => self is Header,
            Deed::Addrs => self matches Outcome::Addrs(r) && (r matches Ok(a) ==> a.view_origin + 4
                <= u64::MAX),
            Deed::Read(q) => self matches Outcome::Reply(a) && a.fits(q),
            Deed::Protect { .. } => self is Protected,
            Deed::Write(_) => self is Written,
            Deed::Over => true,
        }
    }
}

/// How far a job has come. `log` holds the reads for what it waits for.
pub struct Errand {
    pub tool: BlitTool,
    pub addr: Option<u64>,
    pub addrs: Result<Addrs, Error>,
    pub dims: (i32, i32),
    pub clear_req: u32,
    pub phase: Phase,
    pub log: Seq<Exchange>,
}

impl Errand {
    /// The log's address, once it is known.
    pub open spec fn at(self) -> u64 {
        match self.addr {
            Some(a) => a,
            None => 0,
        }
    }

    /// The job in another phase, with nothing read for it yet.
    pub open spec fn enter(self, phase: Phase) -> Errand {
        Errand { phase, log: seq![], ..self }
    }

    /// The job, once the log is known: only what the tool needs is done.
    pub open spec fn located(self) -> Errand {
        self.enter(
            match self.tool {
                BlitTool::Enable { .. } => Phase::Protect,
                BlitTool::Clear => Phase::Before,
                BlitTool::View => Phase::Addrs,
                BlitTool::Screen => Phase::Header,
                BlitTool::Unknown => Phase::Done,
                _ => Phase::After,
            },
        )
    }

    /// Before the first action. `cached` is where the log was found before.
    pub open spec fn start(tool: BlitTool, cached: Option<u64>) -> Errand {
        let e = Errand {
            tool,
            addr: cached,
            addrs: Err(Error::UnknownBuild { stamp: 0 }),
            dims: (0, 0),
            clear_req: 0,
            phase: Phase::Find,
            log: seq![],
        };
        if cached is Some {
            e.located()
        } else {
            e
        }
    }

    /// The write that the tool makes.
    pub open spec fn change(self) -> Stored {
        match self.tool {
            BlitTool::Enable { on } => Stored {
                addr: (self.at() + OFF_ENABLED) as u64,
                bytes: bytes::bytes32(
                    if on {
                        1
                    } else {
                        0
                    },
                ),
            },
            _ => Stored {
                addr: (self.at() + OFF_CLEAR_REQ) as u64,
                bytes: bytes::bytes32(self.clear_req + 1),
            },
        }
    }

    /// What the reads so far say of the header before a change.
    pub open spec fn before(self) -> Result<Seq<int>, Stop> {
        memory::ask_words(self.log, blit::status_reads(self.at()))
    }

    /// What the reads so far say of what is shown in the end.
    pub open spec fn shown(self) -> Result<Shown, Stop> {
        shown_on(self.log, self.tool, self.at(), self.addrs)
    }

    /// The next action.
    pub open spec fn deed(self) -> Deed {
        match self.phase {
            Phase::Find => Deed::Find,
            Phase::Header => Deed::Header,
            Phase::Addrs => Deed::Addrs,
            Phase::Before => match self.before() {
                Err(Stop::Need(q)) => Deed::Read(q),
                _ => Deed::Over,
            },
            Phase::Protect => Deed::Protect { addr: self.at(), len: HEADER_LEN },
            Phase::Store => Deed::Write(self.change()),
            Phase::After => match self.shown() {
                Err(Stop::Need(q)) => Deed::Read(q),
                _ => Deed::Over,
            },
            _ => Deed::Over,
        }
    }

    /// The job, once what was read is taken into account.
    pub open spec fn settle(self) -> Errand {
        match self.phase {
            Phase::Before => match self.before() {
                Err(Stop::Need(_)) => self,
                Err(Stop::Fail(error)) => self.enter(Phase::Failed { error }),
                Ok(w) => if w[1] == u32::MAX {
                    self.enter(Phase::Overflow)
                } else {
                    Errand { clear_req: w[1] as u32, ..self }.enter(Phase::Protect)
                },
            },
            Phase::After => match self.shown() {
                Err(Stop::Need(_)) => self,
                Err(Stop::Fail(error)) => self.enter(Phase::Failed { error }),
                Ok(s) => if answerable(s) {
                    Errand { phase: Phase::Done, ..self }
                } else {
                    self.enter(Phase::Overflow)
                },
            },
            _ => self,
        }
    }

    /// What comes of a reply.
    pub open spec fn on_reply(self, a: Answer) -> Errand {
        match self.deed() {
            Deed::Read(q) => Errand {
                log: self.log.push(Exchange { read: q, answer: a }),
                ..self
            }.settle(),
            _ => self,
        }
    }

    /// What an event leads to.
    pub open spec fn step(self, e: Outcome) -> Errand {
        match e {
            Outcome::Found(r) => match (self.phase, r) {
                (Phase::Find, Ok(a)) => Errand { addr: Some(a), ..self }.located(),
                (Phase::Find, Err(error)) => self.enter(Phase::Failed { error }),
                _ => self,
            },
            Outcome::Header(d) => if self.phase is Header {
                Errand {
                    dims: match d {
                        Some(d) => d,
                        None => (0, 0),
                    },
                    ..self
                }.enter(Phase::Addrs)
            } else {
                self
            },
            Outcome::Addrs(r) => if self.phase is Addrs {
                Errand { addrs: r, ..self }.enter(Phase::After).settle()
            } else {
                self
            },
            Outcome::Reply(a) => self.on_reply(a),
            Outcome::Protected(error) => match (self.phase, error) {
                (Phase::Protect, None) => self.enter(Phase::Store),
                (Phase::Protect, Some(error)) => self.enter(Phase::Failed { error }),
                _ => self,
            },
            Outcome::Written(code) => match (self.phase, code) {
                (Phase::Store, None) => self.enter(Phase::After),
                (Phase::Store, Some(code)) => self.enter(
                    Phase::Failed { error: Error::WriteFailed { code } },
                ),
                _ => self,
            },
        }
    }

    /// What holds at every point of a job.
    pub open spec fn valid(self) -> bool {
        &&& self.at() + OFF_DRAWS <= u64::MAX
        &&& self.addr is Some || self.phase is Find || self.phase is Failed
        &&& self.addrs matches Ok(a) ==> a.view_origin + 4 <= u64::MAX
        &&& self.phase is Header ==> self.tool is Screen
        &&& self.phase is Addrs ==> self.tool is View || self.tool is Screen
        &&& self.phase is Before ==> self.tool is Clear && (self.before() matches Err(
            Stop::Need(_),
        ))
        &&& (self.phase is Protect || self.phase is Store) ==> (self.tool is Enable || self.tool
            is Clear && self.clear_req < u32::MAX)
        &&& self.phase is After ==> (self.shown() matches Err(Stop::Need(_)))
        &&& self.phase is Done ==> (self.shown() matches Ok(s) && answerable(s))
    }
}

/// A tool at work on the log.
pub struct BlitJob {
    tool: BlitTool,
    addr: Option<u64>,
    addrs: Result<Addrs, Error>,
    dims: (i32, i32),
    clear_req: u32,
    phase: Phase,
    tape: Tape,
    need: Read,
    answer: Option<BlitAnswer>,
}

impl View for BlitJob {
    type V = Errand;

    closed spec fn view(&self) -> Errand {
        Errand {
            tool: self.tool,
            addr: self.addr,
            addrs: self.addrs,
            dims: self.dims,
            clear_req: self.clear_req,
            phase: self.phase,
            log: self.tape.all(),
        }
    }
}

/// Starts work on the log. `cached` is where it was found before.
pub fn blit_job(tool: BlitTool, cached: Option<u64>) -> (s: BlitJob)
    requires
        cached matches Some(a) ==> a + OFF_DRAWS <= u64::MAX,
    ensures
        s@ == Errand::start(tool, cached),
        s@.valid(),
{
    let phase: Phase = match cached {
        Some(_) => first_phase(tool),
        None => Phase::Find,
    };
    let addrs: Result<Addrs, Error> = Err(Error::UnknownBuild { stamp: 0 });
    BlitJob::resume(tool, cached, addrs, (0, 0), 0, phase, Tape::new())
}

fn first_phase(tool: BlitTool) -> (r: Phase)
    ensures
        forall|e: Errand| e.tool == tool ==> #[trigger] e.located() == e.enter(r),
{
    match tool {
        BlitTool::Enable { .. } => Phase::Protect,
        BlitTool::Clear => Phase::Before,
        BlitTool::View => Phase::Addrs,
        BlitTool::Screen => Phase::Header,
        BlitTool::Unknown => Phase::Done,
        _ => Phase::After,
    }
}

impl BlitJob {
    #[verifier::type_invariant]
    spec fn sound(self) -> bool {
        &&& self@.valid()
        &&& self.phase is Before ==> self@.before() == Err::<Seq<int>, Stop>(Stop::Need(self.need))
        &&& self.phase is After ==> self@.shown() == Err::<Shown, Stop>(Stop::Need(self.need))
        &&& self.phase is Done ==> self.answer is Some && answers(
            self.answer->0,
            self@.shown()->Ok_0,
            self@.at(),
            self.addrs,
            self.dims,
        )
    }

    fn resume(
        tool: BlitTool,
        addr: Option<u64>,
        addrs: Result<Addrs, Error>,
        dims: (i32, i32),
        clear_req: u32,
        phase: Phase,
        tape: Tape,
    ) -> (s: BlitJob)
        requires
            tape.rest() == tape.all(),
            addr matches Some(a) ==> a + OFF_DRAWS <= u64::MAX,
            addrs matches Ok(a) ==> a.view_origin + 4 <= u64::MAX,
            addr is Some || phase is Find || phase is Failed,
            phase is Header ==> tool is Screen,
            phase is Addrs ==> tool is View || tool is Screen,
            phase is Before ==> tool is Clear,
            (phase is Protect || phase is Store) ==> (tool is Enable || tool is Clear && clear_req
                < u32::MAX),
            phase is Done ==> tool is Unknown,
        ensures
            s@ == (Errand { tool, addr, addrs, dims, clear_req, phase, log: tape.all() }).settle(),
            s@.valid(),
    {
        let ghost start = Errand { tool, addr, addrs, dims, clear_req, phase, log: tape.all() };
        let at: u64 = match addr {
            Some(a) => a,
            None => 0,
        };
        let mut tape = tape;
        let mut phase: Phase = phase;
        let mut clear_req: u32 = clear_req;
        let mut need: Read = Read { addr: 0, len: 0 };
        let mut answer: Option<BlitAnswer> = None;
        match phase {
            Phase::Before => match status(at, &mut tape) {
                Ok(s) => {
                    if s.clear_req == u32::MAX {
                        phase = Phase::Overflow;
                    } else {
                        clear_req = s.clear_req;
                        phase = Phase::Protect;
                    }
                    tape = Tape::new();
                },
                Err(Stop::Need(q)) => {
                    need = q;
                },
                Err(Stop::Fail(error)) => {
                    phase = Phase::Failed { error };
                    tape = Tape::new();
                },
            },
            Phase::After => match read_answer(tool, at, addrs, dims, &mut tape) {
                Ok(Some(a)) => {
                    answer = Some(a);
                    phase = Phase::Done;
                },
                Ok(None) => {
                    phase = Phase::Overflow;
                    tape = Tape::new();
                },
                Err(Stop::Need(q)) => {
                    need = q;
                },
                Err(Stop::Fail(error)) => {
                    phase = Phase::Failed { error };
                    tape = Tape::new();
                },
            },
            Phase::Done => {
                answer = Some(BlitAnswer::Nothing);
            },
            _ => {},
        }
        BlitJob { tool, addr, addrs, dims, clear_req, phase, tape, need, answer }
    }

    /// The next action.
    pub fn next(&self) -> (r: Action)
        ensures
            r@ == self@.deed(),
    {
        proof {
            use_type_invariant(self);
        }
        match (self.phase, self.addr) {
            (Phase::Find, _) => Action::Find,
            (Phase::Header, _) => Action::Header,
            (Phase::Addrs, _) => Action::Addrs,
            (Phase::Before, _) => Action::Read(self.need),
            (Phase::Protect, Some(addr)) => Action::Protect { addr, len: HEADER_LEN },
            (Phase::Store, Some(addr)) => match self.tool {
                BlitTool::Enable { on } => Action::Write(enable_write(addr, on)),
                _ => Action::Write(clear_write(addr, self.clear_req)),
            },
            (Phase::After, _) => Action::Read(self.need),
            _ => Action::Over,
        }
    }

    fn enter(self, phase: Phase) -> (s: BlitJob)
        requires
            self@.addr is Some || phase is Failed,
            phase is Store || phase is After || phase is Failed,
            phase is Store ==> self@.phase is Protect,
        ensures
            s@ == self@.enter(phase).settle(),
            s@.valid(),
    {
        proof {
            use_type_invariant(&self);
        }
        BlitJob::resume(
            self.tool,
            self.addr,
            self.addrs,
            self.dims,
            self.clear_req,
            phase,
            Tape::new(),
        )
    }

    /// Takes what came of the next action.
    pub fn supply(self, e: Event) -> (s: BlitJob)
        requires
            e@.follows(self@.deed()),
        ensures
            s@ == self@.step(e@),
            s@.valid(),
    {
        proof {
            use_type_invariant(&self);
        }
        match e {
            Event::Found(r) => match (self.phase, r) {
                (Phase::Find, Ok(a)) => BlitJob::resume(
                    self.tool,
                    Some(a),
                    self.addrs,
                    self.dims,
                    self.clear_req,
                    first_phase(self.tool),
                    Tape::new(),
                ),
                (Phase::Find, Err(error)) => self.enter(Phase::Failed { error }),
                _ => self,
            },
            Event::Header(d) => match self.phase {
                Phase::Header => {
                    let dims: (i32, i32) = match d {
                        Some(d) => d,
                        None => (0, 0),
                    };
                    BlitJob::resume(
                        self.tool,
                        self.addr,
                        self.addrs,
                        dims,
                        self.clear_req,
                        Phase::Addrs,
                        Tape::new(),
                    )
                },
                _ => self,
            },
            Event::Addrs(r) => match self.phase {
                Phase::Addrs => BlitJob::resume(
                    self.tool,
                    self.addr,
                    r,
                    self.dims,
                    self.clear_req,
                    Phase::After,
                    Tape::new(),
                ),
                _ => self,
            },
            Event::Reply(reply) => match self.phase {
                Phase::Before | Phase::After => {
                    let mut tape: Tape = self.tape;
                    tape.record(self.need, reply);
                    BlitJob::resume(
                        self.tool,
                        self.addr,
                        self.addrs,
                        self.dims,
                        self.clear_req,
                        self.phase,
                        tape,
                    )
                },
                _ => self,
            },
            Event::Protected(error) => match (self.phase, error) {
                (Phase::Protect, None) => self.enter(Phase::Store),
                (Phase::Protect, Some(error)) => self.enter(Phase::Failed { error }),
                _ => self,
            },
            Event::Written(code) => match (self.phase, code) {
                (Phase::Store, None) => self.enter(Phase::After),
                (Phase::Store, Some(code)) => self.enter(
                    Phase::Failed { error: Error::WriteFailed { code } },
                ),
                _ => self,
            },
        }
    }

    /// Where the log is, once it is known.
    pub fn located(&self) -> (r: Option<u64>)
        ensures
            r == self@.addr,
    {
        self.addr
    }

    /// What comes of the job, once it is over. There is nothing where a number has run out
    /// of its range.
    pub fn finish(self) -> (r: Option<Result<BlitAnswer, Error>>)
        ensures
            match self@.phase {
                Phase::Done => r matches Some(Ok(a)) && answers(
                    a,
                    self@.shown()->Ok_0,
                    self@.at(),
                    self@.addrs,
                    self@.dims,
                ),
                Phase::Failed { error } => r matches Some(Err(e)) && e == error,
                _ => r is None,
            },
    {
        proof {
            use_type_invariant(&self);
        }
        match self.phase {
            Phase::Done => match self.answer {
                Some(a) => Some(Ok(a)),
                None => None,
            },
            Phase::Failed { error } => Some(Err(error)),
            _ => None,
        }
    }
}

impl Errand {
    /// The job after a series of events.
    pub open spec fn run(self, events: Seq<Outcome>) -> Errand
        decreases events.len(),
    {
        if events.len() == 0 {
            self
        } else {
            self.run(events.drop_last()).step(events.last())
        }
    }

    /// Each event of a series can come of the action before it.
    pub open spec fn in_order(self, events: Seq<Outcome>) -> bool {
        forall|k: int|
            0 <= k < events.len() ==> (#[trigger] events[k]).follows(self.run(events.take(k)).deed())
    }

    /// The tool changes the log.
    pub open spec fn changes(self) -> bool {
        self.tool is Enable || self.tool is Clear
    }
}

proof fn read_counter_fits(log: Seq<Exchange>, addr: u64)
    ensures
        memory::ask_words(log, blit::status_reads(addr)) matches Ok(w) ==> 0 <= w[1] <= u32::MAX,
{
    if memory::ask_words(log, blit::status_reads(addr)) is Ok {
        memory::words_fit(log, blit::status_reads(addr), 1);
    }
}

proof fn step_stays_valid(e: Errand, o: Outcome)
    requires
        e.valid(),
        o.follows(e.deed()),
    ensures
        e.step(o).valid(),
        e.step(o).tool == e.tool,
{
    if let Outcome::Reply(a) = o {
        if let Deed::Read(q) = e.deed() {
            if e.phase is Before {
                read_counter_fits(e.log.push(Exchange { read: q, answer: a }), e.at());
            }
        }
    }
}

proof fn order_holds_before(e: Errand, events: Seq<Outcome>)
    requires
        events.len() > 0,
        e.in_order(events),
    ensures
        e.in_order(events.drop_last()),
        events.last().follows(e.run(events.drop_last()).deed()),
{
    let fewer = events.drop_last();
    assert(events.take(events.len() - 1) =~= fewer);
    assert(events[events.len() - 1].follows(e.run(events.take(events.len() - 1)).deed()));
    assert forall|k: int| 0 <= k < fewer.len() implies (#[trigger] fewer[k]).follows(
        e.run(fewer.take(k)).deed(),
    ) by {
        assert(fewer.take(k) =~= events.take(k));
        assert(events[k] == fewer[k]);
    }
}

/// A job stays valid, whatever happens, and remains the job of its tool.
pub proof fn job_stays_valid(e: Errand, events: Seq<Outcome>)
    requires
        e.valid(),
        e.in_order(events),
    ensures
        e.run(events).valid(),
        e.run(events).tool == e.tool,
    decreases events.len(),
{
    if events.len() > 0 {
        order_holds_before(e, events);
        job_stays_valid(e, events.drop_last());
        step_stays_valid(e.run(events.drop_last()), events.last());
    }
}

/// A tool that only looks at the log never asks for it to be made writable, nor for a
/// write.
pub proof fn looking_changes_nothing(e: Errand, events: Seq<Outcome>)
    requires
        e.valid(),
        e.in_order(events),
        !e.changes(),
    ensures
        !(e.run(events).deed() is Protect),
        !(e.run(events).deed() is Write),
{
    job_stays_valid(e, events);
}

proof fn change_comes_of_a_write(e: Errand, o: Outcome)
    requires
        e.valid(),
        e.changes(),
        !(e.phase is After || e.phase is Done),
        e.step(o).phase is After || e.step(o).phase is Done,
    ensures
        e.deed() is Write,
        o matches Outcome::Written(None),
{
}

/// A tool that changes the log answers only after its write has succeeded.
#[verifier::spinoff_prover]
pub proof fn answer_means_written(e: Errand, events: Seq<Outcome>) -> (k: int)
    requires
        e.valid(),
        e.in_order(events),
        e.changes(),
        !(e.phase is After || e.phase is Done),
        e.run(events).phase is After || e.run(events).phase is Done,
    ensures
        0 <= k < events.len(),
        e.run(events.take(k)).deed() is Write,
        events[k] matches Outcome::Written(None),
    decreases events.len(),
{
    order_holds_before(e, events);
    let fewer = events.drop_last();
    job_stays_valid(e, fewer);
    let then = e.run(fewer);
    if then.phase is After || then.phase is Done {
        let k = answer_means_written(e, fewer);
        assert(fewer.take(k) =~= events.take(k));
        k
    } else {
        change_comes_of_a_write(then, events.last());
        let k = events.len() - 1;
        assert(events.take(k) =~= fewer);
        k
    }
}

/// Clearing writes a counter that is one more than the one that was read.
pub proof fn clearing_counts_up(e: Errand, a: Answer)
    requires
        e.valid(),
        e.phase is Before,
        e.step(Outcome::Reply(a)).phase is Protect,
    ensures
        ({
            let read = Errand {
                log: e.log.push(Exchange { read: e.deed()->Read_0, answer: a }),
                ..e
            }.before();
            read matches Ok(w) && bytes::le32(e.step(Outcome::Reply(a)).change().bytes, 0) == w[1]
                + 1
        }),
{
    let n = e.step(Outcome::Reply(a));
    read_counter_fits(e.log.push(Exchange { read: e.deed()->Read_0, answer: a }), e.at());
    bytes::stored_word_reads_back(n.clear_req + 1);
}

} // verus!
