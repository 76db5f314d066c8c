//! What the tools for the draw log and the score sheet do, action by action.

use crate::blit;
use crate::blit_job;
use crate::blit_job::{BlitTool, Shown};
use crate::bytes;
use crate::common::Addrs;
use crate::dump_job;
use crate::dump_job::DumpTool;
use crate::error::Error;
use crate::layouts;
use crate::memory;
use crate::memory::{Answer, Exchange, Stop, Stored};
use crate::scoresheet;
use crate::scoresheet::DumpView;
use vstd::prelude::*;

verus! {

/// A tool for the draw log looks for the log where it is not known, and then does what it
/// does where it is; a search that fails ends it.
pub proof fn found_log_is_as_good_as_known(tool: BlitTool, a: u64, error: Error)
    ensures
        ({
            let e = blit_job::Errand::start(tool, None);
            &&& e.deed() is Find
            &&& e.step(blit_job::Outcome::Found(Ok(a))) == blit_job::Errand::start(tool, Some(a))
            &&& e.step(blit_job::Outcome::Found(Err(error))).phase == (blit_job::Phase::Failed {
                error,
            })
            &&& e.step(blit_job::Outcome::Found(Err(error))).deed() is Over
        }),
{
}

/// Whether a write stores the word `n` at `addr`.
pub open spec fn stores_word(w: Stored, addr: int, n: int) -> bool {
    w.addr == addr && w.bytes.len() == 4 && layouts::word_stands(w.bytes, 0, n)
}

/// Recording is turned on by a one and off by a zero at offset 8 of the log, whose first 64
/// bytes are made writable before; after that the header is read. Where either fails, so
/// does the tool, with that reason and without going on.
pub proof fn enabling_stores_a_flag(a: u64, on: bool, error: Error, code: i32)
    requires
        a + 40 <= u64::MAX,
    ensures
        ({
            let start = blit_job::Errand::start(BlitTool::Enable { on }, Some(a));
            let open = start.step(blit_job::Outcome::Protected(None));
            let done = open.step(blit_job::Outcome::Written(None));
            &&& start.deed() == (blit_job::Deed::Protect { addr: a, len: 64 })
            &&& open.deed() matches blit_job::Deed::Write(w)
            &&& stores_word(
                w,
                a + 8,
                if on {
                    1
                } else {
                    0
                },
            )
            &&& done.phase is After
            &&& done.log.len() == 0
            &&& done.tool == start.tool
            &&& done.addr == Some(a)
            &&& start.step(blit_job::Outcome::Protected(Some(error))).phase == (
            blit_job::Phase::Failed { error })
            &&& open.step(blit_job::Outcome::Written(Some(code))).phase == (
            blit_job::Phase::Failed { error: Error::WriteFailed { code } })
        }),
{
    layouts::written_word_stands(
        if on {
            1
        } else {
            0
        },
    );
}

/// A fresh log is asked for by a counter at offset 12 of the log that is one more than the
/// counter that was read there, after its first 64 bytes are made writable.
pub proof fn clearing_stores_the_next_number(e: blit_job::Errand, a: Answer, w: Seq<int>)
    requires
        e.valid(),
        e.tool is Clear,
        e.phase is Before,
        e.deed() is Read,
        ({
            let log = e.log.push(Exchange { read: e.deed()->Read_0, answer: a });
            memory::ask_words(log, blit::status_reads(e.at())) == Ok::<Seq<int>, Stop>(w)
        }),
        0 <= w[1] < 0xFFFF_FFFF,
    ensures
        ({
            let read = e.step(blit_job::Outcome::Reply(a));
            let open = read.step(blit_job::Outcome::Protected(None));
            let done = open.step(blit_job::Outcome::Written(None));
            &&& read.deed() == (blit_job::Deed::Protect { addr: e.at(), len: 64 })
            &&& open.deed() matches blit_job::Deed::Write(s)
            &&& stores_word(s, e.at() + 12, w[1] + 1)
            &&& done.phase is After
            &&& done.log.len() == 0
            &&& done.tool == e.tool
            &&& done.addr == e.addr
        }),
{
    layouts::written_word_stands(w[1] + 1);
}

/// A screen is asked for with the map's size, for which a map that cannot be read counts as
/// having none, and with the addresses of the build; a view with these alone; a log that is
/// to be cleared with its header first. The other tools read at once, or do nothing.
pub proof fn tools_ask_for_what_they_need(
    tool: BlitTool,
    a: u64,
    size: Option<(i32, i32)>,
    addrs: Result<Addrs, Error>,
)
    ensures
        ({
            let e = blit_job::Errand::start(tool, Some(a));
            &&& tool is Screen ==> {
                let sized = e.step(blit_job::Outcome::Header(size));
                &&& e.deed() is Header
                &&& sized.dims == match size {
                    Some(d) => d,
                    None => (0i32, 0i32),
                }
                &&& sized.deed() is Addrs
                &&& sized.step(blit_job::Outcome::Addrs(addrs)).dims == sized.dims
            }
            &&& tool is View ==> e.deed() is Addrs
            &&& tool is Clear ==> e.phase is Before
            &&& tool is Status || tool is Frame ==> e.phase is After
            &&& tool is Unknown ==> e.deed() is Over
            &&& tool is Screen || tool is View ==> forall|error: Error|
                #[trigger] shows_failure(tool, a, error)
        }),
{
    assert forall|error: Error| tool is Screen || tool is View implies #[trigger] shows_failure(
        tool,
        a,
        error,
    ) by {}
}

/// Whether a tool that needs the addresses of the build fails with the reason why there are
/// none.
pub open spec fn shows_failure(tool: BlitTool, a: u64, error: Error) -> bool {
    let start = blit_job::Errand::start(tool, Some(a));
    let sized = if tool is Screen {
        start.step(blit_job::Outcome::Header(None))
    } else {
        start
    };
    sized.step(blit_job::Outcome::Addrs(Err(error))).phase == (blit_job::Phase::Failed { error })
}

/// What a tool shows in the end: a view its origin, a screen the origin and all draws, a
/// frame as many draws as asked for, and the other tools the log's header.
pub proof fn tools_show_what_they_say(
    rest: Seq<Exchange>,
    tool: BlitTool,
    a: u64,
    addrs: Result<Addrs, Error>,
    s: Shown,
)
    requires
        blit_job::shown_on(rest, tool, a, addrs) == Ok::<Shown, Stop>(s),
    ensures
        match tool {
            BlitTool::View => s matches Shown::View(o) && blit::origin_on(rest, addrs) == Ok::<
                (i32, i32),
                Stop,
            >(o),
            BlitTool::Screen => s matches Shown::Screen { origin, log } && blit::origin_on(
                rest,
                addrs,
            ) == Ok::<(i32, i32), Stop>(origin) && blit::draws_on(rest.skip(2), a, 16384) == Ok::<
                (u32, u32, Seq<blit::Draw>),
                Stop,
            >(log),
            BlitTool::Frame { limit } => s matches Shown::Frame(log) && blit::draws_on(
                rest,
                a,
                limit,
            ) == Ok::<(u32, u32, Seq<blit::Draw>), Stop>(log),
            BlitTool::Unknown => s is Nothing,
            BlitTool::Status | BlitTool::Enable { .. } | BlitTool::Clear => s matches Shown::Status(
                w,
            ) && memory::ask_words(rest, blit::status_reads(a)) == Ok::<Seq<int>, Stop>(w),
        },
{
}

/// A tool for the score sheet looks for the channel where it is not known, and then does
/// what it does where it is; a search that fails ends it.
pub proof fn found_channel_is_as_good_as_known(tool: DumpTool, a: u64, error: Error)
    ensures
        ({
            let e = dump_job::Errand::start(tool, None);
            &&& e.deed() is Find
            &&& e.step(dump_job::Outcome::Found(Ok(a))) == dump_job::Errand::start(tool, Some(a))
            &&& e.step(dump_job::Outcome::Found(Err(error))).phase == (dump_job::Phase::Failed {
                error,
            })
            &&& e.step(dump_job::Outcome::Found(Err(error))).deed() is Over
        }),
{
}

/// Before a dump the channel is read. A writer that is ready is asked for the dump, with the
/// time that it is given; one that is not makes the tool fail with its state.
pub proof fn dump_asks_a_ready_writer(e: dump_job::Errand, budget_ms: u16, a: Answer, s: DumpView)
    requires
        e.tool == (DumpTool::Dump { budget_ms }),
        e.phase is Before,
        e.deed() is Read,
        ({
            let log = e.log.push(Exchange { read: e.deed()->Read_0, answer: a });
            scoresheet::status_on(log, e.at()) == Ok::<DumpView, Stop>(s)
        }),
    ensures
        ({
            let then = e.step(dump_job::Outcome::Reply(a));
            &&& s.status == 1 ==> then.deed() == (dump_job::Action::Submit { budget_ms })
            &&& s.status != 1 ==> then.deed() is Over && then.phase == (dump_job::Phase::Failed {
                error: Error::DumpUnavailable { status: s.status },
            })
        }),
{
}

/// After a dump the channel is read once more, and the report of the dump is kept; a dump
/// that was refused ends the tool with the reason.
pub proof fn dump_keeps_its_report(e: dump_job::Errand, note: Seq<char>, cached: u64)
    requires
        e.phase is Submit,
    ensures
        ({
            let done = e.step(dump_job::Outcome::Submitted(Ok(note)));
            let refused = e.step(dump_job::Outcome::Submitted(Err(note)));
            &&& done.phase is After
            &&& done.note == note
            &&& done.log.len() == 0
            &&& done.addr == e.addr
            &&& done.tool == e.tool
            &&& refused.phase is Refused
            &&& refused.deed() is Over
            &&& refused.note == note
        }),
        dump_job::Errand::start(DumpTool::Status, Some(cached)).phase is After,
        forall|budget_ms: u16|
            (#[trigger] dump_job::Errand::start(
                DumpTool::Dump { budget_ms },
                Some(cached),
            )).phase is Before,
{
}

} // verus!
