//! The channel through which the game writes its score sheet on demand.

use crate::bytes;
use crate::bytes::to_i32;
use crate::error::Error;
use crate::memory;
use crate::memory::{Exchange, Read, Stop, Tape};
use crate::scan::Marked;
use crate::search;
use crate::search::{find_marked, marked, Search};
use crate::text;
use crate::text::{address_text, dump_text, lossy_text};
use vstd::prelude::*;

verus! {

/// The two words that mark the status block.
pub const SS_MAGIC: u32 = 0xBADB_EEF5;

pub const SS_CHECK: u32 = 0x7953_3EDD;

/// Field offsets of the status block.
pub const OFF_STATUS: u64 = 0x08;

pub const OFF_MODULE_BASE: u64 = 0x0C;

pub const OFF_FN: u64 = 0x10;

pub const OFF_SELF: u64 = 0x14;

pub const OFF_REQ: u64 = 0x18;

pub const OFF_DONE: u64 = 0x1C;

pub const OFF_LAST_RESULT: u64 = 0x20;

pub const OFF_CALLS: u64 = 0x24;

pub const OFF_TEXT_LEN: u64 = 0x28;

pub const OFF_TEXT: u64 = 0x2C;

pub const TEXT_MAX: usize = 192;

pub const OFF_RET_RAW: u64 = 0xEC;

pub const RET_RAW: usize = 32;

/// The state of the channel.
#[derive(Debug)]
pub struct DumpStatus {
    pub addr: String,
    /// As the shim reports it.
    pub status: i32,
    pub status_text: &'static str,
    pub module_base: String,
    /// The writer's address.
    pub writer: String,
    /// The address of the object that it works on.
    pub scorekeeper: String,
    pub req: u32,
    pub done: u32,
    pub last_result: i32,
    pub last_result_text: &'static str,
    pub calls: u32,
    /// The text that the writer returned last.
    pub returned: String,
    /// The head of the writer's return buffer.
    pub ret_raw: String,
}

/// The state of the channel, as contracts speak of it.
pub struct DumpView {
    pub addr: Seq<char>,
    pub status: i32,
    pub status_text: Seq<char>,
    pub module_base: Seq<char>,
    pub writer: Seq<char>,
    pub scorekeeper: Seq<char>,
    pub req: u32,
    pub done: u32,
    pub last_result: i32,
    pub last_result_text: Seq<char>,
    pub calls: u32,
    pub returned: Seq<char>,
    pub ret_raw: Seq<char>,
}

impl View for DumpStatus {
    type V = DumpView;

    open spec fn view(&self) -> DumpView {
        DumpView {
            addr: self.addr@,
            status: self.status,
            status_text: self.status_text@,
            module_base: self.module_base@,
            writer: self.writer@,
            scorekeeper: self.scorekeeper@,
            req: self.req,
            done: self.done,
            last_result: self.last_result,
            last_result_text: self.last_result_text@,
            calls: self.calls,
            returned: self.returned@,
            ret_raw: self.ret_raw@,
        }
    }
}

/// What a status means.
pub open spec fn status_words(v: int) -> Seq<char> {
    if v == 0 {
        "untried"@
    } else if v == 1 {
        "ready"@
    } else if v == -1 {
        "disabled by STATMIND_SCORESHEET=0"@
    } else if v == -2 {
        "GetModuleHandle(NULL) failed"@
    } else if v == -3 {
        "no PE header at the module base"@
    } else if v == -4 {
        "writer fingerprint failed -- not Beta 17.1"@
    } else if v == -5 {
        "call site did not match -- no Scorekeeper pointer"@
    } else if v == -6 {
        "not a Win32 build"@
    } else {
        "unknown"@
    }
}

/// What a status means.
pub fn status_text(v: i32) -> (r: &'static str)
    ensures
        r@ == status_words(v as int),
{
    match v {
        0 => "untried",
        1 => "ready",
        -1 => "disabled by STATMIND_SCORESHEET=0",
        -2 => "GetModuleHandle(NULL) failed",
        -3 => "no PE header at the module base",
        -4 => "writer fingerprint failed -- not Beta 17.1",
        -5 => "call site did not match -- no Scorekeeper pointer",
        -6 => "not a Win32 build",
        _ => "unknown",
    }
}

/// What the outcome of a dump means.
pub open spec fn result_words(v: int) -> Seq<char> {
    if v == 0 {
        "no dump yet"@
    } else if v == 1 {
        "ok"@
    } else if v == -1 {
        "writer not ready"@
    } else if v == -2 {
        "refused: re-entered the frame hook"@
    } else {
        "unknown"@
    }
}

/// What the outcome of a dump means.
pub fn result_text(v: i32) -> (r: &'static str)
    ensures
        r@ == result_words(v as int),
{
    match v {
        0 => "no dump yet",
        1 => "ok",
        -1 => "writer not ready",
        -2 => "refused: re-entered the frame hook",
        _ => "unknown",
    }
}

/// Starts looking for the status block in the regions.
pub fn find(regions: Vec<(u64, u64)>) -> (s: Search<Marked>)
    ensures
        s@ == search::Trail::start(
            regions@,
            bytes::signed32(SS_MAGIC as int) as i32,
            (Marked { check: SS_CHECK }),
            true,
        ),
{
    find_marked(regions, SS_MAGIC, SS_CHECK)
}

/// Where the status block was found, once the search is over.
pub fn found(s: Search<Marked>) -> (r: Result<u64, Error>)
    ensures
        r == if s@.hits().len() > 0 {
            Ok::<u64, Error>(s@.hits()[0])
        } else {
            Err(Error::ScoresheetNotFound)
        },
{
    match marked(s) {
        Some(a) => Ok(a),
        None => Err(Error::ScoresheetNotFound),
    }
}

/// The fields that are read before the text, in this order.
pub open spec fn head_reads(base: u64) -> Seq<u64> {
    seq![
        (base + OFF_STATUS) as u64,
        (base + OFF_LAST_RESULT) as u64,
        (base + OFF_TEXT_LEN) as u64,
    ]
}

/// The fields that are read after it.
pub open spec fn tail_reads(base: u64) -> Seq<u64> {
    seq![
        (base + OFF_MODULE_BASE) as u64,
        (base + OFF_FN) as u64,
        (base + OFF_SELF) as u64,
        (base + OFF_REQ) as u64,
        (base + OFF_DONE) as u64,
        (base + OFF_CALLS) as u64,
    ]
}

/// The state of the channel that those words, that text and those bytes spell.
pub open spec fn dump_of(
    base: u64,
    head: Seq<int>,
    returned: Seq<char>,
    tail: Seq<int>,
    raw: Seq<u8>,
) -> DumpView {
    DumpView {
        addr: text::address(base as nat),
        status: bytes::signed32(head[0]) as i32,
        status_text: status_words(bytes::signed32(head[0])),
        module_base: text::address(tail[0] as nat),
        writer: text::address(tail[1] as nat),
        scorekeeper: text::address(tail[2] as nat),
        req: tail[3] as u32,
        done: tail[4] as u32,
        last_result: bytes::signed32(head[1]) as i32,
        last_result_text: result_words(bytes::signed32(head[1])),
        calls: tail[5] as u32,
        returned,
        ret_raw: text::dump(raw, raw.len() as int, false),
    }
}

/// Words, as contracts speak of them.
pub open spec fn ints(v: Seq<u32>) -> Seq<int> {
    v.map_values(|w: u32| w as int)
}

/// Puts the state of the channel together.
pub fn decode_status(
    base: u64,
    head: &Vec<u32>,
    returned: String,
    tail: &Vec<u32>,
    raw: &Vec<u8>,
) -> (s: DumpStatus)
    requires
        head@.len() == 3,
        tail@.len() == 6,
    ensures
        s@ == dump_of(base, ints(head@), returned@, ints(tail@), raw@),
{
    let status: i32 = to_i32(head[0]);
    let last_result: i32 = to_i32(head[1]);
    DumpStatus {
        addr: address_text(base),
        status,
        status_text: status_text(status),
        module_base: address_text(tail[0] as u64),
        writer: address_text(tail[1] as u64),
        scorekeeper: address_text(tail[2] as u64),
        req: tail[3],
        done: tail[4],
        last_result,
        last_result_text: result_text(last_result),
        calls: tail[5],
        returned,
        ret_raw: dump_text(raw, false),
    }
}

/// How much of the returned text is read.
pub open spec fn text_len(n: int) -> int {
    if n < TEXT_MAX {
        n
    } else {
        TEXT_MAX as int
    }
}

/// What a tape says of the returned text, of which `n` bytes are read; and what the tape
/// then has left.
pub open spec fn text_on(rest: Seq<Exchange>, base: u64, n: int) -> Result<
    (Seq<char>, Seq<Exchange>),
    Stop,
> {
    if n == 0 {
        Ok((seq![], rest))
    } else {
        match memory::ask(rest, Read { addr: (base + OFF_TEXT) as u64, len: n as usize }) {
            Err(stop) => Err(stop),
            Ok(b) => Ok((text::lossy(b), rest.skip(1))),
        }
    }
}

/// What a tape says of the status block at `base`.
pub open spec fn status_on(rest: Seq<Exchange>, base: u64) -> Result<DumpView, Stop> {
    match memory::ask_words(rest, head_reads(base)) {
        Err(stop) => Err(stop),
        Ok(head) => match text_on(rest.skip(3), base, text_len(head[2])) {
            Err(stop) => Err(stop),
            Ok(t) => match memory::ask_words(t.1, tail_reads(base)) {
                Err(stop) => Err(stop),
                Ok(tail) => match memory::ask(
                    t.1.skip(6),
                    Read { addr: (base + OFF_RET_RAW) as u64, len: RET_RAW },
                ) {
                    Err(stop) => Err(stop),
                    Ok(raw) => Ok(dump_of(base, head, t.0, tail, raw)),
                },
            },
        },
    }
}

/// Reads the status block at `base`.
pub fn status(base: u64, tape: &mut Tape) -> (r: Result<DumpStatus, Stop>)
    requires
        base + OFF_RET_RAW <= u64::MAX,
    ensures
        final(tape).all() == old(tape).all(),
        match status_on(old(tape).rest(), base) {
            Ok(s) => r matches Ok(v) && v@ == s,
            Err(stop) => r matches Err(e) && e == stop,
        },
{
    let reads: [u64; 3] = [base + OFF_STATUS, base + OFF_LAST_RESULT, base + OFF_TEXT_LEN];
    assert(reads@ =~= head_reads(base));
    let ghost rest = tape.rest();
    let head: Vec<u32> = tape.words(&reads)?;
    let n: usize = if head[2] < TEXT_MAX as u32 {
        head[2] as usize
    } else {
        TEXT_MAX
    };
    let returned: String = if n > 0 {
        let b: Vec<u8> = tape.bytes(base + OFF_TEXT, n)?;
        lossy_text(&b)
    } else {
        String::new()
    };
    assert(n == 0 ==> returned@ =~= Seq::<char>::empty());
    let more: [u64; 6] = [
        base + OFF_MODULE_BASE,
        base + OFF_FN,
        base + OFF_SELF,
        base + OFF_REQ,
        base + OFF_DONE,
        base + OFF_CALLS,
    ];
    assert(more@ =~= tail_reads(base));
    let ghost after = tape.rest();
    let tail: Vec<u32> = tape.words(&more)?;
    let raw: Vec<u8> = tape.bytes(base + OFF_RET_RAW, RET_RAW)?;
    proof {
        assert(ints(head@) =~= memory::ask_words(rest, head_reads(base))->Ok_0);
        assert(ints(tail@) =~= memory::ask_words(after, tail_reads(base))->Ok_0);
    }
    Ok(decode_status(base, &head, returned, &tail, &raw))
}

/// Whether a dump can be asked for; if not, the writer's state is the reason.
pub fn ready(s: &DumpStatus) -> (r: Result<(), Error>)
    ensures
        r == if s.status == 1 {
            Ok::<(), Error>(())
        } else {
            Err(Error::DumpUnavailable { status: s.status })
        },
{
    if s.status == 1 {
        Ok(())
    } else {
        Err(Error::DumpUnavailable { status: s.status })
    }
}

} // verus!
