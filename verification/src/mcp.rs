//! The server's side of the conversation: what a request is, and what is kept between
//! requests.

use crate::bytes;
use crate::cells;
use crate::common::{Addrs, Located};
use crate::lexer::{chars, trimmed};
use crate::lexer;
use crate::mailbox::MB_EXPECT_VERSION;
use crate::scan::{Around, Differs, Holds, WordScan};
use crate::sweep;
use crate::sweep::{Pass, Sweep, Visit};
use crate::text;
use crate::text::{address_text, push_dec_u, push_hex, push_hex_low};
use crate::types::{LuigiAi, AI_MAGIC_1, AI_MAGIC_2};
use vstd::prelude::*;
use vstd::string::StringExecFns;

verus! {

pub const PROTOCOL_VERSION: &'static str = "2024-11-05";

pub const SERVER_NAME: &'static str = "statmind-mcp";

pub const SERVER_VERSION: &'static str = "0.1.0";

/// Error codes of the protocol.
pub const INVALID_PARAMS: i32 = -32602;

pub const METHOD_NOT_FOUND: i32 = -32601;

pub const TOOL_FAILED: i32 = -32000;

/// What is said beside some answers.
pub const RAW_NOTE: &'static str = "player/mapData are NULL until a map loads. mapData stays empty even then on b17.1 (mirror is stubbed); terrain comes from get_map.";

pub const DUMP_NOTE: &'static str = "written under the profile's dumps/ directory, .txt plus .json when advanced.cfg has jsonStatDump=1. Does not touch scorehistory.txt, so it cannot look like a completed run.";

pub const STATS_NOTE: &'static str = "if more than one matches, move a little and re-run: energy drifts, so a stale copy stops agreeing.";

pub const SCAN_NOTE: &'static str = "change the value in-game, then call scan_filter with the new value (or scan_changed if you do not know it).";

/// How a request is answered.
#[derive(Debug, Clone, Copy, PartialEq, Eq, Structural)]
pub enum Route {
    /// A notification: not at all.
    Silent,
    Initialize,
    ListTools,
    CallTool,
    InvalidParams,
    MethodNotFound,
}

/// How a request is answered. It may lack an identifier; `callable` tells whether its
/// parameters are those of a tool call.
pub open spec fn route_of(has_id: bool, method: Seq<char>, callable: bool) -> Route {
    if !has_id {
        Route::Silent
    } else if method == "initialize"@ {
        Route::Initialize
    } else if method == "tools/list"@ {
        Route::ListTools
    } else if method == "tools/call"@ {
        if callable {
            Route::CallTool
        } else {
            Route::InvalidParams
        }
    } else {
        Route::MethodNotFound
    }
}

/// How a request is answered.
pub fn process_request(has_id: bool, method: &String, callable: bool) -> (r: Route)
    ensures
        r == route_of(has_id, method@, callable),
{
    if !has_id {
        Route::Silent
    } else if lexer::same(method, "initialize") {
        Route::Initialize
    } else if lexer::same(method, "tools/list") {
        Route::ListTools
    } else if lexer::same(method, "tools/call") {
        if callable {
            Route::CallTool
        } else {
            Route::InvalidParams
        }
    } else {
        Route::MethodNotFound
    }
}

impl Route {
    /// The error that a request is refused with, where it is.
    pub open spec fn refusal(self) -> Option<(i32, Seq<char>)> {
        match self {
            Route::InvalidParams => Some((INVALID_PARAMS, "Invalid params"@)),
            Route::MethodNotFound => Some((METHOD_NOT_FOUND, "Method not found"@)),
            _ => None,
        }
    }

    /// The error that a request is refused with, where it is.
    pub fn error(self) -> (r: Option<(i32, &'static str)>)
        ensures
            match r {
                Some(e) => self.refusal() == Some((e.0, e.1@)),
                None => self.refusal() is None,
            },
    {
        match self {
            Route::InvalidParams => Some((INVALID_PARAMS, "Invalid params")),
            Route::MethodNotFound => Some((METHOD_NOT_FOUND, "Method not found")),
            _ => None,
        }
    }
}

/// A request is left without an answer exactly if it has no identifier.
pub proof fn only_notifications_go_unanswered(has_id: bool, method: Seq<char>, callable: bool)
    ensures
        route_of(has_id, method, callable) is Silent <==> !has_id,
{
}

/// What an answer holds: a result or an error, never both.
#[derive(Debug, PartialEq, Eq)]
pub enum Body<R> {
    Result(R),
    Error { code: i32, message: String },
}

/// An answer to the request with this identifier.
#[derive(Debug, PartialEq, Eq)]
pub struct Response<I, R> {
    pub id: I,
    pub body: Body<R>,
}

/// Whether an answer holds what a request on this route is answered with: the error that
/// it is refused with, else the outcome, whose failure is that of a tool.
pub open spec fn answers_route<R>(
    body: Body<R>,
    route: Route,
    outcome: Result<R, String>,
) -> bool {
    match (route.refusal(), outcome) {
        (Some(e), _) => body matches Body::Error { code, message } && code == e.0 && message@ == e.1,
        (None, Ok(v)) => body == Body::Result(v),
        (None, Err(e)) => body matches Body::Error { code, message } && code == TOOL_FAILED
            && message@ == e@,
    }
}

/// The answer to a request on this route: none to a notification, else one that repeats
/// the request's identifier.
pub fn respond<I, R>(id: Option<I>, route: Route, outcome: Result<R, String>) -> (r: Option<
    Response<I, R>,
>)
    requires
        id is None <==> route is Silent,
    ensures
        match id {
            None => r is None,
            Some(i) => r matches Some(a) && a.id == i && answers_route(a.body, route, outcome),
        },
{
    match id {
        None => None,
        Some(id) => {
            let body: Body<R> = match (route.error(), outcome) {
                (Some(e), _) => Body::Error { code: e.0, message: e.1.to_owned() },
                (None, Ok(v)) => Body::Result(v),
                (None, Err(message)) => Body::Error { code: TOOL_FAILED, message },
            };
            Some(Response { id, body })
        },
    }
}

/// Whether a line holds nothing but white space. Such lines are passed over.
pub fn is_blank(line: &str) -> (r: bool)
    ensures
        r == (lexer::trim(line@).len() == 0),
{
    trimmed(&chars(line)).len() == 0
}

/// What is said of a tool that does not exist.
pub fn unknown_tool(name: &str) -> (r: String)
    ensures
        r@ == "Unknown tool: "@ + name@,
{
    let mut r: String = "Unknown tool: ".to_owned();
    r.append(name);
    r
}

/// What is said of a blit tool that does not exist.
pub fn unknown_blit_tool(name: &str) -> (r: String)
    ensures
        r@ == "unknown blit tool: "@ + name@,
{
    let mut r: String = "unknown blit tool: ".to_owned();
    r.append(name);
    r
}

/// The warning about a mailbox that speaks another version, where it does.
pub fn version_warning(version: u32) -> (r: Option<String>)
    ensures
        if version == MB_EXPECT_VERSION {
            r is None
        } else {
            r matches Some(s) && s@ == "WARNING: mailbox is v"@ + text::dec(version as int)
                + " but statmind expects v"@ + text::dec(MB_EXPECT_VERSION as int)
                + ". Rebuild SDL.dll."@
        },
{
    if version == MB_EXPECT_VERSION {
        None
    } else {
        let mut s: String = "WARNING: mailbox is v".to_owned();
        push_dec_u(&mut s, version as u64);
        s.append(" but statmind expects v");
        push_dec_u(&mut s, MB_EXPECT_VERSION as u64);
        s.append(". Rebuild SDL.dll.");
        Some(s)
    }
}

/// What is kept between requests.
#[derive(Debug)]
pub struct McpServer {
    /// The mirror, the mailbox and the addresses of the build.
    pub located: Located,
    /// The draw log.
    pub blit_addr: Option<u64>,
    /// The status block of the score sheet's channel.
    pub scoresheet_addr: Option<u64>,
    /// What the scans have left.
    pub scan_candidates: Vec<u64>,
}

/// Texts, as contracts speak of them.
pub open spec fn texts(v: Seq<String>) -> Seq<Seq<char>> {
    v.map_values(|s: String| s@)
}

/// The first `n` addresses, as they are reported.
pub open spec fn address_texts(v: Seq<u64>, n: int) -> Seq<Seq<char>> {
    Seq::new(cells::least(v.len() as int, n) as nat, |i: int| text::address(v[i] as nat))
}

/// The first `n` addresses, as they are reported.
pub fn sample(v: &Vec<u64>, n: usize) -> (r: Vec<String>)
    ensures
        texts(r@) == address_texts(v@, n as int),
{
    let mut out: Vec<String> = Vec::new();
    let mut i: usize = 0;
    while i < v.len() && i < n
        invariant
            i <= v@.len(),
            i <= n,
            out@.len() == i,
            texts(out@) == address_texts(v@, i as int),
        decreases v@.len() - i,
    {
        let ghost prior = texts(out@);
        out.push(address_text(v[i]));
        assert(texts(out@) =~= prior.push(text::address(v@[i as int] as nat)));
        i = i + 1;
        assert(texts(out@) =~= address_texts(v@, i as int));
    }
    assert(texts(out@) =~= address_texts(v@, n as int));
    out
}

/// Whether a sweep went over these candidates, to its end.
pub open spec fn ended_over<V: Visit>(p: Pass<V>, cands: Seq<u64>) -> bool {
    p.cands == cands && p.request() is None && !p.first
}

/// Narrowing to a value leaves some of the candidates, in their order.
pub proof fn filtered_is_part(p: Pass<Holds>)
    requires
        p.valid(),
        p.traced(),
    ensures
        sweep::part_of(p.out, p.cands),
{
    let places = choose|places: Seq<int>| p.traced_by(places);
    assert(sweep::increasing(places, p.cands.len() as int));
    assert forall|i: int| 0 <= i < p.out.len() implies p.out[i] == p.cands[#[trigger] places[i]] by {
        assert(p.can_bring(p.cands[places[i]], p.out[i]));
    }
    assert(p.out =~= places.map_values(|k: int| p.cands[k]));
}

/// So does narrowing to what has changed.
pub proof fn changed_is_part(p: Pass<Differs>)
    requires
        p.valid(),
        p.traced(),
    ensures
        sweep::part_of(firsts(p.out), p.cands),
{
    let places = choose|places: Seq<int>| p.traced_by(places);
    assert(sweep::increasing(places, p.cands.len() as int));
    assert forall|i: int| 0 <= i < p.out.len() implies p.out[i].0
        == p.cands[#[trigger] places[i]] by {
        assert(p.can_bring(p.cands[places[i]], p.out[i]));
    }
    assert(firsts(p.out) =~= places.map_values(|k: int| p.cands[k]));
}

/// So does narrowing by context.
pub proof fn context_is_part(p: Pass<Around>)
    requires
        p.valid(),
        p.traced(),
    ensures
        sweep::part_of(firsts(p.out), p.cands),
{
    let places = choose|places: Seq<int>| p.traced_by(places);
    assert(sweep::increasing(places, p.cands.len() as int));
    assert forall|i: int| 0 <= i < p.out.len() implies p.out[i].0
        == p.cands[#[trigger] places[i]] by {
        assert(p.can_bring(p.cands[places[i]], p.out[i]));
    }
    assert(firsts(p.out) =~= places.map_values(|k: int| p.cands[k]));
}

/// What a fresh scan has found.
#[derive(Debug)]
pub struct ScanReport {
    pub value: i32,
    pub candidates: usize,
    pub sample: Vec<String>,
}

/// What narrowing to a value has left.
#[derive(Debug)]
pub struct FilterReport {
    pub value: i32,
    pub before: usize,
    pub candidates: usize,
    pub addresses: Vec<String>,
}

/// An address whose value has changed.
#[derive(Debug)]
pub struct Changed {
    pub addr: String,
    pub now: i32,
}

/// What narrowing to changed values has left.
#[derive(Debug)]
pub struct ChangedReport {
    pub was: i32,
    pub before: usize,
    pub candidates: usize,
    pub changed: Vec<Changed>,
}

/// The addresses of a list of hits.
pub open spec fn firsts<T>(v: Seq<(u64, T)>) -> Seq<u64> {
    v.map_values(|h: (u64, T)| h.0)
}

/// The first `n` changed values, as they are reported.
pub open spec fn changed_texts(v: Seq<(u64, i32)>, n: int) -> Seq<(Seq<char>, i32)> {
    Seq::new(
        cells::least(v.len() as int, n) as nat,
        |i: int| (text::address(v[i].0 as nat), v[i].1),
    )
}

/// Changed values, as contracts speak of them.
pub open spec fn changed_view(v: Seq<Changed>) -> Seq<(Seq<char>, i32)> {
    v.map_values(|c: Changed| (c.addr@, c.now))
}

fn changed_sample(v: &Vec<(u64, i32)>, n: usize) -> (r: Vec<Changed>)
    ensures
        changed_view(r@) == changed_texts(v@, n as int),
{
    let mut out: Vec<Changed> = Vec::new();
    let mut i: usize = 0;
    while i < v.len() && i < n
        invariant
            i <= v@.len(),
            i <= n,
            out@.len() == i,
            changed_view(out@) == changed_texts(v@, i as int),
        decreases v@.len() - i,
    {
        let ghost prior = changed_view(out@);
        out.push(Changed { addr: address_text(v[i].0), now: v[i].1 });
        assert(changed_view(out@) =~= prior.push(
            (text::address(v@[i as int].0 as nat), v@[i as int].1),
        ));
        i = i + 1;
        assert(changed_view(out@) =~= changed_texts(v@, i as int));
    }
    assert(changed_view(out@) =~= changed_texts(v@, n as int));
    out
}

fn changed_addresses(v: &Vec<(u64, i32)>) -> (r: Vec<u64>)
    ensures
        r@ == firsts(v@),
{
    let mut out: Vec<u64> = Vec::new();
    let mut i: usize = 0;
    while i < v.len()
        invariant
            i <= v@.len(),
            out@ == firsts(v@.take(i as int)),
        decreases v@.len() - i,
    {
        out.push(v[i].0);
        i = i + 1;
        assert(out@ =~= firsts(v@.take(i as int)));
    }
    assert(v@.take(i as int) =~= v@);
    out
}

impl McpServer {
    /// Nothing found and nothing scanned yet.
    pub fn new() -> (s: McpServer)
        ensures
            s.located == (Located { base: None, mailbox: None, addrs: None }),
            s.blit_addr is None,
            s.scoresheet_addr is None,
            s.scan_candidates@.len() == 0,
    {
        McpServer {
            located: Located::new(),
            blit_addr: None,
            scoresheet_addr: None,
            scan_candidates: Vec::new(),
        }
    }

    /// Takes what a fresh scan for `value` has found, once it is over.
    pub fn take_scan(&mut self, value: i32, s: WordScan) -> (r: ScanReport)
        requires
            s@.todo.len() == 0,
            s@.lo == bytes::bits32(value as int),
            s@.hi == bytes::bits32(value as int),
        ensures
            final(self).scan_candidates@ == s@.hits.map_values(|h: (u64, u32)| h.0),
            final(self).located == old(self).located,
            final(self).blit_addr == old(self).blit_addr,
            final(self).scoresheet_addr == old(self).scoresheet_addr,
            r.value == value,
            r.candidates == s@.hits.len(),
            texts(r.sample@) == address_texts(final(self).scan_candidates@, 12),
    {
        self.scan_candidates = s.addresses();
        ScanReport {
            value,
            candidates: self.scan_candidates.len(),
            sample: sample(&self.scan_candidates, 12),
        }
    }

    /// Takes what narrowing to `value` has left, once the sweep over the candidates is
    /// over.
    pub fn take_filter(&mut self, value: i32, s: Sweep<Holds>) -> (r: FilterReport)
        requires
            ended_over(s@, old(self).scan_candidates@),
            s@.visit.value == value,
        ensures
            final(self).scan_candidates@ == s@.out,
            sweep::part_of(final(self).scan_candidates@, old(self).scan_candidates@),
            final(self).located == old(self).located,
            final(self).blit_addr == old(self).blit_addr,
            final(self).scoresheet_addr == old(self).scoresheet_addr,
            r.value == value,
            r.before == old(self).scan_candidates@.len(),
            r.candidates == s@.out.len(),
            texts(r.addresses@) == address_texts(s@.out, 64),
    {
        let before: usize = self.scan_candidates.len();
        let ghost p = s@;
        let hits: Vec<u64> = s.hits();
        assert(hits@.map_values(|h: u64| h@) =~= hits@);
        proof {
            filtered_is_part(p);
        }
        self.scan_candidates = hits;
        FilterReport {
            value,
            before,
            candidates: self.scan_candidates.len(),
            addresses: sample(&self.scan_candidates, 64),
        }
    }

    /// Takes what narrowing to values other than `was` has left, once the sweep over the
    /// candidates is over.
    pub fn take_changed(&mut self, was: i32, s: Sweep<Differs>) -> (r: ChangedReport)
        requires
            ended_over(s@, old(self).scan_candidates@),
            s@.visit.was == was,
        ensures
            final(self).scan_candidates@ == firsts(s@.out),
            sweep::part_of(final(self).scan_candidates@, old(self).scan_candidates@),
            final(self).located == old(self).located,
            final(self).blit_addr == old(self).blit_addr,
            final(self).scoresheet_addr == old(self).scoresheet_addr,
            r.was == was,
            r.before == old(self).scan_candidates@.len(),
            r.candidates == s@.out.len(),
            changed_view(r.changed@) == changed_texts(s@.out, 64),
    {
        let before: usize = self.scan_candidates.len();
        let ghost p = s@;
        let hits: Vec<(u64, i32)> = s.hits();
        assert(hits@.map_values(|h: (u64, i32)| h@) =~= hits@);
        proof {
            changed_is_part(p);
        }
        self.scan_candidates = changed_addresses(&hits);
        ChangedReport {
            was,
            before,
            candidates: self.scan_candidates.len(),
            changed: changed_sample(&hits, 64),
        }
    }
}

/// A distance with its sign, in hexadecimal.
pub open spec fn distance(off: int) -> Seq<char> {
    if off < 0 {
        "-0x"@ + text::hex_low((-off) as nat, 1)
    } else {
        "+0x"@ + text::hex_low(off as nat, 1)
    }
}

/// A distance with its sign, in hexadecimal.
pub fn distance_text(off: i32) -> (r: String)
    ensures
        r@ == distance(off as int),
{
    if off < 0 {
        let mut r: String = "-0x".to_owned();
        push_hex_low(&mut r, (-(off as i64)) as u64, 1);
        r
    } else {
        let mut r: String = "+0x".to_owned();
        push_hex_low(&mut r, off as u64, 1);
        r
    }
}

/// A value that stands near an address, and where.
#[derive(Debug)]
pub struct Near {
    pub value: i32,
    pub rel: String,
}

/// An address with all the values that were asked for near it.
#[derive(Debug)]
pub struct ContextHit {
    pub addr: String,
    pub found: Vec<Near>,
}

/// What narrowing to addresses near known values has left.
#[derive(Debug)]
pub struct ContextReport {
    pub before: usize,
    pub candidates: usize,
    pub hits: Vec<ContextHit>,
}

/// Values near an address, as contracts speak of them.
pub open spec fn near_view(v: Seq<Near>) -> Seq<(i32, Seq<char>)> {
    v.map_values(|n: Near| (n.value, n.rel@))
}

/// Values near an address, as they are reported.
pub open spec fn near_texts(v: Seq<(i32, i32)>) -> Seq<(i32, Seq<char>)> {
    v.map_values(|p: (i32, i32)| (p.0, distance(p.1 as int)))
}

/// Hits, as contracts speak of them.
pub open spec fn hits_view(v: Seq<ContextHit>) -> Seq<(Seq<char>, Seq<(i32, Seq<char>)>)> {
    v.map_values(|h: ContextHit| (h.addr@, near_view(h.found@)))
}

/// The first `n` hits, as they are reported.
pub open spec fn hit_texts(v: Seq<(u64, Seq<(i32, i32)>)>, n: int) -> Seq<
    (Seq<char>, Seq<(i32, Seq<char>)>),
> {
    Seq::new(
        cells::least(v.len() as int, n) as nat,
        |i: int| (text::address(v[i].0 as nat), near_texts(v[i].1)),
    )
}

/// The hits of a sweep, as contracts speak of them.
pub open spec fn context_view(v: Seq<(u64, Vec<(i32, i32)>)>) -> Seq<(u64, Seq<(i32, i32)>)> {
    v.map_values(|h: (u64, Vec<(i32, i32)>)| (h.0, h.1@))
}

fn near(v: &Vec<(i32, i32)>) -> (r: Vec<Near>)
    ensures
        near_view(r@) == near_texts(v@),
{
    let mut out: Vec<Near> = Vec::new();
    let mut i: usize = 0;
    while i < v.len()
        invariant
            i <= v@.len(),
            near_view(out@) == near_texts(v@.take(i as int)),
        decreases v@.len() - i,
    {
        let ghost prior = near_view(out@);
        out.push(Near { value: v[i].0, rel: distance_text(v[i].1) });
        assert(near_view(out@) =~= prior.push((v@[i as int].0, distance(v@[i as int].1 as int))));
        i = i + 1;
        assert(v@.take(i as int) =~= v@.take(i - 1).push(v@[i - 1]));
        assert(near_view(out@) =~= near_texts(v@.take(i as int)));
    }
    assert(v@.take(i as int) =~= v@);
    out
}

fn context_sample(v: &Vec<(u64, Vec<(i32, i32)>)>, n: usize) -> (r: Vec<ContextHit>)
    ensures
        hits_view(r@) == hit_texts(context_view(v@), n as int),
{
    let mut out: Vec<ContextHit> = Vec::new();
    let mut i: usize = 0;
    while i < v.len() && i < n
        invariant
            i <= v@.len(),
            i <= n,
            out@.len() == i,
            hits_view(out@) == hit_texts(context_view(v@), i as int),
        decreases v@.len() - i,
    {
        let ghost prior = hits_view(out@);
        out.push(ContextHit { addr: address_text(v[i].0), found: near(&v[i].1) });
        assert(hits_view(out@) =~= prior.push(
            (text::address(v@[i as int].0 as nat), near_texts(v@[i as int].1@)),
        ));
        i = i + 1;
        assert(hits_view(out@) =~= hit_texts(context_view(v@), i as int));
    }
    assert(hits_view(out@) =~= hit_texts(context_view(v@), n as int));
    out
}

fn context_addresses(v: &Vec<(u64, Vec<(i32, i32)>)>) -> (r: Vec<u64>)
    ensures
        r@ == firsts(context_view(v@)),
{
    let mut out: Vec<u64> = Vec::new();
    let mut i: usize = 0;
    while i < v.len()
        invariant
            i <= v@.len(),
            out@ == firsts(context_view(v@.take(i as int))),
        decreases v@.len() - i,
    {
        out.push(v[i].0);
        i = i + 1;
        assert(out@ =~= firsts(context_view(v@.take(i as int))));
    }
    assert(v@.take(i as int) =~= v@);
    out
}

impl McpServer {
    /// Takes what narrowing to addresses near known values has left, once the sweep over
    /// the candidates is over.
    pub fn take_context(&mut self, s: Sweep<Around>) -> (r: ContextReport)
        requires
            ended_over(s@, old(self).scan_candidates@),
        ensures
            final(self).scan_candidates@ == firsts(s@.out),
            sweep::part_of(final(self).scan_candidates@, old(self).scan_candidates@),
            final(self).located == old(self).located,
            final(self).blit_addr == old(self).blit_addr,
            final(self).scoresheet_addr == old(self).scoresheet_addr,
            r.before == old(self).scan_candidates@.len(),
            r.candidates == s@.out.len(),
            hits_view(r.hits@) == hit_texts(s@.out, 24),
    {
        let before: usize = self.scan_candidates.len();
        let ghost p = s@;
        let hits: Vec<(u64, Vec<(i32, i32)>)> = s.hits();
        assert(hits@.map_values(|h: (u64, Vec<(i32, i32)>)| h@) =~= context_view(hits@));
        proof {
            context_is_part(p);
        }
        self.scan_candidates = context_addresses(&hits);
        ContextReport {
            before,
            candidates: self.scan_candidates.len(),
            hits: context_sample(&hits, 24),
        }
    }
}

/// A word that points somewhere.
#[derive(Debug)]
pub struct Pointer {
    pub at: String,
    pub points_to: String,
}

/// What a scan for pointers has found.
#[derive(Debug)]
pub struct PointerReport {
    pub lo: String,
    pub hi: String,
    pub references: usize,
    pub static_or_low_refs: Vec<Pointer>,
    pub sample: Vec<Pointer>,
}

/// Pointers, as contracts speak of them.
pub open spec fn pointers_view(v: Seq<Pointer>) -> Seq<(Seq<char>, Seq<char>)> {
    v.map_values(|p: Pointer| (p.at@, p.points_to@))
}

/// A pointer, as it is reported.
pub open spec fn pointer_text(h: (u64, u32)) -> (Seq<char>, Seq<char>) {
    (text::address(h.0 as nat), text::address(h.1 as nat))
}

/// The first `n` pointers, as they are reported.
pub open spec fn pointer_texts(v: Seq<(u64, u32)>, n: int) -> Seq<(Seq<char>, Seq<char>)> {
    Seq::new(cells::least(v.len() as int, n) as nat, |i: int| pointer_text(v[i]))
}

/// Whether a pointer stands where a program's static data stands.
pub open spec fn is_static(h: (u64, u32)) -> bool {
    0x0040_0000 <= h.0 <= 0x0100_0000
}

/// The static ones among the first `n` pointers.
pub open spec fn statics(v: Seq<(u64, u32)>, n: int) -> Seq<(u64, u32)>
    decreases n,
{
    if n <= 0 {
        seq![]
    } else if is_static(v[n - 1]) {
        statics(v, n - 1).push(v[n - 1])
    } else {
        statics(v, n - 1)
    }
}

fn pointer(h: (u64, u32)) -> (r: Pointer)
    ensures
        (r.at@, r.points_to@) == pointer_text(h),
{
    Pointer { at: address_text(h.0), points_to: address_text(h.1 as u64) }
}

fn pointer_sample(v: &Vec<(u64, u32)>, n: usize) -> (r: Vec<Pointer>)
    ensures
        pointers_view(r@) == pointer_texts(v@, n as int),
{
    let mut out: Vec<Pointer> = Vec::new();
    let mut i: usize = 0;
    while i < v.len() && i < n
        invariant
            i <= v@.len(),
            i <= n,
            out@.len() == i,
            pointers_view(out@) == pointer_texts(v@, i as int),
        decreases v@.len() - i,
    {
        let ghost prior = pointers_view(out@);
        out.push(pointer(v[i]));
        assert(pointers_view(out@) =~= prior.push(pointer_text(v@[i as int])));
        i = i + 1;
        assert(pointers_view(out@) =~= pointer_texts(v@, i as int));
    }
    assert(pointers_view(out@) =~= pointer_texts(v@, n as int));
    out
}

fn static_pointers(v: &Vec<(u64, u32)>) -> (r: Vec<(u64, u32)>)
    ensures
        r@ == statics(v@, v@.len() as int),
{
    let mut out: Vec<(u64, u32)> = Vec::new();
    let mut i: usize = 0;
    while i < v.len()
        invariant
            i <= v@.len(),
            out@ == statics(v@, i as int),
        decreases v@.len() - i,
    {
        let h: (u64, u32) = v[i];
        if 0x0040_0000 <= h.0 && h.0 <= 0x0100_0000 {
            out.push(h);
        }
        i = i + 1;
    }
    out
}

/// What a scan for pointers into `lo..=hi` has found. Those at static addresses are
/// reported first.
pub fn pointer_report(lo: u32, hi: u32, hits: &Vec<(u64, u32)>) -> (r: PointerReport)
    ensures
        r.lo@ == text::address(lo as nat),
        r.hi@ == text::address(hi as nat),
        r.references == hits@.len(),
        pointers_view(r.static_or_low_refs@) == pointer_texts(
            statics(hits@, hits@.len() as int),
            40,
        ),
        pointers_view(r.sample@) == pointer_texts(hits@, 24),
{
    PointerReport {
        lo: address_text(lo as u64),
        hi: address_text(hi as u64),
        references: hits.len(),
        static_or_low_refs: pointer_sample(&static_pointers(hits), 40),
        sample: pointer_sample(hits, 24),
    }
}

/// How far a word stands from the start of a window.
pub fn offset_text(i: usize) -> (r: String)
    requires
        4 * i <= usize::MAX,
    ensures
        r@ == "+0x"@ + text::hex((4 * i) as nat, 2),
{
    let mut r: String = "+0x".to_owned();
    push_hex(&mut r, (4 * i) as u64, 2);
    r
}

/// Every field of the mirror's root.
#[derive(Debug)]
pub struct LuigiRaw {
    pub base_addr: String,
    pub magic1_ok: bool,
    pub magic2_ok: bool,
    pub action_ready: i32,
    pub map_width: i32,
    pub map_height: i32,
    pub location_depth: i32,
    pub location_map: i32,
    pub map_data: String,
    pub map_cursor_index: i32,
    pub player: String,
    pub machine_hacking: String,
}

/// Every field of the mirror's root. `addrs` are the addresses for this build, where
/// they are known.
pub fn luigi_raw(ai: &LuigiAi, addrs: Option<Addrs>) -> (r: LuigiRaw)
    ensures
        r.base_addr@ == text::address(
            match addrs {
                Some(a) => a.luigi as nat,
                None => 0,
            },
        ),
        r.magic1_ok == (ai.magic1 == AI_MAGIC_1),
        r.magic2_ok == (ai.magic2 == AI_MAGIC_2),
        r.action_ready == ai.action_ready,
        r.map_width == ai.map_width,
        r.map_height == ai.map_height,
        r.location_depth == ai.location_depth,
        r.location_map == ai.location_map,
        r.map_data@ == text::address(ai.map_data as nat),
        r.map_cursor_index == ai.map_cursor_index,
        r.player@ == text::address(ai.player as nat),
        r.machine_hacking@ == text::address(ai.machine_hacking as nat),
{
    let base: usize = match addrs {
        Some(a) => a.luigi,
        None => 0,
    };
    LuigiRaw {
        base_addr: address_text(base as u64),
        magic1_ok: ai.magic1 == AI_MAGIC_1,
        magic2_ok: ai.magic2 == AI_MAGIC_2,
        action_ready: ai.action_ready,
        map_width: ai.map_width,
        map_height: ai.map_height,
        location_depth: ai.location_depth,
        location_map: ai.location_map,
        map_data: address_text(ai.map_data as u64),
        map_cursor_index: ai.map_cursor_index,
        player: address_text(ai.player as u64),
        machine_hacking: address_text(ai.machine_hacking as u64),
    }
}

/// The map's header, with what is known of the build.
#[derive(Debug)]
pub struct MapHeader {
    pub build: String,
    pub map_obj: String,
    pub player_rec_known: bool,
    pub width: i32,
    pub height: i32,
    pub cells_base: String,
}

/// The map's header, with what is known of the build.
pub fn map_header(header: (i32, i32, u32), addrs: Option<Addrs>) -> (r: MapHeader)
    ensures
        r.build@ == text::address(
            match addrs {
                Some(a) => a.build_stamp as nat,
                None => 0,
            },
        ),
        r.map_obj@ == text::address(
            match addrs {
                Some(a) => a.map_object as nat,
                None => 0,
            },
        ),
        r.player_rec_known == (addrs matches Some(a) && a.player_rec is Some),
        r.width == header.0,
        r.height == header.1,
        r.cells_base@ == text::address(header.2 as nat),
{
    let (build, map_obj, known) = match addrs {
        Some(a) => (a.build_stamp as u64, a.map_object as u64, a.player_rec.is_some()),
        None => (0, 0, false),
    };
    MapHeader {
        build: address_text(build),
        map_obj: address_text(map_obj),
        player_rec_known: known,
        width: header.0,
        height: header.1,
        cells_base: address_text(header.2 as u64),
    }
}

} // verus!
