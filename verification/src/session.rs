//! What is kept from one tool call to the next.
//!
//! A call leaves the candidates of the scans alone, unless it is one of the four that work
//! on them.

use crate::args::ArgsView;
use crate::bytes;
use crate::common::Located;
use crate::error::Error;
use crate::mcp;
use crate::mcp::{ChangedReport, ContextReport, FilterReport, McpServer, ScanReport};
use crate::plan;
use crate::plan::{Plan, Request};
use crate::scan::{Around, Comb, Differs, Holds, WordScan};
use crate::sweep;
use crate::sweep::{Pass, Sweep};
use vstd::prelude::*;

verus! {

/// What the server keeps, as contracts speak of it.
pub struct Kept {
    pub located: Located,
    pub blit_addr: Option<u64>,
    pub scoresheet_addr: Option<u64>,
    pub candidates: Seq<u64>,
}

impl View for McpServer {
    type V = Kept;

    open spec fn view(&self) -> Kept {
        Kept {
            located: self.located,
            blit_addr: self.blit_addr,
            scoresheet_addr: self.scoresheet_addr,
            candidates: self.scan_candidates@,
        }
    }
}

/// What carrying out a plan has brought, as far as it may be kept.
pub enum Finding {
    /// A fresh scan, or why there was none.
    Fresh(Result<WordScan, Error>),
    /// The candidates that hold a value.
    Filtered(Sweep<Holds>),
    /// The candidates that hold another value than before.
    Changed(Sweep<Differs>),
    /// The candidates with known values around them.
    Near(Sweep<Around>),
    /// Where the draw log is, once it was found.
    Log(Option<u64>),
    /// Where the status block of the score sheet's channel is, once it was found.
    Channel(Option<u64>),
    /// Nothing that is kept.
    Nothing,
}

/// A finding, as contracts speak of it.
pub enum Found {
    Fresh(Result<Comb, Error>),
    Filtered(Pass<Holds>),
    Changed(Pass<Differs>),
    Near(Pass<Around>),
    Log(Option<u64>),
    Channel(Option<u64>),
    Nothing,
}

impl View for Finding {
    type V = Found;

    open spec fn view(&self) -> Found {
        match self {
            Finding::Fresh(Ok(s)) => Found::Fresh(Ok(s@)),
            Finding::Fresh(Err(e)) => Found::Fresh(Err(*e)),
            Finding::Filtered(s) => Found::Filtered(s@),
            Finding::Changed(s) => Found::Changed(s@),
            Finding::Near(s) => Found::Near(s@),
            Finding::Log(a) => Found::Log(*a),
            Finding::Channel(a) => Found::Channel(*a),
            Finding::Nothing => Found::Nothing,
        }
    }
}

impl Found {
    /// Whether this can come of carrying out a request with these candidates: a scan for
    /// the value that is over, or a sweep over the candidates that is.
    pub open spec fn comes_of(self, r: Request, cands: Seq<u64>) -> bool {
        match r {
            Request::ScanNew { value } => {
                &&& self matches Found::Fresh(s)
                &&& s matches Ok(c) ==> c.todo.len() == 0 && c.lo == bytes::bits32(value as int)
                    && c.hi == bytes::bits32(value as int)
            },
            Request::ScanFilter { value } => {
                &&& self matches Found::Filtered(p)
                &&& mcp::ended_over(p, cands)
                &&& p.visit.value == value
            },
            Request::ScanChanged { was } => {
                &&& self matches Found::Changed(p)
                &&& mcp::ended_over(p, cands)
                &&& p.visit.was == was
            },
            Request::ScanContext { values, window } => {
                &&& self matches Found::Near(p)
                &&& mcp::ended_over(p, cands)
                &&& p.visit.values@ == values
                &&& p.visit.window == window
            },
            Request::Blit { .. } => self is Log,
            Request::Dump { .. } => self is Channel,
            _ => self is Nothing,
        }
    }
}

impl Kept {
    /// What is kept after a finding.
    pub open spec fn after(self, found: Found) -> Kept {
        match found {
            Found::Fresh(Ok(c)) => Kept { candidates: mcp::firsts(c.hits), ..self },
            Found::Filtered(p) => Kept { candidates: p.out, ..self },
            Found::Changed(p) => Kept { candidates: mcp::firsts(p.out), ..self },
            Found::Near(p) => Kept { candidates: mcp::firsts(p.out), ..self },
            Found::Log(a) => Kept { blit_addr: a, ..self },
            Found::Channel(a) => Kept { scoresheet_addr: a, ..self },
            _ => self,
        }
    }
}

/// What is reported of a finding.
#[derive(Debug)]
pub enum Report {
    Fresh(ScanReport),
    Filtered(FilterReport),
    Changed(ChangedReport),
    Near(ContextReport),
    /// A fresh scan failed.
    Failed { error: Error },
    /// Nothing that concerns the candidates.
    Nothing,
}

/// Whether a report tells what a finding has changed, with the number of candidates before
/// and after.
pub open spec fn tells(report: Report, r: Request, found: Found, before: Seq<u64>) -> bool {
    match (r, found) {
        (Request::ScanNew { value }, Found::Fresh(Ok(c))) => {
            &&& report matches Report::Fresh(s)
            &&& s.value == value
            &&& s.candidates == c.hits.len()
            &&& mcp::texts(s.sample@) == mcp::address_texts(mcp::firsts(c.hits), 12)
        },
        (Request::ScanNew { .. }, Found::Fresh(Err(e))) => report matches Report::Failed { error }
            && error == e,
        (Request::ScanFilter { value }, Found::Filtered(p)) => {
            &&& report matches Report::Filtered(s)
            &&& s.value == value
            &&& s.before == before.len()
            &&& s.candidates == p.out.len()
            &&& mcp::texts(s.addresses@) == mcp::address_texts(p.out, 64)
        },
        (Request::ScanChanged { was }, Found::Changed(p)) => {
            &&& report matches Report::Changed(s)
            &&& s.was == was
            &&& s.before == before.len()
            &&& s.candidates == p.out.len()
            &&& mcp::changed_view(s.changed@) == mcp::changed_texts(p.out, 64)
        },
        (Request::ScanContext { .. }, Found::Near(p)) => {
            &&& report matches Report::Near(s)
            &&& s.before == before.len()
            &&& s.candidates == p.out.len()
            &&& mcp::hits_view(s.hits@) == mcp::hit_texts(p.out, 24)
        },
        _ => report is Nothing,
    }
}

impl McpServer {
    /// Keeps what carrying out a plan has brought, and reports it.
    pub fn take(&mut self, plan: &Plan, found: Finding) -> (r: Report)
        requires
            found@.comes_of(plan@, old(self)@.candidates),
        ensures
            final(self)@ == old(self)@.after(found@),
            tells(r, plan@, found@, old(self)@.candidates),
            plan@.narrows() ==> sweep::part_of(
                final(self)@.candidates,
                old(self)@.candidates,
            ),
    {
        match (plan, found) {
            (Plan::ScanNew { value }, Finding::Fresh(Ok(s))) => Report::Fresh(
                self.take_scan(*value, s),
            ),
            (_, Finding::Fresh(Err(error))) => Report::Failed { error },
            (Plan::ScanFilter { value }, Finding::Filtered(s)) => Report::Filtered(
                self.take_filter(*value, s),
            ),
            (Plan::ScanChanged { was }, Finding::Changed(s)) => Report::Changed(
                self.take_changed(*was, s),
            ),
            (_, Finding::Near(s)) => Report::Near(self.take_context(s)),
            (_, Finding::Log(a)) => {
                self.blit_addr = a;
                Report::Nothing
            },
            (_, Finding::Channel(a)) => {
                self.scoresheet_addr = a;
                Report::Nothing
            },
            _ => Report::Nothing,
        }
    }
}

impl Request {
    /// Whether the request narrows the candidates.
    pub open spec fn narrows(self) -> bool {
        self is ScanFilter || self is ScanChanged || self is ScanContext
    }

    /// Whether the request works on the candidates.
    pub open spec fn works_on_candidates(self) -> bool {
        self is ScanNew || self.narrows()
    }
}

/// A request that does not work on the candidates leaves them as they were; so does a fresh
/// scan that fails.
pub proof fn other_requests_keep_candidates(k: Kept, r: Request, found: Found)
    requires
        found.comes_of(r, k.candidates),
        !r.works_on_candidates() || found matches Found::Fresh(Err(_)),
    ensures
        k.after(found).candidates == k.candidates,
{
}

/// Only four tools work on the candidates.
pub proof fn four_tools_work_on_candidates(name: Seq<char>, a: ArgsView)
    requires
        plan::request_of(name, a).works_on_candidates(),
    ensures
        name == "scan_new"@ || name == "scan_filter"@ || name == "scan_changed"@ || name
            == "scan_context"@,
{
}

/// A tool other than the four leaves the candidates as they were.
pub proof fn other_tools_keep_candidates(k: Kept, name: Seq<char>, a: ArgsView, found: Found)
    requires
        found.comes_of(plan::request_of(name, a), k.candidates),
        name != "scan_new"@,
        name != "scan_filter"@,
        name != "scan_changed"@,
        name != "scan_context"@,
    ensures
        k.after(found).candidates == k.candidates,
{
    if plan::request_of(name, a).works_on_candidates() {
        four_tools_work_on_candidates(name, a);
    }
}

/// Narrowing by context without integers to look for is refused, and leaves the candidates
/// as they were.
pub proof fn context_without_values_is_refused(k: Kept, a: ArgsView, found: Found)
    requires
        a.ints("values"@).len() == 0,
        found.comes_of(plan::request_of("scan_context"@, a), k.candidates),
    ensures
        plan::request_of("scan_context"@, a) == (Request::Refused { error: Error::ContextValues }),
        k.after(found).candidates == k.candidates,
{
    scan_names_are_scans(a);
}

/// The four tools ask for what their names say.
pub proof fn scan_names_are_scans(a: ArgsView)
    ensures
        plan::request_of("scan_new"@, a) is ScanNew,
        plan::request_of("scan_filter"@, a) is ScanFilter,
        plan::request_of("scan_changed"@, a) is ScanChanged,
        plan::request_of("scan_context"@, a) == (if a.ints("values"@).len() == 0 {
            Request::Refused { error: Error::ContextValues }
        } else {
            Request::ScanContext {
                values: a.ints("values"@),
                window: a.clamped("window"@, 128, 8, 4096) as usize,
            }
        }),
{
    reveal_strlit("scan_new");
    reveal_strlit("scan_filter");
    reveal_strlit("scan_changed");
    reveal_strlit("scan_ptr_to");
    reveal_strlit("scan_context");
    is_no_reading("scan_new"@, a);
    is_no_reading("scan_filter"@, a);
    is_no_reading("scan_changed"@, a);
    is_no_reading("scan_context"@, a);
    assert("scan_changed"@[6] != "scan_context"@[6]);
    assert("scan_filter"@[5] != "scan_ptr_to"@[5]);
}

proof fn is_no_reading(name: Seq<char>, a: ArgsView)
    requires
        name.len() == 8 || name.len() == 11 || name.len() == 12,
        name[0] == 's',
    ensures
        !plan::is_blit(name),
        plan::read_request(name, a) is None,
{
    reveal_strlit("blit_");
    if plan::is_blit(name) {
        assert(name.take(5)[0] == name[0]);
    }
    reveal_strlit("get_game_state");
    reveal_strlit("get_map");
    reveal_strlit("luigi_raw");
    reveal_strlit("dump_status");
    reveal_strlit("stat_dump");
    reveal_strlit("player");
    reveal_strlit("find_stats");
    reveal_strlit("stats");
    reveal_strlit("map_header");
    reveal_strlit("fov");
    reveal_strlit("probe_cell");
}

} // verus!
