//! A scan for a value, and then a closer look at every address that holds it.

use crate::bytes;
use crate::bytes::to_i32;
use crate::memory;
use crate::memory::{Answer, Read, Reply};
use crate::scan;
use crate::scan::{scan_new, Comb, Marked, WordScan};
use crate::sweep;
use crate::sweep::{Pass, Sweep, Visit};
use crate::walk;
use vstd::prelude::*;

verus! {

/// How far a search has come.
#[verifier::reject_recursive_types(V)]
pub enum Trail<V: Visit> {
    Scanning { scan: Comb, visit: V, first: bool },
    Sweeping { pass: Pass<V> },
}

/// The addresses that a scan has found.
pub open spec fn places(c: Comb) -> Seq<u64> {
    c.hits.map_values(|h: (u64, u32)| h.0)
}

impl<V: Visit> Trail<V> {
    /// The search with a scan that has come this far. A scan that is over gives way to the
    /// sweep over what it has found.
    pub open spec fn with(scan: Comb, visit: V, first: bool) -> Trail<V> {
        if scan.todo.len() == 0 {
            Trail::Sweeping { pass: Pass::start(visit, places(scan), first) }
        } else {
            Trail::Scanning { scan, visit, first }
        }
    }

    /// Before the first read of a search for `value` in the regions.
    pub open spec fn start(regions: Seq<(u64, u64)>, value: i32, visit: V, first: bool) -> Trail<V> {
        Trail::with(
            Comb {
                lo: bytes::bits32(value as int) as u32,
                hi: bytes::bits32(value as int) as u32,
                cap: scan::MAX_CANDIDATES as int,
                todo: walk::reads_over(regions, scan::scan_cut()),
                hits: seq![],
            },
            visit,
            first,
        )
    }

    /// The next read.
    pub open spec fn request(self) -> Option<Read> {
        match self {
            Trail::Scanning { scan, .. } => Some(scan.todo[0]),
            Trail::Sweeping { pass } => pass.request(),
        }
    }

    /// What the answer to the next read leads to.
    pub open spec fn step(self, a: Answer) -> Trail<V> {
        match self {
            Trail::Scanning { scan, visit, first } => Trail::with(scan.step(a), visit, first),
            Trail::Sweeping { pass } => Trail::Sweeping { pass: pass.step(a) },
        }
    }

    /// What was found so far.
    pub open spec fn hits(self) -> Seq<<V::Hit as View>::V> {
        match self {
            Trail::Scanning { .. } => seq![],
            Trail::Sweeping { pass } => pass.out,
        }
    }
}

enum Stage<V: Visit> {
    Scanning { scan: WordScan, visit: V, first: bool },
    Sweeping { sweep: Sweep<V> },
}

/// A search, waiting for an answer or over.
pub struct Search<V: Visit> {
    stage: Stage<V>,
}

impl<V: Visit> View for Search<V> {
    type V = Trail<V>;

    closed spec fn view(&self) -> Trail<V> {
        match self.stage {
            Stage::Scanning { scan, visit, first } => Trail::Scanning { scan: scan@, visit, first },
            Stage::Sweeping { sweep } => Trail::Sweeping { pass: sweep@ },
        }
    }
}

/// Whether every address that a scan can find may be visited.
pub open spec fn admits_all<V: Visit>(visit: V) -> bool {
    forall|a: u64| a <= scan::ADDR_LIMIT + scan::CHUNK ==> #[trigger] visit.admits(a)
}

fn staged<V: Visit>(scan: WordScan, visit: V, first: bool) -> (s: Search<V>)
    requires
        admits_all(visit),
    ensures
        s@ == Trail::with(scan@, visit, first),
{
    if scan.next().is_none() {
        let cands: Vec<u64> = scan.addresses();
        assert(cands@ == places(scan@));
        Search { stage: Stage::Sweeping { sweep: Sweep::start(visit, cands, first) } }
    } else {
        Search { stage: Stage::Scanning { scan, visit, first } }
    }
}

impl<V: Visit> Search<V> {
    #[verifier::type_invariant]
    spec fn sound(self) -> bool {
        match self.stage {
            Stage::Scanning { scan, visit, first } => scan@.todo.len() > 0 && admits_all(visit),
            Stage::Sweeping { sweep } => true,
        }
    }

    /// Starts a search for `value` in the regions, with a visit to every address that
    /// holds it; with `first`, it ends at the first hit.
    pub fn start(regions: Vec<(u64, u64)>, value: i32, visit: V, first: bool) -> (s: Search<V>)
        requires
            admits_all(visit),
        ensures
            s@ == Trail::start(regions@, value, visit, first),
    {
        staged(scan_new(regions, value), visit, first)
    }

    /// The next read; none when the search is over.
    pub fn next(&self) -> (r: Option<Read>)
        ensures
            r == self@.request(),
    {
        proof {
            use_type_invariant(self);
        }
        match &self.stage {
            Stage::Scanning { scan, .. } => scan.next(),
            Stage::Sweeping { sweep } => sweep.next(),
        }
    }

    /// Takes the answer to the next read.
    pub fn supply(self, reply: Reply) -> (s: Search<V>)
        requires
            self@.request() matches Some(q) ==> reply@.fits(q),
        ensures
            s@ == self@.step(reply@),
    {
        proof {
            use_type_invariant(&self);
        }
        match self.stage {
            Stage::Scanning { scan, visit, first } => staged(scan.supply(reply), visit, first),
            Stage::Sweeping { sweep } => Search {
                stage: Stage::Sweeping { sweep: sweep.supply(reply) },
            },
        }
    }

    /// What was found so far.
    pub fn hits(self) -> (r: Vec<V::Hit>)
        ensures
            r@.map_values(|h: V::Hit| h@) == self@.hits(),
    {
        match self.stage {
            Stage::Scanning { .. } => {
                let none: Vec<V::Hit> = Vec::new();
                assert(none@.map_values(|h: V::Hit| h@) =~= Seq::empty());
                none
            },
            Stage::Sweeping { sweep } => sweep.hits(),
        }
    }
}

/// What a scan comes to in a memory: what it has found, and what the rest of its reads
/// brings, up to its cap.
pub open spec fn combed(c: Comb, mem: spec_fn(Read) -> Answer) -> Seq<(u64, u32)> {
    scan::clip(
        c.hits + scan::matches_over(c.todo, c.todo.map_values(|q: Read| mem(q)), c.lo, c.hi),
        c.cap,
    )
}

impl<V: Visit> Trail<V> {
    /// What the whole search comes to in a memory.
    pub open spec fn total(self, mem: spec_fn(Read) -> Answer) -> Seq<<V::Hit as View>::V> {
        match self {
            Trail::Scanning { scan, visit, first } => sweep::hits_in(
                visit,
                combed(scan, mem).map_values(|h: (u64, u32)| h.0),
                first,
                0,
                mem,
            ),
            Trail::Sweeping { pass } => pass.total(mem),
        }
    }

    /// What holds at every point of a search in a memory.
    pub open spec fn valid(self, mem: spec_fn(Read) -> Answer) -> bool {
        match self {
            Trail::Scanning { scan, visit, first } => {
                &&& scan.todo.len() > 0
                &&& scan.hits.len() < scan.cap
            },
            Trail::Sweeping { pass } => pass.settled() && memory::faithful(pass.log, mem),
        }
    }

    /// The search after at most `n` reads of a memory.
    pub open spec fn drive(self, mem: spec_fn(Read) -> Answer, n: nat) -> Trail<V>
        decreases n,
    {
        match self.request() {
            Some(q) if n > 0 => self.step(mem(q)).drive(mem, (n - 1) as nat),
            _ => self,
        }
    }
}

proof fn staging_keeps_total<V: Visit>(
    c: Comb,
    visit: V,
    first: bool,
    mem: spec_fn(Read) -> Answer,
)
    requires
        c.hits.len() <= c.cap,
        c.todo.len() > 0 ==> c.hits.len() < c.cap,
    ensures
        Trail::with(c, visit, first).valid(mem),
        Trail::with(c, visit, first).total(mem) == sweep::hits_in(
            visit,
            combed(c, mem).map_values(|h: (u64, u32)| h.0),
            first,
            0,
            mem,
        ),
{
    if c.todo.len() == 0 {
        assert(combed(c, mem) =~= c.hits);
        sweep::sweep_starts_whole(visit, places(c), first, mem);
    }
}

proof fn combing_keeps_total(c: Comb, mem: spec_fn(Read) -> Answer)
    requires
        c.todo.len() > 0,
        c.hits.len() < c.cap,
    ensures
        combed(c.step(mem(c.todo[0])), mem) == combed(c, mem),
{
    let answers = c.todo.map_values(|q: Read| mem(q));
    let n = c.step(mem(c.todo[0]));
    let this = scan::matches_in(c.todo[0], mem(c.todo[0]), c.lo, c.hi);
    let rest = scan::matches_over(c.todo.skip(1), answers.skip(1), c.lo, c.hi);
    assert(answers[0] == mem(c.todo[0]));
    assert(scan::matches_over(c.todo, answers, c.lo, c.hi) == this + rest);
    assert(c.hits + (this + rest) =~= (c.hits + this) + rest);
    if n.hits.len() >= c.cap {
        assert(n.todo.map_values(|q: Read| mem(q)) =~= Seq::<Answer>::empty());
        assert(combed(n, mem) =~= n.hits);
        assert(n.hits =~= scan::clip((c.hits + this) + rest, c.cap));
    } else {
        assert(n.todo.map_values(|q: Read| mem(q)) =~= answers.skip(1));
        assert(n.hits == c.hits + this);
    }
}

/// However many reads of a memory that stays still were performed, a search comes to what
/// the visits bring at exactly the aligned addresses that hold the value; when it is over,
/// that is what it has.
pub proof fn search_is_true<V: Visit>(t: Trail<V>, mem: spec_fn(Read) -> Answer, n: nat)
    requires
        t.valid(mem),
    ensures
        t.drive(mem, n).total(mem) == t.total(mem),
        t.drive(mem, n).request() is None ==> t.drive(mem, n).hits() == t.total(mem),
    decreases n,
{
    match t {
        Trail::Scanning { scan, visit, first } => {
            if n > 0 {
                let a = mem(scan.todo[0]);
                combing_keeps_total(scan, mem);
                staging_keeps_total(scan.step(a), visit, first, mem);
                search_is_true(t.step(a), mem, (n - 1) as nat);
            }
        },
        Trail::Sweeping { pass } => {
            sweep::sweep_is_true(pass, mem, n);
            drive_stays_in_sweep(pass, mem, n);
        },
    }
}

proof fn drive_stays_in_sweep<V: Visit>(p: Pass<V>, mem: spec_fn(Read) -> Answer, n: nat)
    ensures
        (Trail::Sweeping { pass: p }).drive(mem, n) == (Trail::Sweeping { pass: p.drive(mem, n) }),
    decreases n,
{
    if n > 0 {
        if let Some(q) = p.request() {
            drive_stays_in_sweep(p.step(mem(q)), mem, (n - 1) as nat);
        }
    }
}

/// A search starts with everything to come: the visits to the aligned addresses that hold
/// the value.
pub proof fn search_starts_whole<V: Visit>(
    regions: Seq<(u64, u64)>,
    value: i32,
    visit: V,
    first: bool,
    mem: spec_fn(Read) -> Answer,
)
    ensures
        Trail::start(regions, value, visit, first).valid(mem),
        ({
            let todo = walk::reads_over(regions, scan::scan_cut());
            let w = bytes::bits32(value as int) as u32;
            let all = scan::matches_over(todo, todo.map_values(|q: Read| mem(q)), w, w);
            Trail::start(regions, value, visit, first).total(mem) == sweep::hits_in(
                visit,
                scan::clip(all, scan::MAX_CANDIDATES as int).map_values(|h: (u64, u32)| h.0),
                first,
                0,
                mem,
            )
        }),
{
    let w = bytes::bits32(value as int) as u32;
    let todo = walk::reads_over(regions, scan::scan_cut());
    let c = Comb { lo: w, hi: w, cap: scan::MAX_CANDIDATES as int, todo, hits: seq![] };
    staging_keeps_total(c, visit, first, mem);
    let all = scan::matches_over(todo, todo.map_values(|q: Read| mem(q)), w, w);
    assert(Seq::<(u64, u32)>::empty() + all =~= all);
}

/// Starts a search for a block that two words mark: `magic`, and `check` right after it.
pub fn find_marked(regions: Vec<(u64, u64)>, magic: u32, check: u32) -> (s: Search<Marked>)
    ensures
        s@ == Trail::start(
            regions@,
            bytes::signed32(magic as int) as i32,
            (Marked { check }),
            true,
        ),
{
    Search::start(regions, to_i32(magic), Marked { check }, true)
}

/// Where the block was found, once the search is over.
pub fn marked(s: Search<Marked>) -> (r: Option<u64>)
    ensures
        match r {
            Some(a) => s@.hits().len() > 0 && a == s@.hits()[0],
            None => s@.hits().len() == 0,
        },
{
    let hits: Vec<u64> = s.hits();
    proof {
        if hits@.len() > 0 {
            assert(hits@.map_values(|h: u64| h@)[0] == hits@[0]);
        }
    }
    if hits.len() > 0 {
        Some(hits[0])
    } else {
        None
    }
}

} // verus!
