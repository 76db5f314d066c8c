//! What is kept and reported once a request was carried out, and what a table of names holds.

use crate::common;
use crate::ids;
use crate::ids::{IdTable, TableFault};
use crate::lexer;
use crate::mcp;
use crate::memory::{Answer, Read};
use crate::plan::Request;
use crate::scan::Comb;
use crate::session;
use crate::session::{Found, Kept, Report};
use crate::sweep;
use crate::sweep::Visit;
use crate::text;
use crate::types::{InvalidMapType, MapType};
use crate::written;
use vstd::prelude::*;
use vstd::std_specs::convert::TryFromSpec;

verus! {

/// A log that was found serves the tools of the log, and a channel those of the dump; neither
/// disturbs the other, nor the candidates.
pub proof fn address_is_kept_for_its_tools(k: Kept, a: Option<u64>)
    ensures
        k.after(Found::Log(a)).blit_addr == a,
        k.after(Found::Log(a)).scoresheet_addr == k.scoresheet_addr,
        k.after(Found::Log(a)).candidates == k.candidates,
        k.after(Found::Channel(a)).scoresheet_addr == a,
        k.after(Found::Channel(a)).blit_addr == k.blit_addr,
        k.after(Found::Channel(a)).candidates == k.candidates,
{
}

/// No finding changes where the game was located, and one that is no log and no channel
/// leaves those as they were.
pub proof fn scans_keep_addresses(k: Kept, found: Found)
    ensures
        k.after(found).located == k.located,
        !(found is Log) ==> k.after(found).blit_addr == k.blit_addr,
        !(found is Channel) ==> k.after(found).scoresheet_addr == k.scoresheet_addr,
{
}

/// The candidates after a fresh scan are the addresses that it has hit, in their order.
pub proof fn hits_become_the_candidates(k: Kept, c: Comb, i: int)
    requires
        0 <= i < c.hits.len(),
    ensures
        k.after(Found::Fresh(Ok(c))).candidates.len() == c.hits.len(),
        k.after(Found::Fresh(Ok(c))).candidates[i] == c.hits[i].0,
{
}

/// The candidates after a sweep are the addresses that it has left, in their order.
pub proof fn survivors_become_the_candidates(k: Kept, found: Found)
    ensures
        match found {
            Found::Filtered(p) => k.after(found).candidates == p.out,
            Found::Changed(p) => {
                &&& k.after(found).candidates.len() == p.out.len()
                &&& forall|i: int|
                    0 <= i < p.out.len() ==> #[trigger] k.after(found).candidates[i] == p.out[i].0
            },
            Found::Near(p) => {
                &&& k.after(found).candidates.len() == p.out.len()
                &&& forall|i: int|
                    0 <= i < p.out.len() ==> #[trigger] k.after(found).candidates[i] == p.out[i].0
            },
            _ => true,
        },
{
}

/// Whether texts are the first `n` of the addresses, or all of them if there are not so many.
pub open spec fn begin(texts: Seq<Seq<char>>, addresses: Seq<u64>, n: int) -> bool {
    &&& texts.len() <= n
    &&& texts.len() <= addresses.len()
    &&& texts.len() == n || texts.len() == addresses.len()
    &&& forall|i: int|
        0 <= i < texts.len() ==> #[trigger] texts[i] == text::address(addresses[i] as nat)
}

/// The report of a fresh scan tells the value, how many candidates there are from now on,
/// and the first twelve of them; a scan that failed is reported with its reason.
pub proof fn fresh_scan_is_reported(report: Report, k: Kept, found: Found, value: i32)
    requires
        found.comes_of(Request::ScanNew { value }, k.candidates),
        session::tells(report, Request::ScanNew { value }, found, k.candidates),
    ensures
        match report {
            Report::Fresh(s) => {
                &&& s.value == value
                &&& s.candidates == k.after(found).candidates.len()
                &&& begin(
                    Seq::new(s.sample@.len(), |i: int| s.sample@[i]@),
                    k.after(found).candidates,
                    12,
                )
            },
            Report::Failed { error } => found == Found::Fresh(Err(error)) && k.after(found) == k,
            _ => false,
        },
{
    if let Found::Fresh(Ok(c)) = found {
        if let Report::Fresh(s) = report {
            assert(Seq::new(s.sample@.len(), |i: int| s.sample@[i]@) =~= mcp::texts(s.sample@));
        }
    }
}

/// The report of a sweep for a value tells the value, how many candidates there were and
/// are, and the first sixty-four that are left.
pub proof fn filter_is_reported(report: Report, k: Kept, found: Found, value: i32)
    requires
        found.comes_of(Request::ScanFilter { value }, k.candidates),
        session::tells(report, Request::ScanFilter { value }, found, k.candidates),
    ensures
        report matches Report::Filtered(s) && {
            &&& s.value == value
            &&& s.before == k.candidates.len()
            &&& s.candidates == k.after(found).candidates.len()
            &&& begin(
                Seq::new(s.addresses@.len(), |i: int| s.addresses@[i]@),
                k.after(found).candidates,
                64,
            )
        },
{
    if let Report::Filtered(s) = report {
        assert(Seq::new(s.addresses@.len(), |i: int| s.addresses@[i]@) =~= mcp::texts(
            s.addresses@,
        ));
    }
}

/// The report of a sweep for changes tells the value of before, how many candidates there
/// were and are, and the first sixty-four that are left, each with what it holds now.
pub proof fn change_is_reported(report: Report, k: Kept, found: Found, was: i32)
    requires
        found.comes_of(Request::ScanChanged { was }, k.candidates),
        session::tells(report, Request::ScanChanged { was }, found, k.candidates),
    ensures
        report matches Report::Changed(s) && found matches Found::Changed(p) && {
            &&& s.was == was
            &&& s.before == k.candidates.len()
            &&& s.candidates == k.after(found).candidates.len()
            &&& begin(
                Seq::new(s.changed@.len(), |i: int| s.changed@[i].addr@),
                k.after(found).candidates,
                64,
            )
            &&& forall|i: int|
                0 <= i < s.changed@.len() ==> (#[trigger] s.changed@[i]).now == p.out[i].1
        },
{
    if let Report::Changed(s) = report {
        if let Found::Changed(p) = found {
            let v = mcp::changed_view(s.changed@);
            let t = mcp::changed_texts(p.out, 64);
            assert(v.len() == s.changed@.len());
            assert forall|i: int| 0 <= i < s.changed@.len() implies (#[trigger] s.changed@[i]).now
                == p.out[i].1 && s.changed@[i].addr@ == text::address(p.out[i].0 as nat) by {
                assert(v[i] == t[i]);
            }
            let told = Seq::new(s.changed@.len(), |i: int| s.changed@[i].addr@);
            assert forall|i: int| 0 <= i < told.len() implies #[trigger] told[i] == text::address(k.after(found).candidates[i] as nat) by {
                assert(s.changed@[i].addr@ == text::address(p.out[i].0 as nat));
            }
        }
    }
}

/// The report of a sweep by context tells how many candidates there were and are, and the
/// first twenty-four that are left.
pub proof fn context_is_reported(
    report: Report,
    k: Kept,
    found: Found,
    values: Seq<i32>,
    window: usize,
)
    requires
        found.comes_of(Request::ScanContext { values, window }, k.candidates),
        session::tells(report, Request::ScanContext { values, window }, found, k.candidates),
    ensures
        report matches Report::Near(s) && {
            &&& s.before == k.candidates.len()
            &&& s.candidates == k.after(found).candidates.len()
            &&& begin(
                Seq::new(s.hits@.len(), |i: int| s.hits@[i].addr@),
                k.after(found).candidates,
                24,
            )
        },
{
    if let Report::Near(s) = report {
        if let Found::Near(p) = found {
            let v = mcp::hits_view(s.hits@);
            let t = mcp::hit_texts(p.out, 24);
            assert(v.len() == s.hits@.len());
            let told = Seq::new(s.hits@.len(), |i: int| s.hits@[i].addr@);
            assert forall|i: int| 0 <= i < told.len() implies #[trigger] told[i] == text::address(k.after(found).candidates[i] as nat) by {
                assert(v[i] == t[i]);
            }
        }
    }
}

/// Whether memory may be written is whether one region holds it all, from its first byte to
/// its last.
pub proof fn covered_is_inside_one_region(regions: Seq<(usize, usize)>, address: int, end: int)
    requires
        address < end,
    ensures
        common::covered(regions, address, end) <==> exists|i: int|
            0 <= i < regions.len() && #[trigger] holds(regions[i], address, end),
{
    if common::covered(regions, address, end) {
        let i = choose|i: int|
            0 <= i < regions.len() && (#[trigger] regions[i]).0 <= address && end <= regions[i].1;
        assert(holds(regions[i], address, end));
    }
    if exists|i: int| 0 <= i < regions.len() && #[trigger] holds(regions[i], address, end) {
        let i = choose|i: int| 0 <= i < regions.len() && #[trigger] holds(regions[i], address, end);
        assert(lies_in(address, regions[i]) && lies_in(end - 1, regions[i]));
    }
}

/// Whether a byte lies in a region, of which the end is the first byte beyond.
pub open spec fn lies_in(p: int, region: (usize, usize)) -> bool {
    region.0 <= p < region.1
}

/// Whether a region holds every byte from `address` up to `end`.
pub open spec fn holds(region: (usize, usize), address: int, end: int) -> bool {
    forall|p: int| address <= p < end ==> #[trigger] lies_in(p, region)
}

/// A number stands for a kind of map exactly if it is the code of one, and one that does
/// not is handed back.
pub proof fn codes_are_converted(v: i32)
    ensures
        match <MapType as TryFromSpec<i32>>::try_from_spec(v) {
            Ok(m) => m.code() == v,
            Err(e) => e == InvalidMapType(v) && forall|m: MapType| #[trigger] m.code() != v,
        },
{
}

proof fn only_blanks_are_trimmed_away(s: Seq<char>)
    ensures
        lexer::trim(s).len() == 0 <==> written::is_blank(s),
{
    if written::is_blank(s) {
        written::trimming_leaves_nothing_of_blanks(s);
    } else {
        let k = choose|k: int| 0 <= k < s.len() && !lexer::is_space(#[trigger] s[k]);
        run_ends_before(s, 0, k);
        spaces_start_after(s, s.len() as int, k);
    }
}

proof fn run_ends_before(s: Seq<char>, i: int, k: int)
    requires
        0 <= i <= k < s.len(),
        !lexer::is_space(s[k]),
    ensures
        i <= lexer::run_end(s, i, true) <= k,
    decreases k - i,
{
    if i < k && lexer::is_space(s[i]) {
        run_ends_before(s, i + 1, k);
    }
}

proof fn spaces_start_after(s: Seq<char>, i: int, k: int)
    requires
        0 <= k < i <= s.len(),
        !lexer::is_space(s[k]),
    ensures
        k < lexer::spaces_start(s, i) <= i,
    decreases i,
{
    if k < i - 1 && lexer::is_space(s[i - 1]) {
        spaces_start_after(s, i - 1, k);
    }
}

/// A table without lines has no entries; a blank line adds none, and another its own at the
/// end. The first bad line is the fault of the whole table, whatever comes after it.
pub proof fn table_grows_by_lines(lines: Seq<Seq<char>>, line: Seq<char>)
    ensures
        ids::entries_of(Seq::<Seq<char>>::empty()) == Ok::<Seq<(int, Seq<char>)>, TableFault>(
            seq![],
        ),
        match ids::entries_of(lines) {
            Err(e) => ids::entries_of(lines.push(line)) == Err::<Seq<(int, Seq<char>)>, TableFault>(
                e,
            ),
            Ok(before) => if written::is_blank(line) {
                ids::entries_of(lines.push(line)) == Ok::<Seq<(int, Seq<char>)>, TableFault>(before)
            } else {
                match ids::entry_of(lexer::trim(line)) {
                    Ok(entry) => ids::entries_of(lines.push(line)) == Ok::<
                        Seq<(int, Seq<char>)>,
                        TableFault,
                    >(before.push(entry)),
                    Err(e) => ids::entries_of(lines.push(line)) == Err::<
                        Seq<(int, Seq<char>)>,
                        TableFault,
                    >(e),
                }
            },
        },
{
    let all = lines.push(line);
    assert(all.drop_last() =~= lines);
    assert(all.last() == line);
    only_blanks_are_trimmed_away(line);
}

/// A table has a name for an identifier exactly if an entry has it, and then it is that of
/// the first.
pub proof fn name_is_found_by_identifier(t: IdTable, id: int)
    ensures
        match t.lookup(id) {
            Some(name) => exists|k: int|
                {
                    &&& 0 <= k < t.entries@.len()
                    &&& (#[trigger] t.entries@[k]).id == id
                    &&& t.entries@[k].name@ == name
                    &&& forall|j: int| 0 <= j < k ==> (#[trigger] t.entries@[j]).id != id
                },
            None => forall|k: int| 0 <= k < t.entries@.len() ==> (#[trigger] t.entries@[k]).id != id,
        },
{
    ids::name_is_of_first_entry(t@, 0, id);
    match t.lookup(id) {
        Some(name) => {
            let k = choose|k: int|
                {
                    &&& 0 <= k < t@.len()
                    &&& #[trigger] t@[k] == (id, name)
                    &&& forall|j: int| 0 <= j < k ==> (#[trigger] t@[j]).0 != id
                };
            assert(t.entries@[k].id == t@[k].0);
            assert forall|j: int| 0 <= j < k implies (#[trigger] t.entries@[j]).id != id by {
                assert(t@[j].0 != id);
            }
        },
        None => {
            assert forall|k: int| 0 <= k < t.entries@.len() implies (#[trigger] t.entries@[k]).id
                != id by {
                assert(t@[k].0 != id);
            }
        },
    }
}

/// The header of a table is its first line, and is left out only where there is one.
pub proof fn header_is_the_first_line(text: Seq<char>, i: int)
    ensures
        ids::body(text, false) == lexer::lines(text),
        lexer::lines(text).len() > 0 ==> ids::body(text, true).len() + 1 == lexer::lines(text).len(),
        lexer::lines(text).len() == 0 ==> ids::body(text, true).len() == 0,
        0 <= i < lexer::lines(text).len() - 1 ==> ids::body(text, true)[i] == lexer::lines(
            text,
        )[i + 1],
{
}

/// A sweep that stops at its first hit brings that of the first candidate that has one, and
/// nothing exactly if no candidate has one.
pub proof fn first_hit_is_of_the_first_candidate<V: Visit>(
    visit: V,
    cands: Seq<u64>,
    at: int,
    mem: spec_fn(Read) -> Answer,
)
    requires
        0 <= at <= cands.len(),
    ensures
        sweep::hits_in(visit, cands, true, at, mem).len() <= 1,
        sweep::hits_in(visit, cands, true, at, mem).len() == 0 <==> forall|i: int|
            at <= i < cands.len() ==> #[trigger] visit.seen_in(mem, cands[i]) is None,
        sweep::hits_in(visit, cands, true, at, mem).len() == 1 ==> exists|i: int|
            {
                &&& at <= i < cands.len()
                &&& #[trigger] visit.seen_in(mem, cands[i]) == Some(
                    sweep::hits_in(visit, cands, true, at, mem)[0],
                )
                &&& forall|j: int|
                    at <= j < i ==> #[trigger] visit.seen_in(mem, cands[j]) is None
            },
    decreases cands.len() - at,
{
    if at < cands.len() {
        first_hit_is_of_the_first_candidate(visit, cands, at + 1, mem);
        if visit.seen_in(mem, cands[at]) is None {
            let rest = sweep::hits_in(visit, cands, true, at + 1, mem);
            if rest.len() == 1 {
                let i = choose|i: int|
                    {
                        &&& at + 1 <= i < cands.len()
                        &&& #[trigger] visit.seen_in(mem, cands[i]) == Some(rest[0])
                        &&& forall|j: int|
                            at + 1 <= j < i ==> #[trigger] visit.seen_in(mem, cands[j]) is None
                    };
                assert(visit.seen_in(mem, cands[i]) == Some(rest[0]));
            }
        } else {
            assert(visit.seen_in(mem, cands[at]) is Some);
        }
    }
}

proof fn later_candidates_are_swept_alike<V: Visit>(
    visit: V,
    a: Seq<u64>,
    b: Seq<u64>,
    k: int,
    mem: spec_fn(Read) -> Answer,
)
    requires
        0 <= k <= b.len(),
    ensures
        sweep::hits_in(visit, a + b, false, a.len() + k, mem) == sweep::hits_in(
            visit,
            b,
            false,
            k,
            mem,
        ),
    decreases b.len() - k,
{
    if k < b.len() {
        assert((a + b)[a.len() + k] == b[k]);
        later_candidates_are_swept_alike(visit, a, b, k + 1, mem);
    }
}

proof fn sweep_goes_on<V: Visit>(
    visit: V,
    a: Seq<u64>,
    b: Seq<u64>,
    at: int,
    mem: spec_fn(Read) -> Answer,
)
    requires
        0 <= at <= a.len(),
    ensures
        sweep::hits_in(visit, a + b, false, at, mem) == sweep::hits_in(visit, a, false, at, mem)
            + sweep::hits_in(visit, b, false, 0, mem),
    decreases a.len() - at,
{
    if at < a.len() {
        assert((a + b)[at] == a[at]);
        sweep_goes_on(visit, a, b, at + 1, mem);
        if let Some(h) = visit.seen_in(mem, a[at]) {
            let more = sweep::hits_in(visit, a, false, at + 1, mem);
            let last = sweep::hits_in(visit, b, false, 0, mem);
            assert(seq![h] + (more + last) =~= (seq![h] + more) + last);
        }
    } else {
        later_candidates_are_swept_alike(visit, a, b, 0, mem);
        let last = sweep::hits_in(visit, b, false, 0, mem);
        assert(sweep::hits_in(visit, a, false, at, mem) + last =~= last);
    }
}

/// The hits of a sweep come in the order of the candidates: one candidate brings what is seen
/// at it, and more bring what each part of them brings, one after the other.
pub proof fn hits_come_in_order<V: Visit>(
    visit: V,
    a: Seq<u64>,
    b: Seq<u64>,
    c: u64,
    mem: spec_fn(Read) -> Answer,
)
    ensures
        match visit.seen_in(mem, c) {
            Some(h) => sweep::hits_in(visit, seq![c], false, 0, mem) == seq![h],
            None => sweep::hits_in(visit, seq![c], false, 0, mem).len() == 0,
        },
        sweep::hits_in(visit, a + b, false, 0, mem) == sweep::hits_in(visit, a, false, 0, mem)
            + sweep::hits_in(visit, b, false, 0, mem),
{
    reveal_with_fuel(sweep::hits_in, 2);
    sweep_goes_on(visit, a, b, 0, mem);
    if let Some(h) = visit.seen_in(mem, c) {
        assert(sweep::hits_in(visit, seq![c], false, 0, mem) =~= seq![h]);
    }
}

} // verus!
