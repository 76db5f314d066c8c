//! What a scan lists of a memory.

use crate::bytes;
use crate::common;
use crate::common::Region;
use crate::memory::{Answer, Read};
use crate::scan;
use crate::scan::{Comb, ADDR_LIMIT, CHUNK};
use crate::walk;
use vstd::prelude::*;

verus! {

/// The word at an address of a memory.
pub open spec fn word_in(content: spec_fn(int) -> u8, a: int) -> int {
    bytes::le32(Seq::new(4, |i: int| content(a + i)), 0)
}

/// The read of the region from `at` to `end` that covers `a`.
pub open spec fn covering_read(at: int, end: int, a: int) -> Read {
    let start = at + (a - at) / (CHUNK as int) * CHUNK;
    Read {
        addr: start as u64,
        len: (if end - start < CHUNK {
            end - start
        } else {
            CHUNK as int
        }) as usize,
    }
}

/// Whether an aligned word of the region from `at` to `end` stands at `a`, in a part of it
/// that can be read.
pub open spec fn is_word_of(mem: spec_fn(Read) -> Answer, at: int, end: int, a: int) -> bool {
    &&& at <= a
    &&& a + 4 <= end
    &&& (a - at) % 4 == 0
    &&& mem(covering_read(at, end, a)) is Bytes
}

/// Whether an aligned word of one of the regions stands at `a`, in a part of it that can
/// be read.
pub open spec fn is_word_in(
    mem: spec_fn(Read) -> Answer,
    regions: Seq<(u64, u64)>,
    a: int,
) -> bool {
    exists|r: int|
        0 <= r < regions.len() && is_word_of(
            mem,
            (#[trigger] regions[r]).0 as int,
            regions[r].1 as int,
            a,
        )
}

/// Whether a hit is what a memory holds there, within the range.
pub open spec fn is_held(content: spec_fn(int) -> u8, lo: u32, hi: u32, h: (u64, u32)) -> bool {
    h.1 == word_in(content, h.0 as int) && lo <= h.1 <= hi
}

/// Every hit stands above the one before it.
pub open spec fn ascends(v: Seq<(u64, u32)>) -> bool {
    forall|i: int, j: int| 0 <= i < j < v.len() ==> (#[trigger] v[i]).0 < (#[trigger] v[j]).0
}

/// What each of the reads brings.
pub open spec fn brought(mem: spec_fn(Read) -> Answer, todo: Seq<Read>) -> Seq<Answer> {
    todo.map_values(|q: Read| mem(q))
}

proof fn chunk_lists_words(b: Seq<u8>, o: int, addr: int, lo: u32, hi: u32, h: (u64, u32))
    requires
        0 <= o,
        0 <= addr,
        addr + b.len() <= u64::MAX,
    ensures
        scan::matches_from(b, o, addr, lo, hi).contains(h) <==> ({
            let i = h.0 - addr;
            &&& o <= i
            &&& (i - o) % 4 == 0
            &&& i + 4 <= b.len()
            &&& h.1 == bytes::le32(b, i)
            &&& lo <= h.1 <= hi
        }),
    decreases b.len() - o,
{
    let all = scan::matches_from(b, o, addr, lo, hi);
    if o + 4 <= b.len() {
        chunk_lists_words(b, o + 4, addr, lo, hi, h);
        let rest = scan::matches_from(b, o + 4, addr, lo, hi);
        let w = bytes::le32(b, o);
        let i = h.0 - addr;
        assert(o < i && (i - o) % 4 == 0 ==> o + 4 <= i && (i - (o + 4)) % 4 == 0);
        assert(o + 4 <= i && (i - (o + 4)) % 4 == 0 ==> (i - o) % 4 == 0);
        if lo <= w <= hi {
            let x = ((addr + o) as u64, w as u32);
            assert(all =~= seq![x] + rest);
            assert(all[0] == x);
            if rest.contains(h) {
                let k = choose|k: int| 0 <= k < rest.len() && rest[k] == h;
                assert(all[k + 1] == h);
            }
            if all.contains(h) && h != x {
                let k = choose|k: int| 0 <= k < all.len() && all[k] == h;
                assert(rest[k - 1] == h);
            }
        } else {
            assert(all =~= rest);
        }
    }
}

proof fn chunk_ascends(b: Seq<u8>, o: int, addr: int, lo: u32, hi: u32)
    requires
        0 <= o,
        0 <= addr,
        addr + b.len() <= u64::MAX,
    ensures
        ascends(scan::matches_from(b, o, addr, lo, hi)),
    decreases b.len() - o,
{
    if o + 4 <= b.len() {
        chunk_ascends(b, o + 4, addr, lo, hi);
        let all = scan::matches_from(b, o, addr, lo, hi);
        let rest = scan::matches_from(b, o + 4, addr, lo, hi);
        let w = bytes::le32(b, o);
        if lo <= w <= hi {
            let x = ((addr + o) as u64, w as u32);
            assert(all =~= seq![x] + rest);
            assert forall|i: int| 0 <= i < rest.len() implies (#[trigger] rest[i]).0 > x.0 by {
                assert(rest.contains(rest[i]));
                chunk_lists_words(b, o + 4, addr, lo, hi, rest[i]);
            }
            joined_ascends(seq![x], rest);
        } else {
            assert(all =~= rest);
        }
    }
}

proof fn joined_ascends(x: Seq<(u64, u32)>, y: Seq<(u64, u32)>)
    requires
        ascends(x),
        ascends(y),
        forall|i: int, j: int|
            0 <= i < x.len() && 0 <= j < y.len() ==> (#[trigger] x[i]).0 < (#[trigger] y[j]).0,
    ensures
        ascends(x + y),
{
    let z = x + y;
    assert forall|i: int, j: int| 0 <= i < j < z.len() implies (#[trigger] z[i]).0 < (
    #[trigger] z[j]).0 by {
        if j < x.len() {
            assert(z[i] == x[i] && z[j] == x[j]);
        } else if i < x.len() {
            assert(z[i] == x[i] && z[j] == y[j - x.len()]);
        } else {
            assert(z[i] == y[i - x.len()] && z[j] == y[j - x.len()]);
        }
    }
}

proof fn join_contains(x: Seq<(u64, u32)>, y: Seq<(u64, u32)>, h: (u64, u32))
    ensures
        (x + y).contains(h) <==> x.contains(h) || y.contains(h),
{
    let z = x + y;
    if x.contains(h) {
        let k = choose|k: int| 0 <= k < x.len() && x[k] == h;
        assert(z[k] == h);
    }
    if y.contains(h) {
        let k = choose|k: int| 0 <= k < y.len() && y[k] == h;
        assert(z[x.len() + k] == h);
    }
    if z.contains(h) {
        let k = choose|k: int| 0 <= k < z.len() && z[k] == h;
        if k < x.len() {
            assert(x[k] == h);
        } else {
            assert(y[k - x.len()] == h);
        }
    }
}

proof fn matches_join(
    x: Seq<Read>,
    y: Seq<Read>,
    mem: spec_fn(Read) -> Answer,
    lo: u32,
    hi: u32,
)
    ensures
        scan::matches_over(x + y, brought(mem, x + y), lo, hi) == scan::matches_over(
            x,
            brought(mem, x),
            lo,
            hi,
        ) + scan::matches_over(y, brought(mem, y), lo, hi),
    decreases x.len(),
{
    let of_y = scan::matches_over(y, brought(mem, y), lo, hi);
    if x.len() == 0 {
        assert(x + y =~= y);
        assert(scan::matches_over(x, brought(mem, x), lo, hi) + of_y =~= of_y);
    } else {
        matches_join(x.skip(1), y, mem, lo, hi);
        assert((x + y).skip(1) =~= x.skip(1) + y);
        assert(brought(mem, x + y).skip(1) =~= brought(mem, (x + y).skip(1)));
        assert(brought(mem, x).skip(1) =~= brought(mem, x.skip(1)));
        let first = scan::matches_in(x[0], mem(x[0]), lo, hi);
        let rest = scan::matches_over(x.skip(1), brought(mem, x.skip(1)), lo, hi);
        assert(brought(mem, x + y)[0] == mem(x[0]));
        assert(brought(mem, x)[0] == mem(x[0]));
        assert(first + (rest + of_y) =~= (first + rest) + of_y);
    }
}

/// What the reads of a region list in a memory.
spec fn listed_of(
    mem: spec_fn(Read) -> Answer,
    at: int,
    end: int,
    lo: u32,
    hi: u32,
) -> Seq<(u64, u32)> {
    let todo = walk::reads_of(at, end, scan::scan_cut());
    scan::matches_over(todo, brought(mem, todo), lo, hi)
}

proof fn region_unfolds(mem: spec_fn(Read) -> Answer, at: int, end: int, lo: u32, hi: u32)
    requires
        0 <= at < end <= ADDR_LIMIT,
    ensures
        listed_of(mem, at, end, lo, hi) == scan::matches_in(
            covering_read(at, end, at),
            mem(covering_read(at, end, at)),
            lo,
            hi,
        ) + listed_of(mem, walk::after(at, end, scan::scan_cut()), end, lo, hi),
{
    let cut = scan::scan_cut();
    let q = covering_read(at, end, at);
    let rest = walk::reads_of(walk::after(at, end, cut), end, cut);
    assert(walk::reads_of(at, end, cut) == seq![q] + rest);
    matches_join(seq![q], rest, mem, lo, hi);
    let one = seq![q];
    assert(one.skip(1) =~= Seq::<Read>::empty());
    assert(brought(mem, one)[0] == mem(q));
    let here = scan::matches_in(q, mem(q), lo, hi);
    let none = scan::matches_over(one.skip(1), brought(mem, one).skip(1), lo, hi);
    assert(none =~= Seq::<(u64, u32)>::empty());
    assert(scan::matches_over(one, brought(mem, one), lo, hi) =~= here);
}

proof fn read_lists_words(
    mem: spec_fn(Read) -> Answer,
    content: spec_fn(int) -> u8,
    q: Read,
    lo: u32,
    hi: u32,
    h: (u64, u32),
)
    requires
        common::shows(mem, content),
        q.addr + q.len <= u64::MAX,
    ensures
        scan::matches_in(q, mem(q), lo, hi).contains(h) <==> (mem(q) is Bytes && q.addr <= h.0
            && h.0 + 4 <= q.addr + q.len && (h.0 - q.addr) % 4 == 0 && is_held(
            content,
            lo,
            hi,
            h,
        )),
{
    if let Answer::Bytes(b) = mem(q) {
        assert(b == common::window(content, q));
        chunk_lists_words(b, 0, q.addr as int, lo, hi, h);
        let i = h.0 - q.addr;
        if 0 <= i && i + 4 <= q.len {
            let w = Seq::new(4, |k: int| content(h.0 + k));
            assert(w[0] == b[i] && w[1] == b[i + 1] && w[2] == b[i + 2] && w[3] == b[i + 3]);
        }
    }
}

proof fn cover_shifts(at: int, end: int, a: int)
    requires
        0 <= at,
        end <= ADDR_LIMIT,
        at <= a < end,
    ensures
        a < at + CHUNK ==> covering_read(at, end, a) == covering_read(at, end, at),
        a >= at + CHUNK ==> covering_read(at, end, a) == covering_read(at + CHUNK, end, a),
{
    if a >= at + CHUNK {
        assert((a - at) / 262144 == (a - (at + 262144)) / 262144 + 1);
    }
}

proof fn region_lists_words(
    mem: spec_fn(Read) -> Answer,
    content: spec_fn(int) -> u8,
    at: int,
    end: int,
    lo: u32,
    hi: u32,
    h: (u64, u32),
)
    requires
        common::shows(mem, content),
        0 <= at,
        end <= ADDR_LIMIT,
    ensures
        listed_of(mem, at, end, lo, hi).contains(h) <==> is_word_of(mem, at, end, h.0 as int)
            && is_held(content, lo, hi, h),
    decreases end - at,
{
    let cut = scan::scan_cut();
    if at < end {
        let q = covering_read(at, end, at);
        let next = walk::after(at, end, cut);
        let a = h.0 as int;
        region_unfolds(mem, at, end, lo, hi);
        join_contains(
            scan::matches_in(q, mem(q), lo, hi),
            listed_of(mem, next, end, lo, hi),
            h,
        );
        read_lists_words(mem, content, q, lo, hi, h);
        region_lists_words(mem, content, next, end, lo, hi, h);
        if at <= a < end {
            cover_shifts(at, end, a);
        }
    }
}

proof fn region_ascends(
    mem: spec_fn(Read) -> Answer,
    content: spec_fn(int) -> u8,
    at: int,
    end: int,
    lo: u32,
    hi: u32,
)
    requires
        common::shows(mem, content),
        0 <= at,
        end <= ADDR_LIMIT,
    ensures
        ascends(listed_of(mem, at, end, lo, hi)),
    decreases end - at,
{
    let cut = scan::scan_cut();
    if at < end {
        let q = covering_read(at, end, at);
        let next = walk::after(at, end, cut);
        let here = scan::matches_in(q, mem(q), lo, hi);
        let rest = listed_of(mem, next, end, lo, hi);
        region_unfolds(mem, at, end, lo, hi);
        region_ascends(mem, content, next, end, lo, hi);
        if let Answer::Bytes(b) = mem(q) {
            assert(b == common::window(content, q));
            chunk_ascends(b, 0, q.addr as int, lo, hi);
        }
        assert forall|i: int, j: int| 0 <= i < here.len() && 0 <= j < rest.len() implies (
        #[trigger] here[i]).0 < (#[trigger] rest[j]).0 by {
            assert(here.contains(here[i]));
            assert(rest.contains(rest[j]));
            read_lists_words(mem, content, q, lo, hi, here[i]);
            region_lists_words(mem, content, next, end, lo, hi, rest[j]);
        }
        joined_ascends(here, rest);
    }
}

/// What a scan of the regions lists in a memory, without regard to its cap.
pub open spec fn listed_in(
    mem: spec_fn(Read) -> Answer,
    regions: Seq<(u64, u64)>,
    lo: u32,
    hi: u32,
) -> Seq<(u64, u32)> {
    let todo = walk::reads_over(regions, scan::scan_cut());
    scan::matches_over(todo, brought(mem, todo), lo, hi)
}

/// Whether regions stand in ascending order, below the limit of a scan.
pub open spec fn scannable(regions: Seq<(u64, u64)>) -> bool {
    &&& common::in_ascending_order(regions)
    &&& forall|i: int| 0 <= i < regions.len() ==> (#[trigger] regions[i]).1 <= ADDR_LIMIT
}

proof fn regions_unfold(
    mem: spec_fn(Read) -> Answer,
    regions: Seq<(u64, u64)>,
    lo: u32,
    hi: u32,
)
    requires
        regions.len() > 0,
        scannable(regions),
    ensures
        listed_in(mem, regions, lo, hi) == listed_of(
            mem,
            regions[0].0 as int,
            regions[0].1 as int,
            lo,
            hi,
        ) + listed_in(mem, regions.skip(1), lo, hi),
        scannable(regions.skip(1)),
{
    let cut = scan::scan_cut();
    matches_join(
        walk::reads_of(regions[0].0 as int, regions[0].1 as int, cut),
        walk::reads_over(regions.skip(1), cut),
        mem,
        lo,
        hi,
    );
    let rest = regions.skip(1);
    assert forall|i: int| 0 <= i < rest.len() implies (#[trigger] rest[i]).1 <= ADDR_LIMIT by {
        assert(rest[i] == regions[i + 1]);
    }
    assert forall|i: int, j: int| 0 <= i < j < rest.len() implies (#[trigger] rest[i]).1 <= (
    #[trigger] rest[j]).0 by {
        assert(rest[i] == regions[i + 1] && rest[j] == regions[j + 1]);
    }
}

/// A scan lists exactly the aligned words of the regions that can be read and that lie in
/// its range, each with its address.
pub proof fn scan_lists_exactly(
    mem: spec_fn(Read) -> Answer,
    content: spec_fn(int) -> u8,
    regions: Seq<(u64, u64)>,
    lo: u32,
    hi: u32,
    h: (u64, u32),
)
    requires
        common::shows(mem, content),
        scannable(regions),
    ensures
        listed_in(mem, regions, lo, hi).contains(h) <==> is_word_in(mem, regions, h.0 as int)
            && is_held(content, lo, hi, h),
    decreases regions.len(),
{
    if regions.len() > 0 {
        let rest = regions.skip(1);
        let a = h.0 as int;
        regions_unfold(mem, regions, lo, hi);
        region_lists_words(
            mem,
            content,
            regions[0].0 as int,
            regions[0].1 as int,
            lo,
            hi,
            h,
        );
        scan_lists_exactly(mem, content, rest, lo, hi, h);
        join_contains(
            listed_of(mem, regions[0].0 as int, regions[0].1 as int, lo, hi),
            listed_in(mem, rest, lo, hi),
            h,
        );
        if is_word_in(mem, rest, a) {
            let r = choose|r: int|
                0 <= r < rest.len() && is_word_of(
                    mem,
                    (#[trigger] rest[r]).0 as int,
                    rest[r].1 as int,
                    a,
                );
            assert(regions[r + 1] == rest[r]);
        }
        if is_word_in(mem, regions, a) && !is_word_of(
            mem,
            regions[0].0 as int,
            regions[0].1 as int,
            a,
        ) {
            let r = choose|r: int|
                0 <= r < regions.len() && is_word_of(
                    mem,
                    (#[trigger] regions[r]).0 as int,
                    regions[r].1 as int,
                    a,
                );
            assert(rest[r - 1] == regions[r]);
        }
    }
}

/// A scan lists words in strictly ascending order of their addresses.
pub proof fn scan_lists_in_order(
    mem: spec_fn(Read) -> Answer,
    content: spec_fn(int) -> u8,
    regions: Seq<(u64, u64)>,
    lo: u32,
    hi: u32,
)
    requires
        common::shows(mem, content),
        scannable(regions),
    ensures
        ascends(listed_in(mem, regions, lo, hi)),
    decreases regions.len(),
{
    if regions.len() > 0 {
        let rest = regions.skip(1);
        let at = regions[0].0 as int;
        let end = regions[0].1 as int;
        let x = listed_of(mem, at, end, lo, hi);
        let y = listed_in(mem, rest, lo, hi);
        regions_unfold(mem, regions, lo, hi);
        region_ascends(mem, content, at, end, lo, hi);
        scan_lists_in_order(mem, content, rest, lo, hi);
        assert forall|i: int, j: int| 0 <= i < x.len() && 0 <= j < y.len() implies (
        #[trigger] x[i]).0 < (#[trigger] y[j]).0 by {
            assert(x.contains(x[i]));
            assert(y.contains(y[j]));
            region_lists_words(mem, content, at, end, lo, hi, x[i]);
            scan_lists_exactly(mem, content, rest, lo, hi, y[j]);
            let r = choose|r: int|
                0 <= r < rest.len() && is_word_of(
                    mem,
                    (#[trigger] rest[r]).0 as int,
                    rest[r].1 as int,
                    y[j].0 as int,
                );
            assert(rest[r] == regions[r + 1]);
        }
        joined_ascends(x, y);
    }
}

/// A scan before its first read.
pub open spec fn fresh(regions: Seq<(u64, u64)>, lo: u32, hi: u32, cap: int) -> Comb {
    Comb { lo, hi, cap, todo: walk::reads_over(regions, scan::scan_cut()), hits: seq![] }
}

/// A scan of a memory that stays still ends with the lowest of the aligned words that can
/// be read and lie in its range, as many as its cap allows, in strictly ascending order.
pub proof fn scan_keeps_the_lowest(
    mem: spec_fn(Read) -> Answer,
    content: spec_fn(int) -> u8,
    regions: Seq<(u64, u64)>,
    lo: u32,
    hi: u32,
    cap: int,
    h: (u64, u32),
)
    requires
        common::shows(mem, content),
        scannable(regions),
        0 < cap,
    ensures
        ({
            let start = fresh(regions, lo, hi, cap);
            let hits = start.run(brought(mem, start.todo)).hits;
            let wanted = is_word_in(mem, regions, h.0 as int) && is_held(content, lo, hi, h);
            &&& ascends(hits)
            &&& hits.len() <= cap
            &&& hits.contains(h) ==> wanted
            &&& wanted && !hits.contains(h) ==> hits.len() == cap && forall|i: int|
                0 <= i < hits.len() ==> (#[trigger] hits[i]).0 < h.0
        }),
{
    let start = fresh(regions, lo, hi, cap);
    let all = listed_in(mem, regions, lo, hi);
    let hits = start.run(brought(mem, start.todo)).hits;
    scan::scan_finds_all(start, brought(mem, start.todo));
    assert(Seq::<(u64, u32)>::empty() + all =~= all);
    assert(hits == scan::clip(all, cap));
    scan_lists_in_order(mem, content, regions, lo, hi);
    scan_lists_exactly(mem, content, regions, lo, hi, h);
    assert forall|i: int, j: int| 0 <= i < j < hits.len() implies (#[trigger] hits[i]).0 < (
    #[trigger] hits[j]).0 by {
        assert(hits[i] == all[i] && hits[j] == all[j]);
    }
    if hits.contains(h) {
        let k = choose|k: int| 0 <= k < hits.len() && hits[k] == h;
        assert(all[k] == h);
    } else if all.contains(h) {
        let k = choose|k: int| 0 <= k < all.len() && all[k] == h;
        if k < hits.len() {
            assert(hits[k] == h);
        }
        assert forall|i: int| 0 <= i < hits.len() implies (#[trigger] hits[i]).0 < h.0 by {
            assert(hits[i] == all[i]);
        }
    }
}

/// Whether an aligned word that can be read holds `value` at `a`.
pub open spec fn holds_value(
    mem: spec_fn(Read) -> Answer,
    content: spec_fn(int) -> u8,
    regions: Seq<(u64, u64)>,
    value: i32,
    a: u64,
) -> bool {
    is_word_in(mem, regions, a as int) && bytes::signed32(word_in(content, a as int)) == value
}

/// The addresses that a fresh scan for `value` ends with in a memory that stays still.
pub open spec fn found_for(
    mem: spec_fn(Read) -> Answer,
    regions: Seq<(u64, u64)>,
    value: i32,
) -> Seq<u64> {
    let w = bytes::bits32(value as int) as u32;
    let start = fresh(regions, w, w, scan::MAX_CANDIDATES as int);
    start.run(brought(mem, start.todo)).hits.map_values(|h: (u64, u32)| h.0)
}

/// A fresh scan for a value finds exactly the aligned words of the regions that can be read
/// and hold the value, in strictly ascending order; where they are more than a scan keeps,
/// it keeps the lowest.
pub proof fn value_scan_finds_the_lowest(
    mem: spec_fn(Read) -> Answer,
    content: spec_fn(int) -> u8,
    regions: Seq<(u64, u64)>,
    value: i32,
    a: u64,
)
    requires
        common::shows(mem, content),
        scannable(regions),
    ensures
        ({
            let found = found_for(mem, regions, value);
            &&& forall|i: int, j: int|
                0 <= i < j < found.len() ==> #[trigger] found[i] < #[trigger] found[j]
            &&& found.len() <= scan::MAX_CANDIDATES
            &&& found.contains(a) ==> holds_value(mem, content, regions, value, a)
            &&& holds_value(mem, content, regions, value, a) && !found.contains(a)
                ==> found.len() == scan::MAX_CANDIDATES && forall|i: int|
                0 <= i < found.len() ==> #[trigger] found[i] < a
        }),
{
    let w = bytes::bits32(value as int) as u32;
    let cap = scan::MAX_CANDIDATES as int;
    let start = fresh(regions, w, w, cap);
    let hits = start.run(brought(mem, start.todo)).hits;
    let found = found_for(mem, regions, value);
    let h = (a, w);
    scan_keeps_the_lowest(mem, content, regions, w, w, cap, h);
    assert forall|i: int, j: int| 0 <= i < j < found.len() implies #[trigger] found[i]
        < #[trigger] found[j] by {
        assert(found[i] == hits[i].0 && found[j] == hits[j].0);
    }
    if found.contains(a) {
        let k = choose|k: int| 0 <= k < found.len() && found[k] == a;
        assert(hits.contains(hits[k]));
        scan_keeps_the_lowest(mem, content, regions, w, w, cap, hits[k]);
    }
    if holds_value(mem, content, regions, value, a) && !found.contains(a) {
        assert(is_held(content, w, w, h));
        if hits.contains(h) {
            let k = choose|k: int| 0 <= k < hits.len() && hits[k] == h;
            assert(found[k] == a);
        }
        assert forall|i: int| 0 <= i < found.len() implies #[trigger] found[i] < a by {
            assert(found[i] == hits[i].0);
        }
    }
}

/// Regions that the kernel reports in ascending order, without overlap.
pub open spec fn reported_in_order(regions: Seq<Region>) -> bool {
    forall|i: int, j: int|
        0 <= i < j < regions.len() ==> (#[trigger] regions[i]).address + regions[i].size <= (
        #[trigger] regions[j]).address
}

proof fn writable_stand_from(regions: Seq<Region>, i: int)
    requires
        0 <= i <= regions.len(),
        reported_in_order(regions),
    ensures
        scannable(scan::writable_from(regions, i)),
        i < regions.len() ==> forall|k: int|
            0 <= k < scan::writable_from(regions, i).len() ==> (#[trigger] scan::writable_from(
                regions,
                i,
            )[k]).0 >= regions[i].address,
    decreases regions.len() - i,
{
    if i < regions.len() && regions[i].address <= ADDR_LIMIT {
        writable_stand_from(regions, i + 1);
        let r = regions[i];
        let rest = scan::writable_from(regions, i + 1);
        let all = scan::writable_from(regions, i);
        if all.len() != rest.len() {
            assert forall|k: int| 0 < k < all.len() implies #[trigger] all[k] == rest[k - 1] by {}
            assert forall|k: int| 0 <= k < rest.len() implies (#[trigger] rest[k]).0 >= r.address
                + r.size by {
                assert(i + 1 < regions.len());
                assert(regions[i].address + regions[i].size <= regions[i + 1].address);
            }
            assert forall|k: int, l: int| 0 <= k < l < all.len() implies (#[trigger] all[k]).1 <= (
            #[trigger] all[l]).0 by {
                assert(all[l] == rest[l - 1]);
                if k > 0 {
                    assert(all[k] == rest[k - 1]);
                }
            }
        } else {
            assert(all =~= rest);
            if i + 1 < regions.len() {
                assert(regions[i].address + regions[i].size <= regions[i + 1].address);
            }
        }
    }
}

/// Where the kernel reports its regions in ascending order, the writable ones can be
/// scanned as the laws of a scan ask.
pub proof fn writable_regions_are_scannable(regions: Seq<Region>)
    requires
        reported_in_order(regions),
    ensures
        scannable(scan::writable_from(regions, 0)),
{
    writable_stand_from(regions, 0);
}

/// Whether a region is of use to a scan: it can be read and written, and holds something
/// below the limit.
pub open spec fn is_of_use(r: Region) -> bool {
    r.readable && r.writable && r.size > 0 && r.address < 0xFFFF_FFFF
}

/// The bounds of a region, cut off at the end of the low four gigabytes.
pub open spec fn bounds_of(r: Region) -> (u64, u64) {
    (
        r.address,
        if r.address + r.size > 0xFFFF_FFFF {
            0xFFFF_FFFF
        } else {
            (r.address + r.size) as u64
        },
    )
}

/// Of regions that the kernel reports in ascending order, a scan goes through exactly those
/// that are of use to it, in their order.
pub proof fn writable_regions_are_those_of_use(regions: Seq<Region>)
    requires
        reported_in_order(regions),
        forall|i: int|
            0 <= i < regions.len() ==> (#[trigger] regions[i]).address + regions[i].size
                <= u64::MAX,
    ensures
        scan::writable_from(regions, 0) == regions.filter(|r: Region| is_of_use(r)).map_values(
            |r: Region| bounds_of(r),
        ),
{
    use_from(regions, 0);
    assert(regions.skip(0) =~= regions);
}

proof fn none_beyond(regions: Seq<Region>)
    requires
        forall|i: int| 0 <= i < regions.len() ==> !is_of_use(#[trigger] regions[i]),
    ensures
        regions.filter(|r: Region| is_of_use(r)).len() == 0,
    decreases regions.len(),
{
    reveal(Seq::filter);
    if regions.len() > 0 {
        let fewer = regions.drop_last();
        assert forall|i: int| 0 <= i < fewer.len() implies !is_of_use(#[trigger] fewer[i]) by {
            assert(fewer[i] == regions[i]);
        }
        none_beyond(fewer);
        assert(!is_of_use(regions[regions.len() - 1]));
    }
}

proof fn use_from(regions: Seq<Region>, i: int)
    requires
        0 <= i <= regions.len(),
        reported_in_order(regions),
        forall|i: int|
            0 <= i < regions.len() ==> (#[trigger] regions[i]).address + regions[i].size
                <= u64::MAX,
    ensures
        scan::writable_from(regions, i) == regions.skip(i).filter(
            |r: Region| is_of_use(r),
        ).map_values(|r: Region| bounds_of(r)),
    decreases regions.len() - i,
{
    let p = |r: Region| is_of_use(r);
    let f = |r: Region| bounds_of(r);
    let some = regions.skip(i);
    if i == regions.len() || regions[i].address > ADDR_LIMIT {
        assert forall|k: int| 0 <= k < some.len() implies !is_of_use(#[trigger] some[k]) by {
            assert(some[k] == regions[i + k]);
            if k > 0 {
                assert(regions[i].address + regions[i].size <= regions[i + k].address);
            }
        }
        none_beyond(some);
        assert(scan::writable_from(regions, i) =~= some.filter(p).map_values(f));
    } else {
        use_from(regions, i + 1);
        let one = seq![regions[i]];
        let rest = regions.skip(i + 1);
        assert(some =~= one + rest);
        Seq::filter_distributes_over_add(one, rest, p);
        reveal(Seq::filter);
        assert(one.drop_last() =~= Seq::<Region>::empty());
        assert(one.drop_last().filter(p) =~= Seq::<Region>::empty());
        let kept = one.filter(p);
        if is_of_use(regions[i]) {
            assert(kept =~= one);
        } else {
            assert(kept =~= Seq::<Region>::empty());
        }
        assert((kept + rest.filter(p)).map_values(f) =~= kept.map_values(f) + rest.filter(
            p,
        ).map_values(f));
        assert(scan::writable_from(regions, i) =~= kept.map_values(f) + scan::writable_from(
            regions,
            i + 1,
        ));
    }
}

} // verus!
