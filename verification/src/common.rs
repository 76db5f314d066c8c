//! Finding things in the target: its memory map, the blocks that the shim publishes,
//! and the addresses that depend on the build.

use crate::bytes;
use crate::bytes::word_at;
use crate::error::Error;
use crate::lexer;
use crate::memory;
use crate::memory::{Answer, Read, Reply, Stop, Tape};
use crate::walk;
use crate::walk::{Cut, Walk};
use vstd::prelude::*;

verus! {

/// The highest address of a 32-bit process.
pub const ADDRESS_MAX: usize = 0xFFFF_FFFF;

/// The region that a line of `/proc/<pid>/maps` describes, where it is readable (and
/// writable, if that is asked for) and starts within the 32-bit address space. Its end
/// is cut off at the highest 32-bit address.
pub open spec fn region_of(line: Seq<char>, writable: bool) -> Option<(int, int)> {
    let a = lexer::run_end(line, 0, true);
    let b = lexer::run_end(line, a, false);
    let c = lexer::run_end(line, b, true);
    let d = lexer::run_end(line, c, false);
    let range = line.subrange(a, b);
    let perms = line.subrange(c, d);
    let dash = lexer::find(range, 0, '-');
    if range.len() == 0 || perms.len() == 0 || perms[0] != 'r' {
        None
    } else if writable && !(perms.len() > 1 && perms[1] == 'w') {
        None
    } else if dash >= range.len() {
        None
    } else {
        match (
            lexer::parse_nat(range.take(dash), 16, usize::MAX as int),
            lexer::parse_nat(range.skip(dash + 1), 16, usize::MAX as int),
        ) {
            (Some(start), Some(end)) => if start <= ADDRESS_MAX {
                Some((start, if end < ADDRESS_MAX { end } else { ADDRESS_MAX as int }))
            } else {
                None
            },
            _ => None,
        }
    }
}

/// The regions that the lines describe, in order; other lines are passed over.
pub open spec fn regions_of(lines: Seq<Seq<char>>, writable: bool) -> Seq<(int, int)>
    decreases lines.len(),
{
    if lines.len() == 0 {
        seq![]
    } else {
        match region_of(lines.last(), writable) {
            Some(r) => regions_of(lines.drop_last(), writable).push(r),
            None => regions_of(lines.drop_last(), writable),
        }
    }
}

/// Regions as mathematical integers.
pub open spec fn spans(v: Seq<(usize, usize)>) -> Seq<(int, int)> {
    v.map_values(|r: (usize, usize)| (r.0 as int, r.1 as int))
}

fn parse_region(line: &Vec<char>, writable: bool) -> (r: Option<(usize, usize)>)
    ensures
        match r {
            Some(p) => region_of(line@, writable) == Some((p.0 as int, p.1 as int)),
            None => region_of(line@, writable) is None,
        },
{
    let a: usize = lexer::skip_run(line, 0, true);
    let b: usize = lexer::skip_run(line, a, false);
    let c: usize = lexer::skip_run(line, b, true);
    let d: usize = lexer::skip_run(line, c, false);
    let range: Vec<char> = lexer::cut(line, a, b);
    let perms: Vec<char> = lexer::cut(line, c, d);
    if range.len() == 0 || perms.len() == 0 || perms[0] != 'r' {
        return None;
    }
    if writable && !(perms.len() > 1 && perms[1] == 'w') {
        return None;
    }
    let dash: usize = lexer::seek(&range, 0, '-');
    if dash >= range.len() {
        return None;
    }
    let left: Vec<char> = lexer::cut(&range, 0, dash);
    let right: Vec<char> = lexer::cut(&range, dash + 1, range.len());
    assert(left@ =~= range@.take(dash as int));
    assert(right@ =~= range@.skip(dash + 1));
    let start: usize = match lexer::parse(&left, 16, usize::MAX as u64) {
        Some(n) => n as usize,
        None => return None,
    };
    let end: usize = match lexer::parse(&right, 16, usize::MAX as u64) {
        Some(n) => n as usize,
        None => return None,
    };
    if start <= ADDRESS_MAX {
        Some((start, if end < ADDRESS_MAX { end } else { ADDRESS_MAX }))
    } else {
        None
    }
}

/// The readable regions of the 32-bit address space that the text of
/// `/proc/<pid>/maps` lists; only the writable ones, if that is asked for.
pub fn parse_linux_regions(maps: &str, writable: bool) -> (r: Vec<(usize, usize)>)
    ensures
        spans(r@) == regions_of(lexer::lines(maps@), writable),
{
    let text: Vec<char> = lexer::chars(maps);
    let lines: Vec<Vec<char>> = lexer::split_lines(&text);
    let ghost all = lines@.map_values(|l: Vec<char>| l@);
    let mut out: Vec<(usize, usize)> = Vec::new();
    let mut i: usize = 0;
    proof {
        assert(all.take(0) =~= Seq::<Seq<char>>::empty());
        assert(spans(out@) =~= Seq::<(int, int)>::empty());
    }
    while i < lines.len()
        invariant
            i <= lines@.len(),
            all == lines@.map_values(|l: Vec<char>| l@),
            spans(out@) == regions_of(all.take(i as int), writable),
        decreases lines@.len() - i,
    {
        let ghost before = out@;
        proof {
            assert(all.take(i + 1).drop_last() =~= all.take(i as int));
            assert(all.take(i + 1).last() == lines@[i as int]@);
        }
        match parse_region(&lines[i], writable) {
            Some(p) => {
                out.push(p);
                assert(spans(out@) =~= spans(before).push((p.0 as int, p.1 as int)));
            },
            None => {},
        }
        i = i + 1;
    }
    assert(all.take(i as int) =~= all);
    out
}

proof fn line_end_does_not_matter(line: Seq<char>, writable: bool)
    ensures
        region_of(lexer::chomp(line), writable) == region_of(line, writable),
{
    if line.len() > 0 && line.last() == '\r' {
        let s = line.drop_last();
        let cr = '\r';
        assert(lexer::is_space(cr));
        assert(s.push(cr) =~= line);
        lexer::runs_before_space_stay(s, cr, 0, true);
        let a = lexer::run_end(s, 0, true);
        if a < s.len() {
            lexer::runs_before_space_stay(s, cr, a, false);
            let b = lexer::run_end(s, a, false);
            assert(s.subrange(a, b) =~= line.subrange(a, b));
            lexer::runs_before_space_stay(s, cr, b, true);
            let c = lexer::run_end(s, b, true);
            lexer::runs_before_space_stay(s, cr, c, false);
            let d = lexer::run_end(s, c, false);
            if c < s.len() {
                assert(s.subrange(c, d) =~= line.subrange(c, d));
            } else {
                assert(s.subrange(c, d).len() == 0);
                assert(lexer::run_end(line, c + 1, false) == c + 1);
            }
        } else {
            assert(lexer::run_end(s, a, false) == a);
            assert(lexer::run_end(line, a + 1, false) == a + 1);
        }
    }
}

proof fn regions_of_joined_lines(x: Seq<Seq<char>>, y: Seq<Seq<char>>, writable: bool)
    ensures
        regions_of(x + y, writable) == regions_of(x, writable) + regions_of(y, writable),
    decreases y.len(),
{
    if y.len() == 0 {
        assert(x + y =~= x);
        assert(regions_of(x, writable) + regions_of(y, writable) =~= regions_of(x, writable));
    } else {
        assert((x + y).drop_last() =~= x + y.drop_last());
        assert((x + y).last() == y.last());
        regions_of_joined_lines(x, y.drop_last(), writable);
        if let Some(r) = region_of(y.last(), writable) {
            let p = regions_of(x, writable);
            let q = regions_of(y.drop_last(), writable);
            assert((p + q).push(r) =~= p + q.push(r));
        }
    }
}

proof fn regions_of_line(line: Seq<char>, writable: bool)
    ensures
        regions_of(seq![line], writable) == match region_of(line, writable) {
            Some(r) => seq![r],
            None => seq![],
        },
{
    let one = seq![line];
    assert(one.drop_last() =~= Seq::<Seq<char>>::empty());
    assert(regions_of(one.drop_last(), writable) == Seq::<(int, int)>::empty());
    if let Some(r) = region_of(line, writable) {
        assert(Seq::<(int, int)>::empty().push(r) =~= seq![r]);
    }
}

proof fn joined_from(a: Seq<char>, b: Seq<char>, writable: bool, i: int)
    requires
        0 <= i <= a.len(),
    ensures
        regions_of(lexer::lines_from(a.push('\n') + b, i), writable) == regions_of(
            lexer::lines_from(a, i),
            writable,
        ) + regions_of(lexer::lines(b), writable),
    decreases a.len() - i,
{
    let t = a.push('\n') + b;
    lexer::find_ends_before(a, b, i, '\n');
    let e = lexer::find(a, i, '\n');
    let line = a.subrange(i, e);
    assert(t.subrange(i, e) =~= line);
    let later = lexer::lines_from(t, e + 1);
    assert(lexer::lines_from(t, i) == seq![lexer::chomp(line)] + later);
    regions_of_joined_lines(seq![lexer::chomp(line)], later, writable);
    let all_b = regions_of(lexer::lines(b), writable);
    if e < a.len() {
        joined_from(a, b, writable, e + 1);
        let rest = lexer::lines_from(a, e + 1);
        assert(lexer::lines_from(a, i) == seq![lexer::chomp(line)] + rest);
        regions_of_joined_lines(seq![lexer::chomp(line)], rest, writable);
        let first = regions_of(seq![lexer::chomp(line)], writable);
        assert(first + (regions_of(rest, writable) + all_b) =~= (first + regions_of(rest, writable))
            + all_b);
    } else {
        lexer::later_lines_stay(a.push('\n'), b, 0);
        assert(later == lexer::lines(b));
        line_end_does_not_matter(line, writable);
        regions_of_line(lexer::chomp(line), writable);
        regions_of_line(line, writable);
        if i == a.len() {
            assert(line.len() == 0);
            assert(lexer::run_end(line, 0, true) == 0);
            assert(lexer::run_end(line, 0, false) == 0);
            assert(region_of(line, writable) is None);
            assert(regions_of(lexer::lines_from(a, i), writable) =~= Seq::<(int, int)>::empty());
        } else {
            assert(lexer::lines_from(a, i) == seq![line]);
        }
    }
}

/// The regions that two texts list, one after the other with a line feed between them, are
/// those of the first and then those of the second: each line is judged alone, and the
/// order is kept.
pub proof fn regions_of_joined_texts(a: Seq<char>, b: Seq<char>, writable: bool)
    ensures
        regions_of(lexer::lines(a.push('\n') + b), writable) == regions_of(
            lexer::lines(a),
            writable,
        ) + regions_of(lexer::lines(b), writable),
{
    joined_from(a, b, writable, 0);
}

/// A region that may be written is one that may be read.
pub proof fn writable_regions_are_readable(line: Seq<char>)
    ensures
        region_of(line, true) matches Some(r) ==> region_of(line, false) == Some(r),
{
}

/// Every region starts and ends within the 32-bit address space.
pub proof fn regions_stay_low(lines: Seq<Seq<char>>, writable: bool, i: int)
    requires
        0 <= i < regions_of(lines, writable).len(),
    ensures
        0 <= regions_of(lines, writable)[i].0 <= ADDRESS_MAX,
        regions_of(lines, writable)[i].1 <= ADDRESS_MAX,
    decreases lines.len(),
{
    let line = lines.last();
    let range = line.subrange(
        lexer::run_end(line, 0, true),
        lexer::run_end(line, lexer::run_end(line, 0, true), false),
    );
    lexer::numbers_are_natural(range.take(lexer::find(range, 0, '-')), 16, usize::MAX as int);
    if i < regions_of(lines.drop_last(), writable).len() {
        regions_stay_low(lines.drop_last(), writable, i);
    }
}

/// Whether one of the regions covers `address..end`.
pub open spec fn covered(regions: Seq<(usize, usize)>, address: int, end: int) -> bool {
    exists|i: int|
        0 <= i < regions.len() && (#[trigger] regions[i]).0 <= address && end <= regions[i].1
}

/// Checks that `size` bytes at `address` may be written, against the writable regions
/// of the target (or the code for why they could not be listed).
pub fn set_memory_writable(
    regions: Result<Vec<(usize, usize)>, i32>,
    address: usize,
    size: usize,
) -> (r: Result<(), Error>)
    ensures
        address + size > usize::MAX ==> r == Err::<(), Error>(Error::AddressOverflow),
        address + size <= usize::MAX ==> match regions {
            Err(code) => r == Err::<(), Error>(Error::Os { code }),
            Ok(v) => if covered(v@, address as int, address + size) {
                r == Ok::<(), Error>(())
            } else {
                r == Err::<(), Error>(Error::NotWritable { address, end: (address + size) as usize })
            },
        },
{
    let end: usize = match address.checked_add(size) {
        Some(e) => e,
        None => return Err(Error::AddressOverflow),
    };
    match regions {
        Err(code) => Err(Error::Os { code }),
        Ok(list) => if covers(&list, address, end) {
            Ok(())
        } else {
            Err(Error::NotWritable { address, end })
        },
    }
}

fn covers(regions: &Vec<(usize, usize)>, address: usize, end: usize) -> (r: bool)
    ensures
        r == covered(regions@, address as int, end as int),
{
    let mut i: usize = 0;
    while i < regions.len()
        invariant
            i <= regions@.len(),
            forall|j: int|
                0 <= j < i ==> !((#[trigger] regions@[j]).0 <= address && end <= regions@[j].1),
        decreases regions@.len() - i,
    {
        if address >= regions[i].0 && end <= regions[i].1 {
            return true;
        }
        i = i + 1;
    }
    false
}

/// A region as the kernel reports it.
#[derive(Debug, Clone, Copy, PartialEq, Eq, Structural)]
pub struct Region {
    pub address: u64,
    pub size: u64,
    pub readable: bool,
    pub writable: bool,
}

/// The bounds of the regions that may be read (and written, if that is asked for).
pub open spec fn accessible(regions: Seq<Region>, writable: bool) -> Seq<(u64, u64)>
    decreases regions.len(),
{
    if regions.len() == 0 {
        seq![]
    } else {
        let rest = accessible(regions.drop_last(), writable);
        let r = regions.last();
        if r.readable && (writable ==> r.writable) {
            rest.push((r.address, (r.address + r.size) as u64))
        } else {
            rest
        }
    }
}

/// The bounds of the regions that may be read (and written, if that is asked for).
pub fn accessible_regions(regions: &Vec<Region>, writable: bool) -> (r: Vec<(u64, u64)>)
    requires
        forall|i: int|
            0 <= i < regions@.len() ==> (#[trigger] regions@[i]).address + regions@[i].size
                <= u64::MAX,
    ensures
        r@ == accessible(regions@, writable),
{
    let mut out: Vec<(u64, u64)> = Vec::new();
    let mut i: usize = 0;
    assert(regions@.take(0) =~= Seq::<Region>::empty());
    while i < regions.len()
        invariant
            i <= regions@.len(),
            forall|i: int|
                0 <= i < regions@.len() ==> (#[trigger] regions@[i]).address + regions@[i].size
                    <= u64::MAX,
            out@ == accessible(regions@.take(i as int), writable),
        decreases regions@.len() - i,
    {
        assert(regions@.take(i + 1).drop_last() =~= regions@.take(i as int));
        let r: Region = regions[i];
        if r.readable && (!writable || r.writable) {
            out.push((r.address, r.address + r.size));
        }
        i = i + 1;
    }
    assert(regions@.take(i as int) =~= regions@);
    out
}

/// Whether a pair of words stands at offset `o`.
pub open spec fn pair_at(b: Seq<u8>, o: int, magic: u32, check: u32) -> bool {
    bytes::le32(b, o) == magic && bytes::le32(b, o + 4) == check
}

/// The first offset from `o` on, in steps of `stride`, at which the pair stands.
pub open spec fn pair_from(b: Seq<u8>, o: int, stride: int, magic: u32, check: u32) -> Option<int>
    decreases b.len() + stride - o,
{
    if stride <= 0 || o + 8 > b.len() {
        None
    } else if pair_at(b, o, magic, check) {
        Some(o)
    } else {
        pair_from(b, o + stride, stride, magic, check)
    }
}

fn find_pair(b: &Vec<u8>, stride: usize, magic: u32, check: u32) -> (r: Option<usize>)
    requires
        0 < stride <= 4,
    ensures
        match r {
            Some(o) => pair_from(b@, 0, stride as int, magic, check) == Some(o as int) && o + 8
                <= b@.len(),
            None => pair_from(b@, 0, stride as int, magic, check) is None,
        },
{
    let n: usize = b.len();
    let mut o: usize = 0;
    while n >= 8 && o <= n - 8
        invariant
            n == b@.len(),
            0 < stride <= 4,
            o <= n,
            pair_from(b@, o as int, stride as int, magic, check) == pair_from(
                b@,
                0,
                stride as int,
                magic,
                check,
            ),
        decreases n - o,
    {
        if word_at(b, o) == magic && word_at(b, o + 4) == check {
            return Some(o);
        }
        o = o + stride;
    }
    None
}

/// What a search for a pair of words has left to do, and what it has found.
pub struct Hunt {
    pub todo: Seq<Read>,
    pub found: Option<int>,
}

/// The search after the answer to its next read.
pub open spec fn hunt_step(h: Hunt, stride: int, magic: u32, check: u32, answer: Answer) -> Hunt {
    match answer {
        Answer::Bytes(b) => match pair_from(b, 0, stride, magic, check) {
            Some(o) => Hunt { todo: h.todo, found: Some(h.todo[0].addr + o) },
            None => Hunt { todo: h.todo.skip(1), found: None },
        },
        Answer::Failed(_) => Hunt { todo: h.todo.skip(1), found: None },
    }
}

/// The search after a series of answers; it ends with the first pair found.
pub open spec fn hunt_run(h: Hunt, stride: int, magic: u32, check: u32, answers: Seq<Answer>) -> Hunt
    decreases answers.len(),
{
    if answers.len() == 0 || h.todo.len() == 0 || h.found is Some {
        h
    } else {
        hunt_run(hunt_step(h, stride, magic, check, answers[0]), stride, magic, check, answers.skip(1))
    }
}

/// Where the pair stands in an answer.
pub open spec fn pair_in(answer: Answer, stride: int, magic: u32, check: u32) -> Option<int> {
    match answer {
        Answer::Bytes(b) => pair_from(b, 0, stride, magic, check),
        Answer::Failed(_) => None,
    }
}

/// A search finds the pair in the first answer that holds it, at its first offset
/// there, and reports the address that this offset has in the target.
pub proof fn hunt_finds_first(
    h: Hunt,
    stride: int,
    magic: u32,
    check: u32,
    answers: Seq<Answer>,
    k: int,
)
    requires
        h.found is None,
        0 <= k < answers.len() <= h.todo.len(),
        forall|i: int| 0 <= i < k ==> pair_in(#[trigger] answers[i], stride, magic, check) is None,
        pair_in(answers[k], stride, magic, check) is Some,
    ensures
        hunt_run(h, stride, magic, check, answers).found == Some(
            h.todo[k].addr + pair_in(answers[k], stride, magic, check)->0,
        ),
    decreases k,
{
    let next = hunt_step(h, stride, magic, check, answers[0]);
    if k > 0 {
        assert(pair_in(answers[0], stride, magic, check) is None);
        assert forall|i: int| 0 <= i < k - 1 implies pair_in(
            #[trigger] answers.skip(1)[i],
            stride,
            magic,
            check,
        ) is None by {
            assert(answers.skip(1)[i] == answers[i + 1]);
        }
        hunt_finds_first(next, stride, magic, check, answers.skip(1), k - 1);
    } else {
        assert(next.found is Some);
        reveal_with_fuel(hunt_run, 2);
    }
}

/// A search whose answers hold no pair finds nothing, and has asked for everything.
pub proof fn hunt_finds_nothing(h: Hunt, stride: int, magic: u32, check: u32, answers: Seq<Answer>)
    requires
        h.found is None,
        answers.len() == h.todo.len(),
        forall|i: int|
            0 <= i < answers.len() ==> pair_in(#[trigger] answers[i], stride, magic, check) is None,
    ensures
        hunt_run(h, stride, magic, check, answers).found is None,
        hunt_run(h, stride, magic, check, answers).todo.len() == 0,
    decreases answers.len(),
{
    if answers.len() > 0 {
        assert(pair_in(answers[0], stride, magic, check) is None);
        assert forall|i: int| 0 <= i < answers.skip(1).len() implies pair_in(
            #[trigger] answers.skip(1)[i],
            stride,
            magic,
            check,
        ) is None by {
            assert(answers.skip(1)[i] == answers[i + 1]);
        }
        hunt_finds_nothing(
            hunt_step(h, stride, magic, check, answers[0]),
            stride,
            magic,
            check,
            answers.skip(1),
        );
    }
}

/// A pair is where a search says it is, and at no offset that was tried before.
pub proof fn pair_from_is_first(b: Seq<u8>, o: int, stride: int, magic: u32, check: u32)
    requires
        0 <= o,
        0 < stride,
    ensures
        match pair_from(b, o, stride, magic, check) {
            Some(p) => {
                &&& o <= p <= b.len() - 8
                &&& (p - o) % stride == 0
                &&& pair_at(b, p, magic, check)
                &&& forall|q: int|
                    o <= q < p && (q - o) % stride == 0 ==> !#[trigger] pair_at(b, q, magic, check)
            },
            None => forall|q: int|
                o <= q <= b.len() - 8 && (q - o) % stride == 0 ==> !#[trigger] pair_at(
                    b,
                    q,
                    magic,
                    check,
                ),
        },
    decreases b.len() + stride - o,
{
    if o + 8 <= b.len() && !pair_at(b, o, magic, check) {
        let next = o + stride;
        pair_from_is_first(b, next, stride, magic, check);
        assert forall|q: int| o < q && (q - o) % stride == 0 implies next <= q && #[trigger] ((q
            - next) % stride) == 0 by {
            vstd::arithmetic::div_mod::lemma_fundamental_div_mod(q - o, stride);
            let d = (q - o) / stride;
            assert(d >= 1) by (nonlinear_arith)
                requires
                    q - o == stride * d,
                    q - o > 0,
                    stride > 0,
            ;
            assert(q - next == (d - 1) * stride) by (nonlinear_arith)
                requires
                    q - o == stride * d,
                    next == o + stride,
            ;
            assert((d - 1) * stride >= 0) by (nonlinear_arith)
                requires
                    d >= 1,
                    stride > 0,
            ;
            vstd::arithmetic::div_mod::lemma_mod_multiples_basic(d - 1, stride);
        }
        assert forall|q: int| o <= q && (q - o) % stride == 0 && (match pair_from(
            b,
            o,
            stride,
            magic,
            check,
        ) {
            Some(p) => q < p,
            None => q <= b.len() - 8,
        }) implies !#[trigger] pair_at(b, q, magic, check) by {
            if q > o {
                assert((q - next) % stride == 0);
            }
        }
        if let Some(p) = pair_from(b, o, stride, magic, check) {
            vstd::arithmetic::div_mod::lemma_mod_add_multiples_vanish(p - next, stride);
            assert(p - o == stride + (p - next));
        }
    }
}

/// How far a `/proc` walk reads at once.
#[verifier::allow_in_spec]
pub fn linux_cut() -> Cut
    returns
        (Cut { chunk: 65536, step: 65536, limit: 0xFFFF_FFFF_FFFF_FFFF }),
{
    Cut { chunk: 65536, step: 65536, limit: 0xFFFF_FFFF_FFFF_FFFF }
}

/// How far a walk over kernel regions reads at once: reads overlap by the length of the
/// pair, and none starts above the 32-bit address space.
#[verifier::allow_in_spec]
pub fn macos_cut() -> Cut
    returns
        (Cut { chunk: 65536, step: 65528, limit: 0xFFFF_FFFF }),
{
    Cut { chunk: 65536, step: 65528, limit: 0xFFFF_FFFF }
}

/// A search of the target's memory for a pair of words.
#[derive(Debug)]
pub struct MagicScan {
    walk: Walk,
    stride: usize,
    magic: u32,
    check: u32,
    found: Option<u64>,
}

impl MagicScan {
    #[verifier::type_invariant]
    spec fn sound(self) -> bool {
        0 < self.stride <= 4
    }

    /// The pair that is looked for.
    pub closed spec fn pair(self) -> (u32, u32) {
        (self.magic, self.check)
    }

    /// The steps in which offsets are tried.
    pub closed spec fn strides(self) -> int {
        self.stride as int
    }

    /// The next read; none once the pair was found or nothing is left.
    pub fn next(&self) -> (r: Option<Read>)
        ensures
            match r {
                Some(q) => self@.found is None && self@.todo.len() > 0 && q == self@.todo[0],
                None => self@.found is Some || self@.todo.len() == 0,
            },
    {
        if self.found.is_some() {
            None
        } else {
            self.walk.current()
        }
    }

    /// Takes the answer to the next read.
    pub fn supply(self, reply: Reply) -> (m: MagicScan)
        requires
            self@.found is None,
            self@.todo.len() > 0,
            reply@.fits(self@.todo[0]),
        ensures
            m@ == hunt_step(self@, self.strides(), self.pair().0, self.pair().1, reply@),
            m.pair() == self.pair(),
            m.strides() == self.strides(),
    {
        proof {
            use_type_invariant(&self);
        }
        if let Reply::Bytes(b) = &reply {
            if let Some(o) = find_pair(b, self.stride, self.magic, self.check) {
                if let Some(q) = self.walk.current() {
                    let at: u64 = q.addr + o as u64;
                    return MagicScan {
                        walk: self.walk,
                        stride: self.stride,
                        magic: self.magic,
                        check: self.check,
                        found: Some(at),
                    };
                }
            }
        }
        MagicScan {
            walk: self.walk.advance(),
            stride: self.stride,
            magic: self.magic,
            check: self.check,
            found: None,
        }
    }

    /// The outcome of the search: the address of the pair, or that no chunk holds it.
    pub fn outcome(&self) -> (r: Result<u64, Error>)
        ensures
            match self@.found {
                Some(a) => r matches Ok(v) && v == a,
                None => r == Err::<u64, Error>(
                    if self.strides() == 4 {
                        Error::MagicNotFound { magic: self.pair().0, check: self.pair().1 }
                    } else {
                        Error::MagicNotInRegions { magic: self.pair().0, check: self.pair().1 }
                    },
                ),
            },
    {
        match self.found {
            Some(a) => Ok(a),
            None => if self.stride == 4 {
                Err(Error::MagicNotFound { magic: self.magic, check: self.check })
            } else {
                Err(Error::MagicNotInRegions { magic: self.magic, check: self.check })
            },
        }
    }
}

impl View for MagicScan {
    type V = Hunt;

    closed spec fn view(&self) -> Hunt {
        Hunt {
            todo: self.walk.todo(),
            found: match self.found {
                Some(a) => Some(a as int),
                None => None,
            },
        }
    }
}

/// Regions with 64-bit bounds.
pub open spec fn widened(regions: Seq<(usize, usize)>) -> Seq<(u64, u64)> {
    regions.map_values(|r: (usize, usize)| (r.0 as u64, r.1 as u64))
}

/// Starts the search for a pair through the regions of `/proc/<pid>/maps`, at every
/// fourth offset of each chunk.
pub fn scan_linux_magic(regions: &Vec<(usize, usize)>, magic: u32, check: u32) -> (m: MagicScan)
    ensures
        m@ == (Hunt { todo: walk::reads_over(widened(regions@), linux_cut()), found: None }),
        m.pair() == (magic, check),
        m.strides() == 4,
{
    let mut wide: Vec<(u64, u64)> = Vec::new();
    let mut i: usize = 0;
    while i < regions.len()
        invariant
            i <= regions@.len(),
            wide@ == widened(regions@.take(i as int)),
        decreases regions@.len() - i,
    {
        wide.push((regions[i].0 as u64, regions[i].1 as u64));
        i = i + 1;
        assert(wide@ =~= widened(regions@.take(i as int)));
    }
    assert(regions@.take(i as int) =~= regions@);
    MagicScan { walk: Walk::new(wide, linux_cut()), stride: 4, magic, check, found: None }
}

/// Starts the search for a pair through the kernel's regions, at every offset of each
/// chunk.
pub fn scan_macos_magic(regions: &Vec<Region>, magic: u32, check: u32, writable: bool) -> (m: MagicScan)
    requires
        forall|i: int|
            0 <= i < regions@.len() ==> (#[trigger] regions@[i]).address + regions@[i].size
                <= u64::MAX,
    ensures
        m@ == (Hunt {
            todo: walk::reads_over(accessible(regions@, writable), macos_cut()),
            found: None,
        }),
        m.pair() == (magic, check),
        m.strides() == 1,
{
    let wide: Vec<(u64, u64)> = accessible_regions(regions, writable);
    MagicScan { walk: Walk::new(wide, macos_cut()), stride: 1, magic, check, found: None }
}

/// What to look for in order to find a block.
#[derive(Debug, Clone, Copy, PartialEq, Eq, Structural)]
pub struct Magic {
    pub magic: u32,
    pub check: u32,
    pub writable: bool,
}

/// The mirror of the game's state.
#[verifier::allow_in_spec]
pub fn luigi_magic() -> Magic
    returns
        (Magic { magic: 0x64AD_FA4C, check: 0x7953_3ED9, writable: false }),
{
    Magic { magic: 0x64AD_FA4C, check: 0x7953_3ED9, writable: false }
}

/// The mailbox.
#[verifier::allow_in_spec]
pub fn mailbox_magic() -> Magic
    returns
        (Magic { magic: 0x64AD_FA4D, check: 0x7953_3ED8, writable: true }),
{
    Magic { magic: 0x64AD_FA4D, check: 0x7953_3ED8, writable: true }
}

/// The status of the shim's own thread.
#[verifier::allow_in_spec]
pub fn thread_magic() -> Magic
    returns
        (Magic { magic: 0xBADB_EEF1, check: 0x7953_3ED9, writable: false }),
{
    Magic { magic: 0xBADB_EEF1, check: 0x7953_3ED9, writable: false }
}

/// The addresses that the shim resolved.
#[verifier::allow_in_spec]
pub fn status_magic() -> Magic
    returns
        (Magic { magic: 0xBADB_EEF2, check: 0x7953_3EDA, writable: true }),
{
    Magic { magic: 0xBADB_EEF2, check: 0x7953_3EDA, writable: true }
}

/// Field offsets of the status block.
pub const LS_STRUCT_ADDR: usize = 20;

pub const LS_BUILD_STAMP: usize = 24;

pub const LS_MAP_OBJECT: usize = 28;

pub const LS_PLAYER_REC: usize = 32;

pub const LS_VIEW_ORIGIN: usize = 36;

/// The addresses that depend on the build that is running.
#[derive(Debug, Clone, Copy, PartialEq, Eq, Structural)]
pub struct Addrs {
    pub build_stamp: u32,
    pub luigi: usize,
    pub map_object: usize,
    /// None on a build where the record has never been located.
    pub player_rec: Option<usize>,
    pub view_origin: usize,
}

/// The failure of the search for the status block, as it is reported.
pub open spec fn no_status(e: Error) -> Error {
    match e {
        Error::Os { code } => Error::NoStatusOs { code },
        Error::MagicNotFound { magic, check } => Error::NoStatusNotFound { magic, check },
        Error::MagicNotInRegions { magic, check } => Error::NoStatusNotInRegions { magic, check },
        other => other,
    }
}

fn status_missing(e: Error) -> (r: Error)
    ensures
        r == no_status(e),
{
    match e {
        Error::Os { code } => Error::NoStatusOs { code },
        Error::MagicNotFound { magic, check } => Error::NoStatusNotFound { magic, check },
        Error::MagicNotInRegions { magic, check } => Error::NoStatusNotInRegions { magic, check },
        other => other,
    }
}

/// Where the fields of a status block at `base` are read, in this order.
pub open spec fn status_reads(base: usize) -> Seq<u64> {
    seq![
        (base + LS_PLAYER_REC) as u64,
        (base + LS_BUILD_STAMP) as u64,
        (base + LS_STRUCT_ADDR) as u64,
        (base + LS_MAP_OBJECT) as u64,
        (base + LS_VIEW_ORIGIN) as u64,
    ]
}

/// The addresses that those words spell, or why they are none.
pub open spec fn addrs_of(w: Seq<int>) -> Result<Addrs, Stop> {
    if w[3] == 0 || w[4] == 0 {
        Err(Stop::Fail(Error::UnknownBuild { stamp: w[1] as u32 }))
    } else {
        Ok(
            Addrs {
                build_stamp: w[1] as u32,
                luigi: w[2] as usize,
                map_object: w[3] as usize,
                player_rec: if w[0] != 0 {
                    Some(w[0] as usize)
                } else {
                    None
                },
                view_origin: w[4] as usize,
            },
        )
    }
}

/// The addresses for the running build: those that are known already, else those that
/// the status block publishes. `base` is where that block was found, or why it was not.
pub fn get_addrs(cached: Option<Addrs>, base: Result<usize, Error>, tape: &mut Tape) -> (r: Result<Addrs, Stop>)
    requires
        base matches Ok(b) ==> b + LS_VIEW_ORIGIN <= u64::MAX,
    ensures
        final(tape).all() == old(tape).all(),
        match (cached, base) {
            (Some(a), _) => r == Ok::<Addrs, Stop>(a),
            (None, Err(e)) => r == Err::<Addrs, Stop>(Stop::Fail(no_status(e))),
            (None, Ok(b)) => match memory::ask_words(old(tape).rest(), status_reads(b)) {
                Err(stop) => r == Err::<Addrs, Stop>(stop),
                Ok(w) => r == addrs_of(w),
            },
        },
{
    if let Some(a) = cached {
        return Ok(a);
    }
    let b: usize = match base {
        Ok(b) => b,
        Err(e) => return Err(Stop::Fail(status_missing(e))),
    };
    let reads: [u64; 5] = [
        b as u64 + LS_PLAYER_REC as u64,
        b as u64 + LS_BUILD_STAMP as u64,
        b as u64 + LS_STRUCT_ADDR as u64,
        b as u64 + LS_MAP_OBJECT as u64,
        b as u64 + LS_VIEW_ORIGIN as u64,
    ];
    assert(reads@ =~= status_reads(b));
    let w: Vec<u32> = tape.words(&reads)?;
    if w[3] == 0 || w[4] == 0 {
        return Err(Stop::Fail(Error::UnknownBuild { stamp: w[1] }));
    }
    Ok(
        Addrs {
            build_stamp: w[1],
            luigi: w[2] as usize,
            map_object: w[3] as usize,
            player_rec: if w[0] != 0 {
                Some(w[0] as usize)
            } else {
                None
            },
            view_origin: w[4] as usize,
        },
    )
}

/// Whether the shim's thread runs. `base` is where its status was found.
pub fn check_ipc_thread_status(base: usize, tape: &mut Tape) -> (r: Result<bool, Stop>)
    requires
        base + 8 <= u64::MAX,
    ensures
        final(tape).all() == old(tape).all(),
        match memory::ask_word(old(tape).rest(), (base + 8) as u64) {
            Err(stop) => r == Err::<bool, Stop>(stop),
            Ok(w) => r == Ok::<bool, Stop>(w == 1),
        },
{
    let w: u32 = tape.word(base as u64 + 8)?;
    Ok(w == 1)
}

/// Where a block is: known, or to be searched for.
#[derive(Debug, Clone, Copy, PartialEq, Eq, Structural)]
pub enum Lookup {
    Known { address: usize },
    Search { magic: Magic },
}

/// The addresses that were found once; none is looked for again.
#[derive(Debug, Clone, Copy, PartialEq, Eq, Structural)]
pub struct Located {
    pub base: Option<usize>,
    pub mailbox: Option<usize>,
    pub addrs: Option<Addrs>,
}

impl Located {
    /// Nothing found yet.
    pub fn new() -> (r: Located)
        ensures
            r == (Located { base: None, mailbox: None, addrs: None }),
    {
        Located { base: None, mailbox: None, addrs: None }
    }

    /// Where the mirror of the game's state is.
    pub fn get_base_address(&self) -> (r: Lookup)
        ensures
            r == match self.base {
                Some(address) => Lookup::Known { address },
                None => Lookup::Search { magic: luigi_magic() },
            },
    {
        match self.base {
            Some(address) => Lookup::Known { address },
            None => Lookup::Search { magic: luigi_magic() },
        }
    }

    /// Where the mailbox is.
    pub fn get_mailbox_address(&self) -> (r: Lookup)
        ensures
            r == match self.mailbox {
                Some(address) => Lookup::Known { address },
                None => Lookup::Search { magic: mailbox_magic() },
            },
    {
        match self.mailbox {
            Some(address) => Lookup::Known { address },
            None => Lookup::Search { magic: mailbox_magic() },
        }
    }

    /// Keeps the mirror's address for later.
    pub fn keep_base(&mut self, address: usize)
        ensures
            *final(self) == (Located { base: Some(address), ..*old(self) }),
    {
        self.base = Some(address);
    }

    /// Keeps the mailbox's address for later.
    pub fn keep_mailbox(&mut self, address: usize)
        ensures
            *final(self) == (Located { mailbox: Some(address), ..*old(self) }),
    {
        self.mailbox = Some(address);
    }

    /// Keeps the build's addresses for later.
    pub fn keep_addrs(&mut self, addrs: Addrs)
        ensures
            *final(self) == (Located { addrs: Some(addrs), ..*old(self) }),
    {
        self.addrs = Some(addrs);
    }
}

/// The bytes that a read of a memory brings.
pub open spec fn window(content: spec_fn(int) -> u8, q: Read) -> Seq<u8> {
    Seq::new(q.len as nat, |i: int| content(q.addr + i))
}

/// Whether every read of a memory that does not fail brings what the memory holds there.
pub open spec fn shows(mem: spec_fn(Read) -> Answer, content: spec_fn(int) -> u8) -> bool {
    forall|q: Read| (#[trigger] mem(q)) matches Answer::Bytes(b) ==> b == window(content, q)
}

/// Whether no region reaches into a later one.
pub open spec fn in_ascending_order(regions: Seq<(u64, u64)>) -> bool {
    forall|i: int, j: int|
        0 <= i < j < regions.len() ==> (#[trigger] regions[i]).1 <= (#[trigger] regions[j]).0
}

/// The first of the answers up to `i` that holds the pair.
proof fn first_with_pair(
    answers: Seq<Answer>,
    stride: int,
    magic: u32,
    check: u32,
    i: int,
) -> (k: int)
    requires
        0 <= i < answers.len(),
        pair_in(answers[i], stride, magic, check) is Some,
    ensures
        0 <= k <= i,
        pair_in(answers[k], stride, magic, check) is Some,
        forall|j: int| 0 <= j < k ==> pair_in(#[trigger] answers[j], stride, magic, check) is None,
    decreases i,
{
    if exists|j: int| 0 <= j < i && pair_in(#[trigger] answers[j], stride, magic, check) is Some {
        let j = choose|j: int|
            0 <= j < i && pair_in(#[trigger] answers[j], stride, magic, check) is Some;
        first_with_pair(answers, stride, magic, check, j)
    } else {
        i
    }
}

/// Whether a pair of words stands at an address of a memory.
pub open spec fn stands(content: spec_fn(int) -> u8, a: int, magic: u32, check: u32) -> bool {
    pair_at(Seq::new(8, |i: int| content(a + i)), 0, magic, check)
}

/// A read shows a pair at an offset exactly if one stands at that address.
pub proof fn window_shows_pairs(content: spec_fn(int) -> u8, q: Read, o: int, magic: u32, check: u32)
    requires
        0 <= o,
        o + 8 <= q.len,
    ensures
        pair_at(window(content, q), o, magic, check) == stands(content, q.addr + o, magic, check),
{
    let b = window(content, q);
    let w = Seq::new(8, |i: int| content(q.addr + o + i));
    assert(w[0] == b[o] && w[1] == b[o + 1] && w[2] == b[o + 2] && w[3] == b[o + 3]);
    assert(w[4] == b[o + 4] && w[5] == b[o + 4 + 1] && w[6] == b[o + 4 + 2] && w[7] == b[o + 4 + 3]);
}

/// A pair at a tried offset of a read is found in it.
proof fn window_holds_pair(
    content: spec_fn(int) -> u8,
    q: Read,
    stride: int,
    magic: u32,
    check: u32,
    a: int,
)
    requires
        0 < stride,
        q.addr <= a,
        a + 8 <= q.addr + q.len,
        (a - q.addr) % stride == 0,
        stands(content, a, magic, check),
    ensures
        pair_from(window(content, q), 0, stride, magic, check) matches Some(o) && o <= a - q.addr,
{
    let b = window(content, q);
    let o = a - q.addr;
    window_shows_pairs(content, q, o, magic, check);
    pair_from_is_first(b, 0, stride, magic, check);
    assert((o - 0) % stride == 0);
    assert(pair_at(b, o, magic, check));
}

/// What a search finds in a region that can be read: the lowest address at which a pair
/// stands, if one stands at `a`.
pub open spec fn finds_lowest(
    content: spec_fn(int) -> u8,
    at: u64,
    found: Option<int>,
    magic: u32,
    check: u32,
    a: int,
) -> bool {
    &&& found matches Some(p)
    &&& at <= p <= a
    &&& stands(content, p, magic, check)
    &&& forall|q: int| at <= q < p ==> !#[trigger] stands(content, q, magic, check)
}

/// In a region that can be read, a walk over the kernel's regions finds the lowest address
/// at which a pair stands, also where it straddles the edge of a chunk.
pub proof fn present_pair_is_found(
    content: spec_fn(int) -> u8,
    at: u64,
    end: u64,
    answers: Seq<Answer>,
    magic: u32,
    check: u32,
    a: int,
)
    requires
        at <= a,
        a + 8 <= end,
        a <= macos_cut().limit,
        answers.len() == walk::reads_of(at as int, end as int, macos_cut()).len(),
        forall|i: int|
            0 <= i < answers.len() ==> #[trigger] answers[i] == Answer::Bytes(
                window(content, walk::reads_of(at as int, end as int, macos_cut())[i]),
            ),
        stands(content, a, magic, check),
    ensures
        ({
            let todo = walk::reads_of(at as int, end as int, macos_cut());
            let found = hunt_run((Hunt { todo, found: None }), 1, magic, check, answers).found;
            finds_lowest(content, at, found, magic, check, a)
        }),
{
    let cut = macos_cut();
    let todo = walk::reads_of(at as int, end as int, cut);
    let i = walk::reads_hold_stretches(at as int, end as int, cut, a, 8);
    assert(answers[i] == Answer::Bytes(window(content, todo[i])));
    assert((a - todo[i].addr) % 1 == 0);
    window_holds_pair(content, todo[i], 1, magic, check, a);
    let k = first_with_pair(answers, 1, magic, check, i);
    hunt_finds_first((Hunt { todo, found: None }), 1, magic, check, answers, k);
    let b = window(content, todo[k]);
    assert(answers[k] == Answer::Bytes(b));
    let o = pair_from(b, 0, 1, magic, check)->0;
    let p = todo[k].addr + o;
    pair_from_is_first(b, 0, 1, magic, check);
    window_shows_pairs(content, todo[k], o, magic, check);
    walk::reads_start_in_steps(at as int, end as int, cut, k);
    assert(k * 65528 >= 0);
    assert forall|q: int|
        at <= q <= cut.limit && q + 8 <= end && #[trigger] stands(
            content,
            q,
            magic,
            check,
        ) implies p <= q by {
        if q < p {
            let j = walk::reads_hold_stretches(at as int, end as int, cut, q, 8);
            assert(answers[j] == Answer::Bytes(window(content, todo[j])));
            assert((q - todo[j].addr) % 1 == 0);
            window_holds_pair(content, todo[j], 1, magic, check, q);
            assert(pair_in(answers[j], 1, magic, check) is Some);
            assert(j >= k);
            walk::reads_start_in_steps(at as int, end as int, cut, j);
            assert((q - todo[k].addr) % 1 == 0);
            window_holds_pair(content, todo[k], 1, magic, check, q);
        }
    }
}

/// Whether an address lies a multiple of four bytes into a region, with no chunk ending in
/// the eight bytes from there on.
pub open spec fn whole_in_chunk(at: u64, a: int) -> bool {
    (a - at) % 4 == 0 && (a - at) % (linux_cut().chunk as int) + 8 <= linux_cut().chunk
}

/// An offset of a chunk that leaves room for a pair is whole in that chunk.
pub proof fn chunk_offset_is_whole(at: u64, k: int, o: int, p: int)
    requires
        0 <= o,
        o % 4 == 0,
        o + 8 <= 65536,
        p == at + k * 65536 + o,
    ensures
        whole_in_chunk(at, p),
{
    assert((p - at) % 65536 == o);
    assert((p - at) % 4 == 0);
}

#[verifier::spinoff_prover]
proof fn aligned_pair_is_not_below(
    content: spec_fn(int) -> u8,
    at: u64,
    end: u64,
    answers: Seq<Answer>,
    magic: u32,
    check: u32,
    k: int,
    q: int,
)
    requires
        at <= q,
        q + 8 <= end,
        whole_in_chunk(at, q),
        stands(content, q, magic, check),
        answers.len() == walk::reads_of(at as int, end as int, linux_cut()).len(),
        forall|i: int|
            0 <= i < answers.len() ==> #[trigger] answers[i] == Answer::Bytes(
                window(content, walk::reads_of(at as int, end as int, linux_cut())[i]),
            ),
        0 <= k < answers.len(),
        pair_in(answers[k], 4, magic, check) is Some,
        forall|j: int| 0 <= j < k ==> pair_in(#[trigger] answers[j], 4, magic, check) is None,
    ensures
        walk::reads_of(at as int, end as int, linux_cut())[k].addr + pair_in(
            answers[k],
            4,
            magic,
            check,
        )->0 <= q,
{
    let cut = linux_cut();
    let todo = walk::reads_of(at as int, end as int, cut);
    let j = walk::reads_hold_whole_stretches(at as int, end as int, cut, q, 8);
    assert(answers[j] == Answer::Bytes(window(content, todo[j])));
    assert(answers[k] == Answer::Bytes(window(content, todo[k])));
    assert((q - todo[j].addr) % 4 == 0);
    window_holds_pair(content, todo[j], 4, magic, check, q);
    assert(pair_in(answers[j], 4, magic, check) is Some);
    assert(j >= k);
    if j > k {
        let b = window(content, todo[k]);
        pair_from_is_first(b, 0, 4, magic, check);
        walk::reads_start_in_steps(at as int, end as int, cut, j);
        walk::reads_start_in_steps(at as int, end as int, cut, k);
        assert(j * 65536 >= (k + 1) * 65536);
    }
}

/// In a region that can be read, a walk over the regions of `/proc` finds the lowest pair
/// that stands a multiple of four bytes into the region and does not straddle the edge of a
/// chunk.
pub proof fn present_aligned_pair_is_found(
    content: spec_fn(int) -> u8,
    at: u64,
    end: u64,
    answers: Seq<Answer>,
    magic: u32,
    check: u32,
    a: int,
)
    requires
        at <= a,
        a + 8 <= end,
        whole_in_chunk(at, a),
        answers.len() == walk::reads_of(at as int, end as int, linux_cut()).len(),
        forall|i: int|
            0 <= i < answers.len() ==> #[trigger] answers[i] == Answer::Bytes(
                window(content, walk::reads_of(at as int, end as int, linux_cut())[i]),
            ),
        stands(content, a, magic, check),
    ensures
        ({
            let todo = walk::reads_of(at as int, end as int, linux_cut());
            let found = hunt_run((Hunt { todo, found: None }), 4, magic, check, answers).found;
            &&& found matches Some(p)
            &&& at <= p <= a
            &&& whole_in_chunk(at, p)
            &&& stands(content, p, magic, check)
            &&& forall|q: int|
                at <= q < p && whole_in_chunk(at, q) ==> !#[trigger] stands(
                    content,
                    q,
                    magic,
                    check,
                )
        }),
{
    let cut = linux_cut();
    let todo = walk::reads_of(at as int, end as int, cut);
    let i = walk::reads_hold_whole_stretches(at as int, end as int, cut, a, 8);
    assert(answers[i] == Answer::Bytes(window(content, todo[i])));
    assert((a - todo[i].addr) % 4 == 0);
    window_holds_pair(content, todo[i], 4, magic, check, a);
    let k = first_with_pair(answers, 4, magic, check, i);
    hunt_finds_first((Hunt { todo, found: None }), 4, magic, check, answers, k);
    let b = window(content, todo[k]);
    assert(answers[k] == Answer::Bytes(b));
    let o = pair_from(b, 0, 4, magic, check)->0;
    let p = todo[k].addr + o;
    pair_from_is_first(b, 0, 4, magic, check);
    window_shows_pairs(content, todo[k], o, magic, check);
    walk::reads_start_in_steps(at as int, end as int, cut, k);
    chunk_offset_is_whole(at, k, o, p);
    assert forall|q: int|
        at <= q && q + 8 <= end && whole_in_chunk(at, q) && #[trigger] stands(
            content,
            q,
            magic,
            check,
        ) implies p <= q by {
        aligned_pair_is_not_below(content, at, end, answers, magic, check, k, q);
    }
}

} // verus!
