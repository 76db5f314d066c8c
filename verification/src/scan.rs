//! Differential value scanning.
//!
//! A first scan collects every address that holds a known value; later ones keep those
//! that changed as expected.

use crate::bytes;
use crate::bytes::{int_at, narrow, to_u32, word_at};
use crate::common::Region;
use crate::error::Error;
use crate::memory;
use crate::memory::{Answer, Exchange, Read, Reply, Stop, Tape};
use crate::sweep;
use crate::sweep::{Sweep, Visit};
use crate::walk;
use crate::walk::{Cut, Walk};
use vstd::prelude::*;

verus! {

/// Only the low 4 GiB is of interest: the target is a 32-bit program.
pub const ADDR_LIMIT: u64 = 0xFFFF_FFFF;

pub const CHUNK: usize = 262144;

/// A scan for a small number matches a great many addresses. This bounds them.
pub const MAX_CANDIDATES: usize = 4_000_000;

/// The same for a scan for pointers.
pub const MAX_POINTERS: usize = 200_000;

/// The bounds of the writable regions from the `i`th on: those that can be read and
/// written, cut off at the limit, up to the first region that starts beyond it.
pub open spec fn writable_from(regions: Seq<Region>, i: int) -> Seq<(u64, u64)>
    decreases regions.len() - i,
{
    if i >= regions.len() || regions[i].address > ADDR_LIMIT {
        seq![]
    } else {
        let r = regions[i];
        let end = if r.address + r.size > ADDR_LIMIT {
            ADDR_LIMIT as int
        } else {
            r.address + r.size
        };
        let this: Seq<(u64, u64)> = if r.readable && r.writable && end > r.address {
            seq![(r.address, end as u64)]
        } else {
            seq![]
        };
        this + writable_from(regions, i + 1)
    }
}

/// The writable regions among those that the kernel reports. Not every system reports
/// its regions.
pub fn writable_regions(regions: Option<&Vec<Region>>) -> (r: Result<Vec<(u64, u64)>, Error>)
    requires
        regions matches Some(v) ==> forall|i: int|
            0 <= i < v@.len() ==> (#[trigger] v@[i]).address + v@[i].size <= u64::MAX,
    ensures
        match regions {
            Some(v) => r matches Ok(w) && w@ == writable_from(v@, 0),
            None => r matches Err(e) && e == Error::RegionsUnsupported,
        },
{
    match regions {
        None => Err(Error::RegionsUnsupported),
        Some(v) => Ok(writable_list(v)),
    }
}

fn writable_list(v: &Vec<Region>) -> (r: Vec<(u64, u64)>)
    requires
        forall|i: int| 0 <= i < v@.len() ==> (#[trigger] v@[i]).address + v@[i].size <= u64::MAX,
    ensures
        r@ == writable_from(v@, 0),
{
    let mut out: Vec<(u64, u64)> = Vec::new();
    let mut i: usize = 0;
    while i < v.len() && v[i].address <= ADDR_LIMIT
        invariant
            i <= v@.len(),
            forall|i: int| 0 <= i < v@.len() ==> (#[trigger] v@[i]).address + v@[i].size <= u64::MAX,
            out@ + writable_from(v@, i as int) == writable_from(v@, 0),
        decreases v@.len() - i,
    {
        let r: Region = v[i];
        let sum: u64 = r.address + r.size;
        let end: u64 = if sum > ADDR_LIMIT {
            ADDR_LIMIT
        } else {
            sum
        };
        let ghost before = out@;
        if r.readable && r.writable && end > r.address {
            out.push((r.address, end));
        }
        i = i + 1;
        assert(out@ + writable_from(v@, i as int) =~= before + writable_from(v@, i - 1));
    }
    assert(out@ + writable_from(v@, i as int) =~= out@);
    out
}

/// How regions are cut for a scan.
#[verifier::allow_in_spec]
pub fn scan_cut() -> Cut
    returns
        (Cut { chunk: CHUNK, step: CHUNK, limit: ADDR_LIMIT }),
{
    Cut { chunk: CHUNK, step: CHUNK, limit: ADDR_LIMIT }
}

/// The aligned words of a chunk at `addr`, from offset `o` on, that lie between `lo` and
/// `hi`, each with its address.
pub open spec fn matches_from(b: Seq<u8>, o: int, addr: int, lo: u32, hi: u32) -> Seq<(u64, u32)>
    decreases b.len() - o,
{
    if o + 4 > b.len() {
        seq![]
    } else {
        let w = bytes::le32(b, o);
        let this: Seq<(u64, u32)> = if lo <= w <= hi {
            seq![((addr + o) as u64, w as u32)]
        } else {
            seq![]
        };
        this + matches_from(b, o + 4, addr, lo, hi)
    }
}

/// What an answer to `q` holds between `lo` and `hi`; nothing where the read failed.
pub open spec fn matches_in(q: Read, a: Answer, lo: u32, hi: u32) -> Seq<(u64, u32)> {
    match a {
        Answer::Bytes(b) => matches_from(b, 0, q.addr as int, lo, hi),
        Answer::Failed(_) => seq![],
    }
}

/// What the answers to a series of reads hold between `lo` and `hi`.
pub open spec fn matches_over(
    reads: Seq<Read>,
    answers: Seq<Answer>,
    lo: u32,
    hi: u32,
) -> Seq<(u64, u32)>
    decreases reads.len(),
{
    if reads.len() == 0 || answers.len() == 0 {
        seq![]
    } else {
        matches_in(reads[0], answers[0], lo, hi) + matches_over(
            reads.skip(1),
            answers.skip(1),
            lo,
            hi,
        )
    }
}

/// At most the first `cap` of `s`.
pub open spec fn clip<T>(s: Seq<T>, cap: int) -> Seq<T> {
    if s.len() <= cap {
        s
    } else {
        s.take(cap)
    }
}

/// A scan: the words that it looks for, how many it keeps, what it has left to read and
/// what it has found.
pub struct Comb {
    pub lo: u32,
    pub hi: u32,
    pub cap: int,
    pub todo: Seq<Read>,
    pub hits: Seq<(u64, u32)>,
}

impl Comb {
    /// The scan after the answer to its next read. It ends when it holds all it may.
    pub open spec fn step(self, a: Answer) -> Comb {
        let hits = clip(self.hits + matches_in(self.todo[0], a, self.lo, self.hi), self.cap);
        Comb {
            hits,
            todo: if hits.len() >= self.cap {
                seq![]
            } else {
                self.todo.skip(1)
            },
            ..self
        }
    }

    /// The scan after a series of answers.
    pub open spec fn run(self, answers: Seq<Answer>) -> Comb
        decreases answers.len(),
    {
        if answers.len() == 0 || self.todo.len() == 0 {
            self
        } else {
            self.step(answers[0]).run(answers.skip(1))
        }
    }
}

/// A scan of the target's memory for words in a range.
#[derive(Debug)]
pub struct WordScan {
    walk: Walk,
    lo: u32,
    hi: u32,
    cap: usize,
    hits: Vec<(u64, u32)>,
}

impl View for WordScan {
    type V = Comb;

    closed spec fn view(&self) -> Comb {
        Comb {
            lo: self.lo,
            hi: self.hi,
            cap: self.cap as int,
            todo: if self.hits@.len() >= self.cap {
                seq![]
            } else {
                self.walk.todo()
            },
            hits: self.hits@,
        }
    }
}

/// Starts a scan for `value` as a little-endian integer at every aligned address.
pub fn scan_new(regions: Vec<(u64, u64)>, value: i32) -> (s: WordScan)
    ensures
        s@ == (Comb {
            lo: bytes::bits32(value as int) as u32,
            hi: bytes::bits32(value as int) as u32,
            cap: MAX_CANDIDATES as int,
            todo: walk::reads_over(regions@, scan_cut()),
            hits: seq![],
        }),
{
    let w: u32 = to_u32(value);
    WordScan {
        walk: Walk::new(regions, scan_cut()),
        lo: w,
        hi: w,
        cap: MAX_CANDIDATES,
        hits: Vec::new(),
    }
}

/// Starts a scan for aligned words that point into `lo..=hi`.
///
/// Pointers lead to the start of an object and the field of interest lies somewhere
/// inside it, so a range finds what a scan for an exact address does not.
pub fn scan_ptr_to(regions: Vec<(u64, u64)>, lo: u32, hi: u32) -> (s: WordScan)
    ensures
        s@ == (Comb {
            lo,
            hi,
            cap: MAX_POINTERS as int,
            todo: walk::reads_over(regions@, scan_cut()),
            hits: seq![],
        }),
{
    WordScan { walk: Walk::new(regions, scan_cut()), lo, hi, cap: MAX_POINTERS, hits: Vec::new() }
}

/// Every address in a list lies within reach of a scan.
pub open spec fn in_reach(v: Seq<u64>) -> bool {
    forall|i: int| 0 <= i < v.len() ==> #[trigger] v[i] <= ADDR_LIMIT + CHUNK
}

impl WordScan {
    #[verifier::type_invariant]
    spec fn sound(self) -> bool {
        &&& self.walk.cuts() == scan_cut()
        &&& forall|i: int|
            0 <= i < self.hits@.len() ==> (#[trigger] self.hits@[i]).0 <= ADDR_LIMIT + CHUNK
    }

    /// The next read; none when the scan is over.
    pub fn next(&self) -> (r: Option<Read>)
        ensures
            match r {
                Some(q) => self@.todo.len() > 0 && q == self@.todo[0],
                None => self@.todo.len() == 0,
            },
    {
        if self.hits.len() >= self.cap {
            None
        } else {
            self.walk.current()
        }
    }

    /// Takes the answer to the next read.
    pub fn supply(self, reply: Reply) -> (s: WordScan)
        requires
            self@.todo.len() > 0,
            reply@.fits(self@.todo[0]),
        ensures
            s@ == self@.step(reply@),
    {
        proof {
            use_type_invariant(&self);
        }
        let mut hits: Vec<(u64, u32)> = self.hits;
        let ghost start = hits@;
        if let Reply::Bytes(b) = &reply {
            if let Some(q) = self.walk.current() {
                let ghost all = start + matches_from(b@, 0, q.addr as int, self.lo, self.hi);
                let mut o: usize = 0;
                while hits.len() < self.cap && b.len() >= 4 && o <= b.len() - 4
                    invariant
                        b@.len() == q.len,
                        q.addr + q.len <= u64::MAX,
                        q.addr <= ADDR_LIMIT,
                        q.len <= CHUNK,
                        o <= b@.len() + 3,
                        forall|i: int|
                            0 <= i < hits@.len() ==> (#[trigger] hits@[i]).0 <= ADDR_LIMIT + CHUNK,
                        hits@.len() <= self.cap,
                        all == hits@ + matches_from(b@, o as int, q.addr as int, self.lo, self.hi),
                    decreases b@.len() + 4 - o,
                {
                    let w: u32 = word_at(b, o);
                    let ghost before = hits@;
                    if self.lo <= w && w <= self.hi {
                        hits.push((q.addr + o as u64, w));
                    }
                    proof {
                        assert(hits@ + matches_from(b@, o + 4, q.addr as int, self.lo, self.hi)
                            =~= before + matches_from(b@, o as int, q.addr as int, self.lo, self.hi));
                    }
                    if b.len() - o < 8 {
                        o = b.len();
                        assert(matches_from(b@, o as int, q.addr as int, self.lo, self.hi)
                            =~= Seq::<(u64, u32)>::empty());
                    } else {
                        o = o + 4;
                    }
                }
                assert(hits@ =~= clip(all, self.cap as int));
            }
        } else {
            assert(start + Seq::<(u64, u32)>::empty() =~= start);
        }
        if hits.len() >= self.cap {
            WordScan { walk: self.walk, lo: self.lo, hi: self.hi, cap: self.cap, hits }
        } else {
            WordScan { walk: self.walk.advance(), lo: self.lo, hi: self.hi, cap: self.cap, hits }
        }
    }

    /// The words found so far, with their addresses.
    pub fn hits(self) -> (r: Vec<(u64, u32)>)
        ensures
            r@ == self@.hits,
    {
        self.hits
    }

    /// The addresses found so far.
    pub fn addresses(&self) -> (r: Vec<u64>)
        ensures
            r@ == self@.hits.map_values(|h: (u64, u32)| h.0),
            in_reach(r@),
    {
        proof {
            use_type_invariant(self);
        }
        let mut out: Vec<u64> = Vec::new();
        let mut i: usize = 0;
        while i < self.hits.len()
            invariant
                i <= self.hits@.len(),
                out@ == self.hits@.take(i as int).map_values(|h: (u64, u32)| h.0),
                in_reach(out@),
                forall|i: int|
                    0 <= i < self.hits@.len() ==> (#[trigger] self.hits@[i]).0 <= ADDR_LIMIT + CHUNK,
            decreases self.hits@.len() - i,
        {
            out.push(self.hits[i].0);
            i = i + 1;
            assert(out@ =~= self.hits@.take(i as int).map_values(|h: (u64, u32)| h.0));
        }
        assert(self.hits@.take(i as int) =~= self.hits@);
        out
    }
}

/// A scan that got an answer to each of its reads, or as many as it asked for, holds
/// exactly the words in range, in the order of their addresses, up to its cap.
pub proof fn scan_finds_all(c: Comb, answers: Seq<Answer>)
    requires
        c.hits.len() < c.cap,
        answers.len() == c.todo.len(),
    ensures
        c.run(answers).hits == clip(
            c.hits + matches_over(c.todo, answers, c.lo, c.hi),
            c.cap,
        ),
    decreases answers.len(),
{
    if answers.len() == 0 {
        assert(c.hits + matches_over(c.todo, answers, c.lo, c.hi) =~= c.hits);
    } else {
        let this = matches_in(c.todo[0], answers[0], c.lo, c.hi);
        let rest = matches_over(c.todo.skip(1), answers.skip(1), c.lo, c.hi);
        assert(c.hits + (this + rest) =~= (c.hits + this) + rest);
        let next = c.step(answers[0]);
        if next.hits.len() >= c.cap {
            assert(next.run(answers.skip(1)).hits == next.hits);
            assert(clip(c.hits + this, c.cap) =~= clip((c.hits + this) + rest, c.cap));
        } else {
            scan_finds_all(next, answers.skip(1));
        }
    }
}

/// A word of a chunk is listed, with its address, exactly if it stands at an aligned
/// offset and lies in range.
pub proof fn word_is_listed(b: Seq<u8>, o: int, addr: int, lo: u32, hi: u32, i: int)
    requires
        0 <= o <= i,
        (i - o) % 4 == 0,
        i + 4 <= b.len(),
        0 <= addr,
        addr + b.len() <= u64::MAX,
    ensures
        matches_from(b, o, addr, lo, hi).contains(((addr + i) as u64, bytes::le32(b, i) as u32))
            <==> lo <= bytes::le32(b, i) <= hi,
    decreases b.len() - o,
{
    let w = bytes::le32(b, o);
    let rest = matches_from(b, o + 4, addr, lo, hi);
    let all = matches_from(b, o, addr, lo, hi);
    let x = ((addr + i) as u64, bytes::le32(b, i) as u32);
    later_words_stand_later(b, o + 4, addr, lo, hi);
    if i == o {
        if lo <= w <= hi {
            assert(all[0] == x);
        } else {
            assert(all =~= rest);
        }
    } else {
        word_is_listed(b, o + 4, addr, lo, hi, i);
        if lo <= w <= hi {
            assert(all =~= seq![((addr + o) as u64, w as u32)] + rest);
            if rest.contains(x) {
                let k = choose|k: int| 0 <= k < rest.len() && rest[k] == x;
                assert(all[k + 1] == x);
            }
            if all.contains(x) {
                let k = choose|k: int| 0 <= k < all.len() && all[k] == x;
                assert(k > 0);
                assert(rest[k - 1] == x);
            }
        } else {
            assert(all =~= rest);
        }
    }
}

proof fn later_words_stand_later(b: Seq<u8>, o: int, addr: int, lo: u32, hi: u32)
    requires
        0 <= o,
        0 <= addr,
        addr + b.len() <= u64::MAX,
    ensures
        forall|k: int|
            0 <= k < matches_from(b, o, addr, lo, hi).len() ==> (#[trigger] matches_from(
                b,
                o,
                addr,
                lo,
                hi,
            )[k]).0 >= addr + o,
    decreases b.len() - o,
{
    if o + 4 <= b.len() {
        later_words_stand_later(b, o + 4, addr, lo, hi);
        let rest = matches_from(b, o + 4, addr, lo, hi);
        let all = matches_from(b, o, addr, lo, hi);
        assert forall|k: int| 0 <= k < all.len() implies (#[trigger] all[k]).0 >= addr + o by {
            if all.len() == rest.len() {
                assert(all =~= rest);
                assert(all[k] == rest[k]);
            } else if k > 0 {
                assert(all[k] == rest[k - 1]);
            }
        }
    }
}

/// Keeps an address if it holds a value.
#[derive(Debug, Clone, Copy)]
pub struct Holds {
    pub value: i32,
}

impl Visit for Holds {
    type Hit = u64;

    open spec fn admits(&self, a: u64) -> bool {
        true
    }

    open spec fn seen(&self, rest: Seq<Exchange>, a: u64) -> Result<Option<u64>, Stop> {
        match memory::ask(rest, Read { addr: a, len: 4 }) {
            Err(stop) => Err(stop),
            Ok(b) => Ok(
                if bytes::le_i32(b, 0) == self.value {
                    Some(a)
                } else {
                    None
                },
            ),
        }
    }

    open spec fn seen_in(&self, mem: spec_fn(Read) -> Answer, a: u64) -> Option<u64> {
        match mem(Read { addr: a, len: 4 }) {
            Answer::Bytes(b) if bytes::le_i32(b, 0) == self.value => Some(a),
            _ => None,
        }
    }

    proof fn seen_is_true(&self, mem: spec_fn(Read) -> Answer, rest: Seq<Exchange>, a: u64) {
    }

    fn visit(&self, a: u64, tape: &mut Tape) -> (r: Result<Option<u64>, Stop>) {
        let b: Vec<u8> = tape.bytes(a, 4)?;
        if int_at(&b, 0) == self.value {
            Ok(Some(a))
        } else {
            Ok(None)
        }
    }
}

/// Keeps an address if it holds another value than before, with that value.
#[derive(Debug, Clone, Copy)]
pub struct Differs {
    pub was: i32,
}

impl Visit for Differs {
    type Hit = (u64, i32);

    open spec fn admits(&self, a: u64) -> bool {
        true
    }

    open spec fn seen(&self, rest: Seq<Exchange>, a: u64) -> Result<Option<(u64, i32)>, Stop> {
        match memory::ask(rest, Read { addr: a, len: 4 }) {
            Err(stop) => Err(stop),
            Ok(b) => Ok(
                if bytes::le_i32(b, 0) != self.was {
                    Some((a, bytes::le_i32(b, 0) as i32))
                } else {
                    None
                },
            ),
        }
    }

    open spec fn seen_in(&self, mem: spec_fn(Read) -> Answer, a: u64) -> Option<(u64, i32)> {
        match mem(Read { addr: a, len: 4 }) {
            Answer::Bytes(b) if bytes::le_i32(b, 0) != self.was => Some(
                (a, bytes::le_i32(b, 0) as i32),
            ),
            _ => None,
        }
    }

    proof fn seen_is_true(&self, mem: spec_fn(Read) -> Answer, rest: Seq<Exchange>, a: u64) {
    }

    fn visit(&self, a: u64, tape: &mut Tape) -> (r: Result<Option<(u64, i32)>, Stop>) {
        let b: Vec<u8> = tape.bytes(a, 4)?;
        let v: i32 = int_at(&b, 0);
        if v != self.was {
            let hit: (u64, i32) = (a, v);
            assert(hit@ == (a, bytes::le_i32(b@, 0) as i32));
            Ok(Some(hit))
        } else {
            Ok(None)
        }
    }
}

/// Keeps an address if the word after it is the one that marks a block.
#[derive(Debug, Clone, Copy)]
pub struct Marked {
    pub check: u32,
}

impl Visit for Marked {
    type Hit = u64;

    open spec fn admits(&self, a: u64) -> bool {
        a + 4 <= u64::MAX
    }

    open spec fn seen(&self, rest: Seq<Exchange>, a: u64) -> Result<Option<u64>, Stop> {
        match memory::ask_word(rest, (a + 4) as u64) {
            Err(stop) => Err(stop),
            Ok(w) => Ok(
                if w == self.check {
                    Some(a)
                } else {
                    None
                },
            ),
        }
    }

    open spec fn seen_in(&self, mem: spec_fn(Read) -> Answer, a: u64) -> Option<u64> {
        match mem(Read { addr: (a + 4) as u64, len: 4 }) {
            Answer::Bytes(b) if bytes::le32(b, 0) == self.check => Some(a),
            _ => None,
        }
    }

    proof fn seen_is_true(&self, mem: spec_fn(Read) -> Answer, rest: Seq<Exchange>, a: u64) {
    }

    fn visit(&self, a: u64, tape: &mut Tape) -> (r: Result<Option<u64>, Stop>) {
        let w: u32 = tape.word(a + 4)?;
        if w == self.check {
            Ok(Some(a))
        } else {
            Ok(None)
        }
    }
}

/// Starts keeping only the candidates that now hold `value`.
pub fn scan_filter(cands: Vec<u64>, value: i32) -> (s: Sweep<Holds>)
    ensures
        s@ == sweep::Pass::start(Holds { value }, cands@, false),
{
    Sweep::start(Holds { value }, cands, false)
}

/// Starts keeping the candidates whose value is no longer `was`, with their new values.
pub fn scan_changed(cands: Vec<u64>, was: i32) -> (s: Sweep<Differs>)
    ensures
        s@ == sweep::Pass::start(Differs { was }, cands@, false),
{
    Sweep::start(Differs { was }, cands, false)
}

/// The first place from `i` to `last`, in steps of four, at which `v` stands.
pub open spec fn place_from(b: Seq<u8>, i: int, last: int, v: i32) -> Option<int>
    decreases last + 4 - i,
{
    if i > last {
        None
    } else if bytes::le_i32(b, i) == v {
        Some(i)
    } else {
        place_from(b, i + 4, last, v)
    }
}

/// Where `v` is found in a block whose candidate stands at `mid`: at the first of the words
/// that are counted from the block's start, else at the first of those that are counted
/// from the candidate.
pub open spec fn place_of(b: Seq<u8>, mid: int, last: int, v: i32) -> Option<int> {
    match place_from(b, 0, last, v) {
        Some(i) => Some(i),
        None => place_from(b, mid % 4, last, v),
    }
}

/// Each value with the offset from the candidate at which it is found, where all of them
/// are.
pub open spec fn places(b: Seq<u8>, values: Seq<i32>, mid: int, last: int) -> Option<
    Seq<(i32, i32)>,
>
    decreases values.len(),
{
    if values.len() == 0 {
        Some(seq![])
    } else {
        match places(b, values.drop_last(), mid, last) {
            None => None,
            Some(s) => match place_of(b, mid, last, values.last()) {
                None => None,
                Some(i) => Some(s.push((values.last(), bytes::low32(i - mid) as i32))),
            },
        }
    }
}

/// Where the block around `a` starts; none starts below zero.
pub open spec fn block_start(a: u64, window: usize) -> int {
    if a < window {
        0
    } else {
        a - window
    }
}

/// Where the candidate `a` stands in the block around it.
pub open spec fn middle(a: u64, window: usize) -> int {
    a - block_start(a, window)
}

/// Keeps an address if all of `values` stand within `window` bytes of it, with where.
#[derive(Debug)]
pub struct Around {
    pub values: Vec<i32>,
    pub window: usize,
}

impl Around {
    /// The read that brings the block around `a`.
    pub open spec fn block(&self, a: u64) -> Read {
        Read { addr: block_start(a, self.window) as u64, len: (2 * self.window + 4) as usize }
    }

    /// Where the values are found in that block.
    pub open spec fn places_in(&self, b: Seq<u8>, a: u64) -> Option<Seq<(i32, i32)>> {
        let mid = middle(a, self.window);
        places(b, self.values@, mid, mid + self.window)
    }
}

impl Visit for Around {
    type Hit = (u64, Vec<(i32, i32)>);

    open spec fn admits(&self, a: u64) -> bool {
        2 * self.window + 4 <= isize::MAX && a + self.window + 4 <= i64::MAX
    }

    open spec fn seen(&self, rest: Seq<Exchange>, a: u64) -> Result<
        Option<(u64, Seq<(i32, i32)>)>,
        Stop,
    > {
        match memory::ask(rest, self.block(a)) {
            Err(stop) => Err(stop),
            Ok(b) => match self.places_in(b, a) {
                Some(s) => Ok(Some((a, s))),
                None => Ok(None),
            },
        }
    }

    open spec fn seen_in(&self, mem: spec_fn(Read) -> Answer, a: u64) -> Option<
        (u64, Seq<(i32, i32)>),
    > {
        match mem(self.block(a)) {
            Answer::Bytes(b) => match self.places_in(b, a) {
                Some(s) => Some((a, s)),
                None => None,
            },
            Answer::Failed(_) => None,
        }
    }

    proof fn seen_is_true(&self, mem: spec_fn(Read) -> Answer, rest: Seq<Exchange>, a: u64) {
    }

    fn visit(&self, a: u64, tape: &mut Tape) -> (r: Result<Option<(u64, Vec<(i32, i32)>)>, Stop>) {
        let lo: u64 = if a < self.window as u64 {
            0
        } else {
            a - self.window as u64
        };
        let b: Vec<u8> = tape.bytes(lo, 2 * self.window + 4)?;
        match find_places(&b, &self.values, (a - lo) as usize, self.window) {
            Some(s) => Ok(Some((a, s))),
            None => Ok(None),
        }
    }
}

fn find_place(b: &Vec<u8>, from: usize, last: usize, v: i32) -> (r: Option<usize>)
    requires
        from <= 4,
        last + 4 <= b@.len() <= isize::MAX,
    ensures
        match r {
            Some(i) => place_from(b@, from as int, last as int, v) == Some(i as int) && i <= last,
            None => place_from(b@, from as int, last as int, v) is None,
        },
{
    let mut i: usize = from;
    while i <= last && int_at(b, i) != v
        invariant
            i <= last + 4,
            last + 4 <= b@.len() <= isize::MAX,
            place_from(b@, i as int, last as int, v) == place_from(
                b@,
                from as int,
                last as int,
                v,
            ),
        decreases last + 4 - i,
    {
        i = i + 4;
    }
    if i <= last {
        Some(i)
    } else {
        None
    }
}

fn find_places(b: &Vec<u8>, values: &Vec<i32>, mid: usize, window: usize) -> (r: Option<
    Vec<(i32, i32)>,
>)
    requires
        mid + window + 4 <= b@.len() <= isize::MAX,
    ensures
        match r {
            Some(v) => places(b@, values@, mid as int, mid + window) == Some(v@),
            None => places(b@, values@, mid as int, mid + window) is None,
        },
{
    let last: usize = mid + window;
    let mut out: Vec<(i32, i32)> = Vec::new();
    let mut k: usize = 0;
    let mut all: bool = true;
    while k < values.len() && all
        invariant
            k <= values@.len(),
            mid <= last,
            last + 4 <= b@.len() <= isize::MAX,
            all ==> places(b@, values@.take(k as int), mid as int, last as int) == Some(out@),
            !all ==> places(b@, values@.take(k as int), mid as int, last as int) is None,
        decreases values@.len() - k,
    {
        assert(values@.take(k + 1).drop_last() =~= values@.take(k as int));
        let v: i32 = values[k];
        let first: Option<usize> = find_place(b, 0, last, v);
        let place: Option<usize> = match first {
            Some(i) => Some(i),
            None => find_place(b, mid % 4, last, v),
        };
        match place {
            Some(i) => {
                out.push((v, narrow(i as i64 - mid as i64)));
            },
            None => {
                all = false;
            },
        }
        k = k + 1;
    }
    if all {
        assert(values@.take(k as int) =~= values@);
        Some(out)
    } else {
        proof {
            places_stay_missing(b@, values@, k as int, mid as int, last as int);
        }
        None
    }
}

/// Where a value is missing, no further value mends it.
proof fn places_stay_missing(b: Seq<u8>, values: Seq<i32>, k: int, mid: int, last: int)
    requires
        0 <= k <= values.len(),
        places(b, values.take(k), mid, last) is None,
    ensures
        places(b, values, mid, last) is None,
    decreases values.len() - k,
{
    if k < values.len() {
        assert(values.take(k + 1).drop_last() =~= values.take(k));
        places_stay_missing(b, values, k + 1, mid, last);
    } else {
        assert(values.take(k) =~= values);
    }
}

/// Starts keeping the candidates that have all of `values` within `window` bytes on
/// either side. Words are counted from the start of the window and from the candidate
/// itself, which is the same where the window is a multiple of four.
///
/// Related numbers stand together in one structure, so several known ones narrow the
/// candidates without anything having to change.
pub fn scan_context(cands: Vec<u64>, values: Vec<i32>, window: usize) -> (s: Sweep<Around>)
    requires
        2 * window + 4 <= isize::MAX,
        forall|i: int| 0 <= i < cands@.len() ==> #[trigger] cands@[i] + window + 4 <= i64::MAX,
    ensures
        s@ == sweep::Pass::start(Around { values, window }, cands@, false),
{
    Sweep::start(Around { values, window }, cands, false)
}

/// The integers of a block.
pub open spec fn ints_of(b: Seq<u8>) -> Seq<i32> {
    Seq::new((b.len() / 4) as nat, |i: int| bytes::le_i32(b, 4 * i) as i32)
}

/// Reads `words` integers from `addr` on.
pub fn read_window(addr: u64, words: usize, tape: &mut Tape) -> (r: Result<Vec<i32>, Stop>)
    requires
        4 * words <= usize::MAX,
    ensures
        final(tape).all() == old(tape).all(),
        match memory::ask(old(tape).rest(), Read { addr, len: (4 * words) as usize }) {
            Ok(b) => r matches Ok(v) && v@ == ints_of(b) && v@.len() == words,
            Err(stop) => r matches Err(e) && e == stop,
        },
{
    let b: Vec<u8> = tape.bytes(addr, words * 4)?;
    let mut out: Vec<i32> = Vec::new();
    let mut i: usize = 0;
    while i < words
        invariant
            i <= words,
            b@.len() == 4 * words <= usize::MAX,
            out@ == ints_of(b@).take(i as int),
        decreases words - i,
    {
        out.push(int_at(&b, 4 * i));
        i = i + 1;
        assert(out@ =~= ints_of(b@).take(i as int));
    }
    assert(ints_of(b@).take(i as int) =~= ints_of(b@));
    Ok(out)
}

/// Whether an address holds a value in a memory.
pub open spec fn holds_in(mem: spec_fn(Read) -> Answer, a: u64, value: i32) -> bool {
    mem((Read { addr: a, len: 4 })) matches Answer::Bytes(b) && bytes::le_i32(b, 0) == value
}

/// Narrowing to a value keeps exactly the candidates that now hold it: an address stays
/// only if it held the old value and then the new one.
pub proof fn filter_keeps_exactly(
    cands: Seq<u64>,
    value: i32,
    mem: spec_fn(Read) -> Answer,
    a: u64,
)
    ensures
        sweep::hits_in((Holds { value }), cands, false, 0, mem).contains(a) <==> (cands.contains(a)
            && holds_in(mem, a, value)),
{
    sweep::hits_are_of_candidates((Holds { value }), cands, 0, mem, a);
    if cands.contains(a) && holds_in(mem, a, value) {
        let i = choose|i: int| 0 <= i < cands.len() && cands[i] == a;
        assert((Holds { value }).seen_in(mem, cands[i]) == Some(a));
    }
}

/// Narrowing to what has changed keeps exactly the candidates that now hold another value
/// than before, each with that value.
pub proof fn changed_keeps_exactly(
    cands: Seq<u64>,
    was: i32,
    mem: spec_fn(Read) -> Answer,
    a: u64,
    now: i32,
)
    ensures
        sweep::hits_in((Differs { was }), cands, false, 0, mem).contains((a, now)) <==> (
        cands.contains(a) && holds_in(mem, a, now) && now != was),
{
    sweep::hits_are_of_candidates((Differs { was }), cands, 0, mem, (a, now));
    if cands.contains(a) && holds_in(mem, a, now) && now != was {
        let i = choose|i: int| 0 <= i < cands.len() && cands[i] == a;
        assert((Differs { was }).seen_in(mem, cands[i]) == Some((a, now)));
    }
}

/// The word at offset `o` from `a`, in the block around `a`.
pub open spec fn word_around(b: Seq<u8>, a: u64, window: usize, o: int) -> int {
    bytes::le_i32(b, middle(a, window) + o)
}

/// Whether a word at offset `o` from `a` is one of those that are counted from the start
/// of the window.
pub open spec fn from_start(a: u64, window: usize, o: int) -> bool {
    (middle(a, window) + o) % 4 == 0
}

/// Whether a word at offset `o` from `a` is looked at: it lies within the window, and is
/// counted from its start or from `a` itself.
pub open spec fn in_window(a: u64, window: usize, o: int) -> bool {
    -window <= o <= window && a + o >= 0 && (from_start(a, window, o) || o % 4 == 0)
}

/// Whether a value stands at offset `o` from `a`, within the window.
pub open spec fn stands_at(b: Seq<u8>, a: u64, window: usize, v: i32, o: int) -> bool {
    in_window(a, window, o) && word_around(b, a, window, o) == v
}

/// Whether a value stands within the window around `a`.
pub open spec fn stands_around(b: Seq<u8>, a: u64, window: usize, v: i32) -> bool {
    exists|o: int| #[trigger] stands_at(b, a, window, v, o)
}

/// Whether offset `o` is the one that is reported for a value: the first of the words that
/// are counted from the window's start, else the first of the others.
pub open spec fn is_reported_at(b: Seq<u8>, a: u64, window: usize, v: i32, o: int) -> bool {
    &&& stands_at(b, a, window, v, o)
    &&& forall|p: int| #[trigger]
        stands_at(b, a, window, v, p) ==> if from_start(a, window, o) {
            from_start(a, window, p) ==> o <= p
        } else {
            !from_start(a, window, p) && o <= p
        }
}

proof fn place_is_no_later(b: Seq<u8>, i: int, last: int, v: i32, j: int)
    requires
        i <= j <= last,
        (j - i) % 4 == 0,
        bytes::le_i32(b, j) == v,
    ensures
        place_from(b, i, last, v) matches Some(k) && k <= j,
    decreases j - i,
{
    if i < j {
        place_is_no_later(b, i + 4, last, v, j);
    }
}

proof fn place_is_in_steps(b: Seq<u8>, i: int, last: int, v: i32)
    ensures
        place_from(b, i, last, v) matches Some(k) ==> i <= k <= last && (k - i) % 4 == 0
            && bytes::le_i32(b, k) == v,
    decreases last + 4 - i,
{
    if i <= last && bytes::le_i32(b, i) != v {
        place_is_in_steps(b, i + 4, last, v);
    }
}

proof fn standing_value_is_found(b: Seq<u8>, a: u64, window: usize, v: i32, p: int)
    requires
        stands_at(b, a, window, v, p),
    ensures
        ({
            let mid = middle(a, window);
            let last = mid + window;
            if from_start(a, window, p) {
                place_from(b, 0, last, v) matches Some(k) && k <= mid + p
            } else {
                place_from(b, mid % 4, last, v) matches Some(k) && k <= mid + p
            }
        }),
{
    let mid = middle(a, window);
    let last = mid + window;
    if from_start(a, window, p) {
        place_is_no_later(b, 0, last, v, mid + p);
    } else {
        assert((mid + p - mid % 4) % 4 == 0);
        place_is_no_later(b, mid % 4, last, v, mid + p);
    }
}

proof fn place_is_offset(b: Seq<u8>, a: u64, window: usize, v: i32)
    ensures
        match place_of(b, middle(a, window), middle(a, window) + window, v) {
            Some(i) => is_reported_at(b, a, window, v, i - middle(a, window)),
            None => !stands_around(b, a, window, v),
        },
{
    let mid = middle(a, window);
    let last = mid + window;
    let grid = place_from(b, 0, last, v);
    let own = place_from(b, mid % 4, last, v);
    place_is_in_steps(b, 0, last, v);
    place_is_in_steps(b, mid % 4, last, v);
    assert forall|p: int| #[trigger] stands_at(b, a, window, v, p) implies (if from_start(
        a,
        window,
        p,
    ) {
        grid matches Some(k) && k <= mid + p
    } else {
        own matches Some(k) && k <= mid + p
    }) by {
        standing_value_is_found(b, a, window, v, p);
    }
    if let Some(i) = place_of(b, mid, last, v) {
        let o = i - mid;
        if grid is None {
            assert((i - mid % 4) % 4 == 0);
            assert(o % 4 == 0);
        }
        assert(stands_at(b, a, window, v, o));
    }
}

/// A block around an address has a place for each of the values exactly if each stands in
/// the window, and tells the reported place of each.
pub proof fn places_are_in_window(b: Seq<u8>, a: u64, window: usize, values: Seq<i32>)
    requires
        window <= i32::MAX,
    ensures
        match places(b, values, middle(a, window), middle(a, window) + window) {
            Some(found) => {
                &&& found.len() == values.len()
                &&& forall|k: int|
                    0 <= k < found.len() ==> (#[trigger] found[k]).0 == values[k]
                        && is_reported_at(b, a, window, values[k], found[k].1 as int)
            },
            None => exists|k: int|
                0 <= k < values.len() && !stands_around(b, a, window, #[trigger] values[k]),
        },
    decreases values.len(),
{
    if values.len() > 0 {
        let mid = middle(a, window);
        let last = mid + window;
        let v = values.last();
        let fewer = values.drop_last();
        places_are_in_window(b, a, window, fewer);
        place_is_offset(b, a, window, v);
        match places(b, fewer, mid, last) {
            None => {
                let k = choose|k: int|
                    0 <= k < fewer.len() && !stands_around(b, a, window, #[trigger] fewer[k]);
                assert(values[k] == fewer[k]);
            },
            Some(s) => match place_of(b, mid, last, v) {
                None => {
                    assert(values[values.len() - 1] == v);
                },
                Some(i) => {
                    let o = i - mid;
                    assert(stands_at(b, a, window, v, o));
                    let found = s.push((v, o as i32));
                    assert forall|k: int| 0 <= k < found.len() implies (#[trigger] found[k]).0
                        == values[k] && is_reported_at(
                        b,
                        a,
                        window,
                        values[k],
                        found[k].1 as int,
                    ) by {
                        if k < s.len() {
                            assert(found[k] == s[k]);
                            assert(values[k] == fewer[k]);
                        }
                    }
                },
            },
        }
    }
}

/// Where a window is a multiple of four, the words in it are those that are counted from
/// the candidate, whose first is reported.
pub proof fn even_window_is_counted_from_candidate(a: u64, window: usize, o: int)
    requires
        window % 4 == 0,
        window <= a,
    ensures
        in_window(a, window, o) <==> -window <= o <= window && o % 4 == 0,
        o % 4 == 0 <==> from_start(a, window, o),
{
}

/// Whether `found` tells the reported place of each of the values in the window around `a`.
pub open spec fn found_around(
    mem: spec_fn(Read) -> Answer,
    a: u64,
    visit: Around,
    found: Seq<(i32, i32)>,
) -> bool {
    &&& mem(visit.block(a)) matches Answer::Bytes(b)
    &&& found.len() == visit.values@.len()
    &&& forall|k: int|
        0 <= k < found.len() ==> (#[trigger] found[k]).0 == visit.values@[k] && is_reported_at(
            b,
            a,
            visit.window,
            visit.values@[k],
            found[k].1 as int,
        )
}

/// Whether the block around `a` can be read and each of the values stands in the window.
pub open spec fn all_around(mem: spec_fn(Read) -> Answer, a: u64, visit: Around) -> bool {
    &&& mem(visit.block(a)) matches Answer::Bytes(b)
    &&& forall|k: int|
        0 <= k < visit.values@.len() ==> stands_around(
            b,
            a,
            visit.window,
            #[trigger] visit.values@[k],
        )
}

/// In a memory that stays still, a candidate has a hit exactly if each value stands in the
/// window around it, and the hit tells the reported place of each.
pub proof fn context_is_of_window(visit: Around, mem: spec_fn(Read) -> Answer, a: u64)
    requires
        memory::still(mem),
        visit.admits(a),
        visit.window <= i32::MAX,
    ensures
        match visit.seen_in(mem, a) {
            Some(h) => h.0 == a && found_around(mem, a, visit, h.1) && all_around(mem, a, visit),
            None => !all_around(mem, a, visit),
        },
{
    assert(mem(visit.block(a)).fits(visit.block(a)));
    if let Answer::Bytes(b) = mem(visit.block(a)) {
        places_are_in_window(b, a, visit.window, visit.values@);
        if let Some(found) = visit.places_in(b, a) {
            assert forall|k: int| 0 <= k < visit.values@.len() implies stands_around(
                b,
                a,
                visit.window,
                #[trigger] visit.values@[k],
            ) by {
                assert(found[k].0 == visit.values@[k]);
                assert(stands_at(b, a, visit.window, visit.values@[k], found[k].1 as int));
            }
        }
    }
}

/// Narrowing by context keeps exactly the candidates that have all of the values as words
/// within the window, each with the reported place of every value.
pub proof fn context_keeps_exactly(
    visit: Around,
    cands: Seq<u64>,
    mem: spec_fn(Read) -> Answer,
    a: u64,
    found: Seq<(i32, i32)>,
)
    requires
        memory::still(mem),
        visit.admits(a),
        visit.window <= i32::MAX,
    ensures
        sweep::hits_in(visit, cands, false, 0, mem).contains((a, found)) <==> (cands.contains(a)
            && found_around(mem, a, visit, found)),
{
    sweep::hits_are_of_candidates(visit, cands, 0, mem, (a, found));
    context_is_of_window(visit, mem, a);
    if cands.contains(a) && found_around(mem, a, visit, found) {
        let i = choose|i: int| 0 <= i < cands.len() && cands[i] == a;
        let b = mem(visit.block(a))->Bytes_0;
        assert forall|k: int| 0 <= k < visit.values@.len() implies stands_around(
            b,
            a,
            visit.window,
            #[trigger] visit.values@[k],
        ) by {
            assert(found[k].0 == visit.values@[k]);
            assert(stands_at(b, a, visit.window, visit.values@[k], found[k].1 as int));
        }
        let h = visit.seen_in(mem, a)->0;
        assert forall|k: int| 0 <= k < found.len() implies #[trigger] found[k] == h.1[k] by {
            assert(h.1[k].0 == visit.values@[k]);
            assert(found[k].0 == visit.values@[k]);
            assert(stands_at(b, a, visit.window, visit.values@[k], found[k].1 as int));
            assert(stands_at(b, a, visit.window, visit.values@[k], h.1[k].1 as int));
        }
        assert(found =~= h.1);
        assert(visit.seen_in(mem, cands[i]) == Some((a, found)));
    }
    if exists|i: int|
        0 <= i < cands.len() && #[trigger] visit.seen_in(mem, cands[i]) == Some((a, found)) {
        let i = choose|i: int|
            0 <= i < cands.len() && #[trigger] visit.seen_in(mem, cands[i]) == Some((a, found));
        assert(cands[i] == a);
    }
}

/// The place that a search in steps of four ends at is the first at which the value stands.
pub proof fn place_is_first(b: Seq<u8>, i: int, last: int, v: i32)
    ensures
        match place_from(b, i, last, v) {
            Some(k) => {
                &&& i <= k <= last
                &&& (k - i) % 4 == 0
                &&& bytes::le_i32(b, k) == v
                &&& forall|j: int|
                    i <= j < k && (j - i) % 4 == 0 ==> #[trigger] bytes::le_i32(b, j) != v
            },
            None => forall|j: int|
                i <= j <= last && (j - i) % 4 == 0 ==> #[trigger] bytes::le_i32(b, j) != v,
        },
    decreases last + 4 - i,
{
    if i <= last && bytes::le_i32(b, i) != v {
        place_is_first(b, i + 4, last, v);
        assert forall|j: int| i < j && #[trigger] ((j - i) % 4) == 0 implies i + 4 <= j && (j - (i
            + 4)) % 4 == 0 by {}
        let end = match place_from(b, i, last, v) {
            Some(k) => k,
            None => last + 1,
        };
        assert forall|j: int| i <= j < end && (j - i) % 4 == 0 implies #[trigger] bytes::le_i32(b, j)
            != v by {
            if j > i {
                assert((j - i) % 4 == 0);
                assert((j - (i + 4)) % 4 == 0);
            }
        }
    }
}

} // verus!
