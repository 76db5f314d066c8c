//! Walking address ranges in chunks.

use crate::memory::Read;
use vstd::prelude::*;

verus! {

/// How a region is cut into reads: `chunk` bytes at a time, each read starting `step`
/// bytes after the one before, none starting beyond `limit`.
#[derive(Debug, Clone, Copy, PartialEq, Eq, Structural)]
pub struct Cut {
    pub chunk: usize,
    pub step: usize,
    pub limit: u64,
}

impl Cut {
    /// Every read makes progress and leaves no byte out.
    pub open spec fn valid(self) -> bool {
        0 < self.step <= self.chunk
    }
}

/// Where the read after the one at `at` starts; the region's end where none is left.
pub open spec fn after(at: int, end: int, cut: Cut) -> int {
    if end - at <= cut.step {
        end
    } else {
        at + cut.step
    }
}

/// The reads that cover a region from `at` on.
pub open spec fn reads_of(at: int, end: int, cut: Cut) -> Seq<Read>
    decreases end - at,
{
    if at < end && at <= cut.limit && cut.step > 0 {
        let len = if end - at < cut.chunk {
            end - at
        } else {
            cut.chunk as int
        };
        seq![Read { addr: at as u64, len: len as usize }] + reads_of(after(at, end, cut), end, cut)
    } else {
        seq![]
    }
}

/// The reads that cover the regions, in order.
pub open spec fn reads_over(regions: Seq<(u64, u64)>, cut: Cut) -> Seq<Read>
    decreases regions.len(),
{
    if regions.len() == 0 {
        seq![]
    } else {
        reads_of(regions[0].0 as int, regions[0].1 as int, cut) + reads_over(regions.skip(1), cut)
    }
}

/// A walk over regions, standing before one of its reads.
#[derive(Debug)]
pub struct Walk {
    regions: Vec<(u64, u64)>,
    cut: Cut,
    region: usize,
    at: u64,
}

impl Walk {
    #[verifier::type_invariant]
    spec fn sound(self) -> bool {
        &&& self.cut.valid()
        &&& self.region <= self.regions@.len()
        &&& self.region < self.regions@.len() ==> self.at < self.regions@[self.region as int].1
            && self.at <= self.cut.limit
    }

    /// The reads that are still to be performed.
    pub closed spec fn todo(self) -> Seq<Read> {
        if self.region < self.regions@.len() {
            reads_of(self.at as int, self.regions@[self.region as int].1 as int, self.cut)
                + reads_over(self.regions@.skip(self.region + 1), self.cut)
        } else {
            seq![]
        }
    }

    /// How the regions are cut.
    pub closed spec fn cuts(self) -> Cut {
        self.cut
    }

    /// A walk over `regions`, standing before its first read.
    pub fn new(regions: Vec<(u64, u64)>, cut: Cut) -> (w: Walk)
        requires
            cut.valid(),
        ensures
            w.todo() == reads_over(regions@, cut),
            w.cuts() == cut,
    {
        assert(regions@.skip(0) =~= regions@);
        settle(regions, cut, 0)
    }

    /// The next read.
    pub fn current(&self) -> (r: Option<Read>)
        ensures
            match r {
                Some(q) => {
                    &&& self.todo().len() > 0
                    &&& q == self.todo()[0]
                    &&& 0 < q.len <= self.cuts().chunk
                    &&& q.addr <= self.cuts().limit
                    &&& q.addr + q.len <= u64::MAX
                },
                None => self.todo().len() == 0,
            },
    {
        proof {
            use_type_invariant(self);
        }
        if self.region < self.regions.len() {
            let end: u64 = self.regions[self.region].1;
            let left: u64 = end - self.at;
            let len: usize = if left < self.cut.chunk as u64 {
                left as usize
            } else {
                self.cut.chunk
            };
            Some(Read { addr: self.at, len })
        } else {
            None
        }
    }

    /// Moves on to the read after the current one.
    pub fn advance(self) -> (w: Walk)
        requires
            self.todo().len() > 0,
        ensures
            w.todo() == self.todo().skip(1),
            w.cuts() == self.cuts(),
    {
        proof {
            use_type_invariant(&self);
        }
        let _n: usize = self.regions.len();
        let end: u64 = self.regions[self.region].1;
        let ghost rest = reads_over(self.regions@.skip(self.region + 1), self.cut);
        let ghost first = self.todo()[0];
        let ghost next = after(self.at as int, end as int, self.cut);
        proof {
            assert(self.todo() =~= seq![first] + (reads_of(next, end as int, self.cut) + rest));
            assert(self.todo().skip(1) =~= reads_of(next, end as int, self.cut) + rest);
        }
        if end - self.at > self.cut.step as u64 {
            let at: u64 = self.at + self.cut.step as u64;
            if at <= self.cut.limit {
                return Walk { regions: self.regions, cut: self.cut, region: self.region, at };
            }
        }
        assert(reads_of(next, end as int, self.cut) =~= Seq::<Read>::empty());
        assert(Seq::<Read>::empty() + rest =~= rest);
        settle(self.regions, self.cut, self.region + 1)
    }
}

/// A walk that stands before the first read in the regions from `from` on.
fn settle(regions: Vec<(u64, u64)>, cut: Cut, from: usize) -> (w: Walk)
    requires
        cut.valid(),
        from <= regions@.len(),
    ensures
        w.todo() == reads_over(regions@.skip(from as int), cut),
        w.cuts() == cut,
{
    let mut k: usize = from;
    while k < regions.len() && !(regions[k].0 < regions[k].1 && regions[k].0 <= cut.limit)
        invariant
            from <= k <= regions@.len(),
            reads_over(regions@.skip(k as int), cut) == reads_over(regions@.skip(from as int), cut),
        decreases regions@.len() - k,
    {
        proof {
            let here = regions@.skip(k as int);
            assert(here.skip(1) =~= regions@.skip(k + 1));
            assert(reads_of(here[0].0 as int, here[0].1 as int, cut) =~= Seq::<Read>::empty());
            assert(Seq::<Read>::empty() + reads_over(here.skip(1), cut) =~= reads_over(here.skip(1), cut));
        }
        k = k + 1;
    }
    let mut at: u64 = 0;
    if k < regions.len() {
        at = regions[k].0;
        assert(regions@.skip(k as int).skip(1) =~= regions@.skip(k + 1));
    }
    Walk { regions, cut, region: k, at }
}

/// Every byte of a region, up to the limit, lies inside one of the region's reads.
pub proof fn reads_cover(at: int, end: int, cut: Cut, a: int) -> (i: int)
    requires
        cut.valid(),
        0 <= at <= a < end <= u64::MAX,
        a <= cut.limit,
    ensures
        0 <= i < reads_of(at, end, cut).len(),
        reads_of(at, end, cut)[i].addr <= a < reads_of(at, end, cut)[i].addr + reads_of(at, end, cut)[i].len,
    decreases end - at,
{
    let next = after(at, end, cut);
    let len = if end - at < cut.chunk {
        end - at
    } else {
        cut.chunk as int
    };
    if a < at + len {
        assert(reads_of(at, end, cut)[0] == Read { addr: at as u64, len: len as usize });
        0
    } else {
        let j = reads_cover(next, end, cut, a);
        assert(reads_of(at, end, cut)[j + 1] == reads_of(next, end, cut)[j]);
        j + 1
    }
}

/// No read leaves its region.
pub proof fn reads_stay_inside(at: int, end: int, cut: Cut, i: int)
    requires
        cut.valid(),
        0 <= at,
        end <= u64::MAX,
        0 <= i < reads_of(at, end, cut).len(),
    ensures
        at <= reads_of(at, end, cut)[i].addr <= cut.limit,
        0 < reads_of(at, end, cut)[i].len <= cut.chunk,
        reads_of(at, end, cut)[i].addr + reads_of(at, end, cut)[i].len <= end,
    decreases end - at,
{
    if i > 0 {
        let next = after(at, end, cut);
        assert(reads_of(at, end, cut)[i] == reads_of(next, end, cut)[i - 1]);
        reads_stay_inside(next, end, cut, i - 1);
    }
}

/// Where reads overlap by `n` bytes, every stretch of `n` bytes in a region lies whole
/// inside one of the region's reads.
pub proof fn reads_hold_stretches(at: int, end: int, cut: Cut, a: int, n: int) -> (i: int)
    requires
        cut.valid(),
        0 < n,
        cut.step + n <= cut.chunk,
        0 <= at <= a,
        a + n <= end <= u64::MAX,
        a <= cut.limit,
    ensures
        0 <= i < reads_of(at, end, cut).len(),
        reads_of(at, end, cut)[i].addr <= a,
        a + n <= reads_of(at, end, cut)[i].addr + reads_of(at, end, cut)[i].len,
    decreases end - at,
{
    let next = after(at, end, cut);
    let len = if end - at < cut.chunk {
        end - at
    } else {
        cut.chunk as int
    };
    if a + n <= at + len {
        assert(reads_of(at, end, cut)[0] == Read { addr: at as u64, len: len as usize });
        0
    } else {
        let j = reads_hold_stretches(next, end, cut, a, n);
        assert(reads_of(at, end, cut)[j + 1] == reads_of(next, end, cut)[j]);
        j + 1
    }
}

/// Where reads follow each other without overlap, a stretch of `n` bytes that does not
/// straddle the edge of a chunk lies whole inside one of the region's reads.
pub proof fn reads_hold_whole_stretches(at: int, end: int, cut: Cut, a: int, n: int) -> (i: int)
    requires
        cut.valid(),
        cut.step == cut.chunk,
        0 < n,
        0 <= at <= a,
        a + n <= end <= u64::MAX,
        a <= cut.limit,
        (a - at) % (cut.chunk as int) + n <= cut.chunk,
    ensures
        0 <= i < reads_of(at, end, cut).len(),
        a - reads_of(at, end, cut)[i].addr == (a - at) % (cut.chunk as int),
        a + n <= reads_of(at, end, cut)[i].addr + reads_of(at, end, cut)[i].len,
    decreases end - at,
{
    let chunk = cut.chunk as int;
    let next = after(at, end, cut);
    let len = if end - at < chunk {
        end - at
    } else {
        chunk
    };
    if a - at < chunk {
        vstd::arithmetic::div_mod::lemma_small_mod((a - at) as nat, chunk as nat);
        assert(reads_of(at, end, cut)[0] == Read { addr: at as u64, len: len as usize });
        0
    } else {
        vstd::arithmetic::div_mod::lemma_mod_add_multiples_vanish(a - next, chunk);
        assert(a - at == chunk + (a - next));
        let j = reads_hold_whole_stretches(next, end, cut, a, n);
        assert(reads_of(at, end, cut)[j + 1] == reads_of(next, end, cut)[j]);
        j + 1
    }
}

/// The reads of a region start one step after the other, and reach as far as a chunk does
/// or to the region's end.
pub proof fn reads_start_in_steps(at: int, end: int, cut: Cut, i: int)
    requires
        cut.valid(),
        0 <= at,
        end <= u64::MAX,
        0 <= i < reads_of(at, end, cut).len(),
    ensures
        reads_of(at, end, cut)[i].addr == at + i * cut.step,
        reads_of(at, end, cut)[i].addr + reads_of(at, end, cut)[i].len <= end,
        0 < reads_of(at, end, cut)[i].len <= cut.chunk,
    decreases end - at,
{
    let next = after(at, end, cut);
    let len = if end - at < cut.chunk {
        end - at
    } else {
        cut.chunk as int
    };
    assert(reads_of(at, end, cut) == seq![Read { addr: at as u64, len: len as usize }] + reads_of(
        next,
        end,
        cut,
    ));
    if i > 0 {
        assert(reads_of(at, end, cut)[i] == reads_of(next, end, cut)[i - 1]);
        if next == end {
            assert(reads_of(next, end, cut).len() == 0);
        }
        reads_start_in_steps(next, end, cut, i - 1);
        assert(cut.step + (i - 1) * cut.step == i * cut.step) by (nonlinear_arith);
    } else {
        assert(0 * cut.step == 0);
    }
}

} // verus!
