//! Going through a list of addresses, with a few reads at each.

use crate::memory;
use crate::memory::{Answer, Exchange, Read, Reply, Stop, Tape};
use vstd::prelude::*;

verus! {

/// What is done at each address.
pub trait Visit: Sized {
    /// What a visit may bring.
    type Hit: View;

    /// Addresses that can be visited.
    spec fn admits(&self, a: u64) -> bool;

    /// What a tape says of the visit to `a`.
    spec fn seen(&self, rest: Seq<Exchange>, a: u64) -> Result<Option<<Self::Hit as View>::V>, Stop>;

    /// What a visit to `a` in a memory brings.
    spec fn seen_in(&self, mem: spec_fn(Read) -> Answer, a: u64) -> Option<<Self::Hit as View>::V>;

    /// What a tape that was recorded from a memory says of a visit is what the visit
    /// brings in that memory; one that fails brings nothing.
    proof fn seen_is_true(&self, mem: spec_fn(Read) -> Answer, rest: Seq<Exchange>, a: u64)
        requires
            memory::faithful(rest, mem),
        ensures
            match self.seen(rest, a) {
                Ok(h) => self.seen_in(mem, a) == h,
                Err(Stop::Fail(_)) => self.seen_in(mem, a) is None,
                Err(Stop::Need(_)) => true,
            },
    ;

    /// Visits `a`.
    fn visit(&self, a: u64, tape: &mut Tape) -> (r: Result<Option<Self::Hit>, Stop>)
        requires
            self.admits(a),
        ensures
            final(tape).all() == old(tape).all(),
            match self.seen(old(tape).rest(), a) {
                Ok(Some(h)) => r matches Ok(Some(v)) && v@ == h,
                Ok(None) => r matches Ok(None),
                Err(stop) => r matches Err(e) && e == stop,
            },
    ;
}

/// How far a sweep has come. `log` holds the reads for the address at hand.
#[verifier::reject_recursive_types(V)]
pub struct Pass<V: Visit> {
    pub visit: V,
    pub cands: Seq<u64>,
    /// Whether the sweep ends at its first hit.
    pub first: bool,
    pub at: int,
    pub log: Seq<Exchange>,
    pub out: Seq<<V::Hit as View>::V>,
}

impl<V: Visit> Pass<V> {
    /// What is settled about the address at hand; none while a read is missing.
    pub open spec fn verdict(self) -> Option<Option<<V::Hit as View>::V>> {
        match self.visit.seen(self.log, self.cands[self.at]) {
            Ok(h) => Some(h),
            Err(Stop::Fail(_)) => Some(None),
            Err(Stop::Need(_)) => None,
        }
    }

    /// Leaves every address that is settled.
    pub open spec fn settle(self) -> Pass<V>
        decreases self.cands.len() - self.at,
    {
        if self.at >= self.cands.len() {
            self
        } else {
            match self.verdict() {
                None => self,
                Some(None) => Pass { at: self.at + 1, log: seq![], ..self }.settle(),
                Some(Some(h)) => {
                    let out = self.out.push(h);
                    if self.first {
                        Pass { at: self.cands.len() as int, log: seq![], out, ..self }
                    } else {
                        Pass { at: self.at + 1, log: seq![], out, ..self }.settle()
                    }
                },
            }
        }
    }

    /// The next read.
    pub open spec fn request(self) -> Option<Read> {
        if self.at >= self.cands.len() {
            None
        } else {
            match self.visit.seen(self.log, self.cands[self.at]) {
                Err(Stop::Need(q)) => Some(q),
                _ => None,
            }
        }
    }

    /// What the answer to the next read leads to.
    pub open spec fn step(self, a: Answer) -> Pass<V> {
        match self.request() {
            None => self,
            Some(q) => Pass {
                log: self.log.push(Exchange { read: q, answer: a }),
                ..self
            }.settle(),
        }
    }

    /// Before the first read.
    pub open spec fn start(visit: V, cands: Seq<u64>, first: bool) -> Pass<V> {
        Pass { visit, cands, first, at: 0, log: seq![], out: seq![] }.settle()
    }

    /// The sweep is over, or it waits for a read.
    pub open spec fn settled(self) -> bool {
        &&& 0 <= self.at <= self.cands.len()
        &&& self.at < self.cands.len() ==> self.verdict() is None
    }

    /// What holds at every point of a sweep.
    pub open spec fn valid(self) -> bool {
        &&& self.settled()
        &&& forall|i: int| 0 <= i < self.cands.len() ==> self.visit.admits(#[trigger] self.cands[i])
    }
}

/// Whether `places` are positions below `n`, in increasing order.
pub open spec fn increasing(places: Seq<int>, n: int) -> bool {
    &&& forall|i: int| 0 <= i < places.len() ==> 0 <= #[trigger] places[i] < n
    &&& forall|i: int, j: int|
        0 <= i < j < places.len() ==> #[trigger] places[i] < #[trigger] places[j]
}

/// Whether `part` is what is left of `whole` when elements are left out.
pub open spec fn part_of<A>(part: Seq<A>, whole: Seq<A>) -> bool {
    exists|places: Seq<int>|
        #![trigger increasing(places, whole.len() as int)]
        increasing(places, whole.len() as int) && part == places.map_values(|p: int| whole[p])
}

impl<V: Visit> Pass<V> {
    /// Whether a visit to `a` can bring `h`.
    pub open spec fn can_bring(self, a: u64, h: <V::Hit as View>::V) -> bool {
        exists|log: Seq<Exchange>| #[trigger] self.visit.seen(log, a) == Ok::<
            Option<<V::Hit as View>::V>,
            Stop,
        >(Some(h))
    }

    /// The hits come of visits to the candidates at these positions.
    pub open spec fn traced_by(self, places: Seq<int>) -> bool {
        &&& increasing(places, self.at)
        &&& places.len() == self.out.len()
        &&& forall|i: int|
            0 <= i < places.len() ==> self.can_bring(
                self.cands[#[trigger] places[i]],
                self.out[i],
            )
    }

    /// Every hit comes of a visit to one of the candidates that were left behind, in
    /// their order and at most one of each.
    pub open spec fn traced(self) -> bool {
        exists|places: Seq<int>| self.traced_by(places)
    }
}

proof fn settle_keeps_trace<V: Visit>(p: Pass<V>)
    requires
        p.traced(),
        0 <= p.at <= p.cands.len(),
    ensures
        p.settle().traced(),
    decreases p.cands.len() - p.at,
{
    if p.at < p.cands.len() {
        let places = choose|places: Seq<int>| p.traced_by(places);
        match p.verdict() {
            None => {},
            Some(None) => {
                let next = Pass { at: p.at + 1, log: seq![], ..p };
                assert(next.traced_by(places)) by {
                    assert forall|i: int| 0 <= i < places.len() implies next.can_bring(
                        next.cands[#[trigger] places[i]],
                        next.out[i],
                    ) by {
                        assert(p.can_bring(p.cands[places[i]], p.out[i]));
                    }
                }
                settle_keeps_trace(next);
            },
            Some(Some(h)) => {
                let more = places.push(p.at);
                let at = if p.first {
                    p.cands.len() as int
                } else {
                    p.at + 1
                };
                let next = Pass { at, log: seq![], out: p.out.push(h), ..p };
                assert(p.visit.seen(p.log, p.cands[p.at]) == Ok::<
                    Option<<V::Hit as View>::V>,
                    Stop,
                >(Some(h)));
                assert(next.traced_by(more)) by {
                    assert forall|i: int| 0 <= i < more.len() implies next.can_bring(
                        next.cands[#[trigger] more[i]],
                        next.out[i],
                    ) by {
                        if i < places.len() {
                            assert(p.can_bring(p.cands[places[i]], p.out[i]));
                        }
                    }
                    assert(increasing(more, at));
                }
                if !p.first {
                    settle_keeps_trace(next);
                }
            },
        }
    }
}

/// A sweep, waiting for an answer or over.
pub struct Sweep<V: Visit> {
    visit: V,
    cands: Vec<u64>,
    first: bool,
    at: usize,
    tape: Tape,
    need: Option<Read>,
    out: Vec<V::Hit>,
}

impl<V: Visit> View for Sweep<V> {
    type V = Pass<V>;

    closed spec fn view(&self) -> Pass<V> {
        Pass {
            visit: self.visit,
            cands: self.cands@,
            first: self.first,
            at: self.at as int,
            log: self.tape.all(),
            out: self.out@.map_values(|h: V::Hit| h@),
        }
    }
}

impl<V: Visit> Sweep<V> {
    #[verifier::type_invariant]
    spec fn sound(self) -> bool {
        self@.valid() && self.need == self@.request() && self@.traced()
    }

    /// A sweep over `cands`; with `first`, it ends at its first hit.
    pub fn start(visit: V, cands: Vec<u64>, first: bool) -> (s: Sweep<V>)
        requires
            forall|i: int| 0 <= i < cands@.len() ==> visit.admits(#[trigger] cands@[i]),
        ensures
            s@ == Pass::start(visit, cands@, first),
            s@.valid(),
    {
        proof {
            assert(Seq::<V::Hit>::empty().map_values(|h: V::Hit| h@) =~= Seq::empty());
            let none = Pass { visit, cands: cands@, first, at: 0, log: seq![], out: seq![] };
            assert(none.traced_by(seq![]));
        }
        settle(visit, cands, first, 0, Tape::new(), Vec::new())
    }

    /// The next read; none when the sweep is over.
    pub fn next(&self) -> (r: Option<Read>)
        ensures
            r == self@.request(),
    {
        proof {
            use_type_invariant(self);
        }
        self.need
    }

    /// Takes the answer to the next read.
    pub fn supply(self, reply: Reply) -> (s: Sweep<V>)
        requires
            self@.request() matches Some(q) ==> reply@.fits(q),
        ensures
            s@ == self@.step(reply@),
            s@.valid(),
    {
        proof {
            use_type_invariant(&self);
        }
        match self.need {
            None => self,
            Some(q) => {
                let mut tape: Tape = self.tape;
                tape.record(q, reply);
                proof {
                    let p = self@;
                    let longer = Pass {
                        log: p.log.push(Exchange { read: q, answer: reply@ }),
                        ..p
                    };
                    let places = choose|places: Seq<int>| p.traced_by(places);
                    assert(longer.traced_by(places)) by {
                        assert forall|i: int| 0 <= i < places.len() implies longer.can_bring(
                            longer.cands[#[trigger] places[i]],
                            longer.out[i],
                        ) by {
                            assert(p.can_bring(p.cands[places[i]], p.out[i]));
                        }
                    }
                }
                settle(self.visit, self.cands, self.first, self.at, tape, self.out)
            },
        }
    }

    /// The hits so far.
    pub fn hits(self) -> (r: Vec<V::Hit>)
        ensures
            r@.map_values(|h: V::Hit| h@) == self@.out,
            self@.valid(),
            self@.traced(),
    {
        proof {
            use_type_invariant(&self);
        }
        self.out
    }
}

/// A sweep that has left every settled address from `at` on.
fn settle<V: Visit>(
    visit: V,
    cands: Vec<u64>,
    first: bool,
    at: usize,
    tape: Tape,
    out: Vec<V::Hit>,
) -> (s: Sweep<V>)
    requires
        at <= cands@.len(),
        forall|i: int| 0 <= i < cands@.len() ==> visit.admits(#[trigger] cands@[i]),
        (Pass {
            visit,
            cands: cands@,
            first,
            at: at as int,
            log: tape.all(),
            out: out@.map_values(|h: V::Hit| h@),
        }).traced(),
    ensures
        s@ == (Pass {
            visit,
            cands: cands@,
            first,
            at: at as int,
            log: tape.all(),
            out: out@.map_values(|h: V::Hit| h@),
        }).settle(),
        s@.valid(),
{
    let ghost goal = Pass {
        visit,
        cands: cands@,
        first,
        at: at as int,
        log: tape.all(),
        out: out@.map_values(|h: V::Hit| h@),
    }.settle();
    proof {
        settle_keeps_trace(
            Pass {
                visit,
                cands: cands@,
                first,
                at: at as int,
                log: tape.all(),
                out: out@.map_values(|h: V::Hit| h@),
            },
        );
    }
    let mut at: usize = at;
    let mut tape: Tape = tape;
    let mut out: Vec<V::Hit> = out;
    let mut need: Option<Read> = None;
    while at < cands.len() && need.is_none()
        invariant
            at <= cands@.len(),
            forall|i: int| 0 <= i < cands@.len() ==> visit.admits(#[trigger] cands@[i]),
            ({
                let here = Pass {
                    visit,
                    cands: cands@,
                    first,
                    at: at as int,
                    log: tape.all(),
                    out: out@.map_values(|h: V::Hit| h@),
                };
                &&& goal == here.settle()
                &&& need is Some ==> at < cands@.len() && here.verdict() is None
                    && here.request() == need
            }),
        decreases cands@.len() - at, (if need is None { 1int } else { 0 }),
    {
        let _n: usize = cands.len();
        tape.rewind();
        let ghost here = Pass {
            visit,
            cands: cands@,
            first,
            at: at as int,
            log: tape.all(),
            out: out@.map_values(|h: V::Hit| h@),
        };
        match visit.visit(cands[at], &mut tape) {
            Err(Stop::Need(q)) => {
                assert(here.verdict() is None);
                assert(here.request() == Some(q));
                need = Some(q);
            },
            Ok(Some(h)) => {
                let ghost old_out = out@;
                out.push(h);
                assert(out@.map_values(|h: V::Hit| h@) =~= old_out.map_values(|h: V::Hit| h@).push(
                    h@,
                ));
                tape = Tape::new();
                if first {
                    at = cands.len();
                } else {
                    at = at + 1;
                }
            },
            _ => {
                tape = Tape::new();
                at = at + 1;
            },
        }
    }
    Sweep { visit, cands, first, at, tape, need, out }
}

/// What the visits from `at` on bring in a memory; only the first hit with `first`.
pub open spec fn hits_in<V: Visit>(
    visit: V,
    cands: Seq<u64>,
    first: bool,
    at: int,
    mem: spec_fn(Read) -> Answer,
) -> Seq<<V::Hit as View>::V>
    decreases cands.len() - at,
{
    if at >= cands.len() {
        seq![]
    } else {
        match visit.seen_in(mem, cands[at]) {
            None => hits_in(visit, cands, first, at + 1, mem),
            Some(h) => if first {
                seq![h]
            } else {
                seq![h] + hits_in(visit, cands, first, at + 1, mem)
            },
        }
    }
}

/// What a sweep brings is what the visits to the candidates bring.
pub proof fn hits_are_of_candidates<V: Visit>(
    visit: V,
    cands: Seq<u64>,
    at: int,
    mem: spec_fn(Read) -> Answer,
    h: <V::Hit as View>::V,
)
    requires
        0 <= at <= cands.len(),
    ensures
        hits_in(visit, cands, false, at, mem).contains(h) <==> exists|i: int|
            at <= i < cands.len() && #[trigger] visit.seen_in(mem, cands[i]) == Some(h),
    decreases cands.len() - at,
{
    if at < cands.len() {
        hits_are_of_candidates(visit, cands, at + 1, mem, h);
        let rest = hits_in(visit, cands, false, at + 1, mem);
        let all = hits_in(visit, cands, false, at, mem);
        if let Some(x) = visit.seen_in(mem, cands[at]) {
            assert(all == seq![x] + rest);
            assert(all[0] == x);
            if rest.contains(h) {
                let k = choose|k: int| 0 <= k < rest.len() && rest[k] == h;
                assert(all[k + 1] == h);
            }
            if all.contains(h) && x != h {
                let k = choose|k: int| 0 <= k < all.len() && all[k] == h;
                assert(rest[k - 1] == h);
            }
        }
    }
}

impl<V: Visit> Pass<V> {
    /// What the whole sweep comes to: what it has, and what is to come.
    pub open spec fn total(self, mem: spec_fn(Read) -> Answer) -> Seq<<V::Hit as View>::V> {
        self.out + hits_in(self.visit, self.cands, self.first, self.at, mem)
    }

    /// The sweep after at most `n` reads of a memory.
    pub open spec fn drive(self, mem: spec_fn(Read) -> Answer, n: nat) -> Pass<V>
        decreases n,
    {
        match self.request() {
            Some(q) if n > 0 => self.step(mem(q)).drive(mem, (n - 1) as nat),
            _ => self,
        }
    }
}

proof fn settle_keeps_total<V: Visit>(p: Pass<V>, mem: spec_fn(Read) -> Answer)
    requires
        0 <= p.at <= p.cands.len(),
        memory::faithful(p.log, mem),
    ensures
        p.settle().settled(),
        memory::faithful(p.settle().log, mem),
        p.settle().total(mem) == p.total(mem),
        p.settle().visit == p.visit,
        p.settle().cands == p.cands,
        p.settle().first == p.first,
    decreases p.cands.len() - p.at,
{
    if p.at < p.cands.len() {
        p.visit.seen_is_true(mem, p.log, p.cands[p.at]);
        let rest = hits_in(p.visit, p.cands, p.first, p.at + 1, mem);
        match p.verdict() {
            None => {},
            Some(None) => {
                settle_keeps_total(Pass { at: p.at + 1, log: seq![], ..p }, mem);
            },
            Some(Some(h)) => {
                let out = p.out.push(h);
                if p.first {
                    let end = Pass { at: p.cands.len() as int, log: seq![], out, ..p };
                    assert(end.total(mem) =~= p.total(mem));
                } else {
                    let next = Pass { at: p.at + 1, log: seq![], out, ..p };
                    settle_keeps_total(next, mem);
                    assert(out + rest =~= p.out + (seq![h] + rest));
                }
            },
        }
    }
}

/// However many reads of a memory that stays still were performed, the sweep comes to
/// what the visits bring in that memory; when it is over, that is what it has.
pub proof fn sweep_is_true<V: Visit>(p: Pass<V>, mem: spec_fn(Read) -> Answer, n: nat)
    requires
        p.settled(),
        memory::faithful(p.log, mem),
    ensures
        p.drive(mem, n).settled(),
        p.drive(mem, n).total(mem) == p.total(mem),
        p.drive(mem, n).request() is None ==> p.drive(mem, n).out == p.total(mem),
    decreases n,
{
    match p.request() {
        Some(q) if n > 0 => {
            let longer = Pass { log: p.log.push(Exchange { read: q, answer: mem(q) }), ..p };
            settle_keeps_total(longer, mem);
            sweep_is_true(p.step(mem(q)), mem, (n - 1) as nat);
        },
        Some(_) => {},
        None => {
            assert(p.total(mem) =~= p.out);
        },
    }
}

/// A sweep starts with all its hits to come.
pub proof fn sweep_starts_whole<V: Visit>(
    visit: V,
    cands: Seq<u64>,
    first: bool,
    mem: spec_fn(Read) -> Answer,
)
    ensures
        Pass::start(visit, cands, first).settled(),
        memory::faithful(Pass::start(visit, cands, first).log, mem),
        Pass::start(visit, cands, first).total(mem) == hits_in(visit, cands, first, 0, mem),
{
    let p = Pass { visit, cands, first, at: 0, log: seq![], out: seq![] };
    settle_keeps_total(p, mem);
    assert(p.total(mem) =~= hits_in(visit, cands, first, 0, mem));
}

} // verus!
