//! Asking for the target's memory.
//!
//! Nothing here touches another process. A function that wants memory is given a
//! `Tape`: the reads that were performed for it so far, with what came back. Where the
//! tape holds no answer to the next read, the function stops and names that read; the
//! caller performs it, records the answer and starts the function again. A function
//! that has all its answers runs to its end, and never asks twice.

use crate::bytes::word_at;
use crate::bytes;
use crate::error::Error;
use vstd::prelude::*;

verus! {

/// One read of the target's memory.
#[derive(Debug, Clone, Copy, PartialEq, Eq, Structural)]
pub struct Read {
    pub addr: u64,
    pub len: usize,
}

/// One write to the target's memory.
#[derive(Debug)]
pub struct Write {
    pub addr: u64,
    pub bytes: Vec<u8>,
}

/// A write, as contracts speak of it.
pub struct Stored {
    pub addr: u64,
    pub bytes: Seq<u8>,
}

impl View for Write {
    type V = Stored;

    open spec fn view(&self) -> Stored {
        Stored { addr: self.addr, bytes: self.bytes@ }
    }
}

/// What came back for a read: all the bytes that it asked for, or the operating
/// system's code for why not.
#[derive(Debug)]
pub enum Reply {
    Bytes(Vec<u8>),
    Failed(i32),
}

/// A reply, as contracts speak of it.
pub enum Answer {
    Bytes(Seq<u8>),
    Failed(i32),
}

impl View for Reply {
    type V = Answer;

    open spec fn view(&self) -> Answer {
        match self {
            Reply::Bytes(b) => Answer::Bytes(b@),
            Reply::Failed(c) => Answer::Failed(*c),
        }
    }
}

impl Answer {
    /// A read either fails or brings exactly as many bytes as it asked for.
    pub open spec fn fits(self, q: Read) -> bool {
        self matches Answer::Bytes(b) ==> b.len() == q.len
    }
}

impl Reply {
    /// Whether this can be the outcome of `q`.
    pub fn fits(&self, q: Read) -> (r: bool)
        ensures
            r == self@.fits(q),
    {
        match self {
            Reply::Bytes(b) => b.len() == q.len,
            Reply::Failed(_) => true,
        }
    }
}

/// Why a function on a tape did not return a value.
#[derive(Debug, Clone, Copy, PartialEq, Eq, Structural)]
pub enum Stop {
    /// This read has to be performed and recorded next.
    Need(Read),
    /// The request failed.
    Fail(Error),
}

/// One read that was performed, with its answer.
pub struct Exchange {
    pub read: Read,
    pub answer: Answer,
}

/// The answer to `q`, where it is the next one recorded.
pub open spec fn ask(rest: Seq<Exchange>, q: Read) -> Result<Seq<u8>, Stop> {
    if rest.len() == 0 || rest[0].read != q {
        Err(Stop::Need(q))
    } else {
        match rest[0].answer {
            Answer::Bytes(b) => Ok(b),
            Answer::Failed(c) => Err(Stop::Fail(Error::Os { code: c })),
        }
    }
}

/// The word at `addr`, where its read is the next one recorded.
pub open spec fn ask_word(rest: Seq<Exchange>, addr: u64) -> Result<int, Stop> {
    match ask(rest, Read { addr, len: 4 }) {
        Ok(b) => Ok(bytes::le32(b, 0)),
        Err(stop) => Err(stop),
    }
}

/// What a read that may fail brought, where it is the next one recorded.
pub open spec fn try_ask(rest: Seq<Exchange>, q: Read) -> Result<Option<Seq<u8>>, Stop> {
    match ask(rest, q) {
        Ok(b) => Ok(Some(b)),
        Err(Stop::Need(n)) => Err(Stop::Need(n)),
        Err(Stop::Fail(_)) => Ok(None),
    }
}

/// The word at `addr`, where its read is the next one recorded and did not fail.
pub open spec fn try_word(rest: Seq<Exchange>, addr: u64) -> Result<Option<int>, Stop> {
    match try_ask(rest, Read { addr, len: 4 }) {
        Ok(Some(b)) => Ok(Some(bytes::le32(b, 0))),
        Ok(None) => Ok(None),
        Err(stop) => Err(stop),
    }
}

/// The words at `addrs`, read in this order; the first failure ends it.
pub open spec fn ask_words(rest: Seq<Exchange>, addrs: Seq<u64>) -> Result<Seq<int>, Stop>
    decreases addrs.len(),
{
    if addrs.len() == 0 {
        Ok(seq![])
    } else {
        match ask_word(rest, addrs[0]) {
            Err(stop) => Err(stop),
            Ok(w) => match ask_words(rest.skip(1), addrs.skip(1)) {
                Err(stop) => Err(stop),
                Ok(ws) => Ok(seq![w] + ws),
            },
        }
    }
}

/// The reads performed for one request so far, with their answers.
#[derive(Debug)]
pub struct Tape {
    log: Vec<(Read, Reply)>,
    pos: usize,
}

impl Tape {
    #[verifier::type_invariant]
    spec fn sound(self) -> bool {
        &&& self.pos <= self.log@.len()
        &&& forall|i: int|
            0 <= i < self.log@.len() ==> (#[trigger] self.log@[i]).1@.fits(self.log@[i].0)
    }

    /// Everything recorded, oldest first.
    pub closed spec fn all(self) -> Seq<Exchange> {
        self.log@.map_values(|e: (Read, Reply)| Exchange { read: e.0, answer: e.1@ })
    }

    /// What is recorded and not yet consumed.
    pub closed spec fn rest(self) -> Seq<Exchange> {
        self.all().skip(self.pos as int)
    }

    /// A tape with nothing recorded.
    pub fn new() -> (t: Tape)
        ensures
            t.all() == Seq::<Exchange>::empty(),
            t.rest() == Seq::<Exchange>::empty(),
    {
        let t = Tape { log: Vec::new(), pos: 0 };
        assert(t.all() =~= Seq::<Exchange>::empty());
        assert(t.rest() =~= Seq::<Exchange>::empty());
        t
    }

    /// Records the outcome of a read, and goes back to the start.
    pub fn record(&mut self, q: Read, reply: Reply)
        requires
            reply@.fits(q),
        ensures
            final(self).all() == old(self).all().push(Exchange { read: q, answer: reply@ }),
            final(self).rest() == final(self).all(),
    {
        proof {
            use_type_invariant(&*self);
        }
        let mut log: Vec<(Read, Reply)> = Vec::new();
        self.pos = 0;
        std::mem::swap(&mut log, &mut self.log);
        log.push((q, reply));
        self.log = log;
        assert(self.all() =~= old(self).all().push(Exchange { read: q, answer: reply@ }));
        assert(self.rest() =~= self.all());
    }

    /// Goes back to the start.
    pub fn rewind(&mut self)
        ensures
            final(self).all() == old(self).all(),
            final(self).rest() == old(self).all(),
    {
        proof {
            use_type_invariant(&*self);
        }
        self.pos = 0;
        assert(self.rest() =~= self.all());
    }

    /// Takes the answer to a read of `len` bytes at `addr`.
    pub fn bytes(&mut self, addr: u64, len: usize) -> (r: Result<Vec<u8>, Stop>)
        ensures
            final(self).all() == old(self).all(),
            match ask(old(self).rest(), Read { addr, len }) {
                Ok(b) => {
                    &&& r matches Ok(v) && v@ == b
                    &&& b.len() == len
                    &&& old(self).rest().len() > 0
                    &&& final(self).rest() == old(self).rest().skip(1)
                },
                Err(Stop::Need(q)) => {
                    &&& r == Err::<Vec<u8>, Stop>(Stop::Need(q))
                    &&& final(self).rest() == old(self).rest()
                },
                Err(stop) => {
                    &&& r == Err::<Vec<u8>, Stop>(stop)
                    &&& old(self).rest().len() > 0
                    &&& final(self).rest() == old(self).rest().skip(1)
                },
            },
    {
        proof {
            use_type_invariant(&*self);
        }
        let q = Read { addr, len };
        if self.pos >= self.log.len() || self.log[self.pos].0 != q {
            return Err(Stop::Need(q));
        }
        let at: usize = self.pos;
        assert(self.rest()[0] == Exchange { read: self.log@[at as int].0, answer: self.log@[at as int].1@ });
        self.pos = at + 1;
        assert(self.rest() =~= old(self).rest().skip(1));
        match &self.log[at].1 {
            Reply::Failed(c) => Err(Stop::Fail(Error::Os { code: *c })),
            Reply::Bytes(b) => {
                let mut out: Vec<u8> = Vec::new();
                let mut i: usize = 0;
                while i < b.len()
                    invariant
                        i <= b@.len(),
                        out@ == b@.take(i as int),
                    decreases b@.len() - i,
                {
                    out.push(b[i]);
                    i = i + 1;
                    assert(out@ =~= b@.take(i as int));
                }
                assert(out@ =~= b@);
                Ok(out)
            },
        }
    }

    /// Takes the word at `addr`.
    pub fn word(&mut self, addr: u64) -> (r: Result<u32, Stop>)
        ensures
            final(self).all() == old(self).all(),
            match ask_word(old(self).rest(), addr) {
                Ok(w) => {
                    &&& r matches Ok(v) && v == w
                    &&& old(self).rest().len() > 0
                    &&& final(self).rest() == old(self).rest().skip(1)
                },
                Err(Stop::Need(q)) => {
                    &&& r == Err::<u32, Stop>(Stop::Need(q))
                    &&& final(self).rest() == old(self).rest()
                },
                Err(stop) => {
                    &&& r == Err::<u32, Stop>(stop)
                    &&& old(self).rest().len() > 0
                    &&& final(self).rest() == old(self).rest().skip(1)
                },
            },
    {
        match self.bytes(addr, 4) {
            Ok(b) => Ok(word_at(&b, 0)),
            Err(stop) => Err(stop),
        }
    }

    /// Takes the answer to a read of `len` bytes at `addr` that may fail.
    pub fn try_bytes(&mut self, addr: u64, len: usize) -> (r: Result<Option<Vec<u8>>, Stop>)
        ensures
            final(self).all() == old(self).all(),
            match try_ask(old(self).rest(), Read { addr, len }) {
                Ok(b) => {
                    &&& match b {
                        Some(s) => r matches Ok(Some(v)) && v@ == s && s.len() == len,
                        None => r matches Ok(None),
                    }
                    &&& old(self).rest().len() > 0
                    &&& final(self).rest() == old(self).rest().skip(1)
                },
                Err(stop) => {
                    &&& r matches Err(e) && e == stop
                    &&& final(self).rest() == old(self).rest()
                },
            },
    {
        match self.bytes(addr, len) {
            Ok(b) => Ok(Some(b)),
            Err(Stop::Need(q)) => Err(Stop::Need(q)),
            Err(Stop::Fail(_)) => Ok(None),
        }
    }

    /// Takes the word at `addr`, whose read may fail.
    pub fn try_word(&mut self, addr: u64) -> (r: Result<Option<u32>, Stop>)
        ensures
            final(self).all() == old(self).all(),
            match try_word(old(self).rest(), addr) {
                Ok(w) => {
                    &&& match w {
                        Some(n) => r matches Ok(Some(v)) && v == n,
                        None => r matches Ok(None),
                    }
                    &&& old(self).rest().len() > 0
                    &&& final(self).rest() == old(self).rest().skip(1)
                },
                Err(stop) => {
                    &&& r matches Err(e) && e == stop
                    &&& final(self).rest() == old(self).rest()
                },
            },
    {
        match self.try_bytes(addr, 4) {
            Ok(Some(b)) => Ok(Some(word_at(&b, 0))),
            Ok(None) => Ok(None),
            Err(stop) => Err(stop),
        }
    }

    /// Takes the words at `addrs`, in this order.
    pub fn words(&mut self, addrs: &[u64]) -> (r: Result<Vec<u32>, Stop>)
        ensures
            final(self).all() == old(self).all(),
            match ask_words(old(self).rest(), addrs@) {
                Ok(ws) => {
                    &&& r matches Ok(v) && v@.len() == addrs@.len() && ws.len() == addrs@.len()
                        && forall|i: int| 0 <= i < ws.len() ==> #[trigger] v@[i] == ws[i]
                    &&& old(self).rest().len() >= addrs@.len()
                    &&& final(self).rest() == old(self).rest().skip(addrs@.len() as int)
                },
                Err(stop) => r == Err::<Vec<u32>, Stop>(stop),
            },
    {
        let mut out: Vec<u32> = Vec::new();
        let ghost start = self.rest();
        let mut i: usize = 0;
        assert(start.skip(0) =~= start);
        assert(addrs@.skip(0) =~= addrs@);
        while i < addrs.len()
            invariant
                i <= addrs@.len(),
                out@.len() == i,
                start.len() >= i,
                start == old(self).rest(),
                self.all() == old(self).all(),
                self.rest() == start.skip(i as int),
                match ask_words(start.skip(i as int), addrs@.skip(i as int)) {
                    Ok(ws) => ask_words(start, addrs@) == Ok::<Seq<int>, Stop>(
                        out@.map_values(|w: u32| w as int) + ws,
                    ),
                    Err(stop) => ask_words(start, addrs@) == Err::<Seq<int>, Stop>(stop),
                },
            decreases addrs@.len() - i,
        {
            let ghost before = out@;
            proof {
                assert(addrs@.skip(i as int).skip(1) =~= addrs@.skip(i + 1));
                if start.len() > i {
                    assert(start.skip(i as int).skip(1) =~= start.skip(i + 1));
                }
                assert(addrs@.skip(i as int)[0] == addrs@[i as int]);
            }
            match self.word(addrs[i]) {
                Ok(w) => {
                    out.push(w);
                    proof {
                        assert(start.skip(i as int).len() > 0);
                        match ask_words(start.skip(i + 1), addrs@.skip(i + 1)) {
                            Ok(ws) => {
                                assert(before.map_values(|w: u32| w as int) + (seq![w as int] + ws)
                                    =~= out@.map_values(|w: u32| w as int) + ws);
                            },
                            Err(_) => {},
                        }
                    }
                },
                Err(stop) => {
                    return Err(stop);
                },
            }
            i = i + 1;
        }
        proof {
            assert(addrs@.skip(i as int) =~= Seq::<u64>::empty());
            assert(out@.map_values(|w: u32| w as int) + Seq::<int>::empty() =~= out@.map_values(
                |w: u32| w as int,
            ));
        }
        Ok(out)
    }
}

/// Reading words consumes one exchange per word.
pub proof fn words_consume(rest: Seq<Exchange>, addrs: Seq<u64>)
    requires
        ask_words(rest, addrs) is Ok,
    ensures
        ask_words(rest, addrs)->Ok_0.len() == addrs.len(),
        rest.len() >= addrs.len(),
    decreases addrs.len(),
{
    if addrs.len() > 0 {
        words_consume(rest.skip(1), addrs.skip(1));
    }
}

/// What is read as a word is one.
pub proof fn words_fit(rest: Seq<Exchange>, addrs: Seq<u64>, i: int)
    requires
        ask_words(rest, addrs) is Ok,
        0 <= i < addrs.len(),
    ensures
        0 <= ask_words(rest, addrs)->Ok_0[i] < 0x1_0000_0000,
    decreases addrs.len(),
{
    words_consume(rest, addrs);
    if i > 0 {
        words_fit(rest.skip(1), addrs.skip(1), i - 1);
    }
}

/// What a tape has settled, no later recording changes: a request that ended, ends the
/// same way on every longer tape.
pub proof fn settled_words_stay(rest: Seq<Exchange>, more: Seq<Exchange>, addrs: Seq<u64>)
    requires
        !(ask_words(rest, addrs) matches Err(Stop::Need(_))),
    ensures
        ask_words(rest + more, addrs) == ask_words(rest, addrs),
    decreases addrs.len(),
{
    if addrs.len() > 0 && rest.len() > 0 {
        assert((rest + more).skip(1) =~= rest.skip(1) + more);
        if ask_word(rest, addrs[0]) is Ok {
            settled_words_stay(rest.skip(1), more, addrs.skip(1));
        }
    }
}

/// A memory that stays as it is while it is read: what each read of it brings.
pub open spec fn still(mem: spec_fn(Read) -> Answer) -> bool {
    forall|q: Read| (#[trigger] mem(q)).fits(q)
}

/// What was recorded is what the memory holds.
pub open spec fn faithful(rest: Seq<Exchange>, mem: spec_fn(Read) -> Answer) -> bool {
    forall|i: int| 0 <= i < rest.len() ==> (#[trigger] rest[i]).answer == mem(rest[i].read)
}

/// The words at `addrs` in a memory, or the first failure among them.
pub open spec fn words_in(mem: spec_fn(Read) -> Answer, addrs: Seq<u64>) -> Result<Seq<int>, Error>
    decreases addrs.len(),
{
    if addrs.len() == 0 {
        Ok(seq![])
    } else {
        match mem(Read { addr: addrs[0], len: 4 }) {
            Answer::Failed(c) => Err(Error::Os { code: c }),
            Answer::Bytes(b) => match words_in(mem, addrs.skip(1)) {
                Err(e) => Err(e),
                Ok(ws) => Ok(seq![bytes::le32(b, 0)] + ws),
            },
        }
    }
}

/// Words taken from a tape that was recorded from a memory are the memory's words.
pub proof fn words_are_true(rest: Seq<Exchange>, mem: spec_fn(Read) -> Answer, addrs: Seq<u64>)
    requires
        faithful(rest, mem),
    ensures
        match ask_words(rest, addrs) {
            Ok(ws) => words_in(mem, addrs) == Ok::<Seq<int>, Error>(ws),
            Err(Stop::Fail(e)) => words_in(mem, addrs) == Err::<Seq<int>, Error>(e),
            Err(Stop::Need(_)) => true,
        },
    decreases addrs.len(),
{
    if addrs.len() > 0 && ask_word(rest, addrs[0]) is Ok {
        assert(rest[0].answer == mem(rest[0].read));
        words_are_true(rest.skip(1), mem, addrs.skip(1));
    }
}

} // verus!
