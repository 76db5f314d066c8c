//! What a submission has done and seen by the time it reports.
//!
//! The laws speak of the actions that a submission asks for and of what comes of them.

use crate::bytes;
use crate::error::Error;
use crate::layouts;
use crate::mailbox;
use crate::mailbox::Command;
use crate::memory::{Answer, Read};
use crate::submit::{Course, Deed, Failure, Outcome, Phase};
use crate::text;
use vstd::prelude::*;

verus! {

/// The action that the event `k` of a series has come of.
#[verifier::opaque]
pub open spec fn deed_at(c: Course, events: Seq<Outcome>, k: int) -> Deed {
    c.run(events.take(k)).deed()
}

/// Whether each event of a series can come of the action that was asked for.
pub open spec fn plays(c: Course, events: Seq<Outcome>) -> bool {
    forall|k: int| 0 <= k < events.len() ==> (#[trigger] events[k]).follows(deed_at(c, events, k))
}

/// Whether the event `k` is the word `n`, read at `off` of the mailbox.
pub open spec fn reads_word(c: Course, events: Seq<Outcome>, k: int, off: int, n: int) -> bool {
    &&& deed_at(c, events, k) matches Deed::Read(q)
    &&& q.addr == c.addr + off
    &&& q.len == 4
    &&& events[k] matches Outcome::Reply(Answer::Bytes(b))
    &&& layouts::word_stands(b, 0, n)
}

/// Whether the event `k` is a look at the turn counter that brought `a`.
pub open spec fn samples(c: Course, events: Seq<Outcome>, k: int, a: Option<i32>) -> bool {
    deed_at(c, events, k) is Sample && events[k] == Outcome::Sampled(a)
}

/// Whether the event `k` is a look at the stopwatch that brought `ms`.
pub open spec fn clocks(c: Course, events: Seq<Outcome>, k: int, ms: u64) -> bool {
    deed_at(c, events, k) is Clock && events[k] == Outcome::Elapsed(ms)
}

/// Whether the stopwatch was started by the event `s` and not again up to the event `t`.
pub open spec fn runs_between(c: Course, events: Seq<Outcome>, s: int, t: int) -> bool {
    &&& deed_at(c, events, s) is Start
    &&& forall|j: int| s < j < t ==> !(#[trigger] deed_at(c, events, j) is Start)
}

/// Whether no look at the turn counter between the events `s` and `t` has shown anything
/// but `before`.
pub open spec fn unchanged_between(
    c: Course,
    events: Seq<Outcome>,
    s: int,
    t: int,
    before: i32,
) -> bool {
    forall|j: int|
        s < j < t && #[trigger] deed_at(c, events, j) is Sample ==> events[j] == Outcome::Sampled(
            None,
        ) || events[j] == Outcome::Sampled(Some(before))
}

/// The turn counter that a look at it stands for; -1 where it could not be read.
pub open spec fn counter(a: Option<i32>) -> i32 {
    match a {
        Some(v) => v,
        None => -1i32,
    }
}

proof fn run_goes_on(c: Course, events: Seq<Outcome>, k: int)
    requires
        0 <= k < events.len(),
    ensures
        c.run(events.take(k + 1)) == c.run(events.take(k)).step(events[k]),
{
    let more = events.take(k + 1);
    assert(more.drop_last() =~= events.take(k));
    assert(more.last() == events[k]);
}

proof fn fewer_agree(c: Course, events: Seq<Outcome>)
    requires
        events.len() > 0,
    ensures
        c.run(events) == c.run(events.drop_last()).step(events.last()),
        events.take(events.len() - 1) == events.drop_last(),
        forall|j: int|
            0 <= j < events.len() ==> #[trigger] deed_at(c, events.drop_last(), j) == deed_at(
                c,
                events,
                j,
            ),
        deed_at(c, events, events.len() - 1) == c.run(events.drop_last()).deed(),
        plays(c, events) ==> plays(c, events.drop_last()),
{
    reveal(deed_at);
    let fewer = events.drop_last();
    assert(events.take(events.len() - 1) =~= fewer);
    assert forall|j: int| 0 <= j < events.len() implies #[trigger] deed_at(c, fewer, j) == deed_at(
        c,
        events,
        j,
    ) by {
        if j < fewer.len() {
            assert(fewer.take(j) =~= events.take(j));
        } else {
            assert(fewer.take(j) =~= fewer);
        }
    }
    if plays(c, events) {
        assert forall|k: int| 0 <= k < fewer.len() implies (#[trigger] fewer[k]).follows(
            deed_at(c, fewer, k),
        ) by {
            assert(fewer[k] == events[k]);
        }
    }
}

proof fn address_stays(c: Course, events: Seq<Outcome>)
    ensures
        c.run(events).addr == c.addr,
        c.run(events).cmd == c.cmd,
    decreases events.len(),
{
    if events.len() > 0 {
        address_stays(c, events.drop_last());
    }
}

/// Whether a submission in this phase has looked at the turn counter.
spec fn has_sampled(p: Phase) -> bool {
    match p {
        Phase::Version | Phase::Protect | Phase::Number | Phase::Before => false,
        Phase::Failed { failure } => !(failure is Memory),
        _ => true,
    }
}

proof fn step_into_sampled(c: Course, e: Outcome)
    requires
        e.follows(c.deed()),
        has_sampled(c.step(e).phase),
    ensures
        has_sampled(c.phase) ==> c.step(e).before == c.before,
        !has_sampled(c.phase) ==> {
            &&& c.deed() is Sample
            &&& e matches Outcome::Sampled(a)
            &&& c.step(e).before == counter(a)
        },
{
}

proof fn counter_was_read(c: Course, events: Seq<Outcome>) -> (r: (int, Option<i32>))
    requires
        c.phase is Version,
        plays(c, events),
        has_sampled(c.run(events).phase),
    ensures
        0 <= r.0 < events.len(),
        samples(c, events, r.0, r.1),
        c.run(events).before == counter(r.1),
        !has_sampled(c.run(events.take(r.0)).phase),
    decreases events.len(),
{
    let fewer = events.drop_last();
    fewer_agree(c, events);
    let k = events.len() - 1;
    let then = c.run(fewer);
    assert(events[k].follows(deed_at(c, events, k)));
    step_into_sampled(then, events.last());
    if has_sampled(then.phase) {
        let r = counter_was_read(c, fewer);
        assert(deed_at(c, fewer, r.0) == deed_at(c, events, r.0));
        assert(fewer.take(r.0) =~= events.take(r.0));
        assert(fewer[r.0] == events[r.0]);
        r
    } else {
        (k, events[k]->Sampled_0)
    }
}

spec fn awaits_turn(p: Phase) -> bool {
    p is Turn || p is Sample || p is TurnNap
}

proof fn step_into_wait(c: Course, e: Outcome)
    requires
        e.follows(c.deed()),
        awaits_turn(c.step(e).phase),
    ensures
        c.step(e).before == c.before,
        c.step(e).after == c.after,
        c.phase is StartTurn || awaits_turn(c.phase),
        c.phase is StartTurn ==> c.deed() is Start,
        awaits_turn(c.phase) ==> !(c.deed() is Start),
        c.deed() is Sample ==> e == Outcome::Sampled(None) || e == Outcome::Sampled(
            Some(c.before),
        ),
{
}

/// What holds of a series whose event `s` has started the wait for a turn.
spec fn awaited_since(c: Course, events: Seq<Outcome>, s: int) -> bool {
    let n = events.len() as int;
    &&& 0 <= s < n
    &&& c.run(events.take(s)).phase is StartTurn
    &&& runs_between(c, events, s, n)
    &&& unchanged_between(c, events, s, n, c.run(events).before)
    &&& c.run(events).before == c.run(events.take(s)).before
}

proof fn wait_extends(c: Course, events: Seq<Outcome>, s: int)
    requires
        events.len() > 0,
        awaited_since(c, events.drop_last(), s),
        c.run(events).before == c.run(events.drop_last()).before,
        !(deed_at(c, events, events.len() - 1) is Start),
        deed_at(c, events, events.len() - 1) is Sample ==> events.last() == Outcome::Sampled(
            None,
        ) || events.last() == Outcome::Sampled(Some(c.run(events).before)),
    ensures
        awaited_since(c, events, s),
{
    let fewer = events.drop_last();
    let before = c.run(events).before;
    let k = events.len() - 1;
    fewer_agree(c, events);
    assert(fewer.take(s) =~= events.take(s));
    assert(deed_at(c, fewer, s) == deed_at(c, events, s));
    assert forall|j: int| s < j < events.len() implies !(#[trigger] deed_at(
        c,
        events,
        j,
    ) is Start) by {
        assert(deed_at(c, fewer, j) == deed_at(c, events, j));
    }
    assert forall|j: int|
        s < j < events.len() && #[trigger] deed_at(c, events, j) is Sample implies events[j]
        == Outcome::Sampled(None) || events[j] == Outcome::Sampled(Some(before)) by {
        assert(deed_at(c, fewer, j) == deed_at(c, events, j));
        if j < k {
            assert(fewer[j] == events[j]);
        }
    }
}

proof fn turn_is_awaited(c: Course, events: Seq<Outcome>) -> (s: int)
    requires
        c.phase is Version,
        plays(c, events),
        awaits_turn(c.run(events).phase),
    ensures
        awaited_since(c, events, s),
    decreases events.len(),
{
    let fewer = events.drop_last();
    let k = events.len() - 1;
    fewer_agree(c, events);
    let then = c.run(fewer);
    assert(events[k].follows(deed_at(c, events, k)));
    step_into_wait(then, events.last());
    if awaits_turn(then.phase) {
        let s = turn_is_awaited(c, fewer);
        wait_extends(c, events, s);
        s
    } else {
        k
    }
}

proof fn before_is_after(c: Course, events: Seq<Outcome>)
    requires
        c.phase is Version,
        c.before == c.after,
        !(c.run(events).phase is Done),
    ensures
        c.run(events).before == c.run(events).after,
    decreases events.len(),
{
    if events.len() > 0 {
        let fewer = events.drop_last();
        if c.run(fewer).phase is Done {
        } else {
            before_is_after(c, fewer);
        }
    }
}

proof fn run_splits(c: Course, events: Seq<Outcome>, k: int)
    requires
        0 <= k <= events.len(),
    ensures
        c.run(events) == c.run(events.take(k)).run(events.skip(k)),
    decreases events.len(),
{
    if k == events.len() {
        assert(events.take(k) =~= events);
    } else {
        let fewer = events.drop_last();
        run_splits(c, fewer, k);
        assert(fewer.take(k) =~= events.take(k));
        assert(events.skip(k).drop_last() =~= fewer.skip(k));
        assert(events.skip(k).last() == events.last());
    }
}

/// A submission that is over stays as it is, whatever else happens.
pub proof fn over_is_over(c: Course, events: Seq<Outcome>)
    requires
        c.deed() is Over,
    ensures
        c.run(events) == c,
    decreases events.len(),
{
    if events.len() > 0 {
        over_is_over(c, events.drop_last());
    }
}

proof fn failed_at(c: Course, events: Seq<Outcome>, k: int)
    requires
        0 <= k <= events.len(),
        c.run(events.take(k)).phase is Failed,
    ensures
        c.run(events) == c.run(events.take(k)),
{
    run_splits(c, events, k);
    over_is_over(c.run(events.take(k)), events.skip(k));
}

proof fn step_of_version(c: Course, e: Outcome)
    requires
        c.phase is Version,
        e.follows(c.deed()),
    ensures
        c.deed() == Deed::Read(Read { addr: (c.addr + 8) as u64, len: 4 }),
        c.step(e).phase is Failed ==> c.step(e).phase->failure is Memory,
        !(c.step(e).phase is Failed) ==> {
            &&& c.step(e) == c.at(Phase::Protect)
            &&& e matches Outcome::Reply(Answer::Bytes(b))
            &&& layouts::word_stands(b, 0, 2)
        },
        c.step(e).phase is Failed ==> match e {
            Outcome::Reply(Answer::Bytes(b)) => exists|n: u32|
                #[trigger] layouts::word_stands(b, 0, n as int) && n != 2 && c.step(e).phase == (
                Phase::Failed {
                    failure: Failure::Memory { error: Error::MailboxVersion { version: n } },
                }),
            Outcome::Reply(Answer::Failed(code)) => c.step(e).phase == (Phase::Failed {
                failure: Failure::Memory { error: Error::Os { code } },
            }),
            _ => false,
        },
{
    if let Outcome::Reply(Answer::Bytes(b)) = e {
        layouts::word_stands_where_it_is_read(b, 0);
        let n = bytes::le32(b, 0) as u32;
        assert(layouts::word_stands(b, 0, n as int));
    }
}

proof fn first_steps(c: Course, events: Seq<Outcome>, k: int) -> (then: Course)
    requires
        plays(c, events),
        0 <= k < events.len(),
    ensures
        then == c.run(events.take(k)),
        deed_at(c, events, k) == then.deed(),
        events[k].follows(then.deed()),
        c.run(events.take(k + 1)) == then.step(events[k]),
{
    reveal(deed_at);
    run_goes_on(c, events, k);
    assert(events[k].follows(deed_at(c, events, k)));
    c.run(events.take(k))
}

/// A submission that looks at the turn counter has found version 2 of the mailbox, has made
/// all of the mailbox writable, and has read the number that the last command had; in this
/// order, and nothing else.
pub proof fn submission_is_prepared(c: Course, events: Seq<Outcome>)
    requires
        c.phase is Version,
        c.valid(),
        plays(c, events),
        c.run(events).published(),
    ensures
        events.len() >= 4,
        reads_word(c, events, 0, 8, 2),
        deed_at(c, events, 1) == (Deed::Protect { addr: c.addr, len: 108 }),
        events[1] == Outcome::Protected(None),
        reads_word(c, events, 2, 12, c.run(events).seq as int),
        exists|a: Option<i32>|
            #[trigger] samples(c, events, 3, a) && c.run(events).before == counter(a),
{
    opening(c, events);
}

proof fn seq_stays(c: Course, events: Seq<Outcome>)
    requires
        has_sampled(c.phase),
    ensures
        c.run(events).seq == c.seq,
        c.run(events).before == c.before,
        has_sampled(c.run(events).phase) || c.run(events).phase is Failed,
    decreases events.len(),
{
    if events.len() > 0 {
        seq_stays(c, events.drop_last());
    }
}

proof fn opening(c: Course, events: Seq<Outcome>)
    requires
        c.phase is Version,
        c.valid(),
        plays(c, events),
        has_sampled(c.run(events).phase),
    ensures
        events.len() >= 4,
        reads_word(c, events, 0, 8, 2),
        deed_at(c, events, 1) == (Deed::Protect { addr: c.addr, len: 108 }),
        events[1] == Outcome::Protected(None),
        reads_word(c, events, 2, 12, c.run(events).seq as int),
        exists|a: Option<i32>|
            #[trigger] samples(c, events, 3, a) && c.run(events).before == counter(a),
        c.run(events.take(3)).phase is Before,
{
    assert(events.take(events.len() as int) =~= events);
    assert(events.take(0) =~= Seq::<Outcome>::empty());
    let c0 = first_steps(c, events, 0);
    step_of_version(c0, events[0]);
    let c1 = c.run(events.take(1));
    if c1.phase is Failed {
        failed_at(c, events, 1);
    }
    let then = first_steps(c, events, 1);
    let c2 = c.run(events.take(2));
    if c2.phase is Failed {
        failed_at(c, events, 2);
    }
    assert(c2 == c.at(Phase::Number));
    let then = first_steps(c, events, 2);
    let c3 = c.run(events.take(3));
    if c3.phase is Failed {
        failed_at(c, events, 3);
    }
    if let Outcome::Reply(Answer::Bytes(b)) = events[2] {
        layouts::word_stands_where_it_is_read(b, 0);
        assert(layouts::word_stands(b, 0, c3.seq as int));
    }
    let then = first_steps(c, events, 3);
    let c4 = c.run(events.take(4));
    run_splits(c, events, 4);
    seq_stays(c4, events.skip(4));
    if let Outcome::Sampled(a) = events[3] {
        assert(samples(c, events, 3, a));
    }
}

/// The number that comes after another; it starts over at zero.
pub open spec fn number_after(n: u32) -> int {
    (n + 1) % 0x1_0000_0000
}

/// Whether every word that was read between the events `s` and `t` was the acknowledged
/// number, and was not `n`.
pub open spec fn unacked_between(
    c: Course,
    events: Seq<Outcome>,
    s: int,
    t: int,
    n: int,
) -> bool {
    forall|j: int|
        s < j < t && #[trigger] deed_at(c, events, j) is Read ==> {
            &&& deed_at(c, events, j) == Deed::Read(Read { addr: (c.addr + 16) as u64, len: 4 })
            &&& events[j] matches Outcome::Reply(Answer::Bytes(b))
            &&& !layouts::word_stands(b, 0, n)
        }
}

spec fn awaits_ack(p: Phase) -> bool {
    p is Wait || p is Ack || p is Nap
}

proof fn step_into_ack_wait(c: Course, e: Outcome)
    requires
        e.follows(c.deed()),
        awaits_ack(c.step(e).phase),
    ensures
        c.step(e).seq == c.seq,
        c.phase is Start || awaits_ack(c.phase),
        c.phase is Start ==> c.deed() is Start,
        awaits_ack(c.phase) ==> !(c.deed() is Start),
        c.deed() is Read ==> {
            &&& c.deed() == Deed::Read(Read { addr: (c.addr + 16) as u64, len: 4 })
            &&& e matches Outcome::Reply(Answer::Bytes(b))
            &&& !layouts::word_stands(b, 0, number_after(c.seq))
        },
{
    if let Outcome::Reply(Answer::Bytes(b)) = e {
        if layouts::word_stands(b, 0, number_after(c.seq)) {
            layouts::word_is_read_where_it_stands(b, 0, number_after(c.seq));
        }
    }
}

spec fn unacked_since(c: Course, events: Seq<Outcome>, s: int) -> bool {
    let n = events.len() as int;
    &&& 0 <= s < n
    &&& c.run(events.take(s)).phase is Start
    &&& runs_between(c, events, s, n)
    &&& unacked_between(c, events, s, n, number_after(c.run(events).seq))
}

proof fn ack_wait_extends(c: Course, events: Seq<Outcome>, s: int)
    requires
        events.len() > 0,
        unacked_since(c, events.drop_last(), s),
        c.run(events).seq == c.run(events.drop_last()).seq,
        ({
            let deed = deed_at(c, events, events.len() - 1);
            &&& !(deed is Start)
            &&& deed is Read ==> {
                &&& deed == Deed::Read(Read { addr: (c.addr + 16) as u64, len: 4 })
                &&& events.last() matches Outcome::Reply(Answer::Bytes(b))
                &&& !layouts::word_stands(b, 0, number_after(c.run(events).seq))
            }
        }),
    ensures
        unacked_since(c, events, s),
{
    let fewer = events.drop_last();
    let n = number_after(c.run(events).seq);
    fewer_agree(c, events);
    assert(fewer.take(s) =~= events.take(s));
    assert(deed_at(c, fewer, s) == deed_at(c, events, s));
    assert forall|j: int| s < j < events.len() implies !(#[trigger] deed_at(
        c,
        events,
        j,
    ) is Start) by {
        assert(deed_at(c, fewer, j) == deed_at(c, events, j));
    }
    assert forall|j: int|
        s < j < events.len() && #[trigger] deed_at(c, events, j) is Read implies {
        &&& deed_at(c, events, j) == Deed::Read(Read { addr: (c.addr + 16) as u64, len: 4 })
        &&& events[j] matches Outcome::Reply(Answer::Bytes(b))
        &&& !layouts::word_stands(b, 0, n)
    } by {
        assert(deed_at(c, fewer, j) == deed_at(c, events, j));
        if j < fewer.len() {
            assert(fewer[j] == events[j]);
        }
    }
}

proof fn ack_is_awaited(c: Course, events: Seq<Outcome>) -> (s: int)
    requires
        c.phase is Version,
        plays(c, events),
        awaits_ack(c.run(events).phase),
    ensures
        unacked_since(c, events, s),
    decreases events.len(),
{
    let fewer = events.drop_last();
    let k = events.len() - 1;
    fewer_agree(c, events);
    let then = c.run(fewer);
    address_stays(c, fewer);
    assert(events[k].follows(deed_at(c, events, k)));
    step_into_ack_wait(then, events.last());
    if awaits_ack(then.phase) {
        let s = ack_is_awaited(c, fewer);
        ack_wait_extends(c, events, s);
        s
    } else {
        k
    }
}

/// How long an acknowledgement is waited for: two seconds, or three more than a dump is
/// given.
pub open spec fn patience(cmd: Command) -> int {
    match cmd {
        Command::Dump { budget_ms } => budget_ms + 3000,
        _ => 2000,
    }
}

/// The first event at which a submission is in its final state.
proof fn over_since(c: Course, events: Seq<Outcome>) -> (t: int)
    requires
        !(c.deed() is Over),
        c.run(events).deed() is Over,
    ensures
        0 <= t < events.len(),
        !(c.run(events.take(t)).deed() is Over),
        c.run(events) == c.run(events.take(t)).step(events[t]),
    decreases events.len(),
{
    let fewer = events.drop_last();
    let k = events.len() - 1;
    assert(events.take(k) =~= fewer);
    if c.run(fewer).deed() is Over {
        let t = over_since(c, fewer);
        assert(fewer.take(t) =~= events.take(t));
        over_is_over(c.run(fewer), seq![events.last()]);
        let one = seq![events.last()];
        assert(one.drop_last() =~= Seq::<Outcome>::empty());
        assert(c.run(fewer).run(one) == c.run(fewer).run(one.drop_last()).step(one.last()));
        t
    } else {
        k
    }
}

proof fn plays_so_far(c: Course, events: Seq<Outcome>, t: int)
    requires
        plays(c, events),
        0 <= t <= events.len(),
    ensures
        plays(c, events.take(t)),
        forall|j: int|
            0 <= j <= t ==> #[trigger] deed_at(c, events.take(t), j) == deed_at(c, events, j),
{
    reveal(deed_at);
    let some = events.take(t);
    assert forall|j: int| 0 <= j <= t implies #[trigger] deed_at(c, some, j) == deed_at(
        c,
        events,
        j,
    ) by {
        assert(some.take(j) =~= events.take(j));
    }
    assert forall|k: int| 0 <= k < some.len() implies (#[trigger] some[k]).follows(
        deed_at(c, some, k),
    ) by {
        assert(some[k] == events[k]);
    }
}

/// That the shim never acknowledged a command is reported only after the whole time that a
/// command is given: the stopwatch, started once the command was published, has shown it,
/// and every number that was read until then was another.
pub proof fn never_acked_means_whole_wait(c: Course, events: Seq<Outcome>) -> (r: (int, int, u64))
    requires
        c.phase is Version,
        c.valid(),
        plays(c, events),
        c.run(events).phase == (Phase::Failed { failure: Failure::NeverAcked }),
    ensures
        ({
            let (s, t, ms) = r;
            &&& 3 < s < t < events.len()
            &&& runs_between(c, events, s, t)
            &&& clocks(c, events, t, ms)
            &&& ms >= patience(c.cmd)
            &&& unacked_between(c, events, s, t, number_after(c.run(events).seq))
        }),
{
    let t = over_since(c, events);
    let some = events.take(t);
    plays_so_far(c, events, t);
    let then = first_steps(c, events, t);
    address_stays(c, some);
    let s = ack_is_awaited(c, some);
    opening(c, events);
    let ms = events[t]->Elapsed_0;
    assert(some.take(s) =~= events.take(s));
    assert(deed_at(c, some, s) == deed_at(c, events, s));
    assert forall|j: int| s < j < t implies !(#[trigger] deed_at(c, events, j) is Start) by {
        assert(deed_at(c, some, j) == deed_at(c, events, j));
    }
    assert forall|j: int| s < j < t && #[trigger] deed_at(c, events, j) is Read implies {
        &&& deed_at(c, events, j) == Deed::Read(Read { addr: (c.addr + 16) as u64, len: 4 })
        &&& events[j] matches Outcome::Reply(Answer::Bytes(b))
        &&& !layouts::word_stands(b, 0, number_after(c.run(events).seq))
    } by {
        assert(deed_at(c, some, j) == deed_at(c, events, j));
        assert(some[j] == events[j]);
    }
    if s <= 3 {
        early_phases(c, events, s);
    }
    (s, t, ms)
}

proof fn early_phases(c: Course, events: Seq<Outcome>, s: int)
    requires
        c.phase is Version,
        0 <= s <= 3,
        s <= events.len(),
    ensures
        !has_sampled(c.run(events.take(s)).phase),
{
    assert(events.take(0) =~= Seq::<Outcome>::empty());
    if s >= 1 {
        run_goes_on(c, events, 0);
    }
    if s >= 2 {
        run_goes_on(c, events, 1);
    }
    if s >= 3 {
        run_goes_on(c, events, 2);
    }
}

/// Whether the events `k` to `k + 2` are the acknowledgement of the number `n`, the time
/// `ms` that the stopwatch then shows, and a status that is no refusal.
pub open spec fn accepted_at(c: Course, events: Seq<Outcome>, k: int, n: int, ms: u64) -> bool {
    &&& 3 < k
    &&& reads_word(c, events, k, 16, n)
    &&& clocks(c, events, k + 1, ms)
    &&& exists|status: i32| status >= 0 && #[trigger] reads_word(c, events, k + 2, 20, status as int)
}

proof fn time_stays(c: Course, events: Seq<Outcome>)
    requires
        c.phase is StartTurn || awaits_turn(c.phase) || c.phase is Done,
    ensures
        c.run(events).deliver_ms == c.deliver_ms,
        ({
            let p = c.run(events).phase;
            p is StartTurn || awaits_turn(p) || p is Done
        }),
    decreases events.len(),
{
    if events.len() > 0 {
        time_stays(c, events.drop_last());
    }
}

spec fn is_accepted(p: Phase) -> bool {
    p is StartTurn || awaits_turn(p) || p is Done
}

proof fn acceptance_was_seen(c: Course, events: Seq<Outcome>) -> (k: int)
    requires
        c.phase is Version,
        c.valid(),
        plays(c, events),
        is_accepted(c.run(events).phase),
    ensures
        k + 2 < events.len(),
        accepted_at(c, events, k, number_after(c.run(events).seq), c.run(events).deliver_ms),
        c.run(events.take(k + 3)).phase is StartTurn <==> !(c.cmd is Dump),
        c.run(events.take(k + 3)).phase is Done <==> c.cmd is Dump,
{
    let k = crate::submit::success_means_acknowledged(c, events);
    assert(events.take(events.len() as int) =~= events);
    address_stays(c, events);
    address_stays(c, events.take(k));
    opening(c, events);
    if k <= 3 {
        early_phases(c, events, k);
    }
    let ack = first_steps(c, events, k);
    if let Outcome::Reply(Answer::Bytes(b)) = events[k] {
        layouts::word_stands_where_it_is_read(b, 0);
        assert(layouts::word_stands(b, 0, number_after(ack.seq)));
    }
    let timing = first_steps(c, events, k + 1);
    let status = first_steps(c, events, k + 2);
    let next = c.run(events.take(k + 3));
    if next.phase is Failed {
        failed_at(c, events, k + 3);
    }
    if let Outcome::Reply(Answer::Bytes(b)) = events[k + 2] {
        layouts::word_stands_where_it_is_read(b, 0);
        let n = bytes::le_i32(b, 0) as i32;
        assert(reads_word(c, events, k + 2, 20, n as int));
    }
    run_splits(c, events, k + 3);
    time_stays(next, events.skip(k + 3));
    seq_stays(next, events.skip(k + 3));
    k
}

/// A success means that the shim was seen to acknowledge the command's number and not to
/// refuse it; the reported time is what the stopwatch showed at that.
pub proof fn success_was_accepted(c: Course, events: Seq<Outcome>) -> (k: int)
    requires
        c.phase is Version,
        c.valid(),
        plays(c, events),
        c.run(events).phase is Done,
    ensures
        k + 2 < events.len(),
        accepted_at(c, events, k, number_after(c.run(events).seq), c.run(events).deliver_ms),
{
    acceptance_was_seen(c, events)
}

/// A dump is over as soon as it is accepted: no turn is waited for.
pub proof fn dump_awaits_no_turn(c: Course, events: Seq<Outcome>) -> (k: int)
    requires
        c.phase is Version,
        c.valid(),
        c.cmd is Dump,
        plays(c, events),
        c.run(events).phase is Done,
    ensures
        k + 2 < events.len(),
        accepted_at(c, events, k, number_after(c.run(events).seq), c.run(events).deliver_ms),
        deed_at(c, events, k + 3) is Over,
        c.run(events.take(k + 3)) == c.run(events),
{
    let k = acceptance_was_seen(c, events);
    run_splits(c, events, k + 3);
    over_is_over(c.run(events.take(k + 3)), events.skip(k + 3));
    assert(deed_at(c, events, k + 3) is Over) by {
        reveal(deed_at);
    }
    k
}

proof fn last_step_of_turn(c: Course, e: Outcome)
    requires
        !(c.deed() is Over),
        e.follows(c.deed()),
        !(c.cmd is Dump),
        c.step(e).phase is Done,
    ensures
        c.phase is Turn || c.phase is Sample,
        c.step(e).before == c.before,
        c.phase is Turn ==> {
            &&& c.step(e).after == c.after
            &&& e matches Outcome::Elapsed(ms)
            &&& ms >= 750
        },
        c.phase is Sample ==> e == Outcome::Sampled(Some(c.step(e).after)) && c.step(e).after
            != c.before,
{
}

/// The end of the wait for a turn: how a command that is no dump got to its report.
#[verifier::spinoff_prover]
proof fn turn_wait_ends(c: Course, events: Seq<Outcome>) -> (r: (int, int, int))
    requires
        c.phase is Version,
        c.before == c.after,
        c.valid(),
        !(c.cmd is Dump),
        plays(c, events),
        c.run(events).phase is Done,
    ensures
        ({
            let (k, s, t) = r;
            let end = c.run(events);
            &&& k + 3 <= s < t < events.len()
            &&& accepted_at(c, events, k, number_after(end.seq), end.deliver_ms)
            &&& runs_between(c, events, s, t)
            &&& unchanged_between(c, events, s, t, end.before)
            &&& end.after == end.before ==> exists|ms: u64|
                #[trigger] clocks(c, events, t, ms) && ms >= 750
            &&& end.after != end.before ==> samples(c, events, t, Some(end.after))
        }),
{
    let t = over_since(c, events);
    let some = events.take(t);
    plays_so_far(c, events, t);
    address_stays(c, some);
    let then = first_steps(c, events, t);
    last_step_of_turn(then, events[t]);
    before_is_after(c, some);
    let s = turn_is_awaited(c, some);
    let start = events.take(s);
    assert(some.take(s) =~= start);
    plays_so_far(c, events, s);
    let k = acceptance_was_seen(c, start);
    let end = c.run(events);
    assert(deed_at(c, some, s) == deed_at(c, events, s));
    assert forall|j: int| s < j < t implies !(#[trigger] deed_at(c, events, j) is Start) by {
        assert(deed_at(c, some, j) == deed_at(c, events, j));
    }
    assert forall|j: int| s < j < t && #[trigger] deed_at(c, events, j) is Sample implies events[j]
        == Outcome::Sampled(None) || events[j] == Outcome::Sampled(Some(end.before)) by {
        assert(deed_at(c, some, j) == deed_at(c, events, j));
        assert(some[j] == events[j]);
    }
    run_splits(c, events, s);
    time_stays(c.run(start), events.skip(s));
    seq_stays(c.run(start), events.skip(s));
    let n = number_after(end.seq);
    assert(accepted_at(c, events, k, n, end.deliver_ms)) by {
        assert(deed_at(c, start, k) == deed_at(c, events, k));
        assert(deed_at(c, start, k + 1) == deed_at(c, events, k + 1));
        assert(deed_at(c, start, k + 2) == deed_at(c, events, k + 2));
        let status = choose|status: i32|
            status >= 0 && #[trigger] reads_word(c, start, k + 2, 20, status as int);
        assert(reads_word(c, events, k + 2, 20, status as int));
    }
    assert(end == then.step(events[t]));
    assert(then.after == then.before);
    if then.phase is Turn {
        let ms = events[t]->Elapsed_0;
        assert(clocks(c, events, t, ms) && ms >= 750);
    } else {
        assert(samples(c, events, t, Some(end.after)));
    }
    assert(runs_between(c, events, s, t));
    assert(unchanged_between(c, events, s, t, end.before));
    (k, s, t)
}

/// That no turn advanced is reported only if a whole wait for one was performed: after the
/// acknowledgement the stopwatch was started anew and has shown 750 milliseconds or more,
/// and every look at the turn counter since then has failed or shown what it showed before
/// the command.
pub proof fn no_turn_means_whole_wait(cmd: Command, addr: u64, events: Seq<Outcome>) -> (r: (
    int,
    int,
    int,
    u64,
))
    requires
        Course::start(cmd, addr).valid(),
        !(cmd is Dump),
        plays(Course::start(cmd, addr), events),
        ({
            let end = Course::start(cmd, addr).run(events);
            end.phase is Done && end.after == end.before
        }),
    ensures
        ({
            let c = Course::start(cmd, addr);
            let (k, s, t, ms) = r;
            let end = c.run(events);
            &&& k + 3 <= s < t < events.len()
            &&& accepted_at(c, events, k, number_after(end.seq), end.deliver_ms)
            &&& runs_between(c, events, s, t)
            &&& clocks(c, events, t, ms)
            &&& ms >= 750
            &&& unchanged_between(c, events, s, t, end.before)
            &&& exists|a: Option<i32>|
                #[trigger] samples(c, events, 3, a) && end.before == counter(a)
        }),
{
    let c = Course::start(cmd, addr);
    opening(c, events);
    let (k, s, t) = turn_wait_ends(c, events);
    let ms = choose|ms: u64| #[trigger] clocks(c, events, t, ms) && ms >= 750;
    (k, s, t, ms)
}

/// That a turn advanced is reported only if the turn counter was seen to change: it was
/// looked at before the command, and again after the acknowledgement, where it showed
/// something else for the first time.
pub proof fn turn_means_seen_change(cmd: Command, addr: u64, events: Seq<Outcome>) -> (r: (
    int,
    int,
    int,
))
    requires
        Course::start(cmd, addr).valid(),
        !(cmd is Dump),
        plays(Course::start(cmd, addr), events),
        ({
            let end = Course::start(cmd, addr).run(events);
            end.phase is Done && end.after != end.before
        }),
    ensures
        ({
            let c = Course::start(cmd, addr);
            let (k, s, t) = r;
            let end = c.run(events);
            &&& k + 3 <= s < t < events.len()
            &&& accepted_at(c, events, k, number_after(end.seq), end.deliver_ms)
            &&& runs_between(c, events, s, t)
            &&& unchanged_between(c, events, s, t, end.before)
            &&& samples(c, events, t, Some(end.after))
            &&& exists|a: Option<i32>|
                #[trigger] samples(c, events, 3, a) && end.before == counter(a)
        }),
{
    let c = Course::start(cmd, addr);
    opening(c, events);
    turn_wait_ends(c, events)
}

/// A wait for a turn looks at the turn counter at once and after every pause of five
/// milliseconds, for as long as the stopwatch shows less than 750; it ends with the first
/// look that shows another counter.
pub proof fn turn_is_polled(c: Course, ms: u64, a: Option<i32>)
    requires
        c.phase is Turn,
        ms < 750,
    ensures
        c.deed() is Clock,
        ({
            let look = c.step(Outcome::Elapsed(ms));
            let next = look.step(Outcome::Sampled(a));
            &&& look.deed() is Sample
            &&& (a is None || a == Some(c.before)) ==> next.deed() == Deed::Sleep(5) && next.step(
                Outcome::Done,
            ) == c
            &&& (a matches Some(v) && v != c.before) ==> next.deed() is Over && next.phase is Done
                && next.after == a->0 && next.before == c.before
        }),
        forall|late: u64|
            late >= 750 ==> #[trigger] c.step(Outcome::Elapsed(late)) == (Course {
                phase: Phase::Done,
                ..c
            }),
{
}

/// A wait for the acknowledgement looks for it at once and after every pause of two
/// milliseconds, for as long as the command has time; it ends with the first look that
/// shows the command's number.
pub proof fn acknowledgement_is_polled(c: Course, ms: u64, b: Seq<u8>)
    requires
        c.valid(),
        c.phase is Wait,
        ms < patience(c.cmd),
        b.len() == 4,
    ensures
        c.deed() is Clock,
        ({
            let look = c.step(Outcome::Elapsed(ms));
            let next = look.step(Outcome::Reply(Answer::Bytes(b)));
            &&& look.deed() == Deed::Read(Read { addr: (c.addr + 16) as u64, len: 4 })
            &&& !layouts::word_stands(b, 0, number_after(c.seq)) ==> next.deed() == Deed::Sleep(2)
                && next.step(Outcome::Done) == c
            &&& layouts::word_stands(b, 0, number_after(c.seq)) ==> next.deed() is Clock
                && next.acked()
        }),
        forall|late: u64|
            late >= patience(c.cmd) ==> #[trigger] c.step(Outcome::Elapsed(late)).phase == (
            Phase::Failed { failure: Failure::NeverAcked }),
{
    layouts::word_stands_where_it_is_read(b, 0);
    if layouts::word_stands(b, 0, number_after(c.seq)) {
        layouts::word_is_read_where_it_stands(b, 0, number_after(c.seq));
    }
}

proof fn step_of_refusal(c: Course, e: Outcome)
    requires
        !(c.deed() is Over),
        e.follows(c.deed()),
        c.step(e).phase is Failed,
        c.step(e).phase->failure is Rejected,
    ensures
        ({
            let status = c.step(e).phase->failure->status;
            &&& c.phase is Status
            &&& c.deed() == Deed::Read(Read { addr: (c.addr + 20) as u64, len: 4 })
            &&& e matches Outcome::Reply(Answer::Bytes(b))
            &&& layouts::word_stands(b, 0, status as int)
            &&& status < 0
        }),
{
    if let Outcome::Reply(Answer::Bytes(b)) = e {
        layouts::word_stands_where_it_is_read(b, 0);
    }
}

/// That the shim refused a command is reported only if its status was read and was
/// negative; it is that status that is reported.
pub proof fn refusal_was_read(c: Course, events: Seq<Outcome>, status: i32) -> (t: int)
    requires
        c.phase is Version,
        c.valid(),
        plays(c, events),
        c.run(events).phase == (Phase::Failed { failure: Failure::Rejected { status } }),
    ensures
        0 <= t < events.len(),
        reads_word(c, events, t, 20, status as int),
        status < 0,
{
    let t = over_since(c, events);
    let then = first_steps(c, events, t);
    address_stays(c, events.take(t));
    step_of_refusal(then, events[t]);
    t
}

/// A mailbox of another version than 2 is reported with its version, and neither made
/// writable nor written to: the submission is over.
pub proof fn other_version_is_left_alone(c: Course, b: Seq<u8>, version: u32, more: Seq<Outcome>)
    requires
        c.phase is Version,
        c.valid(),
        version != 2,
        layouts::word_stands(b, 0, version as int),
    ensures
        c.deed() == Deed::Read(Read { addr: (c.addr + 8) as u64, len: 4 }),
        ({
            let then = c.step(Outcome::Reply(Answer::Bytes(b)));
            &&& then.deed() is Over
            &&& then.phase == (Phase::Failed {
                failure: Failure::Memory { error: Error::MailboxVersion { version } },
            })
            &&& then.run(more) == then
        }),
{
    layouts::word_is_read_where_it_stands(b, 0, version as int);
    over_is_over(c.step(Outcome::Reply(Answer::Bytes(b))), more);
}

/// What is reported of a success: how long the delivery took and, of a command that is no
/// dump, what the turn counter has shown before and after it.
pub proof fn report_tells_time_and_turn(c: Course)
    ensures
        ({
            let ms = text::dec(c.deliver_ms as int);
            let before = text::dec(c.before as int);
            let after = text::dec(c.after as int);
            let called = c.cmd.label(c.cmd.quoted());
            &&& c.cmd is Dump ==> c.report() == called + " completed in "@ + ms + "ms"@
            &&& !(c.cmd is Dump) && c.before != c.after ==> c.report() == called + " delivered in "@
                + ms + "ms; turn advanced "@ + before + " -> "@ + after
            &&& !(c.cmd is Dump) && c.before == c.after ==> c.report() == called + " delivered in "@
                + ms + "ms; no turn advanced (actionReady still "@ + before
                + ") -- UI-only key, or the game is waiting on something"@
        }),
{
}

/// What is reported of a command that the shim did not take.
pub proof fn complaint_tells_why(c: Course, status: i32, os: Seq<char>)
    ensures
        ({
            let called = c.cmd.label(c.cmd.quoted());
            &&& c.complaint(Failure::NeverAcked, os) == called + ": shim never acked (seq="@
                + text::dec(number_after(c.seq)) + ") -- is the patched SDL.dll loaded?"@
            &&& c.complaint(Failure::Rejected { status }, os) == called
                + ": shim rejected the command (status "@ + text::dec(status as int) + ")"@
        }),
{
}

} // verus!
