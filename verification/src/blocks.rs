//! What is reported of the blocks that the shim publishes, against the memory that was read
//! for it: the addresses of the build, the draw log, and the score sheet channel.

use crate::blit;
use crate::blit::{BlitStatus, Draw};
use crate::blit_job;
use crate::blit_job::{BlitAnswer, Shown};
use crate::bytes;
use crate::common;
use crate::common::Addrs;
use crate::error::Error;
use crate::landings;
use crate::layouts;
use crate::memory;
use crate::memory::{Exchange, Read, Stop};
use crate::mirrored;
use crate::readings;
use crate::scoresheet;
use crate::scoresheet::DumpView;
use crate::text;
use vstd::prelude::*;

verus! {

/// The addresses of the build are those that the status block publishes, each in a word of
/// its own. A build without a map object or a view is unknown; one without a player record
/// is not.
pub proof fn addresses_are_what_was_read(rest: Seq<Exchange>, base: usize, w: Seq<int>)
    requires
        base + 36 <= u64::MAX,
        memory::ask_words(rest, common::status_reads(base)) == Ok::<Seq<int>, Stop>(w),
    ensures
        match common::addrs_of(w) {
            Ok(a) => {
                &&& readings::word_read(rest, base + 20, a.luigi as int)
                &&& readings::word_read(rest, base + 24, a.build_stamp as int)
                &&& readings::word_read(rest, base + 28, a.map_object as int)
                &&& readings::word_read(
                    rest,
                    base + 32,
                    match a.player_rec {
                        Some(p) => p as int,
                        None => 0,
                    },
                )
                &&& readings::word_read(rest, base + 36, a.view_origin as int)
                &&& a.map_object != 0
                &&& a.view_origin != 0
                &&& a.player_rec != Some(0usize)
            },
            Err(stop) => {
                &&& readings::word_read(rest, base + 28, 0) || readings::word_read(
                    rest,
                    base + 36,
                    0,
                )
                &&& stop matches Stop::Fail(Error::UnknownBuild { stamp }) && readings::word_read(
                    rest,
                    base + 24,
                    stamp as int,
                )
            },
        },
{
    let reads = common::status_reads(base);
    mirrored::tape_is_within_itself(rest);
    readings::words_are_recorded(rest, rest, reads, w);
    assert(readings::word_read(rest, reads[0] as int, w[0]));
    assert(readings::word_read(rest, reads[1] as int, w[1]));
    assert(readings::word_read(rest, reads[2] as int, w[2]));
    assert(readings::word_read(rest, reads[3] as int, w[3]));
    assert(readings::word_read(rest, reads[4] as int, w[4]));
}

/// The view's origin is the column and the row that stand where the build publishes it.
pub proof fn origin_is_what_was_read(rest: Seq<Exchange>, a: Addrs, o: (i32, i32))
    requires
        a.view_origin + 4 <= u64::MAX,
        blit::origin_on(rest, Ok(a)) == Ok::<(i32, i32), Stop>(o),
    ensures
        readings::word_read(rest, a.view_origin as int, o.0 as int),
        readings::word_read(rest, a.view_origin + 4, o.1 as int),
{
    let reads = blit::origin_reads(a.view_origin);
    let w = memory::ask_words(rest, reads)->Ok_0;
    mirrored::tape_is_within_itself(rest);
    readings::words_are_recorded(rest, rest, reads, w);
    assert(readings::word_read(rest, reads[0] as int, bytes::signed32(w[0])));
    assert(readings::word_read(rest, reads[1] as int, bytes::signed32(w[1])));
}

/// The header of the draw log is what was read of it, word by word.
pub proof fn log_header_is_what_was_read(
    rest: Seq<Exchange>,
    base: u64,
    w: Seq<int>,
    s: BlitStatus,
)
    requires
        base + 36 <= u64::MAX,
        memory::ask_words(rest, blit::status_reads(base)) == Ok::<Seq<int>, Stop>(w),
        blit::status_is(s, base, w),
    ensures
        s.addr@ == text::address(base as nat),
        readings::word_read(rest, base + 8, s.enabled as int),
        readings::word_read(rest, base + 12, s.clear_req as int),
        readings::word_read(rest, base + 16, s.clear_seen as int),
        readings::word_read(rest, base + 20, s.frame as int),
        readings::word_read(rest, base + 24, s.count as int),
        readings::word_read(rest, base + 28, s.dropped as int),
        readings::word_read(rest, base + 32, s.total as int),
        readings::word_read(rest, base + 36, s.max as int),
{
    let reads = blit::status_reads(base);
    mirrored::tape_is_within_itself(rest);
    readings::words_are_recorded(rest, rest, reads, w);
    assert(readings::word_read(rest, reads[0] as int, bytes::signed32(w[0])));
    assert forall|i: int| 0 <= i < 8 implies readings::word_read(
        rest,
        #[trigger] reads[i] as int,
        w[i],
    ) by {
        assert(0 <= w[i]);
    }
    assert(readings::word_read(rest, reads[1] as int, w[1]));
    assert(readings::word_read(rest, reads[2] as int, w[2]));
    assert(readings::word_read(rest, reads[3] as int, w[3]));
    assert(readings::word_read(rest, reads[4] as int, w[4]));
    assert(readings::word_read(rest, reads[5] as int, w[5]));
    assert(readings::word_read(rest, reads[6] as int, w[6]));
    assert(readings::word_read(rest, reads[7] as int, w[7]));
}

/// Whether a series of draws is the one that stands in a block, one every twenty bytes.
pub open spec fn tells_draws(draws: Seq<Draw>, b: Seq<u8>) -> bool {
    forall|i: int|
        0 <= i < draws.len() ==> layouts::draw_stands(b, 20 * i, #[trigger] draws[i])
}

/// The draws of the log are its first ones, as many as it has and not more than asked for;
/// they stand from offset 40 on. Its frame and its count are what was read.
pub proof fn draws_are_what_was_read(
    rest: Seq<Exchange>,
    base: u64,
    limit: usize,
    d: (u32, u32, Seq<Draw>),
)
    requires
        base + 40 <= u64::MAX,
        blit::draws_on(rest, base, limit) == Ok::<(u32, u32, Seq<Draw>), Stop>(d),
    ensures
        readings::word_read(rest, base + 20, d.0 as int),
        readings::word_read(rest, base + 24, d.1 as int),
        d.1 <= 16384,
        d.1 <= limit ==> d.2.len() == d.1,
        d.1 > limit ==> d.2.len() == limit,
        d.2.len() > 0 ==> exists|b: Seq<u8>|
            #[trigger] mirrored::recorded(rest, base + 40, 20 * d.2.len() as int, b) && tells_draws(
                d.2,
                b,
            ),
{
    let reads = seq![(base + blit::OFF_FRAME) as u64, (base + blit::OFF_COUNT) as u64];
    let w = memory::ask_words(rest, reads)->Ok_0;
    mirrored::tape_is_within_itself(rest);
    readings::words_are_recorded(rest, rest, reads, w);
    assert(readings::word_read(rest, reads[0] as int, w[0]));
    assert(readings::word_read(rest, reads[1] as int, w[1]));
    let n = d.2.len() as int;
    if n > 0 {
        let q = Read { addr: (base + 40) as u64, len: (n * 20) as usize };
        mirrored::asked_is_recorded(rest.skip(2), rest, q);
        let b = memory::ask(rest.skip(2), q)->Ok_0;
        assert forall|i: int| 0 <= i < d.2.len() implies layouts::draw_stands(
            b,
            20 * i,
            #[trigger] d.2[i],
        ) by {
            layouts::draw_survives(b, 20 * i, d.2[i]);
        }
        assert(mirrored::recorded(rest, base + 40, 20 * d.2.len() as int, b));
    }
}

/// A log that claims more draws than it can hold is refused, with its count.
pub proof fn overfull_log_is_refused(rest: Seq<Exchange>, base: u64, limit: usize, w: Seq<int>)
    requires
        memory::ask_words(rest, seq![(base + 20) as u64, (base + 24) as u64]) == Ok::<
            Seq<int>,
            Stop,
        >(w),
        16384 < w[1] < 0x1_0000_0000,
    ensures
        blit::draws_on(rest, base, limit) == Err::<(u32, u32, Seq<Draw>), Stop>(
            Stop::Fail(Error::DrawCount { count: w[1] as u32 }),
        ),
{
}

/// A log that claims no more draws than it can hold is told as far as the draws can be read;
/// where none are wanted, none have to be.
pub proof fn log_in_bounds_is_told(rest: Seq<Exchange>, base: u64, limit: usize, w: Seq<int>)
    requires
        memory::ask_words(rest, seq![(base + 20) as u64, (base + 24) as u64]) == Ok::<
            Seq<int>,
            Stop,
        >(w),
        0 <= w[1] <= 16384,
    ensures
        w[1] == 0 || limit == 0 ==> blit::draws_on(rest, base, limit) is Ok,
        0 < w[1] <= limit ==> (blit::draws_on(rest, base, limit) is Ok <==> memory::ask(
            rest.skip(2),
            Read { addr: (base + 40) as u64, len: (20 * w[1]) as usize },
        ) is Ok),
        0 < limit < w[1] ==> (blit::draws_on(rest, base, limit) is Ok <==> memory::ask(
            rest.skip(2),
            Read { addr: (base + 40) as u64, len: (20 * limit) as usize },
        ) is Ok),
{
}

/// Whether `words` is what a state of the score sheet's writer means.
pub open spec fn means_status(v: i32, words: Seq<char>) -> bool {
    &&& v == 0 ==> words == "untried"@
    &&& v == 1 ==> words == "ready"@
    &&& v == -1 ==> words == "disabled by STATMIND_SCORESHEET=0"@
    &&& v == -2 ==> words == "GetModuleHandle(NULL) failed"@
    &&& v == -3 ==> words == "no PE header at the module base"@
    &&& v == -4 ==> words == "writer fingerprint failed -- not Beta 17.1"@
    &&& v == -5 ==> words == "call site did not match -- no Scorekeeper pointer"@
    &&& v == -6 ==> words == "not a Win32 build"@
    &&& !(-6 <= v <= 1) ==> words == "unknown"@
}

/// Whether `words` is what the outcome of a dump means.
pub open spec fn means_result(v: i32, words: Seq<char>) -> bool {
    &&& v == 0 ==> words == "no dump yet"@
    &&& v == 1 ==> words == "ok"@
    &&& v == -1 ==> words == "writer not ready"@
    &&& v == -2 ==> words == "refused: re-entered the frame hook"@
    &&& !(-2 <= v <= 1) ==> words == "unknown"@
}

/// Whether the bytes at `addr` are told as a text.
pub open spec fn tells_bytes(all: Seq<Exchange>, addr: int, len: int, t: Seq<char>) -> bool {
    exists|b: Seq<u8>| #[trigger] mirrored::recorded(all, addr, len, b) && t == text::lossy(b)
}

/// Whether the text that the writer returned is told: as long as its length says, and not
/// more than 192 bytes of it.
pub open spec fn tells_text(all: Seq<Exchange>, base: u64, returned: Seq<char>) -> bool {
    exists|n: u32|
        {
            &&& #[trigger] readings::word_read(all, base + 0x28, n as int)
            &&& n == 0 ==> returned.len() == 0
            &&& 0 < n <= 192 ==> tells_bytes(all, base + 0x2C, n as int, returned)
            &&& n > 192 ==> tells_bytes(all, base + 0x2C, 192, returned)
        }
}

/// Whether the score sheet channel is told as it stands at `base`.
pub open spec fn tells_channel(all: Seq<Exchange>, base: u64, s: DumpView) -> bool {
    &&& s.addr == text::address(base as nat)
    &&& readings::word_read(all, base + 0x08, s.status as int)
    &&& means_status(s.status, s.status_text)
    &&& tells_address(all, base + 0x0C, s.module_base)
    &&& tells_address(all, base + 0x10, s.writer)
    &&& tells_address(all, base + 0x14, s.scorekeeper)
    &&& readings::word_read(all, base + 0x18, s.req as int)
    &&& readings::word_read(all, base + 0x1C, s.done as int)
    &&& readings::word_read(all, base + 0x20, s.last_result as int)
    &&& means_result(s.last_result, s.last_result_text)
    &&& readings::word_read(all, base + 0x24, s.calls as int)
    &&& tells_text(all, base, s.returned)
    &&& exists|b: Seq<u8>|
        #[trigger] mirrored::recorded(all, base + 0xEC, 32, b) && s.ret_raw == text::dump(
            b,
            b.len() as int,
            false,
        )
}

/// Whether the word at `addr` is told as an address.
pub open spec fn tells_address(all: Seq<Exchange>, addr: int, t: Seq<char>) -> bool {
    exists|n: u32| #[trigger] readings::word_read(all, addr, n as int) && t == text::address(n as nat)
}

proof fn text_is_told(rest: Seq<Exchange>, all: Seq<Exchange>, base: u64, n: int)
    requires
        base + 0xEC <= u64::MAX,
        mirrored::within(rest, all),
        0 <= n < 0x1_0000_0000,
        readings::word_read(all, base + 0x28, n),
    ensures
        scoresheet::text_on(rest, base, scoresheet::text_len(n)) matches Ok(t) ==> tells_text(
            all,
            base,
            t.0,
        ) && mirrored::within(t.1, all),
{
    let len = scoresheet::text_len(n);
    if let Ok(t) = scoresheet::text_on(rest, base, len) {
        assert(readings::word_read(all, base + 0x28, (n as u32) as int));
        if n > 0 {
            let q = Read { addr: (base + 0x2C) as u64, len: len as usize };
            mirrored::asked_is_recorded(rest, all, q);
            let b = memory::ask(rest, q)->Ok_0;
            assert(mirrored::recorded(all, base + 0x2C, len, b));
        }
    }
}

/// The state of the score sheet channel is what was read of it.
pub proof fn channel_is_what_was_read(rest: Seq<Exchange>, base: u64, s: DumpView)
    requires
        base + 0xEC <= u64::MAX,
        scoresheet::status_on(rest, base) == Ok::<DumpView, Stop>(s),
    ensures
        tells_channel(rest, base, s),
{
    mirrored::tape_is_within_itself(rest);
    let heads = scoresheet::head_reads(base);
    let head = memory::ask_words(rest, heads)->Ok_0;
    readings::words_are_recorded(rest, rest, heads, head);
    assert(readings::word_read(rest, heads[0] as int, bytes::signed32(head[0])));
    assert(readings::word_read(rest, heads[1] as int, bytes::signed32(head[1])));
    assert(readings::word_read(rest, heads[2] as int, head[2]));
    text_is_told(rest.skip(3), rest, base, head[2]);
    let t = scoresheet::text_on(rest.skip(3), base, scoresheet::text_len(head[2]))->Ok_0;
    let tails = scoresheet::tail_reads(base);
    let tail = memory::ask_words(t.1, tails)->Ok_0;
    readings::words_are_recorded(t.1, rest, tails, tail);
    assert(readings::word_read(rest, tails[0] as int, (tail[0] as u32) as int));
    assert(readings::word_read(rest, tails[1] as int, (tail[1] as u32) as int));
    assert(readings::word_read(rest, tails[2] as int, (tail[2] as u32) as int));
    assert(readings::word_read(rest, tails[3] as int, tail[3]));
    assert(readings::word_read(rest, tails[4] as int, tail[4]));
    assert(readings::word_read(rest, tails[5] as int, tail[5]));
    let q = Read { addr: (base + 0xEC) as u64, len: 32 };
    mirrored::asked_is_recorded(t.1.skip(6), rest, q);
    let raw = memory::ask(t.1.skip(6), q)->Ok_0;
    assert(mirrored::recorded(rest, base + 0xEC, 32, raw));
}

/// Without a status block the search's own failure is told, as one of that block; with
/// addresses that are known nothing is looked for.
pub proof fn missing_status_is_told(code: i32, magic: u32, check: u32)
    ensures
        common::no_status(Error::Os { code }) == (Error::NoStatusOs { code }),
        common::no_status(Error::MagicNotFound { magic, check }) == (Error::NoStatusNotFound {
            magic,
            check,
        }),
        common::no_status(Error::MagicNotInRegions { magic, check }) == (
        Error::NoStatusNotInRegions { magic, check }),
{
}

/// A view is told with where it stands, its column and its row; it is plausible exactly if
/// both can be those of a map.
pub proof fn view_is_told(v: blit::ViewOrigin, at: usize, o: (i32, i32))
    requires
        blit::origin_is(v, at, o),
    ensures
        v.addr@ == text::address(at as nat),
        v.x == o.0,
        v.y == o.1,
        v.plausible <==> 0 <= v.x && v.x < 1024 && 0 <= v.y && v.y < 1024,
{
}

/// An answer about the draw log tells its frame, its count and the draws; one about the
/// screen the view's origin and the map's size besides.
pub proof fn answers_tell_what_is_shown(
    a: BlitAnswer,
    addr: u64,
    addrs: Result<Addrs, Error>,
    dims: (i32, i32),
    origin: (i32, i32),
    log: (u32, u32, Seq<Draw>),
)
    ensures
        blit_job::answers(a, Shown::Frame(log), addr, addrs, dims) ==> (a matches BlitAnswer::Frame {
            frame,
            count,
            draws,
        } && frame == log.0 && count == log.1 && draws@ == log.2),
        blit_job::answers(a, Shown::Screen { origin, log }, addr, addrs, dims) ==> (
        a matches BlitAnswer::Screen { frame, count, origin: from, dims: size, screen: s } && frame
            == log.0 && count == log.1 && from == origin && size == dims && s.hud_draws
            == landings::missed(log.2, origin, dims) && forall|i: int|
            0 <= i < s.cells@.len() ==> (#[trigger] s.cells@[i]).draws == landings::landed(
                log.2,
                origin,
                (s.cells@[i].x as int, s.cells@[i].y as int),
            )),
{
    if blit_job::answers(a, Shown::Screen { origin, log }, addr, addrs, dims) {
        if let BlitAnswer::Screen { frame, count, origin: from, dims: size, screen: s } = a {
            landings::screen_counts_landings(
                s.cells@,
                s.hud_draws as int,
                log.2,
                origin,
                dims,
            );
        }
    }
}

} // verus!
