//! What is reported of the player, the stats and the field of view, against the memory that
//! was read for it.

use crate::bytes;
use crate::cells;
use crate::cells::{CoordsView, PlayerView, StatsAt, StatsView};
use crate::common::Addrs;
use crate::error::Error;
use crate::ids::IdTable;
use crate::layouts;
use crate::memory;
use crate::memory::{Answer, Exchange, Read, Stop};
use crate::mirrored;
use crate::scan::{Differs, Holds, Marked};
use crate::sweep::Visit;
use crate::text;
use vstd::prelude::*;

verus! {

/// Whether the word at `addr` was read, and was `n`.
pub open spec fn word_read(all: Seq<Exchange>, addr: int, n: int) -> bool {
    exists|b: Seq<u8>|
        #[trigger] mirrored::recorded(all, addr, 4, b) && layouts::word_stands(b, 0, n)
}

/// A word that is the next read on a tape is recorded on it.
pub proof fn word_is_recorded(rest: Seq<Exchange>, all: Seq<Exchange>, addr: u64)
    requires
        mirrored::within(rest, all),
    ensures
        memory::ask_word(rest, addr) matches Ok(n) ==> {
            &&& 0 <= n < 0x1_0000_0000
            &&& word_read(all, addr as int, n)
            &&& word_read(all, addr as int, bytes::signed32(n))
            &&& -0x8000_0000 <= bytes::signed32(n) < 0x8000_0000
            &&& mirrored::within(rest.skip(1), all)
        },
{
    mirrored::asked_is_recorded(rest, all, Read { addr, len: 4 });
    if let Ok(b) = memory::ask(rest, Read { addr, len: 4 }) {
        layouts::word_stands_where_it_is_read(b, 0);
        assert(mirrored::recorded(all, addr as int, 4, b));
    }
}

/// Words that were read one by one are those that stand at their addresses.
pub proof fn words_are_recorded(
    rest: Seq<Exchange>,
    all: Seq<Exchange>,
    addrs: Seq<u64>,
    w: Seq<int>,
)
    requires
        mirrored::within(rest, all),
        memory::ask_words(rest, addrs) == Ok::<Seq<int>, Stop>(w),
    ensures
        w.len() == addrs.len(),
        mirrored::within(rest.skip(addrs.len() as int), all),
        forall|i: int|
            0 <= i < w.len() ==> {
                &&& 0 <= #[trigger] w[i] < 0x1_0000_0000
                &&& -0x8000_0000 <= bytes::signed32(w[i]) < 0x8000_0000
                &&& word_read(all, addrs[i] as int, w[i])
                &&& word_read(all, addrs[i] as int, bytes::signed32(w[i]))
            },
    decreases addrs.len(),
{
    if addrs.len() > 0 {
        word_is_recorded(rest, all, addrs[0]);
        let ws = memory::ask_words(rest.skip(1), addrs.skip(1))->Ok_0;
        words_are_recorded(rest.skip(1), all, addrs.skip(1), ws);
        memory::words_consume(rest, addrs);
        assert(rest.skip(1).skip(addrs.len() - 1) =~= rest.skip(addrs.len() as int));
        assert forall|i: int| 0 <= i < w.len() implies {
            &&& 0 <= #[trigger] w[i] < 0x1_0000_0000
            &&& -0x8000_0000 <= bytes::signed32(w[i]) < 0x8000_0000
            &&& word_read(all, addrs[i] as int, w[i])
            &&& word_read(all, addrs[i] as int, bytes::signed32(w[i]))
        } by {
            if i > 0 {
                assert(w[i] == ws[i - 1]);
                assert(addrs.skip(1)[i - 1] == addrs[i]);
            }
        }
    } else {
        assert(rest.skip(0) =~= rest);
    }
}

proof fn words_fail_as_reads_do(rest: Seq<Exchange>, addrs: Seq<u64>)
    ensures
        memory::ask_words(rest, addrs) matches Err(stop) ==> stop is Need || (stop matches Stop::Fail(
            e,
        ) && e is Os),
    decreases addrs.len(),
{
    if addrs.len() > 0 {
        words_fail_as_reads_do(rest.skip(1), addrs.skip(1));
    }
}

/// Whether a map can have this size.
pub open spec fn is_size(width: int, height: int) -> bool {
    1 <= width <= 1024 && 1 <= height <= 1024
}

/// The map's header is its width, its height and its table, one word after the other. A size
/// that no map has is refused, and so is a table that is nowhere; nothing else is, but what
/// cannot be read.
pub proof fn header_is_what_was_read(rest: Seq<Exchange>, all: Seq<Exchange>, a: Addrs)
    requires
        mirrored::within(rest, all),
        a.map_object + 8 <= usize::MAX,
        !(cells::header_on(rest, Ok(a)) matches Err(Stop::Need(_))),
        !(cells::header_on(rest, Ok(a)) matches Err(Stop::Fail(Error::Os { .. }))),
    ensures
        match cells::header_on(rest, Ok(a)) {
            Ok((width, height, table)) => {
                &&& word_read(all, a.map_object as int, width as int)
                &&& word_read(all, a.map_object + 4, height as int)
                &&& word_read(all, a.map_object + 8, table as int)
                &&& is_size(width as int, height as int)
                &&& table != 0
            },
            Err(Stop::Fail(Error::Implausible { width, height, map_obj })) => {
                &&& map_obj == a.map_object
                &&& word_read(all, a.map_object as int, width as int)
                &&& word_read(all, a.map_object + 4, height as int)
                &&& !is_size(width as int, height as int)
            },
            Err(Stop::Fail(Error::NullTable { addr })) => {
                &&& addr == a.map_object + 8
                &&& word_read(all, a.map_object + 8, 0)
            },
            _ => false,
        },
{
    let reads = cells::header_reads(a.map_object);
    words_fail_as_reads_do(rest, reads);
    if let Ok(w) = memory::ask_words(rest, reads) {
        words_are_recorded(rest, all, reads, w);
        assert(word_read(all, reads[0] as int, bytes::signed32(w[0])));
        assert(word_read(all, reads[1] as int, bytes::signed32(w[1])));
        assert(word_read(all, reads[2] as int, w[2]));
    }
}

/// The player record is a handle, a position and an identifier, one word after the other. It
/// is plausible exactly if the handle is set, the map's header can be read, and the position
/// lies on the map.
pub proof fn player_is_what_was_read(
    rest: Seq<Exchange>,
    a: Addrs,
    rec: usize,
    names: IdTable,
    p: PlayerView,
)
    requires
        a.player_rec == Some(rec),
        rec + 12 <= usize::MAX,
        cells::player_on(rest, Ok(a), names) == Ok::<PlayerView, Stop>(p),
    ensures
        p.addr == text::address(rec as nat),
        word_read(rest, rec as int, p.handle as int),
        word_read(rest, rec + 4, p.x as int),
        word_read(rest, rec + 8, p.y as int),
        word_read(rest, rec + 12, p.entity_id as int),
        p.entity_name == names.lookup(p.entity_id as int),
        p.plausible <==> {
            &&& p.handle != 0
            &&& cells::header_on(rest.skip(4), Ok(a)) matches Ok((width, height, _))
            &&& 0 <= p.x < width
            &&& 0 <= p.y < height
        },
{
    mirrored::tape_is_within_itself(rest);
    let reads = cells::player_reads(rec);
    let w = memory::ask_words(rest, reads)->Ok_0;
    words_are_recorded(rest, rest, reads, w);
    assert(word_read(rest, reads[0] as int, w[0]));
    assert(word_read(rest, reads[1] as int, bytes::signed32(w[1])));
    assert(word_read(rest, reads[2] as int, bytes::signed32(w[2])));
    assert(word_read(rest, reads[3] as int, bytes::signed32(w[3])));
}

/// Without a player record in the running build there is nothing to read.
pub proof fn no_record_no_player(rest: Seq<Exchange>, a: Addrs, names: IdTable, e: Error)
    requires
        a.player_rec is None,
    ensures
        cells::player_on(rest, Ok(a), names) == Err::<PlayerView, Stop>(
            Stop::Fail(Error::NoPlayerRecord),
        ),
        cells::player_on(rest, Err(e), names) == Err::<PlayerView, Stop>(Stop::Fail(e)),
        cells::header_on(rest, Err(e)) == Err::<(i32, i32, u32), Stop>(Stop::Fail(e)),
{
}

/// Where the speed stands: 0x44 bytes before the stats, where addresses wrap around.
pub open spec fn speed_place(base: u64) -> int {
    (base - 0x44) % 0x1_0000_0000_0000_0000
}

/// The stats are integrity, energy, matter, heat and corruption, one word after the other.
/// The speed stands before them; it is -1 where it cannot be read.
pub proof fn stats_are_what_was_read(
    rest: Seq<Exchange>,
    all: Seq<Exchange>,
    base: u64,
    s: StatsView,
)
    requires
        mirrored::within(rest, all),
        base + 16 <= u64::MAX,
        cells::stats_on(rest, base) == Ok::<StatsView, Stop>(s),
    ensures
        s.base == text::address(base as nat),
        word_read(all, base as int, s.integrity as int),
        word_read(all, base + 4, s.energy as int),
        word_read(all, base + 8, s.matter as int),
        word_read(all, base + 12, s.heat as int),
        word_read(all, base + 16, s.corruption as int),
        word_read(all, speed_place(base), s.speed as int) || s.speed == -1 && all.contains(
            rest[5],
        ) && rest[5].read.addr == speed_place(base) && rest[5].answer is Failed,
{
    let reads = cells::stats_reads(base);
    let w = memory::ask_words(rest, reads)->Ok_0;
    words_are_recorded(rest, all, reads, w);
    memory::words_consume(rest, reads);
    assert(word_read(all, reads[0] as int, bytes::signed32(w[0])));
    assert(word_read(all, reads[1] as int, bytes::signed32(w[1])));
    assert(word_read(all, reads[2] as int, bytes::signed32(w[2])));
    assert(word_read(all, reads[3] as int, bytes::signed32(w[3])));
    assert(word_read(all, reads[4] as int, bytes::signed32(w[4])));
    let more = rest.skip(5);
    assert(cells::speed_addr(base) == speed_place(base));
    word_is_recorded(more, all, cells::speed_addr(base));
    assert(more[0] == rest[5]);
    assert(all.contains(more[0]));
}

/// A record is taken for the player's stats exactly if it has the integrity that is looked
/// for and values that a player can have.
pub proof fn sane_stats_are_in_range(s: StatsView, integrity: i32)
    ensures
        cells::sane(s, integrity) <==> {
            &&& s.integrity == integrity
            &&& 0 <= s.energy
            &&& s.energy <= 100_000
            &&& 0 <= s.heat
            &&& s.heat <= 100_000
            &&& 0 <= s.corruption
            &&& s.corruption <= 100
        },
{
}

/// Whether a series of coordinates is the one that stands in a block: each as a column and a
/// row, one word after the other.
pub open spec fn tells_coords(coords: Seq<(i32, i32)>, b: Seq<u8>) -> bool {
    forall|i: int|
        0 <= i < coords.len() ==> layouts::word_stands(b, 8 * i, (#[trigger] coords[i]).0 as int)
            && layouts::word_stands(b, 8 * i + 4, coords[i].1 as int)
}

/// Whether three pointers can be those of a vector of eight-byte elements that is not
/// absurdly long, or of one that holds nothing yet.
pub open spec fn is_vector(first: u32, last: u32, end: u32) -> bool {
    ||| first == 0 && last == 0 && end == 0
    ||| {
        &&& 0 < first <= last <= end
        &&& (last - first) % 8 == 0
        &&& last - first <= 800_000
    }
}

/// Whether a vector from `first` to `end` has room for `n` elements of eight bytes; addresses
/// wrap around.
pub open spec fn is_capacity(first: int, end: int, n: int) -> bool {
    &&& first <= end ==> 8 * n <= end - first < 8 * n + 8
    &&& first > end ==> 8 * n <= end - first + 0x1_0000_0000 < 8 * n + 8
}

proof fn capacity_is_told(first: int, end: int)
    requires
        0 <= first < 0x1_0000_0000,
        0 <= end < 0x1_0000_0000,
    ensures
        is_capacity(first, end, bytes::bits32(end - first) / 8),
{
    if first > end {
        assert(bytes::bits32(end - first) == end - first + 0x1_0000_0000);
    } else {
        assert(bytes::bits32(end - first) == end - first);
    }
}

/// Whether a container is reported as it stands at `off` of the object at `obj`: its three
/// pointers, the number of its elements, and of these the first `cap`.
pub open spec fn tells_vector(
    all: Seq<Exchange>,
    obj: u32,
    off: int,
    cap: u64,
    v: CoordsView,
) -> bool {
    &&& word_read(all, obj + off, v.first as int)
    &&& word_read(all, obj + off + 4, v.last as int)
    &&& word_read(all, obj + off + 8, v.end as int)
    &&& v.plausible <==> is_vector(v.first, v.last, v.end)
    &&& v.plausible ==> 8 * v.len == v.last - v.first
    &&& !v.plausible ==> v.len == 0
    &&& is_capacity(v.first as int, v.end as int, v.capacity)
    &&& v.len <= cap ==> v.coords.len() == v.len
    &&& v.len > cap ==> v.coords.len() == cap
    &&& v.len > 0 ==> exists|b: Seq<u8>|
        #[trigger] mirrored::recorded(all, v.first as int, 8 * v.coords.len() as int, b) && tells_coords(v.coords, b)
    &&& v.member_offset == "+0x"@ + text::hex(off as nat, 1)
}

#[verifier::spinoff_prover]
proof fn vector_is_told(
    rest: Seq<Exchange>,
    all: Seq<Exchange>,
    obj: u32,
    off: usize,
    cap: u64,
)
    requires
        mirrored::within(rest, all),
        off <= 0x7E0,
    ensures
        cells::coords_on(rest, obj, off, cap) matches Ok(o) ==> mirrored::within(o.1, all) && tells_vector(
            all,
            obj,
            off as int,
            cap,
            o.0,
        ),
{
    if let Ok(o) = cells::coords_on(rest, obj, off, cap) {
        let reads = cells::vec_reads(obj, off);
        let w = memory::ask_words(rest, reads)->Ok_0;
        let v = o.0;
        words_are_recorded(rest, all, reads, w);
        assert(word_read(all, reads[0] as int, w[0]));
        assert(word_read(all, reads[1] as int, w[1]));
        assert(word_read(all, reads[2] as int, w[2]));
        vector_is_plausible(w[0], w[1], w[2]);
        capacity_is_told(w[0], w[2]);
        let len = cells::vec_len(w[0], w[1], w[2]);
        let want = cells::least(len, cap as int);
        if len > 0 {
            let q = Read { addr: w[0] as u64, len: (8 * want) as usize };
            memory::words_consume(rest, reads);
            mirrored::asked_is_recorded(rest.skip(3), all, q);
            assert(rest.skip(3).skip(1) =~= rest.skip(4));
            let b = memory::ask(rest.skip(3), q)->Ok_0;
            assert forall|i: int| 0 <= i < v.coords.len() implies layouts::word_stands(
                b,
                8 * i,
                (#[trigger] v.coords[i]).0 as int,
            ) && layouts::word_stands(b, 8 * i + 4, v.coords[i].1 as int) by {
                layouts::word_stands_where_it_is_read(b, 8 * i);
                layouts::word_stands_where_it_is_read(b, 8 * i + 4);
            }
            assert(mirrored::recorded(all, v.first as int, 8 * v.coords.len() as int, b));
        }
    }
}

proof fn vector_is_plausible(a: int, b: int, c: int)
    requires
        0 <= a < 0x1_0000_0000,
        0 <= b < 0x1_0000_0000,
        0 <= c < 0x1_0000_0000,
    ensures
        cells::vec_is_plausible(a, b, c) <==> is_vector(a as u32, b as u32, c as u32),
        cells::vec_is_plausible(a, b, c) ==> 8 * cells::vec_len(a, b, c) == b - a,
        !cells::vec_is_plausible(a, b, c) ==> cells::vec_len(a, b, c) == 0,
        0 <= cells::vec_len(a, b, c) <= 100_000,
{
    if cells::vec_is_plausible(a, b, c) {
        let n = (b - a) / 8;
        assert(8 * n == b - a);
    }
}

/// The field of view is what was read of it: the object that the game's pointer leads to, and
/// its three containers.
pub proof fn fov_is_what_was_read(
    rest: Seq<Exchange>,
    cap: u64,
    f: (u32, CoordsView, CoordsView, CoordsView),
)
    requires
        cells::fov_on(rest, cap) == Ok::<(u32, CoordsView, CoordsView, CoordsView), Stop>(f),
    ensures
        word_read(rest, 0x00CE_FC4C, f.0 as int),
        f.0 != 0,
        tells_vector(rest, f.0, 0x7D0, cap, f.1),
        tells_vector(rest, f.0, 0x7C4, cap, f.2),
        tells_vector(rest, f.0, 0x7E0, cap, f.3),
{
    mirrored::tape_is_within_itself(rest);
    word_is_recorded(rest, rest, cells::FOV_OBJ_PTR as u64);
    let obj = f.0;
    vector_is_told(rest.skip(1), rest, obj, cells::FOV_VISIBLE_OFF, cap);
    let v = cells::coords_on(rest.skip(1), obj, cells::FOV_VISIBLE_OFF, cap)->Ok_0;
    vector_is_told(v.1, rest, obj, cells::FOV_SIBLING_A_OFF, cap);
    let a = cells::coords_on(v.1, obj, cells::FOV_SIBLING_A_OFF, cap)->Ok_0;
    vector_is_told(a.1, rest, obj, cells::FOV_SIBLING_B_OFF, cap);
}

/// Whether the word at `addr` of a memory is `n`.
pub open spec fn word_of(mem: spec_fn(Read) -> Answer, addr: int, n: int) -> bool {
    mem(Read { addr: addr as u64, len: 4 }) matches Answer::Bytes(b) && layouts::word_stands(
        b,
        0,
        n,
    )
}

/// A marked block is told by the word after its first.
pub proof fn mark_is_the_word_after(mem: spec_fn(Read) -> Answer, a: u64, check: u32)
    requires
        a + 4 <= u64::MAX,
    ensures
        (Marked { check }).seen_in(mem, a) == if word_of(mem, a + 4, check as int) {
            Some(a)
        } else {
            None
        },
{
    if let Answer::Bytes(b) = mem(Read { addr: (a + 4) as u64, len: 4 }) {
        layouts::word_stands_where_it_is_read(b, 0);
        if layouts::word_stands(b, 0, check as int) {
            layouts::word_is_read_where_it_stands(b, 0, check as int);
        }
    }
}

/// An address is kept by a filter exactly if it holds the value, and as changed exactly if
/// it holds another, together with that one.
pub proof fn values_are_told_apart(mem: spec_fn(Read) -> Answer, a: u64, v: i32)
    ensures
        (Holds { value: v }).seen_in(mem, a) == if word_of(mem, a as int, v as int) {
            Some(a)
        } else {
            None
        },
        match (Differs { was: v }).seen_in(mem, a) {
            Some((at, now)) => at == a && now != v && word_of(mem, a as int, now as int),
            None => mem(Read { addr: a, len: 4 }) is Failed || word_of(mem, a as int, v as int),
        },
{
    if let Answer::Bytes(b) = mem(Read { addr: a, len: 4 }) {
        layouts::word_stands_where_it_is_read(b, 0);
        if layouts::word_stands(b, 0, v as int) {
            layouts::word_is_read_where_it_stands(b, 0, v as int);
        }
    }
}

proof fn words_stand_in(mem: spec_fn(Read) -> Answer, addrs: Seq<u64>, w: Seq<int>)
    requires
        memory::words_in(mem, addrs) == Ok::<Seq<int>, Error>(w),
    ensures
        w.len() == addrs.len(),
        forall|i: int|
            0 <= i < w.len() ==> {
                &&& -0x8000_0000 <= bytes::signed32(#[trigger] w[i]) < 0x8000_0000
                &&& word_of(mem, addrs[i] as int, bytes::signed32(w[i]))
            },
    decreases addrs.len(),
{
    if addrs.len() > 0 {
        let b = mem(Read { addr: addrs[0], len: 4 })->Bytes_0;
        layouts::word_stands_where_it_is_read(b, 0);
        let ws = memory::words_in(mem, addrs.skip(1))->Ok_0;
        words_stand_in(mem, addrs.skip(1), ws);
        assert forall|i: int| 0 <= i < w.len() implies {
            &&& -0x8000_0000 <= bytes::signed32(#[trigger] w[i]) < 0x8000_0000
            &&& word_of(mem, addrs[i] as int, bytes::signed32(w[i]))
        } by {
            if i > 0 {
                assert(w[i] == ws[i - 1]);
                assert(addrs.skip(1)[i - 1] == addrs[i]);
            }
        }
    }
}

/// Stats are looked for by their matter, eight bytes into them: a record is reported only
/// where all of it can be read, has the integrity that is looked for, and values that a
/// player can have.
pub proof fn stats_are_found_by_matter(
    mem: spec_fn(Read) -> Answer,
    a: u64,
    integrity: i32,
    s: StatsView,
)
    requires
        a + 8 <= u64::MAX,
        (StatsAt { integrity }).seen_in(mem, a) == Some(s),
    ensures
        a >= 8,
        s.base == text::address((a - 8) as nat),
        s.integrity == integrity,
        word_of(mem, a - 8, integrity as int),
        word_of(mem, a - 4, s.energy as int),
        word_of(mem, a as int, s.matter as int),
        word_of(mem, a + 4, s.heat as int),
        word_of(mem, a + 8, s.corruption as int),
        0 <= s.energy <= 100_000,
        0 <= s.heat <= 100_000,
        0 <= s.corruption <= 100,
{
    let base = (a - 8) as u64;
    let reads = cells::stats_reads(base);
    let w = memory::words_in(mem, reads)->Ok_0;
    words_stand_in(mem, reads, w);
    assert(word_of(mem, reads[0] as int, bytes::signed32(w[0])));
    assert(word_of(mem, reads[1] as int, bytes::signed32(w[1])));
    assert(word_of(mem, reads[2] as int, bytes::signed32(w[2])));
    assert(word_of(mem, reads[3] as int, bytes::signed32(w[3])));
    assert(word_of(mem, reads[4] as int, bytes::signed32(w[4])));
}

proof fn readable_words_are_told(mem: spec_fn(Read) -> Answer, addrs: Seq<u64>)
    requires
        forall|i: int|
            0 <= i < addrs.len() ==> mem(Read { addr: #[trigger] addrs[i], len: 4 }) is Bytes,
    ensures
        memory::words_in(mem, addrs) is Ok,
    decreases addrs.len(),
{
    if addrs.len() > 0 {
        assert(mem(Read { addr: addrs[0], len: 4 }) is Bytes);
        assert forall|i: int| 0 <= i < addrs.skip(1).len() implies mem(
            Read { addr: #[trigger] addrs.skip(1)[i], len: 4 },
        ) is Bytes by {
            assert(addrs.skip(1)[i] == addrs[i + 1]);
        }
        readable_words_are_told(mem, addrs.skip(1));
    }
}

proof fn word_has_one_value(mem: spec_fn(Read) -> Answer, addr: int, m: int, n: int)
    requires
        word_of(mem, addr, m),
        word_of(mem, addr, n),
        -0x8000_0000 <= m < 0x8000_0000,
        -0x8000_0000 <= n < 0x8000_0000,
    ensures
        m == n,
{
    let b = mem(Read { addr: addr as u64, len: 4 })->Bytes_0;
    layouts::word_is_read_where_it_stands(b, 0, m);
    layouts::word_is_read_where_it_stands(b, 0, n);
}

/// Stats that can be read, have the integrity that is looked for, and values that a player
/// can have are found by their matter, even at the very start of the memory.
pub proof fn sane_stats_are_found(
    mem: spec_fn(Read) -> Answer,
    a: u64,
    integrity: i32,
    energy: i32,
    matter: i32,
    heat: i32,
    corruption: i32,
)
    requires
        8 <= a,
        a + 8 <= u64::MAX,
        word_of(mem, a - 8, integrity as int),
        word_of(mem, a - 4, energy as int),
        word_of(mem, a as int, matter as int),
        word_of(mem, a + 4, heat as int),
        word_of(mem, a + 8, corruption as int),
        0 <= energy <= 100_000,
        0 <= heat <= 100_000,
        0 <= corruption <= 100,
    ensures
        (StatsAt { integrity }).seen_in(mem, a) matches Some(s) && s.energy == energy && s.matter
            == matter && s.heat == heat && s.corruption == corruption,
{
    let base = (a - 8) as u64;
    let reads = cells::stats_reads(base);
    readable_words_are_told(mem, reads);
    let w = memory::words_in(mem, reads)->Ok_0;
    words_stand_in(mem, reads, w);
    assert(word_of(mem, reads[0] as int, bytes::signed32(w[0])));
    assert(word_of(mem, reads[1] as int, bytes::signed32(w[1])));
    assert(word_of(mem, reads[2] as int, bytes::signed32(w[2])));
    assert(word_of(mem, reads[3] as int, bytes::signed32(w[3])));
    assert(word_of(mem, reads[4] as int, bytes::signed32(w[4])));
    word_has_one_value(mem, a - 8, bytes::signed32(w[0]), integrity as int);
    word_has_one_value(mem, a - 4, bytes::signed32(w[1]), energy as int);
    word_has_one_value(mem, a as int, bytes::signed32(w[2]), matter as int);
    word_has_one_value(mem, a + 4, bytes::signed32(w[3]), heat as int);
    word_has_one_value(mem, a + 8, bytes::signed32(w[4]), corruption as int);
}

} // verus!
