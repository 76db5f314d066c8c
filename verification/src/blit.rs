//! The log of what the game drew.
//!
//! Every tile on the screen is a blit, so the blits of a stretch of time tell which
//! cells of the map were redrawn in it.

use crate::bytes;
use crate::bytes::{half_at, short_at, store32, to_i32, word_at};
use crate::common::Addrs;
use crate::error::Error;
use crate::memory;
use crate::memory::{Exchange, Read, Stop, Tape, Write};
use crate::scan::Marked;
use crate::search;
use crate::search::{find_marked, marked, Search};
use crate::text;
use crate::text::address_text;
use vstd::prelude::*;

verus! {

/// The two words that mark the log.
pub const BLIT_MAGIC: u32 = 0xBADB_EEF3;

pub const BLIT_CHECK: u32 = 0x7953_3EDB;

/// Field offsets of the log.
pub const OFF_ENABLED: u64 = 8;

pub const OFF_CLEAR_REQ: u64 = 12;

pub const OFF_CLEAR_SEEN: u64 = 16;

pub const OFF_FRAME: u64 = 20;

pub const OFF_COUNT: u64 = 24;

pub const OFF_DROPPED: u64 = 28;

pub const OFF_TOTAL: u64 = 32;

pub const OFF_MAX: u64 = 36;

pub const OFF_DRAWS: u64 = 40;

pub const DRAW_SIZE: usize = 20;

pub const DRAW_MAX: usize = 16384;

/// How much of the log has to be writable for a change to its header.
pub const HEADER_LEN: usize = 64;

/// The kinds of draws.
pub const KIND_BLIT: u16 = 0;

pub const KIND_FILL: u16 = 1;

/// The size of a screen cell, in pixels. A character is two blits of half that width.
pub const CELL_W: i32 = 24;

pub const CELL_H: i32 = 24;

/// The map view's top-left cell, in game coordinates.
#[derive(Debug)]
pub struct ViewOrigin {
    pub addr: String,
    pub x: i32,
    pub y: i32,
    /// Both coordinates can be those of a map.
    pub plausible: bool,
}

/// Where the two integers of the view's origin are read.
pub open spec fn origin_reads(at: usize) -> Seq<u64> {
    seq![at as u64, (at + 4) as u64]
}

/// What a tape says of the view's origin, which stands where the shim has published for
/// the running build; without such addresses nothing is read.
pub open spec fn origin_on(rest: Seq<Exchange>, addrs: Result<Addrs, Error>) -> Result<
    (i32, i32),
    Stop,
> {
    match addrs {
        Err(e) => Err(Stop::Fail(e)),
        Ok(a) => match memory::ask_words(rest, origin_reads(a.view_origin)) {
            Err(stop) => Err(stop),
            Ok(w) => Ok((bytes::signed32(w[0]) as i32, bytes::signed32(w[1]) as i32)),
        },
    }
}

/// Whether a report is that of the view's origin `o`, which stands at `at`.
pub open spec fn origin_is(v: ViewOrigin, at: usize, o: (i32, i32)) -> bool {
    &&& v.addr@ == text::address(at as nat)
    &&& v.x == o.0
    &&& v.y == o.1
    &&& v.plausible == (0 <= o.0 < 1024 && 0 <= o.1 < 1024)
}

/// Reads the view's origin. `addrs` are the addresses for the running build, or why there
/// are none.
pub fn read_view_origin(addrs: Result<Addrs, Error>, tape: &mut Tape) -> (r: Result<
    ViewOrigin,
    Stop,
>)
    requires
        addrs matches Ok(a) ==> a.view_origin + 4 <= u64::MAX,
    ensures
        final(tape).all() == old(tape).all(),
        addrs is Err ==> final(tape).rest() == old(tape).rest(),
        match origin_on(old(tape).rest(), addrs) {
            Ok(o) => {
                &&& r matches Ok(v)
                &&& addrs matches Ok(a)
                &&& origin_is(v, a.view_origin, o)
                &&& old(tape).rest().len() >= 2
                &&& final(tape).rest() == old(tape).rest().skip(2)
            },
            Err(stop) => r matches Err(e) && e == stop,
        },
{
    let at: usize = match addrs {
        Ok(a) => a.view_origin,
        Err(e) => return Err(Stop::Fail(e)),
    };
    let reads: [u64; 2] = [at as u64, at as u64 + 4];
    assert(reads@ =~= origin_reads(at));
    let w: Vec<u32> = tape.words(&reads)?;
    let x: i32 = to_i32(w[0]);
    let y: i32 = to_i32(w[1]);
    Ok(
        ViewOrigin {
            addr: address_text(at as u64),
            x,
            y,
            plausible: 0 <= x && x < 1024 && 0 <= y && y < 1024,
        },
    )
}

/// `n / d`, rounded toward zero.
pub open spec fn quotient(n: int, d: int) -> int {
    if n >= 0 {
        n / d
    } else {
        -((-n) / d)
    }
}

fn cells_in(n: i32, d: i32) -> (r: i32)
    requires
        d == 24,
    ensures
        r == quotient(n as int, d as int),
        -89478486 < r < 89478486,
{
    if n >= 0 {
        n / d
    } else {
        let m: i64 = -(n as i64);
        (-(m / d as i64)) as i32
    }
}

/// The game cell that is drawn at a pixel, given the view's origin.
pub fn screen_to_game(dx: i32, dy: i32, ox: i32, oy: i32) -> (r: (i32, i32))
    requires
        i32::MIN <= quotient(dx as int, CELL_W as int) + ox <= i32::MAX,
        i32::MIN <= quotient(dy as int, CELL_H as int) + oy <= i32::MAX,
    ensures
        r.0 == quotient(dx as int, CELL_W as int) + ox,
        r.1 == quotient(dy as int, CELL_H as int) + oy,
{
    (cells_in(dx, CELL_W) + ox, cells_in(dy, CELL_H) + oy)
}

/// The top-left pixel of a game cell, given the view's origin.
pub fn game_to_pixel(x: i32, y: i32, ox: i32, oy: i32) -> (r: (i32, i32))
    requires
        i32::MIN <= x - ox <= i32::MAX,
        i32::MIN <= y - oy <= i32::MAX,
        i32::MIN <= (x - ox) * CELL_W <= i32::MAX,
        i32::MIN <= (y - oy) * CELL_H <= i32::MAX,
    ensures
        r.0 == (x - ox) * CELL_W,
        r.1 == (y - oy) * CELL_H,
{
    ((x - ox) * CELL_W, (y - oy) * CELL_H)
}

/// The top-left pixel of a cell shows that cell.
pub proof fn pixel_shows_its_cell(x: int, ox: int)
    ensures
        quotient((x - ox) * CELL_W, CELL_W as int) + ox == x,
        quotient((x - ox) * CELL_H, CELL_H as int) + ox == x,
{
    let k = x - ox;
    assert((24 * k) / 24 == k) by (nonlinear_arith);
    assert((24 * (-k)) / 24 == -k) by (nonlinear_arith);
}

/// So does every other pixel of a cell that is not left of or above the view.
pub proof fn cell_fills_its_square(x: int, ox: int, p: int)
    requires
        x >= ox,
        0 <= p < CELL_W,
    ensures
        quotient((x - ox) * CELL_W + p, CELL_W as int) + ox == x,
{
    let k = x - ox;
    assert((24 * k + p) / 24 == k) by (nonlinear_arith)
        requires
            0 <= p < 24,
    ;
}

/// One draw.
#[derive(Debug, Clone, Copy, PartialEq, Eq, Structural)]
pub struct Draw {
    pub dx: i16,
    pub dy: i16,
    pub w: i16,
    pub h: i16,
    /// A blit's position in the atlas, which tells the glyph.
    pub sx: i16,
    pub sy: i16,
    /// 0 for a blit, 1 for a fill.
    pub kind: u16,
    /// A blit's source surface; a fill's colour.
    pub arg: u32,
}

/// The draw that stands at offset `o`.
pub open spec fn draw_of(b: Seq<u8>, o: int) -> Draw {
    Draw {
        dx: bytes::signed16(bytes::le16(b, o)) as i16,
        dy: bytes::signed16(bytes::le16(b, o + 2)) as i16,
        w: bytes::signed16(bytes::le16(b, o + 4)) as i16,
        h: bytes::signed16(bytes::le16(b, o + 6)) as i16,
        sx: bytes::signed16(bytes::le16(b, o + 8)) as i16,
        sy: bytes::signed16(bytes::le16(b, o + 10)) as i16,
        kind: bytes::le16(b, o + 12) as u16,
        arg: bytes::le32(b, o + 16) as u32,
    }
}

/// The first `n` draws of a block.
pub open spec fn draws_of(b: Seq<u8>, n: int) -> Seq<Draw> {
    Seq::new(n as nat, |i: int| draw_of(b, 20 * i))
}

/// The header of the log.
#[derive(Debug)]
pub struct BlitStatus {
    pub addr: String,
    pub enabled: i32,
    pub clear_req: u32,
    pub clear_seen: u32,
    /// Frames since the last clear.
    pub frame: u32,
    pub count: u32,
    pub dropped: u32,
    pub total: u32,
    pub max: u32,
}

/// Where the fields of the header are read, in this order.
pub open spec fn status_reads(base: u64) -> Seq<u64> {
    seq![
        (base + OFF_ENABLED) as u64,
        (base + OFF_CLEAR_REQ) as u64,
        (base + OFF_CLEAR_SEEN) as u64,
        (base + OFF_FRAME) as u64,
        (base + OFF_COUNT) as u64,
        (base + OFF_DROPPED) as u64,
        (base + OFF_TOTAL) as u64,
        (base + OFF_MAX) as u64,
    ]
}

/// Whether a header is the one that those words spell.
pub open spec fn status_is(s: BlitStatus, base: u64, w: Seq<int>) -> bool {
    &&& s.addr@ == text::address(base as nat)
    &&& s.enabled == bytes::signed32(w[0])
    &&& s.clear_req == w[1]
    &&& s.clear_seen == w[2]
    &&& s.frame == w[3]
    &&& s.count == w[4]
    &&& s.dropped == w[5]
    &&& s.total == w[6]
    &&& s.max == w[7]
}

/// Reads the header of the log at `base`.
pub fn status(base: u64, tape: &mut Tape) -> (r: Result<BlitStatus, Stop>)
    requires
        base + OFF_MAX <= u64::MAX,
    ensures
        final(tape).all() == old(tape).all(),
        match memory::ask_words(old(tape).rest(), status_reads(base)) {
            Ok(w) => r matches Ok(s) && status_is(s, base, w),
            Err(stop) => r matches Err(e) && e == stop,
        },
{
    let reads: [u64; 8] = [
        base + OFF_ENABLED,
        base + OFF_CLEAR_REQ,
        base + OFF_CLEAR_SEEN,
        base + OFF_FRAME,
        base + OFF_COUNT,
        base + OFF_DROPPED,
        base + OFF_TOTAL,
        base + OFF_MAX,
    ];
    assert(reads@ =~= status_reads(base));
    let w: Vec<u32> = tape.words(&reads)?;
    Ok(
        BlitStatus {
            addr: address_text(base),
            enabled: to_i32(w[0]),
            clear_req: w[1],
            clear_seen: w[2],
            frame: w[3],
            count: w[4],
            dropped: w[5],
            total: w[6],
            max: w[7],
        },
    )
}

/// Starts looking for the log in the regions.
pub fn find(regions: Vec<(u64, u64)>) -> (s: Search<Marked>)
    ensures
        s@ == search::Trail::start(
            regions@,
            bytes::signed32(BLIT_MAGIC as int) as i32,
            (Marked { check: BLIT_CHECK }),
            true,
        ),
{
    find_marked(regions, BLIT_MAGIC, BLIT_CHECK)
}

/// Where the log was found, once the search is over.
pub fn found(s: Search<Marked>) -> (r: Result<u64, Error>)
    ensures
        r == if s@.hits().len() > 0 {
            Ok::<u64, Error>(s@.hits()[0])
        } else {
            Err(Error::BlitNotFound)
        },
{
    match marked(s) {
        Some(a) => Ok(a),
        None => Err(Error::BlitNotFound),
    }
}

/// The write that turns recording on or off.
pub fn enable_write(base: u64, on: bool) -> (w: Write)
    requires
        base + OFF_ENABLED <= u64::MAX,
    ensures
        w@.addr == base + OFF_ENABLED,
        w@.bytes == bytes::bytes32(
            if on {
                1
            } else {
                0
            },
        ),
{
    let v: u32 = if on {
        1
    } else {
        0
    };
    Write { addr: base + OFF_ENABLED, bytes: store32(v) }
}

/// The write that asks for a fresh log: the request counter goes up by one.
pub fn clear_write(base: u64, clear_req: u32) -> (w: Write)
    requires
        base + OFF_CLEAR_REQ <= u64::MAX,
        clear_req < u32::MAX,
    ensures
        w@.addr == base + OFF_CLEAR_REQ,
        w@.bytes == bytes::bytes32(clear_req + 1),
{
    Write { addr: base + OFF_CLEAR_REQ, bytes: store32(clear_req + 1) }
}

/// What a tape says of the log: its frame, its count and at most `limit` of its draws.
pub open spec fn draws_on(rest: Seq<Exchange>, base: u64, limit: usize) -> Result<
    (u32, u32, Seq<Draw>),
    Stop,
> {
    match memory::ask_words(rest, seq![(base + OFF_FRAME) as u64, (base + OFF_COUNT) as u64]) {
        Err(stop) => Err(stop),
        Ok(w) => {
            let want = if w[1] <= limit {
                w[1]
            } else {
                limit as int
            };
            if w[1] > DRAW_MAX {
                Err(Stop::Fail(Error::DrawCount { count: w[1] as u32 }))
            } else if want == 0 {
                Ok((w[0] as u32, w[1] as u32, seq![]))
            } else {
                match memory::ask(
                    rest.skip(2),
                    Read { addr: (base + OFF_DRAWS) as u64, len: (want * DRAW_SIZE) as usize },
                ) {
                    Err(stop) => Err(stop),
                    Ok(b) => Ok((w[0] as u32, w[1] as u32, draws_of(b, want))),
                }
            }
        },
    }
}

/// Reads at most `limit` draws from the log at `base`.
pub fn read_draws(base: u64, limit: usize, tape: &mut Tape) -> (r: Result<
    (u32, u32, Vec<Draw>),
    Stop,
>)
    requires
        base + OFF_DRAWS <= u64::MAX,
    ensures
        final(tape).all() == old(tape).all(),
        match draws_on(old(tape).rest(), base, limit) {
            Ok(d) => r matches Ok(v) && v.0 == d.0 && v.1 == d.1 && v.2@ == d.2,
            Err(stop) => r matches Err(e) && e == stop,
        },
        r matches Ok(v) ==> v.2@.len() <= DRAW_MAX && v.2@.len() <= limit,
{
    let reads: [u64; 2] = [base + OFF_FRAME, base + OFF_COUNT];
    assert(reads@ =~= seq![(base + OFF_FRAME) as u64, (base + OFF_COUNT) as u64]);
    let w: Vec<u32> = tape.words(&reads)?;
    let count: usize = w[1] as usize;
    if count > DRAW_MAX {
        return Err(Stop::Fail(Error::DrawCount { count: w[1] }));
    }
    let want: usize = if count <= limit {
        count
    } else {
        limit
    };
    let mut out: Vec<Draw> = Vec::new();
    if want > 0 {
        let b: Vec<u8> = tape.bytes(base + OFF_DRAWS, want * DRAW_SIZE)?;
        let mut i: usize = 0;
        while i < want
            invariant
                i <= want <= DRAW_MAX,
                b@.len() == 20 * want,
                out@ == draws_of(b@, i as int),
            decreases want - i,
        {
            let o: usize = i * DRAW_SIZE;
            out.push(
                Draw {
                    dx: short_at(&b, o),
                    dy: short_at(&b, o + 2),
                    w: short_at(&b, o + 4),
                    h: short_at(&b, o + 6),
                    sx: short_at(&b, o + 8),
                    sy: short_at(&b, o + 10),
                    kind: half_at(&b, o + 12),
                    arg: word_at(&b, o + 16),
                },
            );
            i = i + 1;
            assert(out@ =~= draws_of(b@, i as int));
        }
    } else {
        assert(out@ =~= Seq::<Draw>::empty());
    }
    Ok((w[0], w[1], out))
}

} // verus!
