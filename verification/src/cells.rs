//! The game's own cell table, player record, stat block and field of view.
//!
//! The map object is `{ int width; int height; Cell** cells; }`, and the cell at
//! `(x, y)` stands at index `x * height + y` of its table.

use crate::bytes;
use crate::bytes::{int_at, to_i32, word_at};
use crate::common::Addrs;
use crate::error::Error;
use crate::ids;
use crate::ids::IdTable;
use crate::memory;
use crate::memory::{Answer, Exchange, Read, Stop, Tape};
use crate::search;
use crate::search::Search;
use crate::sweep::Visit;
use crate::text;
use crate::text::{address_text, dump_text, push_hex};
use vstd::prelude::*;
use vstd::string::StringExecFns;

verus! {

/// Field offsets of the map object.
pub const MAP_WIDTH: usize = 0x00;

pub const MAP_HEIGHT: usize = 0x04;

pub const MAP_CELLS: usize = 0x08;

/// Field offsets of a cell.
pub const CELL_TYPE: usize = 0x00;

/// The game's own render character.
pub const CELL_GLYPH: usize = 0x04;

pub const CELL_COLOR: usize = 0x08;

pub const CELL_UNK_0C: usize = 0x0C;

pub const CELL_X: usize = 0x30;

pub const CELL_Y: usize = 0x34;

pub const CELL_PASSABLE: usize = 0x38;

pub const CELL_TRANSPARENT: usize = 0x3A;

/// A prop handle, zero where there is none.
pub const CELL_PROP: usize = 0x44;

/// An entity handle, zero where there is none.
pub const CELL_ENTITY: usize = 0x48;

pub const CELL_ITEM_CONTAINER: usize = 0x4C;

pub const CELL_UNK_2C: usize = 0x2C;

pub const CELL_UNK_40: usize = 0x40;

pub const CELL_UNK_98: usize = 0x98;

pub const CELL_UNK_A0: usize = 0xA0;

/// Enough to cover every cell field.
pub const CELL_READ_LEN: usize = 0xC0;

/// Field offsets of a cell type.
pub const CELLTYPE_ID: usize = 0x00;

/// At least 2 where the appearance depends on the cell's state.
pub const CELLTYPE_CLASS: usize = 0x5C;

/// How much of a cell type is dumped.
pub const CELLTYPE_READ_LEN: usize = 0x60;

/// Larger maps are refused: they mean a wrong address or a map that is being loaded.
pub const MAX_DIM: i32 = 1024;

/// One cell of the map.
#[derive(Debug)]
pub struct DirectCell {
    pub x: i32,
    pub y: i32,
    /// The game's own render character.
    pub glyph: char,
    pub color: i32,
    pub unk_0c: i32,
    pub passable: bool,
    pub transparent: bool,
    pub unk_2c: i32,
    pub unk_40: i32,
    pub unk_98: i32,
    pub unk_a0: i32,
    /// The cell type's identifier, where the type could be read.
    pub cell_id: Option<i32>,
    /// The identifier's name, where the table has one.
    pub cell_name: Option<String>,
    pub type_class: Option<i32>,
    pub prop: u32,
    pub entity: u32,
    pub item_container: u32,
}

/// A cell, as contracts speak of it.
pub struct CellView {
    pub x: i32,
    pub y: i32,
    pub glyph: char,
    pub color: i32,
    pub unk_0c: i32,
    pub passable: bool,
    pub transparent: bool,
    pub unk_2c: i32,
    pub unk_40: i32,
    pub unk_98: i32,
    pub unk_a0: i32,
    pub cell_id: Option<i32>,
    pub cell_name: Option<Seq<char>>,
    pub type_class: Option<i32>,
    pub prop: u32,
    pub entity: u32,
    pub item_container: u32,
}

impl View for DirectCell {
    type V = CellView;

    open spec fn view(&self) -> CellView {
        CellView {
            x: self.x,
            y: self.y,
            glyph: self.glyph,
            color: self.color,
            unk_0c: self.unk_0c,
            passable: self.passable,
            transparent: self.transparent,
            unk_2c: self.unk_2c,
            unk_40: self.unk_40,
            unk_98: self.unk_98,
            unk_a0: self.unk_a0,
            cell_id: self.cell_id,
            cell_name: ids::text_of(self.cell_name),
            type_class: self.type_class,
            prop: self.prop,
            entity: self.entity,
            item_container: self.item_container,
        }
    }
}

/// What is known of a cell type: its identifier and its class.
#[derive(Debug, Clone, Copy, PartialEq, Eq, Structural)]
pub struct CellType {
    pub id: Option<i32>,
    pub class: Option<i32>,
}

/// The cell that the bytes of a `Cell` spell.
pub open spec fn cell_of(b: Seq<u8>, ty: CellType, names: IdTable) -> CellView {
    CellView {
        x: bytes::le_i32(b, CELL_X as int) as i32,
        y: bytes::le_i32(b, CELL_Y as int) as i32,
        glyph: (bytes::le32(b, CELL_GLYPH as int) % 128) as char,
        color: bytes::le_i32(b, CELL_COLOR as int) as i32,
        unk_0c: bytes::le_i32(b, CELL_UNK_0C as int) as i32,
        passable: b[CELL_PASSABLE as int] != 0,
        transparent: b[CELL_TRANSPARENT as int] != 0,
        unk_2c: bytes::le_i32(b, CELL_UNK_2C as int) as i32,
        unk_40: bytes::le_i32(b, CELL_UNK_40 as int) as i32,
        unk_98: bytes::le_i32(b, CELL_UNK_98 as int) as i32,
        unk_a0: bytes::le_i32(b, CELL_UNK_A0 as int) as i32,
        cell_id: ty.id,
        cell_name: match ty.id {
            Some(id) => names.lookup(id as int),
            None => None,
        },
        type_class: ty.class,
        prop: bytes::le32(b, CELL_PROP as int) as u32,
        entity: bytes::le32(b, CELL_ENTITY as int) as u32,
        item_container: bytes::le32(b, CELL_ITEM_CONTAINER as int) as u32,
    }
}

/// Decodes the bytes of a `Cell`.
pub fn decode_cell(b: &Vec<u8>, ty: CellType, names: &IdTable) -> (c: DirectCell)
    requires
        b@.len() == CELL_READ_LEN,
    ensures
        c@ == cell_of(b@, ty, *names),
{
    let glyph: u8 = (word_at(b, CELL_GLYPH) % 128) as u8;
    DirectCell {
        x: int_at(b, CELL_X),
        y: int_at(b, CELL_Y),
        glyph: glyph as char,
        color: int_at(b, CELL_COLOR),
        unk_0c: int_at(b, CELL_UNK_0C),
        passable: b[CELL_PASSABLE] != 0,
        transparent: b[CELL_TRANSPARENT] != 0,
        unk_2c: int_at(b, CELL_UNK_2C),
        unk_40: int_at(b, CELL_UNK_40),
        unk_98: int_at(b, CELL_UNK_98),
        unk_a0: int_at(b, CELL_UNK_A0),
        cell_id: ty.id,
        cell_name: names.name_of(ty.id),
        type_class: ty.class,
        prop: word_at(b, CELL_PROP),
        entity: word_at(b, CELL_ENTITY),
        item_container: word_at(b, CELL_ITEM_CONTAINER),
    }
}

/// Where the fields of a map object are read, in this order.
pub open spec fn header_reads(map_obj: usize) -> Seq<u64> {
    seq![
        (map_obj + MAP_WIDTH) as u64,
        (map_obj + MAP_HEIGHT) as u64,
        (map_obj + MAP_CELLS) as u64,
    ]
}

/// The map's width and height and the base of its cell table, as those words spell
/// them, or why they cannot be a map's.
pub open spec fn header_of(map_obj: usize, w: Seq<int>) -> Result<(i32, i32, u32), Stop> {
    let width = bytes::signed32(w[0]);
    let height = bytes::signed32(w[1]);
    if width <= 0 || height <= 0 || width > MAX_DIM || height > MAX_DIM {
        Err(
            Stop::Fail(
                Error::Implausible { width: width as i32, height: height as i32, map_obj },
            ),
        )
    } else if w[2] == 0 {
        Err(Stop::Fail(Error::NullTable { addr: (map_obj + MAP_CELLS) as usize }))
    } else {
        Ok((width as i32, height as i32, w[2] as u32))
    }
}

/// What a tape says of the map's header.
pub open spec fn header_on(rest: Seq<Exchange>, addrs: Result<Addrs, Error>) -> Result<
    (i32, i32, u32),
    Stop,
> {
    match addrs {
        Err(e) => Err(Stop::Fail(e)),
        Ok(a) => match memory::ask_words(rest, header_reads(a.map_object)) {
            Err(stop) => Err(stop),
            Ok(w) => header_of(a.map_object, w),
        },
    }
}

/// A header that a map can have.
pub open spec fn plausible_header(h: (i32, i32, u32)) -> bool {
    0 < h.0 <= MAX_DIM && 0 < h.1 <= MAX_DIM && h.2 != 0
}

/// Reads the map's width and height and the base of its cell table. `addrs` are the
/// addresses for this build, or why there are none.
pub fn read_header(addrs: Result<Addrs, Error>, tape: &mut Tape) -> (r: Result<(i32, i32, u32), Stop>)
    requires
        addrs matches Ok(a) ==> a.map_object + MAP_CELLS <= usize::MAX,
    ensures
        final(tape).all() == old(tape).all(),
        r == header_on(old(tape).rest(), addrs),
        r matches Ok(h) ==> plausible_header(h),
{
    let map_obj: usize = match addrs {
        Ok(a) => a.map_object,
        Err(e) => return Err(Stop::Fail(e)),
    };
    let reads: [u64; 3] = [
        (map_obj + MAP_WIDTH) as u64,
        (map_obj + MAP_HEIGHT) as u64,
        (map_obj + MAP_CELLS) as u64,
    ];
    assert(reads@ =~= header_reads(map_obj));
    let w: Vec<u32> = tape.words(&reads)?;
    let width: i32 = to_i32(w[0]);
    let height: i32 = to_i32(w[1]);
    if width <= 0 || height <= 0 || width > MAX_DIM || height > MAX_DIM {
        return Err(Stop::Fail(Error::Implausible { width, height, map_obj }));
    }
    if w[2] == 0 {
        return Err(Stop::Fail(Error::NullTable { addr: map_obj + MAP_CELLS }));
    }
    Ok((width, height, w[2]))
}

/// Field offsets of the player record.
pub const PLAYER_HANDLE: usize = 0x00;

pub const PLAYER_X: usize = 0x04;

pub const PLAYER_Y: usize = 0x08;

pub const PLAYER_ENTITY_ID: usize = 0x0C;

/// The player record.
#[derive(Debug)]
pub struct PlayerRec {
    pub addr: String,
    pub handle: u32,
    pub x: i32,
    pub y: i32,
    pub entity_id: i32,
    pub entity_name: Option<String>,
    /// The handle is set and the position lies on the map.
    pub plausible: bool,
}

/// A player record, as contracts speak of it.
pub struct PlayerView {
    pub addr: Seq<char>,
    pub handle: u32,
    pub x: i32,
    pub y: i32,
    pub entity_id: i32,
    pub entity_name: Option<Seq<char>>,
    pub plausible: bool,
}

impl View for PlayerRec {
    type V = PlayerView;

    open spec fn view(&self) -> PlayerView {
        PlayerView {
            addr: self.addr@,
            handle: self.handle,
            x: self.x,
            y: self.y,
            entity_id: self.entity_id,
            entity_name: ids::text_of(self.entity_name),
            plausible: self.plausible,
        }
    }
}

/// Where the fields of a player record are read, in this order.
pub open spec fn player_reads(rec: usize) -> Seq<u64> {
    seq![
        (rec + PLAYER_HANDLE) as u64,
        (rec + PLAYER_X) as u64,
        (rec + PLAYER_Y) as u64,
        (rec + PLAYER_ENTITY_ID) as u64,
    ]
}

/// Whether a position lies on a map of this size.
pub open spec fn on_map(x: int, y: int, dims: Option<(i32, i32)>) -> bool {
    dims matches Some(d) && 0 <= x < d.0 && 0 <= y < d.1
}

/// The player record that those words spell, next to a map of size `dims`.
pub open spec fn player_of(
    rec: usize,
    w: Seq<int>,
    dims: Option<(i32, i32)>,
    names: IdTable,
) -> PlayerView {
    let x = bytes::signed32(w[1]);
    let y = bytes::signed32(w[2]);
    PlayerView {
        addr: text::address(rec as nat),
        handle: w[0] as u32,
        x: x as i32,
        y: y as i32,
        entity_id: bytes::signed32(w[3]) as i32,
        entity_name: names.lookup(bytes::signed32(w[3])),
        plausible: w[0] != 0 && on_map(x, y, dims),
    }
}

/// What a tape says of the player record. A header that cannot be read makes the record
/// implausible, nothing more.
pub open spec fn player_on(
    rest: Seq<Exchange>,
    addrs: Result<Addrs, Error>,
    names: IdTable,
) -> Result<PlayerView, Stop> {
    match addrs {
        Err(e) => Err(Stop::Fail(e)),
        Ok(a) => match a.player_rec {
            None => Err(Stop::Fail(Error::NoPlayerRecord)),
            Some(rec) => match memory::ask_words(rest, player_reads(rec)) {
                Err(stop) => Err(stop),
                Ok(w) => match header_on(rest.skip(4), addrs) {
                    Err(Stop::Need(q)) => Err(Stop::Need(q)),
                    Err(Stop::Fail(_)) => Ok(player_of(rec, w, None, names)),
                    Ok(h) => Ok(player_of(rec, w, Some((h.0, h.1)), names)),
                },
            },
        },
    }
}

/// Reads the player record. `entities` names the entity identifiers.
pub fn read_player(addrs: Result<Addrs, Error>, tape: &mut Tape, entities: &IdTable) -> (r: Result<
    PlayerRec,
    Stop,
>)
    requires
        addrs matches Ok(a) ==> a.map_object + MAP_CELLS <= usize::MAX,
        addrs matches Ok(a) && a.player_rec matches Some(rec) ==> rec + PLAYER_ENTITY_ID
            <= usize::MAX,
    ensures
        final(tape).all() == old(tape).all(),
        match player_on(old(tape).rest(), addrs, *entities) {
            Ok(p) => r matches Ok(v) && v@ == p,
            Err(stop) => r matches Err(e) && e == stop,
        },
{
    let rec: usize = match addrs {
        Err(e) => return Err(Stop::Fail(e)),
        Ok(a) => match a.player_rec {
            None => return Err(Stop::Fail(Error::NoPlayerRecord)),
            Some(rec) => rec,
        },
    };
    let reads: [u64; 4] = [
        (rec + PLAYER_HANDLE) as u64,
        (rec + PLAYER_X) as u64,
        (rec + PLAYER_Y) as u64,
        (rec + PLAYER_ENTITY_ID) as u64,
    ];
    assert(reads@ =~= player_reads(rec));
    let w: Vec<u32> = tape.words(&reads)?;
    let x: i32 = to_i32(w[1]);
    let y: i32 = to_i32(w[2]);
    let id: i32 = to_i32(w[3]);
    let inside: bool = match read_header(addrs, tape) {
        Err(Stop::Need(q)) => return Err(Stop::Need(q)),
        Err(Stop::Fail(_)) => false,
        Ok(h) => x >= 0 && y >= 0 && x < h.0 && y < h.1,
    };
    Ok(
        PlayerRec {
            addr: address_text(rec as u64),
            handle: w[0],
            x,
            y,
            entity_id: id,
            entity_name: entities.name(id),
            plausible: w[0] != 0 && inside,
        },
    )
}

/// Field offsets of the stat block.
pub const STATS_INTEGRITY: u64 = 0x00;

pub const STATS_ENERGY: u64 = 0x04;

pub const STATS_MATTER: u64 = 0x08;

pub const STATS_HEAT: u64 = 0x0C;

pub const STATS_CORRUPTION: u64 = 0x10;

/// The speed stands well before the block.
pub const STATS_SPEED_REL: i64 = -0x44;

/// The player's stat block.
#[derive(Debug)]
pub struct Stats {
    pub base: String,
    pub integrity: i32,
    pub energy: i32,
    pub matter: i32,
    pub heat: i32,
    pub corruption: i32,
    /// -1 where it could not be read.
    pub speed: i32,
}

/// A stat block, as contracts speak of it.
pub struct StatsView {
    pub base: Seq<char>,
    pub integrity: i32,
    pub energy: i32,
    pub matter: i32,
    pub heat: i32,
    pub corruption: i32,
    pub speed: i32,
}

impl View for Stats {
    type V = StatsView;

    open spec fn view(&self) -> StatsView {
        StatsView {
            base: self.base@,
            integrity: self.integrity,
            energy: self.energy,
            matter: self.matter,
            heat: self.heat,
            corruption: self.corruption,
            speed: self.speed,
        }
    }
}

/// Where the fields of a stat block are read, in this order.
pub open spec fn stats_reads(base: u64) -> Seq<u64> {
    seq![
        (base + STATS_INTEGRITY) as u64,
        (base + STATS_ENERGY) as u64,
        (base + STATS_MATTER) as u64,
        (base + STATS_HEAT) as u64,
        (base + STATS_CORRUPTION) as u64,
    ]
}

/// Where the speed is read; addresses wrap around.
pub open spec fn speed_addr(base: u64) -> u64 {
    if base + STATS_SPEED_REL >= 0 {
        (base + STATS_SPEED_REL) as u64
    } else {
        (base + STATS_SPEED_REL + 0x1_0000_0000_0000_0000) as u64
    }
}

/// The stat block that those words spell.
pub open spec fn stats_of(base: u64, w: Seq<int>, speed: Option<int>) -> StatsView {
    StatsView {
        base: text::address(base as nat),
        integrity: bytes::signed32(w[0]) as i32,
        energy: bytes::signed32(w[1]) as i32,
        matter: bytes::signed32(w[2]) as i32,
        heat: bytes::signed32(w[3]) as i32,
        corruption: bytes::signed32(w[4]) as i32,
        speed: match speed {
            Some(s) => bytes::signed32(s) as i32,
            None => -1i32,
        },
    }
}

/// What a tape says of the stat block at `base`.
pub open spec fn stats_on(rest: Seq<Exchange>, base: u64) -> Result<StatsView, Stop> {
    match memory::ask_words(rest, stats_reads(base)) {
        Err(stop) => Err(stop),
        Ok(w) => match memory::try_word(rest.skip(5), speed_addr(base)) {
            Err(stop) => Err(stop),
            Ok(speed) => Ok(stats_of(base, w, speed)),
        },
    }
}

/// Reads the stat block at `base`.
pub fn read_stats(base: u64, tape: &mut Tape) -> (r: Result<Stats, Stop>)
    requires
        base + STATS_CORRUPTION <= u64::MAX,
    ensures
        final(tape).all() == old(tape).all(),
        match stats_on(old(tape).rest(), base) {
            Ok(s) => r matches Ok(v) && v@ == s,
            Err(stop) => r matches Err(e) && e == stop,
        },
{
    let reads: [u64; 5] = [
        base + STATS_INTEGRITY,
        base + STATS_ENERGY,
        base + STATS_MATTER,
        base + STATS_HEAT,
        base + STATS_CORRUPTION,
    ];
    assert(reads@ =~= stats_reads(base));
    let w: Vec<u32> = tape.words(&reads)?;
    let speed: i32 = match tape.try_word(base.wrapping_sub((-STATS_SPEED_REL) as u64))? {
        Some(s) => to_i32(s),
        None => -1,
    };
    Ok(
        Stats {
            base: address_text(base),
            integrity: to_i32(w[0]),
            energy: to_i32(w[1]),
            matter: to_i32(w[2]),
            heat: to_i32(w[3]),
            corruption: to_i32(w[4]),
            speed,
        },
    )
}

/// Whether a record is the player's, judging by its values.
pub open spec fn sane(s: StatsView, integrity: i32) -> bool {
    &&& s.integrity == integrity
    &&& 0 <= s.energy <= 100_000
    &&& 0 <= s.heat <= 100_000
    &&& 0 <= s.corruption <= 100
}

/// Keeps an address if it holds the matter of a stat block with this integrity.
#[derive(Debug, Clone, Copy)]
pub struct StatsAt {
    pub integrity: i32,
}

/// The stat block at `base` in a memory.
pub open spec fn stats_in(mem: spec_fn(Read) -> Answer, base: u64) -> Option<StatsView> {
    match memory::words_in(mem, stats_reads(base)) {
        Err(_) => None,
        Ok(w) => Some(
            stats_of(
                base,
                w,
                match mem(Read { addr: speed_addr(base), len: 4 }) {
                    Answer::Bytes(b) => Some(bytes::le32(b, 0)),
                    Answer::Failed(_) => None,
                },
            ),
        ),
    }
}

impl Visit for StatsAt {
    type Hit = Stats;

    open spec fn admits(&self, a: u64) -> bool {
        a - STATS_MATTER + STATS_CORRUPTION <= u64::MAX
    }

    open spec fn seen(&self, rest: Seq<Exchange>, a: u64) -> Result<Option<StatsView>, Stop> {
        if a < STATS_MATTER {
            Ok(None)
        } else {
            match stats_on(rest, (a - STATS_MATTER) as u64) {
                Err(stop) => Err(stop),
                Ok(s) => Ok(
                    if sane(s, self.integrity) {
                        Some(s)
                    } else {
                        None
                    },
                ),
            }
        }
    }

    open spec fn seen_in(&self, mem: spec_fn(Read) -> Answer, a: u64) -> Option<StatsView> {
        if a < STATS_MATTER {
            None
        } else {
            match stats_in(mem, (a - STATS_MATTER) as u64) {
                Some(s) if sane(s, self.integrity) => Some(s),
                _ => None,
            }
        }
    }

    proof fn seen_is_true(&self, mem: spec_fn(Read) -> Answer, rest: Seq<Exchange>, a: u64) {
        if a >= STATS_MATTER {
            let base = (a - STATS_MATTER) as u64;
            memory::words_are_true(rest, mem, stats_reads(base));
            if memory::ask_words(rest, stats_reads(base)) is Ok {
                memory::words_consume(rest, stats_reads(base));
                if rest.len() > 5 {
                    assert(rest.skip(5)[0] == rest[5]);
                }
            }
        }
    }

    fn visit(&self, a: u64, tape: &mut Tape) -> (r: Result<Option<Stats>, Stop>) {
        if a < STATS_MATTER {
            return Ok(None);
        }
        let s: Stats = read_stats(a - STATS_MATTER, tape)?;
        if s.integrity == self.integrity && s.energy >= 0 && s.energy <= 100_000 && s.heat >= 0
            && s.heat <= 100_000 && s.corruption >= 0 && s.corruption <= 100 {
            Ok(Some(s))
        } else {
            Ok(None)
        }
    }
}

/// Starts looking for the stat block in the regions, from two values that outlast a
/// change of map.
pub fn find_stats(regions: Vec<(u64, u64)>, integrity: i32, matter: i32) -> (s: Search<StatsAt>)
    ensures
        s@ == search::Trail::start(regions@, matter, (StatsAt { integrity }), false),
{
    Search::start(regions, matter, StatsAt { integrity }, false)
}

/// Where the pointer to the field-of-view object stands.
pub const FOV_OBJ_PTR: usize = 0x00CE_FC4C;

/// The offsets of its containers.
pub const FOV_VISIBLE_OFF: usize = 0x7D0;

pub const FOV_SIBLING_A_OFF: usize = 0x7C4;

pub const FOV_SIBLING_B_OFF: usize = 0x7E0;

/// A vector of coordinates in the target: three pointers, and what they span.
#[derive(Debug)]
pub struct CoordVec {
    pub member_offset: String,
    pub first: u32,
    pub last: u32,
    pub end: u32,
    pub len: usize,
    pub capacity: usize,
    /// The pointers can be those of a vector of eight-byte coordinates.
    pub plausible: bool,
    pub coords: Vec<(i32, i32)>,
}

/// A vector of coordinates, as contracts speak of it.
pub struct CoordsView {
    pub member_offset: Seq<char>,
    pub first: u32,
    pub last: u32,
    pub end: u32,
    pub len: int,
    pub capacity: int,
    pub plausible: bool,
    pub coords: Seq<(i32, i32)>,
}

impl View for CoordVec {
    type V = CoordsView;

    open spec fn view(&self) -> CoordsView {
        CoordsView {
            member_offset: self.member_offset@,
            first: self.first,
            last: self.last,
            end: self.end,
            len: self.len as int,
            capacity: self.capacity as int,
            plausible: self.plausible,
            coords: self.coords@,
        }
    }
}

/// Three null pointers: a vector that holds nothing yet.
pub open spec fn vec_is_null(a: int, b: int, c: int) -> bool {
    a == 0 && b == 0 && c == 0
}

/// Pointers that a vector of eight-byte elements can have.
pub open spec fn vec_is_plausible(a: int, b: int, c: int) -> bool {
    vec_is_null(a, b, c) || (a != 0 && a <= b <= c && (b - a) % 8 == 0 && b - a <= 800_000)
}

/// The number of elements between the pointers; none where they are no vector's.
pub open spec fn vec_len(a: int, b: int, c: int) -> int {
    if vec_is_plausible(a, b, c) {
        (b - a) / 8
    } else {
        0
    }
}

/// The first `n` coordinates that bytes spell.
pub open spec fn coords_of(b: Seq<u8>, n: int) -> Seq<(i32, i32)> {
    Seq::new(
        n as nat,
        |i: int| (bytes::le_i32(b, 8 * i) as i32, bytes::le_i32(b, 8 * i + 4) as i32),
    )
}

/// Where the pointers of a vector are read.
pub open spec fn vec_reads(base: u32, off: usize) -> Seq<u64> {
    seq![(base + off) as u64, (base + off + 4) as u64, (base + off + 8) as u64]
}

/// The least of two numbers.
pub open spec fn least(a: int, b: int) -> int {
    if a <= b {
        a
    } else {
        b
    }
}

/// The vector that those words and those coordinates make up.
pub open spec fn coords_view(off: usize, w: Seq<int>, coords: Seq<(i32, i32)>) -> CoordsView {
    CoordsView {
        member_offset: "+0x"@ + text::hex(off as nat, 1),
        first: w[0] as u32,
        last: w[1] as u32,
        end: w[2] as u32,
        len: vec_len(w[0], w[1], w[2]),
        capacity: bytes::bits32(w[2] - w[0]) / 8,
        plausible: vec_is_plausible(w[0], w[1], w[2]),
        coords,
    }
}

/// What a tape says of a vector, of which at most `cap` coordinates are read; and what
/// the tape then has left.
pub open spec fn coords_on(rest: Seq<Exchange>, base: u32, off: usize, cap: u64) -> Result<
    (CoordsView, Seq<Exchange>),
    Stop,
> {
    match memory::ask_words(rest, vec_reads(base, off)) {
        Err(stop) => Err(stop),
        Ok(w) => {
            let len = vec_len(w[0], w[1], w[2]);
            let want = least(len, cap as int);
            if len == 0 {
                Ok((coords_view(off, w, seq![]), rest.skip(3)))
            } else {
                match memory::ask(rest.skip(3), Read { addr: w[0] as u64, len: (8 * want) as usize }) {
                    Err(stop) => Err(stop),
                    Ok(b) => Ok((coords_view(off, w, coords_of(b, want)), rest.skip(4))),
                }
            }
        },
    }
}

/// Reads the vector at `off` of the object at `base`.
fn read_coord_vec(base: u32, off: usize, cap: u64, tape: &mut Tape) -> (r: Result<CoordVec, Stop>)
    requires
        off <= FOV_SIBLING_B_OFF,
    ensures
        final(tape).all() == old(tape).all(),
        match coords_on(old(tape).rest(), base, off, cap) {
            Ok(v) => r matches Ok(c) && c@ == v.0 && final(tape).rest() == v.1,
            Err(stop) => r matches Err(e) && e == stop,
        },
{
    let at: u64 = base as u64 + off as u64;
    let reads: [u64; 3] = [at, at + 4, at + 8];
    assert(reads@ =~= vec_reads(base, off));
    let ghost rest = tape.rest();
    let w: Vec<u32> = tape.words(&reads)?;
    let a: u32 = w[0];
    let b: u32 = w[1];
    let c: u32 = w[2];
    let null: bool = a == 0 && b == 0 && c == 0;
    let plausible: bool = null || (a != 0 && a <= b && b <= c && (b - a) % 8 == 0 && b - a
        <= 800_000);
    let len: usize = if plausible && !null {
        ((b - a) / 8) as usize
    } else {
        0
    };
    assert(len == vec_len(a as int, b as int, c as int));
    let mut coords: Vec<(i32, i32)> = Vec::new();
    if len > 0 {
        let want: usize = if (len as u64) < cap {
            len
        } else {
            cap as usize
        };
        let block: Vec<u8> = tape.bytes(a as u64, want * 8)?;
        let mut i: usize = 0;
        while i < want
            invariant
                i <= want <= 100_000,
                block@.len() == 8 * want,
                coords@ == coords_of(block@, i as int),
            decreases want - i,
        {
            coords.push((int_at(&block, 8 * i), int_at(&block, 8 * i + 4)));
            i = i + 1;
            assert(coords@ =~= coords_of(block@, i as int));
        }
        assert(rest.skip(3).skip(1) =~= rest.skip(4));
    } else {
        assert(coords@ =~= Seq::<(i32, i32)>::empty());
    }
    let mut member_offset: String = "+0x".to_owned();
    push_hex(&mut member_offset, off as u64, 1);
    let capacity: usize = (c.wrapping_sub(a) / 8) as usize;
    Ok(CoordVec { member_offset, first: a, last: b, end: c, len, capacity, plausible, coords })
}

/// The field of view.
#[derive(Debug)]
pub struct FovState {
    pub fov_obj_ptr_addr: String,
    pub fov_obj: u32,
    pub visible: CoordVec,
    pub sibling_a: CoordVec,
    pub sibling_b: CoordVec,
    pub note: String,
}

/// What is said beside a field of view.
pub const FOV_NOTE: &'static str = "`visible` is the container isVisible() queries. The siblings are the adjacent containers; which one is `remembered` is not yet confirmed. `plausible` false means the three pointers do not look like a vector of 8-byte Coords, so the offset is wrong or the map is mid-load.";

/// What a tape says of the field of view: the object and its three containers.
pub open spec fn fov_on(rest: Seq<Exchange>, cap: u64) -> Result<
    (u32, CoordsView, CoordsView, CoordsView),
    Stop,
> {
    match memory::ask_word(rest, FOV_OBJ_PTR as u64) {
        Err(stop) => Err(stop),
        Ok(obj) => if obj == 0 {
            Err(Stop::Fail(Error::NullFov { addr: FOV_OBJ_PTR }))
        } else {
            match coords_on(rest.skip(1), obj as u32, FOV_VISIBLE_OFF, cap) {
                Err(stop) => Err(stop),
                Ok(v) => match coords_on(v.1, obj as u32, FOV_SIBLING_A_OFF, cap) {
                    Err(stop) => Err(stop),
                    Ok(a) => match coords_on(a.1, obj as u32, FOV_SIBLING_B_OFF, cap) {
                        Err(stop) => Err(stop),
                        Ok(b) => Ok((obj as u32, v.0, a.0, b.0)),
                    },
                },
            }
        },
    }
}

/// Reads the field of view. At most `cap` coordinates of each container are returned.
pub fn read_fov(cap: u64, tape: &mut Tape) -> (r: Result<FovState, Stop>)
    ensures
        final(tape).all() == old(tape).all(),
        match fov_on(old(tape).rest(), cap) {
            Ok(f) => {
                &&& r matches Ok(v)
                &&& v.fov_obj_ptr_addr@ == text::address(FOV_OBJ_PTR as nat)
                &&& v.fov_obj == f.0
                &&& v.visible@ == f.1
                &&& v.sibling_a@ == f.2
                &&& v.sibling_b@ == f.3
                &&& v.note@ == FOV_NOTE@
            },
            Err(stop) => r matches Err(e) && e == stop,
        },
{
    let obj: u32 = tape.word(FOV_OBJ_PTR as u64)?;
    if obj == 0 {
        return Err(Stop::Fail(Error::NullFov { addr: FOV_OBJ_PTR }));
    }
    let visible: CoordVec = read_coord_vec(obj, FOV_VISIBLE_OFF, cap, tape)?;
    let sibling_a: CoordVec = read_coord_vec(obj, FOV_SIBLING_A_OFF, cap, tape)?;
    let sibling_b: CoordVec = read_coord_vec(obj, FOV_SIBLING_B_OFF, cap, tape)?;
    Ok(
        FovState {
            fov_obj_ptr_addr: address_text(FOV_OBJ_PTR as u64),
            fov_obj: obj,
            visible,
            sibling_a,
            sibling_b,
            note: FOV_NOTE.to_owned(),
        },
    )
}

/// One cell, raw and decoded.
#[derive(Debug)]
pub struct CellProbe {
    pub x: i32,
    pub y: i32,
    pub index: usize,
    pub slot_addr: u32,
    pub cell_ptr: u32,
    pub raw_hex: String,
    pub decoded: Option<DirectCell>,
    pub type_ptr: u32,
    pub type_raw_hex: String,
    pub note: String,
}

/// A probe, as contracts speak of it.
pub struct ProbeView {
    pub x: i32,
    pub y: i32,
    pub index: int,
    pub slot_addr: u32,
    pub cell_ptr: u32,
    pub raw_hex: Seq<char>,
    pub decoded: Option<CellView>,
    pub type_ptr: u32,
    pub type_raw_hex: Seq<char>,
    pub note: Seq<char>,
}

impl View for CellProbe {
    type V = ProbeView;

    open spec fn view(&self) -> ProbeView {
        ProbeView {
            x: self.x,
            y: self.y,
            index: self.index as int,
            slot_addr: self.slot_addr,
            cell_ptr: self.cell_ptr,
            raw_hex: self.raw_hex@,
            decoded: match self.decoded {
                Some(c) => Some(c@),
                None => None,
            },
            type_ptr: self.type_ptr,
            type_raw_hex: self.type_raw_hex@,
            note: self.note@,
        }
    }
}

/// What is said beside a probe.
pub const PROBE_NOTE: &'static str = "decoded.x/decoded.y must equal the requested x/y. If they do not, the Cell offsets or the column-major index are wrong for this build.";

/// The index of a cell in a table of columns.
pub open spec fn cell_index(x: int, y: int, height: int) -> int {
    x * height + y
}

/// A probe of a cell that is absent.
pub open spec fn probe_of_none(x: i32, y: i32, header: (i32, i32, u32)) -> ProbeView {
    let index = cell_index(x as int, y as int, header.1 as int);
    ProbeView {
        x,
        y,
        index,
        slot_addr: (header.2 + 4 * index) as u32,
        cell_ptr: 0,
        raw_hex: seq![],
        decoded: None,
        type_ptr: 0,
        type_raw_hex: seq![],
        note: PROBE_NOTE@,
    }
}

/// A probe of the cell at `ptr`, which holds `b`; `block` is what its type holds.
pub open spec fn probe_of(
    x: i32,
    y: i32,
    header: (i32, i32, u32),
    ptr: int,
    b: Seq<u8>,
    block: Option<Seq<u8>>,
    ty: CellType,
    names: IdTable,
) -> ProbeView {
    ProbeView {
        cell_ptr: ptr as u32,
        raw_hex: text::dump(b, b.len() as int, true),
        decoded: Some(cell_of(b, ty, names)),
        type_ptr: bytes::le32(b, CELL_TYPE as int) as u32,
        type_raw_hex: match block {
            Some(t) => text::dump(t, t.len() as int, false),
            None => seq![],
        },
        ..probe_of_none(x, y, header)
    }
}

/// The integer with a bit pattern.
pub open spec fn int_of(w: Option<int>) -> Option<i32> {
    match w {
        Some(n) => Some(bytes::signed32(n) as i32),
        None => None,
    }
}

/// What a tape says of the cell at `(x, y)`. What cannot be read of its type is left
/// out; the cell itself has to be readable.
pub open spec fn probe_on(
    rest: Seq<Exchange>,
    header: (i32, i32, u32),
    x: i32,
    y: i32,
    names: IdTable,
) -> Result<ProbeView, Stop> {
    let slot = header.2 + 4 * cell_index(x as int, y as int, header.1 as int);
    if !on_map(x as int, y as int, Some((header.0, header.1))) {
        Err(Stop::Fail(Error::OutsideMap { x, y, width: header.0, height: header.1 }))
    } else {
        match memory::ask_word(rest, slot as u64) {
            Err(stop) => Err(stop),
            Ok(ptr) => if ptr == 0 {
                Ok(probe_of_none(x, y, header))
            } else {
                match memory::ask(rest.skip(1), Read { addr: ptr as u64, len: CELL_READ_LEN }) {
                    Err(stop) => Err(stop),
                    Ok(b) => {
                        let ty = bytes::le32(b, CELL_TYPE as int);
                        if ty == 0 {
                            let none = CellType { id: None, class: None };
                            Ok(probe_of(x, y, header, ptr, b, None, none, names))
                        } else {
                            typed_probe_on(rest.skip(2), header, x, y, ptr, b, names)
                        }
                    },
                }
            },
        }
    }
}

/// What the rest of a tape says of the type of a probed cell.
pub open spec fn typed_probe_on(
    rest: Seq<Exchange>,
    header: (i32, i32, u32),
    x: i32,
    y: i32,
    ptr: int,
    b: Seq<u8>,
    names: IdTable,
) -> Result<ProbeView, Stop> {
    let ty = bytes::le32(b, CELL_TYPE as int);
    match memory::try_ask(rest, Read { addr: ty as u64, len: CELLTYPE_READ_LEN }) {
        Err(stop) => Err(stop),
        Ok(block) => match memory::try_word(rest.skip(1), (ty + CELLTYPE_ID) as u64) {
            Err(stop) => Err(stop),
            Ok(id) => match memory::try_word(rest.skip(2), (ty + CELLTYPE_CLASS) as u64) {
                Err(stop) => Err(stop),
                Ok(class) => Ok(
                    probe_of(
                        x,
                        y,
                        header,
                        ptr,
                        b,
                        block,
                        CellType { id: int_of(id), class: int_of(class) },
                        names,
                    ),
                ),
            },
        },
    }
}

fn signed(w: Option<u32>) -> (r: Option<i32>)
    ensures
        r == int_of(
            match w {
                Some(n) => Some(n as int),
                None => None,
            },
        ),
{
    match w {
        Some(n) => Some(to_i32(n)),
        None => None,
    }
}

/// Dumps the cell at `(x, y)` of the map with this header, raw and decoded.
pub fn probe(
    header: (i32, i32, u32),
    x: i32,
    y: i32,
    tape: &mut Tape,
    names: &IdTable,
) -> (r: Result<CellProbe, Stop>)
    requires
        plausible_header(header),
        on_map(x as int, y as int, Some((header.0, header.1))) ==> header.2 + 4 * cell_index(
            x as int,
            y as int,
            header.1 as int,
        ) <= u32::MAX,
    ensures
        final(tape).all() == old(tape).all(),
        match probe_on(old(tape).rest(), header, x, y, *names) {
            Ok(p) => r matches Ok(v) && v@ == p,
            Err(stop) => r matches Err(e) && e == stop,
        },
{
    let (width, height, cells_base) = header;
    if x < 0 || y < 0 || x >= width || y >= height {
        return Err(Stop::Fail(Error::OutsideMap { x, y, width, height }));
    }
    let ghost rest = tape.rest();
    assert(0 <= x * height <= 0x10_0000) by (nonlinear_arith)
        requires
            0 <= x <= 1024,
            0 <= height <= 1024,
    ;
    let index: usize = x as usize * height as usize + y as usize;
    let slot_addr: u32 = cells_base + index as u32 * 4;
    let cell_ptr: u32 = tape.word(slot_addr as u64)?;
    let mut raw_hex: String = String::new();
    let mut decoded: Option<DirectCell> = None;
    let mut type_ptr: u32 = 0;
    let mut type_raw_hex: String = String::new();
    if cell_ptr != 0 {
        let b: Vec<u8> = tape.bytes(cell_ptr as u64, CELL_READ_LEN)?;
        raw_hex = dump_text(&b, true);
        type_ptr = word_at(&b, CELL_TYPE);
        let mut ty = CellType { id: None, class: None };
        if type_ptr != 0 {
            proof {
                assert(rest.skip(1).skip(1) =~= rest.skip(2));
                let from = rest.skip(2);
                if from.len() > 1 {
                    assert(from.skip(1).skip(1) =~= from.skip(2));
                }
            }
            if let Some(block) = tape.try_bytes(type_ptr as u64, CELLTYPE_READ_LEN)? {
                type_raw_hex = dump_text(&block, false);
            }
            let id: Option<u32> = tape.try_word(type_ptr as u64 + CELLTYPE_ID as u64)?;
            let class: Option<u32> = tape.try_word(type_ptr as u64 + CELLTYPE_CLASS as u64)?;
            ty = CellType { id: signed(id), class: signed(class) };
        }
        decoded = Some(decode_cell(&b, ty, names));
    }
    Ok(
        CellProbe {
            x,
            y,
            index,
            slot_addr,
            cell_ptr,
            raw_hex,
            decoded,
            type_ptr,
            type_raw_hex,
            note: PROBE_NOTE.to_owned(),
        },
    )
}

} // verus!
