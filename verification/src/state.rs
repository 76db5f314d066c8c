//! The game state, as the target mirrors it.
//!
//! The mirrored map is stored by columns: the tile at `(x, y)` has the index
//! `x * height + y`.

use crate::bytes;
use crate::error::Error;
use crate::ids;
use crate::ids::IdTable;
use crate::lexer;
use crate::lexer::{chars, parse, trimmed};
use crate::memory;
use crate::memory::{Exchange, Read, Stop, Tape};
use crate::types;
use crate::types::{
    get_presence, LuigiAi, LuigiEntity, LuigiItem, LuigiMachineHacking, LuigiProp,
    LuigiTile, MapType, AI_SIZE, ENTITY_SIZE, HACKING_SIZE, ITEM_SIZE, PROP_SIZE, TILE_SIZE,
};
use vstd::prelude::*;

verus! {

/// The names of everything that the mirror has identifiers for.
#[derive(Debug)]
pub struct Names {
    pub cells: IdTable,
    pub entities: IdTable,
    pub items: IdTable,
    pub props: IdTable,
}

/// The mirror's root, the player and the hacking interface, if one is open.
#[derive(Debug, Clone, Copy, PartialEq, Eq, Structural)]
pub struct Mirror {
    pub ai: LuigiAi,
    pub player: LuigiEntity,
    pub machine_hacking: Option<LuigiMachineHacking>,
}

/// The most items of an inventory that are read.
pub const MAX_ITEMS: i32 = 512;

impl Mirror {
    /// The number of tiles.
    pub open spec fn tiles(self) -> int {
        self.ai.map_width * self.ai.map_height
    }

    /// The mirror holds a map, and its tiles can be counted and held in memory.
    pub open spec fn holds_map(self) -> bool {
        &&& self.ai.map_width > 0
        &&& self.ai.map_height > 0
        &&& self.tiles() <= i32::MAX
        &&& self.tiles() * TILE_SIZE <= isize::MAX
    }

    /// Whether `holds_map`.
    pub fn has_map(&self) -> (r: bool)
        ensures
            r == self.holds_map(),
    {
        let w: i32 = self.ai.map_width;
        let h: i32 = self.ai.map_height;
        if w <= 0 || h <= 0 {
            return false;
        }
        assert(0 < w * h <= 0x3FFF_FFFF_0000_0001) by (nonlinear_arith)
            requires
                0 < w <= 0x7FFF_FFFF,
                0 < h <= 0x7FFF_FFFF,
        ;
        let n: i64 = w as i64 * h as i64;
        n <= 0x7FFF_FFFF && 28 * n <= isize::MAX as i64
    }
}

/// What a tape says of the mirror's root and what hangs on it.
pub open spec fn mirror_on(rest: Seq<Exchange>, base: u64) -> Result<Mirror, Stop> {
    match memory::ask(rest, Read { addr: base, len: AI_SIZE }) {
        Err(stop) => Err(stop),
        Ok(b) => {
            let ai = types::ai_of(b, 0);
            if ai.player == 0 {
                Err(
                    Stop::Fail(
                        Error::NoPlayer {
                            action_ready: ai.action_ready,
                            width: ai.map_width,
                            height: ai.map_height,
                            depth: ai.location_depth,
                            map_data: ai.map_data,
                        },
                    ),
                )
            } else {
                match memory::ask(rest.skip(1), Read { addr: ai.player as u64, len: ENTITY_SIZE }) {
                    Err(stop) => Err(stop),
                    Ok(e) => {
                        let player = types::entity_of(e, 0);
                        if ai.machine_hacking == 0 {
                            with_map(Mirror { ai, player, machine_hacking: None })
                        } else {
                            match memory::ask(
                                rest.skip(2),
                                Read { addr: ai.machine_hacking as u64, len: HACKING_SIZE },
                            ) {
                                Err(stop) => Err(stop),
                                Ok(m) => with_map(
                                    Mirror {
                                        ai,
                                        player,
                                        machine_hacking: Some(types::hacking_of(m, 0)),
                                    },
                                ),
                            }
                        }
                    },
                }
            }
        },
    }
}

/// The mirror, unless it has no tiles.
pub open spec fn with_map(m: Mirror) -> Result<Mirror, Stop> {
    if m.ai.map_data == 0 || m.ai.map_width <= 0 || m.ai.map_height <= 0 {
        Err(
            Stop::Fail(
                Error::NoMapData {
                    width: m.ai.map_width,
                    height: m.ai.map_height,
                    map_data: m.ai.map_data,
                },
            ),
        )
    } else {
        Ok(m)
    }
}

/// Reads the mirror's root and what hangs on it. Until a map is loaded the mirror holds
/// neither a player nor tiles.
pub fn open_mirror(base: u64, tape: &mut Tape) -> (r: Result<Mirror, Stop>)
    ensures
        final(tape).all() == old(tape).all(),
        r == mirror_on(old(tape).rest(), base),
{
    let ghost rest = tape.rest();
    let ai: LuigiAi = match tape.bytes(base, AI_SIZE) {
        Err(stop) => return Err(stop),
        Ok(b) => LuigiAi::from_bytes(&b, 0),
    };
    if ai.player == 0 {
        return Err(
            Stop::Fail(
                Error::NoPlayer {
                    action_ready: ai.action_ready,
                    width: ai.map_width,
                    height: ai.map_height,
                    depth: ai.location_depth,
                    map_data: ai.map_data,
                },
            ),
        );
    }
    let b: Vec<u8> = tape.bytes(ai.player as u64, ENTITY_SIZE)?;
    let player: LuigiEntity = LuigiEntity::from_bytes(&b, 0);
    assert(rest.skip(1).skip(1) =~= rest.skip(2));
    let machine_hacking: Option<LuigiMachineHacking> = if ai.machine_hacking == 0 {
        None
    } else {
        let b: Vec<u8> = tape.bytes(ai.machine_hacking as u64, HACKING_SIZE)?;
        Some(LuigiMachineHacking::from_bytes(&b, 0))
    };
    if ai.map_data == 0 || ai.map_width <= 0 || ai.map_height <= 0 {
        return Err(
            Stop::Fail(
                Error::NoMapData {
                    width: ai.map_width,
                    height: ai.map_height,
                    map_data: ai.map_data,
                },
            ),
        );
    }
    Ok(Mirror { ai, player, machine_hacking })
}

/// An item.
#[derive(Debug)]
pub struct ItemInfo {
    pub name: Option<String>,
    pub raw_id: i32,
    pub integrity: i32,
    /// Whether it is attached; unknown where the layout does not tell.
    pub equipped: Option<bool>,
}

/// An item, as contracts speak of it.
pub struct ItemView {
    pub name: Option<Seq<char>>,
    pub raw_id: i32,
    pub integrity: i32,
    pub equipped: Option<bool>,
}

impl View for ItemInfo {
    type V = ItemView;

    open spec fn view(&self) -> ItemView {
        ItemView {
            name: ids::text_of(self.name),
            raw_id: self.raw_id,
            integrity: self.integrity,
            equipped: self.equipped,
        }
    }
}

/// A prop.
#[derive(Debug)]
pub struct PropInfo {
    pub name: Option<String>,
    pub raw_id: i32,
    pub interactive_piece: bool,
}

/// A prop, as contracts speak of it.
pub struct PropView {
    pub name: Option<Seq<char>>,
    pub raw_id: i32,
    pub interactive_piece: bool,
}

impl View for PropInfo {
    type V = PropView;

    open spec fn view(&self) -> PropView {
        PropView {
            name: ids::text_of(self.name),
            raw_id: self.raw_id,
            interactive_piece: self.interactive_piece,
        }
    }
}

/// An entity.
#[derive(Debug)]
pub struct EntityInfo {
    pub name: Option<String>,
    pub raw_id: i32,
    pub integrity: i32,
    pub relation: i32,
    pub active_state: i32,
    pub exposure: i32,
    pub energy: i32,
    pub matter: i32,
    pub heat: i32,
    pub system_corruption: i32,
    pub speed: i32,
    pub inventory_size: i32,
}

/// An entity, as contracts speak of it.
pub struct EntityView {
    pub name: Option<Seq<char>>,
    pub raw_id: i32,
    pub integrity: i32,
    pub relation: i32,
    pub active_state: i32,
    pub exposure: i32,
    pub energy: i32,
    pub matter: i32,
    pub heat: i32,
    pub system_corruption: i32,
    pub speed: i32,
    pub inventory_size: i32,
}

impl View for EntityInfo {
    type V = EntityView;

    open spec fn view(&self) -> EntityView {
        EntityView {
            name: ids::text_of(self.name),
            raw_id: self.raw_id,
            integrity: self.integrity,
            relation: self.relation,
            active_state: self.active_state,
            exposure: self.exposure,
            energy: self.energy,
            matter: self.matter,
            heat: self.heat,
            system_corruption: self.system_corruption,
            speed: self.speed,
            inventory_size: self.inventory_size,
        }
    }
}

/// A tile that is known.
#[derive(Debug)]
pub struct TileInfo {
    pub last_action: i32,
    pub last_fov: i32,
    pub cell: Option<String>,
    pub raw_cell: i32,
    pub door_open: bool,
    pub prop: Option<PropInfo>,
    pub entity: Option<EntityInfo>,
    pub item: Option<ItemInfo>,
    pub x: i32,
    pub y: i32,
}

/// A tile, as contracts speak of it.
pub struct TileView {
    pub last_action: i32,
    pub last_fov: i32,
    pub cell: Option<Seq<char>>,
    pub raw_cell: i32,
    pub door_open: bool,
    pub prop: Option<PropView>,
    pub entity: Option<EntityView>,
    pub item: Option<ItemView>,
    pub x: i32,
    pub y: i32,
}

impl View for TileInfo {
    type V = TileView;

    open spec fn view(&self) -> TileView {
        TileView {
            last_action: self.last_action,
            last_fov: self.last_fov,
            cell: ids::text_of(self.cell),
            raw_cell: self.raw_cell,
            door_open: self.door_open,
            prop: match self.prop {
                Some(v) => Some(v@),
                None => None,
            },
            entity: match self.entity {
                Some(v) => Some(v@),
                None => None,
            },
            item: match self.item {
                Some(v) => Some(v@),
                None => None,
            },
            x: self.x,
            y: self.y,
        }
    }
}

/// An entity with its name.
pub open spec fn entity_view(e: LuigiEntity, names: Names) -> EntityView {
    EntityView {
        name: names.entities.lookup(e.id as int),
        raw_id: e.id,
        integrity: e.integrity,
        relation: e.relation,
        active_state: e.active_state,
        exposure: e.exposure,
        energy: e.energy,
        matter: e.matter,
        heat: e.heat,
        system_corruption: e.system_corruption,
        speed: e.speed,
        inventory_size: e.inventory_size,
    }
}

/// A prop with its name.
pub open spec fn prop_view(p: LuigiProp, names: Names) -> PropView {
    PropView {
        name: names.props.lookup(p.id as int),
        raw_id: p.id,
        interactive_piece: p.interactive_piece,
    }
}

/// An item with its name.
pub open spec fn item_view(it: LuigiItem, equipped: Option<bool>, names: Names) -> ItemView {
    ItemView {
        name: names.items.lookup(it.id as int),
        raw_id: it.id,
        integrity: it.integrity,
        equipped,
    }
}

fn entity_info(e: &LuigiEntity, names: &Names) -> (r: EntityInfo)
    ensures
        r@ == entity_view(*e, *names),
{
    EntityInfo {
        name: names.entities.name(e.id),
        raw_id: e.id,
        integrity: e.integrity,
        relation: e.relation,
        active_state: e.active_state,
        exposure: e.exposure,
        energy: e.energy,
        matter: e.matter,
        heat: e.heat,
        system_corruption: e.system_corruption,
        speed: e.speed,
        inventory_size: e.inventory_size,
    }
}

/// What a tape says of an object that a tile may point to; and what the tape then has
/// left. A tile without the object asks for nothing.
pub open spec fn object_on(rest: Seq<Exchange>, ptr: u32, len: usize) -> Result<
    (Option<Seq<u8>>, Seq<Exchange>),
    Stop,
> {
    if ptr == 0 {
        Ok((None, rest))
    } else {
        match memory::ask(rest, Read { addr: ptr as u64, len }) {
            Err(stop) => Err(stop),
            Ok(b) => Ok((Some(b), rest.skip(1))),
        }
    }
}

/// A tile with what stands on it.
pub open spec fn tile_view(
    t: LuigiTile,
    x: int,
    y: int,
    prop: Option<Seq<u8>>,
    entity: Option<Seq<u8>>,
    item: Option<Seq<u8>>,
    names: Names,
) -> TileView {
    TileView {
        last_action: t.last_action,
        last_fov: t.last_fov,
        cell: names.cells.lookup(t.cell as int),
        raw_cell: t.cell,
        door_open: t.door_open,
        prop: match prop {
            Some(b) => Some(prop_view(types::prop_of(b, 0), names)),
            None => None,
        },
        entity: match entity {
            Some(b) => Some(entity_view(types::entity_of(b, 0), names)),
            None => None,
        },
        item: match item {
            Some(b) => Some(item_view(types::item_of(b, 0), None, names)),
            None => None,
        },
        x: x as i32,
        y: y as i32,
    }
}

/// What a tape says of a tile: its prop, its entity and its item, in this order.
pub open spec fn tile_on(rest: Seq<Exchange>, t: LuigiTile, x: int, y: int, names: Names) -> Result<
    (TileView, Seq<Exchange>),
    Stop,
> {
    match object_on(rest, t.prop, PROP_SIZE) {
        Err(stop) => Err(stop),
        Ok(p) => match object_on(p.1, t.entity, ENTITY_SIZE) {
            Err(stop) => Err(stop),
            Ok(e) => match object_on(e.1, t.item, ITEM_SIZE) {
                Err(stop) => Err(stop),
                Ok(i) => Ok((tile_view(t, x, y, p.0, e.0, i.0, names), i.1)),
            },
        },
    }
}

fn object(ptr: u32, len: usize, tape: &mut Tape) -> (r: Result<Option<Vec<u8>>, Stop>)
    ensures
        final(tape).all() == old(tape).all(),
        match object_on(old(tape).rest(), ptr, len) {
            Err(stop) => r matches Err(e) && e == stop,
            Ok(o) => {
                &&& match o.0 {
                    Some(b) => r matches Ok(Some(v)) && v@ == b && b.len() == len,
                    None => r matches Ok(None),
                }
                &&& final(tape).rest() == o.1
            },
        },
{
    if ptr == 0 {
        Ok(None)
    } else {
        Ok(Some(tape.bytes(ptr as u64, len)?))
    }
}

fn read_tile(t: LuigiTile, x: i32, y: i32, tape: &mut Tape, names: &Names) -> (r: Result<
    TileInfo,
    Stop,
>)
    ensures
        final(tape).all() == old(tape).all(),
        match tile_on(old(tape).rest(), t, x as int, y as int, *names) {
            Err(stop) => r matches Err(e) && e == stop,
            Ok(o) => r matches Ok(v) && v@ == o.0 && final(tape).rest() == o.1,
        },
{
    let prop: Option<PropInfo> = match object(t.prop, PROP_SIZE, tape)? {
        Some(b) => {
            let p: LuigiProp = LuigiProp::from_bytes(&b, 0);
            Some(
                PropInfo {
                    name: names.props.name(p.id),
                    raw_id: p.id,
                    interactive_piece: p.interactive_piece,
                },
            )
        },
        None => None,
    };
    let entity: Option<EntityInfo> = match object(t.entity, ENTITY_SIZE, tape)? {
        Some(b) => {
            let e: LuigiEntity = LuigiEntity::from_bytes(&b, 0);
            Some(entity_info(&e, names))
        },
        None => None,
    };
    let item: Option<ItemInfo> = match object(t.item, ITEM_SIZE, tape)? {
        Some(b) => {
            let i: LuigiItem = LuigiItem::from_bytes(&b, 0);
            Some(
                ItemInfo {
                    name: names.items.name(i.id),
                    raw_id: i.id,
                    integrity: i.integrity,
                    equipped: None,
                },
            )
        },
        None => None,
    };
    Ok(
        TileInfo {
            last_action: t.last_action,
            last_fov: t.last_fov,
            cell: names.cells.name(t.cell),
            raw_cell: t.cell,
            door_open: t.door_open,
            prop,
            entity,
            item,
            x,
            y,
        },
    )
}

/// The tile at `(x, y)`.
pub open spec fn tile_at(map: Seq<u8>, height: int, x: int, y: int) -> LuigiTile {
    types::tile_of(map, TILE_SIZE * (x * height + y))
}

/// What a tape says of column `x` from row `y` on. Tiles that were never seen have a
/// negative cell: they are read and left out.
pub open spec fn column_on(
    rest: Seq<Exchange>,
    map: Seq<u8>,
    height: int,
    x: int,
    y: int,
    names: Names,
) -> Result<(Seq<TileView>, Seq<Exchange>), Stop>
    decreases height - y,
{
    if y >= height {
        Ok((seq![], rest))
    } else {
        let t = tile_at(map, height, x, y);
        match tile_on(rest, t, x, y, names) {
            Err(stop) => Err(stop),
            Ok(this) => match column_on(this.1, map, height, x, y + 1, names) {
                Err(stop) => Err(stop),
                Ok(more) => Ok(
                    (
                        if t.cell >= 0 {
                            seq![this.0] + more.0
                        } else {
                            more.0
                        },
                        more.1,
                    ),
                ),
            },
        }
    }
}

/// What a tape says of the columns from `x` on. Columns without known tiles are left
/// out.
pub open spec fn columns_on(
    rest: Seq<Exchange>,
    map: Seq<u8>,
    width: int,
    height: int,
    x: int,
    names: Names,
) -> Result<(Seq<Seq<TileView>>, Seq<Exchange>), Stop>
    decreases width - x,
{
    if x >= width {
        Ok((seq![], rest))
    } else {
        match column_on(rest, map, height, x, 0, names) {
            Err(stop) => Err(stop),
            Ok(this) => match columns_on(this.1, map, width, height, x + 1, names) {
                Err(stop) => Err(stop),
                Ok(more) => Ok(
                    (
                        if this.0.len() > 0 {
                            seq![this.0] + more.0
                        } else {
                            more.0
                        },
                        more.1,
                    ),
                ),
            },
        }
    }
}

/// A column, as contracts speak of it.
pub open spec fn column_view(c: Seq<TileInfo>) -> Seq<TileView> {
    c.map_values(|t: TileInfo| t@)
}

/// Columns, as contracts speak of them.
pub open spec fn columns_view(m: Seq<Vec<TileInfo>>) -> Seq<Seq<TileView>> {
    m.map_values(|c: Vec<TileInfo>| column_view(c@))
}

fn read_column(
    map: &Vec<u8>,
    height: i32,
    x: i32,
    tape: &mut Tape,
    names: &Names,
) -> (r: Result<Vec<TileInfo>, Stop>)
    requires
        0 <= x,
        0 < height,
        (x + 1) * height <= i32::MAX,
        TILE_SIZE * ((x + 1) * height) <= map@.len(),
    ensures
        final(tape).all() == old(tape).all(),
        match column_on(old(tape).rest(), map@, height as int, x as int, 0, *names) {
            Err(stop) => r matches Err(e) && e == stop,
            Ok(o) => r matches Ok(v) && column_view(v@) == o.0 && final(tape).rest() == o.1,
        },
{
    let mut out: Vec<TileInfo> = Vec::new();
    let ghost start = tape.rest();
    let ghost whole = column_on(start, map@, height as int, x as int, 0, *names);
    let mut y: i32 = 0;
    assert(column_view(out@) =~= Seq::<TileView>::empty());
    proof {
        match whole {
            Ok(o) => assert(column_view(out@) + o.0 =~= o.0),
            Err(_) => {},
        }
        assert(x * height + height == (x + 1) * height) by (nonlinear_arith);
        assert(0 <= x * height) by (nonlinear_arith)
            requires
                0 <= x,
                0 < height,
        ;
    }
    let _n: usize = map.len();
    while y < height
        invariant
            0 <= x,
            0 <= y <= height,
            0 <= x * height,
            x * height + height <= i32::MAX,
            28 * (x * height + height) <= map@.len() <= usize::MAX,
            start == old(tape).rest(),
            tape.all() == old(tape).all(),
            whole == column_on(old(tape).rest(), map@, height as int, x as int, 0, *names),
            match column_on(tape.rest(), map@, height as int, x as int, y as int, *names) {
                Ok(o) => whole == Ok::<(Seq<TileView>, Seq<Exchange>), Stop>(
                    (column_view(out@) + o.0, o.1),
                ),
                Err(stop) => whole == Err::<(Seq<TileView>, Seq<Exchange>), Stop>(stop),
            },
        decreases height - y,
    {
        let index: usize = (x * height + y) as usize;
        let t: LuigiTile = LuigiTile::from_bytes(map, TILE_SIZE * index);
        let ghost before = tape.rest();
        assert(t == tile_at(map@, height as int, x as int, y as int));
        let tile: TileInfo = match read_tile(t, x, y, tape, names) {
            Ok(tile) => tile,
            Err(stop) => return Err(stop),
        };
        let ghost prior = out@;
        if t.cell >= 0 {
            out.push(tile);
            assert(column_view(out@) =~= column_view(prior).push(tile@));
        }
        proof {
            match column_on(tape.rest(), map@, height as int, x as int, y + 1, *names) {
                Ok(o) => {
                    if t.cell >= 0 {
                        assert(column_view(prior) + (seq![tile@] + o.0) =~= column_view(out@) + o.0);
                    }
                },
                Err(_) => {},
            }
        }
        y = y + 1;
    }
    assert(column_view(out@) + Seq::<TileView>::empty() =~= column_view(out@));
    Ok(out)
}

fn read_columns(
    map: &Vec<u8>,
    width: i32,
    height: i32,
    tape: &mut Tape,
    names: &Names,
) -> (r: Result<Vec<Vec<TileInfo>>, Stop>)
    requires
        0 < width,
        0 < height,
        width * height <= i32::MAX,
        TILE_SIZE * (width * height) <= map@.len(),
    ensures
        final(tape).all() == old(tape).all(),
        match columns_on(old(tape).rest(), map@, width as int, height as int, 0, *names) {
            Err(stop) => r matches Err(e) && e == stop,
            Ok(o) => r matches Ok(v) && columns_view(v@) == o.0 && final(tape).rest() == o.1,
        },
{
    let mut out: Vec<Vec<TileInfo>> = Vec::new();
    let ghost start = tape.rest();
    let ghost whole = columns_on(start, map@, width as int, height as int, 0, *names);
    let mut x: i32 = 0;
    assert(columns_view(out@) =~= Seq::<Seq<TileView>>::empty());
    proof {
        match whole {
            Ok(o) => assert(columns_view(out@) + o.0 =~= o.0),
            Err(_) => {},
        }
    }
    while x < width
        invariant
            0 <= x <= width,
            0 < height,
            width * height <= i32::MAX,
            28 * (width * height) <= map@.len(),
            start == old(tape).rest(),
            tape.all() == old(tape).all(),
            whole == columns_on(
                old(tape).rest(),
                map@,
                width as int,
                height as int,
                0,
                *names,
            ),
            match columns_on(tape.rest(), map@, width as int, height as int, x as int, *names) {
                Ok(o) => whole == Ok::<(Seq<Seq<TileView>>, Seq<Exchange>), Stop>(
                    (columns_view(out@) + o.0, o.1),
                ),
                Err(stop) => whole == Err::<(Seq<Seq<TileView>>, Seq<Exchange>), Stop>(stop),
            },
        decreases width - x,
    {
        assert((x + 1) * height <= width * height) by (nonlinear_arith)
            requires
                x + 1 <= width,
                0 < height,
        ;
        let column: Vec<TileInfo> = match read_column(map, height, x, tape, names) {
            Ok(column) => column,
            Err(stop) => return Err(stop),
        };
        let ghost prior = out@;
        let ghost this = column_view(column@);
        if column.len() > 0 {
            out.push(column);
            assert(columns_view(out@) =~= columns_view(prior).push(this));
        }
        proof {
            match columns_on(tape.rest(), map@, width as int, height as int, x + 1, *names) {
                Ok(o) => {
                    if this.len() > 0 {
                        assert(columns_view(prior) + (seq![this] + o.0) =~= columns_view(out@) + o.0);
                    }
                },
                Err(_) => {},
            }
        }
        x = x + 1;
    }
    assert(columns_view(out@) + Seq::<Seq<TileView>>::empty() =~= columns_view(out@));
    Ok(out)
}

/// Where the player stands, judging by the first `n` tiles: on the last of them that
/// points to the player; nowhere where none does.
pub open spec fn player_spot(map: Seq<u8>, height: int, player: u32, n: int) -> (int, int)
    decreases n,
{
    if n <= 0 {
        (-1, -1)
    } else {
        let t = types::tile_of(map, TILE_SIZE * (n - 1));
        if t.entity != 0 && t.entity == player {
            ((n - 1) / height, (n - 1) % height)
        } else {
            player_spot(map, height, player, n - 1)
        }
    }
}

fn find_player(map: &Vec<u8>, height: i32, player: u32, n: i32) -> (r: (i32, i32))
    requires
        0 < height,
        0 <= n,
        TILE_SIZE * n <= map@.len(),
    ensures
        (r.0 as int, r.1 as int) == player_spot(map@, height as int, player, n as int),
{
    let _n: usize = map.len();
    let mut k: i32 = n;
    while k > 0
        invariant
            0 < height,
            0 <= k <= n,
            28 * n <= map@.len() <= usize::MAX,
            player_spot(map@, height as int, player, n as int) == player_spot(
                map@,
                height as int,
                player,
                k as int,
            ),
        decreases k,
    {
        let i: i32 = k - 1;
        let t: LuigiTile = LuigiTile::from_bytes(map, TILE_SIZE * i as usize);
        if t.entity != 0 && t.entity == player {
            return (i / height, i % height);
        }
        k = i;
    }
    (-1, -1)
}

/// How many items of an inventory are read: none where there is no inventory.
pub open spec fn items_read(player: LuigiEntity) -> int {
    if player.inventory == 0 || player.inventory_size <= 0 {
        0
    } else if player.inventory_size < MAX_ITEMS {
        player.inventory_size as int
    } else {
        MAX_ITEMS as int
    }
}

/// The first `n` items of a block in which one starts every `stride` bytes.
pub open spec fn items_of(b: Seq<u8>, stride: int, n: int, names: Names) -> Seq<ItemView> {
    Seq::new(
        n as nat,
        |i: int|
            item_view(
                types::item_of(b, i * stride),
                if stride >= 12 {
                    Some(b[i * stride + 8] != 0)
                } else {
                    None
                },
                names,
            ),
    )
}

/// What a tape says of an inventory.
pub open spec fn inventory_on(
    rest: Seq<Exchange>,
    player: LuigiEntity,
    stride: usize,
    names: Names,
) -> Result<Seq<ItemView>, Stop> {
    let n = items_read(player);
    if n == 0 {
        Ok(seq![])
    } else {
        match memory::ask(
            rest,
            Read { addr: player.inventory as u64, len: (n * stride) as usize },
        ) {
            Err(stop) => Err(stop),
            Ok(b) => Ok(items_of(b, stride as int, n, names)),
        }
    }
}

/// Items, as contracts speak of them.
pub open spec fn items_view(v: Seq<ItemInfo>) -> Seq<ItemView> {
    v.map_values(|i: ItemInfo| i@)
}

/// Reads the inventory: the parts that are attached and those that are carried.
pub fn read_inventory(player: &LuigiEntity, stride: usize, tape: &mut Tape, names: &Names) -> (r:
    Result<Vec<ItemInfo>, Stop>)
    requires
        8 <= stride <= 16,
    ensures
        final(tape).all() == old(tape).all(),
        match inventory_on(old(tape).rest(), *player, stride, *names) {
            Ok(s) => r matches Ok(v) && items_view(v@) == s,
            Err(stop) => r matches Err(e) && e == stop,
        },
{
    let mut out: Vec<ItemInfo> = Vec::new();
    if player.inventory == 0 || player.inventory_size <= 0 {
        assert(items_view(out@) =~= Seq::<ItemView>::empty());
        return Ok(out);
    }
    let count: usize = if player.inventory_size < MAX_ITEMS {
        player.inventory_size as usize
    } else {
        MAX_ITEMS as usize
    };
    assert(count * stride <= 8192) by (nonlinear_arith)
        requires
            count <= 512,
            stride <= 16,
    ;
    let b: Vec<u8> = match tape.bytes(player.inventory as u64, count * stride) {
        Ok(b) => b,
        Err(stop) => return Err(stop),
    };
    let mut i: usize = 0;
    assert(items_view(out@) =~= items_of(b@, stride as int, 0, *names));
    while i < count
        invariant
            i <= count <= 512,
            8 <= stride <= 16,
            b@.len() == count * stride,
            items_view(out@) == items_of(b@, stride as int, i as int, *names),
        decreases count - i,
    {
        assert(i * stride + stride <= count * stride && i * stride <= 8192) by (nonlinear_arith)
            requires
                i + 1 <= count <= 512,
                stride <= 16,
        ;
        let at: usize = i * stride;
        let it: LuigiItem = LuigiItem::from_bytes(&b, at);
        let equipped: Option<bool> = if stride >= 12 {
            Some(b[at + 8] != 0)
        } else {
            None
        };
        let ghost prior = out@;
        out.push(
            ItemInfo { name: names.items.name(it.id), raw_id: it.id, integrity: it.integrity, equipped },
        );
        proof {
            let k = i as int;
            let now = items_of(b@, stride as int, k + 1, *names);
            assert(items_view(prior).len() == k);
            assert(now[k] == items_view(out@)[k]);
            assert(items_view(out@) =~= items_view(prior).push(out@[k]@));
            assert(now =~= items_of(b@, stride as int, k, *names).push(now[k]));
        }
        i = i + 1;
    }
    Ok(out)
}

/// The stride that a setting asks for.
pub open spec fn stride_of(setting: Option<Seq<char>>) -> int {
    match setting {
        None => 12,
        Some(s) => match lexer::parse_nat(lexer::trim(s), 10, usize::MAX as int) {
            None => 12,
            Some(n) => if n < 8 {
                8
            } else if n > 16 {
                16
            } else {
                n
            },
        },
    }
}

/// How far apart the items of an inventory stand: 12 bytes, unless a setting says
/// otherwise.
pub fn item_stride(setting: Option<&str>) -> (r: usize)
    ensures
        r == stride_of(
            match setting {
                Some(s) => Some(s@),
                None => None,
            },
        ),
        8 <= r <= 16,
{
    match setting {
        None => 12,
        Some(s) => match parse(&trimmed(&chars(s)), 10, usize::MAX as u64) {
            None => 12,
            Some(n) => if n < 8 {
                8
            } else if n > 16 {
                16
            } else {
                n as usize
            },
        },
    }
}

/// The game state.
#[derive(Debug)]
pub struct GameState {
    pub action_ready: i32,
    pub map_width: i32,
    pub map_height: i32,
    pub location: String,
    pub map_cursor_index: i32,
    /// -1 where no tile points to the player.
    pub player_x: i32,
    pub player_y: i32,
    pub player: EntityInfo,
    pub inventory: Vec<ItemInfo>,
    pub item_stride: usize,
    pub machine_hacking: Option<LuigiMachineHacking>,
    /// The known tiles, by columns.
    pub map: Vec<Vec<TileInfo>>,
}

/// The game state, as contracts speak of it.
pub struct GameView {
    pub action_ready: i32,
    pub map_width: i32,
    pub map_height: i32,
    pub location: Seq<char>,
    pub map_cursor_index: i32,
    pub player_at: (int, int),
    pub player: EntityView,
    pub inventory: Seq<ItemView>,
    pub item_stride: int,
    pub machine_hacking: Option<LuigiMachineHacking>,
    pub map: Seq<Seq<TileView>>,
}

impl View for GameState {
    type V = GameView;

    open spec fn view(&self) -> GameView {
        GameView {
            action_ready: self.action_ready,
            map_width: self.map_width,
            map_height: self.map_height,
            location: self.location@,
            map_cursor_index: self.map_cursor_index,
            player_at: (self.player_x as int, self.player_y as int),
            player: self.player@,
            inventory: items_view(self.inventory@),
            item_stride: self.item_stride as int,
            machine_hacking: self.machine_hacking,
            map: columns_view(self.map@),
        }
    }
}

/// The kind of map with a code; no map where the code is unknown.
pub open spec fn map_or_none(code: int) -> MapType {
    match MapType::of_code(code) {
        Some(m) => m,
        None => MapType::MapNone,
    }
}

/// What a tape says of the game state behind a mirror.
pub open spec fn game_on(rest: Seq<Exchange>, m: Mirror, stride: usize, names: Names) -> Result<
    GameView,
    Stop,
> {
    let w = m.ai.map_width as int;
    let h = m.ai.map_height as int;
    match memory::ask(
        rest,
        Read { addr: m.ai.map_data as u64, len: (m.tiles() * TILE_SIZE) as usize },
    ) {
        Err(stop) => Err(stop),
        Ok(map) => match columns_on(rest.skip(1), map, w, h, 0, names) {
            Err(stop) => Err(stop),
            Ok(columns) => match inventory_on(columns.1, m.player, stride, names) {
                Err(stop) => Err(stop),
                Ok(inventory) => Ok(
                    GameView {
                        action_ready: m.ai.action_ready,
                        map_width: m.ai.map_width,
                        map_height: m.ai.map_height,
                        location: types::presence(
                            m.ai.location_depth as int,
                            map_or_none(m.ai.location_map as int),
                        ),
                        map_cursor_index: m.ai.map_cursor_index,
                        player_at: player_spot(map, h, m.ai.player, m.tiles()),
                        player: entity_view(m.player, names),
                        inventory,
                        item_stride: stride as int,
                        machine_hacking: m.machine_hacking,
                        map: columns.0,
                    },
                ),
            },
        },
    }
}

/// Reads the game state behind a mirror. `stride` is how far apart the items of an
/// inventory stand.
pub fn get_game_state(m: Mirror, stride: usize, tape: &mut Tape, names: &Names) -> (r: Result<
    GameState,
    Stop,
>)
    requires
        m.holds_map(),
        8 <= stride <= 16,
    ensures
        final(tape).all() == old(tape).all(),
        match game_on(old(tape).rest(), m, stride, *names) {
            Ok(g) => r matches Ok(v) && v@ == g,
            Err(stop) => r matches Err(e) && e == stop,
        },
{
    let w: i32 = m.ai.map_width;
    let h: i32 = m.ai.map_height;
    let n: i32 = w * h;
    assert(n > 0) by (nonlinear_arith)
        requires
            n == w * h,
            w > 0,
            h > 0,
    ;
    let map: Vec<u8> = tape.bytes(m.ai.map_data as u64, n as usize * TILE_SIZE)?;
    let columns: Vec<Vec<TileInfo>> = read_columns(&map, w, h, tape, names)?;
    let inventory: Vec<ItemInfo> = read_inventory(&m.player, stride, tape, names)?;
    let (player_x, player_y) = find_player(&map, h, m.ai.player, n);
    let map_type: MapType = match MapType::try_from(m.ai.location_map) {
        Ok(t) => t,
        Err(_) => MapType::MapNone,
    };
    Ok(
        GameState {
            action_ready: m.ai.action_ready,
            map_width: w,
            map_height: h,
            location: get_presence(m.ai.location_depth, map_type),
            map_cursor_index: m.ai.map_cursor_index,
            player_x,
            player_y,
            player: entity_info(&m.player, names),
            inventory,
            item_stride: stride,
            machine_hacking: m.machine_hacking,
            map: columns,
        },
    )
}

/// Where the player is reported, a tile points to the player; nowhere is reported only
/// where no tile does.
pub proof fn player_stands_where_reported(map: Seq<u8>, height: int, player: u32, n: int)
    requires
        height > 0,
        0 <= n,
    ensures
        ({
            let at = player_spot(map, height, player, n);
            if at == (-1int, -1int) {
                forall|k: int|
                    0 <= k < n && player != 0 ==> (#[trigger] types::tile_of(
                        map,
                        TILE_SIZE * k,
                    )).entity != player
            } else {
                &&& 0 <= at.0
                &&& 0 <= at.1 < height
                &&& at.0 * height + at.1 < n
                &&& tile_at(map, height, at.0, at.1).entity == player && player != 0
            }
        }),
    decreases n,
{
    if n > 0 {
        player_stands_where_reported(map, height, player, n - 1);
        let k = n - 1;
        let t = types::tile_of(map, TILE_SIZE * k);
        assert(k / height * height + k % height == k && 0 <= k / height && 0 <= k % height
            < height) by (nonlinear_arith)
            requires
                height > 0,
                k >= 0,
        ;
        if t.entity != 0 && t.entity == player {
            assert(tile_at(map, height, k / height, k % height) == t);
        } else if player_spot(map, height, player, n) == (-1int, -1int) {
            assert forall|j: int| 0 <= j < n && player != 0 implies (#[trigger] types::tile_of(
                map,
                TILE_SIZE * j,
            )).entity != player by {
                if j < k {
                    assert(types::tile_of(map, TILE_SIZE * j).entity != player);
                }
            }
        }
    }
}

proof fn column_holds_known_tiles(
    rest: Seq<Exchange>,
    map: Seq<u8>,
    height: int,
    x: int,
    y: int,
    names: Names,
)
    ensures
        column_on(rest, map, height, x, y, names) matches Ok(o) ==> forall|i: int|
            0 <= i < o.0.len() ==> (#[trigger] o.0[i]).raw_cell >= 0,
    decreases height - y,
{
    if y < height {
        let t = tile_at(map, height, x, y);
        if let Ok(this) = tile_on(rest, t, x, y, names) {
            column_holds_known_tiles(this.1, map, height, x, y + 1, names);
            if let Ok(more) = column_on(this.1, map, height, x, y + 1, names) {
                if t.cell >= 0 {
                    let all = seq![this.0] + more.0;
                    assert forall|i: int| 0 <= i < all.len() implies (#[trigger] all[i]).raw_cell
                        >= 0 by {
                        if i > 0 {
                            assert(all[i] == more.0[i - 1]);
                        }
                    }
                }
            }
        }
    }
}

/// Tiles that were never seen are not reported, and neither are columns without any tile
/// that was.
pub proof fn only_known_tiles_are_reported(
    rest: Seq<Exchange>,
    map: Seq<u8>,
    width: int,
    height: int,
    x: int,
    names: Names,
)
    ensures
        columns_on(rest, map, width, height, x, names) matches Ok(o) ==> forall|c: int|
            0 <= c < o.0.len() ==> {
                &&& (#[trigger] o.0[c]).len() > 0
                &&& forall|i: int| 0 <= i < o.0[c].len() ==> (#[trigger] o.0[c][i]).raw_cell >= 0
            },
    decreases width - x,
{
    if x < width {
        column_holds_known_tiles(rest, map, height, x, 0, names);
        if let Ok(this) = column_on(rest, map, height, x, 0, names) {
            only_known_tiles_are_reported(this.1, map, width, height, x + 1, names);
            if let Ok(more) = columns_on(this.1, map, width, height, x + 1, names) {
                let all = seq![this.0] + more.0;
                assert forall|c: int| 0 <= c < all.len() implies {
                    &&& c > 0 ==> (#[trigger] all[c]).len() > 0
                    &&& forall|i: int| 0 <= i < all[c].len() ==> (#[trigger] all[c][i]).raw_cell >= 0
                } by {
                    if c > 0 {
                        assert(all[c] == more.0[c - 1]);
                    }
                }
            }
        }
    }
}

} // verus!
