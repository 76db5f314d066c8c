//! What the game state tells of the memory that was read for it.

use crate::error::Error;
use crate::layouts;
use crate::memory;
use crate::memory::{Answer, Exchange, Read, Stop};
use crate::state;
use crate::state::{EntityView, GameView, ItemView, Mirror, Names, PropView, TileView};
use crate::text;
use crate::types;
use crate::types::{LuigiAi, LuigiEntity, LuigiItem, LuigiProp, LuigiTile, MapType};
use vstd::prelude::*;

verus! {

/// Whether a read of `len` bytes at `addr` is recorded, and has brought `b`.
pub open spec fn recorded(all: Seq<Exchange>, addr: int, len: int, b: Seq<u8>) -> bool {
    exists|k: int|
        0 <= k < all.len() && (#[trigger] all[k]).read.addr == addr && all[k].read.len == len
            && all[k].answer == Answer::Bytes(b)
}

/// Whether everything recorded on one tape is recorded on another.
pub open spec fn within(some: Seq<Exchange>, all: Seq<Exchange>) -> bool {
    forall|k: int| 0 <= k < some.len() ==> all.contains(#[trigger] some[k])
}

/// What a read brings that is the next on a tape is recorded on it.
pub proof fn asked_is_recorded(rest: Seq<Exchange>, all: Seq<Exchange>, q: Read)
    requires
        within(rest, all),
    ensures
        memory::ask(rest, q) matches Ok(b) ==> recorded(all, q.addr as int, q.len as int, b)
            && within(rest.skip(1), all),
{
    if let Ok(b) = memory::ask(rest, q) {
        assert(all.contains(rest[0]));
        let k = choose|k: int| 0 <= k < all.len() && all[k] == rest[0];
        assert(all[k].read.addr == q.addr);
        let more = rest.skip(1);
        assert forall|j: int| 0 <= j < more.len() implies all.contains(#[trigger] more[j]) by {
            assert(more[j] == rest[j + 1]);
        }
    }
}

/// A tape is recorded on itself.
pub proof fn tape_is_within_itself(rest: Seq<Exchange>)
    ensures
        within(rest, rest),
{
    assert forall|k: int| 0 <= k < rest.len() implies rest.contains(#[trigger] rest[k]) by {}
}

/// The mirror is what was read of it: the root at its address, the player where the root
/// points, and a hacking interface where and only where the root points to one.
pub proof fn mirror_is_what_was_read(rest: Seq<Exchange>, base: u64, m: Mirror)
    requires
        state::mirror_on(rest, base) == Ok::<Mirror, Stop>(m),
    ensures
        exists|b: Seq<u8>|
            #[trigger] recorded(rest, base as int, 44, b) && layouts::root_stands(b, 0, m.ai),
        exists|b: Seq<u8>|
            #[trigger] recorded(rest, m.ai.player as int, 48, b) && layouts::entity_stands(
                b,
                0,
                m.player,
            ),
        m.ai.player != 0,
        m.ai.map_data != 0,
        m.ai.map_width > 0,
        m.ai.map_height > 0,
        m.machine_hacking is Some <==> m.ai.machine_hacking != 0,
        m.machine_hacking matches Some(h) ==> exists|b: Seq<u8>|
            #[trigger] recorded(rest, m.ai.machine_hacking as int, 16, b)
                && layouts::hacking_stands(b, 0, h),
{
    tape_is_within_itself(rest);
    let first = Read { addr: base, len: types::AI_SIZE };
    asked_is_recorded(rest, rest, first);
    let b = memory::ask(rest, first)->Ok_0;
    layouts::root_survives(b, 0, m.ai);
    let second = Read { addr: m.ai.player as u64, len: types::ENTITY_SIZE };
    asked_is_recorded(rest.skip(1), rest, second);
    let e = memory::ask(rest.skip(1), second)->Ok_0;
    layouts::entity_survives(e, 0, m.player);
    assert(rest.skip(1).skip(1) =~= rest.skip(2));
    if let Some(h) = m.machine_hacking {
        let third = Read { addr: m.ai.machine_hacking as u64, len: types::HACKING_SIZE };
        asked_is_recorded(rest.skip(2), rest, third);
        let k = memory::ask(rest.skip(2), third)->Ok_0;
        layouts::hacking_survives(k, 0, h);
    }
}

/// Whether an entity is reported with its values, and with the name that its identifier has
/// among the entities.
pub open spec fn tells_entity(v: EntityView, e: LuigiEntity, names: Names) -> bool {
    &&& v.name == names.entities.lookup(e.id as int)
    &&& v.raw_id == e.id
    &&& v.integrity == e.integrity
    &&& v.relation == e.relation
    &&& v.active_state == e.active_state
    &&& v.exposure == e.exposure
    &&& v.energy == e.energy
    &&& v.matter == e.matter
    &&& v.heat == e.heat
    &&& v.system_corruption == e.system_corruption
    &&& v.speed == e.speed
    &&& v.inventory_size == e.inventory_size
}

/// Whether the entity that stands at `addr` is the reported one.
pub open spec fn tells_entity_at(
    all: Seq<Exchange>,
    addr: u32,
    v: EntityView,
    names: Names,
) -> bool {
    exists|b: Seq<u8>, e: LuigiEntity|
        #[trigger] recorded(all, addr as int, 48, b) && #[trigger] layouts::entity_stands(b, 0, e)
            && tells_entity(v, e, names)
}

/// Whether the prop that stands at `addr` is the reported one.
pub open spec fn tells_prop_at(all: Seq<Exchange>, addr: u32, v: PropView, names: Names) -> bool {
    exists|b: Seq<u8>, p: LuigiProp|
        #[trigger] recorded(all, addr as int, 8, b) && #[trigger] layouts::prop_stands(b, 0, p)
            && v.name == names.props.lookup(p.id as int) && v.raw_id == p.id && v.interactive_piece
            == p.interactive_piece
}

/// Whether the item that stands at `addr` is the reported one. Whether an item on the map is
/// attached is not known.
pub open spec fn tells_item_at(all: Seq<Exchange>, addr: u32, v: ItemView, names: Names) -> bool {
    exists|b: Seq<u8>, it: LuigiItem|
        #[trigger] recorded(all, addr as int, 8, b) && #[trigger] layouts::item_stands(b, 0, it)
            && v.name == names.items.lookup(it.id as int) && v.raw_id == it.id && v.integrity
            == it.integrity && v.equipped is None
}

/// Whether a reported tile is the one that stands in the map at its place, with the prop,
/// the entity and the item that it points to, where and only where it does.
pub open spec fn tells_tile(
    all: Seq<Exchange>,
    map: Seq<u8>,
    height: int,
    v: TileView,
    names: Names,
) -> bool {
    exists|t: LuigiTile|
        {
            &&& #[trigger] layouts::tile_stands(map, 28 * (v.x * height + v.y), t)
            &&& v.last_action == t.last_action
            &&& v.last_fov == t.last_fov
            &&& v.raw_cell == t.cell
            &&& v.cell == names.cells.lookup(t.cell as int)
            &&& v.door_open == t.door_open
            &&& v.prop is Some <==> t.prop != 0
            &&& v.entity is Some <==> t.entity != 0
            &&& v.item is Some <==> t.item != 0
            &&& v.prop matches Some(p) ==> tells_prop_at(all, t.prop, p, names)
            &&& v.entity matches Some(e) ==> tells_entity_at(all, t.entity, e, names)
            &&& v.item matches Some(i) ==> tells_item_at(all, t.item, i, names)
        }
}

proof fn object_is_recorded(rest: Seq<Exchange>, all: Seq<Exchange>, ptr: u32, len: usize)
    requires
        within(rest, all),
    ensures
        state::object_on(rest, ptr, len) matches Ok(o) ==> {
            &&& within(o.1, all)
            &&& o.0 is Some <==> ptr != 0
            &&& o.0 matches Some(b) ==> recorded(all, ptr as int, len as int, b)
        },
{
    asked_is_recorded(rest, all, Read { addr: ptr as u64, len });
}

proof fn tile_is_told(
    rest: Seq<Exchange>,
    all: Seq<Exchange>,
    map: Seq<u8>,
    height: int,
    x: i32,
    y: i32,
    names: Names,
)
    requires
        within(rest, all),
    ensures
        state::tile_on(
            rest,
            state::tile_at(map, height, x as int, y as int),
            x as int,
            y as int,
            names,
        ) matches Ok(o) ==> {
            &&& within(o.1, all)
            &&& o.0.x == x
            &&& o.0.y == y
            &&& o.0.raw_cell == state::tile_at(map, height, x as int, y as int).cell
            &&& tells_tile(all, map, height, o.0, names)
        },
{
    let t = state::tile_at(map, height, x as int, y as int);
    if let Ok(o) = state::tile_on(rest, t, x as int, y as int, names) {
        layouts::tile_survives(map, 28 * (x * height + y), t);
        object_is_recorded(rest, all, t.prop, types::PROP_SIZE);
        let p = state::object_on(rest, t.prop, types::PROP_SIZE)->Ok_0;
        object_is_recorded(p.1, all, t.entity, types::ENTITY_SIZE);
        let e = state::object_on(p.1, t.entity, types::ENTITY_SIZE)->Ok_0;
        object_is_recorded(e.1, all, t.item, types::ITEM_SIZE);
        let i = state::object_on(e.1, t.item, types::ITEM_SIZE)->Ok_0;
        if let Some(b) = p.0 {
            layouts::prop_survives(b, 0, types::prop_of(b, 0));
            assert(tells_prop_at(all, t.prop, o.0.prop->0, names));
        }
        if let Some(b) = e.0 {
            layouts::entity_survives(b, 0, types::entity_of(b, 0));
            assert(tells_entity_at(all, t.entity, o.0.entity->0, names));
        }
        if let Some(b) = i.0 {
            layouts::item_survives(b, 0, types::item_of(b, 0));
            assert(tells_item_at(all, t.item, o.0.item->0, names));
        }
        assert(o.0.x == x && o.0.y == y);
        let at = 28 * (o.0.x * height + o.0.y);
        assert(at == types::TILE_SIZE * (x * height + y));
        assert(layouts::tile_stands(map, at, t));
    }
}

/// Whether the tile at `(x, y)` of a map was ever seen: its cell is not negative.
pub open spec fn is_known(map: Seq<u8>, height: int, x: int, y: int) -> bool {
    exists|n: i32|
        n >= 0 && #[trigger] layouts::word_stands(map, 28 * (x * height + y) + 8, n as int)
}

proof fn known_exactly_if_cell(map: Seq<u8>, height: int, x: int, y: int)
    ensures
        is_known(map, height, x, y) <==> state::tile_at(map, height, x, y).cell >= 0,
{
    let o = 28 * (x * height + y);
    let t = state::tile_at(map, height, x, y);
    layouts::tile_survives(map, o, t);
    assert forall|n: i32| #[trigger] layouts::word_stands(map, o + 8, n as int) implies n
        == t.cell by {
        layouts::word_is_read_where_it_stands(map, o + 8, n as int);
        layouts::word_is_read_where_it_stands(map, o + 8, t.cell as int);
    }
}

/// Whether the tiles of a column are those of column `x` from row `from` on that were ever
/// seen, from top to bottom, each as it stands in the map.
pub open spec fn tells_column(
    all: Seq<Exchange>,
    map: Seq<u8>,
    height: int,
    x: int,
    from: int,
    column: Seq<TileView>,
    names: Names,
) -> bool {
    &&& forall|i: int|
        0 <= i < column.len() ==> {
            &&& (#[trigger] column[i]).x == x
            &&& from <= column[i].y < height
            &&& is_known(map, height, x, column[i].y as int)
            &&& tells_tile(all, map, height, column[i], names)
        }
    &&& forall|i: int, j: int|
        0 <= i < j < column.len() ==> (#[trigger] column[i]).y < (#[trigger] column[j]).y
    &&& forall|y: int|
        from <= y < height && #[trigger] is_known(map, height, x, y) ==> has_row(column, y)
}

/// Whether a column has a tile in row `y`.
pub open spec fn has_row(column: Seq<TileView>, y: int) -> bool {
    exists|i: int| 0 <= i < column.len() && (#[trigger] column[i]).y == y
}

proof fn column_is_told(
    rest: Seq<Exchange>,
    all: Seq<Exchange>,
    map: Seq<u8>,
    height: int,
    x: i32,
    y: int,
    names: Names,
)
    requires
        within(rest, all),
        0 <= y,
        height <= i32::MAX,
    ensures
        state::column_on(rest, map, height, x as int, y, names) matches Ok(o) ==> within(o.1, all)
            && tells_column(all, map, height, x as int, y, o.0, names),
    decreases height - y,
{
    if let Ok(o) = state::column_on(rest, map, height, x as int, y, names) {
        if y < height {
            let t = state::tile_at(map, height, x as int, y);
            tile_is_told(rest, all, map, height, x, y as i32, names);
            let this = state::tile_on(rest, t, x as int, y, names)->Ok_0;
            column_is_told(this.1, all, map, height, x, y + 1, names);
            let more = state::column_on(this.1, map, height, x as int, y + 1, names)->Ok_0;
            known_exactly_if_cell(map, height, x as int, y);
            if t.cell >= 0 {
                column_grows(all, map, height, x as int, y, this.0, more.0, names);
            } else {
                assert forall|r: int|
                    y <= r < height && #[trigger] is_known(map, height, x as int, r) implies has_row(
                    o.0,
                    r,
                ) by {
                    assert(r != y);
                }
            }
        }
    }
}

proof fn column_grows(
    all: Seq<Exchange>,
    map: Seq<u8>,
    height: int,
    x: int,
    y: int,
    this: TileView,
    more: Seq<TileView>,
    names: Names,
)
    requires
        this.x == x,
        this.y == y,
        0 <= y < height,
        is_known(map, height, x, y),
        tells_tile(all, map, height, this, names),
        tells_column(all, map, height, x, y + 1, more, names),
    ensures
        tells_column(all, map, height, x, y, seq![this] + more, names),
{
    let column = seq![this] + more;
    assert forall|i: int| 0 <= i < column.len() implies {
        &&& (#[trigger] column[i]).x == x
        &&& y <= column[i].y < height
        &&& is_known(map, height, x, column[i].y as int)
        &&& tells_tile(all, map, height, column[i], names)
    } by {
        if i > 0 {
            assert(column[i] == more[i - 1]);
        }
    }
    assert forall|i: int, j: int| 0 <= i < j < column.len() implies (#[trigger] column[i]).y < (
    #[trigger] column[j]).y by {
        assert(column[j] == more[j - 1]);
        if i > 0 {
            assert(column[i] == more[i - 1]);
        }
    }
    assert forall|r: int| y <= r < height && #[trigger] is_known(map, height, x, r) implies has_row(
        column,
        r,
    ) by {
        if r == y {
            assert(column[0].y == r);
        } else {
            let i = choose|i: int| 0 <= i < more.len() && (#[trigger] more[i]).y == r;
            assert(column[i + 1] == more[i]);
        }
    }
}

/// Whether a column with the tiles of column `x` is among the columns.
pub open spec fn has_column(columns: Seq<Seq<TileView>>, x: int) -> bool {
    exists|c: int|
        0 <= c < columns.len() && (#[trigger] columns[c]).len() > 0 && columns[c][0].x == x
}

/// Whether the columns are those from `from` on in which a tile was ever seen, from left to
/// right, each with all such tiles of it.
pub open spec fn tells_columns(
    all: Seq<Exchange>,
    map: Seq<u8>,
    width: int,
    height: int,
    from: int,
    columns: Seq<Seq<TileView>>,
    names: Names,
) -> bool {
    &&& forall|c: int|
        0 <= c < columns.len() ==> {
            let x = (#[trigger] columns[c])[0].x as int;
            &&& columns[c].len() > 0
            &&& from <= x < width
            &&& tells_column(all, map, height, x, 0, columns[c], names)
        }
    &&& forall|c: int, d: int|
        0 <= c < d < columns.len() ==> (#[trigger] columns[c])[0].x < (#[trigger] columns[d])[0].x
    &&& forall|x: int, y: int|
        from <= x < width && 0 <= y < height && #[trigger] is_known(map, height, x, y)
            ==> has_column(columns, x)
}

proof fn columns_grow(
    all: Seq<Exchange>,
    map: Seq<u8>,
    width: int,
    height: int,
    x: int,
    this: Seq<TileView>,
    more: Seq<Seq<TileView>>,
    names: Names,
)
    requires
        x < width,
        tells_column(all, map, height, x, 0, this, names),
        tells_columns(all, map, width, height, x + 1, more, names),
    ensures
        tells_columns(
            all,
            map,
            width,
            height,
            x,
            if this.len() > 0 {
                seq![this] + more
            } else {
                more
            },
            names,
        ),
{
    let columns = if this.len() > 0 {
        seq![this] + more
    } else {
        more
    };
    let shift: int = if this.len() > 0 {
        1
    } else {
        0
    };
    assert forall|c: int| shift <= c < columns.len() implies #[trigger] columns[c] == more[c
        - shift] by {}
    assert forall|c: int| 0 <= c < columns.len() implies {
        let first = (#[trigger] columns[c])[0].x as int;
        &&& columns[c].len() > 0
        &&& x <= first < width
        &&& tells_column(all, map, height, first, 0, columns[c], names)
    } by {
        if c >= shift {
            assert(columns[c] == more[c - shift]);
        } else {
            assert(columns[c] == this);
            assert(this[0].x == x);
        }
    }
    assert forall|c: int, d: int| 0 <= c < d < columns.len() implies (#[trigger] columns[c])[0].x
        < (#[trigger] columns[d])[0].x by {
        assert(columns[d] == more[d - shift]);
        if c >= shift {
            assert(columns[c] == more[c - shift]);
        } else {
            assert(this[0].x == x);
        }
    }
    assert forall|a: int, y: int|
        x <= a < width && 0 <= y < height && #[trigger] is_known(map, height, a, y) implies
        has_column(columns, a) by {
        if a == x {
            assert(has_row(this, y));
            assert(columns[0] == this);
            assert(this[0].x == x);
        } else {
            assert(has_column(more, a));
            let c = choose|c: int|
                0 <= c < more.len() && (#[trigger] more[c]).len() > 0 && more[c][0].x == a;
            assert(columns[c + shift] == more[c]);
        }
    }
}

proof fn columns_are_told(
    rest: Seq<Exchange>,
    all: Seq<Exchange>,
    map: Seq<u8>,
    width: int,
    height: int,
    x: int,
    names: Names,
)
    requires
        within(rest, all),
        0 <= x,
        width <= i32::MAX,
        height <= i32::MAX,
    ensures
        state::columns_on(rest, map, width, height, x, names) matches Ok(o) ==> within(o.1, all)
            && tells_columns(all, map, width, height, x, o.0, names),
    decreases width - x,
{
    if let Ok(o) = state::columns_on(rest, map, width, height, x, names) {
        if x < width {
            column_is_told(rest, all, map, height, x as i32, 0, names);
            let this = state::column_on(rest, map, height, x, 0, names)->Ok_0;
            columns_are_told(this.1, all, map, width, height, x + 1, names);
            let more = state::columns_on(this.1, map, width, height, x + 1, names)->Ok_0;
            columns_grow(all, map, width, height, x, this.0, more.0, names);
        }
    }
}

/// Whether an inventory holds the items that stand every `stride` bytes in a block, each
/// with the name that its identifier has among the items. Whether an item is attached is
/// told by its ninth byte, where it has one.
pub open spec fn tells_items(items: Seq<ItemView>, b: Seq<u8>, stride: int, names: Names) -> bool {
    forall|i: int|
        0 <= i < items.len() ==> {
            let v = #[trigger] items[i];
            let it = LuigiItem { id: v.raw_id, integrity: v.integrity };
            &&& layouts::item_stands(b, i * stride, it)
            &&& v.name == names.items.lookup(v.raw_id as int)
            &&& stride >= 12 ==> v.equipped == Some(b[i * stride + 8] != 0)
            &&& stride < 12 ==> v.equipped is None
        }
}

/// Whether an inventory is the one that an entity points to: as many items as it has, and no
/// more than 512; none where it points nowhere.
pub open spec fn tells_inventory(
    all: Seq<Exchange>,
    e: LuigiEntity,
    stride: int,
    items: Seq<ItemView>,
    names: Names,
) -> bool {
    if e.inventory == 0 || e.inventory_size <= 0 {
        items.len() == 0
    } else {
        &&& e.inventory_size <= 512 ==> items.len() == e.inventory_size
        &&& e.inventory_size > 512 ==> items.len() == 512
        &&& exists|b: Seq<u8>|
            #[trigger] recorded(all, e.inventory as int, items.len() * stride, b) && tells_items(
                items,
                b,
                stride,
                names,
            )
    }
}

proof fn inventory_is_told(
    rest: Seq<Exchange>,
    all: Seq<Exchange>,
    e: LuigiEntity,
    stride: usize,
    names: Names,
)
    requires
        within(rest, all),
        8 <= stride <= 16,
    ensures
        state::inventory_on(rest, e, stride, names) matches Ok(items) ==> tells_inventory(
            all,
            e,
            stride as int,
            items,
            names,
        ),
{
    if let Ok(items) = state::inventory_on(rest, e, stride, names) {
        let n = state::items_read(e);
        if n > 0 {
            assert(0 <= n * stride <= 8192) by (nonlinear_arith)
                requires
                    0 < n <= 512,
                    8 <= stride <= 16,
            ;
            let q = Read { addr: e.inventory as u64, len: (n * stride) as usize };
            asked_is_recorded(rest, all, q);
            let b = memory::ask(rest, q)->Ok_0;
            assert(items == state::items_of(b, stride as int, n, names));
            assert forall|i: int| 0 <= i < items.len() implies {
                let v = #[trigger] items[i];
                let it = LuigiItem { id: v.raw_id, integrity: v.integrity };
                &&& layouts::item_stands(b, i * stride, it)
                &&& v.name == names.items.lookup(v.raw_id as int)
                &&& stride >= 12 ==> v.equipped == Some(b[i * stride + 8] != 0)
                &&& stride < 12 ==> v.equipped is None
            } by {
                let it = types::item_of(b, i * stride);
                layouts::item_survives(b, i * stride, it);
            }
            assert(recorded(all, e.inventory as int, items.len() * stride, b));
        }
    }
}

/// Whether the tile at index `k` of a map points to the entity `player`.
pub open spec fn points_at(map: Seq<u8>, k: int, player: u32) -> bool {
    player != 0 && layouts::word_stands(map, 28 * k + 20, player as int)
}

/// Whether the player stands at `at` on a map with columns of this height: on the last of
/// the first `n` tiles that points to the player, and at (-1, -1) where none does.
pub open spec fn stands_last(
    map: Seq<u8>,
    height: int,
    player: u32,
    n: int,
    at: (int, int),
) -> bool {
    if at == (-1int, -1int) {
        forall|k: int| 0 <= k < n ==> !#[trigger] points_at(map, k, player)
    } else {
        let last = at.0 * height + at.1;
        &&& 0 <= at.1 < height
        &&& 0 <= last < n
        &&& points_at(map, last, player)
        &&& forall|k: int| last < k < n ==> !#[trigger] points_at(map, k, player)
    }
}

proof fn points_exactly_if_entity(map: Seq<u8>, k: int, player: u32)
    ensures
        points_at(map, k, player) <==> player != 0 && types::tile_of(map, types::TILE_SIZE * k).entity
            == player,
{
    let t = types::tile_of(map, 28 * k);
    layouts::tile_survives(map, 28 * k, t);
    layouts::word_is_read_where_it_stands(map, 28 * k + 20, t.entity as int);
    if layouts::word_stands(map, 28 * k + 20, player as int) {
        layouts::word_is_read_where_it_stands(map, 28 * k + 20, player as int);
    }
}

/// The player is reported on the last tile that points to the player, and nowhere where none
/// does.
pub proof fn player_stands_last(map: Seq<u8>, height: int, player: u32, n: int)
    requires
        0 < height,
        0 <= n,
    ensures
        stands_last(map, height, player, n, state::player_spot(map, height, player, n)),
    decreases n,
{
    if n > 0 {
        let k = n - 1;
        player_stands_last(map, height, player, k);
        points_exactly_if_entity(map, k, player);
        assert(k / height * height + k % height == k && 0 <= k / height && 0 <= k % height
            < height) by (nonlinear_arith)
            requires
                height > 0,
                k >= 0,
        ;
    }
}

/// Whether a map of this kind is the one with this code; no map where no kind has the code.
pub open spec fn is_kind(code: int, m: MapType) -> bool {
    m.code() == code || m == MapType::MapNone && forall|o: MapType| #[trigger] o.code() != code
}

/// The game state is what was read of it. The tiles stand in the map that the root points to,
/// which has a tile of 28 bytes for each place; the player and the inventory are those that
/// the mirror holds.
pub proof fn game_is_what_was_read(
    rest: Seq<Exchange>,
    m: Mirror,
    stride: usize,
    names: Names,
    g: GameView,
) -> (map: Seq<u8>)
    requires
        m.holds_map(),
        8 <= stride <= 16,
        state::game_on(rest, m, stride, names) == Ok::<GameView, Stop>(g),
    ensures
        ({
            let tiles = m.ai.map_width * m.ai.map_height;
            &&& recorded(rest, m.ai.map_data as int, 28 * tiles, map)
            &&& tells_columns(
                rest,
                map,
                m.ai.map_width as int,
                m.ai.map_height as int,
                0,
                g.map,
                names,
            )
            &&& stands_last(map, m.ai.map_height as int, m.ai.player, tiles, g.player_at)
        }),
        g.action_ready == m.ai.action_ready,
        g.map_width == m.ai.map_width,
        g.map_height == m.ai.map_height,
        g.map_cursor_index == m.ai.map_cursor_index,
        g.machine_hacking == m.machine_hacking,
        g.item_stride == stride,
        tells_entity(g.player, m.player, names),
        tells_inventory(rest, m.player, stride as int, g.inventory, names),
        exists|kind: MapType|
            is_kind(m.ai.location_map as int, kind) && g.location == "Current map: "@ + text::dec(
                m.ai.location_depth as int,
            ) + "/"@ + #[trigger] kind.called(),
{
    let w = m.ai.map_width as int;
    let h = m.ai.map_height as int;
    assert(0 < w * h) by (nonlinear_arith)
        requires
            w > 0,
            h > 0,
    ;
    let q = Read { addr: m.ai.map_data as u64, len: (m.tiles() * types::TILE_SIZE) as usize };
    tape_is_within_itself(rest);
    asked_is_recorded(rest, rest, q);
    let map = memory::ask(rest, q)->Ok_0;
    columns_are_told(rest.skip(1), rest, map, w, h, 0, names);
    let columns = state::columns_on(rest.skip(1), map, w, h, 0, names)->Ok_0;
    inventory_is_told(columns.1, rest, m.player, stride, names);
    player_stands_last(map, h, m.ai.player, m.tiles());
    let code = m.ai.location_map as int;
    let kind = state::map_or_none(code);
    types::codes_are_told_apart(code);
    assert forall|o: MapType| MapType::of_code(code) is None implies #[trigger] o.code()
        != code by {
        types::codes_read_back(o);
    }
    assert(is_kind(code, kind) && g.location == "Current map: "@ + text::dec(
        m.ai.location_depth as int,
    ) + "/"@ + kind.called());
    map
}

/// Until a map is loaded the mirror is refused: without a player, or without tiles, with
/// what the root tells of both.
pub proof fn empty_mirror_is_refused(rest: Seq<Exchange>, base: u64, b: Seq<u8>, r: LuigiAi)
    requires
        rest.len() >= 1,
        rest[0].read == (Read { addr: base, len: 44 }),
        rest[0].answer == Answer::Bytes(b),
        layouts::root_stands(b, 0, r),
    ensures
        r.player == 0 ==> state::mirror_on(rest, base) == Err::<Mirror, Stop>(
            Stop::Fail(
                Error::NoPlayer {
                    action_ready: r.action_ready,
                    width: r.map_width,
                    height: r.map_height,
                    depth: r.location_depth,
                    map_data: r.map_data,
                },
            ),
        ),
        r.map_data == 0 || r.map_width <= 0 || r.map_height <= 0 ==> match state::mirror_on(
            rest,
            base,
        ) {
            Ok(_) => false,
            Err(Stop::Fail(Error::NoMapData { width, height, map_data })) => width == r.map_width
                && height == r.map_height && map_data == r.map_data,
            Err(_) => true,
        },
{
    layouts::root_survives(b, 0, r);
}

} // verus!
