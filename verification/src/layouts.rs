//! How the target lays its records out, and that decoding gives back what is stored there.

use crate::blit;
use crate::blit::Draw;
use crate::bytes;
use crate::cells;
use crate::cells::{CellType, CellView};
use crate::ids::IdTable;
use crate::types;
use crate::types::{
    LuigiAi, LuigiEntity, LuigiItem, LuigiMachineHacking, LuigiProp, LuigiTile,
};
use vstd::prelude::*;

verus! {

/// Whether the two bytes from `o` on hold `n`, its low byte first and a negative number by
/// its two's complement.
pub open spec fn half_stands(b: Seq<u8>, o: int, n: int) -> bool {
    &&& b[o] == n % 256
    &&& b[o + 1] == n / 256 % 256
}

/// Whether the four bytes from `o` on hold `n`, its low byte first and a negative number by
/// its two's complement.
pub open spec fn word_stands(b: Seq<u8>, o: int, n: int) -> bool {
    &&& b[o] == n % 256
    &&& b[o + 1] == n / 256 % 256
    &&& b[o + 2] == n / 65536 % 256
    &&& b[o + 3] == n / 16777216 % 256
}

/// A 32-bit number is read where it stands.
pub proof fn word_is_read_where_it_stands(b: Seq<u8>, o: int, n: int)
    requires
        word_stands(b, o, n),
    ensures
        0 <= n < 0x1_0000_0000 ==> bytes::le32(b, o) == n,
        -0x8000_0000 <= n < 0x8000_0000 ==> bytes::le_i32(b, o) == n,
{
    let q = n / 256;
    let r = n / 65536;
    let s = n / 16777216;
    assert(q / 256 == r);
    assert(r / 256 == s);
    assert(n == 256 * q + n % 256);
    assert(q == 256 * r + q % 256);
    assert(r == 256 * s + r % 256);
    assert(n - 16777216 * s == b[o] + 256 * b[o + 1] + 65536 * b[o + 2]);
}

/// What is read as a 32-bit number stands there.
pub proof fn word_stands_where_it_is_read(b: Seq<u8>, o: int)
    ensures
        word_stands(b, o, bytes::le32(b, o)),
        word_stands(b, o, bytes::le_i32(b, o)),
        0 <= bytes::le32(b, o) < 0x1_0000_0000,
        -0x8000_0000 <= bytes::le_i32(b, o) < 0x8000_0000,
{
    let n = bytes::le32(b, o);
    let s = b[o + 3] as int;
    let r = b[o + 2] + 256 * s;
    let q = b[o + 1] + 256 * r;
    assert(n == b[o] + 256 * q);
    assert(n / 256 == q);
    assert(n / 65536 == r);
    assert(n / 16777216 == s);
    assert(word_stands(b, o, n));
    if n >= 0x8000_0000 {
        pattern_keeps_bytes(n - 0x1_0000_0000);
    }
}

/// A 16-bit number is read where it stands.
pub proof fn half_is_read_where_it_stands(b: Seq<u8>, o: int, n: int)
    requires
        half_stands(b, o, n),
    ensures
        0 <= n < 0x1_0000 ==> bytes::le16(b, o) == n,
        -0x8000 <= n < 0x8000 ==> bytes::signed16(bytes::le16(b, o)) == n,
{
    assert(n == 256 * (n / 256) + n % 256);
}

proof fn pattern_keeps_bytes(n: int)
    ensures
        (n + 0x1_0000_0000) % 256 == n % 256,
        (n + 0x1_0000_0000) / 256 % 256 == n / 256 % 256,
        (n + 0x1_0000_0000) / 65536 % 256 == n / 65536 % 256,
        (n + 0x1_0000_0000) / 16777216 % 256 == n / 16777216 % 256,
{
    assert((n + 0x1_0000_0000) / 256 == n / 256 + 0x100_0000);
    assert((n + 0x1_0000_0000) / 65536 == n / 65536 + 0x1_0000);
    assert((n + 0x1_0000_0000) / 16777216 == n / 16777216 + 0x100);
}

/// What is read as a 16-bit number stands there.
pub proof fn half_stands_where_it_is_read(b: Seq<u8>, o: int)
    ensures
        half_stands(b, o, bytes::le16(b, o)),
        half_stands(b, o, bytes::signed16(bytes::le16(b, o))),
        0 <= bytes::le16(b, o) < 0x1_0000,
        -0x8000 <= bytes::signed16(bytes::le16(b, o)) < 0x8000,
{
}

/// The two bytes that are written for a number hold it.
pub proof fn written_half_stands(n: int)
    requires
        0 <= n < 0x1_0000,
    ensures
        half_stands(bytes::bytes16(n), 0, n),
        bytes::bytes16(n).len() == 2,
{
    reveal(bytes::bytes16);
}

/// The four bytes that are written for a number hold it.
pub proof fn written_word_stands(n: int)
    requires
        0 <= n < 0x1_0000_0000,
    ensures
        word_stands(bytes::bytes32(n), 0, n),
        bytes::bytes32(n).len() == 4,
{
    reveal(bytes::bytes32);
}

/// So do those that are written for a signed number.
pub proof fn written_int_stands(n: int)
    requires
        -0x8000_0000 <= n < 0x8000_0000,
    ensures
        word_stands(bytes::bytes32(bytes::bits32(n)), 0, n),
{
    written_word_stands(bytes::bits32(n));
    if n < 0 {
        assert(bytes::bits32(n) == n + 0x1_0000_0000);
        pattern_keeps_bytes(n);
    } else {
        assert(bytes::bits32(n) == n);
    }
}

/// A cast to 32 bits keeps a number up to a multiple of 2 to the 32nd, in the range of the
/// type.
pub proof fn casts_keep_the_low_bits(n: int)
    ensures
        0 <= bytes::bits32(n) < 0x1_0000_0000,
        (n - bytes::bits32(n)) % 0x1_0000_0000 == 0,
        -0x8000_0000 <= bytes::low32(n) < 0x8000_0000,
        (n - bytes::low32(n)) % 0x1_0000_0000 == 0,
        0 <= n < 0x1_0000_0000 ==> bytes::bits32(n) == n,
        -0x8000_0000 <= n < 0x8000_0000 ==> bytes::low32(n) == n,
{
}

/// Whether an entity stands at `o`: twelve words, in
/// the order of its fields.
pub open spec fn entity_stands(b: Seq<u8>, o: int, v: LuigiEntity) -> bool {
    &&& word_stands(b, o, v.id as int)
    &&& word_stands(b, o + 4, v.integrity as int)
    &&& word_stands(b, o + 8, v.relation as int)
    &&& word_stands(b, o + 12, v.active_state as int)
    &&& word_stands(b, o + 16, v.exposure as int)
    &&& word_stands(b, o + 20, v.energy as int)
    &&& word_stands(b, o + 24, v.matter as int)
    &&& word_stands(b, o + 28, v.heat as int)
    &&& word_stands(b, o + 32, v.system_corruption as int)
    &&& word_stands(b, o + 36, v.speed as int)
    &&& word_stands(b, o + 40, v.inventory_size as int)
    &&& word_stands(b, o + 44, v.inventory as int)
}

/// An entity is decoded from the bytes at which it stands, and from no others.
pub proof fn entity_survives(b: Seq<u8>, o: int, v: LuigiEntity)
    ensures
        types::entity_of(b, o) == v <==> entity_stands(b, o, v),
        types::ENTITY_SIZE == 48,
{
    word_stands_where_it_is_read(b, o);
    word_stands_where_it_is_read(b, o + 4);
    word_stands_where_it_is_read(b, o + 8);
    word_stands_where_it_is_read(b, o + 12);
    word_stands_where_it_is_read(b, o + 16);
    word_stands_where_it_is_read(b, o + 20);
    word_stands_where_it_is_read(b, o + 24);
    word_stands_where_it_is_read(b, o + 28);
    word_stands_where_it_is_read(b, o + 32);
    word_stands_where_it_is_read(b, o + 36);
    word_stands_where_it_is_read(b, o + 40);
    word_stands_where_it_is_read(b, o + 44);
    if entity_stands(b, o, v) {
        word_is_read_where_it_stands(b, o, v.id as int);
        word_is_read_where_it_stands(b, o + 4, v.integrity as int);
        word_is_read_where_it_stands(b, o + 8, v.relation as int);
        word_is_read_where_it_stands(b, o + 12, v.active_state as int);
        word_is_read_where_it_stands(b, o + 16, v.exposure as int);
        word_is_read_where_it_stands(b, o + 20, v.energy as int);
        word_is_read_where_it_stands(b, o + 24, v.matter as int);
        word_is_read_where_it_stands(b, o + 28, v.heat as int);
        word_is_read_where_it_stands(b, o + 32, v.system_corruption as int);
        word_is_read_where_it_stands(b, o + 36, v.speed as int);
        word_is_read_where_it_stands(b, o + 40, v.inventory_size as int);
        word_is_read_where_it_stands(b, o + 44, v.inventory as int);
    }
}

/// Whether a tile stands at `o`: seven words, the
/// fourth of which tells in its first byte whether a door is open.
pub open spec fn tile_stands(b: Seq<u8>, o: int, v: LuigiTile) -> bool {
    &&& word_stands(b, o, v.last_action as int)
    &&& word_stands(b, o + 4, v.last_fov as int)
    &&& word_stands(b, o + 8, v.cell as int)
    &&& v.door_open <==> b[o + 12] != 0
    &&& word_stands(b, o + 16, v.prop as int)
    &&& word_stands(b, o + 20, v.entity as int)
    &&& word_stands(b, o + 24, v.item as int)
}

/// A tile is decoded from the bytes at which it stands, and from no others.
pub proof fn tile_survives(b: Seq<u8>, o: int, v: LuigiTile)
    ensures
        types::tile_of(b, o) == v <==> tile_stands(b, o, v),
        types::TILE_SIZE == 28,
{
    word_stands_where_it_is_read(b, o);
    word_stands_where_it_is_read(b, o + 4);
    word_stands_where_it_is_read(b, o + 8);
    word_stands_where_it_is_read(b, o + 16);
    word_stands_where_it_is_read(b, o + 20);
    word_stands_where_it_is_read(b, o + 24);
    if tile_stands(b, o, v) {
        word_is_read_where_it_stands(b, o, v.last_action as int);
        word_is_read_where_it_stands(b, o + 4, v.last_fov as int);
        word_is_read_where_it_stands(b, o + 8, v.cell as int);
        word_is_read_where_it_stands(b, o + 16, v.prop as int);
        word_is_read_where_it_stands(b, o + 20, v.entity as int);
        word_is_read_where_it_stands(b, o + 24, v.item as int);
    }
}

/// Whether the root of the mirror stands at `o`: eleven words, in the order of
/// its fields.
pub open spec fn root_stands(b: Seq<u8>, o: int, v: LuigiAi) -> bool {
    &&& word_stands(b, o, v.magic1 as int)
    &&& word_stands(b, o + 4, v.magic2 as int)
    &&& word_stands(b, o + 8, v.action_ready as int)
    &&& word_stands(b, o + 12, v.map_width as int)
    &&& word_stands(b, o + 16, v.map_height as int)
    &&& word_stands(b, o + 20, v.location_depth as int)
    &&& word_stands(b, o + 24, v.location_map as int)
    &&& word_stands(b, o + 28, v.map_data as int)
    &&& word_stands(b, o + 32, v.map_cursor_index as int)
    &&& word_stands(b, o + 36, v.player as int)
    &&& word_stands(b, o + 40, v.machine_hacking as int)
}

/// The root of the mirror is decoded from the bytes at which it stands, and from no others.
pub proof fn root_survives(b: Seq<u8>, o: int, v: LuigiAi)
    ensures
        types::ai_of(b, o) == v <==> root_stands(b, o, v),
        types::AI_SIZE == 44,
{
    word_stands_where_it_is_read(b, o);
    word_stands_where_it_is_read(b, o + 4);
    word_stands_where_it_is_read(b, o + 8);
    word_stands_where_it_is_read(b, o + 12);
    word_stands_where_it_is_read(b, o + 16);
    word_stands_where_it_is_read(b, o + 20);
    word_stands_where_it_is_read(b, o + 24);
    word_stands_where_it_is_read(b, o + 28);
    word_stands_where_it_is_read(b, o + 32);
    word_stands_where_it_is_read(b, o + 36);
    word_stands_where_it_is_read(b, o + 40);
    if root_stands(b, o, v) {
        word_is_read_where_it_stands(b, o, v.magic1 as int);
        word_is_read_where_it_stands(b, o + 4, v.magic2 as int);
        word_is_read_where_it_stands(b, o + 8, v.action_ready as int);
        word_is_read_where_it_stands(b, o + 12, v.map_width as int);
        word_is_read_where_it_stands(b, o + 16, v.map_height as int);
        word_is_read_where_it_stands(b, o + 20, v.location_depth as int);
        word_is_read_where_it_stands(b, o + 24, v.location_map as int);
        word_is_read_where_it_stands(b, o + 28, v.map_data as int);
        word_is_read_where_it_stands(b, o + 32, v.map_cursor_index as int);
        word_is_read_where_it_stands(b, o + 36, v.player as int);
        word_is_read_where_it_stands(b, o + 40, v.machine_hacking as int);
    }
}

/// Whether an item stands at `o`: its identifier and its integrity.
pub open spec fn item_stands(b: Seq<u8>, o: int, v: LuigiItem) -> bool {
    &&& word_stands(b, o, v.id as int)
    &&& word_stands(b, o + 4, v.integrity as int)
}

/// An item is decoded from the bytes at which it stands, and from no others.
pub proof fn item_survives(b: Seq<u8>, o: int, v: LuigiItem)
    ensures
        types::item_of(b, o) == v <==> item_stands(b, o, v),
        types::ITEM_SIZE == 8,
{
    word_stands_where_it_is_read(b, o);
    word_stands_where_it_is_read(b, o + 4);
    if item_stands(b, o, v) {
        word_is_read_where_it_stands(b, o, v.id as int);
        word_is_read_where_it_stands(b, o + 4, v.integrity as int);
    }
}

/// Whether a prop stands at `o`: its identifier, and a byte that tells whether it is the
/// interactive piece.
pub open spec fn prop_stands(b: Seq<u8>, o: int, v: LuigiProp) -> bool {
    &&& word_stands(b, o, v.id as int)
    &&& v.interactive_piece <==> b[o + 4] != 0
}

/// A prop is decoded from the bytes at which it stands, and from no others.
pub proof fn prop_survives(b: Seq<u8>, o: int, v: LuigiProp)
    ensures
        types::prop_of(b, o) == v <==> prop_stands(b, o, v),
        types::PROP_SIZE == 8,
{
    word_stands_where_it_is_read(b, o);
    if prop_stands(b, o, v) {
        word_is_read_where_it_stands(b, o, v.id as int);
    }
}

/// Whether a hacking interface stands at `o`: three words, and a byte that tells
/// whether the last hack was a success.
pub open spec fn hacking_stands(b: Seq<u8>, o: int, v: LuigiMachineHacking) -> bool {
    &&& word_stands(b, o, v.action_ready as int)
    &&& word_stands(b, o + 4, v.detect_chance as int)
    &&& word_stands(b, o + 8, v.trace_progress as int)
    &&& v.last_hack_success <==> b[o + 12] != 0
}

/// A hacking interface is decoded from the bytes at which it stands, and from no others.
pub proof fn hacking_survives(b: Seq<u8>, o: int, v: LuigiMachineHacking)
    ensures
        types::hacking_of(b, o) == v <==> hacking_stands(b, o, v),
        types::HACKING_SIZE == 16,
{
    word_stands_where_it_is_read(b, o);
    word_stands_where_it_is_read(b, o + 4);
    word_stands_where_it_is_read(b, o + 8);
    if hacking_stands(b, o, v) {
        word_is_read_where_it_stands(b, o, v.action_ready as int);
        word_is_read_where_it_stands(b, o + 4, v.detect_chance as int);
        word_is_read_where_it_stands(b, o + 8, v.trace_progress as int);
    }
}

/// Whether a draw stands at `o`: seven half words, two bytes of padding
/// and a word.
pub open spec fn draw_stands(b: Seq<u8>, o: int, v: Draw) -> bool {
    &&& half_stands(b, o, v.dx as int)
    &&& half_stands(b, o + 2, v.dy as int)
    &&& half_stands(b, o + 4, v.w as int)
    &&& half_stands(b, o + 6, v.h as int)
    &&& half_stands(b, o + 8, v.sx as int)
    &&& half_stands(b, o + 10, v.sy as int)
    &&& half_stands(b, o + 12, v.kind as int)
    &&& word_stands(b, o + 16, v.arg as int)
}

/// A draw is decoded from the bytes at which it stands, and from no others.
pub proof fn draw_survives(b: Seq<u8>, o: int, v: Draw)
    ensures
        blit::draw_of(b, o) == v <==> draw_stands(b, o, v),
        blit::DRAW_SIZE == 20,
{
    half_stands_where_it_is_read(b, o);
    half_stands_where_it_is_read(b, o + 2);
    half_stands_where_it_is_read(b, o + 4);
    half_stands_where_it_is_read(b, o + 6);
    half_stands_where_it_is_read(b, o + 8);
    half_stands_where_it_is_read(b, o + 10);
    half_stands_where_it_is_read(b, o + 12);
    word_stands_where_it_is_read(b, o + 16);
    if draw_stands(b, o, v) {
        half_is_read_where_it_stands(b, o, v.dx as int);
        half_is_read_where_it_stands(b, o + 2, v.dy as int);
        half_is_read_where_it_stands(b, o + 4, v.w as int);
        half_is_read_where_it_stands(b, o + 6, v.h as int);
        half_is_read_where_it_stands(b, o + 8, v.sx as int);
        half_is_read_where_it_stands(b, o + 10, v.sy as int);
        half_is_read_where_it_stands(b, o + 12, v.kind as int);
        word_is_read_where_it_stands(b, o + 16, v.arg as int);
    }
}

/// The draws of a log follow each other every twenty bytes, from its first byte on.
pub proof fn draws_follow_each_other(b: Seq<u8>, n: int, i: int)
    requires
        0 <= i < n,
    ensures
        blit::draws_of(b, n).len() == n,
        blit::draws_of(b, n)[i] == blit::draw_of(b, 20 * i),
{
}

/// Whether a cell stands in a block as the game lays it out. Its character is the low seven
/// bits of the fifth byte.
pub open spec fn cell_stands(b: Seq<u8>, c: CellView) -> bool {
    &&& c.glyph as int == b[0x04] % 128
    &&& c.passable <==> b[0x38] != 0
    &&& c.transparent <==> b[0x3A] != 0
    &&& word_stands(b, 0x08, c.color as int)
    &&& word_stands(b, 0x0C, c.unk_0c as int)
    &&& word_stands(b, 0x2C, c.unk_2c as int)
    &&& word_stands(b, 0x30, c.x as int)
    &&& word_stands(b, 0x34, c.y as int)
    &&& word_stands(b, 0x40, c.unk_40 as int)
    &&& word_stands(b, 0x44, c.prop as int)
    &&& word_stands(b, 0x48, c.entity as int)
    &&& word_stands(b, 0x4C, c.item_container as int)
    &&& word_stands(b, 0x98, c.unk_98 as int)
    &&& word_stands(b, 0xA0, c.unk_a0 as int)
}

/// A cell is decoded from the bytes at which it stands, and from no others; it has the type
/// that is given, and the name that the type's identifier has.
pub proof fn cell_survives(b: Seq<u8>, c: CellView, ty: CellType, names: IdTable)
    ensures
        cells::cell_of(b, ty, names) == c <==> {
            &&& cell_stands(b, c)
            &&& c.cell_id == ty.id
            &&& c.type_class == ty.class
            &&& c.cell_name == match ty.id {
                Some(id) => names.lookup(id as int),
                None => None,
            }
        },
        cells::CELL_READ_LEN == 0xC0,
{
    assert(bytes::le32(b, 0x04) % 128 == b[0x04] % 128);
    word_stands_where_it_is_read(b, 0x08);
    word_stands_where_it_is_read(b, 0x0C);
    word_stands_where_it_is_read(b, 0x2C);
    word_stands_where_it_is_read(b, 0x30);
    word_stands_where_it_is_read(b, 0x34);
    word_stands_where_it_is_read(b, 0x40);
    word_stands_where_it_is_read(b, 0x44);
    word_stands_where_it_is_read(b, 0x48);
    word_stands_where_it_is_read(b, 0x4C);
    word_stands_where_it_is_read(b, 0x98);
    word_stands_where_it_is_read(b, 0xA0);
    if cell_stands(b, c) {
        word_is_read_where_it_stands(b, 0x08, c.color as int);
        word_is_read_where_it_stands(b, 0x0C, c.unk_0c as int);
        word_is_read_where_it_stands(b, 0x2C, c.unk_2c as int);
        word_is_read_where_it_stands(b, 0x30, c.x as int);
        word_is_read_where_it_stands(b, 0x34, c.y as int);
        word_is_read_where_it_stands(b, 0x40, c.unk_40 as int);
        word_is_read_where_it_stands(b, 0x44, c.prop as int);
        word_is_read_where_it_stands(b, 0x48, c.entity as int);
        word_is_read_where_it_stands(b, 0x4C, c.item_container as int);
        word_is_read_where_it_stands(b, 0x98, c.unk_98 as int);
        word_is_read_where_it_stands(b, 0xA0, c.unk_a0 as int);
    }
}

/// Whether a cell can be seen through hangs on one byte of it: that byte alone flips it and
/// nothing else of the cell, and no other byte does.
pub proof fn transparency_is_one_byte(b: Seq<u8>, i: int, v: u8, ty: CellType, names: IdTable)
    requires
        b.len() == 0xC0,
        0 <= i < 0xC0,
    ensures
        ({
            let was = cells::cell_of(b, ty, names);
            let is = cells::cell_of(b.update(i, v), ty, names);
            &&& was.transparent <==> b[0x3A] != 0
            &&& i == 0x3A ==> is == (CellView { transparent: v != 0, ..was })
            &&& i != 0x3A ==> is.transparent == was.transparent
        }),
{
}

/// Whether a cell can be walked on hangs on one byte of it, too.
pub proof fn passability_is_one_byte(b: Seq<u8>, i: int, v: u8, ty: CellType, names: IdTable)
    requires
        b.len() == 0xC0,
        0 <= i < 0xC0,
    ensures
        ({
            let was = cells::cell_of(b, ty, names);
            let is = cells::cell_of(b.update(i, v), ty, names);
            &&& was.passable <==> b[0x38] != 0
            &&& i == 0x38 ==> is == (CellView { passable: v != 0, ..was })
            &&& i != 0x38 ==> is.passable == was.passable
        }),
{
}

} // verus!
