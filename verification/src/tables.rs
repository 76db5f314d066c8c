//! The cell table of a map: which cells a map or a part of it lists, and in what order.

use crate::bytes;
use crate::cell_map;
use crate::cell_map::Frame;
use crate::cells;
use crate::cells::{CellType, CellView, ProbeView};
use crate::error::Error;
use crate::ids::IdTable;
use crate::layouts;
use crate::map_parts;
use crate::memory;
use crate::memory::{Answer, Exchange, Read, Stop};
use crate::mirrored;
use crate::readings;
use crate::text;
use vstd::prelude::*;

verus! {

/// Whether `v` is the nearest to `n` from 0 to `hi`.
pub open spec fn is_nearest(v: int, n: int, hi: int) -> bool {
    &&& 0 <= v <= hi
    &&& 0 <= n <= hi ==> v == n
    &&& n < 0 ==> v == 0
    &&& n > hi ==> v == hi
}

/// A map is read whole, or between two corners, both of which belong to the part and are
/// moved onto the map.
pub proof fn box_is_cut_down_to_the_map(
    header: (i32, i32, u32),
    bbox: Option<(i32, i32, i32, i32)>,
)
    requires
        cells::plausible_header(header),
    ensures
        ({
            let f = cell_map::frame_of(header, bbox);
            let (width, height, table) = header;
            &&& f.width == width
            &&& f.height == height
            &&& f.base == table
            &&& bbox is None ==> f.x0 == 0 && f.y0 == 0 && f.x1 == width - 1 && f.y1 == height - 1
            &&& bbox matches Some((x0, y0, x1, y1)) ==> {
                &&& is_nearest(f.x0 as int, x0 as int, width - 1)
                &&& is_nearest(f.y0 as int, y0 as int, height - 1)
                &&& is_nearest(f.x1 as int, x1 as int, width - 1)
                &&& is_nearest(f.y1 as int, y1 as int, height - 1)
            }
        }),
{
}

/// What a read of a word brings.
pub open spec fn word_in(a: Answer, w: Option<i32>) -> bool {
    match a {
        Answer::Failed(_) => w is None,
        Answer::Bytes(b) => w matches Some(n) && layouts::word_stands(b, 0, n as int),
    }
}

/// The column `x` of a table in a memory: as many pointers as the map has rows.
pub open spec fn column_of(mem: spec_fn(Read) -> Answer, f: Frame, x: int) -> Answer {
    mem(Read { addr: (f.base + 4 * (x * f.height)) as u64, len: (4 * f.height) as usize })
}

/// Whether `found` is what the row `y` of a column leads to: nothing where its pointer is
/// null or leads nowhere, else the cell that stands there, with the identifier and the class
/// that its type has where it has one.
pub open spec fn leads_to(
    mem: spec_fn(Read) -> Answer,
    column: Seq<u8>,
    y: int,
    found: Seq<CellView>,
    names: IdTable,
) -> bool {
    exists|ptr: u32|
        {
            &&& #[trigger] layouts::word_stands(column, 4 * y, ptr as int)
            &&& ptr == 0 ==> found.len() == 0
            &&& ptr != 0 ==> match mem(Read { addr: ptr as u64, len: 0xC0 }) {
                Answer::Failed(_) => found.len() == 0,
                Answer::Bytes(b) => found.len() == 1 && is_cell(mem, b, found[0], names),
            }
        }
}

/// Whether a cell is the one that stands in a block, with what a memory holds of its type.
pub open spec fn is_cell(
    mem: spec_fn(Read) -> Answer,
    b: Seq<u8>,
    c: CellView,
    names: IdTable,
) -> bool {
    &&& layouts::cell_stands(b, c)
    &&& c.cell_name == match c.cell_id {
        Some(id) => names.lookup(id as int),
        None => None,
    }
    &&& exists|ty: u32|
        {
            &&& #[trigger] layouts::word_stands(b, 0, ty as int)
            &&& ty == 0 ==> c.cell_id is None && c.type_class is None
            &&& ty != 0 ==> word_in(mem(Read { addr: ty as u64, len: 4 }), c.cell_id) && word_in(
                mem(Read { addr: (ty + 0x5C) as u64, len: 4 }),
                c.type_class,
            )
        }
}

proof fn int_in_is_word(a: Answer)
    ensures
        word_in(a, cell_map::int_in(a)),
{
    if let Answer::Bytes(b) = a {
        layouts::word_stands_where_it_is_read(b, 0);
    }
}

/// A row of a column leads to the cell that its pointer points to.
pub proof fn row_leads_to_its_cell(
    mem: spec_fn(Read) -> Answer,
    column: Seq<u8>,
    y: int,
    names: IdTable,
)
    ensures
        leads_to(mem, column, y, cell_map::cell_in(mem, column, y, names), names),
{
    layouts::word_stands_where_it_is_read(column, 4 * y);
    let ptr = cell_map::pointer(column, y) as u32;
    assert(layouts::word_stands(column, 4 * y, ptr as int));
    let q = Read { addr: ptr as u64, len: 0xC0 };
    assert(cell_map::cell_read(ptr as int) == q);
    if ptr != 0 {
        if let Answer::Bytes(b) = mem(q) {
            let ty = cell_map::type_pointer(b);
            layouts::word_stands_where_it_is_read(b, 0);
            assert(layouts::word_stands(b, 0, ty as int));
            let c = cells::cell_of(b, cell_map::type_in(mem, ty), names);
            layouts::cell_survives(b, c, cell_map::type_in(mem, ty), names);
            int_in_is_word(mem(cell_map::id_read(ty)));
            int_in_is_word(mem(cell_map::class_read(ty)));
            assert(is_cell(mem, b, c, names));
        }
    }
}

/// What the rows from `y0` to `y1` of a column lead to, row by row.
pub open spec fn rows_of(
    mem: spec_fn(Read) -> Answer,
    column: Seq<u8>,
    y0: int,
    y1: int,
    names: IdTable,
) -> Seq<Seq<CellView>> {
    Seq::new((y1 + 1 - y0) as nat, |i: int| cell_map::cell_in(mem, column, y0 + i, names))
}

/// What the columns from `x` to the last of a frame lead to, column by column.
pub open spec fn columns_of(
    mem: spec_fn(Read) -> Answer,
    f: Frame,
    x: int,
    names: IdTable,
) -> Seq<Seq<CellView>> {
    Seq::new(
        (f.x1 + 1 - x) as nat,
        |i: int|
            rows_of(
                mem,
                column_of(mem, f, x + i)->Bytes_0,
                f.y0 as int,
                f.y1 as int,
                names,
            ).flatten(),
    )
}

proof fn cells_are_rows(
    mem: spec_fn(Read) -> Answer,
    column: Seq<u8>,
    y: int,
    y1: int,
    names: IdTable,
)
    requires
        y <= y1 + 1,
    ensures
        cell_map::cells_in(mem, column, y, y1, names) == rows_of(
            mem,
            column,
            y,
            y1,
            names,
        ).flatten(),
    decreases y1 + 1 - y,
{
    let rows = rows_of(mem, column, y, y1, names);
    if y <= y1 {
        cells_are_rows(mem, column, y + 1, y1, names);
        assert(rows.drop_first() =~= rows_of(mem, column, y + 1, y1, names));
        assert(rows.first() == cell_map::cell_in(mem, column, y, names));
    }
}

proof fn map_is_columns(mem: spec_fn(Read) -> Answer, f: Frame, x: int, names: IdTable)
    requires
        f.valid(),
        f.x0 <= x <= f.x1 + 1,
    ensures
        cell_map::map_in(mem, f, x, names) matches Ok(all) ==> {
            &&& all == columns_of(mem, f, x, names).flatten()
            &&& forall|u: int| x <= u <= f.x1 ==> #[trigger] column_of(mem, f, u) is Bytes
        },
        cell_map::map_in(mem, f, x, names) matches Err(e) ==> exists|u: int|
            x <= u <= f.x1 && (#[trigger] column_of(mem, f, u) matches Answer::Failed(code) && e
                == (Error::Os { code })),
    decreases f.x1 + 1 - x,
{
    let columns = columns_of(mem, f, x, names);
    if x <= f.x1 {
        assert(x * (4 * f.height) == 4 * (x * f.height)) by (nonlinear_arith);
        assert(mem(cell_map::column_read(f, x)) == column_of(mem, f, x));
        map_is_columns(mem, f, x + 1, names);
        if let Answer::Bytes(column) = column_of(mem, f, x) {
            cells_are_rows(mem, column, f.y0 as int, f.y1 as int, names);
            assert(columns.drop_first() =~= columns_of(mem, f, x + 1, names));
            assert(columns.first() == rows_of(
                mem,
                column,
                f.y0 as int,
                f.y1 as int,
                names,
            ).flatten());
        }
    }
}

/// A map in a memory that stays still lists what its rows lead to: column by column from
/// left to right, each from top to bottom, all columns and rows of the frame and no others.
/// Only a column that cannot be read makes it fail.
pub proof fn map_lists_its_rows(f: Frame, mem: spec_fn(Read) -> Answer, names: IdTable)
    requires
        f.valid(),
        memory::still(mem),
    ensures
        ({
            let end = map_parts::end_of(f, mem, names);
            match end.phase {
                cell_map::Phase::Done => {
                    &&& end.out == columns_of(mem, f, f.x0 as int, names).flatten()
                    &&& forall|x: int|
                        f.x0 <= x <= f.x1 ==> #[trigger] column_of(mem, f, x) is Bytes
                },
                cell_map::Phase::Failed { error } => exists|x: int|
                    f.x0 <= x <= f.x1 && (#[trigger] column_of(mem, f, x) matches Answer::Failed(
                        code,
                    ) && error == (Error::Os { code })),
                _ => false,
            }
        }),
{
    cell_map::map_is_read_as_it_stands(f, mem, names);
    map_is_columns(mem, f, f.x0 as int, names);
}

/// Whether the word at `addr` was looked for, and was `w`; nothing where it could not be
/// read.
pub open spec fn word_sought(all: Seq<Exchange>, addr: int, w: Option<i32>) -> bool {
    exists|k: int|
        0 <= k < all.len() && (#[trigger] all[k]).read.addr == addr && all[k].read.len == 4
            && word_in(all[k].answer, w)
}

/// A probe shows the slot of its cell, which stands after those of all columns before it and
/// of all rows above; the cell that the slot points to, raw and decoded; and what is found of
/// the cell's type.
pub proof fn probe_shows_its_slot(
    rest: Seq<Exchange>,
    header: (i32, i32, u32),
    x: i32,
    y: i32,
    names: IdTable,
    p: ProbeView,
)
    requires
        cells::plausible_header(header),
        header.2 + 4 * (x * header.1 + y) <= u32::MAX,
        cells::probe_on(rest, header, x, y, names) == Ok::<ProbeView, Stop>(p),
    ensures
        0 <= x < header.0,
        0 <= y < header.1,
        p.x == x,
        p.y == y,
        p.index == x * header.1 + y,
        p.slot_addr == header.2 + 4 * p.index,
        readings::word_read(rest, p.slot_addr as int, p.cell_ptr as int),
        p.cell_ptr == 0 ==> p.decoded is None && p.raw_hex.len() == 0 && p.type_ptr == 0
            && p.type_raw_hex.len() == 0,
        p.cell_ptr != 0 ==> exists|b: Seq<u8>|
            {
                &&& #[trigger] mirrored::recorded(rest, p.cell_ptr as int, 0xC0, b)
                &&& p.raw_hex == text::dump(b, b.len() as int, true)
                &&& layouts::word_stands(b, 0, p.type_ptr as int)
                &&& p.decoded matches Some(c)
                &&& layouts::cell_stands(b, c)
                &&& c.cell_name == match c.cell_id {
                    Some(id) => names.lookup(id as int),
                    None => None,
                }
                &&& p.type_ptr == 0 ==> c.cell_id is None && c.type_class is None
                    && p.type_raw_hex.len() == 0
                &&& p.type_ptr != 0 ==> {
                    &&& word_sought(rest, p.type_ptr as int, c.cell_id)
                    &&& word_sought(rest, p.type_ptr + 0x5C, c.type_class)
                    &&& p.type_raw_hex.len() == 0 || exists|t: Seq<u8>|
                        #[trigger] mirrored::recorded(rest, p.type_ptr as int, 0x60, t)
                            && p.type_raw_hex == text::dump(t, t.len() as int, false)
                }
            },
{
    mirrored::tape_is_within_itself(rest);
    assert(0 <= x * header.1) by (nonlinear_arith)
        requires
            0 <= x,
            0 < header.1,
    ;
    let slot = (header.2 + 4 * (x * header.1 + y)) as u64;
    readings::word_is_recorded(rest, rest, slot);
    if p.cell_ptr != 0 {
        let q = Read { addr: p.cell_ptr as u64, len: cells::CELL_READ_LEN };
        mirrored::asked_is_recorded(rest.skip(1), rest, q);
        let b = memory::ask(rest.skip(1), q)->Ok_0;
        assert(mirrored::recorded(rest, p.cell_ptr as int, 0xC0, b));
        layouts::word_stands_where_it_is_read(b, 0);
        let c = p.decoded->0;
        layouts::cell_survives(b, c, CellType { id: c.cell_id, class: c.type_class }, names);
        if p.type_ptr != 0 {
            type_is_sought(rest, rest.skip(2), p, header, b, names);
        }
    }
}

proof fn type_is_sought(
    all: Seq<Exchange>,
    rest: Seq<Exchange>,
    p: ProbeView,
    header: (i32, i32, u32),
    b: Seq<u8>,
    names: IdTable,
)
    requires
        all.len() >= 2,
        rest == all.skip(2),
        p.type_ptr == bytes::le32(b, 0),
        cells::typed_probe_on(rest, header, p.x, p.y, p.cell_ptr as int, b, names) == Ok::<
            ProbeView,
            Stop,
        >(p),
    ensures
        p.decoded matches Some(c) && word_sought(all, p.type_ptr as int, c.cell_id) && word_sought(
            all,
            p.type_ptr + 0x5C,
            c.type_class,
        ),
        p.type_raw_hex.len() == 0 || exists|t: Seq<u8>|
            #[trigger] mirrored::recorded(all, p.type_ptr as int, 0x60, t) && p.type_raw_hex
                == text::dump(t, t.len() as int, false),
{
    let c = p.decoded->0;
    assert(rest[0] == all[2]);
    assert(rest.skip(1)[0] == all[3]);
    assert(rest.skip(2)[0] == all[4]);
    int_in_is_word(all[3].answer);
    int_in_is_word(all[4].answer);
    assert(word_in(all[3].answer, c.cell_id));
    assert(word_in(all[4].answer, c.type_class));
    if let Answer::Bytes(t) = all[2].answer {
        assert(mirrored::recorded(all, p.type_ptr as int, 0x60, t));
    }
}

/// A cell outside the map is refused, with its place and the map's size; one on the map is
/// not.
pub proof fn outside_is_refused(
    rest: Seq<Exchange>,
    header: (i32, i32, u32),
    x: i32,
    y: i32,
    names: IdTable,
)
    ensures
        ({
            let outside = Err::<ProbeView, Stop>(
                Stop::Fail(Error::OutsideMap { x, y, width: header.0, height: header.1 }),
            );
            let on = 0 <= x && x < header.0 && 0 <= y && y < header.1;
            &&& !on ==> cells::probe_on(rest, header, x, y, names) == outside
            &&& on ==> cells::probe_on(rest, header, x, y, names) != outside
        }),
{
}

} // verus!
