//! What a box of the map holds of the whole, which cell types are met on the way, and how a
//! probe of one slot fits in.

use crate::bytes;
use crate::cell_map;
use crate::cell_map::{Frame, Phase, Progress};
use crate::cells;
use crate::common;
use crate::error::Error;
use crate::ids::IdTable;
use crate::memory;
use crate::memory::{Answer, Exchange, Read, Stop};
use vstd::prelude::*;

verus! {

/// A cell with the slot of the table from which it was reached.
pub struct Slot {
    pub x: int,
    pub y: int,
    pub cell: cells::CellView,
}

/// Whether a slot lies in the box of a frame.
pub open spec fn in_box(f: Frame) -> spec_fn(Slot) -> bool {
    |s: Slot| f.x0 <= s.x <= f.x1 && f.y0 <= s.y <= f.y1
}

/// The cells of a list of slots.
pub open spec fn cells_of(v: Seq<Slot>) -> Seq<cells::CellView> {
    v.map_values(|s: Slot| s.cell)
}

/// Cells that were reached from one slot.
pub open spec fn reached_from(x: int, y: int, v: Seq<cells::CellView>) -> Seq<Slot> {
    v.map_values(|cell: cells::CellView| Slot { x, y, cell })
}

/// The occupied slots of column `x` from row `y` to row `y1`.
pub open spec fn slots_of_column(
    mem: spec_fn(Read) -> Answer,
    column: Seq<u8>,
    x: int,
    y: int,
    y1: int,
    names: IdTable,
) -> Seq<Slot>
    decreases y1 + 1 - y,
{
    if y > y1 {
        seq![]
    } else {
        reached_from(x, y, cell_map::cell_in(mem, column, y, names)) + slots_of_column(
            mem,
            column,
            x,
            y + 1,
            y1,
            names,
        )
    }
}

/// The occupied slots of a frame from column `x` on, as a memory holds them.
pub open spec fn slots_in(mem: spec_fn(Read) -> Answer, f: Frame, x: int, names: IdTable) -> Seq<
    Slot,
>
    decreases f.x1 + 1 - x,
{
    if x > f.x1 {
        seq![]
    } else {
        match mem(cell_map::column_read(f, x)) {
            Answer::Failed(_) => seq![],
            Answer::Bytes(column) => slots_of_column(
                mem,
                column,
                x,
                f.y0 as int,
                f.y1 as int,
                names,
            ) + slots_in(mem, f, x + 1, names),
        }
    }
}

proof fn column_holds_its_slots(
    mem: spec_fn(Read) -> Answer,
    column: Seq<u8>,
    x: int,
    y: int,
    y1: int,
    names: IdTable,
)
    ensures
        cells_of(slots_of_column(mem, column, x, y, y1, names)) == cell_map::cells_in(
            mem,
            column,
            y,
            y1,
            names,
        ),
    decreases y1 + 1 - y,
{
    let all = slots_of_column(mem, column, x, y, y1, names);
    if y <= y1 {
        column_holds_its_slots(mem, column, x, y + 1, y1, names);
        let here = cell_map::cell_in(mem, column, y, names);
        let rest = slots_of_column(mem, column, x, y + 1, y1, names);
        assert(cells_of(reached_from(x, y, here) + rest) =~= here + cells_of(rest));
    } else {
        assert(cells_of(all) =~= seq![]);
    }
}

proof fn map_holds_its_slots(mem: spec_fn(Read) -> Answer, f: Frame, x: int, names: IdTable)
    requires
        cell_map::map_in(mem, f, x, names) is Ok,
    ensures
        cell_map::map_in(mem, f, x, names) == Ok::<Seq<cells::CellView>, Error>(
            cells_of(slots_in(mem, f, x, names)),
        ),
    decreases f.x1 + 1 - x,
{
    let all = slots_in(mem, f, x, names);
    if x <= f.x1 {
        map_holds_its_slots(mem, f, x + 1, names);
        if let Answer::Bytes(column) = mem(cell_map::column_read(f, x)) {
            column_holds_its_slots(mem, column, x, f.y0 as int, f.y1 as int, names);
            let here = slots_of_column(mem, column, x, f.y0 as int, f.y1 as int, names);
            let rest = slots_in(mem, f, x + 1, names);
            assert(cells_of(here + rest) =~= cells_of(here) + cells_of(rest));
        }
    } else {
        assert(cells_of(all) =~= seq![]);
    }
}

/// The greater of two numbers.
spec fn greatest(a: int, b: int) -> int {
    if a >= b {
        a
    } else {
        b
    }
}

proof fn box_of_slot(f: Frame, x: int, y: int, v: Seq<cells::CellView>)
    requires
        v.len() <= 1,
    ensures
        reached_from(x, y, v).filter(in_box(f)) == (if f.x0 <= x <= f.x1 && f.y0 <= y <= f.y1 {
            reached_from(x, y, v)
        } else {
            seq![]
        }),
{
    let s = reached_from(x, y, v);
    reveal_with_fuel(Seq::filter, 2);
    if s.len() == 1 {
        assert(s.drop_last() =~= Seq::<Slot>::empty());
        assert(s.drop_last().filter(in_box(f)) =~= Seq::<Slot>::empty());
        assert(Seq::<Slot>::empty().push(s.last()) =~= s);
    } else {
        assert(s =~= Seq::<Slot>::empty());
    }
}

proof fn box_of_column(
    mem: spec_fn(Read) -> Answer,
    column: Seq<u8>,
    f: Frame,
    x: int,
    y: int,
    y1: int,
    names: IdTable,
)
    requires
        f.y1 <= y1,
    ensures
        slots_of_column(mem, column, x, y, y1, names).filter(in_box(f)) == (if f.x0 <= x <= f.x1 {
            slots_of_column(mem, column, x, greatest(y, f.y0 as int), f.y1 as int, names)
        } else {
            seq![]
        }),
    decreases y1 + 1 - y,
{
    if y <= y1 {
        let v = cell_map::cell_in(mem, column, y, names);
        let here = reached_from(x, y, v);
        let rest = slots_of_column(mem, column, x, y + 1, y1, names);
        box_of_column(mem, column, f, x, y + 1, y1, names);
        box_of_slot(f, x, y, v);
        Seq::filter_distributes_over_add(here, rest, in_box(f));
        let part = rest.filter(in_box(f));
        assert(Seq::<Slot>::empty() + part =~= part);
    } else {
        reveal(Seq::filter);
    }
}

proof fn box_of_map(
    mem: spec_fn(Read) -> Answer,
    whole: Frame,
    f: Frame,
    x: int,
    names: IdTable,
)
    requires
        cell_map::map_in(mem, whole, x, names) is Ok,
        whole.width == f.width,
        whole.height == f.height,
        whole.base == f.base,
        whole.y0 <= f.y0,
        f.y1 <= whole.y1,
        f.x1 <= whole.x1,
        f.x0 <= f.x1,
    ensures
        slots_in(mem, whole, x, names).filter(in_box(f)) == slots_in(
            mem,
            f,
            greatest(x, f.x0 as int),
            names,
        ),
        cell_map::map_in(mem, f, greatest(x, f.x0 as int), names) is Ok,
    decreases whole.x1 + 1 - x,
{
    if x <= whole.x1 {
        box_of_map(mem, whole, f, x + 1, names);
        assert(cell_map::column_read(whole, x) == cell_map::column_read(f, x));
        if let Answer::Bytes(column) = mem(cell_map::column_read(whole, x)) {
            let y0 = whole.y0 as int;
            let y1 = whole.y1 as int;
            let here = slots_of_column(mem, column, x, y0, y1, names);
            let rest = slots_in(mem, whole, x + 1, names);
            box_of_column(mem, column, f, x, y0, y1, names);
            Seq::filter_distributes_over_add(here, rest, in_box(f));
            let part = rest.filter(in_box(f));
            assert(Seq::<Slot>::empty() + part =~= part);
        }
    } else {
        reveal(Seq::filter);
    }
}

/// Where the reading of a frame ends in a memory that stays still.
pub open spec fn end_of(f: Frame, mem: spec_fn(Read) -> Answer, names: IdTable) -> Progress {
    Progress::start(f).drive(mem, names, Progress::start(f).left() as nat)
}

/// A box that covers the map is the map.
pub proof fn covering_box_is_map(header: (i32, i32, u32))
    requires
        cells::plausible_header(header),
    ensures
        cell_map::frame_of(
            header,
            Some((0, 0, (header.0 - 1) as i32, (header.1 - 1) as i32)),
        ) == cell_map::frame_of(header, None),
{
}

/// In a memory that stays still and whose pointer table can be read, a box brings exactly
/// those cells of the whole map, in their order, that are reached from slots inside it.
pub proof fn box_brings_its_part_of_the_map(
    header: (i32, i32, u32),
    bbox: (i32, i32, i32, i32),
    mem: spec_fn(Read) -> Answer,
    names: IdTable,
)
    requires
        cells::plausible_header(header),
        cell_map::frame_of(header, Some(bbox)).valid(),
        memory::still(mem),
        cell_map::map_in(mem, cell_map::frame_of(header, None), 0, names) is Ok,
    ensures
        ({
            let whole = cell_map::frame_of(header, None);
            let f = cell_map::frame_of(header, Some(bbox));
            let all = slots_in(mem, whole, 0, names);
            &&& end_of(whole, mem, names).phase is Done
            &&& end_of(whole, mem, names).out == cells_of(all)
            &&& end_of(f, mem, names).phase is Done
            &&& end_of(f, mem, names).out == cells_of(all.filter(in_box(f)))
        }),
{
    let whole = cell_map::frame_of(header, None);
    let f = cell_map::frame_of(header, Some(bbox));
    cell_map::map_is_read_as_it_stands(whole, mem, names);
    cell_map::map_is_read_as_it_stands(f, mem, names);
    map_holds_its_slots(mem, whole, 0, names);
    box_of_map(mem, whole, f, 0, names);
    map_holds_its_slots(mem, f, f.x0 as int, names);
}

/// The type of the cell in row `y` of a column: none where there is no cell, or a cell
/// without a type.
pub open spec fn type_at(mem: spec_fn(Read) -> Answer, column: Seq<u8>, y: int) -> Option<u32> {
    if cell_map::pointer(column, y) == 0 {
        None
    } else {
        match mem(cell_map::cell_read(cell_map::pointer(column, y))) {
            Answer::Failed(_) => None,
            Answer::Bytes(b) => if cell_map::type_pointer(b) == 0 {
                None
            } else {
                Some(cell_map::type_pointer(b))
            },
        }
    }
}

/// The set with what may be there.
pub open spec fn only(t: Option<u32>) -> Set<u32> {
    match t {
        Some(ty) => set![ty],
        None => set![],
    }
}

/// The types that are met in a column from row `y` to row `y1`.
pub open spec fn types_of_column(mem: spec_fn(Read) -> Answer, column: Seq<u8>, y: int, y1: int) -> Set<
    u32,
>
    decreases y1 + 1 - y,
{
    if y > y1 {
        set![]
    } else {
        only(type_at(mem, column, y)) + types_of_column(mem, column, y + 1, y1)
    }
}

/// The types that are met in a frame from column `x` on, up to the first column that
/// cannot be read.
pub open spec fn types_in(mem: spec_fn(Read) -> Answer, f: Frame, x: int) -> Set<u32>
    decreases f.x1 + 1 - x,
{
    if x > f.x1 {
        set![]
    } else {
        match mem(cell_map::column_read(f, x)) {
            Answer::Failed(_) => set![],
            Answer::Bytes(column) => types_of_column(mem, column, f.y0 as int, f.y1 as int)
                + types_in(mem, f, x + 1),
        }
    }
}

/// The types that the rest of a reading meets.
spec fn types_to_come(m: Progress, mem: spec_fn(Read) -> Answer) -> Set<u32> {
    let f = m.frame;
    let next = types_in(mem, f, m.x + 1);
    let below = types_of_column(mem, m.column, m.y + 1, f.y1 as int);
    match m.phase {
        Phase::Column => types_in(mem, f, m.x),
        Phase::Cell => types_of_column(mem, m.column, m.y, f.y1 as int) + next,
        Phase::TypeId | Phase::TypeClass => set![cell_map::type_pointer(m.cell)] + below + next,
        _ => set![],
    }
}

/// All types that a reading meets.
spec fn types_total(m: Progress, mem: spec_fn(Read) -> Answer) -> Set<u32> {
    m.types.dom() + types_to_come(m, mem)
}

proof fn next_row_meets_types(mem: spec_fn(Read) -> Answer, column: Seq<u8>, y: int, y1: int)
    ensures
        types_of_column(mem, column, y, y1) == types_of_column(
            mem,
            column,
            cell_map::next_row(column, y, y1),
            y1,
        ),
    decreases y1 + 1 - y,
{
    if y <= y1 && cell_map::pointer(column, y) == 0 {
        next_row_meets_types(mem, column, y + 1, y1);
        assert(types_of_column(mem, column, y, y1) =~= types_of_column(mem, column, y + 1, y1));
    }
}

proof fn seek_meets_types(m: Progress, y: int, mem: spec_fn(Read) -> Answer)
    requires
        m.x <= m.frame.x1,
    ensures
        types_total(m.seek(y), mem) == m.types.dom() + (types_of_column(
            mem,
            m.column,
            y,
            m.frame.y1 as int,
        ) + types_in(mem, m.frame, m.x + 1)),
{
    let y1 = m.frame.y1 as int;
    next_row_meets_types(mem, m.column, y, y1);
    let k = cell_map::next_row(m.column, y, y1);
    let n = m.seek(y);
    let next = types_in(mem, m.frame, m.x + 1);
    if k > y1 {
        assert(types_of_column(mem, m.column, y, y1) =~= set![]);
        assert(set![] + next =~= next);
        if m.x >= m.frame.x1 {
            assert(next =~= set![]);
        }
    }
}

proof fn step_meets_types(m: Progress, mem: spec_fn(Read) -> Answer, names: IdTable)
    requires
        m.valid(),
        m.request() is Some,
    ensures
        types_total(m.step(names, mem(m.request()->Some_0)), mem) == types_total(m, mem),
{
    let f = m.frame;
    let a = mem(m.request()->Some_0);
    let n = m.step(names, a);
    let next = types_in(mem, f, m.x + 1);
    let below = types_of_column(mem, m.column, m.y + 1, f.y1 as int);
    match m.phase {
        Phase::Column => {
            match a {
                Answer::Bytes(b) => {
                    seek_meets_types(Progress { column: b, ..m }, f.y0 as int, mem);
                },
                Answer::Failed(_) => {},
            }
        },
        Phase::Cell => {
            let here = only(type_at(mem, m.column, m.y));
            assert(types_of_column(mem, m.column, m.y, f.y1 as int) == here + below);
            match a {
                Answer::Failed(_) => {
                    seek_meets_types(m, m.y + 1, mem);
                    assert(set![] + below =~= below);
                },
                Answer::Bytes(b) => {
                    let ty = cell_map::type_pointer(b);
                    if ty == 0 || m.types.contains_key(ty) {
                        let t = if ty == 0 {
                            cells::CellType { id: None, class: None }
                        } else {
                            m.types[ty]
                        };
                        let m2 = m.add(b, t, names);
                        seek_meets_types(m2, m.y + 1, mem);
                        assert(m.types.dom() + (here + below + next) =~= m.types.dom() + (below
                            + next));
                    }
                },
            }
        },
        Phase::TypeId => {},
        Phase::TypeClass => {
            let ptr = cell_map::type_pointer(m.cell);
            let ty = cells::CellType { id: m.type_id, class: cell_map::int_in(a) };
            let m2 = Progress { types: m.types.insert(ptr, ty), cell: seq![], ..m }.add(
                m.cell,
                ty,
                names,
            );
            seek_meets_types(m2, m.y + 1, mem);
            assert(m2.types.dom() + (below + next) =~= m.types.dom() + (set![ptr] + below + next));
        },
        _ => {},
    }
}

proof fn drive_meets_types(m: Progress, mem: spec_fn(Read) -> Answer, names: IdTable, n: nat)
    requires
        m.valid(),
        m.agrees(mem),
        memory::still(mem),
    ensures
        types_total(m.drive(mem, names, n), mem) == types_total(m, mem),
    decreases n,
{
    if m.request() is Some && n > 0 {
        cell_map::step_keeps_total(m, mem, names);
        step_meets_types(m, mem, names);
        let next = m.step(names, mem(m.request()->Some_0));
        drive_meets_types(next, mem, names, (n - 1) as nat);
    }
}

/// Whether the cell in slot `(x, y)` of a frame has the type at `ty`.
pub open spec fn met_at(mem: spec_fn(Read) -> Answer, f: Frame, x: int, y: int, ty: u32) -> bool {
    &&& f.x0 <= x <= f.x1
    &&& f.y0 <= y <= f.y1
    &&& mem(cell_map::column_read(f, x)) matches Answer::Bytes(column)
    &&& type_at(mem, column, y) == Some(ty)
}

proof fn column_meets_exactly(
    mem: spec_fn(Read) -> Answer,
    column: Seq<u8>,
    y: int,
    y1: int,
    ty: u32,
)
    ensures
        types_of_column(mem, column, y, y1).contains(ty) <==> exists|v: int|
            y <= v <= y1 && #[trigger] type_at(mem, column, v) == Some(ty),
    decreases y1 + 1 - y,
{
    if y <= y1 {
        column_meets_exactly(mem, column, y + 1, y1, ty);
    }
}

proof fn map_meets_exactly(
    mem: spec_fn(Read) -> Answer,
    f: Frame,
    x: int,
    names: IdTable,
    ty: u32,
)
    requires
        f.x0 <= x,
        cell_map::map_in(mem, f, x, names) is Ok,
    ensures
        types_in(mem, f, x).contains(ty) <==> exists|u: int, v: int|
            x <= u && #[trigger] met_at(mem, f, u, v, ty),
    decreases f.x1 + 1 - x,
{
    if x <= f.x1 {
        map_meets_exactly(mem, f, x + 1, names, ty);
        if let Answer::Bytes(column) = mem(cell_map::column_read(f, x)) {
            column_meets_exactly(mem, column, f.y0 as int, f.y1 as int, ty);
            if types_of_column(mem, column, f.y0 as int, f.y1 as int).contains(ty) {
                let v = choose|v: int|
                    f.y0 <= v <= f.y1 && #[trigger] type_at(mem, column, v) == Some(ty);
                assert(met_at(mem, f, x, v, ty));
            }
            if exists|u: int, v: int| x <= u && #[trigger] met_at(mem, f, u, v, ty) {
                let (u, v) = choose|u: int, v: int|
                    x <= u && #[trigger] met_at(mem, f, u, v, ty);
                if u > x {
                    assert(x + 1 <= u && met_at(mem, f, u, v, ty));
                }
            }
        }
    }
}

/// In a memory that stays still, a map whose columns can all be read ends with exactly the
/// types of its cells: the type count is the number of different type pointers that are
/// not null.
pub proof fn types_are_counted_once(
    f: Frame,
    mem: spec_fn(Read) -> Answer,
    names: IdTable,
    ty: u32,
)
    requires
        f.valid(),
        memory::still(mem),
        cell_map::map_in(mem, f, f.x0 as int, names) is Ok,
    ensures
        end_of(f, mem, names).phase is Done,
        end_of(f, mem, names).types.dom() == types_in(mem, f, f.x0 as int),
        end_of(f, mem, names).types.len() == types_in(mem, f, f.x0 as int).len(),
        end_of(f, mem, names).types.contains_key(ty) <==> exists|x: int, y: int| #[trigger]
            met_at(mem, f, x, y, ty),
{
    let m = Progress::start(f);
    cell_map::map_is_read_as_it_stands(f, mem, names);
    drive_meets_types(m, mem, names, m.left() as nat);
    map_meets_exactly(mem, f, f.x0 as int, names, ty);
    let end = end_of(f, mem, names);
    let all = types_in(mem, f, f.x0 as int);
    assert(m.types.dom() + all =~= all);
    assert(end.types.dom() + set![] =~= end.types.dom());
    if exists|x: int, y: int| #[trigger] met_at(mem, f, x, y, ty) {
        let (x, y) = choose|x: int, y: int| #[trigger] met_at(mem, f, x, y, ty);
        assert(f.x0 <= x && met_at(mem, f, x, y, ty));
    }
}

proof fn column_points_where_slot_does(
    mem: spec_fn(Read) -> Answer,
    content: spec_fn(int) -> u8,
    f: Frame,
    x: int,
    y: int,
)
    requires
        f.valid(),
        0 <= x < f.width,
        0 <= y < f.height,
        common::shows(mem, content),
        mem(cell_map::column_read(f, x)) is Bytes,
        mem(slot_read(f, x, y)) is Bytes,
    ensures
        cell_map::pointer(mem(cell_map::column_read(f, x))->Bytes_0, y) == bytes::le32(
            mem(slot_read(f, x, y))->Bytes_0,
            0,
        ),
{
    cell_map::column_brings_the_slot(f, x, y);
    assert(0 <= x * f.height <= 0x10_0000) by (nonlinear_arith)
        requires
            0 <= x <= 1024,
            0 < f.height <= 1024,
    ;
    let c = mem(cell_map::column_read(f, x))->Bytes_0;
    let s = mem(slot_read(f, x, y))->Bytes_0;
    let q = cell_map::column_read(f, x);
    assert(c == common::window(content, q));
    assert(s == common::window(content, slot_read(f, x, y)));
    assert(q.addr + 4 * y == slot_read(f, x, y).addr);
    assert(s[0] == c[4 * y] && s[1] == c[4 * y + 1] && s[2] == c[4 * y + 2] && s[3] == c[4 * y + 3]);
}

/// The read that brings the pointer in slot `(x, y)` of the table.
pub open spec fn slot_read(f: Frame, x: int, y: int) -> Read {
    Read { addr: (f.base + 4 * cells::cell_index(x, y, f.height as int)) as u64, len: 4 }
}

/// The cells that a probe has decoded: the one in its slot, if there is one.
pub open spec fn probed(p: cells::ProbeView) -> Seq<cells::CellView> {
    match p.decoded {
        Some(c) => seq![c],
        None => seq![],
    }
}

proof fn probe_decodes_the_cell(
    mem: spec_fn(Read) -> Answer,
    rest: Seq<Exchange>,
    header: (i32, i32, u32),
    x: i32,
    y: i32,
    column: Seq<u8>,
    names: IdTable,
)
    requires
        memory::faithful(rest, mem),
        cells::on_map(x as int, y as int, Some((header.0, header.1))),
        ({
            let slot = Read {
                addr: (header.2 + 4 * cells::cell_index(x as int, y as int, header.1 as int)) as u64,
                len: 4,
            };
            mem(slot) matches Answer::Bytes(s) && bytes::le32(s, 0) == cell_map::pointer(
                column,
                y as int,
            )
        }),
    ensures
        match cells::probe_on(rest, header, x, y, names) {
            Ok(p) => cell_map::cell_in(mem, column, y as int, names) == probed(p),
            Err(Stop::Fail(_)) => cell_map::cell_in(mem, column, y as int, names).len() == 0,
            Err(Stop::Need(_)) => true,
        },
{
    if rest.len() > 0 {
        assert(rest[0].answer == mem(rest[0].read));
    }
    if rest.len() > 1 {
        assert(rest.skip(1)[0] == rest[1]);
        assert(rest[1].answer == mem(rest[1].read));
    }
    if rest.len() > 2 {
        assert(rest.skip(2)[0] == rest[2]);
        assert(rest[2].answer == mem(rest[2].read));
    }
    if rest.len() > 3 {
        assert(rest.skip(2).skip(1)[0] == rest[3]);
        assert(rest[3].answer == mem(rest[3].read));
    }
    if rest.len() > 4 {
        assert(rest.skip(2).skip(2)[0] == rest[4]);
        assert(rest[4].answer == mem(rest[4].read));
    }
}

/// A probe of a slot decodes exactly the cell that a box of that one slot brings: none
/// where the slot is empty, and none where the cell cannot be read, of which the probe
/// complains and the box does not.
pub proof fn probe_is_a_box_of_one(
    mem: spec_fn(Read) -> Answer,
    content: spec_fn(int) -> u8,
    rest: Seq<Exchange>,
    header: (i32, i32, u32),
    x: i32,
    y: i32,
    names: IdTable,
)
    requires
        common::shows(mem, content),
        memory::still(mem),
        memory::faithful(rest, mem),
        cells::plausible_header(header),
        cells::on_map(x as int, y as int, Some((header.0, header.1))),
        ({
            let f = cell_map::frame_of(header, Some((x, y, x, y)));
            &&& mem(cell_map::column_read(f, x as int)) is Bytes
            &&& mem(slot_read(f, x as int, y as int)) is Bytes
        }),
    ensures
        ({
            let f = cell_map::frame_of(header, Some((x, y, x, y)));
            &&& end_of(f, mem, names).phase is Done
            &&& match cells::probe_on(rest, header, x, y, names) {
                Ok(p) => end_of(f, mem, names).out == probed(p),
                Err(Stop::Fail(_)) => end_of(f, mem, names).out.len() == 0,
                Err(Stop::Need(_)) => true,
            }
        }),
{
    let f = cell_map::frame_of(header, Some((x, y, x, y)));
    let column = mem(cell_map::column_read(f, x as int))->Bytes_0;
    column_points_where_slot_does(mem, content, f, x as int, y as int);
    probe_decodes_the_cell(mem, rest, header, x, y, column, names);
    cell_map::map_is_read_as_it_stands(f, mem, names);
    let here = cell_map::cell_in(mem, column, y as int, names);
    let none = cell_map::cells_in(mem, column, y + 1, y as int, names);
    assert(none =~= seq![]);
    assert(cell_map::cells_in(mem, column, y as int, y as int, names) =~= here);
    assert(cell_map::map_in(mem, f, x + 1, names) == Ok::<Seq<cells::CellView>, Error>(seq![]));
    assert(here + Seq::<cells::CellView>::empty() =~= here);
}

} // verus!
