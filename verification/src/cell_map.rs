//! Reading the map, cell by cell.
//!
//! Cells are allocated one by one, so a map takes one read per column of the pointer
//! table, one per cell, and two per cell type.

use crate::bytes;
use crate::bytes::{int_at, word_at};
use crate::cells;
use crate::cells::{decode_cell, CellType, DirectCell};
use crate::error::Error;
use crate::ids::IdTable;
use crate::memory;
use crate::memory::{Answer, Read, Reply};
use std::collections::HashMap;
use vstd::prelude::*;

verus! {

broadcast use vstd::std_specs::hash::group_hash_axioms;

/// The map as it was read.
#[derive(Debug)]
pub struct DirectMap {
    pub width: i32,
    pub height: i32,
    pub cells_base: u32,
    /// Cells that were read: those with a pointer that could be followed.
    pub cell_count: usize,
    /// Distinct cell types among them.
    pub type_count: usize,
    pub cells: Vec<DirectCell>,
}

/// The part of a map that is read: the map's size, its cell table, and an inclusive box.
#[derive(Debug, Clone, Copy, PartialEq, Eq, Structural)]
pub struct Frame {
    pub width: i32,
    pub height: i32,
    pub base: u32,
    pub x0: i32,
    pub y0: i32,
    pub x1: i32,
    pub y1: i32,
}

impl Frame {
    /// The box lies inside the map and holds at least one cell.
    pub open spec fn valid(self) -> bool {
        &&& 0 < self.width <= cells::MAX_DIM
        &&& 0 < self.height <= cells::MAX_DIM
        &&& 0 <= self.x0 <= self.x1 < self.width
        &&& 0 <= self.y0 <= self.y1 < self.height
    }
}

/// `v`, moved into `0..=hi`.
pub open spec fn clamped(v: int, hi: int) -> int {
    if v < 0 {
        0
    } else if v > hi {
        hi
    } else {
        v
    }
}

/// The frame for a header and an optional box, which is cut down to the map.
pub open spec fn frame_of(header: (i32, i32, u32), bbox: Option<(i32, i32, i32, i32)>) -> Frame {
    let (w, h, base) = header;
    match bbox {
        None => Frame {
            width: w,
            height: h,
            base,
            x0: 0,
            y0: 0,
            x1: (w - 1) as i32,
            y1: (h - 1) as i32,
        },
        Some((a, b, c, d)) => Frame {
            width: w,
            height: h,
            base,
            x0: clamped(a as int, w - 1) as i32,
            y0: clamped(b as int, h - 1) as i32,
            x1: clamped(c as int, w - 1) as i32,
            y1: clamped(d as int, h - 1) as i32,
        },
    }
}

/// What the reading of a map waits for.
#[derive(Debug, Clone, Copy, PartialEq, Eq, Structural)]
pub enum Phase {
    /// A column of the pointer table.
    Column,
    /// A cell.
    Cell,
    /// The identifier of a cell's type.
    TypeId,
    /// The class of a cell's type.
    TypeClass,
    /// Nothing: the map is complete.
    Done,
    /// Nothing: a column could not be read.
    Failed { error: Error },
}

/// How far the reading of a map has come.
pub struct Progress {
    pub frame: Frame,
    pub x: int,
    pub y: int,
    pub phase: Phase,
    pub column: Seq<u8>,
    pub cell: Seq<u8>,
    pub type_id: Option<i32>,
    pub types: Map<u32, CellType>,
    pub out: Seq<cells::CellView>,
}

/// The cell pointer in row `y` of a column.
pub open spec fn pointer(column: Seq<u8>, y: int) -> int {
    bytes::le32(column, 4 * y)
}

/// The type pointer of a cell.
pub open spec fn type_pointer(cell: Seq<u8>) -> u32 {
    bytes::le32(cell, cells::CELL_TYPE as int) as u32
}

/// The read that brings column `x` of the pointer table.
pub open spec fn column_read(f: Frame, x: int) -> Read {
    Read { addr: (f.base + x * (4 * f.height)) as u64, len: (4 * f.height) as usize }
}

/// The read that brings the cell at `ptr`.
pub open spec fn cell_read(ptr: int) -> Read {
    Read { addr: ptr as u64, len: cells::CELL_READ_LEN }
}

/// The read that brings the identifier of the cell type at `ty`.
pub open spec fn id_read(ty: u32) -> Read {
    Read { addr: (ty + cells::CELLTYPE_ID) as u64, len: 4 }
}

/// The read that brings the class of the cell type at `ty`.
pub open spec fn class_read(ty: u32) -> Read {
    Read { addr: (ty + cells::CELLTYPE_CLASS) as u64, len: 4 }
}

/// The first row from `y` on whose pointer is not null, or the row after the box.
pub open spec fn next_row(column: Seq<u8>, y: int, y1: int) -> int
    decreases y1 + 1 - y,
{
    if y > y1 {
        y1 + 1
    } else if pointer(column, y) != 0 {
        y
    } else {
        next_row(column, y + 1, y1)
    }
}

/// The integer that an answer brings.
pub open spec fn int_in(a: Answer) -> Option<i32> {
    match a {
        Answer::Bytes(b) => Some(bytes::le_i32(b, 0) as i32),
        Answer::Failed(_) => None,
    }
}

impl Progress {
    /// Before the first read.
    pub open spec fn start(frame: Frame) -> Progress {
        Progress {
            frame,
            x: frame.x0 as int,
            y: frame.y0 as int,
            phase: Phase::Column,
            column: seq![],
            cell: seq![],
            type_id: None,
            types: Map::empty(),
            out: seq![],
        }
    }

    /// The next read.
    pub open spec fn request(self) -> Option<Read> {
        match self.phase {
            Phase::Column => Some(column_read(self.frame, self.x)),
            Phase::Cell => Some(cell_read(pointer(self.column, self.y))),
            Phase::TypeId => Some(id_read(type_pointer(self.cell))),
            Phase::TypeClass => Some(class_read(type_pointer(self.cell))),
            _ => None,
        }
    }

    /// Moves on to the next cell of the column, from row `y` on; to the next column
    /// where there is none; to the end where there is no column either.
    pub open spec fn seek(self, y: int) -> Progress {
        let k = next_row(self.column, y, self.frame.y1 as int);
        if k <= self.frame.y1 {
            Progress { y: k, phase: Phase::Cell, ..self }
        } else if self.x < self.frame.x1 {
            Progress { x: self.x + 1, phase: Phase::Column, ..self }
        } else {
            Progress { phase: Phase::Done, ..self }
        }
    }

    /// Adds the cell at hand, whose type is `ty`.
    pub open spec fn add(self, cell: Seq<u8>, ty: CellType, names: IdTable) -> Progress {
        Progress { out: self.out.push(cells::cell_of(cell, ty, names)), ..self }
    }

    /// What the answer to the next read leads to.
    pub open spec fn step(self, names: IdTable, a: Answer) -> Progress {
        match self.phase {
            Phase::Column => match a {
                Answer::Bytes(b) => Progress { column: b, ..self }.seek(self.frame.y0 as int),
                Answer::Failed(code) => Progress {
                    phase: Phase::Failed { error: Error::Os { code } },
                    ..self
                },
            },
            Phase::Cell => match a {
                Answer::Failed(_) => self.seek(self.y + 1),
                Answer::Bytes(b) => {
                    let ty = type_pointer(b);
                    if ty == 0 {
                        self.add(b, CellType { id: None, class: None }, names).seek(self.y + 1)
                    } else if self.types.contains_key(ty) {
                        self.add(b, self.types[ty], names).seek(self.y + 1)
                    } else {
                        Progress { cell: b, phase: Phase::TypeId, ..self }
                    }
                },
            },
            Phase::TypeId => Progress { type_id: int_in(a), phase: Phase::TypeClass, ..self },
            Phase::TypeClass => {
                let ty = CellType { id: self.type_id, class: int_in(a) };
                Progress {
                    types: self.types.insert(type_pointer(self.cell), ty),
                    cell: seq![],
                    ..self
                }.add(self.cell, ty, names).seek(self.y + 1)
            },
            _ => self,
        }
    }

    /// What holds at every point of the reading.
    pub open spec fn valid(self) -> bool {
        &&& self.frame.valid()
        &&& self.frame.x0 <= self.x <= self.frame.x1
        &&& self.frame.y0 <= self.y <= self.frame.y1
        &&& self.phase is Cell || self.phase is TypeId || self.phase is TypeClass ==> self.column.len()
            == 4 * self.frame.height && pointer(self.column, self.y) != 0
        &&& self.phase is TypeId || self.phase is TypeClass ==> self.cell.len()
            == cells::CELL_READ_LEN && type_pointer(self.cell) != 0 && !self.types.contains_key(
            type_pointer(self.cell),
        )
    }
}

/// The reading of a map, waiting for an answer or complete.
#[derive(Debug)]
pub struct ReadMap {
    frame: Frame,
    x: i32,
    y: i32,
    phase: Phase,
    column: Vec<u8>,
    cell: Vec<u8>,
    type_id: Option<i32>,
    types: HashMap<u32, CellType>,
    out: Vec<DirectCell>,
}

impl View for ReadMap {
    type V = Progress;

    closed spec fn view(&self) -> Progress {
        Progress {
            frame: self.frame,
            x: self.x as int,
            y: self.y as int,
            phase: self.phase,
            column: self.column@,
            cell: self.cell@,
            type_id: self.type_id,
            types: self.types@,
            out: self.out@.map_values(|c: DirectCell| c@),
        }
    }
}

fn clamp(v: i32, hi: i32) -> (r: i32)
    ensures
        hi >= 0 ==> r == clamped(v as int, hi as int),
{
    if v < 0 {
        0
    } else if v > hi {
        hi
    } else {
        v
    }
}

/// Starts reading the map with this header, restricted to an inclusive box if one is
/// given. The box is cut down to the map first.
pub fn read_map(header: (i32, i32, u32), bbox: Option<(i32, i32, i32, i32)>) -> (r: Result<ReadMap, Error>)
    requires
        cells::plausible_header(header),
    ensures
        ({
            let f = frame_of(header, bbox);
            if f.x0 > f.x1 || f.y0 > f.y1 {
                r matches Err(e) && e == (Error::EmptyBox { x0: f.x0, y0: f.y0, x1: f.x1, y1: f.y1 })
            } else {
                r matches Ok(m) && m@ == Progress::start(f) && m@.valid()
            }
        }),
{
    let (w, h, base) = header;
    let frame: Frame = match bbox {
        None => Frame { width: w, height: h, base, x0: 0, y0: 0, x1: w - 1, y1: h - 1 },
        Some((a, b, c, d)) => Frame {
            width: w,
            height: h,
            base,
            x0: clamp(a, w - 1),
            y0: clamp(b, h - 1),
            x1: clamp(c, w - 1),
            y1: clamp(d, h - 1),
        },
    };
    if frame.x0 > frame.x1 || frame.y0 > frame.y1 {
        return Err(
            Error::EmptyBox { x0: frame.x0, y0: frame.y0, x1: frame.x1, y1: frame.y1 },
        );
    }
    let m = ReadMap {
        frame,
        x: frame.x0,
        y: frame.y0,
        phase: Phase::Column,
        column: Vec::new(),
        cell: Vec::new(),
        type_id: None,
        types: HashMap::new(),
        out: Vec::new(),
    };
    proof {
        assert(m@.out =~= Seq::<cells::CellView>::empty());
        assert(m@.column =~= Seq::<u8>::empty());
        assert(m@.cell =~= Seq::<u8>::empty());
        assert(m@.types =~= Map::<u32, CellType>::empty());
    }
    Ok(m)
}

impl ReadMap {
    #[verifier::type_invariant]
    spec fn sound(self) -> bool {
        self@.valid()
    }

    /// The next read; none when the reading is over.
    pub fn next(&self) -> (r: Option<Read>)
        ensures
            r == self@.request(),
    {
        proof {
            use_type_invariant(self);
        }
        match self.phase {
            Phase::Column => {
                let len: usize = 4 * self.frame.height as usize;
                assert(0 <= self.x * (4 * self.frame.height) <= 0x40_0000) by (nonlinear_arith)
                    requires
                        0 <= self.x <= 1024,
                        0 < self.frame.height <= 1024,
                ;
                assert((self.x as u64) * (len as u64) == self.x * (4 * self.frame.height));
                let addr: u64 = self.frame.base as u64 + (self.x as u64) * (len as u64);
                Some(Read { addr, len })
            },
            Phase::Cell => {
                let ptr: u32 = word_at(&self.column, 4 * self.y as usize);
                Some(Read { addr: ptr as u64, len: cells::CELL_READ_LEN })
            },
            Phase::TypeId => {
                let ty: u32 = word_at(&self.cell, cells::CELL_TYPE);
                Some(Read { addr: ty as u64 + cells::CELLTYPE_ID as u64, len: 4 })
            },
            Phase::TypeClass => {
                let ty: u32 = word_at(&self.cell, cells::CELL_TYPE);
                Some(Read { addr: ty as u64 + cells::CELLTYPE_CLASS as u64, len: 4 })
            },
            Phase::Done => None,
            Phase::Failed { error } => None,
        }
    }

    /// Moves on to the next cell from row `y` on, the next column, or the end.
    fn seek(self, y: i32) -> (m: ReadMap)
        requires
            self@.frame.y0 <= y <= self@.frame.y1 + 1,
            self@.column.len() == 4 * self@.frame.height,
        ensures
            m@ == self@.seek(y as int),
    {
        proof {
            use_type_invariant(&self);
        }
        let mut k: i32 = y;
        while k <= self.frame.y1 && word_at(&self.column, 4 * k as usize) == 0
            invariant
                self.frame.valid(),
                self.frame.y0 <= k <= self.frame.y1 + 1,
                self.column@.len() == 4 * self.frame.height,
                next_row(self.column@, y as int, self.frame.y1 as int) == next_row(
                    self.column@,
                    k as int,
                    self.frame.y1 as int,
                ),
            decreases self.frame.y1 + 1 - k,
        {
            k = k + 1;
        }
        if k <= self.frame.y1 {
            ReadMap { y: k, phase: Phase::Cell, ..self }
        } else if self.x < self.frame.x1 {
            ReadMap { x: self.x + 1, phase: Phase::Column, ..self }
        } else {
            ReadMap { phase: Phase::Done, ..self }
        }
    }

    /// Adds the cell at hand and moves on.
    fn add(self, cell: &Vec<u8>, ty: CellType, names: &IdTable) -> (m: ReadMap)
        requires
            cell@.len() == cells::CELL_READ_LEN,
            self@.column.len() == 4 * self@.frame.height,
        ensures
            m@ == self@.add(cell@, ty, *names).seek(self@.y + 1),
    {
        proof {
            use_type_invariant(&self);
        }
        let c: DirectCell = decode_cell(cell, ty, names);
        let y: i32 = self.y;
        let ghost before = self@;
        let mut out: Vec<DirectCell> = self.out;
        out.push(c);
        let m = ReadMap { out, ..self };
        assert(m@.out =~= before.out.push(c@));
        m.seek(y + 1)
    }

    /// Takes the answer to the next read.
    pub fn supply(self, reply: Reply, names: &IdTable) -> (m: ReadMap)
        requires
            self@.request() matches Some(q) ==> reply@.fits(q),
        ensures
            m@ == self@.step(*names, reply@),
            m@.valid(),
    {
        proof {
            use_type_invariant(&self);
        }
        let m = match self.phase {
            Phase::Column => match reply {
                Reply::Bytes(b) => {
                    let y: i32 = self.frame.y0;
                    let m = ReadMap { column: b, phase: Phase::Done, ..self };
                    m.seek(y)
                },
                Reply::Failed(code) => ReadMap {
                    phase: Phase::Failed { error: Error::Os { code } },
                    ..self
                },
            },
            Phase::Cell => match reply {
                Reply::Failed(_) => {
                    let y: i32 = self.y;
                    self.seek(y + 1)
                },
                Reply::Bytes(b) => {
                    let ty: u32 = word_at(&b, cells::CELL_TYPE);
                    if ty == 0 {
                        self.add(&b, CellType { id: None, class: None }, names)
                    } else {
                        let known: Option<CellType> = match self.types.get(&ty) {
                            Some(t) => Some(*t),
                            None => None,
                        };
                        match known {
                            Some(t) => self.add(&b, t, names),
                            None => ReadMap { cell: b, phase: Phase::TypeId, ..self },
                        }
                    }
                },
            },
            Phase::TypeId => {
                let id: Option<i32> = reply_int(&reply);
                ReadMap { type_id: id, phase: Phase::TypeClass, ..self }
            },
            Phase::TypeClass => {
                let class: Option<i32> = reply_int(&reply);
                let ty = CellType { id: self.type_id, class };
                let ptr: u32 = word_at(&self.cell, cells::CELL_TYPE);
                let ghost before = self@;
                let mut types: HashMap<u32, CellType> = self.types;
                types.insert(ptr, ty);
                let cell: Vec<u8> = self.cell;
                let m = ReadMap { types, cell: Vec::new(), phase: Phase::Done, ..self };
                m.add(&cell, ty, names)
            },
            Phase::Done => self,
            Phase::Failed { error } => self,
        };
        proof {
            use_type_invariant(&m);
        }
        m
    }

    /// The map, or why it could not be read, once the reading is over.
    pub fn finish(self) -> (r: Option<Result<DirectMap, Error>>)
        ensures
            match self@.phase {
                Phase::Done => {
                    &&& r matches Some(Ok(d))
                    &&& d.width == self@.frame.width
                    &&& d.height == self@.frame.height
                    &&& d.cells_base == self@.frame.base
                    &&& d.cells@.map_values(|c: DirectCell| c@) == self@.out
                    &&& d.cell_count == self@.out.len()
                    &&& d.type_count == self@.types.len()
                },
                Phase::Failed { error } => r matches Some(Err(e)) && e == error,
                _ => r is None,
            },
    {
        match self.phase {
            Phase::Done => Some(
                Ok(
                    DirectMap {
                        width: self.frame.width,
                        height: self.frame.height,
                        cells_base: self.frame.base,
                        cell_count: self.out.len(),
                        type_count: self.types.len(),
                        cells: self.out,
                    },
                ),
            ),
            Phase::Failed { error } => Some(Err(error)),
            _ => None,
        }
    }
}

/// The integer that a reply brings.
fn reply_int(reply: &Reply) -> (r: Option<i32>)
    requires
        reply@ matches Answer::Bytes(b) ==> b.len() == 4,
    ensures
        r == int_in(reply@),
{
    match reply {
        Reply::Bytes(b) => Some(int_at(b, 0)),
        Reply::Failed(_) => None,
    }
}

/// The cell type at `ty`, as a memory holds it.
pub open spec fn type_in(mem: spec_fn(Read) -> Answer, ty: u32) -> CellType {
    if ty == 0 {
        CellType { id: None, class: None }
    } else {
        CellType { id: int_in(mem(id_read(ty))), class: int_in(mem(class_read(ty))) }
    }
}

/// The cell in row `y` of a column: none where its pointer is null or leads nowhere.
pub open spec fn cell_in(
    mem: spec_fn(Read) -> Answer,
    column: Seq<u8>,
    y: int,
    names: IdTable,
) -> Seq<cells::CellView> {
    if pointer(column, y) == 0 {
        seq![]
    } else {
        match mem(cell_read(pointer(column, y))) {
            Answer::Failed(_) => seq![],
            Answer::Bytes(b) => seq![cells::cell_of(b, type_in(mem, type_pointer(b)), names)],
        }
    }
}

/// The cells of a column from row `y` to row `y1`.
pub open spec fn cells_in(
    mem: spec_fn(Read) -> Answer,
    column: Seq<u8>,
    y: int,
    y1: int,
    names: IdTable,
) -> Seq<cells::CellView>
    decreases y1 + 1 - y,
{
    if y > y1 {
        seq![]
    } else {
        cell_in(mem, column, y, names) + cells_in(mem, column, y + 1, y1, names)
    }
}

/// The cells of a frame from column `x` on, column by column, as a memory holds them;
/// or the failure of the first column that it does not have.
pub open spec fn map_in(
    mem: spec_fn(Read) -> Answer,
    f: Frame,
    x: int,
    names: IdTable,
) -> Result<Seq<cells::CellView>, Error>
    decreases f.x1 + 1 - x,
{
    if x > f.x1 {
        Ok(seq![])
    } else {
        match mem(column_read(f, x)) {
            Answer::Failed(code) => Err(Error::Os { code }),
            Answer::Bytes(column) => after(
                cells_in(mem, column, f.y0 as int, f.y1 as int, names),
                map_in(mem, f, x + 1, names),
            ),
        }
    }
}

/// A result with more cells in front of it.
pub open spec fn after(
    front: Seq<cells::CellView>,
    r: Result<Seq<cells::CellView>, Error>,
) -> Result<Seq<cells::CellView>, Error> {
    match r {
        Ok(s) => Ok(front + s),
        Err(e) => Err(e),
    }
}

impl Progress {
    /// What was learned so far is what the memory holds.
    pub open spec fn agrees(self, mem: spec_fn(Read) -> Answer) -> bool {
        &&& forall|ty: u32| #[trigger]
            self.types.contains_key(ty) ==> self.types[ty] == type_in(mem, ty)
        &&& self.phase is TypeClass ==> self.type_id == int_in(
            mem(id_read(type_pointer(self.cell))),
        )
    }

    /// What the rest of the reading adds.
    pub open spec fn to_come(self, mem: spec_fn(Read) -> Answer, names: IdTable) -> Result<
        Seq<cells::CellView>,
        Error,
    > {
        let f = self.frame;
        let next = map_in(mem, f, self.x + 1, names);
        let below = cells_in(mem, self.column, self.y + 1, f.y1 as int, names);
        let this = cells::cell_of(self.cell, type_in(mem, type_pointer(self.cell)), names);
        match self.phase {
            Phase::Column => map_in(mem, f, self.x, names),
            Phase::Cell => after(cells_in(mem, self.column, self.y, f.y1 as int, names), next),
            Phase::TypeId => after(seq![this] + below, next),
            Phase::TypeClass => after(seq![this] + below, next),
            Phase::Done => Ok(seq![]),
            Phase::Failed { error } => Err(error),
        }
    }

    /// What the whole reading comes to: what was read, and what is to come.
    pub open spec fn total(self, mem: spec_fn(Read) -> Answer, names: IdTable) -> Result<
        Seq<cells::CellView>,
        Error,
    > {
        after(self.out, self.to_come(mem, names))
    }

    /// A bound on the number of reads that are left.
    pub open spec fn left(self) -> int {
        let f = self.frame;
        let columns = (f.x1 - self.x) * (1 + 3 * (f.y1 - f.y0 + 1));
        match self.phase {
            Phase::Column => columns + 1 + 3 * (f.y1 - f.y0 + 1),
            Phase::Cell => columns + 3 * (f.y1 - self.y + 1),
            Phase::TypeId => columns + 3 * (f.y1 - self.y) + 2,
            Phase::TypeClass => columns + 3 * (f.y1 - self.y) + 1,
            _ => 0,
        }
    }

    /// The reading after at most `n` reads of a memory.
    pub open spec fn drive(self, mem: spec_fn(Read) -> Answer, names: IdTable, n: nat) -> Progress
        decreases n,
    {
        match self.request() {
            Some(q) if n > 0 => self.step(names, mem(q)).drive(mem, names, (n - 1) as nat),
            _ => self,
        }
    }
}

proof fn next_row_skips(
    mem: spec_fn(Read) -> Answer,
    column: Seq<u8>,
    y: int,
    y1: int,
    names: IdTable,
)
    requires
        y <= y1 + 1,
    ensures
        y <= next_row(column, y, y1) <= y1 + 1,
        next_row(column, y, y1) <= y1 ==> pointer(column, next_row(column, y, y1)) != 0,
        cells_in(mem, column, y, y1, names) == cells_in(
            mem,
            column,
            next_row(column, y, y1),
            y1,
            names,
        ),
    decreases y1 + 1 - y,
{
    if y <= y1 && pointer(column, y) == 0 {
        next_row_skips(mem, column, y + 1, y1, names);
        assert(cells_in(mem, column, y, y1, names) =~= cells_in(mem, column, y + 1, y1, names));
    }
}

proof fn seek_keeps(m: Progress, y: int, mem: spec_fn(Read) -> Answer, names: IdTable)
    requires
        m.frame.valid(),
        m.frame.x0 <= m.x <= m.frame.x1,
        m.frame.y0 <= m.y <= m.frame.y1,
        m.frame.y0 <= y <= m.frame.y1 + 1,
        m.column.len() == 4 * m.frame.height,
        forall|ty: u32| #[trigger] m.types.contains_key(ty) ==> m.types[ty] == type_in(mem, ty),
    ensures
        m.seek(y).valid(),
        m.seek(y).agrees(mem),
        m.seek(y).total(mem, names) == after(
            m.out,
            after(
                cells_in(mem, m.column, y, m.frame.y1 as int, names),
                map_in(mem, m.frame, m.x + 1, names),
            ),
        ),
        0 <= m.seek(y).left() <= (m.frame.x1 - m.x) * (1 + 3 * (m.frame.y1 - m.frame.y0 + 1)) + 3
            * (m.frame.y1 - y + 1),
{
    let f = m.frame;
    let y1 = f.y1 as int;
    next_row_skips(mem, m.column, y, y1, names);
    let k = next_row(m.column, y, y1);
    let next = map_in(mem, f, m.x + 1, names);
    let h = 1 + 3 * (f.y1 - f.y0 + 1);
    assert((f.x1 - m.x) * h >= 0) by (nonlinear_arith)
        requires
            f.x1 - m.x >= 0,
            h >= 0,
    ;
    if k > y1 {
        assert(cells_in(mem, m.column, y, y1, names) =~= seq![]);
        match next {
            Ok(s) => assert(Seq::<cells::CellView>::empty() + s =~= s),
            Err(_) => {},
        }
        if m.x < f.x1 {
            assert((f.x1 - m.x) * h == (f.x1 - (m.x + 1)) * h + h) by (nonlinear_arith);
        }
    }
}

proof fn after_joins(
    a: Seq<cells::CellView>,
    b: Seq<cells::CellView>,
    r: Result<Seq<cells::CellView>, Error>,
)
    ensures
        after(a, after(b, r)) == after(a + b, r),
{
    match r {
        Ok(s) => assert(a + (b + s) =~= (a + b) + s),
        Err(_) => {},
    }
}

/// A read of a memory that stays still changes nothing about what the reading comes to,
/// keeps what was learned in agreement with the memory, and brings the end nearer.
pub proof fn step_keeps_total(m: Progress, mem: spec_fn(Read) -> Answer, names: IdTable)
    requires
        m.valid(),
        m.agrees(mem),
        memory::still(mem),
        m.request() is Some,
    ensures
        ({
            let n = m.step(names, mem(m.request()->Some_0));
            &&& n.valid()
            &&& n.agrees(mem)
            &&& n.total(mem, names) == m.total(mem, names)
            &&& 0 <= n.left() < m.left()
        }),
{
    let f = m.frame;
    let a = mem(m.request()->Some_0);
    let n = m.step(names, a);
    let next = map_in(mem, f, m.x + 1, names);
    let h = 1 + 3 * (f.y1 - f.y0 + 1);
    assert((f.x1 - m.x) * h >= 0) by (nonlinear_arith)
        requires
            f.x1 - m.x >= 0,
            h >= 0,
    ;
    assert(a.fits(m.request()->Some_0));
    let below = cells_in(mem, m.column, m.y + 1, f.y1 as int, names);
    match m.phase {
        Phase::Column => {
            match a {
                Answer::Bytes(b) => {
                    seek_keeps(Progress { column: b, ..m }, f.y0 as int, mem, names);
                },
                Answer::Failed(_) => {},
            }
        },
        Phase::Cell => {
            match a {
                Answer::Failed(_) => {
                    assert(cells_in(mem, m.column, m.y, f.y1 as int, names) =~= below);
                    seek_keeps(m, m.y + 1, mem, names);
                },
                Answer::Bytes(b) => {
                    let ty = type_pointer(b);
                    let c = cells::cell_of(b, type_in(mem, ty), names);
                    assert(cells_in(mem, m.column, m.y, f.y1 as int, names) == seq![c] + below);
                    if ty == 0 || m.types.contains_key(ty) {
                        let m2 = m.add(b, type_in(mem, ty), names);
                        seek_keeps(m2, m.y + 1, mem, names);
                        after_joins(seq![c], below, next);
                        after_joins(m.out, seq![c], after(below, next));
                        assert(m.out + seq![c] =~= m.out.push(c));
                    }
                },
            }
        },
        Phase::TypeId => {},
        Phase::TypeClass => {
            let ty = CellType { id: m.type_id, class: int_in(a) };
            let c = cells::cell_of(m.cell, ty, names);
            let m2 = Progress {
                types: m.types.insert(type_pointer(m.cell), ty),
                cell: seq![],
                ..m
            }.add(m.cell, ty, names);
            seek_keeps(m2, m.y + 1, mem, names);
            after_joins(seq![c], below, next);
            after_joins(m.out, seq![c], after(below, next));
            assert(m.out + seq![c] =~= m.out.push(c));
        },
        _ => {},
    }
}

/// However many reads of a still memory were performed, the reading comes to the same;
/// and with as many as it says are left, it is over.
pub proof fn drive_keeps_total(
    m: Progress,
    mem: spec_fn(Read) -> Answer,
    names: IdTable,
    n: nat,
)
    requires
        m.valid(),
        m.agrees(mem),
        memory::still(mem),
    ensures
        m.drive(mem, names, n).valid(),
        m.drive(mem, names, n).total(mem, names) == m.total(mem, names),
        n >= m.left() ==> m.drive(mem, names, n).request() is None,
    decreases n,
{
    if m.request() is Some {
        step_keeps_total(m, mem, names);
        if n > 0 {
            let next = m.step(names, mem(m.request()->Some_0));
            drive_keeps_total(next, mem, names, (n - 1) as nat);
        }
    }
}

/// The reading of a map in a memory that stays still ends with exactly the cells that the
/// memory holds, column by column; or with the failure of the first unreadable column.
pub proof fn map_is_read_as_it_stands(f: Frame, mem: spec_fn(Read) -> Answer, names: IdTable)
    requires
        f.valid(),
        memory::still(mem),
    ensures
        ({
            let end = Progress::start(f).drive(mem, names, Progress::start(f).left() as nat);
            match map_in(mem, f, f.x0 as int, names) {
                Ok(s) => end.phase is Done && end.out == s,
                Err(e) => end.phase == (Phase::Failed { error: e }),
            }
        }),
{
    let m = Progress::start(f);
    let end = m.drive(mem, names, m.left() as nat);
    let h = 1 + 3 * (f.y1 - f.y0 + 1);
    assert((f.x1 - f.x0) * h >= 0) by (nonlinear_arith)
        requires
            f.x1 - f.x0 >= 0,
            h >= 0,
    ;
    drive_keeps_total(m, mem, names, m.left() as nat);
    let r = map_in(mem, f, f.x0 as int, names);
    match r {
        Ok(s) => assert(Seq::<cells::CellView>::empty() + s =~= s),
        Err(_) => {},
    }
    assert(end.out + Seq::<cells::CellView>::empty() =~= end.out);
}

/// Different cells of a map have different places in its table.
pub proof fn cells_have_their_own_places(height: int, x: int, y: int, u: int, v: int)
    requires
        0 <= y < height,
        0 <= v < height,
    ensures
        cells::cell_index(x, y, height) == cells::cell_index(u, v, height) <==> x == u && y == v,
{
    assert(x * height + y == u * height + v ==> x == u) by (nonlinear_arith)
        requires
            0 <= y < height,
            0 <= v < height,
    ;
}

/// The pointer that a column read brings for row `y` is the one that stands at the
/// cell's place in the table.
pub proof fn column_brings_the_slot(f: Frame, x: int, y: int)
    requires
        f.valid(),
        0 <= x < f.width,
        0 <= y < f.height,
    ensures
        column_read(f, x).addr + 4 * y == f.base + 4 * cells::cell_index(x, y, f.height as int),
        4 * y + 4 <= column_read(f, x).len,
{
    assert(0 <= x * (4 * f.height) <= 0x40_0000 && x * (4 * f.height) == 4 * (x * f.height))
        by (nonlinear_arith)
        requires
            0 <= x <= 1024,
            0 < f.height <= 1024,
    ;
}

} // verus!
