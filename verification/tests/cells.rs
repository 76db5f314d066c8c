use statmind::cell_map::{read_map, DirectMap, ReadMap};
use statmind::cells::{
    find_stats, probe, read_fov, read_header, read_player, read_stats, DirectCell, CELL_READ_LEN,
    FOV_OBJ_PTR,
};
use statmind::common::Addrs;
use statmind::error::Error;
use statmind::ids::{parse_table, IdTable};
use statmind::memory::{Read, Reply, Stop, Tape};
use std::collections::BTreeMap;

struct Mem {
    bytes: BTreeMap<u64, u8>,
}

impl Mem {
    fn new() -> Mem {
        Mem { bytes: BTreeMap::new() }
    }

    fn put(&mut self, addr: u64, b: &[u8]) {
        for (i, x) in b.iter().enumerate() {
            self.bytes.insert(addr + i as u64, *x);
        }
    }

    fn word(&mut self, addr: u64, w: u32) {
        self.put(addr, &w.to_le_bytes());
    }

    fn read(&self, q: Read) -> Reply {
        let mut out = Vec::new();
        for i in 0..q.len as u64 {
            match self.bytes.get(&(q.addr.wrapping_add(i))) {
                Some(b) => out.push(*b),
                None => return Reply::Failed(14),
            }
        }
        Reply::Bytes(out)
    }

    fn run<T>(&self, mut f: impl FnMut(&mut Tape) -> Result<T, Stop>) -> Result<T, Error> {
        let mut tape = Tape::new();
        loop {
            tape.rewind();
            match f(&mut tape) {
                Ok(v) => return Ok(v),
                Err(Stop::Fail(e)) => return Err(e),
                Err(Stop::Need(q)) => {
                    let reply = self.read(q);
                    assert!(reply.fits(q));
                    tape.record(q, reply);
                }
            }
        }
    }
}

const MAP_OBJECT: usize = 0x10_0000;
const TABLE: u32 = 0x20_0000;
const PLAYER: usize = 0x30_0000;

fn addrs(player: bool) -> Result<Addrs, Error> {
    Ok(Addrs {
        build_stamp: 0x1234,
        luigi: 0x40_0000,
        map_object: MAP_OBJECT,
        player_rec: if player { Some(PLAYER) } else { None },
        view_origin: 0x50_0000,
    })
}

fn names(text: &str) -> IdTable {
    parse_table(text, false).unwrap()
}

fn with_header(w: i32, h: i32, table: u32) -> Mem {
    let mut m = Mem::new();
    m.word(MAP_OBJECT as u64, w as u32);
    m.word(MAP_OBJECT as u64 + 4, h as u32);
    m.word(MAP_OBJECT as u64 + 8, table);
    m
}

fn cell_bytes(ty: u32, glyph: u32, x: i32, y: i32) -> Vec<u8> {
    let mut b = vec![0u8; CELL_READ_LEN];
    b[0..4].copy_from_slice(&ty.to_le_bytes());
    b[4..8].copy_from_slice(&glyph.to_le_bytes());
    b[8..12].copy_from_slice(&483i32.to_le_bytes());
    b[12..16].copy_from_slice(&(-1i32).to_le_bytes());
    b[0x2C..0x30].copy_from_slice(&(-2i32).to_le_bytes());
    b[0x30..0x34].copy_from_slice(&x.to_le_bytes());
    b[0x34..0x38].copy_from_slice(&y.to_le_bytes());
    b[0x38] = 1;
    b[0x40..0x44].copy_from_slice(&(-9999i32).to_le_bytes());
    b[0x44..0x48].copy_from_slice(&0x0044_0000u32.to_le_bytes());
    b[0x48..0x4C].copy_from_slice(&0x0042_0000u32.to_le_bytes());
    b[0x4C..0x50].copy_from_slice(&7u32.to_le_bytes());
    b[0x98..0x9C].copy_from_slice(&5i32.to_le_bytes());
    b[0xA0..0xA4].copy_from_slice(&6i32.to_le_bytes());
    b
}

fn drive(m: &Mem, mut r: ReadMap, names: &IdTable) -> (Result<DirectMap, Error>, usize) {
    let mut reads = 0;
    while let Some(q) = r.next() {
        reads += 1;
        r = r.supply(m.read(q), names);
    }
    (r.finish().unwrap(), reads)
}

/// A map of three columns and two rows. One slot is empty, one leads nowhere, and two
/// cells share a type.
fn small_map() -> Mem {
    let mut m = with_header(3, 2, TABLE);
    let slots = [0x60_0000u32, 0, 0x61_0000, 0x66_0000, 0x62_0000, 0x63_0000];
    for (i, p) in slots.iter().enumerate() {
        m.word(TABLE as u64 + 4 * i as u64, *p);
    }
    m.put(0x60_0000, &cell_bytes(0x70_0000, 0x2E, 0, 0));
    m.put(0x61_0000, &cell_bytes(0x70_0000, 0x123, 1, 0));
    m.put(0x62_0000, &cell_bytes(0, 0x40, 2, 0));
    m.put(0x63_0000, &cell_bytes(0x71_0000, 0x3C, 2, 1));
    m.word(0x70_0000, 12);
    m.word(0x70_005C, 2);
    m
}

fn at(c: &DirectCell) -> (i32, i32) {
    (c.x, c.y)
}

#[test]
fn a_map_is_read_column_by_column() {
    let m = small_map();
    let h = m.run(|t| read_header(addrs(true), t)).unwrap();
    assert_eq!(h, (3, 2, TABLE));
    let table = names("12 FLOOR_YRD\n13 EARTH");
    let (r, reads) = drive(&m, read_map(h, None).unwrap(), &table);
    let map = r.unwrap();
    assert_eq!((map.width, map.height, map.cells_base), (3, 2, TABLE));
    assert_eq!(map.cell_count, 4);
    assert_eq!(map.type_count, 2);
    // three columns, five pointers, and two reads for each of two types
    assert_eq!(reads, 3 + 5 + 4);
    let spots: Vec<(i32, i32)> = map.cells.iter().map(at).collect();
    assert_eq!(spots, vec![(0, 0), (1, 0), (2, 0), (2, 1)]);
    let c = &map.cells[0];
    assert_eq!(c.glyph, '.');
    assert_eq!((c.color, c.unk_0c, c.unk_2c, c.unk_40), (483, -1, -2, -9999));
    assert_eq!((c.unk_98, c.unk_a0), (5, 6));
    assert_eq!((c.passable, c.transparent), (true, false));
    assert_eq!((c.prop, c.entity, c.item_container), (0x0044_0000, 0x0042_0000, 7));
    assert_eq!(c.cell_id, Some(12));
    assert_eq!(c.cell_name.as_deref(), Some("FLOOR_YRD"));
    assert_eq!(c.type_class, Some(2));
    // only seven bits of a glyph count
    assert_eq!(map.cells[1].glyph, '#');
    assert_eq!(map.cells[2].cell_id, None);
    // a type that cannot be read leaves its cell without identifier and class
    assert_eq!(map.cells[3].cell_id, None);
    assert_eq!(map.cells[3].type_class, None);
    assert_eq!(map.cells[3].cell_name, None);
}

#[test]
fn a_box_is_cut_down_to_the_map() {
    let m = small_map();
    let t = IdTable::empty();
    let (r, _) = drive(&m, read_map((3, 2, TABLE), Some((1, -5, 99, 0))).unwrap(), &t);
    let spots: Vec<(i32, i32)> = r.unwrap().cells.iter().map(at).collect();
    assert_eq!(spots, vec![(1, 0), (2, 0)]);
    let (r, _) = drive(&m, read_map((3, 2, TABLE), Some((2, 1, 2, 1))).unwrap(), &t);
    let r = r.unwrap();
    assert_eq!((r.cell_count, r.type_count), (1, 1));
    let (whole, _) = drive(&m, read_map((3, 2, TABLE), None).unwrap(), &t);
    let (covered, _) = drive(&m, read_map((3, 2, TABLE), Some((0, 0, 2, 1))).unwrap(), &t);
    let (whole, covered) = (whole.unwrap(), covered.unwrap());
    assert_eq!((whole.cell_count, whole.type_count), (4, 2));
    let spots = |v: &[DirectCell]| -> Vec<(i32, i32)> { v.iter().map(at).collect() };
    assert_eq!(spots(&whole.cells), spots(&covered.cells));
    assert_eq!(
        read_map((3, 2, TABLE), Some((2, 0, 1, 1))).err(),
        Some(Error::EmptyBox { x0: 2, y0: 0, x1: 1, y1: 1 })
    );
}

#[test]
fn an_unreadable_column_ends_the_reading() {
    let m = with_header(3, 2, TABLE);
    let (r, reads) = drive(&m, read_map((3, 2, TABLE), None).unwrap(), &IdTable::empty());
    assert_eq!(r.err(), Some(Error::Os { code: 14 }));
    assert_eq!(reads, 1);
}

#[test]
fn headers_that_no_map_has_are_refused() {
    for (w, h) in [(0, 5), (5, 0), (-1, 5), (1025, 5), (5, 1025)] {
        assert_eq!(
            with_header(w, h, TABLE).run(|t| read_header(addrs(true), t)),
            Err(Error::Implausible { width: w, height: h, map_obj: MAP_OBJECT })
        );
    }
    assert_eq!(
        with_header(1024, 1024, 0).run(|t| read_header(addrs(true), t)),
        Err(Error::NullTable { addr: MAP_OBJECT + 8 })
    );
    assert_eq!(
        Mem::new().run(|t| read_header(addrs(true), t)),
        Err(Error::Os { code: 14 })
    );
    assert_eq!(
        Mem::new().run(|t| read_header(Err(Error::UnknownBuild { stamp: 1 }), t)),
        Err(Error::UnknownBuild { stamp: 1 })
    );
}

#[test]
fn a_player_is_plausible_on_the_map_only() {
    let table = names("322 Player");
    let mut m = with_header(50, 60, TABLE);
    m.word(PLAYER as u64, 0x0042_0000);
    m.word(PLAYER as u64 + 4, 45);
    m.word(PLAYER as u64 + 8, 52);
    m.word(PLAYER as u64 + 12, 322);
    let p = m.run(|t| read_player(addrs(true), t, &table)).unwrap();
    assert_eq!(p.addr, "0x00300000");
    assert_eq!((p.handle, p.x, p.y, p.entity_id), (0x0042_0000, 45, 52, 322));
    assert_eq!(p.entity_name.as_deref(), Some("Player"));
    assert!(p.plausible);
    m.word(PLAYER as u64 + 4, 50);
    assert!(!m.run(|t| read_player(addrs(true), t, &table)).unwrap().plausible);
    m.word(PLAYER as u64 + 4, 45);
    m.word(PLAYER as u64, 0);
    assert!(!m.run(|t| read_player(addrs(true), t, &table)).unwrap().plausible);
    // without a header there is no map to be on
    m.word(PLAYER as u64, 1);
    m.word(MAP_OBJECT as u64, 0);
    assert!(!m.run(|t| read_player(addrs(true), t, &table)).unwrap().plausible);
    assert_eq!(
        m.run(|t| read_player(addrs(false), t, &table)).err(),
        Some(Error::NoPlayerRecord)
    );
}

fn stat_block(m: &mut Mem, base: u64, v: [i32; 5]) {
    for (i, x) in v.iter().enumerate() {
        m.word(base + 4 * i as u64, *x as u32);
    }
}

#[test]
fn stats_are_read_with_their_speed() {
    let mut m = Mem::new();
    stat_block(&mut m, 0x50_0000, [250, 100, 228, -3, 1]);
    let s = m.run(|t| read_stats(0x50_0000, t)).unwrap();
    assert_eq!(s.base, "0x00500000");
    assert_eq!(
        (s.integrity, s.energy, s.matter, s.heat, s.corruption, s.speed),
        (250, 100, 228, -3, 1, -1)
    );
    m.word(0x50_0000 - 0x44, 50);
    assert_eq!(m.run(|t| read_stats(0x50_0000, t)).unwrap().speed, 50);
    // close to address zero the speed wraps around and cannot be read
    stat_block(&mut m, 0, [1, 2, 3, 4, 5]);
    assert_eq!(m.run(|t| read_stats(0, t)).unwrap().speed, -1);
    assert_eq!(
        m.run(|t| read_stats(0x51_0000, t)).err(),
        Some(Error::Os { code: 14 })
    );
}

#[test]
fn stats_are_found_by_integrity_and_sanity() {
    let mut m = Mem::new();
    stat_block(&mut m, 0x1000, [250, 100, 228, 0, 0]);
    stat_block(&mut m, 0x2000, [251, 100, 228, 0, 0]);
    stat_block(&mut m, 0x3000, [250, -1, 228, 0, 0]);
    stat_block(&mut m, 0x4000, [250, 100, 228, 100_001, 0]);
    stat_block(&mut m, 0x5000, [250, 100, 228, 0, 101]);
    stat_block(&mut m, 0x6000, [250, 100_000, 228, 100_000, 100]);
    // a matter without the words around it, and one too low for a block
    m.word(0x7008, 228);
    m.word(4, 228);
    let mut regions = vec![(4, 8)];
    for i in 1..8 {
        regions.push((0x1000 * i + 8, 0x1000 * i + 12));
    }
    let mut s = find_stats(regions, 250, 228);
    while let Some(q) = s.next() {
        s = s.supply(m.read(q));
    }
    let bases: Vec<String> = s.hits().into_iter().map(|s| s.base).collect();
    assert_eq!(bases, vec!["0x00001000".to_string(), "0x00006000".to_string()]);
}

fn vector(m: &mut Mem, at: u64, a: u32, b: u32, c: u32) {
    m.word(at, a);
    m.word(at + 4, b);
    m.word(at + 8, c);
}

#[test]
fn the_field_of_view_is_read() {
    let mut m = Mem::new();
    let obj = 0x80_0000u64;
    m.word(FOV_OBJ_PTR as u64, obj as u32);
    vector(&mut m, obj + 0x7D0, 0x90_0000, 0x90_0018, 0x90_0020);
    vector(&mut m, obj + 0x7C4, 0, 0, 0);
    vector(&mut m, obj + 0x7E0, 0x90_0000, 0x90_0004, 0x90_0020);
    for (i, v) in [1, 2, 3, 4, -5, 6].iter().enumerate() {
        m.word(0x90_0000 + 4 * i as u64, *v as u32);
    }
    let f = m.run(|t| read_fov(400, t)).unwrap();
    assert_eq!(f.fov_obj_ptr_addr, "0x00CEFC4C");
    assert_eq!(f.fov_obj, 0x80_0000);
    assert_eq!(f.visible.member_offset, "+0x7D0");
    assert_eq!((f.visible.len, f.visible.capacity), (3, 4));
    assert_eq!(f.visible.coords, vec![(1, 2), (3, 4), (-5, 6)]);
    // nothing visible is no fault
    assert!(f.sibling_a.plausible);
    assert_eq!(f.sibling_a.len, 0);
    // a span that eight does not divide is one
    assert!(!f.sibling_b.plausible);
    assert_eq!((f.sibling_b.len, f.sibling_b.capacity), (0, 4));
    assert_eq!(f.sibling_b.coords, vec![]);
    let f = m.run(|t| read_fov(2, t)).unwrap();
    assert_eq!(f.visible.len, 3);
    assert_eq!(f.visible.coords, vec![(1, 2), (3, 4)]);
    m.word(FOV_OBJ_PTR as u64, 0);
    assert_eq!(
        m.run(|t| read_fov(2, t)).err(),
        Some(Error::NullFov { addr: FOV_OBJ_PTR })
    );
}

#[test]
fn a_cell_is_probed_at_its_place_in_the_table() {
    let mut m = small_map();
    let table = names("12 FLOOR_YRD");
    let p = m.run(|t| probe((3, 2, TABLE), 1, 0, t, &table)).unwrap();
    assert_eq!((p.x, p.y, p.index), (1, 0, 2));
    assert_eq!(p.slot_addr, TABLE + 8);
    assert_eq!(p.cell_ptr, 0x61_0000);
    assert_eq!(p.type_ptr, 0x70_0000);
    assert!(p.raw_hex.starts_with("00 00 70 00 23 01 00 00 e3 01 00 00 ff ff ff ff \n00"));
    assert_eq!(p.raw_hex.len(), 192 * 3 - 1 + 11);
    // the type's block is not mapped as a whole
    assert_eq!(p.type_raw_hex, "");
    let c = p.decoded.unwrap();
    assert_eq!((c.x, c.y, c.cell_id, c.type_class), (1, 0, Some(12), Some(2)));
    assert_eq!(c.cell_name.as_deref(), Some("FLOOR_YRD"));
    m.put(0x70_0000, &[1u8; 0x60]);
    let p = m.run(|t| probe((3, 2, TABLE), 1, 0, t, &table)).unwrap();
    assert_eq!(p.type_raw_hex.len(), 0x60 * 3 - 1);
    // an empty slot
    let p = m.run(|t| probe((3, 2, TABLE), 0, 1, t, &table)).unwrap();
    assert_eq!((p.cell_ptr, p.type_ptr), (0, 0));
    assert_eq!(p.raw_hex, "");
    assert!(p.decoded.is_none());
    // a cell without a type
    let p = m.run(|t| probe((3, 2, TABLE), 2, 0, t, &table)).unwrap();
    assert_eq!(p.decoded.unwrap().cell_id, None);
    // a pointer that leads nowhere
    assert_eq!(
        m.run(|t| probe((3, 2, TABLE), 1, 1, t, &table)).err(),
        Some(Error::Os { code: 14 })
    );
    for (x, y) in [(-1, 0), (0, -1), (3, 0), (0, 2)] {
        assert_eq!(
            m.run(|t| probe((3, 2, TABLE), x, y, t, &table)).err(),
            Some(Error::OutsideMap { x, y, width: 3, height: 2 })
        );
    }
}

#[test]
fn a_probe_shows_what_a_box_of_one_cell_brings() {
    let m = small_map();
    let table = names("12 FLOOR_YRD");
    for x in 0..3 {
        for y in 0..2 {
            if (x, y) == (1, 1) {
                continue;
            }
            let header = (3, 2, TABLE);
            let p = m.run(|t| probe(header, x, y, t, &table)).unwrap();
            let (map, _) = drive(&m, read_map(header, Some((x, y, x, y))).unwrap(), &table);
            let map = map.unwrap();
            let probed: Vec<DirectCell> = p.decoded.into_iter().collect();
            assert_eq!(format!("{:?}", probed), format!("{:?}", map.cells));
        }
    }
}
