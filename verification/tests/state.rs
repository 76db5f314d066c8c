use statmind::error::Error;
use statmind::ids::{parse_table, IdTable};
use statmind::memory::{Read, Reply, Stop, Tape};
use statmind::state::{get_game_state, item_stride, open_mirror, GameState, Mirror, Names};
use statmind::types::{
    get_luigi_ai, get_luigi_map, get_presence, InvalidMapType, LuigiAi, LuigiTile, MapType,
};
use std::collections::BTreeMap;

struct Mem {
    bytes: BTreeMap<u64, u8>,
}

impl Mem {
    fn new() -> Mem {
        Mem { bytes: BTreeMap::new() }
    }

    fn put(&mut self, addr: u64, b: &[u8]) {
        for (i, x) in b.iter().enumerate() {
            self.bytes.insert(addr + i as u64, *x);
        }
    }

    fn word(&mut self, addr: u64, w: u32) {
        self.put(addr, &w.to_le_bytes());
    }

    fn read(&self, q: Read) -> Reply {
        let mut out = Vec::new();
        for i in 0..q.len as u64 {
            match self.bytes.get(&(q.addr.wrapping_add(i))) {
                Some(b) => out.push(*b),
                None => return Reply::Failed(14),
            }
        }
        Reply::Bytes(out)
    }

    fn run<T>(&self, mut f: impl FnMut(&mut Tape) -> Result<T, Stop>) -> Result<T, Error> {
        let mut tape = Tape::new();
        loop {
            tape.rewind();
            match f(&mut tape) {
                Ok(v) => return Ok(v),
                Err(Stop::Fail(e)) => return Err(e),
                Err(Stop::Need(q)) => {
                    let reply = self.read(q);
                    assert!(reply.fits(q));
                    tape.record(q, reply);
                }
            }
        }
    }
}

const BASE: u64 = 0x10_0000;

fn names() -> Names {
    let t = |s: &str| parse_table(s, false).unwrap();
    Names {
        cells: t("5 FLOOR"),
        entities: t("322 Player\n7 Grunt"),
        items: t("40 Cannon"),
        props: t("9 Terminal"),
    }
}

/// magic, magic, action, width, height, depth, map, data, cursor, player, hacking
fn root(m: &mut Mem, v: [i32; 11]) {
    for (i, x) in v.iter().enumerate() {
        m.word(BASE + 4 * i as u64, *x as u32);
    }
}

fn entity(m: &mut Mem, at: u64, v: [i32; 12]) {
    for (i, x) in v.iter().enumerate() {
        m.word(at + 4 * i as u64, *x as u32);
    }
}

fn tile(m: &mut Mem, index: u64, cell: i32, door: u8, prop: u32, entity: u32, item: u32) {
    let at = 0x20_0000 + 28 * index;
    m.word(at, 10 + index as u32);
    m.word(at + 4, 20 + index as u32);
    m.word(at + 8, cell as u32);
    m.put(at + 12, &[door, 0, 0, 0]);
    m.word(at + 16, prop);
    m.word(at + 20, entity);
    m.word(at + 24, item);
}

/// A mirror of three columns and two rows. The middle column was never seen.
fn mirror() -> Mem {
    let mut m = Mem::new();
    root(&mut m, [1, 2, 77, 3, 2, -4, 3, 0x20_0000, 6, 0x30_0000, 0x31_0000]);
    entity(&mut m, 0x30_0000, [322, 250, 1, 2, 3, 100, 228, 4, 5, 50, 2, 0x40_0000]);
    m.word(0x31_0000, 1);
    m.word(0x31_0004, 30);
    m.word(0x31_0008, 40);
    m.put(0x31_000C, &[1, 0, 0, 0]);
    tile(&mut m, 0, 5, 0, 0, 0, 0);
    tile(&mut m, 1, 6, 1, 0x50_0000, 0x51_0000, 0x52_0000);
    tile(&mut m, 2, -1, 0, 0, 0, 0);
    tile(&mut m, 3, -1, 0, 0, 0, 0);
    tile(&mut m, 4, -1, 0, 0, 0, 0);
    tile(&mut m, 5, 5, 0, 0, 0x30_0000, 0);
    m.word(0x50_0000, 9);
    m.put(0x50_0004, &[1, 0, 0, 0]);
    entity(&mut m, 0x51_0000, [7, 10, 0, 0, 0, 0, 0, 0, 0, 100, 0, 0]);
    m.word(0x52_0000, 40);
    m.word(0x52_0004, 33);
    for (i, x) in [40, 11, 1, 41, 12, 0].iter().enumerate() {
        m.word(0x40_0000 + 4 * i as u64, *x);
    }
    m
}

fn state(m: &Mem, stride: usize) -> Result<GameState, Error> {
    let root: Mirror = m.run(|t| open_mirror(BASE, t))?;
    assert!(root.has_map());
    let n = names();
    m.run(|t| get_game_state(root, stride, t, &n))
}

#[test]
fn the_game_state_is_read() {
    let g = state(&mirror(), 12).unwrap();
    assert_eq!((g.action_ready, g.map_width, g.map_height), (77, 3, 2));
    assert_eq!(g.location, "Current map: -4/Materials");
    assert_eq!(g.map_cursor_index, 6);
    assert_eq!((g.player_x, g.player_y), (2, 1));
    assert_eq!(g.player.name.as_deref(), Some("Player"));
    assert_eq!((g.player.raw_id, g.player.integrity, g.player.speed), (322, 250, 50));
    assert_eq!((g.player.energy, g.player.matter, g.player.heat), (100, 228, 4));
    assert_eq!((g.player.system_corruption, g.player.inventory_size), (5, 2));
    let h = g.machine_hacking.unwrap();
    assert_eq!((h.action_ready, h.detect_chance, h.trace_progress), (1, 30, 40));
    assert!(h.last_hack_success);
    // the column that was never seen is left out
    assert_eq!(g.map.len(), 2);
    assert_eq!(g.map[0].len(), 2);
    let t = &g.map[0][0];
    assert_eq!((t.x, t.y, t.raw_cell, t.last_action, t.last_fov), (0, 0, 5, 10, 20));
    assert_eq!(t.cell.as_deref(), Some("FLOOR"));
    assert!(t.prop.is_none() && t.entity.is_none() && t.item.is_none());
    let t = &g.map[0][1];
    assert_eq!((t.x, t.y, t.raw_cell, t.door_open), (0, 1, 6, true));
    assert_eq!(t.cell, None);
    let p = t.prop.as_ref().unwrap();
    assert_eq!((p.name.as_deref(), p.raw_id, p.interactive_piece), (Some("Terminal"), 9, true));
    let e = t.entity.as_ref().unwrap();
    assert_eq!((e.name.as_deref(), e.raw_id, e.integrity), (Some("Grunt"), 7, 10));
    let i = t.item.as_ref().unwrap();
    assert_eq!((i.name.as_deref(), i.integrity, i.equipped), (Some("Cannon"), 33, None));
    assert_eq!((g.map[1][0].x, g.map[1][0].y), (2, 1));
    assert_eq!(g.item_stride, 12);
    let kept: Vec<(Option<&str>, i32, i32, Option<bool>)> = g
        .inventory
        .iter()
        .map(|i| (i.name.as_deref(), i.raw_id, i.integrity, i.equipped))
        .collect();
    assert_eq!(
        kept,
        vec![(Some("Cannon"), 40, 11, Some(true)), (None, 41, 12, Some(false))]
    );
}

#[test]
fn a_short_stride_tells_nothing_of_attachment() {
    let g = state(&mirror(), 8).unwrap();
    assert_eq!(g.inventory.len(), 2);
    assert_eq!((g.inventory[0].raw_id, g.inventory[0].integrity), (40, 11));
    assert_eq!((g.inventory[1].raw_id, g.inventory[1].integrity), (1, 41));
    assert_eq!(g.inventory[1].equipped, None);
}

#[test]
fn an_inventory_is_bounded_and_may_be_missing() {
    let mut m = mirror();
    entity(&mut m, 0x30_0000, [322, 250, 1, 2, 3, 100, 228, 4, 5, 50, 100_000, 0x40_0000]);
    m.put(0x40_0000, &vec![0u8; 512 * 12]);
    assert_eq!(state(&m, 12).unwrap().inventory.len(), 512);
    entity(&mut m, 0x30_0000, [322, 250, 1, 2, 3, 100, 228, 4, 5, 50, 2, 0]);
    assert_eq!(state(&m, 12).unwrap().inventory.len(), 0);
    entity(&mut m, 0x30_0000, [322, 250, 1, 2, 3, 100, 228, 4, 5, 50, -1, 0x40_0000]);
    assert_eq!(state(&m, 12).unwrap().inventory.len(), 0);
}

#[test]
fn a_player_who_stands_nowhere_is_reported_so() {
    let mut m = mirror();
    tile(&mut m, 5, 5, 0, 0, 0, 0);
    let g = state(&m, 12).unwrap();
    assert_eq!((g.player_x, g.player_y), (-1, -1));
}

#[test]
fn what_cannot_be_read_ends_the_reading() {
    let mut m = mirror();
    tile(&mut m, 0, 5, 0, 0x77_0000, 0, 0);
    assert_eq!(state(&m, 12).err(), Some(Error::Os { code: 14 }));
}

#[test]
fn a_mirror_without_map_is_told_apart() {
    let mut m = Mem::new();
    root(&mut m, [1, 2, 77, 3, 2, -4, 3, 0x20_0000, 6, 0, 0]);
    assert_eq!(
        state(&m, 12).err(),
        Some(Error::NoPlayer {
            action_ready: 77,
            width: 3,
            height: 2,
            depth: -4,
            map_data: 0x20_0000
        })
    );
    let mut m = mirror();
    root(&mut m, [1, 2, 77, 3, 2, -4, 3, 0, 6, 0x30_0000, 0]);
    assert_eq!(
        state(&m, 12).err(),
        Some(Error::NoMapData { width: 3, height: 2, map_data: 0 })
    );
    root(&mut m, [1, 2, 77, 3, 0, -4, 3, 5, 6, 0x30_0000, 0]);
    assert_eq!(
        state(&m, 12).err(),
        Some(Error::NoMapData { width: 3, height: 0, map_data: 5 })
    );
    // more tiles than can be counted
    root(&mut m, [1, 2, 77, 65536, 65536, -4, 3, 5, 6, 0x30_0000, 0]);
    assert!(!m.run(|t| open_mirror(BASE, t)).unwrap().has_map());
}

#[test]
fn an_unknown_location_is_none() {
    let mut m = mirror();
    root(&mut m, [1, 2, 77, 3, 2, -4, 500, 0x20_0000, 6, 0x30_0000, 0]);
    let g = state(&m, 12).unwrap();
    assert_eq!(g.location, "Current map: -4/None");
    assert!(g.machine_hacking.is_none());
}

#[test]
fn a_stride_comes_from_its_setting() {
    assert_eq!(item_stride(None), 12);
    assert_eq!(item_stride(Some(" 8 ")), 8);
    assert_eq!(item_stride(Some("+10")), 10);
    assert_eq!(item_stride(Some("1")), 8);
    assert_eq!(item_stride(Some("99")), 16);
    assert_eq!(item_stride(Some("twelve")), 12);
    assert_eq!(item_stride(Some("99999999999999999999999999")), 12);
    assert_eq!(item_stride(Some("")), 12);
}

#[test]
fn map_codes_count_in_order() {
    let low = [
        MapType::MapNone, MapType::MapSan, MapType::MapYrd, MapType::MapMat, MapType::MapFac,
        MapType::MapRes, MapType::MapAcc, MapType::MapSur, MapType::MapMin, MapType::MapExi,
        MapType::MapSto, MapType::MapRec, MapType::MapScr, MapType::MapWas, MapType::MapGar,
        MapType::MapDsf, MapType::MapSub, MapType::MapLow,
    ];
    for (i, t) in low.iter().enumerate() {
        assert_eq!(MapType::try_from(i as i32), Ok(*t));
        assert_eq!(t.value(), i as i32);
    }
    assert_eq!(MapType::try_from(38), Ok(MapType::MapTow));
    assert_eq!(MapType::try_from(39), Err(InvalidMapType(39)));
    assert_eq!(MapType::try_from(-1), Err(InvalidMapType(-1)));
    assert_eq!(MapType::try_from(999), Err(InvalidMapType(999)));
    for i in 1000..1010 {
        assert_eq!(MapType::try_from(i).unwrap().value(), i);
    }
    assert_eq!(MapType::try_from(1010), Err(InvalidMapType(1010)));
}

#[test]
fn presence_says_depth_and_map() {
    assert_eq!(get_presence(-10, MapType::MapYrd), "Current map: -10/Scrapyard");
    assert_eq!(get_presence(0, MapType::MapHub), "Current map: 0/Hub_04(d)");
    assert_eq!(get_presence(1, MapType::MapW08), "Current map: 1/By MAIN.C's Side");
    let mut lines = Vec::new();
    for code in (0..2000).filter_map(|c| MapType::try_from(c).ok()) {
        for depth in [-10, -1, 0, 1, 10] {
            lines.push(get_presence(depth, code));
        }
    }
    let all = lines.len();
    lines.sort();
    lines.dedup();
    assert_eq!((all, lines.len()), (49 * 5, 49 * 5));
}

#[test]
fn the_mirrored_map_has_a_line_or_an_error() {
    let m = mirror();
    let ai: LuigiAi = m.run(|t| get_luigi_ai(BASE, t)).unwrap();
    assert_eq!((ai.magic1, ai.map_data, ai.machine_hacking), (1, 0x20_0000, 0x31_0000));
    assert_eq!(get_luigi_map(&ai), Ok("Current map: -4/Materials".to_string()));
    let lost = LuigiAi { location_map: 40, ..ai };
    assert_eq!(get_luigi_map(&lost), Err(Error::UnknownMap));
    assert_eq!(Error::UnknownMap.to_text(""), "Failed to convert map type!");
}

#[test]
fn tiles_decode_at_their_offsets() {
    let mut b = vec![0u8; 56];
    b[28] = 1;
    b[36] = 0xFF;
    b[37] = 0xFF;
    b[38] = 0xFF;
    b[39] = 0xFF;
    b[40] = 1;
    b[44] = 2;
    let t = LuigiTile::from_bytes(&b, 28);
    assert_eq!((t.last_action, t.cell, t.door_open, t.prop), (1, -1, true, 2));
    let t = IdTable::empty();
    assert_eq!(t.name(0), None);
}
