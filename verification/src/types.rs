//! What the target's mirror of the game state is made of.

use crate::bytes;
use crate::bytes::{int_at, word_at};
use crate::error::Error;
use crate::memory;
use crate::memory::{Read, Stop, Tape};
use crate::text;
use crate::text::push_dec;
use vstd::prelude::*;
use vstd::string::StringExecFns;

verus! {

/// The kinds of maps. Their codes count up from 0 in this order, but for the endings,
/// which start at 1000.
#[derive(Debug, Clone, Copy, PartialEq, Eq, Structural)]
pub enum MapType {
    MapNone,
    MapSan,
    MapYrd,
    MapMat,
    MapFac,
    MapRes,
    MapAcc,
    MapSur,
    MapMin,
    MapExi,
    MapSto,
    MapRec,
    MapScr,
    MapWas,
    MapGar,
    MapDsf,
    MapSub,
    MapLow,
    MapUpp,
    MapPro,
    MapDee,
    MapZio,
    MapDat,
    MapZhi,
    MapWar,
    MapExt,
    MapCet,
    MapArc,
    MapHub,
    MapArm,
    MapLab,
    MapQua,
    MapTes,
    MapSec,
    MapFrg,
    MapCom,
    MapAc0,
    MapLai,
    MapTow,
    MapW00,
    MapW01,
    MapW02,
    MapW03,
    MapW04,
    MapW05,
    MapW06,
    MapW07,
    MapW08,
    MapW09,
}

/// A code that no kind of map has.
#[derive(Debug, Clone, Copy, PartialEq, Eq, Structural)]
pub struct InvalidMapType(pub i32);

impl MapType {
    /// The code of a kind of map.
    pub open spec fn code(self) -> int {
        match self {
            MapType::MapNone => 0,
            MapType::MapSan => 1,
            MapType::MapYrd => 2,
            MapType::MapMat => 3,
            MapType::MapFac => 4,
            MapType::MapRes => 5,
            MapType::MapAcc => 6,
            MapType::MapSur => 7,
            MapType::MapMin => 8,
            MapType::MapExi => 9,
            MapType::MapSto => 10,
            MapType::MapRec => 11,
            MapType::MapScr => 12,
            MapType::MapWas => 13,
            MapType::MapGar => 14,
            MapType::MapDsf => 15,
            MapType::MapSub => 16,
            MapType::MapLow => 17,
            MapType::MapUpp => 18,
            MapType::MapPro => 19,
            MapType::MapDee => 20,
            MapType::MapZio => 21,
            MapType::MapDat => 22,
            MapType::MapZhi => 23,
            MapType::MapWar => 24,
            MapType::MapExt => 25,
            MapType::MapCet => 26,
            MapType::MapArc => 27,
            MapType::MapHub => 28,
            MapType::MapArm => 29,
            MapType::MapLab => 30,
            MapType::MapQua => 31,
            MapType::MapTes => 32,
            MapType::MapSec => 33,
            MapType::MapFrg => 34,
            MapType::MapCom => 35,
            MapType::MapAc0 => 36,
            MapType::MapLai => 37,
            MapType::MapTow => 38,
            MapType::MapW00 => 1000,
            MapType::MapW01 => 1001,
            MapType::MapW02 => 1002,
            MapType::MapW03 => 1003,
            MapType::MapW04 => 1004,
            MapType::MapW05 => 1005,
            MapType::MapW06 => 1006,
            MapType::MapW07 => 1007,
            MapType::MapW08 => 1008,
            MapType::MapW09 => 1009,
        }
    }

    /// The kind of map with a code.
    pub open spec fn of_code(v: int) -> Option<MapType> {
        if v == 0 {
            Some(MapType::MapNone)
        } else if v == 1 {
            Some(MapType::MapSan)
        } else if v == 2 {
            Some(MapType::MapYrd)
        } else if v == 3 {
            Some(MapType::MapMat)
        } else if v == 4 {
            Some(MapType::MapFac)
        } else if v == 5 {
            Some(MapType::MapRes)
        } else if v == 6 {
            Some(MapType::MapAcc)
        } else if v == 7 {
            Some(MapType::MapSur)
        } else if v == 8 {
            Some(MapType::MapMin)
        } else if v == 9 {
            Some(MapType::MapExi)
        } else if v == 10 {
            Some(MapType::MapSto)
        } else if v == 11 {
            Some(MapType::MapRec)
        } else if v == 12 {
            Some(MapType::MapScr)
        } else if v == 13 {
            Some(MapType::MapWas)
        } else if v == 14 {
            Some(MapType::MapGar)
        } else if v == 15 {
            Some(MapType::MapDsf)
        } else if v == 16 {
            Some(MapType::MapSub)
        } else if v == 17 {
            Some(MapType::MapLow)
        } else if v == 18 {
            Some(MapType::MapUpp)
        } else if v == 19 {
            Some(MapType::MapPro)
        } else if v == 20 {
            Some(MapType::MapDee)
        } else if v == 21 {
            Some(MapType::MapZio)
        } else if v == 22 {
            Some(MapType::MapDat)
        } else if v == 23 {
            Some(MapType::MapZhi)
        } else if v == 24 {
            Some(MapType::MapWar)
        } else if v == 25 {
            Some(MapType::MapExt)
        } else if v == 26 {
            Some(MapType::MapCet)
        } else if v == 27 {
            Some(MapType::MapArc)
        } else if v == 28 {
            Some(MapType::MapHub)
        } else if v == 29 {
            Some(MapType::MapArm)
        } else if v == 30 {
            Some(MapType::MapLab)
        } else if v == 31 {
            Some(MapType::MapQua)
        } else if v == 32 {
            Some(MapType::MapTes)
        } else if v == 33 {
            Some(MapType::MapSec)
        } else if v == 34 {
            Some(MapType::MapFrg)
        } else if v == 35 {
            Some(MapType::MapCom)
        } else if v == 36 {
            Some(MapType::MapAc0)
        } else if v == 37 {
            Some(MapType::MapLai)
        } else if v == 38 {
            Some(MapType::MapTow)
        } else if v == 1000 {
            Some(MapType::MapW00)
        } else if v == 1001 {
            Some(MapType::MapW01)
        } else if v == 1002 {
            Some(MapType::MapW02)
        } else if v == 1003 {
            Some(MapType::MapW03)
        } else if v == 1004 {
            Some(MapType::MapW04)
        } else if v == 1005 {
            Some(MapType::MapW05)
        } else if v == 1006 {
            Some(MapType::MapW06)
        } else if v == 1007 {
            Some(MapType::MapW07)
        } else if v == 1008 {
            Some(MapType::MapW08)
        } else if v == 1009 {
            Some(MapType::MapW09)
        } else {
            None
        }
    }

    /// What a kind of map is called.
    pub open spec fn called(self) -> Seq<char> {
        match self {
            MapType::MapNone => "None"@,
            MapType::MapSan => "SAN"@,
            MapType::MapYrd => "Scrapyard"@,
            MapType::MapMat => "Materials"@,
            MapType::MapFac => "Factory"@,
            MapType::MapRes => "Research"@,
            MapType::MapAcc => "Access"@,
            MapType::MapSur => "Surface"@,
            MapType::MapMin => "Mines"@,
            MapType::MapExi => "Exiles"@,
            MapType::MapSto => "Storage"@,
            MapType::MapRec => "Recycling"@,
            MapType::MapScr => "Scraptown"@,
            MapType::MapWas => "Waste"@,
            MapType::MapGar => "Garrison"@,
            MapType::MapDsf => "DSF"@,
            MapType::MapSub => "Subcaves"@,
            MapType::MapLow => "Lower Caves"@,
            MapType::MapUpp => "Upper Caves"@,
            MapType::MapPro => "Proximity Caves"@,
            MapType::MapDee => "Deep Caves"@,
            MapType::MapZio => "Zion"@,
            MapType::MapDat => "Data Miner"@,
            MapType::MapZhi => "Zhirov"@,
            MapType::MapWar => "Warlord"@,
            MapType::MapExt => "Extension"@,
            MapType::MapCet => "Cetus"@,
            MapType::MapArc => "Archives"@,
            MapType::MapHub => "Hub_04(d)"@,
            MapType::MapArm => "Armory"@,
            MapType::MapLab => "Lab"@,
            MapType::MapQua => "Quarantine"@,
            MapType::MapTes => "Testing"@,
            MapType::MapSec => "Section 7"@,
            MapType::MapFrg => "Protoforge"@,
            MapType::MapCom => "Command"@,
            MapType::MapAc0 => "Access_0"@,
            MapType::MapLai => "Lair"@,
            MapType::MapTow => "Wartown"@,
            MapType::MapW00 => "To Epsilon Eridani"@,
            MapType::MapW01 => "0b11 Command"@,
            MapType::MapW02 => "To Fleet Rendezvous"@,
            MapType::MapW03 => "Tau Ceti IV Orbit"@,
            MapType::MapW04 => "0b10 Command"@,
            MapType::MapW05 => "Subspace"@,
            MapType::MapW06 => "Near Former Tau Ceti IV"@,
            MapType::MapW07 => "Free Derelict Territories"@,
            MapType::MapW08 => "By MAIN.C's Side"@,
            MapType::MapW09 => "0bPrime"@,
        }
    }

    /// The code of a kind of map.
    pub fn value(self) -> (r: i32)
        ensures
            r == self.code(),
    {
        match self {
            MapType::MapNone => 0,
            MapType::MapSan => 1,
            MapType::MapYrd => 2,
            MapType::MapMat => 3,
            MapType::MapFac => 4,
            MapType::MapRes => 5,
            MapType::MapAcc => 6,
            MapType::MapSur => 7,
            MapType::MapMin => 8,
            MapType::MapExi => 9,
            MapType::MapSto => 10,
            MapType::MapRec => 11,
            MapType::MapScr => 12,
            MapType::MapWas => 13,
            MapType::MapGar => 14,
            MapType::MapDsf => 15,
            MapType::MapSub => 16,
            MapType::MapLow => 17,
            MapType::MapUpp => 18,
            MapType::MapPro => 19,
            MapType::MapDee => 20,
            MapType::MapZio => 21,
            MapType::MapDat => 22,
            MapType::MapZhi => 23,
            MapType::MapWar => 24,
            MapType::MapExt => 25,
            MapType::MapCet => 26,
            MapType::MapArc => 27,
            MapType::MapHub => 28,
            MapType::MapArm => 29,
            MapType::MapLab => 30,
            MapType::MapQua => 31,
            MapType::MapTes => 32,
            MapType::MapSec => 33,
            MapType::MapFrg => 34,
            MapType::MapCom => 35,
            MapType::MapAc0 => 36,
            MapType::MapLai => 37,
            MapType::MapTow => 38,
            MapType::MapW00 => 1000,
            MapType::MapW01 => 1001,
            MapType::MapW02 => 1002,
            MapType::MapW03 => 1003,
            MapType::MapW04 => 1004,
            MapType::MapW05 => 1005,
            MapType::MapW06 => 1006,
            MapType::MapW07 => 1007,
            MapType::MapW08 => 1008,
            MapType::MapW09 => 1009,
        }
    }

    /// What a kind of map is called.
    pub fn name(self) -> (r: &'static str)
        ensures
            r@ == self.called(),
    {
        match self {
            MapType::MapNone => "None",
            MapType::MapSan => "SAN",
            MapType::MapYrd => "Scrapyard",
            MapType::MapMat => "Materials",
            MapType::MapFac => "Factory",
            MapType::MapRes => "Research",
            MapType::MapAcc => "Access",
            MapType::MapSur => "Surface",
            MapType::MapMin => "Mines",
            MapType::MapExi => "Exiles",
            MapType::MapSto => "Storage",
            MapType::MapRec => "Recycling",
            MapType::MapScr => "Scraptown",
            MapType::MapWas => "Waste",
            MapType::MapGar => "Garrison",
            MapType::MapDsf => "DSF",
            MapType::MapSub => "Subcaves",
            MapType::MapLow => "Lower Caves",
            MapType::MapUpp => "Upper Caves",
            MapType::MapPro => "Proximity Caves",
            MapType::MapDee => "Deep Caves",
            MapType::MapZio => "Zion",
            MapType::MapDat => "Data Miner",
            MapType::MapZhi => "Zhirov",
            MapType::MapWar => "Warlord",
            MapType::MapExt => "Extension",
            MapType::MapCet => "Cetus",
            MapType::MapArc => "Archives",
            MapType::MapHub => "Hub_04(d)",
            MapType::MapArm => "Armory",
            MapType::MapLab => "Lab",
            MapType::MapQua => "Quarantine",
            MapType::MapTes => "Testing",
            MapType::MapSec => "Section 7",
            MapType::MapFrg => "Protoforge",
            MapType::MapCom => "Command",
            MapType::MapAc0 => "Access_0",
            MapType::MapLai => "Lair",
            MapType::MapTow => "Wartown",
            MapType::MapW00 => "To Epsilon Eridani",
            MapType::MapW01 => "0b11 Command",
            MapType::MapW02 => "To Fleet Rendezvous",
            MapType::MapW03 => "Tau Ceti IV Orbit",
            MapType::MapW04 => "0b10 Command",
            MapType::MapW05 => "Subspace",
            MapType::MapW06 => "Near Former Tau Ceti IV",
            MapType::MapW07 => "Free Derelict Territories",
            MapType::MapW08 => "By MAIN.C's Side",
            MapType::MapW09 => "0bPrime",
        }
    }
}

impl TryFrom<i32> for MapType {
    type Error = InvalidMapType;

    fn try_from(value: i32) -> (r: Result<Self, Self::Error>) {
        match value {
            0 => Ok(MapType::MapNone),
            1 => Ok(MapType::MapSan),
            2 => Ok(MapType::MapYrd),
            3 => Ok(MapType::MapMat),
            4 => Ok(MapType::MapFac),
            5 => Ok(MapType::MapRes),
            6 => Ok(MapType::MapAcc),
            7 => Ok(MapType::MapSur),
            8 => Ok(MapType::MapMin),
            9 => Ok(MapType::MapExi),
            10 => Ok(MapType::MapSto),
            11 => Ok(MapType::MapRec),
            12 => Ok(MapType::MapScr),
            13 => Ok(MapType::MapWas),
            14 => Ok(MapType::MapGar),
            15 => Ok(MapType::MapDsf),
            16 => Ok(MapType::MapSub),
            17 => Ok(MapType::MapLow),
            18 => Ok(MapType::MapUpp),
            19 => Ok(MapType::MapPro),
            20 => Ok(MapType::MapDee),
            21 => Ok(MapType::MapZio),
            22 => Ok(MapType::MapDat),
            23 => Ok(MapType::MapZhi),
            24 => Ok(MapType::MapWar),
            25 => Ok(MapType::MapExt),
            26 => Ok(MapType::MapCet),
            27 => Ok(MapType::MapArc),
            28 => Ok(MapType::MapHub),
            29 => Ok(MapType::MapArm),
            30 => Ok(MapType::MapLab),
            31 => Ok(MapType::MapQua),
            32 => Ok(MapType::MapTes),
            33 => Ok(MapType::MapSec),
            34 => Ok(MapType::MapFrg),
            35 => Ok(MapType::MapCom),
            36 => Ok(MapType::MapAc0),
            37 => Ok(MapType::MapLai),
            38 => Ok(MapType::MapTow),
            1000 => Ok(MapType::MapW00),
            1001 => Ok(MapType::MapW01),
            1002 => Ok(MapType::MapW02),
            1003 => Ok(MapType::MapW03),
            1004 => Ok(MapType::MapW04),
            1005 => Ok(MapType::MapW05),
            1006 => Ok(MapType::MapW06),
            1007 => Ok(MapType::MapW07),
            1008 => Ok(MapType::MapW08),
            1009 => Ok(MapType::MapW09),
            _ => Err(InvalidMapType(value)),
        }
    }
}

impl vstd::std_specs::convert::TryFromSpecImpl<i32> for MapType {
    open spec fn obeys_try_from_spec() -> bool {
        true
    }

    open spec fn try_from_spec(v: i32) -> Result<Self, Self::Error> {
        match MapType::of_code(v as int) {
            Some(m) => Ok(m),
            None => Err(InvalidMapType(v)),
        }
    }
}

/// A code stands for one kind of map, and every kind of map has one.
pub proof fn codes_read_back(m: MapType)
    ensures
        MapType::of_code(m.code()) == Some(m),
{
}

/// What has a code is the kind of map with that code.
pub proof fn codes_are_told_apart(v: int)
    ensures
        MapType::of_code(v) matches Some(m) ==> m.code() == v,
{
}

/// The line that says where the player is.
pub open spec fn presence(depth: int, map_type: MapType) -> Seq<char> {
    "Current map: "@ + text::dec(depth) + "/"@ + map_type.called()
}

/// The line that says where the player is.
pub fn get_presence(depth: i32, map_type: MapType) -> (r: String)
    ensures
        r@ == presence(depth as int, map_type),
{
    let mut r: String = "Current map: ".to_owned();
    push_dec(&mut r, depth as i64);
    r.append("/");
    r.append(map_type.name());
    r
}

/// The hacking interface that is open.
#[derive(Debug, Clone, Copy, PartialEq, Eq, Structural)]
pub struct LuigiMachineHacking {
    pub action_ready: i32,
    pub detect_chance: i32,
    pub trace_progress: i32,
    pub last_hack_success: bool,
}

/// Its size in the target.
pub const HACKING_SIZE: usize = 16;

/// The one that stands at offset `o`.
pub open spec fn hacking_of(b: Seq<u8>, o: int) -> LuigiMachineHacking {
    LuigiMachineHacking {
        action_ready: bytes::le_i32(b, o) as i32,
        detect_chance: bytes::le_i32(b, o + 4) as i32,
        trace_progress: bytes::le_i32(b, o + 8) as i32,
        last_hack_success: b[o + 12] != 0,
    }
}

impl LuigiMachineHacking {
    /// Decodes the one that stands at offset `o`.
    pub fn from_bytes(b: &Vec<u8>, o: usize) -> (r: LuigiMachineHacking)
        requires
            o + HACKING_SIZE <= b@.len(),
        ensures
            r == hacking_of(b@, o as int),
    {
        let _n: usize = b.len();
        LuigiMachineHacking {
            action_ready: int_at(b, o),
            detect_chance: int_at(b, o + 4),
            trace_progress: int_at(b, o + 8),
            last_hack_success: b[o + 12] != 0,
        }
    }
}

/// A prop.
#[derive(Debug, Clone, Copy, PartialEq, Eq, Structural)]
pub struct LuigiProp {
    pub id: i32,
    pub interactive_piece: bool,
}

/// Its size in the target.
pub const PROP_SIZE: usize = 8;

/// The one that stands at offset `o`.
pub open spec fn prop_of(b: Seq<u8>, o: int) -> LuigiProp {
    LuigiProp {
        id: bytes::le_i32(b, o) as i32,
        interactive_piece: b[o + 4] != 0,
    }
}

impl LuigiProp {
    /// Decodes the one that stands at offset `o`.
    pub fn from_bytes(b: &Vec<u8>, o: usize) -> (r: LuigiProp)
        requires
            o + PROP_SIZE <= b@.len(),
        ensures
            r == prop_of(b@, o as int),
    {
        let _n: usize = b.len();
        LuigiProp {
            id: int_at(b, o),
            interactive_piece: b[o + 4] != 0,
        }
    }
}

/// An item.
#[derive(Debug, Clone, Copy, PartialEq, Eq, Structural)]
pub struct LuigiItem {
    pub id: i32,
    pub integrity: i32,
}

/// Its size in the target.
pub const ITEM_SIZE: usize = 8;

/// The one that stands at offset `o`.
pub open spec fn item_of(b: Seq<u8>, o: int) -> LuigiItem {
    LuigiItem {
        id: bytes::le_i32(b, o) as i32,
        integrity: bytes::le_i32(b, o + 4) as i32,
    }
}

impl LuigiItem {
    /// Decodes the one that stands at offset `o`.
    pub fn from_bytes(b: &Vec<u8>, o: usize) -> (r: LuigiItem)
        requires
            o + ITEM_SIZE <= b@.len(),
        ensures
            r == item_of(b@, o as int),
    {
        let _n: usize = b.len();
        LuigiItem {
            id: int_at(b, o),
            integrity: int_at(b, o + 4),
        }
    }
}

/// An entity.
#[derive(Debug, Clone, Copy, PartialEq, Eq, Structural)]
pub struct LuigiEntity {
    pub id: i32,
    pub integrity: i32,
    pub relation: i32,
    pub active_state: i32,
    pub exposure: i32,
    pub energy: i32,
    pub matter: i32,
    pub heat: i32,
    pub system_corruption: i32,
    pub speed: i32,
    pub inventory_size: i32,
    pub inventory: u32,
}

/// Its size in the target.
pub const ENTITY_SIZE: usize = 48;

/// The one that stands at offset `o`.
pub open spec fn entity_of(b: Seq<u8>, o: int) -> LuigiEntity {
    LuigiEntity {
        id: bytes::le_i32(b, o) as i32,
        integrity: bytes::le_i32(b, o + 4) as i32,
        relation: bytes::le_i32(b, o + 8) as i32,
        active_state: bytes::le_i32(b, o + 12) as i32,
        exposure: bytes::le_i32(b, o + 16) as i32,
        energy: bytes::le_i32(b, o + 20) as i32,
        matter: bytes::le_i32(b, o + 24) as i32,
        heat: bytes::le_i32(b, o + 28) as i32,
        system_corruption: bytes::le_i32(b, o + 32) as i32,
        speed: bytes::le_i32(b, o + 36) as i32,
        inventory_size: bytes::le_i32(b, o + 40) as i32,
        inventory: bytes::le32(b, o + 44) as u32,
    }
}

impl LuigiEntity {
    /// Decodes the one that stands at offset `o`.
    pub fn from_bytes(b: &Vec<u8>, o: usize) -> (r: LuigiEntity)
        requires
            o + ENTITY_SIZE <= b@.len(),
        ensures
            r == entity_of(b@, o as int),
    {
        let _n: usize = b.len();
        LuigiEntity {
            id: int_at(b, o),
            integrity: int_at(b, o + 4),
            relation: int_at(b, o + 8),
            active_state: int_at(b, o + 12),
            exposure: int_at(b, o + 16),
            energy: int_at(b, o + 20),
            matter: int_at(b, o + 24),
            heat: int_at(b, o + 28),
            system_corruption: int_at(b, o + 32),
            speed: int_at(b, o + 36),
            inventory_size: int_at(b, o + 40),
            inventory: word_at(b, o + 44),
        }
    }
}

/// A tile of the mirrored map.
#[derive(Debug, Clone, Copy, PartialEq, Eq, Structural)]
pub struct LuigiTile {
    pub last_action: i32,
    pub last_fov: i32,
    pub cell: i32,
    pub door_open: bool,
    pub prop: u32,
    pub entity: u32,
    pub item: u32,
}

/// Its size in the target.
pub const TILE_SIZE: usize = 28;

/// The one that stands at offset `o`.
pub open spec fn tile_of(b: Seq<u8>, o: int) -> LuigiTile {
    LuigiTile {
        last_action: bytes::le_i32(b, o) as i32,
        last_fov: bytes::le_i32(b, o + 4) as i32,
        cell: bytes::le_i32(b, o + 8) as i32,
        door_open: b[o + 12] != 0,
        prop: bytes::le32(b, o + 16) as u32,
        entity: bytes::le32(b, o + 20) as u32,
        item: bytes::le32(b, o + 24) as u32,
    }
}

impl LuigiTile {
    /// Decodes the one that stands at offset `o`.
    pub fn from_bytes(b: &Vec<u8>, o: usize) -> (r: LuigiTile)
        requires
            o + TILE_SIZE <= b@.len(),
        ensures
            r == tile_of(b@, o as int),
    {
        let _n: usize = b.len();
        LuigiTile {
            last_action: int_at(b, o),
            last_fov: int_at(b, o + 4),
            cell: int_at(b, o + 8),
            door_open: b[o + 12] != 0,
            prop: word_at(b, o + 16),
            entity: word_at(b, o + 20),
            item: word_at(b, o + 24),
        }
    }
}

/// The root of the mirror.
#[derive(Debug, Clone, Copy, PartialEq, Eq, Structural)]
pub struct LuigiAi {
    pub magic1: i32,
    pub magic2: i32,
    pub action_ready: i32,
    pub map_width: i32,
    pub map_height: i32,
    pub location_depth: i32,
    pub location_map: i32,
    pub map_data: u32,
    pub map_cursor_index: i32,
    pub player: u32,
    pub machine_hacking: u32,
}

/// Its size in the target.
pub const AI_SIZE: usize = 44;

/// The one that stands at offset `o`.
pub open spec fn ai_of(b: Seq<u8>, o: int) -> LuigiAi {
    LuigiAi {
        magic1: bytes::le_i32(b, o) as i32,
        magic2: bytes::le_i32(b, o + 4) as i32,
        action_ready: bytes::le_i32(b, o + 8) as i32,
        map_width: bytes::le_i32(b, o + 12) as i32,
        map_height: bytes::le_i32(b, o + 16) as i32,
        location_depth: bytes::le_i32(b, o + 20) as i32,
        location_map: bytes::le_i32(b, o + 24) as i32,
        map_data: bytes::le32(b, o + 28) as u32,
        map_cursor_index: bytes::le_i32(b, o + 32) as i32,
        player: bytes::le32(b, o + 36) as u32,
        machine_hacking: bytes::le32(b, o + 40) as u32,
    }
}

impl LuigiAi {
    /// Decodes the one that stands at offset `o`.
    pub fn from_bytes(b: &Vec<u8>, o: usize) -> (r: LuigiAi)
        requires
            o + AI_SIZE <= b@.len(),
        ensures
            r == ai_of(b@, o as int),
    {
        let _n: usize = b.len();
        LuigiAi {
            magic1: int_at(b, o),
            magic2: int_at(b, o + 4),
            action_ready: int_at(b, o + 8),
            map_width: int_at(b, o + 12),
            map_height: int_at(b, o + 16),
            location_depth: int_at(b, o + 20),
            location_map: int_at(b, o + 24),
            map_data: word_at(b, o + 28),
            map_cursor_index: int_at(b, o + 32),
            player: word_at(b, o + 36),
            machine_hacking: word_at(b, o + 40),
        }
    }
}

/// The two words that mark the root of the mirror.
pub const AI_MAGIC_1: i32 = 1689123404;

pub const AI_MAGIC_2: i32 = 2035498713;

/// Reads the root of the mirror, which stands at `base`.
pub fn get_luigi_ai(base: u64, tape: &mut Tape) -> (r: Result<LuigiAi, Stop>)
    ensures
        final(tape).all() == old(tape).all(),
        match memory::ask(old(tape).rest(), Read { addr: base, len: AI_SIZE }) {
            Ok(b) => r matches Ok(v) && v == ai_of(b, 0),
            Err(stop) => r matches Err(e) && e == stop,
        },
{
    let b: Vec<u8> = tape.bytes(base, AI_SIZE)?;
    Ok(LuigiAi::from_bytes(&b, 0))
}

/// The line that says where the player is, or that the map is of no known kind.
pub fn get_luigi_map(ai: &LuigiAi) -> (r: Result<String, Error>)
    ensures
        match MapType::of_code(ai.location_map as int) {
            Some(m) => r matches Ok(s) && s@ == presence(ai.location_depth as int, m),
            None => r matches Err(e) && e == Error::UnknownMap,
        },
{
    match MapType::try_from(ai.location_map) {
        Ok(m) => Ok(get_presence(ai.location_depth, m)),
        Err(_) => Err(Error::UnknownMap),
    }
}

} // verus!
