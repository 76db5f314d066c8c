//! Lines that say where the player is are told apart.

use crate::lexer;
use crate::text;
use crate::types;
use crate::types::MapType;
use vstd::prelude::*;

verus! {

/// A number that tells the names of the kinds of map apart.
spec fn mark(s: Seq<char>) -> int {
    s[0] as int + s[s.len() as int / 4] as int + 4 * (s.last() as int) + 56 * s.len()
}

/// The code of the kind of map whose name has this mark.
spec fn code_of_mark(m: int) -> int {
    if m == 817 {
        0
    } else if m == 646 {
        1
    } else if m == 1101 {
        2
    } else if m == 1157 {
        3
    } else if m == 1043 {
        4
    } else if m == 1061 {
        5
    } else if m == 960 {
        6
    } else if m == 996 {
        7
    } else if m == 922 {
        8
    } else if m == 985 {
        9
    } else if m == 995 {
        10
    } else if m == 1097 {
        11
    } else if m == 1141 {
        12
    } else if m == 868 {
        13
    } else if m == 1073 {
        14
    } else if m == 584 {
        15
    } else if m == 1089 {
        16
    } else if m == 1271 {
        17
    } else if m == 1273 {
        18
    } else if m == 1500 {
        19
    } else if m == 1189 {
        20
    } else if m == 859 {
        21
    } else if m == 1200 {
        22
    } else if m == 1002 {
        23
    } else if m == 976 {
        24
    } else if m == 1129 {
        25
    } else if m == 908 {
        26
    } else if m == 1072 {
        27
    } else if m == 838 {
        28
    } else if m == 999 {
        29
    } else if m == 712 {
        30
    } else if m == 1142 {
        31
    } else if m == 989 {
        32
    } else if m == 906 {
        33
    } else if m == 1155 {
        34
    } else if m == 970 {
        35
    } else if m == 804 {
        36
    } else if m == 853 {
        37
    } else if m == 1016 {
        38
    } else if m == 1624 {
        1000
    } else if m == 1169 {
        1001
    } else if m == 1716 {
        1002
    } else if m == 1567 {
        1003
    } else if m == 1168 {
        1004
    } else if m == 1033 {
        1005
    } else if m == 1780 {
        1006
    } else if m == 2031 {
        1007
    } else if m == 1431 {
        1008
    } else if m == 942 {
        1009
    } else {
        -1
    }
}

/// No slash stands in a text from `i` on.
spec fn unslashed_from(s: Seq<char>, i: int) -> bool
    decreases s.len() - i,
{
    i >= s.len() || s[i] != '/' && unslashed_from(s, i + 1)
}

proof fn unslashed(s: Seq<char>, i: int, k: int)
    requires
        unslashed_from(s, i),
        i <= k < s.len(),
    ensures
        s[k] != '/',
    decreases s.len() - i,
{
    if i < k {
        unslashed(s, i + 1, k);
    }
}

proof fn names_of_depths(m: MapType)
    requires
        m is MapNone || m is MapSan || m is MapYrd || m is MapMat || m is MapFac || m is MapRes
            || m is MapAcc,
    ensures
        code_of_mark(mark(m.called())) == m.code(),
        unslashed_from(m.called(), 0),
{
    reveal_with_fuel(unslashed_from, 27);
    match m {
        MapType::MapNone => {
            reveal_strlit("None");
        },
        MapType::MapSan => {
            reveal_strlit("SAN");
        },
        MapType::MapYrd => {
            reveal_strlit("Scrapyard");
        },
        MapType::MapMat => {
            reveal_strlit("Materials");
        },
        MapType::MapFac => {
            reveal_strlit("Factory");
        },
        MapType::MapRes => {
            reveal_strlit("Research");
        },
        MapType::MapAcc => {
            reveal_strlit("Access");
        },
        _ => {},
    }
}

proof fn names_of_branches(m: MapType)
    requires
        m is MapSur || m is MapMin || m is MapExi || m is MapSto || m is MapRec || m is MapScr
            || m is MapWas,
    ensures
        code_of_mark(mark(m.called())) == m.code(),
        unslashed_from(m.called(), 0),
{
    reveal_with_fuel(unslashed_from, 27);
    match m {
        MapType::MapSur => {
            reveal_strlit("Surface");
        },
        MapType::MapMin => {
            reveal_strlit("Mines");
        },
        MapType::MapExi => {
            reveal_strlit("Exiles");
        },
        MapType::MapSto => {
            reveal_strlit("Storage");
        },
        MapType::MapRec => {
            reveal_strlit("Recycling");
        },
        MapType::MapScr => {
            reveal_strlit("Scraptown");
        },
        MapType::MapWas => {
            reveal_strlit("Waste");
        },
        _ => {},
    }
}

proof fn names_of_caves(m: MapType)
    requires
        m is MapGar || m is MapDsf || m is MapSub || m is MapLow || m is MapUpp || m is MapPro
            || m is MapDee,
    ensures
        code_of_mark(mark(m.called())) == m.code(),
        unslashed_from(m.called(), 0),
{
    reveal_with_fuel(unslashed_from, 27);
    match m {
        MapType::MapGar => {
            reveal_strlit("Garrison");
        },
        MapType::MapDsf => {
            reveal_strlit("DSF");
        },
        MapType::MapSub => {
            reveal_strlit("Subcaves");
        },
        MapType::MapLow => {
            reveal_strlit("Lower Caves");
        },
        MapType::MapUpp => {
            reveal_strlit("Upper Caves");
        },
        MapType::MapPro => {
            reveal_strlit("Proximity Caves");
        },
        MapType::MapDee => {
            reveal_strlit("Deep Caves");
        },
        _ => {},
    }
}

proof fn names_of_others(m: MapType)
    requires
        m is MapZio || m is MapDat || m is MapZhi || m is MapWar || m is MapExt || m is MapCet
            || m is MapArc,
    ensures
        code_of_mark(mark(m.called())) == m.code(),
        unslashed_from(m.called(), 0),
{
    reveal_with_fuel(unslashed_from, 27);
    match m {
        MapType::MapZio => {
            reveal_strlit("Zion");
        },
        MapType::MapDat => {
            reveal_strlit("Data Miner");
        },
        MapType::MapZhi => {
            reveal_strlit("Zhirov");
        },
        MapType::MapWar => {
            reveal_strlit("Warlord");
        },
        MapType::MapExt => {
            reveal_strlit("Extension");
        },
        MapType::MapCet => {
            reveal_strlit("Cetus");
        },
        MapType::MapArc => {
            reveal_strlit("Archives");
        },
        _ => {},
    }
}

proof fn names_of_labs(m: MapType)
    requires
        m is MapHub || m is MapArm || m is MapLab || m is MapQua || m is MapTes || m is MapSec
            || m is MapFrg,
    ensures
        code_of_mark(mark(m.called())) == m.code(),
        unslashed_from(m.called(), 0),
{
    reveal_with_fuel(unslashed_from, 27);
    match m {
        MapType::MapHub => {
            reveal_strlit("Hub_04(d)");
        },
        MapType::MapArm => {
            reveal_strlit("Armory");
        },
        MapType::MapLab => {
            reveal_strlit("Lab");
        },
        MapType::MapQua => {
            reveal_strlit("Quarantine");
        },
        MapType::MapTes => {
            reveal_strlit("Testing");
        },
        MapType::MapSec => {
            reveal_strlit("Section 7");
        },
        MapType::MapFrg => {
            reveal_strlit("Protoforge");
        },
        _ => {},
    }
}

proof fn names_of_ends(m: MapType)
    requires
        m is MapCom || m is MapAc0 || m is MapLai || m is MapTow || m is MapW00 || m is MapW01
            || m is MapW02,
    ensures
        code_of_mark(mark(m.called())) == m.code(),
        unslashed_from(m.called(), 0),
{
    reveal_with_fuel(unslashed_from, 27);
    match m {
        MapType::MapCom => {
            reveal_strlit("Command");
        },
        MapType::MapAc0 => {
            reveal_strlit("Access_0");
        },
        MapType::MapLai => {
            reveal_strlit("Lair");
        },
        MapType::MapTow => {
            reveal_strlit("Wartown");
        },
        MapType::MapW00 => {
            reveal_strlit("To Epsilon Eridani");
        },
        MapType::MapW01 => {
            reveal_strlit("0b11 Command");
        },
        MapType::MapW02 => {
            reveal_strlit("To Fleet Rendezvous");
        },
        _ => {},
    }
}

proof fn names_of_wins(m: MapType)
    requires
        m is MapW03 || m is MapW04 || m is MapW05 || m is MapW06 || m is MapW07 || m is MapW08
            || m is MapW09,
    ensures
        code_of_mark(mark(m.called())) == m.code(),
        unslashed_from(m.called(), 0),
{
    reveal_with_fuel(unslashed_from, 27);
    match m {
        MapType::MapW03 => {
            reveal_strlit("Tau Ceti IV Orbit");
        },
        MapType::MapW04 => {
            reveal_strlit("0b10 Command");
        },
        MapType::MapW05 => {
            reveal_strlit("Subspace");
        },
        MapType::MapW06 => {
            reveal_strlit("Near Former Tau Ceti IV");
        },
        MapType::MapW07 => {
            reveal_strlit("Free Derelict Territories");
        },
        MapType::MapW08 => {
            reveal_strlit("By MAIN.C's Side");
        },
        MapType::MapW09 => {
            reveal_strlit("0bPrime");
        },
        _ => {},
    }
}

proof fn name_has_mark(m: MapType)
    ensures
        code_of_mark(mark(m.called())) == m.code(),
        unslashed_from(m.called(), 0),
{
    match m {
        MapType::MapNone | MapType::MapSan | MapType::MapYrd | MapType::MapMat
        | MapType::MapFac | MapType::MapRes | MapType::MapAcc => {
            names_of_depths(m);
        },
        MapType::MapSur | MapType::MapMin | MapType::MapExi | MapType::MapSto | MapType::MapRec
        | MapType::MapScr | MapType::MapWas => {
            names_of_branches(m);
        },
        MapType::MapGar | MapType::MapDsf | MapType::MapSub | MapType::MapLow | MapType::MapUpp
        | MapType::MapPro | MapType::MapDee => {
            names_of_caves(m);
        },
        MapType::MapZio | MapType::MapDat | MapType::MapZhi | MapType::MapWar | MapType::MapExt
        | MapType::MapCet | MapType::MapArc => {
            names_of_others(m);
        },
        MapType::MapHub | MapType::MapArm | MapType::MapLab | MapType::MapQua | MapType::MapTes
        | MapType::MapSec | MapType::MapFrg => {
            names_of_labs(m);
        },
        MapType::MapCom | MapType::MapAc0 | MapType::MapLai | MapType::MapTow | MapType::MapW00
        | MapType::MapW01 | MapType::MapW02 => {
            names_of_ends(m);
        },
        MapType::MapW03 | MapType::MapW04 | MapType::MapW05 | MapType::MapW06 | MapType::MapW07
        | MapType::MapW08 | MapType::MapW09 => {
            names_of_wins(m);
        },
    }
}

/// No two kinds of map have the same name.
pub proof fn names_are_distinct(m: MapType, n: MapType)
    requires
        m.called() == n.called(),
    ensures
        m == n,
{
    name_has_mark(m);
    name_has_mark(n);
    types::codes_read_back(m);
    types::codes_read_back(n);
}

/// No name of a kind of map holds a slash.
pub proof fn names_hold_no_slash(m: MapType, k: int)
    requires
        0 <= k < m.called().len(),
    ensures
        m.called()[k] != '/',
{
    name_has_mark(m);
    unslashed(m.called(), 0, k);
}

/// Two lines that say where the player is are the same only for the same depth and the
/// same kind of map.
pub proof fn presence_tells_apart(d1: int, m1: MapType, d2: int, m2: MapType)
    ensures
        types::presence(d1, m1) == types::presence(d2, m2) <==> d1 == d2 && m1 == m2,
{
    if types::presence(d1, m1) == types::presence(d2, m2) {
        let head = "Current map: "@;
        let t1 = text::dec(d1) + "/"@ + m1.called();
        let t2 = text::dec(d2) + "/"@ + m2.called();
        reveal_strlit("/");
        lexer::decimals_are_plain(d1);
        lexer::decimals_are_plain(d2);
        let n1 = text::dec(d1).len() as int;
        let n2 = text::dec(d2).len() as int;
        assert(types::presence(d1, m1).skip(head.len() as int) =~= t1);
        assert(types::presence(d2, m2).skip(head.len() as int) =~= t2);
        assert(t1[n1] == '/' && t2[n2] == '/');
        if n1 < n2 {
            assert(t2[n1] == text::dec(d2)[n1]);
        } else if n2 < n1 {
            assert(t1[n2] == text::dec(d1)[n2]);
        }
        assert(t1.take(n1) =~= text::dec(d1));
        assert(t2.take(n2) =~= text::dec(d2));
        assert(t1.skip(n1 + 1) =~= m1.called());
        assert(t2.skip(n2 + 1) =~= m2.called());
        lexer::decimals_tell_apart(d1, d2);
        names_are_distinct(m1, m2);
    }
}

} // verus!
