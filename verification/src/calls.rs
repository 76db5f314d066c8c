//! What each tool call comes to, argument by argument.

use crate::args;
use crate::args::{ArgView, ArgsView};
use crate::blit_job::BlitTool;
use crate::dump_job::DumpTool;
use crate::error::Error;
use crate::layouts;
use crate::lexer;
use crate::mailbox::Command;
use crate::plan;
use crate::plan::Request;
use crate::tools;
use vstd::prelude::*;
use vstd::utf8;

verus! {

/// Whether `i` is the first of the arguments with this name.
pub open spec fn is_first(a: ArgsView, key: Seq<char>, i: int) -> bool {
    &&& 0 <= i < a.entries.len()
    &&& a.entries[i].0 == key
    &&& forall|j: int| 0 <= j < i ==> (#[trigger] a.entries[j]).0 != key
}

/// An argument is the first with its name; there is none where no argument has the name.
pub proof fn first_argument_counts(a: ArgsView, key: Seq<char>)
    ensures
        forall|i: int| is_first(a, key, i) ==> a.get(key) == Some((#[trigger] a.entries[i]).1),
        a.get(key) is None <==> forall|j: int|
            0 <= j < a.entries.len() ==> (#[trigger] a.entries[j]).0 != key,
{
    first_from_counts(a, key, 0);
}

proof fn first_from_counts(a: ArgsView, key: Seq<char>, from: int)
    requires
        0 <= from,
        forall|j: int| 0 <= j < from && j < a.entries.len() ==> (#[trigger] a.entries[j]).0 != key,
    ensures
        forall|i: int|
            is_first(a, key, i) ==> args::value_from(a.entries, from, key) == Some(
                (#[trigger] a.entries[i]).1,
            ),
        args::value_from(a.entries, from, key) is None <==> forall|j: int|
            0 <= j < a.entries.len() ==> (#[trigger] a.entries[j]).0 != key,
    decreases a.entries.len() - from,
{
    if from < a.entries.len() {
        if a.entries[from].0 == key {
            assert(is_first(a, key, from));
            assert forall|i: int| is_first(a, key, i) implies i == from by {
                if i > from {
                    assert(a.entries[from].0 != key);
                }
            }
        } else {
            first_from_counts(a, key, from + 1);
        }
    }
}

/// Whether `v` is the argument, kept to 32 bits; 0 where it is no integer.
pub open spec fn is_int(a: ArgsView, key: Seq<char>, v: i32) -> bool {
    match a.get(key) {
        Some(ArgView::Int(n)) => (n - v) % 0x1_0000_0000 == 0,
        _ => v == 0,
    }
}

/// Whether `v` is the argument, kept to 32 bits, and the argument is an integer.
pub open spec fn is_given(a: ArgsView, key: Seq<char>, v: i32) -> bool {
    a.get(key) matches Some(ArgView::Int(n)) && (n - v) % 0x1_0000_0000 == 0
}

/// Whether `v` is the argument, or the nearest to it from `lo` to `hi`; `d` where it is no
/// integer.
pub open spec fn is_asked(
    a: ArgsView,
    key: Seq<char>,
    d: int,
    lo: int,
    hi: int,
    v: int,
) -> bool {
    match a.get(key) {
        Some(ArgView::Int(n)) => {
            &&& lo <= v <= hi
            &&& lo <= n <= hi ==> v == n
            &&& n < lo ==> v == lo
            &&& n > hi ==> v == hi
        },
        _ => v == d,
    }
}

/// A hexadecimal text or an integer is taken for the 32-bit or 64-bit pattern that it is; an
/// array for the integers in it, in their order and each kept to 32 bits.
pub proof fn patterns_are_taken_as_given(a: ArgsView, key: Seq<char>)
    ensures
        a.get(key) matches Some(ArgView::Int(n)) ==> {
            &&& a.word(key) matches Some(w) && 0 <= w < 0x1_0000_0000 && (n - w) % 0x1_0000_0000
                == 0
            &&& a.address(key) matches Some(w) && 0 <= w < 0x1_0000_0000_0000_0000 && (n - w)
                % 0x1_0000_0000_0000_0000 == 0
            &&& a.hex(key, 0xFFFF_FFFF) is None
        },
        a.get(key) matches Some(ArgView::Text(_)) ==> a.word(key) == a.hex(key, 0xFFFF_FFFF) && a.address(key) == a.hex(
            key,
            0xFFFF_FFFF_FFFF_FFFF,
        ),
        a.get(key) is None ==> a.word(key) is None && a.address(key) is None && a.ints(key).len()
            == 0,
        a.get(key) matches Some(ArgView::List(v)) ==> {
            let given = v.filter(|x: Option<i64>| x is Some);
            &&& a.ints(key).len() == given.len()
            &&& forall|i: int|
                0 <= i < given.len() ==> (given[i]->0 - #[trigger] a.ints(key)[i]) % 0x1_0000_0000
                    == 0
        },
{
    if let Some(ArgView::List(v)) = a.get(key) {
        integers_are_kept(v, v.len() as int);
        assert(v.take(v.len() as int) =~= v);
    }
}

proof fn integers_are_kept(v: Seq<Option<i64>>, n: int)
    requires
        0 <= n <= v.len(),
    ensures
        ({
            let given = v.take(n).filter(|x: Option<i64>| x is Some);
            let kept = args::ints_of(v, n);
            &&& kept.len() == given.len()
            &&& forall|i: int|
                0 <= i < given.len() ==> (given[i]->0 - #[trigger] kept[i]) % 0x1_0000_0000 == 0
        }),
    decreases n,
{
    reveal(Seq::filter);
    let some = v.take(n);
    if n > 0 {
        integers_are_kept(v, n - 1);
        assert(some.drop_last() =~= v.take(n - 1));
        assert(some.last() == v[n - 1]);
        if let Some(x) = v[n - 1] {
            layouts::casts_keep_the_low_bits(x as int);
        }
    }
}

proof fn patterns_fit(a: ArgsView, key: Seq<char>)
    ensures
        a.word(key) matches Some(w) ==> 0 <= w < 0x1_0000_0000,
        a.address(key) matches Some(w) ==> 0 <= w < 0x1_0000_0000_0000_0000,
{
    if let Some(s) = a.text(key) {
        lexer::numbers_are_natural(lexer::strip_0x(s), 16, 0xFFFF_FFFF);
        lexer::numbers_are_natural(lexer::strip_0x(s), 16, 0xFFFF_FFFF_FFFF_FFFF);
    }
}

/// A key that is pressed once, without modifiers.
pub open spec fn pressed(keysym: u16, unicode: u16) -> Request {
    Request::Submit(Command::Key { keysym, mods: 0, unicode, repeat: 1 })
}

/// Each way to move is a key of the keypad, whose keys count up from 256 with their digits:
/// pressed once, without modifiers and without a character.
pub proof fn moves_are_keypad_keys(a: ArgsView)
    ensures
        plan::request_of("move_north"@, a) == pressed(264, 0),
        plan::request_of("move_northeast"@, a) == pressed(265, 0),
        plan::request_of("move_east"@, a) == pressed(262, 0),
        plan::request_of("move_southeast"@, a) == pressed(259, 0),
        plan::request_of("move_south"@, a) == pressed(258, 0),
        plan::request_of("move_southwest"@, a) == pressed(257, 0),
        plan::request_of("move_west"@, a) == pressed(260, 0),
        plan::request_of("move_northwest"@, a) == pressed(263, 0),
{
    tools::names_have_marks();
    reveal_strlit("move_north");
    tools::other_than_blit("move_north"@);
    reveal_strlit("move_northeast");
    tools::other_than_blit("move_northeast"@);
    reveal_strlit("move_east");
    tools::other_than_blit("move_east"@);
    reveal_strlit("move_southeast");
    tools::other_than_blit("move_southeast"@);
    reveal_strlit("move_south");
    tools::other_than_blit("move_south"@);
    reveal_strlit("move_southwest");
    tools::other_than_blit("move_southwest"@);
    reveal_strlit("move_west");
    tools::other_than_blit("move_west"@);
    reveal_strlit("move_northwest");
    tools::other_than_blit("move_northwest"@);
}

/// To attach is the key of the letter a and to fire that of the letter f, each with its
/// character.
pub proof fn single_keys_are_pressed(a: ArgsView)
    ensures
        plan::request_of("attach"@, a) == pressed(97, 97),
        plan::request_of("fire"@, a) == pressed(102, 102),
{
    tools::names_have_marks();
    reveal_strlit("attach");
    tools::other_than_blit("attach"@);
    reveal_strlit("fire");
    tools::other_than_blit("fire"@);
}

/// The tools for the draw log ask for what their names say. Recording is turned on unless
/// the argument is false, and a frame has as many draws as asked for, from 1 to 16384.
pub proof fn blit_tools_ask_for_what_they_say(a: ArgsView)
    ensures
        plan::request_of("blit_status"@, a) == (Request::Blit { blit: BlitTool::Status }),
        plan::request_of("blit_clear"@, a) == (Request::Blit { blit: BlitTool::Clear }),
        plan::request_of("blit_view"@, a) == (Request::Blit { blit: BlitTool::View }),
        plan::request_of("blit_screen"@, a) == (Request::Blit { blit: BlitTool::Screen }),
        plan::request_of("blit_enable"@, a) == (Request::Blit {
            blit: BlitTool::Enable { on: a.get("on"@) != Some(ArgView::Bool(false)) },
        }),
        plan::request_of("blit_frame"@, a) matches Request::Blit { blit: BlitTool::Frame { limit } }
            && is_asked(a, "limit"@, 16384, 1, 16384, limit as int),
{
    tools::names_have_marks();
    reveal_strlit("blit_status");
    reveal_strlit("blit_");
    assert("blit_status"@.take(5) =~= "blit_"@);
    reveal_strlit("blit_clear");
    reveal_strlit("blit_");
    assert("blit_clear"@.take(5) =~= "blit_"@);
    reveal_strlit("blit_view");
    reveal_strlit("blit_");
    assert("blit_view"@.take(5) =~= "blit_"@);
    reveal_strlit("blit_screen");
    reveal_strlit("blit_");
    assert("blit_screen"@.take(5) =~= "blit_"@);
    reveal_strlit("blit_enable");
    reveal_strlit("blit_");
    assert("blit_enable"@.take(5) =~= "blit_"@);
    reveal_strlit("blit_frame");
    reveal_strlit("blit_");
    assert("blit_frame"@.take(5) =~= "blit_"@);
}

/// The tools without arguments ask for what their names say.
pub proof fn plain_readings_ask_for_what_they_say(a: ArgsView)
    ensures
        plan::request_of("get_game_state"@, a) == Request::GetGameState,
        plan::request_of("luigi_raw"@, a) == Request::LuigiRaw,
        plan::request_of("player"@, a) == Request::Player,
        plan::request_of("map_header"@, a) == Request::MapHeader,
        plan::request_of("dump_status"@, a) == (Request::Dump { dump: DumpTool::Status }),
{
    tools::names_have_marks();
    reveal_strlit("get_game_state");
    tools::other_than_blit("get_game_state"@);
    reveal_strlit("luigi_raw");
    tools::other_than_blit("luigi_raw"@);
    reveal_strlit("player");
    tools::other_than_blit("player"@);
    reveal_strlit("map_header");
    tools::other_than_blit("map_header"@);
    reveal_strlit("dump_status");
    tools::other_than_blit("dump_status"@);
}

/// A dump is given the time that is asked for, from 100 to 60000 milliseconds, and 5000
/// where none is.
pub proof fn dump_has_its_budget(a: ArgsView)
    ensures
        plan::request_of("stat_dump"@, a) matches Request::Dump { dump: DumpTool::Dump { budget_ms } } && {
            &&& 100 <= budget_ms <= 60000
            &&& match a.get("budget_ms"@) {
                Some(ArgView::Int(n)) if 100 <= n <= 60000 => budget_ms == n,
                Some(ArgView::Int(n)) if 0 <= n < 100 => budget_ms == 100,
                Some(ArgView::Int(n)) if n > 60000 => budget_ms == 60000,
                Some(ArgView::Big(n)) => n > 60000 ==> budget_ms == 60000,
                _ => budget_ms == 5000,
            }
        },
{
    tools::names_have_marks();
    reveal_strlit("stat_dump");
    tools::other_than_blit("stat_dump"@);
}

/// A map is asked for whole, or in the box between two corners where the first is given.
pub proof fn map_is_asked_for_in_a_box(a: ArgsView)
    ensures
        plan::request_of("get_map"@, a) matches Request::GetMap { bbox } && {
            &&& bbox is Some <==> a.get("x0"@) is Some
            &&& bbox matches Some((x0, y0, x1, y1)) ==> {
                &&& is_int(a, "x0"@, x0)
                &&& is_int(a, "y0"@, y0)
                &&& is_int(a, "x1"@, x1)
                &&& is_int(a, "y1"@, y1)
            }
        },
        plan::request_of("probe_cell"@, a) matches Request::ProbeCell { x, y } && is_int(a, "x"@, x) && is_int(
            a,
            "y"@,
            y,
        ),
{
    tools::names_have_marks();
    reveal_strlit("get_map");
    tools::other_than_blit("get_map"@);
    reveal_strlit("probe_cell");
    tools::other_than_blit("probe_cell"@);
}

/// The stats are looked for by an integrity and a matter that are given and not negative, and
/// read where a hexadecimal address is given.
pub proof fn stats_are_asked_for_by_values(a: ArgsView)
    ensures
        match plan::request_of("find_stats"@, a) {
            Request::FindStats { integrity, matter } => {
                &&& integrity >= 0 && matter >= 0
                &&& is_given(a, "integrity"@, integrity)
                &&& is_given(a, "matter"@, matter)
            },
            Request::Refused { error } => {
                &&& error == Error::StatsArguments
                &&& forall|n: i32, m: i32|
                    !(n >= 0 && m >= 0 && #[trigger] is_given(a, "integrity"@, n)
                        && #[trigger] is_given(a, "matter"@, m))
            },
            _ => false,
        },
        plan::request_of("stats"@, a) == (match a.hex("base"@, 0xFFFF_FFFF_FFFF_FFFF) {
            Some(base) => Request::ReadStats { base: base as u64 },
            None => Request::Refused { error: Error::StatsBase },
        }),
        plan::request_of("fov"@, a) matches Request::Fov { cap } && match a.get("limit"@) {
            Some(ArgView::Int(n)) => n >= 0 ==> cap == n,
            _ => cap == 400,
        },
{
    tools::names_have_marks();
    reveal_strlit("find_stats");
    tools::other_than_blit("find_stats"@);
    reveal_strlit("stats");
    tools::other_than_blit("stats"@);
    reveal_strlit("fov");
    tools::other_than_blit("fov"@);
}

/// The scans are asked for by the integers that are given, each kept to 32 bits.
pub proof fn scans_are_asked_for_by_values(a: ArgsView)
    ensures
        plan::request_of("scan_new"@, a) matches Request::ScanNew { value } && is_int(a, "value"@, value),
        plan::request_of("scan_filter"@, a) matches Request::ScanFilter { value } && is_int(
            a,
            "value"@,
            value,
        ),
        plan::request_of("scan_changed"@, a) matches Request::ScanChanged { was } && is_int(
            a,
            "old"@,
            was,
        ),
        match plan::request_of("scan_ptr_to"@, a) {
            Request::ScanPtrTo { lo, hi } => {
                &&& lo <= hi
                &&& a.word("lo"@) == Some(lo as int)
                &&& a.word("hi"@) == Some(hi as int)
            },
            Request::Refused { error } => {
                &&& error == Error::PointerRange
                &&& a.word("lo"@) is None || a.word("hi"@) is None || a.word("hi"@)->0 < a.word(
                    "lo"@,
                )->0
            },
            _ => false,
        },
        match plan::request_of("scan_context"@, a) {
            Request::ScanContext { values, window } => {
                &&& values.len() > 0
                &&& values == a.ints("values"@)
                &&& is_asked(a, "window"@, 128, 8, 4096, window as int)
            },
            Request::Refused { error } => error == Error::ContextValues && a.ints(
                "values"@,
            ).len() == 0,
            _ => false,
        },
        match plan::request_of("read_window"@, a) {
            Request::ReadWindow { addr, words } => {
                &&& a.address("addr"@) == Some(addr as int)
                &&& is_asked(a, "words"@, 16, 1, 256, words as int)
            },
            Request::Refused { error } => error == Error::WindowAddress && a.address(
                "addr"@,
            ) is None,
            _ => false,
        },
{
    patterns_fit(a, "lo"@);
    patterns_fit(a, "hi"@);
    patterns_fit(a, "addr"@);
    tools::names_have_marks();
    reveal_strlit("scan_new");
    tools::other_than_blit("scan_new"@);
    reveal_strlit("scan_filter");
    tools::other_than_blit("scan_filter"@);
    reveal_strlit("scan_changed");
    tools::other_than_blit("scan_changed"@);
    reveal_strlit("scan_ptr_to");
    tools::other_than_blit("scan_ptr_to"@);
    reveal_strlit("scan_context");
    tools::other_than_blit("scan_context"@);
    reveal_strlit("read_window");
    tools::other_than_blit("read_window"@);
}

/// The mouse goes to the pixel that is given; a click is one of the button that is given, from
/// 1 to 5, and of the first where none is.
pub proof fn mouse_goes_where_asked(a: ArgsView)
    ensures
        plan::request_of("mouse_move"@, a) matches Request::Submit(Command::MouseMove { x, y }) && is_int(
            a,
            "x"@,
            x,
        ) && is_int(a, "y"@, y),
        plan::request_of("mouse_click"@, a) matches Request::Submit(Command::MouseClick { x, y, button })
            && is_int(a, "x"@, x) && is_int(a, "y"@, y) && is_asked(
            a,
            "button"@,
            1,
            1,
            5,
            button as int,
        ),
{
    tools::names_have_marks();
    reveal_strlit("mouse_move");
    tools::other_than_blit("mouse_move"@);
    reveal_strlit("mouse_click");
    tools::other_than_blit("mouse_click"@);
}

/// A text is sent as it is given. It has to be given, and to have no more than 64 bytes.
pub proof fn text_is_sent_as_given(a: ArgsView)
    ensures
        match a.get("text"@) {
            Some(ArgView::Text(t)) => plan::request_of("text"@, a) == if utf8::encode_utf8(t).len()
                <= 64 {
                Request::Submit(Command::Text(t))
            } else {
                Request::Refused {
                    error: Error::TextTooLong { len: utf8::encode_utf8(t).len() as usize },
                }
            },
            _ => plan::request_of("text"@, a) == (Request::Refused { error: Error::TextRequired }),
        },
{
    tools::names_have_marks();
    reveal_strlit("text");
    tools::other_than_blit("text"@);
}

/// A key is sent exactly if it is given as a number from 1 to 65535. Of its modifiers, bit
/// 0 tells that shift is held, bit 6 that control is and bit 8 that alt is, each if and only
/// if the argument of that name is true; no other bit is set. Its character is 0 unless
/// given, and it is pressed once unless a number from 1 to 255 is given.
pub proof fn key_is_sent_as_given(a: ArgsView)
    ensures
        match plan::request_of("key"@, a) {
            Request::Submit(Command::Key { keysym, mods, unicode, repeat }) => {
                &&& a.get("keysym"@) matches Some(ArgView::Int(n)) && 1 <= n <= 65535 && keysym == n
                &&& mods & 0x0001 == 0x0001 <==> a.get("shift"@) == Some(ArgView::Bool(true))
                &&& mods & 0x0040 == 0x0040 <==> a.get("ctrl"@) == Some(ArgView::Bool(true))
                &&& mods & 0x0100 == 0x0100 <==> a.get("alt"@) == Some(ArgView::Bool(true))
                &&& mods & 0xFEBE == 0
                &&& is_asked(a, "unicode"@, 0, 0, 65535, unicode as int)
                &&& is_asked(a, "repeat"@, 1, 1, 255, repeat as int)
            },
            Request::Refused { error } => {
                &&& error == Error::KeysymRange
                &&& !(a.get("keysym"@) matches Some(ArgView::Int(n)) && 1 <= n <= 65535)
            },
            _ => false,
        },
{
    tools::names_have_marks();
    reveal_strlit("key");
    tools::other_than_blit("key"@);
    let shift: u16 = if a.get("shift"@) == Some(ArgView::Bool(true)) {
        0x0001
    } else {
        0
    };
    let ctrl: u16 = if a.get("ctrl"@) == Some(ArgView::Bool(true)) {
        0x0040
    } else {
        0
    };
    let alt: u16 = if a.get("alt"@) == Some(ArgView::Bool(true)) {
        0x0100
    } else {
        0
    };
    let mods = plan::modifiers(a) as u16;
    assert(mods == ctrl + shift + alt);
    assert((mods & 0x0001 == 0x0001 <==> shift == 0x0001) && (mods & 0x0040 == 0x0040 <==> ctrl
        == 0x0040) && (mods & 0x0100 == 0x0100 <==> alt == 0x0100) && mods & 0xFEBE == 0)
        by (bit_vector)
        requires
            shift == 0 || shift == 0x0001,
            ctrl == 0 || ctrl == 0x0040,
            alt == 0 || alt == 0x0100,
            mods == ctrl + shift + alt,
    ;
}

} // verus!
