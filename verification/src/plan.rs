//! What a tool call asks for.

use crate::args;
use crate::args::{Args, ArgsView};
use crate::blit_job::BlitTool;
use crate::dump_job::DumpTool;
use crate::error::Error;
use crate::lexer::{chars, same};
use crate::mailbox::{
    Command, MailboxCmd, KMOD_LALT, KMOD_LCTRL, KMOD_LSHIFT, MB_TEXT_MAX, SDLK_KP0,
};
use vstd::prelude::*;
use vstd::utf8;

verus! {

/// What a tool call asks for.
#[derive(Debug)]
pub enum Plan {
    GetGameState,
    GetMap { bbox: Option<(i32, i32, i32, i32)> },
    LuigiRaw,
    /// Work on the score sheet channel.
    Dump { dump: DumpTool },
    /// Work on the draw log.
    Blit { blit: BlitTool },
    Player,
    FindStats { integrity: i32, matter: i32 },
    ReadStats { base: u64 },
    MapHeader,
    ScanNew { value: i32 },
    ScanFilter { value: i32 },
    ScanChanged { was: i32 },
    ScanPtrTo { lo: u32, hi: u32 },
    ScanContext { values: Vec<i32>, window: usize },
    ReadWindow { addr: u64, words: usize },
    Fov { cap: u64 },
    ProbeCell { x: i32, y: i32 },
    Submit(MailboxCmd),
    /// The arguments do not do.
    Refused { error: Error },
    /// No such tool.
    Unknown,
}

/// What a tool call asks for, as contracts speak of it.
pub enum Request {
    GetGameState,
    GetMap { bbox: Option<(i32, i32, i32, i32)> },
    LuigiRaw,
    Dump { dump: DumpTool },
    Blit { blit: BlitTool },
    Player,
    FindStats { integrity: i32, matter: i32 },
    ReadStats { base: u64 },
    MapHeader,
    ScanNew { value: i32 },
    ScanFilter { value: i32 },
    ScanChanged { was: i32 },
    ScanPtrTo { lo: u32, hi: u32 },
    ScanContext { values: Seq<i32>, window: usize },
    ReadWindow { addr: u64, words: usize },
    Fov { cap: u64 },
    ProbeCell { x: i32, y: i32 },
    Submit(Command),
    Refused { error: Error },
    Unknown,
}

impl View for Plan {
    type V = Request;

    open spec fn view(&self) -> Request {
        match *self {
            Plan::GetGameState => Request::GetGameState,
            Plan::GetMap { bbox } => Request::GetMap { bbox },
            Plan::LuigiRaw => Request::LuigiRaw,
            Plan::Dump { dump } => Request::Dump { dump },
            Plan::Blit { blit } => Request::Blit { blit },
            Plan::Player => Request::Player,
            Plan::FindStats { integrity, matter } => Request::FindStats { integrity, matter },
            Plan::ReadStats { base } => Request::ReadStats { base },
            Plan::MapHeader => Request::MapHeader,
            Plan::ScanNew { value } => Request::ScanNew { value },
            Plan::ScanFilter { value } => Request::ScanFilter { value },
            Plan::ScanChanged { was } => Request::ScanChanged { was },
            Plan::ScanPtrTo { lo, hi } => Request::ScanPtrTo { lo, hi },
            Plan::ScanContext { values, window } => Request::ScanContext {
                values: values@,
                window,
            },
            Plan::ReadWindow { addr, words } => Request::ReadWindow { addr, words },
            Plan::Fov { cap } => Request::Fov { cap },
            Plan::ProbeCell { x, y } => Request::ProbeCell { x, y },
            Plan::Submit(c) => Request::Submit(c@),
            Plan::Refused { error } => Request::Refused { error },
            Plan::Unknown => Request::Unknown,
        }
    }
}

/// Whether a name starts like those of the blit tools.
pub open spec fn is_blit(name: Seq<char>) -> bool {
    name.len() >= 5 && name.take(5) == "blit_"@
}

/// What a blit tool is asked for.
pub open spec fn blit_request(name: Seq<char>, a: ArgsView) -> BlitTool {
    if name == "blit_status"@ {
        BlitTool::Status
    } else if name == "blit_enable"@ {
        BlitTool::Enable { on: a.bool_or("on"@, true) }
    } else if name == "blit_clear"@ {
        BlitTool::Clear
    } else if name == "blit_view"@ {
        BlitTool::View
    } else if name == "blit_screen"@ {
        BlitTool::Screen
    } else if name == "blit_frame"@ {
        BlitTool::Frame { limit: a.clamped("limit"@, 16384, 1, 16384) as usize }
    } else {
        BlitTool::Unknown
    }
}

/// What a tool that works on scan candidates is asked for.
pub open spec fn scan_request(name: Seq<char>, a: ArgsView) -> Option<Request> {
    if name == "scan_new"@ {
        Some(Request::ScanNew { value: a.i32_or("value"@, 0) })
    } else if name == "scan_filter"@ {
        Some(Request::ScanFilter { value: a.i32_or("value"@, 0) })
    } else if name == "scan_changed"@ {
        Some(Request::ScanChanged { was: a.i32_or("old"@, 0) })
    } else if name == "scan_ptr_to"@ {
        Some(
            match (a.word("lo"@), a.word("hi"@)) {
                (Some(lo), Some(hi)) if hi >= lo => Request::ScanPtrTo {
                    lo: lo as u32,
                    hi: hi as u32,
                },
                _ => Request::Refused { error: Error::PointerRange },
            },
        )
    } else if name == "scan_context"@ {
        let values = a.ints("values"@);
        Some(
            if values.len() == 0 {
                Request::Refused { error: Error::ContextValues }
            } else {
                Request::ScanContext {
                    values,
                    window: a.clamped("window"@, 128, 8, 4096) as usize,
                }
            },
        )
    } else if name == "read_window"@ {
        Some(
            match a.address("addr"@) {
                Some(addr) => Request::ReadWindow {
                    addr: addr as u64,
                    words: a.clamped("words"@, 16, 1, 256) as usize,
                },
                None => Request::Refused { error: Error::WindowAddress },
            },
        )
    } else {
        None
    }
}

/// What a tool that reads the game is asked for.
pub open spec fn read_request(name: Seq<char>, a: ArgsView) -> Option<Request> {
    if name == "get_game_state"@ {
        Some(Request::GetGameState)
    } else if name == "get_map"@ {
        Some(
            Request::GetMap {
                bbox: if a.get("x0"@) is Some {
                    Some(
                        (
                            a.i32_or("x0"@, 0),
                            a.i32_or("y0"@, 0),
                            a.i32_or("x1"@, 0),
                            a.i32_or("y1"@, 0),
                        ),
                    )
                } else {
                    None
                },
            },
        )
    } else if name == "luigi_raw"@ {
        Some(Request::LuigiRaw)
    } else if name == "dump_status"@ {
        Some(Request::Dump { dump: DumpTool::Status })
    } else if name == "stat_dump"@ {
        Some(
            Request::Dump {
                dump: DumpTool::Dump {
                    budget_ms: args::clamp(a.nat_or("budget_ms"@, 5000), 100, 60_000) as u16,
                },
            },
        )
    } else if name == "player"@ {
        Some(Request::Player)
    } else if name == "find_stats"@ {
        let integrity = a.i32_or("integrity"@, -1);
        let matter = a.i32_or("matter"@, -1);
        Some(
            if integrity < 0 || matter < 0 {
                Request::Refused { error: Error::StatsArguments }
            } else {
                Request::FindStats { integrity, matter }
            },
        )
    } else if name == "stats"@ {
        Some(
            match a.hex("base"@, u64::MAX as int) {
                Some(base) => Request::ReadStats { base: base as u64 },
                None => Request::Refused { error: Error::StatsBase },
            },
        )
    } else if name == "map_header"@ {
        Some(Request::MapHeader)
    } else if name == "fov"@ {
        Some(Request::Fov { cap: args::bits64(a.int_or("limit"@, 400)) as u64 })
    } else if name == "probe_cell"@ {
        Some(Request::ProbeCell { x: a.i32_or("x"@, 0), y: a.i32_or("y"@, 0) })
    } else {
        None
    }
}

/// The keypad digit of a direction.
pub open spec fn direction(name: Seq<char>) -> Option<u16> {
    if name == "move_north"@ {
        Some(8)
    } else if name == "move_northeast"@ {
        Some(9)
    } else if name == "move_east"@ {
        Some(6)
    } else if name == "move_southeast"@ {
        Some(3)
    } else if name == "move_south"@ {
        Some(2)
    } else if name == "move_southwest"@ {
        Some(1)
    } else if name == "move_west"@ {
        Some(4)
    } else if name == "move_northwest"@ {
        Some(7)
    } else {
        None
    }
}

/// The modifier keys that are held.
pub open spec fn modifiers(a: ArgsView) -> int {
    (if a.bool_or("ctrl"@, false) {
        KMOD_LCTRL as int
    } else {
        0
    }) + (if a.bool_or("shift"@, false) {
        KMOD_LSHIFT as int
    } else {
        0
    }) + (if a.bool_or("alt"@, false) {
        KMOD_LALT as int
    } else {
        0
    })
}

/// A key that is pressed once, without modifiers.
pub open spec fn stroke(keysym: int, unicode: int) -> Request {
    Request::Submit(
        Command::Key { keysym: keysym as u16, mods: 0, unicode: unicode as u16, repeat: 1 },
    )
}

/// What a tool that acts on the game is asked for.
pub open spec fn act_request(name: Seq<char>, a: ArgsView) -> Request {
    if direction(name) is Some {
        stroke(SDLK_KP0 + direction(name)->Some_0, 0)
    } else if name == "key"@ {
        let keysym = a.int_or("keysym"@, 0);
        if !(1 <= keysym <= 65535) {
            Request::Refused { error: Error::KeysymRange }
        } else {
            Request::Submit(
                Command::Key {
                    keysym: keysym as u16,
                    mods: modifiers(a) as u16,
                    unicode: a.clamped("unicode"@, 0, 0, 65535) as u16,
                    repeat: a.clamped("repeat"@, 1, 1, 255) as u16,
                },
            )
        }
    } else if name == "text"@ {
        match a.text("text"@) {
            None => Request::Refused { error: Error::TextRequired },
            Some(t) => if utf8::encode_utf8(t).len() > MB_TEXT_MAX {
                Request::Refused {
                    error: Error::TextTooLong { len: utf8::encode_utf8(t).len() as usize },
                }
            } else {
                Request::Submit(Command::Text(t))
            },
        }
    } else if name == "mouse_move"@ {
        Request::Submit(Command::MouseMove { x: a.i32_or("x"@, 0), y: a.i32_or("y"@, 0) })
    } else if name == "mouse_click"@ {
        Request::Submit(
            Command::MouseClick {
                x: a.i32_or("x"@, 0),
                y: a.i32_or("y"@, 0),
                button: a.clamped("button"@, 1, 1, 5) as u8,
            },
        )
    } else if name == "attach"@ {
        stroke(97, 97)
    } else if name == "fire"@ {
        stroke(102, 102)
    } else {
        Request::Unknown
    }
}

/// What a tool call asks for.
pub open spec fn request_of(name: Seq<char>, a: ArgsView) -> Request {
    if is_blit(name) {
        Request::Blit { blit: blit_request(name, a) }
    } else {
        match read_request(name, a) {
            Some(r) => r,
            None => match scan_request(name, a) {
                Some(r) => r,
                None => act_request(name, a),
            },
        }
    }
}

fn starts_blit(name: &String) -> (r: bool)
    ensures
        r == is_blit(name@),
{
    let v: Vec<char> = chars(name.as_str());
    proof {
        reveal_strlit("blit_");
    }
    if v.len() >= 5 && v[0] == 'b' && v[1] == 'l' && v[2] == 'i' && v[3] == 't' && v[4] == '_' {
        assert(name@.take(5) =~= "blit_"@);
        true
    } else {
        proof {
            if is_blit(name@) {
                let h = name@.take(5);
                assert(h[0] == name@[0] && h[1] == name@[1] && h[2] == name@[2] && h[3] == name@[3]
                    && h[4] == name@[4]);
            }
        }
        false
    }
}

fn plan_blit(name: &String, a: &Args) -> (r: BlitTool)
    ensures
        r == blit_request(name@, a@),
{
    if same(name, "blit_status") {
        BlitTool::Status
    } else if same(name, "blit_enable") {
        BlitTool::Enable { on: a.bool_or("on", true) }
    } else if same(name, "blit_clear") {
        BlitTool::Clear
    } else if same(name, "blit_view") {
        BlitTool::View
    } else if same(name, "blit_screen") {
        BlitTool::Screen
    } else if same(name, "blit_frame") {
        BlitTool::Frame { limit: a.clamped("limit", 16384, 1, 16384) as usize }
    } else {
        BlitTool::Unknown
    }
}

fn plan_scan(name: &String, a: &Args) -> (r: Option<Plan>)
    ensures
        match r {
            Some(p) => scan_request(name@, a@) == Some(p@),
            None => scan_request(name@, a@) is None,
        },
{
    if same(name, "scan_new") {
        Some(Plan::ScanNew { value: a.i32_or("value", 0) })
    } else if same(name, "scan_filter") {
        Some(Plan::ScanFilter { value: a.i32_or("value", 0) })
    } else if same(name, "scan_changed") {
        Some(Plan::ScanChanged { was: a.i32_or("old", 0) })
    } else if same(name, "scan_ptr_to") {
        let lo: Option<u32> = a.word("lo");
        let hi: Option<u32> = a.word("hi");
        if let (Some(lo), Some(hi)) = (lo, hi) {
            if hi >= lo {
                return Some(Plan::ScanPtrTo { lo, hi });
            }
        }
        Some(Plan::Refused { error: Error::PointerRange })
    } else if same(name, "scan_context") {
        let values: Vec<i32> = a.ints("values");
        if values.len() == 0 {
            Some(Plan::Refused { error: Error::ContextValues })
        } else {
            Some(
                Plan::ScanContext { values, window: a.clamped("window", 128, 8, 4096) as usize },
            )
        }
    } else if same(name, "read_window") {
        match a.address("addr") {
            Some(addr) => Some(
                Plan::ReadWindow { addr, words: a.clamped("words", 16, 1, 256) as usize },
            ),
            None => Some(Plan::Refused { error: Error::WindowAddress }),
        }
    } else {
        None
    }
}

fn plan_read(name: &String, a: &Args) -> (r: Option<Plan>)
    ensures
        match r {
            Some(p) => read_request(name@, a@) == Some(p@),
            None => read_request(name@, a@) is None,
        },
{
    if same(name, "get_game_state") {
        Some(Plan::GetGameState)
    } else if same(name, "get_map") {
        let bbox: Option<(i32, i32, i32, i32)> = if a.get("x0").is_some() {
            Some((a.i32_or("x0", 0), a.i32_or("y0", 0), a.i32_or("x1", 0), a.i32_or("y1", 0)))
        } else {
            None
        };
        Some(Plan::GetMap { bbox })
    } else if same(name, "luigi_raw") {
        Some(Plan::LuigiRaw)
    } else if same(name, "dump_status") {
        Some(Plan::Dump { dump: DumpTool::Status })
    } else if same(name, "stat_dump") {
        let n: u64 = a.nat_or("budget_ms", 5000);
        let budget_ms: u16 = if n < 100 {
            100
        } else if n > 60_000 {
            60_000
        } else {
            n as u16
        };
        Some(Plan::Dump { dump: DumpTool::Dump { budget_ms } })
    } else if same(name, "player") {
        Some(Plan::Player)
    } else if same(name, "find_stats") {
        let integrity: i32 = a.i32_or("integrity", -1);
        let matter: i32 = a.i32_or("matter", -1);
        if integrity < 0 || matter < 0 {
            Some(Plan::Refused { error: Error::StatsArguments })
        } else {
            Some(Plan::FindStats { integrity, matter })
        }
    } else if same(name, "stats") {
        match a.hex("base", u64::MAX) {
            Some(base) => Some(Plan::ReadStats { base }),
            None => Some(Plan::Refused { error: Error::StatsBase }),
        }
    } else if same(name, "map_header") {
        Some(Plan::MapHeader)
    } else if same(name, "fov") {
        Some(Plan::Fov { cap: args::wide_bits(a.int_or("limit", 400)) })
    } else if same(name, "probe_cell") {
        Some(Plan::ProbeCell { x: a.i32_or("x", 0), y: a.i32_or("y", 0) })
    } else {
        None
    }
}

fn digit_of(name: &String) -> (r: Option<u16>)
    ensures
        r == direction(name@),
        r matches Some(n) ==> n <= 9,
{
    if same(name, "move_north") {
        Some(8)
    } else if same(name, "move_northeast") {
        Some(9)
    } else if same(name, "move_east") {
        Some(6)
    } else if same(name, "move_southeast") {
        Some(3)
    } else if same(name, "move_south") {
        Some(2)
    } else if same(name, "move_southwest") {
        Some(1)
    } else if same(name, "move_west") {
        Some(4)
    } else if same(name, "move_northwest") {
        Some(7)
    } else {
        None
    }
}

fn held_modifiers(a: &Args) -> (r: u16)
    ensures
        r == modifiers(a@),
{
    let ctrl: u16 = if a.bool_or("ctrl", false) {
        KMOD_LCTRL
    } else {
        0
    };
    let shift: u16 = if a.bool_or("shift", false) {
        KMOD_LSHIFT
    } else {
        0
    };
    let alt: u16 = if a.bool_or("alt", false) {
        KMOD_LALT
    } else {
        0
    };
    ctrl + shift + alt
}

/// What a tool that acts on the game is asked for.
pub fn execute_tool(name: &String, a: &Args) -> (r: Plan)
    ensures
        r@ == act_request(name@, a@),
        r matches Plan::Submit(c) ==> c@.fits(),
{
    if let Some(n) = digit_of(name) {
        return Plan::Submit(
            MailboxCmd::Key { keysym: SDLK_KP0 + n, mods: 0, unicode: 0, repeat: 1 },
        );
    }
    if same(name, "key") {
        let keysym: i64 = a.int_or("keysym", 0);
        if keysym < 1 || keysym > 65535 {
            return Plan::Refused { error: Error::KeysymRange };
        }
        Plan::Submit(
            MailboxCmd::Key {
                keysym: keysym as u16,
                mods: held_modifiers(a),
                unicode: a.clamped("unicode", 0, 0, 65535) as u16,
                repeat: a.clamped("repeat", 1, 1, 255) as u16,
            },
        )
    } else if same(name, "text") {
        match a.text("text") {
            None => Plan::Refused { error: Error::TextRequired },
            Some(t) => {
                let bytes: &[u8] = t.as_str().as_bytes();
                let len: usize = bytes.len();
                if len > MB_TEXT_MAX {
                    Plan::Refused { error: Error::TextTooLong { len } }
                } else {
                    Plan::Submit(MailboxCmd::Text(t.clone()))
                }
            },
        }
    } else if same(name, "mouse_move") {
        Plan::Submit(MailboxCmd::MouseMove { x: a.i32_or("x", 0), y: a.i32_or("y", 0) })
    } else if same(name, "mouse_click") {
        Plan::Submit(
            MailboxCmd::MouseClick {
                x: a.i32_or("x", 0),
                y: a.i32_or("y", 0),
                button: a.clamped("button", 1, 1, 5) as u8,
            },
        )
    } else if same(name, "attach") {
        Plan::Submit(MailboxCmd::Key { keysym: 97, mods: 0, unicode: 97, repeat: 1 })
    } else if same(name, "fire") {
        Plan::Submit(MailboxCmd::Key { keysym: 102, mods: 0, unicode: 102, repeat: 1 })
    } else {
        Plan::Unknown
    }
}

/// What a tool call asks for.
pub fn plan(name: &String, a: &Args) -> (r: Plan)
    ensures
        r@ == request_of(name@, a@),
        r matches Plan::Submit(c) ==> c@.fits(),
{
    if starts_blit(name) {
        return Plan::Blit { blit: plan_blit(name, a) };
    }
    if let Some(p) = plan_read(name, a) {
        return p;
    }
    if let Some(p) = plan_scan(name, a) {
        return p;
    }
    execute_tool(name, a)
}

} // verus!
