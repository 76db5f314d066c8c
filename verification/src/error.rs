//! Everything that a request can be refused with, and the words for it.

use crate::scoresheet;
use crate::scoresheet::status_text;
use crate::text;
use crate::text::{push_dec, push_dec_u, push_hex};
use vstd::prelude::*;
use vstd::string::StringExecFns;

verus! {

/// Why a request failed.
#[derive(Debug, Clone, Copy, PartialEq, Eq, Structural)]
pub enum Error {
    /// Reading or enumerating the target failed with this operating system code.
    Os { code: i32 },
    /// Writing the target failed with this operating system code.
    WriteFailed { code: i32 },
    /// The kernel refused to make the target's memory writable.
    ProtectFailed { code: i32 },
    /// The target's regions cannot be enumerated on this system.
    RegionsUnsupported,
    /// No mapped page holds the pair, in the walk over `/proc` regions.
    MagicNotFound { magic: u32, check: u32 },
    /// No region holds the pair, in the walk over kernel regions.
    MagicNotInRegions { magic: u32, check: u32 },
    /// The status block was not found because the walk failed.
    NoStatusOs { code: i32 },
    /// The status block was not found in the `/proc` regions.
    NoStatusNotFound { magic: u32, check: u32 },
    /// The status block was not found in the kernel's regions.
    NoStatusNotInRegions { magic: u32, check: u32 },
    /// The status block holds no addresses for this executable.
    UnknownBuild { stamp: u32 },
    /// An address range runs past the end of the address space.
    AddressOverflow,
    /// No single writable region covers the range.
    NotWritable { address: usize, end: usize },
    /// The location is no known kind of map.
    UnknownMap,
    /// The map object holds dimensions that no map has.
    Implausible { width: i32, height: i32, map_obj: usize },
    /// The map object points at no cell table.
    NullTable { addr: usize },
    /// The bounding box, clamped to the map, holds no cell.
    EmptyBox { x0: i32, y0: i32, x1: i32, y1: i32 },
    /// The coordinates lie outside the map.
    OutsideMap { x: i32, y: i32, width: i32, height: i32 },
    /// The player record is unknown on this build.
    NoPlayerRecord,
    /// No field-of-view object exists yet.
    NullFov { addr: usize },
    /// The draw log claims more draws than it can hold.
    DrawCount { count: u32 },
    /// No blit log was found.
    BlitNotFound,
    /// No scoresheet block was found.
    ScoresheetNotFound,
    /// The mirror holds no player yet.
    NoPlayer { action_ready: i32, width: i32, height: i32, depth: i32, map_data: u32 },
    /// The mirror holds no tiles.
    NoMapData { width: i32, height: i32, map_data: u32 },
    /// The mailbox speaks another protocol version.
    MailboxVersion { version: u32 },
    /// `key` was called without a usable key symbol.
    KeysymRange,
    /// `text` was called without a text.
    TextRequired,
    /// The text does not fit into the mailbox.
    TextTooLong { len: usize },
    /// `find_stats` was called without both values.
    StatsArguments,
    /// `stats` was called without a base address.
    StatsBase,
    /// `scan_ptr_to` was called without an ordered range.
    PointerRange,
    /// `scan_context` was called without values.
    ContextValues,
    /// The game's writer cannot be called.
    DumpUnavailable { status: i32 },
    /// `read_window` was called without an address.
    WindowAddress,
}

impl Error {
    /// The words for this failure. `os` describes the operating system's code, where
    /// there is one.
    pub open spec fn text(self, os: Seq<char>) -> Seq<char> {
        match self {
            Error::Os { .. } => os,
            Error::WriteFailed { .. } => "Failed to write memory: "@
                + os,
            Error::ProtectFailed { code } => "mach_vm_protect failed: "@
                + text::dec(code as int),
            Error::RegionsUnsupported => "region enumeration is macOS-only; a Linux port needs /proc/<pid>/maps"@,
            Error::MagicNotFound { magic, check } => "memory magic 0x"@
                + text::hex(magic as nat, 8)
                + "/0x"@
                + text::hex(check as nat, 8)
                + " not found"@,
            Error::MagicNotInRegions { magic, check } => "magic 0x"@
                + text::hex(magic as nat, 8)
                + "/0x"@
                + text::hex(check as nat, 8)
                + " not found in memory regions"@,
            Error::NoStatusOs { .. } => "no StatmindLuigiStatus in the target ("@
                + os
                + ") -- the patched SDL.dll is not loaded, or it predates per-build address publication"@,
            Error::NoStatusNotFound { magic, check } => "no StatmindLuigiStatus in the target (memory magic 0x"@
                + text::hex(magic as nat, 8)
                + "/0x"@
                + text::hex(check as nat, 8)
                + " not found) -- the patched SDL.dll is not loaded, or it predates per-build address publication"@,
            Error::NoStatusNotInRegions { magic, check } => "no StatmindLuigiStatus in the target (magic 0x"@
                + text::hex(magic as nat, 8)
                + "/0x"@
                + text::hex(check as nat, 8)
                + " not found in memory regions) -- the patched SDL.dll is not loaded, or it predates per-build address publication"@,
            Error::UnknownBuild { stamp } => "the shim published no addresses (build stamp 0x"@
                + text::hex(stamp as nat, 8)
                + "); it did not recognise this executable"@,
            Error::AddressOverflow => "address overflow"@,
            Error::NotWritable { address, end } => "0x"@
                + text::hex(address as nat, 0)
                + "..0x"@
                + text::hex(end as nat, 0)
                + " is not writable"@,
            Error::UnknownMap => "Failed to convert map type!"@,
            Error::Implausible { width, height, map_obj } => "implausible map dimensions "@
                + text::dec(width as int)
                + "x"@
                + text::dec(height as int)
                + " at 0x"@
                + text::hex(map_obj as nat, 0)
                + " -- not in a map yet, or the address is wrong for this build"@,
            Error::NullTable { addr } => "cell table pointer at 0x"@
                + text::hex(addr as nat, 0)
                + " is null"@,
            Error::EmptyBox { x0, y0, x1, y1 } => "empty bounding box ("@
                + text::dec(x0 as int)
                + ","@
                + text::dec(y0 as int)
                + ")..("@
                + text::dec(x1 as int)
                + ","@
                + text::dec(y1 as int)
                + ")"@,
            Error::OutsideMap { x, y, width, height } => "("@
                + text::dec(x as int)
                + ","@
                + text::dec(y as int)
                + ") is outside the "@
                + text::dec(width as int)
                + "x"@
                + text::dec(height as int)
                + " map"@,
            Error::NoPlayerRecord => "the player record has never been located on this build; it is zero-fill with no reference to pin it, so it has to be found by differential scan and added to statmind_build.h"@,
            Error::NullFov { addr } => "FOV object pointer at 0x"@
                + text::hex(addr as nat, 8)
                + " is null -- no map loaded yet"@,
            Error::DrawCount { count } => "draw log count "@
                + text::dec(count as int)
                + " exceeds the 16384 cap"@,
            Error::BlitNotFound => "blit log not found -- is the rebuilt SDL.dll loaded? (the game must be restarted after replacing it)"@,
            Error::ScoresheetNotFound => "scoresheet block not found -- the loaded SDL.dll predates the dump support (rebuild with harness/build-sdl.sh and restart the game)"@,
            Error::NoPlayer { action_ready, width, height, depth, map_data } => "LuigiAi.player is NULL (actionReady="@
                + text::dec(action_ready as int)
                + ", map="@
                + text::dec(width as int)
                + "x"@
                + text::dec(height as int)
                + ", depth="@
                + text::dec(depth as int)
                + ", mapData=0x"@
                + text::hex(map_data as nat, 0)
                + "). The struct exists but no map is loaded yet -- get to an actual map, then retry. Use luigi_raw to see every field."@,
            Error::NoMapData { width, height, map_data } => "LuigiAi.mapData is not allocated ("@
                + text::dec(width as int)
                + "x"@
                + text::dec(height as int)
                + ", mapData=0x"@
                + text::hex(map_data as nat, 0)
                + "). Note that on Beta 17.1 the per-tile mirror is a stub even once this is allocated -- use get_map."@,
            Error::MailboxVersion { version } => "mailbox version "@
                + text::dec(version as int)
                + " but this build expects 2 -- rebuild SDL.dll from SDL-1.2/src/statmind_ipc.h"@,
            Error::KeysymRange => "key: `keysym` must be 1..65535 (an SDLK_* value)"@,
            Error::TextRequired => "text: `text` is required"@,
            Error::TextTooLong { len } => "text: "@
                + text::dec(len as int)
                + " bytes exceeds the 64-byte mailbox buffer"@,
            Error::StatsArguments => "find_stats: `integrity` and `matter` are required (read them off the HUD; both carry across maps)"@,
            Error::StatsBase => "stats: `base` required as \"0x...\""@,
            Error::PointerRange => "scan_ptr_to: need `lo` and `hi` with hi >= lo"@,
            Error::ContextValues => "scan_context: `values` must be a non-empty array of ints"@,
            Error::DumpUnavailable { status } => "stat_dump unavailable: "@
                + scoresheet::status_words(status as int)
                + " (status "@
                + text::dec(status as int)
                + ")"@,
            Error::WindowAddress => "read_window: `addr` required (int or \"0x...\")"@,
        }
    }

    /// The words for this failure.
    pub fn to_text(&self, os: &str) -> (r: String)
        ensures
            r@ == self.text(os@),
    {
        match *self {
            Error::Os { .. } => os.to_owned(),
            Error::WriteFailed { .. } => {
                let mut r: String = "Failed to write memory: ".to_owned();
                r.append(os);
                r
            },
            Error::ProtectFailed { code } => {
                let mut r: String = "mach_vm_protect failed: ".to_owned();
                push_dec(&mut r, code as i64);
                r
            },
            Error::RegionsUnsupported => "region enumeration is macOS-only; a Linux port needs /proc/<pid>/maps".to_owned(),
            Error::MagicNotFound { magic, check } => {
                let mut r: String = "memory magic 0x".to_owned();
                push_hex(&mut r, magic as u64, 8);
                r.append("/0x");
                push_hex(&mut r, check as u64, 8);
                r.append(" not found");
                r
            },
            Error::MagicNotInRegions { magic, check } => {
                let mut r: String = "magic 0x".to_owned();
                push_hex(&mut r, magic as u64, 8);
                r.append("/0x");
                push_hex(&mut r, check as u64, 8);
                r.append(" not found in memory regions");
                r
            },
            Error::NoStatusOs { .. } => {
                let mut r: String = "no StatmindLuigiStatus in the target (".to_owned();
                r.append(os);
                r.append(") -- the patched SDL.dll is not loaded, or it predates per-build address publication");
                r
            },
            Error::NoStatusNotFound { magic, check } => {
                let mut r: String = "no StatmindLuigiStatus in the target (memory magic 0x".to_owned();
                push_hex(&mut r, magic as u64, 8);
                r.append("/0x");
                push_hex(&mut r, check as u64, 8);
                r.append(" not found) -- the patched SDL.dll is not loaded, or it predates per-build address publication");
                r
            },
            Error::NoStatusNotInRegions { magic, check } => {
                let mut r: String = "no StatmindLuigiStatus in the target (magic 0x".to_owned();
                push_hex(&mut r, magic as u64, 8);
                r.append("/0x");
                push_hex(&mut r, check as u64, 8);
                r.append(" not found in memory regions) -- the patched SDL.dll is not loaded, or it predates per-build address publication");
                r
            },
            Error::UnknownBuild { stamp } => {
                let mut r: String = "the shim published no addresses (build stamp 0x".to_owned();
                push_hex(&mut r, stamp as u64, 8);
                r.append("); it did not recognise this executable");
                r
            },
            Error::AddressOverflow => "address overflow".to_owned(),
            Error::NotWritable { address, end } => {
                let mut r: String = "0x".to_owned();
                push_hex(&mut r, address as u64, 0);
                r.append("..0x");
                push_hex(&mut r, end as u64, 0);
                r.append(" is not writable");
                r
            },
            Error::UnknownMap => "Failed to convert map type!".to_owned(),
            Error::Implausible { width, height, map_obj } => {
                let mut r: String = "implausible map dimensions ".to_owned();
                push_dec(&mut r, width as i64);
                r.append("x");
                push_dec(&mut r, height as i64);
                r.append(" at 0x");
                push_hex(&mut r, map_obj as u64, 0);
                r.append(" -- not in a map yet, or the address is wrong for this build");
                r
            },
            Error::NullTable { addr } => {
                let mut r: String = "cell table pointer at 0x".to_owned();
                push_hex(&mut r, addr as u64, 0);
                r.append(" is null");
                r
            },
            Error::EmptyBox { x0, y0, x1, y1 } => {
                let mut r: String = "empty bounding box (".to_owned();
                push_dec(&mut r, x0 as i64);
                r.append(",");
                push_dec(&mut r, y0 as i64);
                r.append(")..(");
                push_dec(&mut r, x1 as i64);
                r.append(",");
                push_dec(&mut r, y1 as i64);
                r.append(")");
                r
            },
            Error::OutsideMap { x, y, width, height } => {
                let mut r: String = "(".to_owned();
                push_dec(&mut r, x as i64);
                r.append(",");
                push_dec(&mut r, y as i64);
                r.append(") is outside the ");
                push_dec(&mut r, width as i64);
                r.append("x");
                push_dec(&mut r, height as i64);
                r.append(" map");
                r
            },
            Error::NoPlayerRecord => "the player record has never been located on this build; it is zero-fill with no reference to pin it, so it has to be found by differential scan and added to statmind_build.h".to_owned(),
            Error::NullFov { addr } => {
                let mut r: String = "FOV object pointer at 0x".to_owned();
                push_hex(&mut r, addr as u64, 8);
                r.append(" is null -- no map loaded yet");
                r
            },
            Error::DrawCount { count } => {
                let mut r: String = "draw log count ".to_owned();
                push_dec(&mut r, count as i64);
                r.append(" exceeds the 16384 cap");
                r
            },
            Error::BlitNotFound => "blit log not found -- is the rebuilt SDL.dll loaded? (the game must be restarted after replacing it)".to_owned(),
            Error::ScoresheetNotFound => "scoresheet block not found -- the loaded SDL.dll predates the dump support (rebuild with harness/build-sdl.sh and restart the game)".to_owned(),
            Error::NoPlayer { action_ready, width, height, depth, map_data } => {
                let mut r: String = "LuigiAi.player is NULL (actionReady=".to_owned();
                push_dec(&mut r, action_ready as i64);
                r.append(", map=");
                push_dec(&mut r, width as i64);
                r.append("x");
                push_dec(&mut r, height as i64);
                r.append(", depth=");
                push_dec(&mut r, depth as i64);
                r.append(", mapData=0x");
                push_hex(&mut r, map_data as u64, 0);
                r.append("). The struct exists but no map is loaded yet -- get to an actual map, then retry. Use luigi_raw to see every field.");
                r
            },
            Error::NoMapData { width, height, map_data } => {
                let mut r: String = "LuigiAi.mapData is not allocated (".to_owned();
                push_dec(&mut r, width as i64);
                r.append("x");
                push_dec(&mut r, height as i64);
                r.append(", mapData=0x");
                push_hex(&mut r, map_data as u64, 0);
                r.append("). Note that on Beta 17.1 the per-tile mirror is a stub even once this is allocated -- use get_map.");
                r
            },
            Error::MailboxVersion { version } => {
                let mut r: String = "mailbox version ".to_owned();
                push_dec(&mut r, version as i64);
                r.append(" but this build expects 2 -- rebuild SDL.dll from SDL-1.2/src/statmind_ipc.h");
                r
            },
            Error::KeysymRange => "key: `keysym` must be 1..65535 (an SDLK_* value)".to_owned(),
            Error::TextRequired => "text: `text` is required".to_owned(),
            Error::TextTooLong { len } => {
                let mut r: String = "text: ".to_owned();
                push_dec_u(&mut r, len as u64);
                r.append(" bytes exceeds the 64-byte mailbox buffer");
                r
            },
            Error::StatsArguments => "find_stats: `integrity` and `matter` are required (read them off the HUD; both carry across maps)".to_owned(),
            Error::StatsBase => "stats: `base` required as \"0x...\"".to_owned(),
            Error::PointerRange => "scan_ptr_to: need `lo` and `hi` with hi >= lo".to_owned(),
            Error::ContextValues => "scan_context: `values` must be a non-empty array of ints".to_owned(),
            Error::DumpUnavailable { status } => {
                let mut r: String = "stat_dump unavailable: ".to_owned();
                r.append(status_text(status));
                r.append(" (status ");
                push_dec(&mut r, status as i64);
                r.append(")");
                r
            },
            Error::WindowAddress => "read_window: `addr` required (int or \"0x...\")".to_owned(),
        }
    }
}

} // verus!
