//! What is told of failures.

use crate::error::Error;
use crate::scoresheet;
use crate::text;
use vstd::prelude::*;

verus! {

/// What is told of a memory that cannot be used: which words, which addresses and which
/// numbers.
pub proof fn reading_failures_are_told(
    os: Seq<char>,
    code: i32,
    magic: u32,
    check: u32,
    stamp: u32,
    address: usize,
    end: usize,
    addr: usize,
)
    ensures
        (Error::ProtectFailed { code }).text(os) == "mach_vm_protect failed: "@
            + text::dec(code as int),
        (Error::MagicNotFound { magic, check }).text(os) == "memory magic 0x"@
            + text::hex(magic as nat, 8)
            + "/0x"@
            + text::hex(check as nat, 8)
            + " not found"@,
        (Error::MagicNotInRegions { magic, check }).text(os) == "magic 0x"@
            + text::hex(magic as nat, 8)
            + "/0x"@
            + text::hex(check as nat, 8)
            + " not found in memory regions"@,
        (Error::NoStatusOs { code }).text(os) == "no StatmindLuigiStatus in the target ("@
            + os
            + ") -- the patched SDL.dll is not loaded, or it predates per-build address publication"@,
        (Error::NoStatusNotFound { magic, check }).text(os) == "no StatmindLuigiStatus in the target (memory magic 0x"@
            + text::hex(magic as nat, 8)
            + "/0x"@
            + text::hex(check as nat, 8)
            + " not found) -- the patched SDL.dll is not loaded, or it predates per-build address publication"@,
        (Error::NoStatusNotInRegions { magic, check }).text(os) == "no StatmindLuigiStatus in the target (magic 0x"@
            + text::hex(magic as nat, 8)
            + "/0x"@
            + text::hex(check as nat, 8)
            + " not found in memory regions) -- the patched SDL.dll is not loaded, or it predates per-build address publication"@,
        (Error::UnknownBuild { stamp }).text(os) == "the shim published no addresses (build stamp 0x"@
            + text::hex(stamp as nat, 8)
            + "); it did not recognise this executable"@,
        (Error::NotWritable { address, end }).text(os) == "0x"@
            + text::hex(address as nat, 0)
            + "..0x"@
            + text::hex(end as nat, 0)
            + " is not writable"@,
        (Error::NullTable { addr }).text(os) == "cell table pointer at 0x"@
            + text::hex(addr as nat, 0)
            + " is null"@,
        (Error::NullFov { addr }).text(os) == "FOV object pointer at 0x"@
            + text::hex(addr as nat, 8)
            + " is null -- no map loaded yet"@,
        (Error::WriteFailed { code }).text(os) == "Failed to write memory: "@ + os,
        (Error::Os { code }).text(os) == os,
{
}

/// What is told of a map that cannot be shown: its size, its place and the cells that were
/// asked for.
pub proof fn map_failures_are_told(
    os: Seq<char>,
    width: i32,
    height: i32,
    map_obj: usize,
    x0: i32,
    y0: i32,
    x1: i32,
    y1: i32,
    x: i32,
    y: i32,
    action_ready: i32,
    depth: i32,
    map_data: u32,
)
    ensures
        (Error::Implausible { width, height, map_obj }).text(os) == "implausible map dimensions "@
            + text::dec(width as int)
            + "x"@
            + text::dec(height as int)
            + " at 0x"@
            + text::hex(map_obj as nat, 0)
            + " -- not in a map yet, or the address is wrong for this build"@,
        (Error::EmptyBox { x0, y0, x1, y1 }).text(os) == "empty bounding box ("@
            + text::dec(x0 as int)
            + ","@
            + text::dec(y0 as int)
            + ")..("@
            + text::dec(x1 as int)
            + ","@
            + text::dec(y1 as int)
            + ")"@,
        (Error::OutsideMap { x, y, width, height }).text(os) == "("@
            + text::dec(x as int)
            + ","@
            + text::dec(y as int)
            + ") is outside the "@
            + text::dec(width as int)
            + "x"@
            + text::dec(height as int)
            + " map"@,
        (Error::NoPlayer { action_ready, width, height, depth, map_data }).text(os) == "LuigiAi.player is NULL (actionReady="@
            + text::dec(action_ready as int)
            + ", map="@
            + text::dec(width as int)
            + "x"@
            + text::dec(height as int)
            + ", depth="@
            + text::dec(depth as int)
            + ", mapData=0x"@
            + text::hex(map_data as nat, 0)
            + "). The struct exists but no map is loaded yet -- get to an actual map, then retry. Use luigi_raw to see every field."@,
        (Error::NoMapData { width, height, map_data }).text(os) == "LuigiAi.mapData is not allocated ("@
            + text::dec(width as int)
            + "x"@
            + text::dec(height as int)
            + ", mapData=0x"@
            + text::hex(map_data as nat, 0)
            + "). Note that on Beta 17.1 the per-tile mirror is a stub even once this is allocated -- use get_map."@,
{
}

/// What is told of a tool that cannot do its work: the numbers that stand in the way.
pub proof fn tool_failures_are_told(
    os: Seq<char>,
    count: u32,
    version: u32,
    len: usize,
    status: i32,
)
    ensures
        (Error::DrawCount { count }).text(os) == "draw log count "@
            + text::dec(count as int)
            + " exceeds the 16384 cap"@,
        (Error::MailboxVersion { version }).text(os) == "mailbox version "@
            + text::dec(version as int)
            + " but this build expects 2 -- rebuild SDL.dll from SDL-1.2/src/statmind_ipc.h"@,
        (Error::TextTooLong { len }).text(os) == "text: "@
            + text::dec(len as int)
            + " bytes exceeds the 64-byte mailbox buffer"@,
        (Error::DumpUnavailable { status }).text(os) == "stat_dump unavailable: "@
            + scoresheet::status_words(status as int)
            + " (status "@
            + text::dec(status as int)
            + ")"@,
{
}

} // verus!
