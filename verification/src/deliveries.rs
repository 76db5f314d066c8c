//! What a command leaves in the target's memory, byte by byte.

use crate::bytes;
use crate::layouts;
use crate::mailbox;
use crate::mailbox::Command;
use crate::memory::Stored;
use crate::text;
use crate::turns;
use vstd::prelude::*;
use vstd::utf8;

verus! {

/// The bytes of the mailbox at `addr` after the writes of a command.
pub open spec fn left_by(
    mem: spec_fn(int) -> u8,
    cmd: Command,
    addr: u64,
    seq: u32,
) -> Seq<u8> {
    Seq::new(108, |i: int| mailbox::patched_all(mem, mailbox::writes(cmd, addr, seq))(addr + i))
}

/// Whether a mailbox holds a command, with each field at its place. The command is told by
/// the letter that stands at 24.
pub open spec fn carries(m: Seq<u8>, cmd: Command) -> bool {
    match cmd {
        Command::Key { keysym, mods, unicode, repeat } => {
            &&& m[24] == 'K' as int
            &&& layouts::half_stands(m, 26, keysym as int)
            &&& layouts::half_stands(m, 28, mods as int)
            &&& layouts::half_stands(m, 30, unicode as int)
            &&& layouts::half_stands(m, 32, repeat as int)
        },
        Command::Text(t) => {
            let b = utf8::encode_utf8(t);
            &&& m[24] == 'T' as int
            &&& layouts::half_stands(m, 34, b.len() as int)
            &&& m.subrange(44, 44 + b.len() as int) == b
        },
        Command::MouseMove { x, y } => {
            &&& m[24] == 'M' as int
            &&& layouts::word_stands(m, 36, x as int)
            &&& layouts::word_stands(m, 40, y as int)
        },
        Command::MouseClick { x, y, button } => {
            &&& m[24] == 'B' as int
            &&& layouts::word_stands(m, 36, x as int)
            &&& layouts::word_stands(m, 40, y as int)
            &&& m[25] == button
        },
        Command::Dump { budget_ms } => {
            &&& m[24] == 'D' as int
            &&& layouts::half_stands(m, 32, budget_ms as int)
        },
    }
}

/// Whatever the mailbox held before: after its writes a command stands in it, each field at
/// its place, together with the number after the last one.
pub proof fn command_is_left_in_its_place(
    mem: spec_fn(int) -> u8,
    cmd: Command,
    addr: u64,
    seq: u32,
)
    requires
        addr + 108 <= u64::MAX,
        cmd.fits(),
    ensures
        carries(left_by(mem, cmd, addr, seq), cmd),
        layouts::word_stands(left_by(mem, cmd, addr, seq), 12, turns::number_after(seq)),
{
    let m = left_by(mem, cmd, addr, seq);
    let ws = mailbox::writes(cmd, addr, seq);
    assert(m =~= mailbox::mailbox_in(mailbox::patched_all(mem, ws), addr));
    mailbox::command_arrives(mem, cmd, addr, seq);
    layouts::word_stands_where_it_is_read(m, 12);
    match cmd {
        Command::Key { .. } => {
            layouts::half_stands_where_it_is_read(m, 26);
            layouts::half_stands_where_it_is_read(m, 28);
            layouts::half_stands_where_it_is_read(m, 30);
            layouts::half_stands_where_it_is_read(m, 32);
        },
        Command::Text(t) => {
            text_is_left(mem, t, addr, seq);
        },
        Command::MouseMove { .. } => {
            layouts::word_stands_where_it_is_read(m, 36);
            layouts::word_stands_where_it_is_read(m, 40);
        },
        Command::MouseClick { .. } => {
            layouts::word_stands_where_it_is_read(m, 36);
            layouts::word_stands_where_it_is_read(m, 40);
        },
        Command::Dump { .. } => {
            layouts::half_stands_where_it_is_read(m, 32);
        },
    }
}

proof fn text_is_left(mem: spec_fn(int) -> u8, t: Seq<char>, addr: u64, seq: u32)
    requires
        addr + 108 <= u64::MAX,
        Command::Text(t).fits(),
    ensures
        carries(left_by(mem, Command::Text(t), addr, seq), Command::Text(t)),
{
    let cmd = Command::Text(t);
    let m = left_by(mem, cmd, addr, seq);
    let ws = mailbox::writes(cmd, addr, seq);
    let b = utf8::encode_utf8(t);
    broadcast use {bytes::half_is_two_bytes, bytes::word_is_four_bytes};

    assert forall|i: int| 0 <= i < b.len() implies m[44 + i] == #[trigger] b[i] by {
        mailbox::last_write_wins(mem, ws, 1, addr + 44 + i);
    }
    assert(m.subrange(44, 44 + b.len() as int) =~= b);
    layouts::written_half_stands(b.len() as int);
    mailbox::last_write_wins(mem, ws, 2, addr + 34);
    mailbox::last_write_wins(mem, ws, 2, addr + 35);
    mailbox::last_write_wins(mem, ws, 3, addr + 24);
}

proof fn bytes_beside_stay(mem: spec_fn(int) -> u8, ws: Seq<Stored>, a: int)
    requires
        forall|i: int|
            0 <= i < ws.len() ==> !((#[trigger] ws[i]).addr <= a < ws[i].addr + ws[i].bytes.len()),
    ensures
        mailbox::patched_all(mem, ws)(a) == mem(a),
    decreases ws.len(),
{
    if ws.len() > 0 {
        let fewer = ws.drop_last();
        assert forall|i: int| 0 <= i < fewer.len() implies !((#[trigger] fewer[i]).addr <= a
            < fewer[i].addr + fewer[i].bytes.len()) by {
            assert(fewer[i] == ws[i]);
        }
        bytes_beside_stay(mem, fewer, a);
        assert(ws[ws.len() - 1] == ws.last());
    }
}

/// A command touches nothing but the mailbox's number and its payload: what marks the
/// mailbox, its version, what the shim writes to it and all memory around it stay.
pub proof fn nothing_else_is_touched(
    mem: spec_fn(int) -> u8,
    cmd: Command,
    addr: u64,
    seq: u32,
    a: int,
)
    requires
        addr + 108 <= u64::MAX,
        cmd.fits(),
        !(addr + 12 <= a < addr + 16),
        !(addr + 24 <= a < addr + 108),
    ensures
        mailbox::patched_all(mem, mailbox::writes(cmd, addr, seq))(a) == mem(a),
{
    let ws = mailbox::writes(cmd, addr, seq);
    broadcast use {bytes::half_is_two_bytes, bytes::word_is_four_bytes};

    mailbox::published_last(cmd, addr, seq);
    assert forall|i: int| 0 <= i < ws.len() implies !((#[trigger] ws[i]).addr <= a < ws[i].addr
        + ws[i].bytes.len()) by {
        if i == ws.len() - 1 {
            assert(ws[i] == ws.last());
        }
    }
    bytes_beside_stay(mem, ws, a);
}

/// Whether a command has a field at an offset of the mailbox.
pub open spec fn has_field(cmd: Command, o: int) -> bool {
    o == 24 || match cmd {
        Command::Key { .. } => 26 <= o < 34,
        Command::Text(t) => 34 <= o < 36 || 44 <= o < 44 + utf8::encode_utf8(t).len(),
        Command::MouseMove { .. } => 36 <= o < 44,
        Command::MouseClick { .. } => o == 25 || 36 <= o < 44,
        Command::Dump { .. } => 32 <= o < 34,
    }
}

/// Where a command has no field, its payload holds zeros.
pub proof fn payload_is_wiped(
    mem: spec_fn(int) -> u8,
    cmd: Command,
    addr: u64,
    seq: u32,
    o: int,
)
    requires
        addr + 108 <= u64::MAX,
        cmd.fits(),
        24 <= o < 108,
        !has_field(cmd, o),
    ensures
        left_by(mem, cmd, addr, seq)[o] == 0,
{
    let ws = mailbox::writes(cmd, addr, seq);
    broadcast use {bytes::half_is_two_bytes, bytes::word_is_four_bytes};

    if cmd is Text && o >= 44 {
        mailbox::last_write_wins(mem, ws, 1, addr + o);
    } else {
        mailbox::last_write_wins(mem, ws, 0, addr + o);
    }
}

/// How a command is called in messages tells all of its fields.
pub proof fn label_tells_the_fields(
    keysym: u16,
    mods: u16,
    unicode: u16,
    repeat: u16,
    x: i32,
    y: i32,
    button: u8,
    budget_ms: u16,
    t: Seq<char>,
    q: Seq<char>,
)
    ensures
        (Command::Key { keysym, mods, unicode, repeat }).label(q) == "key sym="@ + text::dec(
            keysym as int,
        ) + " mods=0x"@ + text::hex_low(mods as nat, 4) + " uni="@ + text::dec(
            unicode as int,
        ) + " x"@ + text::dec(repeat as int),
        Command::Text(t).label(q) == "text "@ + q,
        Command::Text(t).quoted() == text::debug(t),
        (Command::MouseMove { x, y }).label(q) == "mouse_move ("@ + text::dec(x as int) + ","@
            + text::dec(y as int) + ")"@,
        (Command::MouseClick { x, y, button }).label(q) == "mouse_click ("@ + text::dec(
            x as int,
        ) + ","@ + text::dec(y as int) + ") button="@ + text::dec(button as int),
        (Command::Dump { budget_ms }).label(q) == "stat_dump (budget "@ + text::dec(
            budget_ms as int,
        ) + "ms)"@,
{
}

} // verus!
