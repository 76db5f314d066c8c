//! The mailbox through which commands reach the game.
//!
//! A command is written field by field. The shim takes it when the sequence number
//! changes, so that number is written last, and acknowledges it by copying the number.

use crate::bytes;
use crate::bytes::{store16, store32, to_u32};
use crate::memory::{Stored, Write};
use crate::text;
use crate::text::{debug_text, push_dec, push_dec_u, push_hex_low};
use vstd::prelude::*;
use vstd::string::StringExecFns;
use vstd::utf8;

verus! {

broadcast use {bytes::half_is_two_bytes, bytes::word_is_four_bytes};

/// Field offsets of the mailbox.
pub const MB_VERSION: u64 = 8;

pub const MB_SEQ: u64 = 12;

pub const MB_ACK: u64 = 16;

pub const MB_STATUS: u64 = 20;

pub const MB_COMMAND: u64 = 24;

pub const MB_BUTTON: u64 = 25;

pub const MB_KEYSYM: u64 = 26;

pub const MB_MODIFIERS: u64 = 28;

pub const MB_UNICODE: u64 = 30;

pub const MB_REPEAT: u64 = 32;

pub const MB_TEXT_LEN: u64 = 34;

pub const MB_MOUSE_X: u64 = 36;

pub const MB_MOUSE_Y: u64 = 40;

pub const MB_TEXT: u64 = 44;

pub const MB_SIZE: usize = 108;

pub const MB_TEXT_MAX: usize = 64;

/// The length of the part that a command fills.
pub const MB_PAYLOAD: usize = 84;

/// The protocol version that is spoken here.
pub const MB_EXPECT_VERSION: u32 = 2;

/// Modifier bits, left-hand keys.
pub const KMOD_LSHIFT: u16 = 0x0001;

pub const KMOD_LCTRL: u16 = 0x0040;

pub const KMOD_LALT: u16 = 0x0100;

/// The first key of the keypad.
pub const SDLK_KP0: u16 = 256;

/// A command for the game.
#[derive(Debug)]
pub enum MailboxCmd {
    Key { keysym: u16, mods: u16, unicode: u16, repeat: u16 },
    Text(String),
    MouseMove { x: i32, y: i32 },
    MouseClick { x: i32, y: i32, button: u8 },
    /// Writes the score sheet. The shim waits this long for a frame to end.
    Dump { budget_ms: u16 },
}

/// A command, as contracts speak of it.
pub enum Command {
    Key { keysym: u16, mods: u16, unicode: u16, repeat: u16 },
    Text(Seq<char>),
    MouseMove { x: i32, y: i32 },
    MouseClick { x: i32, y: i32, button: u8 },
    Dump { budget_ms: u16 },
}

impl View for MailboxCmd {
    type V = Command;

    open spec fn view(&self) -> Command {
        match self {
            MailboxCmd::Key { keysym, mods, unicode, repeat } => Command::Key {
                keysym: *keysym,
                mods: *mods,
                unicode: *unicode,
                repeat: *repeat,
            },
            MailboxCmd::Text(t) => Command::Text(t@),
            MailboxCmd::MouseMove { x, y } => Command::MouseMove { x: *x, y: *y },
            MailboxCmd::MouseClick { x, y, button } => Command::MouseClick {
                x: *x,
                y: *y,
                button: *button,
            },
            MailboxCmd::Dump { budget_ms } => Command::Dump { budget_ms: *budget_ms },
        }
    }
}

impl Command {
    /// The mailbox has room for the command.
    pub open spec fn fits(self) -> bool {
        self matches Command::Text(t) ==> utf8::encode_utf8(t).len() <= MB_TEXT_MAX
    }

    /// The byte that tells the command.
    pub open spec fn kind(self) -> u8 {
        match self {
            Command::Key { .. } => 75,
            Command::Text(_) => 84,
            Command::MouseMove { .. } => 77,
            Command::MouseClick { .. } => 66,
            Command::Dump { .. } => 68,
        }
    }

    /// How the command is called in messages. `quoted` is its text in quotes.
    pub open spec fn label(self, quoted: Seq<char>) -> Seq<char> {
        match self {
            Command::Key { keysym, mods, unicode, repeat } => "key sym="@ + text::dec(keysym as int)
                + " mods=0x"@ + text::hex_low(mods as nat, 4) + " uni="@ + text::dec(unicode as int)
                + " x"@ + text::dec(repeat as int),
            Command::Text(_) => "text "@ + quoted,
            Command::MouseMove { x, y } => "mouse_move ("@ + text::dec(x as int) + ","@ + text::dec(
                y as int,
            ) + ")"@,
            Command::MouseClick { x, y, button } => "mouse_click ("@ + text::dec(x as int) + ","@
                + text::dec(y as int) + ") button="@ + text::dec(button as int),
            Command::Dump { budget_ms } => "stat_dump (budget "@ + text::dec(budget_ms as int)
                + "ms)"@,
        }
    }

    /// The text of the command, in quotes; nothing where it has none.
    pub open spec fn quoted(self) -> Seq<char> {
        match self {
            Command::Text(t) => text::debug(t),
            _ => seq![],
        }
    }
}

/// How a command is called in messages, given its text in quotes.
pub fn label_with(cmd: &MailboxCmd, quoted: &str) -> (r: String)
    ensures
        r@ == cmd@.label(quoted@),
{
    match cmd {
        MailboxCmd::Key { keysym, mods, unicode, repeat } => {
            let mut r: String = "key sym=".to_owned();
            push_dec_u(&mut r, *keysym as u64);
            r.append(" mods=0x");
            push_hex_low(&mut r, *mods as u64, 4);
            r.append(" uni=");
            push_dec_u(&mut r, *unicode as u64);
            r.append(" x");
            push_dec_u(&mut r, *repeat as u64);
            r
        },
        MailboxCmd::Text(_) => {
            let mut r: String = "text ".to_owned();
            r.append(quoted);
            r
        },
        MailboxCmd::MouseMove { x, y } => {
            let mut r: String = "mouse_move (".to_owned();
            push_dec(&mut r, *x as i64);
            r.append(",");
            push_dec(&mut r, *y as i64);
            r.append(")");
            r
        },
        MailboxCmd::MouseClick { x, y, button } => {
            let mut r: String = "mouse_click (".to_owned();
            push_dec(&mut r, *x as i64);
            r.append(",");
            push_dec(&mut r, *y as i64);
            r.append(") button=");
            push_dec_u(&mut r, *button as u64);
            r
        },
        MailboxCmd::Dump { budget_ms } => {
            let mut r: String = "stat_dump (budget ".to_owned();
            push_dec_u(&mut r, *budget_ms as u64);
            r.append("ms)");
            r
        },
    }
}

/// How a command is called in messages.
pub fn label(cmd: &MailboxCmd) -> (r: String)
    ensures
        r@ == cmd@.label(cmd@.quoted()),
{
    match cmd {
        MailboxCmd::Text(t) => {
            let q: String = debug_text(t);
            label_with(cmd, q.as_str())
        },
        _ => {
            let q: String = String::new();
            assert(q@ =~= cmd@.quoted());
            label_with(cmd, q.as_str())
        },
    }
}

/// A write at an offset of the mailbox at `addr`.
pub open spec fn field(addr: u64, off: u64, b: Seq<u8>) -> Stored {
    Stored { addr: (addr + off) as u64, bytes: b }
}

/// `n` zero bytes.
pub open spec fn zeros(n: nat) -> Seq<u8> {
    Seq::new(n, |i: int| 0u8)
}

/// A text buffer: the text's bytes, and zeros up to the buffer's end.
pub open spec fn text_buffer(b: Seq<u8>) -> Seq<u8> {
    b + zeros((MB_TEXT_MAX - b.len()) as nat)
}

/// The writes that fill in a command's fields, in this order. The byte that tells the
/// command comes last.
pub open spec fn fields(cmd: Command, addr: u64) -> Seq<Stored> {
    match cmd {
        Command::Key { keysym, mods, unicode, repeat } => seq![
            field(addr, MB_KEYSYM, bytes::bytes16(keysym as int)),
            field(addr, MB_MODIFIERS, bytes::bytes16(mods as int)),
            field(addr, MB_UNICODE, bytes::bytes16(unicode as int)),
            field(addr, MB_REPEAT, bytes::bytes16(repeat as int)),
            field(addr, MB_COMMAND, seq![cmd.kind()]),
        ],
        Command::Text(t) => seq![
            field(addr, MB_TEXT, text_buffer(utf8::encode_utf8(t))),
            field(addr, MB_TEXT_LEN, bytes::bytes16(utf8::encode_utf8(t).len() as int)),
            field(addr, MB_COMMAND, seq![cmd.kind()]),
        ],
        Command::MouseMove { x, y } => seq![
            field(addr, MB_MOUSE_X, bytes::bytes32(bytes::bits32(x as int))),
            field(addr, MB_MOUSE_Y, bytes::bytes32(bytes::bits32(y as int))),
            field(addr, MB_COMMAND, seq![cmd.kind()]),
        ],
        Command::MouseClick { x, y, button } => seq![
            field(addr, MB_MOUSE_X, bytes::bytes32(bytes::bits32(x as int))),
            field(addr, MB_MOUSE_Y, bytes::bytes32(bytes::bits32(y as int))),
            field(addr, MB_BUTTON, seq![button]),
            field(addr, MB_COMMAND, seq![cmd.kind()]),
        ],
        Command::Dump { budget_ms } => seq![
            field(addr, MB_REPEAT, bytes::bytes16(budget_ms as int)),
            field(addr, MB_COMMAND, seq![cmd.kind()]),
        ],
    }
}

/// The sequence number after `seq`.
pub open spec fn next_seq(seq: u32) -> u32 {
    if seq == u32::MAX {
        0
    } else {
        (seq + 1) as u32
    }
}

/// All writes of a command: the payload is wiped first, so that no previous command
/// shines through, and the sequence number is published last.
pub open spec fn writes(cmd: Command, addr: u64, seq: u32) -> Seq<Stored> {
    seq![field(addr, MB_COMMAND, zeros(MB_PAYLOAD as nat))] + fields(cmd, addr)
        + seq![field(addr, MB_SEQ, bytes::bytes32(next_seq(seq) as int))]
}

/// Every command takes several writes.
pub proof fn writes_are_several(cmd: Command, addr: u64, seq: u32)
    ensures
        writes(cmd, addr, seq).len() == fields(cmd, addr).len() + 2,
        fields(cmd, addr).len() >= 2,
{
}

/// Writes, as contracts speak of them.
pub open spec fn writes_view(v: Seq<Write>) -> Seq<Stored> {
    v.map_values(|w: Write| w@)
}

fn put(out: &mut Vec<Write>, addr: u64, off: u64, b: Vec<u8>)
    requires
        addr + off <= u64::MAX,
    ensures
        writes_view(final(out)@) == writes_view(old(out)@).push(field(addr, off, b@)),
{
    out.push(Write { addr: addr + off, bytes: b });
    assert(writes_view(out@) =~= writes_view(old(out)@).push(field(addr, off, b@)));
}

fn byte(b: u8) -> (r: Vec<u8>)
    ensures
        r@ == seq![b],
{
    let mut r: Vec<u8> = Vec::new();
    r.push(b);
    assert(r@ =~= seq![b]);
    r
}

fn pad_zeros(b: &mut Vec<u8>, n: usize)
    requires
        old(b)@.len() <= n,
    ensures
        final(b)@ == old(b)@ + zeros((n - old(b)@.len()) as nat),
{
    let ghost start = b@;
    assert(start + zeros(0) =~= start);
    while b.len() < n
        invariant
            start.len() <= b@.len() <= n,
            b@ == start + zeros((b@.len() - start.len()) as nat),
        decreases n - b@.len(),
    {
        b.push(0);
        assert(b@ =~= start + zeros((b@.len() - start.len()) as nat));
    }
}

fn int_bytes(v: i32) -> (r: Vec<u8>)
    ensures
        r@ == bytes::bytes32(bytes::bits32(v as int)),
{
    store32(to_u32(v))
}

/// The writes that carry a command, after the sequence number was `seq`.
pub fn command_writes(cmd: &MailboxCmd, addr: u64, seq: u32) -> (r: Vec<Write>)
    requires
        addr + MB_SIZE <= u64::MAX,
        cmd@.fits(),
    ensures
        writes_view(r@) == writes(cmd@, addr, seq),
{
    let mut out: Vec<Write> = Vec::new();
    let ghost none = writes_view(out@);
    assert(none =~= Seq::<Stored>::empty());
    let mut wiped: Vec<u8> = Vec::new();
    pad_zeros(&mut wiped, MB_PAYLOAD);
    assert(wiped@ =~= zeros(MB_PAYLOAD as nat));
    put(&mut out, addr, MB_COMMAND, wiped);
    match cmd {
        MailboxCmd::Key { keysym, mods, unicode, repeat } => {
            put(&mut out, addr, MB_KEYSYM, store16(*keysym));
            put(&mut out, addr, MB_MODIFIERS, store16(*mods));
            put(&mut out, addr, MB_UNICODE, store16(*unicode));
            put(&mut out, addr, MB_REPEAT, store16(*repeat));
            put(&mut out, addr, MB_COMMAND, byte(75));
        },
        MailboxCmd::Text(t) => {
            let src: &[u8] = t.as_str().as_bytes();
            let n: usize = src.len();
            let mut buf: Vec<u8> = Vec::new();
            let mut i: usize = 0;
            while i < n
                invariant
                    i <= n == src@.len(),
                    buf@ == src@.take(i as int),
                decreases n - i,
            {
                buf.push(src[i]);
                i = i + 1;
                assert(buf@ =~= src@.take(i as int));
            }
            assert(buf@ =~= src@);
            pad_zeros(&mut buf, MB_TEXT_MAX);
            put(&mut out, addr, MB_TEXT, buf);
            put(&mut out, addr, MB_TEXT_LEN, store16(n as u16));
            put(&mut out, addr, MB_COMMAND, byte(84));
        },
        MailboxCmd::MouseMove { x, y } => {
            put(&mut out, addr, MB_MOUSE_X, int_bytes(*x));
            put(&mut out, addr, MB_MOUSE_Y, int_bytes(*y));
            put(&mut out, addr, MB_COMMAND, byte(77));
        },
        MailboxCmd::MouseClick { x, y, button } => {
            put(&mut out, addr, MB_MOUSE_X, int_bytes(*x));
            put(&mut out, addr, MB_MOUSE_Y, int_bytes(*y));
            put(&mut out, addr, MB_BUTTON, byte(*button));
            put(&mut out, addr, MB_COMMAND, byte(66));
        },
        MailboxCmd::Dump { budget_ms } => {
            put(&mut out, addr, MB_REPEAT, store16(*budget_ms));
            put(&mut out, addr, MB_COMMAND, byte(68));
        },
    }
    put(&mut out, addr, MB_SEQ, store32(seq.wrapping_add(1)));
    assert(writes_view(out@) =~= writes(cmd@, addr, seq));
    out
}

/// A memory after a write.
pub open spec fn patched(mem: spec_fn(int) -> u8, w: Stored) -> spec_fn(int) -> u8 {
    |a: int|
        if w.addr <= a < w.addr + w.bytes.len() {
            w.bytes[a - w.addr]
        } else {
            mem(a)
        }
}

/// A memory after a series of writes.
pub open spec fn patched_all(mem: spec_fn(int) -> u8, ws: Seq<Stored>) -> spec_fn(int) -> u8
    decreases ws.len(),
{
    if ws.len() == 0 {
        mem
    } else {
        patched(patched_all(mem, ws.drop_last()), ws.last())
    }
}

/// The bytes of the mailbox at `addr`.
pub open spec fn mailbox_in(mem: spec_fn(int) -> u8, addr: u64) -> Seq<u8> {
    Seq::new(MB_SIZE as nat, |i: int| mem(addr + i))
}

/// The command that a mailbox holds, as its reader takes it.
pub open spec fn held(box_: Seq<u8>) -> Option<Command> {
    let kind = box_[MB_COMMAND as int];
    if kind == 75 {
        Some(
            Command::Key {
                keysym: bytes::le16(box_, MB_KEYSYM as int) as u16,
                mods: bytes::le16(box_, MB_MODIFIERS as int) as u16,
                unicode: bytes::le16(box_, MB_UNICODE as int) as u16,
                repeat: bytes::le16(box_, MB_REPEAT as int) as u16,
            },
        )
    } else if kind == 84 {
        let n = bytes::le16(box_, MB_TEXT_LEN as int);
        Some(Command::Text(utf8::decode_utf8(box_.subrange(MB_TEXT as int, MB_TEXT + n))))
    } else if kind == 77 {
        Some(
            Command::MouseMove {
                x: bytes::le_i32(box_, MB_MOUSE_X as int) as i32,
                y: bytes::le_i32(box_, MB_MOUSE_Y as int) as i32,
            },
        )
    } else if kind == 66 {
        Some(
            Command::MouseClick {
                x: bytes::le_i32(box_, MB_MOUSE_X as int) as i32,
                y: bytes::le_i32(box_, MB_MOUSE_Y as int) as i32,
                button: box_[MB_BUTTON as int],
            },
        )
    } else if kind == 68 {
        Some(Command::Dump { budget_ms: bytes::le16(box_, MB_REPEAT as int) as u16 })
    } else {
        None
    }
}

/// The sequence number is published by the last write. Every write before it stays
/// inside the payload, so the reader sees no new number before the command is complete.
pub proof fn published_last(cmd: Command, addr: u64, seq: u32)
    requires
        cmd.fits(),
        addr + MB_SIZE <= u64::MAX,
    ensures
        ({
            let ws = writes(cmd, addr, seq);
            let last = ws.len() - 1;
            &&& ws.last() == field(addr, MB_SEQ, bytes::bytes32(next_seq(seq) as int))
            &&& forall|i: int|
                0 <= i < last ==> addr + MB_COMMAND <= (#[trigger] ws[i]).addr && ws[i].addr
                    + ws[i].bytes.len() <= addr + MB_SIZE
        }),
{
    let ws = writes(cmd, addr, seq);
    let fs = fields(cmd, addr);
    assert forall|i: int| 0 <= i < ws.len() - 1 implies addr + MB_COMMAND <= (#[trigger] ws[i]).addr
        && ws[i].addr + ws[i].bytes.len() <= addr + MB_SIZE by {
        if i > 0 {
            assert(ws[i] == fs[i - 1]);
        }
    }
}

/// A byte that a write covers and no later write does is what that write stored.
pub proof fn last_write_wins(mem: spec_fn(int) -> u8, ws: Seq<Stored>, k: int, a: int)
    requires
        0 <= k < ws.len(),
        ws[k].addr <= a < ws[k].addr + ws[k].bytes.len(),
        forall|j: int|
            k < j < ws.len() ==> !((#[trigger] ws[j]).addr <= a < ws[j].addr + ws[j].bytes.len()),
    ensures
        patched_all(mem, ws)(a) == ws[k].bytes[a - ws[k].addr],
    decreases ws.len(),
{
    if k < ws.len() - 1 {
        let before = ws.drop_last();
        assert(before[k] == ws[k]);
        assert forall|j: int| k < j < before.len() implies !((#[trigger] before[j]).addr <= a
            < before[j].addr + before[j].bytes.len()) by {
            assert(before[j] == ws[j]);
        }
        last_write_wins(mem, before, k, a);
    }
}

/// A field that a write stores and no later write touches is found in the mailbox.
proof fn field_is_stored(
    mem: spec_fn(int) -> u8,
    ws: Seq<Stored>,
    k: int,
    addr: u64,
    off: u64,
    b: Seq<u8>,
)
    requires
        addr + MB_SIZE <= u64::MAX,
        off + b.len() <= MB_SIZE,
        0 <= k < ws.len(),
        ws[k] == field(addr, off, b),
        forall|j: int|
            k < j < ws.len() ==> (#[trigger] ws[j]).addr >= addr + off + b.len() || ws[j].addr
                + ws[j].bytes.len() <= addr + off,
    ensures
        mailbox_in(patched_all(mem, ws), addr).subrange(off as int, off + b.len()) == b,
        forall|i: int|
            0 <= i < b.len() ==> #[trigger] mailbox_in(patched_all(mem, ws), addr)[off + i] == b[i],
{
    let m = mailbox_in(patched_all(mem, ws), addr);
    assert forall|i: int| 0 <= i < b.len() implies #[trigger] m[off + i] == b[i] by {
        last_write_wins(mem, ws, k, addr + off + i);
    }
    assert forall|i: int| 0 <= i < b.len() implies #[trigger] m.subrange(
        off as int,
        off + b.len(),
    )[i] == b[i] by {
        assert(m[off + i] == b[i]);
    }
    assert(m.subrange(off as int, off + b.len()) =~= b);
}

proof fn half_is_stored(
    mem: spec_fn(int) -> u8,
    ws: Seq<Stored>,
    k: int,
    addr: u64,
    off: u64,
    v: int,
)
    requires
        addr + MB_SIZE <= u64::MAX,
        off + 2 <= MB_SIZE,
        0 <= v < 0x1_0000,
        0 <= k < ws.len(),
        ws[k] == field(addr, off, bytes::bytes16(v)),
        forall|j: int|
            k < j < ws.len() ==> (#[trigger] ws[j]).addr >= addr + off + 2 || ws[j].addr
                + ws[j].bytes.len() <= addr + off,
    ensures
        bytes::le16(mailbox_in(patched_all(mem, ws), addr), off as int) == v,
{
    field_is_stored(mem, ws, k, addr, off, bytes::bytes16(v));
    bytes::stored_half_reads_back(v);
    let m = mailbox_in(patched_all(mem, ws), addr);
    assert(m[off + 0] == bytes::bytes16(v)[0]);
    assert(m[off + 1] == bytes::bytes16(v)[1]);
}

proof fn word_is_stored(
    mem: spec_fn(int) -> u8,
    ws: Seq<Stored>,
    k: int,
    addr: u64,
    off: u64,
    v: int,
)
    requires
        addr + MB_SIZE <= u64::MAX,
        off + 4 <= MB_SIZE,
        0 <= v < 0x1_0000_0000,
        0 <= k < ws.len(),
        ws[k] == field(addr, off, bytes::bytes32(v)),
        forall|j: int|
            k < j < ws.len() ==> (#[trigger] ws[j]).addr >= addr + off + 4 || ws[j].addr
                + ws[j].bytes.len() <= addr + off,
    ensures
        bytes::le32(mailbox_in(patched_all(mem, ws), addr), off as int) == v,
{
    field_is_stored(mem, ws, k, addr, off, bytes::bytes32(v));
    bytes::stored_word_reads_back(v);
    let m = mailbox_in(patched_all(mem, ws), addr);
    assert(m[off + 0] == bytes::bytes32(v)[0]);
    assert(m[off + 1] == bytes::bytes32(v)[1]);
    assert(m[off + 2] == bytes::bytes32(v)[2]);
    assert(m[off + 3] == bytes::bytes32(v)[3]);
}

proof fn kind_is_stored(mem: spec_fn(int) -> u8, cmd: Command, addr: u64, seq: u32)
    requires
        addr + MB_SIZE <= u64::MAX,
        cmd.fits(),
    ensures
        mailbox_in(patched_all(mem, writes(cmd, addr, seq)), addr)[MB_COMMAND as int] == cmd.kind(),
{
    let ws = writes(cmd, addr, seq);
    let k = ws.len() - 2;
    assert(ws[k] == field(addr, MB_COMMAND, seq![cmd.kind()]));
    field_is_stored(mem, ws, k, addr, MB_COMMAND, seq![cmd.kind()]);
    assert(mailbox_in(patched_all(mem, ws), addr)[MB_COMMAND + 0] == seq![cmd.kind()][0]);
}

#[verifier::spinoff_prover]
proof fn key_arrives(mem: spec_fn(int) -> u8, cmd: Command, addr: u64, seq: u32)
    requires
        addr + MB_SIZE <= u64::MAX,
        cmd.fits(),
        cmd is Key,
    ensures
        held(mailbox_in(patched_all(mem, writes(cmd, addr, seq)), addr)) == Some(cmd),
{
    let ws = writes(cmd, addr, seq);
    let m = mailbox_in(patched_all(mem, ws), addr);
    kind_is_stored(mem, cmd, addr, seq);
    if let Command::Key { keysym, mods, unicode, repeat } = cmd {
        assert(bytes::le16(m, MB_KEYSYM as int) == keysym) by {
            half_is_stored(mem, ws, 1, addr, MB_KEYSYM, keysym as int);
        }
        assert(bytes::le16(m, MB_MODIFIERS as int) == mods) by {
            half_is_stored(mem, ws, 2, addr, MB_MODIFIERS, mods as int);
        }
        assert(bytes::le16(m, MB_UNICODE as int) == unicode) by {
            half_is_stored(mem, ws, 3, addr, MB_UNICODE, unicode as int);
        }
        assert(bytes::le16(m, MB_REPEAT as int) == repeat) by {
            half_is_stored(mem, ws, 4, addr, MB_REPEAT, repeat as int);
        }
    }
}

#[verifier::spinoff_prover]
proof fn text_arrives(mem: spec_fn(int) -> u8, cmd: Command, addr: u64, seq: u32)
    requires
        addr + MB_SIZE <= u64::MAX,
        cmd.fits(),
        cmd is Text,
    ensures
        held(mailbox_in(patched_all(mem, writes(cmd, addr, seq)), addr)) == Some(cmd),
{
    let ws = writes(cmd, addr, seq);
    let m = mailbox_in(patched_all(mem, ws), addr);
    kind_is_stored(mem, cmd, addr, seq);
    if let Command::Text(t) = cmd {
        let b = utf8::encode_utf8(t);
        assert(bytes::le16(m, MB_TEXT_LEN as int) == b.len()) by {
            half_is_stored(mem, ws, 2, addr, MB_TEXT_LEN, b.len() as int);
        }
        let got = m.subrange(MB_TEXT as int, MB_TEXT + b.len());
        assert(got == b) by {
            field_is_stored(mem, ws, 1, addr, MB_TEXT, text_buffer(b));
            assert forall|i: int| 0 <= i < b.len() implies got[i] == b[i] by {
                assert(m[MB_TEXT + i] == text_buffer(b)[i]);
            }
            assert(got =~= b);
        }
        utf8::encode_utf8_decode_utf8(t);
    }
}

#[verifier::spinoff_prover]
proof fn move_arrives(mem: spec_fn(int) -> u8, cmd: Command, addr: u64, seq: u32)
    requires
        addr + MB_SIZE <= u64::MAX,
        cmd.fits(),
        cmd is MouseMove,
    ensures
        held(mailbox_in(patched_all(mem, writes(cmd, addr, seq)), addr)) == Some(cmd),
{
    let ws = writes(cmd, addr, seq);
    let m = mailbox_in(patched_all(mem, ws), addr);
    kind_is_stored(mem, cmd, addr, seq);
    if let Command::MouseMove { x, y } = cmd {
        assert(bytes::le32(m, MB_MOUSE_X as int) == bytes::bits32(x as int)) by {
            word_is_stored(mem, ws, 1, addr, MB_MOUSE_X, bytes::bits32(x as int));
        }
        assert(bytes::le32(m, MB_MOUSE_Y as int) == bytes::bits32(y as int)) by {
            word_is_stored(mem, ws, 2, addr, MB_MOUSE_Y, bytes::bits32(y as int));
        }
    }
}

#[verifier::spinoff_prover]
proof fn click_arrives(mem: spec_fn(int) -> u8, cmd: Command, addr: u64, seq: u32)
    requires
        addr + MB_SIZE <= u64::MAX,
        cmd.fits(),
        cmd is MouseClick,
    ensures
        held(mailbox_in(patched_all(mem, writes(cmd, addr, seq)), addr)) == Some(cmd),
{
    let ws = writes(cmd, addr, seq);
    let m = mailbox_in(patched_all(mem, ws), addr);
    kind_is_stored(mem, cmd, addr, seq);
    if let Command::MouseClick { x, y, button } = cmd {
        assert(bytes::le32(m, MB_MOUSE_X as int) == bytes::bits32(x as int)) by {
            word_is_stored(mem, ws, 1, addr, MB_MOUSE_X, bytes::bits32(x as int));
        }
        assert(bytes::le32(m, MB_MOUSE_Y as int) == bytes::bits32(y as int)) by {
            word_is_stored(mem, ws, 2, addr, MB_MOUSE_Y, bytes::bits32(y as int));
        }
        assert(m[MB_BUTTON as int] == button) by {
            field_is_stored(mem, ws, 3, addr, MB_BUTTON, seq![button]);
            assert(m[MB_BUTTON + 0] == seq![button][0]);
        }
    }
}

#[verifier::spinoff_prover]
proof fn dump_arrives(mem: spec_fn(int) -> u8, cmd: Command, addr: u64, seq: u32)
    requires
        addr + MB_SIZE <= u64::MAX,
        cmd.fits(),
        cmd is Dump,
    ensures
        held(mailbox_in(patched_all(mem, writes(cmd, addr, seq)), addr)) == Some(cmd),
{
    let ws = writes(cmd, addr, seq);
    let m = mailbox_in(patched_all(mem, ws), addr);
    kind_is_stored(mem, cmd, addr, seq);
    if let Command::Dump { budget_ms } = cmd {
        assert(bytes::le16(m, MB_REPEAT as int) == budget_ms) by {
            half_is_stored(mem, ws, 1, addr, MB_REPEAT, budget_ms as int);
        }
    }
}

/// Whatever the mailbox held before: after the writes of a command, its reader finds that
/// command in it, and the next sequence number.
pub proof fn command_arrives(mem: spec_fn(int) -> u8, cmd: Command, addr: u64, seq: u32)
    requires
        addr + MB_SIZE <= u64::MAX,
        cmd.fits(),
    ensures
        ({
            let m = mailbox_in(patched_all(mem, writes(cmd, addr, seq)), addr);
            &&& held(m) == Some(cmd)
            &&& bytes::le32(m, MB_SEQ as int) == next_seq(seq)
        }),
{
    let ws = writes(cmd, addr, seq);
    word_is_stored(mem, ws, ws.len() - 1, addr, MB_SEQ, next_seq(seq) as int);
    match cmd {
        Command::Key { .. } => key_arrives(mem, cmd, addr, seq),
        Command::Text(_) => text_arrives(mem, cmd, addr, seq),
        Command::MouseMove { .. } => move_arrives(mem, cmd, addr, seq),
        Command::MouseClick { .. } => click_arrives(mem, cmd, addr, seq),
        Command::Dump { .. } => dump_arrives(mem, cmd, addr, seq),
    }
}

proof fn agreement_spreads(
    m1: spec_fn(int) -> u8,
    m2: spec_fn(int) -> u8,
    cmd: Command,
    addr: u64,
    seq: u32,
    k: int,
    a: int,
)
    requires
        addr + MB_SIZE <= u64::MAX,
        cmd.fits(),
        1 <= k <= writes(cmd, addr, seq).len(),
        addr + MB_COMMAND <= a < addr + MB_SIZE,
    ensures
        patched_all(m1, writes(cmd, addr, seq).take(k))(a) == patched_all(
            m2,
            writes(cmd, addr, seq).take(k),
        )(a),
    decreases k,
{
    let ws = writes(cmd, addr, seq);
    assert(ws.take(k).drop_last() =~= ws.take(k - 1));
    if k > 1 {
        agreement_spreads(m1, m2, cmd, addr, seq, k - 1, a);
    } else {
        assert(ws.take(k).last() == field(addr, MB_COMMAND, zeros(MB_PAYLOAD as nat)));
    }
}

/// Nothing of a previous command leaks into the next: what the payload holds after the
/// writes of a command does not depend on what it held before.
pub proof fn nothing_leaks(
    m1: spec_fn(int) -> u8,
    m2: spec_fn(int) -> u8,
    cmd: Command,
    addr: u64,
    seq: u32,
    a: int,
)
    requires
        addr + MB_SIZE <= u64::MAX,
        cmd.fits(),
        addr + MB_COMMAND <= a < addr + MB_SIZE,
    ensures
        patched_all(m1, writes(cmd, addr, seq))(a) == patched_all(m2, writes(cmd, addr, seq))(a),
{
    let ws = writes(cmd, addr, seq);
    agreement_spreads(m1, m2, cmd, addr, seq, ws.len() as int, a);
    assert(ws.take(ws.len() as int) =~= ws);
}

} // verus!
