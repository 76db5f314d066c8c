use statmind::error::Error;
use statmind::mailbox::{command_writes, label, label_with, MailboxCmd};
use statmind::memory::{Read, Reply};
use statmind::submit::{submit, Action, Event, Failure, Submission};

const ADDR: u64 = 0x5000;

fn key() -> MailboxCmd {
    MailboxCmd::Key { keysym: 264, mods: 0x41, unicode: 97, repeat: 3 }
}

/// A mailbox, and a shim that acknowledges after some looks.
struct Shim {
    bytes: Vec<u8>,
    looks: u32,
    status: i32,
    version: u32,
    order: Vec<u64>,
    clock: u64,
    counter: Vec<Option<i32>>,
    slept: Vec<u64>,
}

impl Shim {
    fn new(looks: u32, status: i32) -> Shim {
        Shim {
            bytes: vec![0xEE; 108],
            looks,
            status,
            version: 2,
            order: vec![],
            clock: 0,
            counter: vec![],
            slept: vec![],
        }
    }

    fn word(&self, off: usize) -> u32 {
        u32::from_le_bytes(self.bytes[off..off + 4].try_into().unwrap())
    }

    fn read(&mut self, q: Read) -> Reply {
        assert_eq!(q.len, 4);
        let off = (q.addr - ADDR) as usize;
        let v = match off {
            8 => self.version,
            12 => self.word(12),
            16 => {
                if self.looks == 0 {
                    self.word(12)
                } else {
                    self.looks -= 1;
                    self.word(12).wrapping_sub(1)
                }
            }
            20 => self.status as u32,
            _ => panic!("read at {}", off),
        };
        Reply::Bytes(v.to_le_bytes().to_vec())
    }

    fn drive(&mut self, mut s: Submission) -> Submission {
        loop {
            let e = match s.next() {
                Action::Read(q) => Event::Reply(self.read(q)),
                Action::Protect { addr, len } => {
                    assert_eq!((addr, len), (ADDR, 108));
                    Event::Protected(None)
                }
                Action::Write(w) => {
                    let off = (w.addr - ADDR) as usize;
                    self.bytes[off..off + w.bytes.len()].copy_from_slice(&w.bytes);
                    self.order.push(w.addr - ADDR);
                    Event::Written(None)
                }
                Action::Sample => {
                    let next = if self.counter.is_empty() { None } else { self.counter.remove(0) };
                    Event::Sampled(next)
                }
                Action::Start => {
                    self.clock = 0;
                    Event::Done
                }
                Action::Clock => Event::Elapsed(self.clock),
                Action::Sleep(ms) => {
                    self.clock += ms;
                    self.slept.push(ms);
                    Event::Done
                }
                Action::Over => return s,
            };
            s = s.supply(e);
        }
    }
}

#[test]
fn a_key_that_advances_a_turn() {
    let mut shim = Shim::new(2, 0);
    shim.bytes[12..16].copy_from_slice(&u32::MAX.to_le_bytes());
    shim.counter = vec![Some(10), None, Some(10), Some(11)];
    let s = shim.drive(submit(key(), ADDR));
    assert_eq!(
        s.message("").unwrap().unwrap(),
        "key sym=264 mods=0x0041 uni=97 x3 delivered in 4ms; turn advanced 10 -> 11"
    );
    assert_eq!(s.failure(), None);
    // the number is published last, and wraps around
    assert_eq!(shim.order, vec![24, 26, 28, 30, 32, 24, 12]);
    assert_eq!(shim.word(12), 0);
    assert_eq!(shim.slept, vec![2, 2, 5, 5]);
    assert_eq!(&shim.bytes[24..34], &[b'K', 0, 8, 1, 0x41, 0, 97, 0, 3, 0]);
    // nothing of what stood there before is left
    assert!(shim.bytes[34..108].iter().all(|b| *b == 0));
    // and nothing outside the payload but the number was touched
    assert!(shim.bytes[0..12].iter().all(|b| *b == 0xEE));
    assert!(shim.bytes[16..24].iter().all(|b| *b == 0xEE));
}

#[test]
fn a_key_that_only_opens_a_menu() {
    let mut shim = Shim::new(0, 0);
    shim.counter = vec![Some(10)];
    let s = shim.drive(submit(key(), ADDR));
    assert_eq!(
        s.message("").unwrap().unwrap(),
        "key sym=264 mods=0x0041 uni=97 x3 delivered in 0ms; no turn advanced (actionReady still \
         10) -- UI-only key, or the game is waiting on something"
    );
    assert_eq!(shim.slept.len(), 150);
}

#[test]
fn a_mirror_that_cannot_be_read_counts_as_minus_one() {
    let mut shim = Shim::new(0, 0);
    shim.counter = vec![None, Some(4)];
    let s = shim.drive(submit(MailboxCmd::MouseMove { x: -3, y: 700 }, ADDR));
    assert_eq!(
        s.message("").unwrap().unwrap(),
        "mouse_move (-3,700) delivered in 0ms; turn advanced -1 -> 4"
    );
    assert_eq!(shim.bytes[24], b'M');
    assert_eq!(&shim.bytes[36..44], &[0xFD, 0xFF, 0xFF, 0xFF, 0xBC, 2, 0, 0]);
}

#[test]
fn a_command_that_is_never_acknowledged() {
    let mut shim = Shim::new(u32::MAX, 0);
    shim.bytes[12..16].copy_from_slice(&41u32.to_le_bytes());
    let s = shim.drive(submit(MailboxCmd::Text("ab\"c".to_string()), ADDR));
    assert_eq!(s.failure(), Some(Failure::NeverAcked));
    assert_eq!(
        s.message("").unwrap().unwrap_err(),
        "text \"ab\\\"c\": shim never acked (seq=42) -- is the patched SDL.dll loaded?"
    );
    assert_eq!(shim.slept.len(), 1000);
    assert_eq!(shim.order, vec![24, 44, 34, 24, 12]);
    assert_eq!(&shim.bytes[34..36], &[4, 0]);
    assert_eq!(&shim.bytes[44..50], &[b'a', b'b', b'"', b'c', 0, 0]);
}

#[test]
fn a_command_that_is_refused() {
    let mut shim = Shim::new(0, -5);
    let s = shim.drive(submit(MailboxCmd::MouseClick { x: 1, y: 2, button: 3 }, ADDR));
    assert_eq!(s.failure(), Some(Failure::Rejected { status: -5 }));
    assert_eq!(
        s.message("").unwrap().unwrap_err(),
        "mouse_click (1,2) button=3: shim rejected the command (status -5)"
    );
    assert_eq!((shim.bytes[24], shim.bytes[25]), (b'B', 3));
}

#[test]
fn a_dump_waits_longer_and_for_no_turn() {
    let mut shim = Shim::new(2000, 0);
    let s = shim.drive(submit(MailboxCmd::Dump { budget_ms: 5000 }, ADDR));
    assert_eq!(
        s.message("").unwrap().unwrap(),
        "stat_dump (budget 5000ms) completed in 4000ms"
    );
    assert_eq!(&shim.bytes[32..34], &5000u16.to_le_bytes());
    let mut shim = Shim::new(u32::MAX, 0);
    let s = shim.drive(submit(MailboxCmd::Dump { budget_ms: 5000 }, ADDR));
    assert_eq!(s.failure(), Some(Failure::NeverAcked));
    assert_eq!(shim.slept.len(), 4000);
}

#[test]
fn another_version_is_refused_before_anything_is_written() {
    let mut shim = Shim::new(0, 0);
    shim.version = 1;
    let s = shim.drive(submit(key(), ADDR));
    assert_eq!(
        s.message("").unwrap().unwrap_err(),
        "mailbox version 1 but this build expects 2 -- rebuild SDL.dll from \
         SDL-1.2/src/statmind_ipc.h"
    );
    assert!(shim.order.is_empty());
}

fn after(s: Submission, n: usize) -> Submission {
    let mut shim = Shim::new(0, 0);
    let mut s = s;
    for _ in 0..n {
        let e = match s.next() {
            Action::Read(q) => Event::Reply(shim.read(q)),
            Action::Protect { .. } => Event::Protected(None),
            Action::Write(_) => Event::Written(None),
            Action::Sample => Event::Sampled(None),
            Action::Clock => Event::Elapsed(0),
            _ => Event::Done,
        };
        s = s.supply(e);
    }
    s
}

#[test]
fn failures_of_the_memory_are_reported_as_they_are() {
    let s = submit(key(), ADDR).supply(Event::Reply(Reply::Failed(3)));
    assert_eq!(s.failure(), Some(Failure::Memory { error: Error::Os { code: 3 } }));
    assert_eq!(s.message("No such process").unwrap().unwrap_err(), "No such process");
    let refused = Error::NotWritable { address: 0x5000, end: 0x506C };
    let s = after(submit(key(), ADDR), 1).supply(Event::Protected(Some(refused)));
    assert_eq!(s.message("").unwrap().unwrap_err(), "0x5000..0x506C is not writable");
    let s = after(submit(key(), ADDR), 4).supply(Event::Written(Some(14)));
    assert_eq!(s.message("bad").unwrap().unwrap_err(), "Failed to write memory: bad");
    assert!(after(submit(key(), ADDR), 4).message("").is_none());
}

#[test]
fn labels_name_commands() {
    assert_eq!(label(&MailboxCmd::Text("hi".to_string())), "text \"hi\"");
    assert_eq!(label(&MailboxCmd::Text("a\nb".to_string())), "text \"a\\nb\"");
    assert_eq!(label_with(&MailboxCmd::Text("x".to_string()), "<q>"), "text <q>");
    assert_eq!(label(&MailboxCmd::Dump { budget_ms: 100 }), "stat_dump (budget 100ms)");
}

#[test]
fn a_text_fills_the_whole_buffer_at_most() {
    let t = "\u{E9}".repeat(32);
    let ws = command_writes(&MailboxCmd::Text(t.clone()), ADDR, 7);
    assert_eq!(ws[1].bytes, t.as_bytes().to_vec());
    assert_eq!(ws[2].bytes, vec![64, 0]);
    assert_eq!(ws.last().unwrap().bytes, vec![8, 0, 0, 0]);
}
