use statmind::bytes::{narrow, store16, store32, to_i32, to_u32};
use statmind::common::{
    check_ipc_thread_status, get_addrs, luigi_magic, mailbox_magic, Addrs, Located, Lookup,
};
use statmind::error::Error;
use statmind::ids::{parse_table, TableError};
use statmind::memory::{Read, Reply, Stop, Tape};
use statmind::process::{is_candidate, select_process, ProcessInfo};
use statmind::text::{address_text, dump_text, push_dec, push_hex};
use std::collections::BTreeMap;

struct Mem {
    bytes: BTreeMap<u64, u8>,
}

impl Mem {
    fn new() -> Mem {
        Mem { bytes: BTreeMap::new() }
    }

    fn put(&mut self, addr: u64, b: &[u8]) {
        for (i, x) in b.iter().enumerate() {
            self.bytes.insert(addr + i as u64, *x);
        }
    }

    fn word(&mut self, addr: u64, w: u32) {
        self.put(addr, &w.to_le_bytes());
    }

    fn read(&self, q: Read) -> Reply {
        let mut out = Vec::new();
        for i in 0..q.len as u64 {
            match self.bytes.get(&(q.addr.wrapping_add(i))) {
                Some(b) => out.push(*b),
                None => return Reply::Failed(14),
            }
        }
        Reply::Bytes(out)
    }

    fn run<T>(&self, mut f: impl FnMut(&mut Tape) -> Result<T, Stop>) -> Result<T, Error> {
        let mut tape = Tape::new();
        loop {
            tape.rewind();
            match f(&mut tape) {
                Ok(v) => return Ok(v),
                Err(Stop::Fail(e)) => return Err(e),
                Err(Stop::Need(q)) => {
                    let reply = self.read(q);
                    assert!(reply.fits(q));
                    tape.record(q, reply);
                }
            }
        }
    }
}

fn process(name: &str, cmd: &[&str]) -> ProcessInfo {
    ProcessInfo {
        name: name.to_string(),
        cmd: cmd.iter().map(|s| s.to_string()).collect(),
    }
}

#[test]
fn the_game_is_found_by_name_and_flag() {
    let list = vec![
        process("bash", &["bash", "-luigiAi"]),
        process("wine-preloader", &["wine", "COGMIND.EXE", "-luigiAi"]),
        process("COGMIND.EXE", &["cogmind.exe"]),
        process("Z:COGMIND.EXE", &["cogmind.exe", "-luigiAi"]),
    ];
    assert_eq!(select_process(&list), Some(3));
    assert_eq!(select_process(&list[..3].iter().map(|p| process(&p.name, &p.cmd.iter().map(|s| s.as_str()).collect::<Vec<_>>())).collect()), Some(1));
    assert_eq!(select_process(&vec![process("cogmind.exe", &["-luigiAI"])]), None);
    assert_eq!(select_process(&vec![]), None);
    assert!(is_candidate("cogmind.exe", &vec!["-luigiAi".to_string()], "cogmind.exe"));
    // the name has to be in lower case already
    assert!(!is_candidate("COGMIND.EXE", &vec!["-luigiAi".to_string()], "cogmind.exe"));
    assert!(!is_candidate("cog", &vec!["-luigiAi".to_string()], "cogmind.exe"));
}

const BASE: u64 = 0x1000;

fn status(words: [u32; 5]) -> Mem {
    let mut m = Mem::new();
    for (i, w) in words.iter().enumerate() {
        m.word(BASE + 20 + 4 * i as u64, *w);
    }
    m
}

#[test]
fn the_build_publishes_its_addresses() {
    let m = status([0xCD_0000, 0x65, 0xCE_0000, 0xCF_0000, 0xD0_0000]);
    let a = Addrs {
        build_stamp: 0x65,
        luigi: 0xCD_0000,
        map_object: 0xCE_0000,
        player_rec: Some(0xCF_0000),
        view_origin: 0xD0_0000,
    };
    assert_eq!(m.run(|t| get_addrs(None, Ok(BASE as usize), t)), Ok(a));
    let m = status([0xCD_0000, 0x65, 0xCE_0000, 0, 0xD0_0000]);
    assert_eq!(m.run(|t| get_addrs(None, Ok(BASE as usize), t)).unwrap().player_rec, None);
    for w in [[1, 0x65, 0, 1, 1], [1, 0x65, 1, 1, 0]] {
        assert_eq!(
            status(w).run(|t| get_addrs(None, Ok(BASE as usize), t)),
            Err(Error::UnknownBuild { stamp: 0x65 })
        );
    }
    // what is known already is not read again
    assert_eq!(Mem::new().run(|t| get_addrs(Some(a), Err(Error::BlitNotFound), t)), Ok(a));
}

#[test]
fn a_missing_status_block_names_its_reason() {
    let e = Mem::new()
        .run(|t| get_addrs(None, Err(Error::MagicNotFound { magic: 0xBADB_EEF2, check: 0x7953_3EDA }), t))
        .unwrap_err();
    assert_eq!(
        e.to_text(""),
        "no StatmindLuigiStatus in the target (memory magic 0xBADBEEF2/0x79533EDA not found) -- \
         the patched SDL.dll is not loaded, or it predates per-build address publication"
    );
    let e = Mem::new().run(|t| get_addrs(None, Err(Error::Os { code: 3 }), t)).unwrap_err();
    assert_eq!(e, Error::NoStatusOs { code: 3 });
    let e = Mem::new()
        .run(|t| get_addrs(None, Err(Error::MagicNotInRegions { magic: 1, check: 2 }), t))
        .unwrap_err();
    assert_eq!(e, Error::NoStatusNotInRegions { magic: 1, check: 2 });
}

#[test]
fn the_thread_runs_or_not() {
    let mut m = Mem::new();
    m.word(0x2008, 1);
    assert_eq!(m.run(|t| check_ipc_thread_status(0x2000, t)), Ok(true));
    m.word(0x2008, 2);
    assert_eq!(m.run(|t| check_ipc_thread_status(0x2000, t)), Ok(false));
    assert_eq!(m.run(|t| check_ipc_thread_status(0x3000, t)), Err(Error::Os { code: 14 }));
}

#[test]
fn what_was_found_is_not_searched_again() {
    let mut l = Located::new();
    assert_eq!(l.get_base_address(), Lookup::Search { magic: luigi_magic() });
    assert_eq!(l.get_mailbox_address(), Lookup::Search { magic: mailbox_magic() });
    assert_eq!(luigi_magic().magic, 0x64AD_FA4C);
    assert!(!luigi_magic().writable);
    assert_eq!(mailbox_magic().check, 0x7953_3ED8);
    assert!(mailbox_magic().writable);
    l.keep_base(5);
    l.keep_mailbox(6);
    assert_eq!(l.get_base_address(), Lookup::Known { address: 5 });
    assert_eq!(l.get_mailbox_address(), Lookup::Known { address: 6 });
}

#[test]
fn tables_hold_identifiers_and_names() {
    let t = parse_table("ID  Name\n 12 Small Floor \n\n-3\tTAG_X  Long name\n12 Other\r\n", true).unwrap();
    assert_eq!(t.entries.len(), 3);
    assert_eq!(t.name(12).as_deref(), Some("Small Floor"));
    assert_eq!(t.name(-3).as_deref(), Some("TAG_X"));
    assert_eq!(t.name(0), None);
    assert_eq!(t.name_of(None), None);
    match parse_table("1 a\nx b\n", false) {
        Err(TableError::BadId(s)) => assert_eq!(s, "x"),
        other => panic!("{:?}", other),
    }
    match parse_table("17\n", false) {
        Err(TableError::NoName(s)) => assert_eq!(s, "17"),
        other => panic!("{:?}", other),
    }
    assert_eq!(parse_table("", true).unwrap().entries.len(), 0);
}

#[test]
fn numbers_become_text() {
    assert_eq!(address_text(0), "0x00000000");
    assert_eq!(address_text(0xABCDEF), "0x00ABCDEF");
    assert_eq!(address_text(0x1_2345_6789), "0x123456789");
    let mut s = String::new();
    push_dec(&mut s, i64::MIN);
    push_dec(&mut s, 0);
    push_hex(&mut s, 0xA0, 0);
    assert_eq!(s, "-92233720368547758080A0");
    assert_eq!(dump_text(&vec![0, 0x0f, 0xa0], false), "00 0f a0");
    assert_eq!(dump_text(&vec![], true), "");
    let line = dump_text(&vec![1u8; 17], true);
    assert_eq!(line.len(), 17 * 3 - 1 + 1);
    assert!(line.ends_with("01 \n01"));
}

#[test]
fn words_are_little_endian() {
    assert_eq!(store16(0x1234), vec![0x34, 0x12]);
    assert_eq!(store32(0x1234_5678), vec![0x78, 0x56, 0x34, 0x12]);
    assert_eq!(to_i32(0xFFFF_FFFF), -1);
    assert_eq!(to_u32(-2), 0xFFFF_FFFE);
    assert_eq!(narrow(0x1_8000_0000), i32::MIN);
}

#[test]
fn errors_have_their_words() {
    let t = |e: Error| e.to_text("os text");
    assert_eq!(t(Error::Os { code: 1 }), "os text");
    assert_eq!(t(Error::ProtectFailed { code: 5 }), "mach_vm_protect failed: 5");
    assert_eq!(
        t(Error::RegionsUnsupported),
        "region enumeration is macOS-only; a Linux port needs /proc/<pid>/maps"
    );
    assert_eq!(
        t(Error::MagicNotInRegions { magic: 1, check: 0xAB }),
        "magic 0x00000001/0x000000AB not found in memory regions"
    );
    assert_eq!(t(Error::AddressOverflow), "address overflow");
    assert_eq!(
        t(Error::UnknownBuild { stamp: 0x65 }),
        "the shim published no addresses (build stamp 0x00000065); it did not recognise this \
         executable"
    );
    assert_eq!(
        t(Error::Implausible { width: -1, height: 7, map_obj: 0xCE }),
        "implausible map dimensions -1x7 at 0xCE -- not in a map yet, or the address is wrong for \
         this build"
    );
    assert_eq!(t(Error::NullTable { addr: 0xD6 }), "cell table pointer at 0xD6 is null");
    assert_eq!(
        t(Error::EmptyBox { x0: 2, y0: 0, x1: 1, y1: 1 }),
        "empty bounding box (2,0)..(1,1)"
    );
    assert_eq!(
        t(Error::OutsideMap { x: -1, y: 2, width: 3, height: 4 }),
        "(-1,2) is outside the 3x4 map"
    );
    assert_eq!(
        t(Error::NullFov { addr: 0xCEFC4C }),
        "FOV object pointer at 0x00CEFC4C is null -- no map loaded yet"
    );
    assert_eq!(
        t(Error::DrawCount { count: 16385 }),
        "draw log count 16385 exceeds the 16384 cap"
    );
    assert_eq!(
        t(Error::NoPlayer { action_ready: 1, width: 2, height: 3, depth: -4, map_data: 0xA }),
        "LuigiAi.player is NULL (actionReady=1, map=2x3, depth=-4, mapData=0xA). The struct exists \
         but no map is loaded yet -- get to an actual map, then retry. Use luigi_raw to see every \
         field."
    );
    assert_eq!(
        t(Error::TextTooLong { len: 65 }),
        "text: 65 bytes exceeds the 64-byte mailbox buffer"
    );
    assert_eq!(t(Error::StatsBase), "stats: `base` required as \"0x...\"");
    assert_eq!(
        t(Error::ContextValues),
        "scan_context: `values` must be a non-empty array of ints"
    );
}
