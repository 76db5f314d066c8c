use statmind::dump_job::{dump_job, Action, DumpEnd, DumpTool, Event};
use statmind::error::Error;
use statmind::memory::{Read, Reply, Stop, Tape};
use statmind::scoresheet::{
    decode_status, find, found, ready, result_text, status, status_text, SS_CHECK, SS_MAGIC,
};
use std::collections::BTreeMap;

struct Mem {
    bytes: BTreeMap<u64, u8>,
}

impl Mem {
    fn new() -> Mem {
        Mem { bytes: BTreeMap::new() }
    }

    fn put(&mut self, addr: u64, b: &[u8]) {
        for (i, x) in b.iter().enumerate() {
            self.bytes.insert(addr + i as u64, *x);
        }
    }

    fn word(&mut self, addr: u64, w: u32) {
        self.put(addr, &w.to_le_bytes());
    }

    fn read(&self, q: Read) -> Reply {
        let mut out = Vec::new();
        for i in 0..q.len as u64 {
            match self.bytes.get(&(q.addr.wrapping_add(i))) {
                Some(b) => out.push(*b),
                None => return Reply::Failed(14),
            }
        }
        Reply::Bytes(out)
    }

    fn run<T>(&self, mut f: impl FnMut(&mut Tape) -> Result<T, Stop>) -> Result<T, Error> {
        let mut tape = Tape::new();
        loop {
            tape.rewind();
            match f(&mut tape) {
                Ok(v) => return Ok(v),
                Err(Stop::Fail(e)) => return Err(e),
                Err(Stop::Need(q)) => {
                    let reply = self.read(q);
                    assert!(reply.fits(q));
                    tape.record(q, reply);
                }
            }
        }
    }
}

#[test]
fn states_and_outcomes_have_words() {
    assert_eq!(status_text(0), "untried");
    assert_eq!(status_text(1), "ready");
    assert_eq!(status_text(-1), "disabled by STATMIND_SCORESHEET=0");
    assert_eq!(status_text(-2), "GetModuleHandle(NULL) failed");
    assert_eq!(status_text(-3), "no PE header at the module base");
    assert_eq!(status_text(-4), "writer fingerprint failed -- not Beta 17.1");
    assert_eq!(status_text(-5), "call site did not match -- no Scorekeeper pointer");
    assert_eq!(status_text(-6), "not a Win32 build");
    assert_eq!(status_text(-7), "unknown");
    assert_eq!(status_text(2), "unknown");
    assert_eq!(result_text(0), "no dump yet");
    assert_eq!(result_text(1), "ok");
    assert_eq!(result_text(-1), "writer not ready");
    assert_eq!(result_text(-2), "refused: re-entered the frame hook");
    assert_eq!(result_text(5), "unknown");
}

fn block() -> Mem {
    let mut m = Mem::new();
    m.put(0x1000, &vec![0u8; 0x120]);
    m.word(0x1008, 1);
    m.word(0x100C, 0x0040_0000);
    m.word(0x1010, 0x0041_2345);
    m.word(0x1014, 0x00CD_0000);
    m.word(0x1018, 3);
    m.word(0x101C, 2);
    m.word(0x1020, -2i32 as u32);
    m.word(0x1024, 4);
    m
}

#[test]
fn the_status_block_is_read() {
    let mut m = block();
    m.word(0x1028, 5);
    m.put(0x102C, "dumpsX".as_bytes());
    m.put(0x10EC, &[0x0A, 0xFF]);
    let s = m.run(|t| status(0x1000, t)).unwrap();
    assert_eq!(s.addr, "0x00001000");
    assert_eq!((s.status, s.status_text), (1, "ready"));
    assert_eq!((s.last_result, s.last_result_text), (-2, "refused: re-entered the frame hook"));
    assert_eq!(s.module_base, "0x00400000");
    assert_eq!(s.writer, "0x00412345");
    assert_eq!(s.scorekeeper, "0x00CD0000");
    assert_eq!((s.req, s.done, s.calls), (3, 2, 4));
    assert_eq!(s.returned, "dumps");
    assert!(s.ret_raw.starts_with("0a ff 00"));
    assert_eq!(s.ret_raw.len(), 32 * 3 - 1);
    assert_eq!(ready(&s), Ok(()));
}

#[test]
fn the_returned_text_is_bounded_and_may_be_empty() {
    let mut m = block();
    assert_eq!(m.run(|t| status(0x1000, t)).unwrap().returned, "");
    m.word(0x1028, 100_000);
    m.put(0x102C, &[b'a'; 192]);
    assert_eq!(m.run(|t| status(0x1000, t)).unwrap().returned.len(), 192);
    // what is no text is replaced
    m.word(0x1028, 3);
    m.put(0x102C, &[b'x', 0xFF, b'y']);
    assert_eq!(m.run(|t| status(0x1000, t)).unwrap().returned, "x\u{FFFD}y");
    m.word(0x1028, 2);
    m.put(0x102C, "\u{E9}".as_bytes());
    assert_eq!(m.run(|t| status(0x1000, t)).unwrap().returned, "\u{E9}");
}

#[test]
fn a_writer_that_is_not_ready_is_the_reason() {
    let mut m = block();
    m.word(0x1008, -4i32 as u32);
    let s = m.run(|t| status(0x1000, t)).unwrap();
    let e = ready(&s).unwrap_err();
    assert_eq!(e, Error::DumpUnavailable { status: -4 });
    assert_eq!(
        e.to_text(""),
        "stat_dump unavailable: writer fingerprint failed -- not Beta 17.1 (status -4)"
    );
    assert_eq!(Mem::new().run(|t| status(0x1000, t)).err(), Some(Error::Os { code: 14 }));
}

#[test]
fn a_status_is_put_together_from_its_parts() {
    let s = decode_status(
        0x2000,
        &vec![0, 1, 9],
        "text".to_string(),
        &vec![1, 2, 3, 4, 5, 6],
        &vec![1, 2],
    );
    assert_eq!((s.status, s.status_text), (0, "untried"));
    assert_eq!((s.last_result, s.last_result_text), (1, "ok"));
    assert_eq!((s.module_base.as_str(), s.writer.as_str()), ("0x00000001", "0x00000002"));
    assert_eq!((s.scorekeeper.as_str(), s.req, s.done, s.calls), ("0x00000003", 4, 5, 6));
    assert_eq!((s.returned.as_str(), s.ret_raw.as_str()), ("text", "01 02"));
}

#[test]
fn the_status_block_is_found_by_its_marks() {
    let mut m = Mem::new();
    m.word(0x2000, SS_MAGIC);
    m.word(0x2004, SS_CHECK);
    let mut s = find(vec![(0x1000, 0x1004), (0x2000, 0x2008)]);
    while let Some(q) = s.next() {
        s = s.supply(m.read(q));
    }
    assert_eq!(found(s), Ok(0x2000));
    assert_eq!(found(find(vec![])), Err(Error::ScoresheetNotFound));
}

/// Carries a job out on a memory; a dump that is asked for ends with `report`.
fn carry_out(
    m: &Mem,
    tool: DumpTool,
    cached: Option<u64>,
    report: Result<String, String>,
) -> (Option<u64>, Option<DumpEnd>, Vec<u16>) {
    let mut job = dump_job(tool, cached);
    let mut asked = Vec::new();
    loop {
        let event = match job.next() {
            Action::Find => Event::Found(Ok(0x1000)),
            Action::Read(q) => Event::Reply(m.read(q)),
            Action::Submit { budget_ms } => {
                asked.push(budget_ms);
                Event::Submitted(report.clone())
            }
            Action::Over => break,
        };
        job = job.supply(event);
    }
    (job.located(), job.finish(), asked)
}

#[test]
fn a_dump_is_asked_for_once_the_writer_is_ready() {
    let mut m = block();
    let tool = DumpTool::Dump { budget_ms: 250 };
    let (at, end, asked) = carry_out(&m, tool, None, Ok("DUMP completed".to_string()));
    assert_eq!((at, asked), (Some(0x1000), vec![250]));
    match end {
        Some(DumpEnd::Dumped { note, after }) => {
            assert_eq!((note.as_str(), after.calls), ("DUMP completed", 4));
        }
        other => panic!("{:?}", other),
    }
    let (_, end, asked) = carry_out(&m, tool, Some(0x1000), Err("never".to_string()));
    assert_eq!(asked, vec![250]);
    match end {
        Some(DumpEnd::Refused { note }) => assert_eq!(note, "never"),
        other => panic!("{:?}", other),
    }
    m.word(0x1008, -6i32 as u32);
    let (_, end, asked) = carry_out(&m, tool, Some(0x1000), Ok(String::new()));
    assert_eq!(asked.len(), 0);
    assert!(matches!(
        end,
        Some(DumpEnd::Failed { error: Error::DumpUnavailable { status: -6 } })
    ));
}

#[test]
fn the_state_of_the_channel_is_told_without_a_dump() {
    let m = block();
    let (at, end, asked) = carry_out(&m, DumpTool::Status, None, Ok(String::new()));
    assert_eq!((at, asked.len()), (Some(0x1000), 0));
    match end {
        Some(DumpEnd::Status(s)) => assert_eq!((s.status, s.calls), (1, 4)),
        other => panic!("{:?}", other),
    }
    let (_, end, _) = carry_out(&Mem::new(), DumpTool::Status, Some(8), Ok(String::new()));
    assert!(matches!(end, Some(DumpEnd::Failed { error: Error::Os { code: 14 } })));
    let job = dump_job(DumpTool::Status, None);
    let job = job.supply(Event::Found(Err(Error::ScoresheetNotFound)));
    assert_eq!(job.located(), None);
    assert!(matches!(
        job.finish(),
        Some(DumpEnd::Failed { error: Error::ScoresheetNotFound })
    ));
}
