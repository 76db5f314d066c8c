use statmind::blit::{
    clear_write, enable_write, find, found, game_to_pixel, read_draws, read_view_origin,
    screen_to_game, status, Draw, BLIT_CHECK, BLIT_MAGIC,
};
use statmind::blit_job::{blit_job, Action, BlitAnswer, BlitTool, Event};
use statmind::common::Addrs;
use statmind::error::Error;
use statmind::memory::{Read, Reply, Stop, Tape};
use statmind::scan::Marked;
use statmind::screen::{fits, screen, ScreenCell};
use statmind::search::Search;
use std::collections::BTreeMap;

struct Mem {
    bytes: BTreeMap<u64, u8>,
}

impl Mem {
    fn new() -> Mem {
        Mem { bytes: BTreeMap::new() }
    }

    fn put(&mut self, addr: u64, b: &[u8]) {
        for (i, x) in b.iter().enumerate() {
            self.bytes.insert(addr + i as u64, *x);
        }
    }

    fn word(&mut self, addr: u64, w: u32) {
        self.put(addr, &w.to_le_bytes());
    }

    fn read(&self, q: Read) -> Reply {
        let mut out = Vec::new();
        for i in 0..q.len as u64 {
            match self.bytes.get(&(q.addr.wrapping_add(i))) {
                Some(b) => out.push(*b),
                None => return Reply::Failed(14),
            }
        }
        Reply::Bytes(out)
    }

    fn run<T>(&self, mut f: impl FnMut(&mut Tape) -> Result<T, Stop>) -> Result<T, Error> {
        let mut tape = Tape::new();
        loop {
            tape.rewind();
            match f(&mut tape) {
                Ok(v) => return Ok(v),
                Err(Stop::Fail(e)) => return Err(e),
                Err(Stop::Need(q)) => {
                    let reply = self.read(q);
                    assert!(reply.fits(q));
                    tape.record(q, reply);
                }
            }
        }
    }
}

#[test]
fn pixels_and_cells_convert() {
    assert_eq!(screen_to_game(0, 0, 32, 8), (32, 8));
    assert_eq!(screen_to_game(24, 47, 32, 8), (33, 9));
    assert_eq!(screen_to_game(23, 23, -1, 0), (-1, 0));
    // toward zero, on both sides of it
    assert_eq!(screen_to_game(-23, -24, 0, 0), (0, -1));
    assert_eq!(screen_to_game(i32::MIN, 0, 0, 0), (-89_478_485, 0));
    assert_eq!(game_to_pixel(33, 9, 32, 8), (24, 24));
    assert_eq!(game_to_pixel(27, 8, 32, 8), (-120, 0));
}

#[test]
fn the_pixel_of_a_cell_shows_that_cell() {
    for x in [-50, -1, 0, 1, 77] {
        for o in [-3, 0, 27] {
            let (px, py) = game_to_pixel(x, x + 1, o, o);
            assert_eq!(screen_to_game(px, py, o, o), (x, x + 1));
            if x >= o {
                assert_eq!(screen_to_game(px + 23, py + 23, o, o), (x, x + 1));
            }
        }
    }
}

const VIEW: u64 = 0x00CD_9FB4;

fn build() -> Addrs {
    Addrs {
        build_stamp: 0x65,
        luigi: 0xCD_0000,
        map_object: 0xCE_0000,
        player_rec: None,
        view_origin: VIEW as usize,
    }
}

#[test]
fn the_view_origin_is_read_where_the_build_has_it() {
    let mut m = Mem::new();
    m.word(VIEW, 27);
    m.word(VIEW + 4, 8);
    // another build's place
    m.word(0x00CD_8FA4, 1);
    m.word(0x00CD_8FA8, 2);
    let v = m.run(|t| read_view_origin(Ok(build()), t)).unwrap();
    assert_eq!(v.addr, "0x00CD9FB4");
    assert_eq!((v.x, v.y, v.plausible), (27, 8, true));
    let other = Addrs { view_origin: 0x00CD_8FA4, ..build() };
    let v = m.run(|t| read_view_origin(Ok(other), t)).unwrap();
    assert_eq!((v.addr.as_str(), v.x, v.y), ("0x00CD8FA4", 1, 2));
    m.word(VIEW, -1i32 as u32);
    let v = m.run(|t| read_view_origin(Ok(build()), t)).unwrap();
    assert_eq!((v.x, v.plausible), (-1, false));
    m.word(VIEW, 1024);
    assert!(!m.run(|t| read_view_origin(Ok(build()), t)).unwrap().plausible);
    // without addresses nothing is read
    let e = Error::UnknownBuild { stamp: 7 };
    assert_eq!(Mem::new().run(|t| read_view_origin(Err(e), t)).err(), Some(e));
}

#[test]
fn the_header_of_the_log_is_read() {
    let mut m = Mem::new();
    for i in 0..8 {
        m.word(0x1008 + 4 * i, 100 + i as u32);
    }
    m.word(0x1008, -1i32 as u32);
    let s = m.run(|t| status(0x1000, t)).unwrap();
    assert_eq!(s.addr, "0x00001000");
    assert_eq!((s.enabled, s.clear_req, s.clear_seen, s.frame), (-1, 101, 102, 103));
    assert_eq!((s.count, s.dropped, s.total, s.max), (104, 105, 106, 107));
    assert_eq!(m.run(|t| status(0x2000, t)).err(), Some(Error::Os { code: 14 }));
}

fn search(m: &Mem, mut s: Search<Marked>) -> (Search<Marked>, usize) {
    let mut reads = 0;
    while let Some(q) = s.next() {
        reads += 1;
        s = s.supply(m.read(q));
    }
    (s, reads)
}

#[test]
fn the_log_is_the_first_place_with_both_marks() {
    let mut m = Mem::new();
    for w in 0..16 {
        m.word(0x1000 + 4 * w, 0);
    }
    // the first mark alone, then both, twice
    m.word(0x1008, BLIT_MAGIC);
    m.word(0x1010, BLIT_MAGIC);
    m.word(0x1014, BLIT_CHECK);
    m.word(0x1020, BLIT_MAGIC);
    m.word(0x1024, BLIT_CHECK);
    let (s, reads) = search(&m, find(vec![(0x800, 0x900), (0x1000, 0x1040)]));
    // both regions, and the word after each of the first two marks
    assert_eq!(reads, 4);
    assert_eq!(found(s), Ok(0x1010));
    let (s, reads) = search(&m, find(vec![(0x1000, 0x1010)]));
    assert_eq!(reads, 2);
    assert_eq!(found(s), Err(Error::BlitNotFound));
    assert_eq!(found(find(vec![])), Err(Error::BlitNotFound));
}

#[test]
fn the_log_is_switched_and_cleared_by_single_words() {
    let w = enable_write(0x1000, true);
    assert_eq!((w.addr, w.bytes), (0x1008, vec![1, 0, 0, 0]));
    let w = enable_write(0x1000, false);
    assert_eq!((w.addr, w.bytes), (0x1008, vec![0, 0, 0, 0]));
    let w = clear_write(0x1000, 0x01FF);
    assert_eq!((w.addr, w.bytes), (0x100C, vec![0, 2, 0, 0]));
}

fn draw_bytes(v: [i16; 6], kind: u16, arg: u32) -> Vec<u8> {
    let mut b = Vec::new();
    for x in v {
        b.extend_from_slice(&x.to_le_bytes());
    }
    b.extend_from_slice(&kind.to_le_bytes());
    b.extend_from_slice(&[0xAA, 0xAA]);
    b.extend_from_slice(&arg.to_le_bytes());
    b
}

#[test]
fn draws_are_read_up_to_the_limit() {
    let mut m = Mem::new();
    m.word(0x1014, 9);
    m.word(0x1018, 2);
    m.put(0x1028, &draw_bytes([24, -48, 12, 24, 3, 4], 0, 0xDEAD_BEEF));
    m.put(0x1028 + 20, &draw_bytes([0, 0, 24, 24, 0, 0], 1, 7));
    let (frame, count, draws) = m.run(|t| read_draws(0x1000, 16384, t)).unwrap();
    assert_eq!((frame, count), (9, 2));
    assert_eq!(
        draws,
        vec![
            Draw { dx: 24, dy: -48, w: 12, h: 24, sx: 3, sy: 4, kind: 0, arg: 0xDEAD_BEEF },
            Draw { dx: 0, dy: 0, w: 24, h: 24, sx: 0, sy: 0, kind: 1, arg: 7 },
        ]
    );
    let (_, count, draws) = m.run(|t| read_draws(0x1000, 1, t)).unwrap();
    assert_eq!((count, draws.len()), (2, 1));
    let (_, _, draws) = m.run(|t| read_draws(0x1000, 0, t)).unwrap();
    assert_eq!(draws.len(), 0);
    m.word(0x1018, 16385);
    assert_eq!(
        m.run(|t| read_draws(0x1000, 1, t)).err(),
        Some(Error::DrawCount { count: 16385 })
    );
    m.word(0x1018, 16384);
    assert_eq!(m.run(|t| read_draws(0x1000, 16384, t)).err(), Some(Error::Os { code: 14 }));
}

fn blit_at(dx: i16, dy: i16) -> Draw {
    Draw { dx, dy, w: 12, h: 24, sx: 0, sy: 0, kind: 0, arg: 0 }
}

#[test]
fn a_screen_counts_every_draw_once() {
    let draws = vec![
        blit_at(48, 0),
        blit_at(0, 24),
        blit_at(12, 24),
        blit_at(0, 0),
        blit_at(60, 23),
        blit_at(2400, 0),
        blit_at(-24, 0),
    ];
    let s = screen(&draws, (10, 20), (13, 22));
    assert_eq!(
        s.cells,
        vec![
            ScreenCell { x: 9, y: 20, draws: 1 },
            ScreenCell { x: 10, y: 20, draws: 1 },
            ScreenCell { x: 10, y: 21, draws: 2 },
            ScreenCell { x: 12, y: 20, draws: 2 },
        ]
    );
    assert_eq!(s.hud_draws, 1);
    let s = screen(&draws, (10, 20), (0, 0));
    assert_eq!((s.cells.len(), s.hud_draws), (0, 7));
}

#[test]
fn a_view_at_the_limits_shows_what_can_be_represented() {
    let near = vec![blit_at(0, 0), blit_at(-24, 23), blit_at(-23, 0)];
    assert!(fits(&near, (i32::MAX, i32::MIN)));
    let s = screen(&near, (i32::MAX, i32::MIN), (100, 100));
    assert_eq!((s.cells.len(), s.hud_draws), (0, 3));
    assert!(!fits(&vec![blit_at(0, 0), blit_at(24, 0)], (i32::MAX, 0)));
    assert!(fits(&vec![blit_at(24, 0)], (i32::MAX - 1, 0)));
    assert!(!fits(&vec![blit_at(0, -24)], (0, i32::MIN)));
    assert!(fits(&vec![], (i32::MAX, i32::MIN)));
}

/// Carries a job out on a memory; `deeds` gets what it did besides reading.
fn carry_out(
    m: &mut Mem,
    tool: BlitTool,
    cached: Option<u64>,
    dims: Option<(i32, i32)>,
    deeds: &mut Vec<String>,
) -> (Option<u64>, Option<Result<BlitAnswer, Error>>) {
    let mut job = blit_job(tool, cached);
    loop {
        let event = match job.next() {
            Action::Find => {
                deeds.push("find".to_string());
                let (s, _) = search(m, find(vec![(0x1000, 0x1028)]));
                Event::Found(found(s))
            }
            Action::Header => {
                deeds.push("header".to_string());
                Event::Header(dims)
            }
            Action::Addrs => {
                deeds.push("addrs".to_string());
                Event::Addrs(Ok(build()))
            }
            Action::Read(q) => Event::Reply(m.read(q)),
            Action::Protect { addr, len } => {
                deeds.push(format!("protect {:x} {}", addr, len));
                Event::Protected(None)
            }
            Action::Write(w) => {
                deeds.push(format!("write {:x} {:?}", w.addr, w.bytes));
                m.put(w.addr, &w.bytes);
                Event::Written(None)
            }
            Action::Over => break,
        };
        job = job.supply(event);
    }
    (job.located(), job.finish())
}

fn log_at_1000() -> Mem {
    let mut m = Mem::new();
    m.word(0x1000, BLIT_MAGIC);
    m.word(0x1004, BLIT_CHECK);
    for i in 0..8 {
        m.word(0x1008 + 4 * i, 0);
    }
    m.word(0x100C, 41);
    m
}

#[test]
fn looking_at_the_log_changes_nothing() {
    let mut m = log_at_1000();
    m.word(VIEW, 3);
    m.word(VIEW + 4, 4);
    let mut deeds = Vec::new();
    let (at, end) = carry_out(&mut m, BlitTool::Status, None, None, &mut deeds);
    assert_eq!(at, Some(0x1000));
    assert_eq!(deeds, vec!["find"]);
    match end {
        Some(Ok(BlitAnswer::Status(s))) => assert_eq!((s.enabled, s.clear_req), (0, 41)),
        other => panic!("{:?}", other),
    }
    let mut deeds = Vec::new();
    let (at, end) = carry_out(&mut m, BlitTool::View, Some(0x1000), None, &mut deeds);
    assert_eq!((at, deeds), (Some(0x1000), vec!["addrs".to_string()]));
    let mut deeds = Vec::new();
    match end {
        Some(Ok(BlitAnswer::View(v))) => assert_eq!((v.x, v.y, v.plausible), (3, 4, true)),
        other => panic!("{:?}", other),
    }
    let (_, end) = carry_out(&mut m, BlitTool::Unknown, None, None, &mut deeds);
    assert_eq!(deeds, vec!["find"]);
    assert!(matches!(end, Some(Ok(BlitAnswer::Nothing))));
}

#[test]
fn a_change_to_the_log_is_written_and_read_back() {
    let mut m = log_at_1000();
    let mut deeds = Vec::new();
    let (_, end) =
        carry_out(&mut m, BlitTool::Enable { on: true }, Some(0x1000), None, &mut deeds);
    assert_eq!(deeds, vec!["protect 1000 64", "write 1008 [1, 0, 0, 0]"]);
    match end {
        Some(Ok(BlitAnswer::Status(s))) => assert_eq!((s.enabled, s.clear_req), (1, 41)),
        other => panic!("{:?}", other),
    }
    let mut deeds = Vec::new();
    let (_, end) = carry_out(&mut m, BlitTool::Clear, None, None, &mut deeds);
    assert_eq!(deeds, vec!["find", "protect 1000 64", "write 100c [42, 0, 0, 0]"]);
    match end {
        Some(Ok(BlitAnswer::Status(s))) => assert_eq!((s.enabled, s.clear_req), (1, 42)),
        other => panic!("{:?}", other),
    }
    // a counter at its end cannot be raised, and nothing is written
    m.word(0x100C, u32::MAX);
    let mut deeds = Vec::new();
    let (_, end) = carry_out(&mut m, BlitTool::Clear, Some(0x1000), None, &mut deeds);
    assert_eq!(deeds.len(), 0);
    assert!(end.is_none());
}

#[test]
fn a_screen_is_read_even_without_a_map_header() {
    let mut m = log_at_1000();
    m.word(VIEW, 10);
    m.word(VIEW + 4, 20);
    m.word(0x1014, 7);
    m.word(0x1018, 1);
    m.put(0x1028, &draw_bytes([24, 0, 12, 24, 0, 0], 0, 0));
    let mut deeds = Vec::new();
    let (_, end) =
        carry_out(&mut m, BlitTool::Screen, Some(0x1000), Some((50, 50)), &mut deeds);
    assert_eq!(deeds, vec!["header", "addrs"]);
    match end {
        Some(Ok(BlitAnswer::Screen { frame, count, origin, dims, screen })) => {
            assert_eq!((frame, count, origin, dims), (7, 1, (10, 20), (50, 50)));
            assert_eq!(screen.cells, vec![ScreenCell { x: 11, y: 20, draws: 1 }]);
        }
        other => panic!("{:?}", other),
    }
    let (_, end) = carry_out(&mut m, BlitTool::Screen, Some(0x1000), None, &mut deeds);
    match end {
        Some(Ok(BlitAnswer::Screen { dims, screen, .. })) => {
            assert_eq!((dims, screen.cells.len(), screen.hud_draws), ((0, 0), 0, 1));
        }
        other => panic!("{:?}", other),
    }
    m.word(VIEW, i32::MAX as u32);
    // a draw one cell to the right of the greatest coordinate shows no cell at all
    let (_, end) = carry_out(&mut m, BlitTool::Screen, Some(0x1000), None, &mut deeds);
    assert!(end.is_none());
    // but at that coordinate it does
    m.put(0x1028, &draw_bytes([0, 0, 12, 24, 0, 0], 0, 0));
    let dims = Some((50, 50));
    match carry_out(&mut m, BlitTool::Screen, Some(0x1000), dims, &mut deeds).1 {
        Some(Ok(BlitAnswer::Screen { origin, screen, .. })) => {
            assert_eq!(origin, (i32::MAX, 20));
            assert_eq!((screen.cells.len(), screen.hud_draws), (0, 1));
        }
        other => panic!("{:?}", other),
    }
    let tool = BlitTool::Frame { limit: 5 };
    match carry_out(&mut m, tool, Some(0x1000), None, &mut deeds).1 {
        Some(Ok(BlitAnswer::Frame { frame, count, draws })) => {
            assert_eq!((frame, count, draws.len()), (7, 1, 1));
        }
        other => panic!("{:?}", other),
    }
}

#[test]
fn a_job_on_the_log_ends_at_the_first_failure() {
    let mut m = Mem::new();
    let mut deeds = Vec::new();
    let (at, end) = carry_out(&mut m, BlitTool::Status, None, None, &mut deeds);
    assert_eq!(at, None);
    assert!(matches!(end, Some(Err(Error::BlitNotFound))));
    let (_, end) = carry_out(&mut m, BlitTool::Clear, Some(0x1000), None, &mut deeds);
    assert!(matches!(end, Some(Err(Error::Os { code: 14 }))));
    let e = Error::UnknownBuild { stamp: 7 };
    let job = blit_job(BlitTool::View, Some(0x1000)).supply(Event::Addrs(Err(e)));
    assert!(matches!(job.next(), Action::Over));
    assert!(matches!(job.finish(), Some(Err(Error::UnknownBuild { stamp: 7 }))));
    let job = blit_job(BlitTool::Enable { on: false }, Some(0x1000));
    let job = job.supply(Event::Protected(Some(Error::ProtectFailed { code: 2 })));
    assert!(matches!(job.finish(), Some(Err(Error::ProtectFailed { code: 2 }))));
    let job = blit_job(BlitTool::Enable { on: false }, Some(0x1000));
    let job = job.supply(Event::Protected(None)).supply(Event::Written(Some(5)));
    assert!(matches!(job.finish(), Some(Err(Error::WriteFailed { code: 5 }))));
}
