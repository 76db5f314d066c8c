use statmind::common::{scan_linux_magic, scan_macos_magic, MagicScan, Region};
use statmind::error::Error;
use statmind::memory::{Read, Reply, Stop, Tape};
use statmind::scan::{
    read_window, scan_changed, scan_context, scan_filter, scan_new, scan_ptr_to, writable_regions,
    WordScan, CHUNK,
};
use statmind::sweep::{Sweep, Visit};
use std::collections::BTreeMap;

struct Mem {
    bytes: BTreeMap<u64, u8>,
}

impl Mem {
    fn new() -> Mem {
        Mem { bytes: BTreeMap::new() }
    }

    fn put(&mut self, addr: u64, b: &[u8]) {
        for (i, x) in b.iter().enumerate() {
            self.bytes.insert(addr + i as u64, *x);
        }
    }

    fn word(&mut self, addr: u64, w: u32) {
        self.put(addr, &w.to_le_bytes());
    }

    fn read(&self, q: Read) -> Reply {
        let mut out = Vec::new();
        for i in 0..q.len as u64 {
            match self.bytes.get(&(q.addr.wrapping_add(i))) {
                Some(b) => out.push(*b),
                None => return Reply::Failed(14),
            }
        }
        Reply::Bytes(out)
    }

    fn run<T>(&self, mut f: impl FnMut(&mut Tape) -> Result<T, Stop>) -> Result<T, Error> {
        let mut tape = Tape::new();
        loop {
            tape.rewind();
            match f(&mut tape) {
                Ok(v) => return Ok(v),
                Err(Stop::Fail(e)) => return Err(e),
                Err(Stop::Need(q)) => {
                    let reply = self.read(q);
                    assert!(reply.fits(q));
                    tape.record(q, reply);
                }
            }
        }
    }

    fn scan(&self, mut s: WordScan) -> WordScan {
        while let Some(q) = s.next() {
            s = s.supply(self.read(q));
        }
        s
    }

    fn sweep<V: Visit>(&self, mut s: Sweep<V>) -> Vec<V::Hit> {
        while let Some(q) = s.next() {
            s = s.supply(self.read(q));
        }
        s.hits()
    }

    fn hunt(&self, mut s: MagicScan) -> Result<u64, Error> {
        while let Some(q) = s.next() {
            s = s.supply(self.read(q));
        }
        s.outcome()
    }
}

fn region(address: u64, size: u64, readable: bool, writable: bool) -> Region {
    Region { address, size, readable, writable }
}

#[test]
fn writable_regions_are_cut_off_at_the_limit() {
    let v = vec![
        region(0x1000, 0x1000, true, true),
        region(0x3000, 0x1000, true, false),
        region(0x5000, 0x1000, false, true),
        region(0x7000, 0, true, true),
        region(0xFFFF_F000, 0x2000, true, true),
        region(0x1_0000_0000, 0x1000, true, true),
        region(0x9000, 0x1000, true, true),
    ];
    assert_eq!(
        writable_regions(Some(&v)),
        Ok(vec![(0x1000, 0x2000), (0xFFFF_F000, 0xFFFF_FFFF)])
    );
    assert_eq!(writable_regions(None), Err(Error::RegionsUnsupported));
}

#[test]
fn a_scan_finds_aligned_words_in_every_chunk() {
    let mut m = Mem::new();
    m.put(0x1_0000, &vec![0u8; CHUNK + 64]);
    m.word(0x1_0000, 228);
    m.word(0x1_0006, 228);
    m.word(0x1_0000 + CHUNK as u64 + 8, 228);
    let end = 0x1_0000 + CHUNK as u64 + 64;
    let s = m.scan(scan_new(vec![(0x1_0000, end), (0x90_0000, 0x90_1000)], 228));
    assert_eq!(s.addresses(), vec![0x1_0000, 0x1_0000 + CHUNK as u64 + 8]);
    assert_eq!(s.hits(), vec![(0x1_0000, 228), (0x1_0000 + CHUNK as u64 + 8, 228)]);
    let s = m.scan(scan_new(vec![(0x1_0000, end)], -1));
    assert_eq!(s.addresses(), vec![]);
}

#[test]
fn a_scan_for_pointers_takes_a_range_and_stops_at_its_cap() {
    let mut m = Mem::new();
    m.put(0x1000, &[0u8; 32]);
    m.word(0x1004, 0x5000);
    m.word(0x1008, 0x5010);
    m.word(0x100C, 0x5011);
    let s = m.scan(scan_ptr_to(vec![(0x1000, 0x1020)], 0x5000, 0x5010));
    assert_eq!(s.hits(), vec![(0x1004, 0x5000), (0x1008, 0x5010)]);
    let mut s = scan_ptr_to(vec![(0, 1 << 24)], 0, 0);
    let mut reads = 0;
    while let Some(q) = s.next() {
        reads += 1;
        s = s.supply(Reply::Bytes(vec![0u8; q.len]));
    }
    assert_eq!(reads, 4);
    assert_eq!(s.hits().len(), 200_000);
}

#[test]
fn a_filter_keeps_what_holds_the_value_now() {
    let mut m = Mem::new();
    m.word(0x1000, 5);
    m.word(0x2000, 6);
    m.word(0x3000, -7i32 as u32);
    let cands = vec![0x1000, 0x2000, 0x3000, 0x4000];
    assert_eq!(m.sweep(scan_filter(cands.clone(), 6)), vec![0x2000]);
    assert_eq!(m.sweep(scan_filter(cands.clone(), -7)), vec![0x3000]);
    assert_eq!(m.sweep(scan_changed(cands, 5)), vec![(0x2000, 6), (0x3000, -7)]);
    assert_eq!(m.sweep(scan_filter(vec![], 6)), vec![]);
}

#[test]
fn a_context_needs_all_values_near() {
    let mut m = Mem::new();
    m.put(0x1000, &[0u8; 64]);
    m.word(0x1008, 250);
    m.word(0x1010, 228);
    m.word(0x1018, 100);
    m.word(0x101C, 100);
    let hits = m.sweep(scan_context(vec![0x1010], vec![100, 250], 8));
    assert_eq!(hits, vec![(0x1010, vec![(100, 8), (250, -8)])]);
    assert_eq!(m.sweep(scan_context(vec![0x1010], vec![100, 251], 8)), vec![]);
    // offsets count from the candidate, whatever the window
    let mut m = Mem::new();
    m.put(0xFF0, &[0u8; 64]);
    m.word(0x1000, 7);
    m.word(0x1008, 5);
    for window in 8..12 {
        assert_eq!(
            m.sweep(scan_context(vec![0x1000], vec![7, 5], window)),
            vec![(0x1000, vec![(7, 0), (5, 8)])]
        );
    }
    // and from the start of the window
    m.word(0xFF6, 11);
    assert_eq!(
        m.sweep(scan_context(vec![0x1000], vec![11], 10)),
        vec![(0x1000, vec![(11, -10)])]
    );
    assert_eq!(m.sweep(scan_context(vec![0x1000], vec![11], 12)), vec![]);
    // where those come first
    m.word(0xFF8, 13);
    m.word(0x1002, 13);
    m.word(0x1000, 7);
    m.word(0x1006, 13);
    assert_eq!(
        m.sweep(scan_context(vec![0x1000], vec![13, 7], 10)),
        vec![(0x1000, vec![(13, 6), (7, 0)])]
    );
    m.put(0xFF0, &[0u8; 64]);
    m.word(0x100C, 6);
    assert_eq!(m.sweep(scan_context(vec![0x1000], vec![6], 11)), vec![]);
    assert_eq!(
        m.sweep(scan_context(vec![0x1000], vec![6], 12)),
        vec![(0x1000, vec![(6, 12)])]
    );
    // the block around an address that is too close to zero starts at the first word
    let mut low = Mem::new();
    low.put(0, &[0u8; 32]);
    low.word(0, 9);
    assert_eq!(
        low.sweep(scan_context(vec![4], vec![9], 8)),
        vec![(4, vec![(9, -4)])]
    );
    low.word(14, 3);
    assert_eq!(
        low.sweep(scan_context(vec![6], vec![3], 9)),
        vec![(6, vec![(3, 8)])]
    );
    // a block that cannot be read as a whole is no match
    assert_eq!(m.sweep(scan_context(vec![0x102C], vec![0], 8)), vec![]);
}

#[test]
fn a_window_is_read_as_integers() {
    let mut m = Mem::new();
    m.word(0x1000, 1);
    m.word(0x1004, -2i32 as u32);
    assert_eq!(m.run(|t| read_window(0x1000, 2, t)), Ok(vec![1, -2]));
    assert_eq!(m.run(|t| read_window(0x1000, 3, t)), Err(Error::Os { code: 14 }));
}

const MAGIC: u32 = 0x64AD_FA4C;
const CHECK: u32 = 0x7953_3ED9;

#[test]
fn a_pair_is_found_at_its_address() {
    let mut m = Mem::new();
    m.put(0x40_0000, &[0u8; 64]);
    m.word(0x40_0010, MAGIC);
    m.word(0x40_0014, CHECK);
    let regions = vec![(0x10_0000usize, 0x10_1000usize), (0x40_0000, 0x40_0040)];
    assert_eq!(m.hunt(scan_linux_magic(&regions, MAGIC, CHECK)), Ok(0x40_0010));
    assert_eq!(
        m.hunt(scan_linux_magic(&regions, MAGIC, 1)),
        Err(Error::MagicNotFound { magic: MAGIC, check: 1 })
    );
    // only every fourth offset is tried
    let mut m = Mem::new();
    m.put(0x40_0000, &[0u8; 64]);
    m.word(0x40_0011, MAGIC);
    m.word(0x40_0015, CHECK);
    assert_eq!(
        m.hunt(scan_linux_magic(&regions, MAGIC, CHECK)),
        Err(Error::MagicNotFound { magic: MAGIC, check: CHECK })
    );
    // but every offset in a walk over the kernel's regions
    let kernel = vec![region(0x40_0000, 0x40, true, false)];
    assert_eq!(m.hunt(scan_macos_magic(&kernel, MAGIC, CHECK, false)), Ok(0x40_0011));
    assert_eq!(
        m.hunt(scan_macos_magic(&kernel, MAGIC, CHECK, true)),
        Err(Error::MagicNotInRegions { magic: MAGIC, check: CHECK })
    );
}

#[test]
fn a_pair_across_a_chunk_border_is_found_in_overlapping_reads() {
    let mut m = Mem::new();
    m.put(0x40_0000, &vec![0u8; 70_000]);
    m.word(0x40_0000 + 65_532, MAGIC);
    m.word(0x40_0000 + 65_536, CHECK);
    let kernel = vec![region(0x40_0000, 70_000, true, true)];
    assert_eq!(
        m.hunt(scan_macos_magic(&kernel, MAGIC, CHECK, true)),
        Ok(0x40_0000 + 65_532)
    );
    // reads that only follow each other miss it, and find one that is whole
    let regions = vec![(0x40_0000, 0x40_0000 + 70_000)];
    assert_eq!(
        m.hunt(scan_linux_magic(&regions, MAGIC, CHECK)),
        Err(Error::MagicNotFound { magic: MAGIC, check: CHECK })
    );
    m.word(0x40_0000 + 65_540, MAGIC);
    m.word(0x40_0000 + 65_544, CHECK);
    assert_eq!(
        m.hunt(scan_linux_magic(&regions, MAGIC, CHECK)),
        Ok(0x40_0000 + 65_540)
    );
}

#[test]
fn a_scan_lists_hits_in_order_over_all_regions() {
    let mut m = Mem::new();
    m.put(0x1000, &[0u8; 32]);
    m.put(0x3000, &[0u8; 32]);
    for a in [0x1010, 0x1004, 0x3000, 0x301C] {
        m.word(a, 5);
    }
    // the middle region cannot be read
    let regions = vec![(0x1000, 0x1020), (0x2000, 0x2020), (0x3000, 0x3020)];
    let s = m.scan(scan_new(regions, 5));
    assert_eq!(s.addresses(), vec![0x1004, 0x1010, 0x3000, 0x301C]);
}

#[test]
fn the_lowest_pair_of_all_regions_is_found() {
    let mut m = Mem::new();
    for base in [0x40_0000u64, 0x50_0000, 0x60_0000] {
        m.put(base, &[0u8; 64]);
    }
    for a in [0x60_0000u64, 0x50_0020, 0x50_0030] {
        m.word(a, MAGIC);
        m.word(a + 4, CHECK);
    }
    let regions = vec![
        (0x40_0000usize, 0x40_0040usize),
        (0x50_0000, 0x50_0040),
        (0x60_0000, 0x60_0040),
    ];
    assert_eq!(m.hunt(scan_linux_magic(&regions, MAGIC, CHECK)), Ok(0x50_0020));
    let mut kernel = Vec::new();
    for r in &regions {
        kernel.push(region(r.0 as u64, 0x40, true, true));
    }
    assert_eq!(m.hunt(scan_macos_magic(&kernel, MAGIC, CHECK, true)), Ok(0x50_0020));
    kernel[1].writable = false;
    assert_eq!(m.hunt(scan_macos_magic(&kernel, MAGIC, CHECK, true)), Ok(0x60_0000));
}
