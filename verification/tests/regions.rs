use statmind::common::{parse_linux_regions, set_memory_writable};
use statmind::error::Error;

#[test]
fn parses_low_readable_and_writable_proc_maps() {
    let maps = "00400000-00452000 r-xp 00000000 00:00 0\n\
                00652000-00653000 rw-p 00052000 00:00 0\n\
                100000000-100001000 rw-p 00000000 00:00 0\n";
    assert_eq!(
        parse_linux_regions(maps, false),
        vec![(0x00400000, 0x00452000), (0x00652000, 0x00653000)]
    );
    assert_eq!(
        parse_linux_regions(maps, true),
        vec![(0x00652000, 0x00653000)]
    );
}

#[test]
fn lines_without_a_region_are_passed_over() {
    let maps = "\n\
                00400000\n\
                nonsense r--p\n\
                00400000-zz r--p\n\
                00400000-00401000 ---p\n\
                00402000-00403000 r\n\
                  00404000-00405000\trw-p 0\r\n";
    assert_eq!(
        parse_linux_regions(maps, false),
        vec![(0x402000, 0x403000), (0x404000, 0x405000)]
    );
    assert_eq!(parse_linux_regions(maps, true), vec![(0x404000, 0x405000)]);
    assert_eq!(parse_linux_regions("", false), vec![]);
}

#[test]
fn a_region_across_the_limit_is_cut_off() {
    let maps = "fffff000-100002000 rw-p 0 00:00 0\n";
    assert_eq!(
        parse_linux_regions(maps, true),
        vec![(0xFFFF_F000, 0xFFFF_FFFF)]
    );
}

#[test]
fn a_range_is_writable_where_one_region_covers_it() {
    let regions = || vec![(0x1000usize, 0x2000usize), (0x2000, 0x3000)];
    assert_eq!(set_memory_writable(Ok(regions()), 0x1800, 0x800), Ok(()));
    assert_eq!(
        set_memory_writable(Ok(regions()), 0x1800, 0x801),
        Err(Error::NotWritable { address: 0x1800, end: 0x2001 })
    );
    assert_eq!(
        set_memory_writable(Ok(regions()), usize::MAX, 1),
        Err(Error::AddressOverflow)
    );
    assert_eq!(
        set_memory_writable(Err(13), 0x1800, 8),
        Err(Error::Os { code: 13 })
    );
}

#[test]
fn joined_texts_list_the_regions_of_both() {
    let texts = ["", "\r", "1000-2000 rw-p", "1000-2000 r--p\r", "x\n3000-4000 rw-p 0\n", " \n"];
    for a in texts {
        for b in texts {
            for w in [false, true] {
                let mut both = parse_linux_regions(a, w);
                both.extend(parse_linux_regions(b, w));
                assert_eq!(parse_linux_regions(&format!("{}\n{}", a, b), w), both);
            }
        }
    }
}
