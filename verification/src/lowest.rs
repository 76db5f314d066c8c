//! A search through several regions finds the lowest pair of all.

use crate::common;
use crate::common::Hunt;
use crate::memory::{Answer, Read};
use crate::walk;
use vstd::prelude::*;

verus! {

/// What each of the reads brings from a memory that can be read.
pub open spec fn windows(content: spec_fn(int) -> u8, todo: Seq<Read>) -> Seq<Answer> {
    todo.map_values(|q: Read| Answer::Bytes(common::window(content, q)))
}

/// What a search through the reads finds in a memory that can be read.
pub open spec fn found_over(
    content: spec_fn(int) -> u8,
    todo: Seq<Read>,
    stride: int,
    magic: u32,
    check: u32,
) -> Option<int> {
    common::hunt_run((Hunt { todo, found: None }), stride, magic, check, windows(content, todo)).found
}

proof fn found_over_first(
    content: spec_fn(int) -> u8,
    todo: Seq<Read>,
    stride: int,
    magic: u32,
    check: u32,
)
    requires
        todo.len() > 0,
    ensures
        found_over(content, todo, stride, magic, check) == match common::pair_from(
            common::window(content, todo[0]),
            0,
            stride,
            magic,
            check,
        ) {
            Some(o) => Some(todo[0].addr + o),
            None => found_over(content, todo.skip(1), stride, magic, check),
        },
{
    let answers = windows(content, todo);
    assert(answers[0] == Answer::Bytes(common::window(content, todo[0])));
    assert(answers.skip(1) =~= windows(content, todo.skip(1)));
    reveal_with_fuel(common::hunt_run, 2);
}

/// A search through two series of reads finds what it finds in the first, else what it
/// finds in the second.
pub proof fn search_goes_on(
    content: spec_fn(int) -> u8,
    x: Seq<Read>,
    y: Seq<Read>,
    stride: int,
    magic: u32,
    check: u32,
)
    ensures
        found_over(content, x + y, stride, magic, check) == match found_over(
            content,
            x,
            stride,
            magic,
            check,
        ) {
            Some(p) => Some(p),
            None => found_over(content, y, stride, magic, check),
        },
    decreases x.len(),
{
    if x.len() == 0 {
        assert(x + y =~= y);
    } else {
        found_over_first(content, x + y, stride, magic, check);
        found_over_first(content, x, stride, magic, check);
        assert((x + y)[0] == x[0]);
        assert((x + y).skip(1) =~= x.skip(1) + y);
        search_goes_on(content, x.skip(1), y, stride, magic, check);
    }
}

/// What a search finds stands in one of its reads, at a tried offset.
proof fn found_stands(
    content: spec_fn(int) -> u8,
    todo: Seq<Read>,
    stride: int,
    magic: u32,
    check: u32,
) -> (k: int)
    requires
        0 < stride,
        found_over(content, todo, stride, magic, check) is Some,
    ensures
        0 <= k < todo.len(),
        ({
            let p = found_over(content, todo, stride, magic, check)->0;
            &&& todo[k].addr <= p
            &&& p + 8 <= todo[k].addr + todo[k].len
            &&& (p - todo[k].addr) % stride == 0
            &&& common::stands(content, p, magic, check)
        }),
    decreases todo.len(),
{
    if todo.len() == 0 {
        0
    } else {
        found_over_first(content, todo, stride, magic, check);
        let b = common::window(content, todo[0]);
        common::pair_from_is_first(b, 0, stride, magic, check);
        match common::pair_from(b, 0, stride, magic, check) {
            Some(o) => {
                common::window_shows_pairs(content, todo[0], o, magic, check);
                assert((o - 0) % stride == 0);
                0
            },
            None => {
                let k = found_stands(content, todo.skip(1), stride, magic, check);
                assert(todo.skip(1)[k] == todo[k + 1]);
                k + 1
            },
        }
    }
}

/// Whether the eight bytes from `a` on lie in one of the regions.
pub open spec fn lies_in(regions: Seq<(u64, u64)>, a: int) -> bool {
    exists|r: int| 0 <= r < regions.len() && (#[trigger] regions[r]).0 <= a && a + 8 <= regions[r].1
}

/// Whether the eight bytes from `a` on lie in one of the regions, a multiple of four bytes
/// into it and with no chunk ending in them.
pub open spec fn lies_whole_in(regions: Seq<(u64, u64)>, a: int) -> bool {
    exists|r: int|
        0 <= r < regions.len() && (#[trigger] regions[r]).0 <= a && a + 8 <= regions[r].1
            && common::whole_in_chunk(regions[r].0, a)
}

proof fn rest_in_order(regions: Seq<(u64, u64)>)
    requires
        regions.len() > 0,
        common::in_ascending_order(regions),
    ensures
        common::in_ascending_order(regions.skip(1)),
        forall|a: int| lies_in(regions.skip(1), a) ==> regions[0].1 <= a,
        forall|a: int|
            lies_in(regions, a) <==> lies_in(regions.skip(1), a) || regions[0].0 <= a && a + 8
                <= regions[0].1,
        forall|a: int| lies_whole_in(regions.skip(1), a) ==> lies_in(regions.skip(1), a),
        forall|a: int|
            lies_whole_in(regions, a) <==> lies_whole_in(regions.skip(1), a) || regions[0].0 <= a
                && a + 8 <= regions[0].1 && common::whole_in_chunk(regions[0].0, a),
{
    let rest = regions.skip(1);
    assert forall|i: int, j: int| 0 <= i < j < rest.len() implies (#[trigger] rest[i]).1 <= (
    #[trigger] rest[j]).0 by {
        assert(rest[i] == regions[i + 1] && rest[j] == regions[j + 1]);
    }
    assert forall|r: int| 0 <= r < rest.len() implies regions[0].1 <= (#[trigger] rest[r]).0 by {
        assert(rest[r] == regions[r + 1]);
    }
    assert forall|a: int|
        lies_in(regions, a) <==> lies_in(rest, a) || regions[0].0 <= a && a + 8 <= regions[0].1 by {
        if lies_in(rest, a) {
            let r = choose|r: int|
                0 <= r < rest.len() && (#[trigger] rest[r]).0 <= a && a + 8 <= rest[r].1;
            assert(regions[r + 1] == rest[r]);
        }
        if lies_in(regions, a) {
            let r = choose|r: int|
                0 <= r < regions.len() && (#[trigger] regions[r]).0 <= a && a + 8 <= regions[r].1;
            if r > 0 {
                assert(rest[r - 1] == regions[r]);
            }
        }
    }
    assert forall|a: int|
        lies_whole_in(regions, a) <==> lies_whole_in(rest, a) || regions[0].0 <= a && a + 8
            <= regions[0].1 && common::whole_in_chunk(regions[0].0, a) by {
        if lies_whole_in(rest, a) {
            let r = choose|r: int|
                0 <= r < rest.len() && (#[trigger] rest[r]).0 <= a && a + 8 <= rest[r].1
                    && common::whole_in_chunk(rest[r].0, a);
            assert(regions[r + 1] == rest[r]);
        }
        if lies_whole_in(regions, a) {
            let r = choose|r: int|
                0 <= r < regions.len() && (#[trigger] regions[r]).0 <= a && a + 8 <= regions[r].1
                    && common::whole_in_chunk(regions[r].0, a);
            if r > 0 {
                assert(rest[r - 1] == regions[r]);
            }
        }
    }
}

/// In regions that stand in ascending order and can be read, a walk over the kernel's
/// regions finds the lowest address of all at which a pair stands in one of them, if one
/// stands at `a`.
pub proof fn lowest_pair_of_all_is_found(
    content: spec_fn(int) -> u8,
    regions: Seq<(u64, u64)>,
    magic: u32,
    check: u32,
    a: int,
)
    requires
        common::in_ascending_order(regions),
        lies_in(regions, a),
        a <= common::macos_cut().limit,
        common::stands(content, a, magic, check),
    ensures
        ({
            let todo = walk::reads_over(regions, common::macos_cut());
            &&& found_over(content, todo, 1, magic, check) matches Some(p)
            &&& p <= a
            &&& lies_in(regions, p)
            &&& common::stands(content, p, magic, check)
            &&& forall|q: int|
                q < p && #[trigger] lies_in(regions, q) ==> !common::stands(
                    content,
                    q,
                    magic,
                    check,
                )
        }),
    decreases regions.len(),
{
    let cut = common::macos_cut();
    let at = regions[0].0;
    let end = regions[0].1;
    let x = walk::reads_of(at as int, end as int, cut);
    let rest = regions.skip(1);
    let y = walk::reads_over(rest, cut);
    search_goes_on(content, x, y, 1, magic, check);
    rest_in_order(regions);
    if exists|q: int|
        at <= q && q + 8 <= end && q <= cut.limit && #[trigger] common::stands(
            content,
            q,
            magic,
            check,
        ) {
        let q = choose|q: int|
            at <= q && q + 8 <= end && q <= cut.limit && #[trigger] common::stands(
                content,
                q,
                magic,
                check,
            );
        common::present_pair_is_found(content, at, end, windows(content, x), magic, check, q);
        let p = found_over(content, x, 1, magic, check)->0;
        if a < p {
            assert(at <= a);
            assert(common::stands(content, a, magic, check));
        }
        assert(p + 8 <= end);
    } else {
        if let Some(p) = found_over(content, x, 1, magic, check) {
            let k = found_stands(content, x, 1, magic, check);
            walk::reads_start_in_steps(at as int, end as int, cut, k);
            assert(k * 65528 >= 0);
            assert(at <= p && p + 8 <= end);
        }
        lowest_pair_of_all_is_found(content, rest, magic, check, a);
        assert forall|q: int| #[trigger] lies_in(regions, q) && q
            < found_over(content, y, 1, magic, check)->0 implies !common::stands(
            content,
            q,
            magic,
            check,
        ) by {
            if !lies_in(rest, q) {
                assert(q <= cut.limit);
            }
        }
    }
}

/// In regions that stand in ascending order and can be read, a walk over the regions of
/// `/proc` finds the lowest address of all at which a pair stands whole, a multiple of four
/// bytes into its region, if one stands so at `a`.
pub proof fn lowest_aligned_pair_of_all_is_found(
    content: spec_fn(int) -> u8,
    regions: Seq<(u64, u64)>,
    magic: u32,
    check: u32,
    a: int,
)
    requires
        common::in_ascending_order(regions),
        lies_whole_in(regions, a),
        common::stands(content, a, magic, check),
    ensures
        ({
            let todo = walk::reads_over(regions, common::linux_cut());
            &&& found_over(content, todo, 4, magic, check) matches Some(p)
            &&& p <= a
            &&& lies_whole_in(regions, p)
            &&& common::stands(content, p, magic, check)
            &&& forall|q: int|
                q < p && #[trigger] lies_whole_in(regions, q) ==> !common::stands(
                    content,
                    q,
                    magic,
                    check,
                )
        }),
    decreases regions.len(),
{
    let cut = common::linux_cut();
    let at = regions[0].0;
    let end = regions[0].1;
    let x = walk::reads_of(at as int, end as int, cut);
    let rest = regions.skip(1);
    let y = walk::reads_over(rest, cut);
    search_goes_on(content, x, y, 4, magic, check);
    rest_in_order(regions);
    if exists|q: int|
        at <= q && q + 8 <= end && common::whole_in_chunk(at, q) && #[trigger] common::stands(
            content,
            q,
            magic,
            check,
        ) {
        let q = choose|q: int|
            at <= q && q + 8 <= end && common::whole_in_chunk(at, q) && #[trigger] common::stands(
                content,
                q,
                magic,
                check,
            );
        common::present_aligned_pair_is_found(
            content,
            at,
            end,
            windows(content, x),
            magic,
            check,
            q,
        );
        let p = found_over(content, x, 4, magic, check)->0;
        if a < p {
            assert(at <= a);
            assert(common::stands(content, a, magic, check));
        }
        assert(p + 8 <= end);
    } else {
        if let Some(p) = found_over(content, x, 4, magic, check) {
            let k = found_stands(content, x, 4, magic, check);
            walk::reads_start_in_steps(at as int, end as int, cut, k);
            let o = p - x[k].addr;
            assert(k * 65536 >= 0);
            common::chunk_offset_is_whole(at, k, o, p);
            assert(at <= p && p + 8 <= end);
        }
        lowest_aligned_pair_of_all_is_found(content, rest, magic, check, a);
    }
}

} // verus!
