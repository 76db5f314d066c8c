//! What requests are answered with, and what reports list.

use crate::blit;
use crate::bytes;
use crate::common;
use crate::layouts;
use crate::mcp;
use crate::mcp::{Body, Route};
use crate::process;
use crate::process::ProcessInfo;
use crate::scan;
use crate::scoresheet;
use crate::text;
use crate::types;
use vstd::prelude::*;

verus! {

proof fn methods_differ()
    ensures
        "initialize"@ != "tools/list"@,
        "initialize"@ != "tools/call"@,
        "tools/list"@ != "tools/call"@,
{
    reveal_strlit("initialize");
    reveal_strlit("tools/list");
    reveal_strlit("tools/call");
    assert("initialize"@[0] == 'i');
    assert("tools/list"@[0] == 't');
    assert("tools/call"@[0] == 't');
    assert("tools/list"@[6] == 'l');
    assert("tools/call"@[6] == 'c');
}

/// A request with an identifier is answered by its method, and a call only if its
/// parameters are those of one.
pub proof fn requests_are_answered_by_method(method: Seq<char>)
    ensures
        forall|callable: bool|
            #[trigger] mcp::route_of(false, method, callable) == Route::Silent,
        forall|callable: bool|
            #[trigger] mcp::route_of(true, "initialize"@, callable) == Route::Initialize,
        forall|callable: bool|
            #[trigger] mcp::route_of(true, "tools/list"@, callable) == Route::ListTools,
        mcp::route_of(true, "tools/call"@, true) == Route::CallTool,
        mcp::route_of(true, "tools/call"@, false) == Route::InvalidParams,
        forall|callable: bool|
            method != "initialize"@ && method != "tools/list"@ && method != "tools/call"@
                ==> #[trigger] mcp::route_of(true, method, callable) == Route::MethodNotFound,
{
    methods_differ();
}

/// A method that is not known is answered with the error -32601, parameters that are not
/// those of a call with -32602, and a tool that fails with -32000 and its reason; everything
/// else with its result.
pub proof fn failures_have_their_codes<R>(body: Body<R>, route: Route, outcome: Result<R, String>)
    requires
        mcp::answers_route(body, route, outcome),
    ensures
        route == Route::MethodNotFound ==> (body matches Body::Error { code, message } && code
            == -32601 && message@ == "Method not found"@),
        route == Route::InvalidParams ==> (body matches Body::Error { code, message } && code
            == -32602 && message@ == "Invalid params"@),
        route == Route::CallTool || route == Route::ListTools || route == Route::Initialize
            ==> match outcome {
            Ok(v) => body == Body::Result(v),
            Err(e) => body matches Body::Error { code, message } && code == -32000 && message@ == e@,
        },
{
}

/// A sample of addresses is the first of them in their order, each as an address.
pub proof fn sample_is_the_beginning(v: Seq<u64>, n: int)
    requires
        0 <= n,
    ensures
        v.len() <= n ==> mcp::address_texts(v, n).len() == v.len(),
        v.len() > n ==> mcp::address_texts(v, n).len() == n,
        forall|i: int|
            0 <= i < v.len() && i < n ==> #[trigger] mcp::address_texts(v, n)[i] == text::address(
                v[i] as nat,
            ),
{
}

/// A sample of changed values is the first of them in their order, each with its address and
/// what it holds now.
pub proof fn changes_are_the_beginning(v: Seq<(u64, i32)>, n: int)
    requires
        0 <= n,
    ensures
        v.len() <= n ==> mcp::changed_texts(v, n).len() == v.len(),
        v.len() > n ==> mcp::changed_texts(v, n).len() == n,
        forall|i: int|
            0 <= i < v.len() && i < n ==> #[trigger] mcp::changed_texts(v, n)[i] == (
                text::address(v[i].0 as nat),
                v[i].1,
            ),
{
}

/// A sample of addresses with values near them is the first of them in their order, each
/// with all of its values and their distances.
pub proof fn contexts_are_the_beginning(v: Seq<(u64, Seq<(i32, i32)>)>, n: int, i: int, k: int)
    requires
        0 <= i < v.len(),
        i < n,
        0 <= k < v[i].1.len(),
    ensures
        v.len() <= n ==> mcp::hit_texts(v, n).len() == v.len(),
        v.len() > n ==> mcp::hit_texts(v, n).len() == n,
        mcp::hit_texts(v, n)[i].0 == text::address(v[i].0 as nat),
        mcp::hit_texts(v, n)[i].1.len() == v[i].1.len(),
        mcp::hit_texts(v, n)[i].1[k].0 == v[i].1[k].0,
        v[i].1[k].1 >= 0 ==> mcp::hit_texts(v, n)[i].1[k].1 == "+0x"@ + text::hex_low(
            v[i].1[k].1 as nat,
            1,
        ),
        v[i].1[k].1 < 0 ==> mcp::hit_texts(v, n)[i].1[k].1 == "-0x"@ + text::hex_low(
            (-v[i].1[k].1) as nat,
            1,
        ),
{
}

/// A sample of pointers is the first of them in their order, each with where it stands and
/// what it points to. The static ones are those that stand from 0x400000 to 0x1000000.
pub proof fn pointers_are_told(v: Seq<(u64, u32)>, n: int)
    requires
        0 <= n,
    ensures
        v.len() <= n ==> mcp::pointer_texts(v, n).len() == v.len(),
        v.len() > n ==> mcp::pointer_texts(v, n).len() == n,
        forall|i: int|
            0 <= i < v.len() && i < n ==> #[trigger] mcp::pointer_texts(v, n)[i] == (
                text::address(v[i].0 as nat),
                text::address(v[i].1 as nat),
            ),
        mcp::statics(v, v.len() as int) == v.filter(
            |h: (u64, u32)| 0x40_0000 <= h.0 && h.0 <= 0x100_0000,
        ),
{
    statics_are_filtered(v, v.len() as int);
    assert(v.take(v.len() as int) =~= v);
}

proof fn statics_are_filtered(v: Seq<(u64, u32)>, n: int)
    requires
        0 <= n <= v.len(),
    ensures
        mcp::statics(v, n) == v.take(n).filter(
            |h: (u64, u32)| 0x40_0000 <= h.0 && h.0 <= 0x100_0000,
        ),
    decreases n,
{
    reveal(Seq::filter);
    let some = v.take(n);
    if n > 0 {
        statics_are_filtered(v, n - 1);
        assert(some.drop_last() =~= v.take(n - 1));
        assert(some.last() == v[n - 1]);
    }
}

/// A window shows the integers that stand in it, one every four bytes.
pub proof fn window_shows_its_integers(b: Seq<u8>, i: int)
    requires
        0 <= i,
        4 * i + 4 <= b.len(),
    ensures
        4 * scan::ints_of(b).len() <= b.len() < 4 * scan::ints_of(b).len() + 4,
        layouts::word_stands(b, 4 * i, scan::ints_of(b)[i] as int),
{
    layouts::word_stands_where_it_is_read(b, 4 * i);
}

/// What the shim marks its blocks with: two words, of which the second tells a true mark
/// from a chance one. The mirror's root starts with its mark.
pub proof fn marks_are_told_apart()
    ensures
        common::luigi_magic() == (common::Magic {
            magic: 0x64AD_FA4C,
            check: 0x7953_3ED9,
            writable: false,
        }),
        common::mailbox_magic() == (common::Magic {
            magic: 0x64AD_FA4D,
            check: 0x7953_3ED8,
            writable: true,
        }),
        common::thread_magic() == (common::Magic {
            magic: 0xBADB_EEF1,
            check: 0x7953_3ED9,
            writable: false,
        }),
        common::status_magic() == (common::Magic {
            magic: 0xBADB_EEF2,
            check: 0x7953_3EDA,
            writable: true,
        }),
        blit::BLIT_MAGIC == 0xBADB_EEF3,
        blit::BLIT_CHECK == 0x7953_3EDB,
        scoresheet::SS_MAGIC == 0xBADB_EEF5,
        scoresheet::SS_CHECK == 0x7953_3EDD,
        types::AI_MAGIC_1 == common::luigi_magic().magic,
        types::AI_MAGIC_2 == common::luigi_magic().check,
{
}

/// A scan goes through the low four gigabytes in chunks of 256 KiB that follow each other;
/// it keeps up to four million addresses, and up to two hundred thousand pointers.
pub proof fn scans_have_their_limits()
    ensures
        scan::scan_cut().chunk == 0x4_0000,
        scan::scan_cut().step == 0x4_0000,
        scan::scan_cut().limit == 0xFFFF_FFFF,
        scan::MAX_CANDIDATES == 4_000_000,
        scan::MAX_POINTERS == 200_000,
        common::linux_cut().chunk == 0x1_0000,
        common::linux_cut().step == 0x1_0000,
        common::macos_cut().chunk == 0x1_0000,
        common::macos_cut().step == 0x1_0000 - 8,
{
}

/// Whether the name of a process has `part` in it, and its command line the word by which
/// the game is told to mirror its state.
pub open spec fn runs(p: ProcessInfo, part: Seq<char>) -> bool {
    &&& exists|i: int|
        {
            &&& 0 <= i
            &&& i + part.len() <= process::lower(p.name@).len()
            &&& #[trigger] process::lower(p.name@).subrange(i, i + part.len()) == part
        }
    &&& exists|k: int| 0 <= k < p.cmd@.len() && (#[trigger] p.cmd@[k])@ == "-luigiAi"@
}

/// The first process that runs something is the one before which none does.
pub proof fn first_process_is_taken(list: Seq<ProcessInfo>, from: int, part: Seq<char>)
    requires
        0 <= from,
    ensures
        match process::first_from(list, from, part) {
            Some(i) => from <= i < list.len() && runs(list[i], part) && forall|j: int|
                from <= j < i ==> !runs(#[trigger] list[j], part),
            None => forall|j: int| from <= j < list.len() ==> !runs(#[trigger] list[j], part),
        },
    decreases list.len() - from,
{
    if from < list.len() {
        game_runs(list[from], part);
        first_process_is_taken(list, from + 1, part);
    }
}

proof fn game_runs(p: ProcessInfo, part: Seq<char>)
    ensures
        process::is_game(process::lower(p.name@), p.cmd@, part) <==> runs(p, part),
{
    let s = process::lower(p.name@);
    if process::contains(s, part) {
        let i = choose|i: int| process::stands_at(s, part, i);
        assert(s.subrange(i, i + part.len()) == part);
    }
    if runs(p, part) {
        let i = choose|i: int|
            {
                &&& 0 <= i
                &&& i + part.len() <= s.len()
                &&& #[trigger] s.subrange(i, i + part.len()) == part
            };
        assert(process::stands_at(s, part, i));
    }
}

} // verus!
