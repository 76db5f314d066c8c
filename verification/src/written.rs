//! How texts are understood: white space, lines, numbers, and what is written in them.

use crate::common;
use crate::ids;
use crate::lexer;
use crate::state;
use crate::text;
use crate::types::MapType;
use vstd::prelude::*;

verus! {

/// A run ends at the first character that is not of its kind.
pub proof fn run_ends_where_the_kind_changes(s: Seq<char>, i: int, k: int, spaces: bool)
    requires
        0 <= i <= k <= s.len(),
        forall|j: int| i <= j < k ==> lexer::is_space(#[trigger] s[j]) == spaces,
        k < s.len() ==> lexer::is_space(s[k]) != spaces,
    ensures
        lexer::run_end(s, i, spaces) == k,
    decreases k - i,
{
    if i < k {
        run_ends_where_the_kind_changes(s, i + 1, k, spaces);
    }
}

/// A search ends at the first character that it is for.
pub proof fn search_ends_at_the_first(s: Seq<char>, i: int, k: int, c: char)
    requires
        0 <= i <= k <= s.len(),
        forall|j: int| i <= j < k ==> #[trigger] s[j] != c,
        k < s.len() ==> s[k] == c,
    ensures
        lexer::find(s, i, c) == k,
    decreases k - i,
{
    if i < k {
        search_ends_at_the_first(s, i + 1, k, c);
    }
}

proof fn trailing_spaces_start(s: Seq<char>, i: int, k: int)
    requires
        0 <= k <= i <= s.len(),
        forall|j: int| k <= j < i ==> lexer::is_space(#[trigger] s[j]),
        k > 0 ==> !lexer::is_space(s[k - 1]),
    ensures
        lexer::spaces_start(s, i) == k,
    decreases i - k,
{
    if k < i {
        trailing_spaces_start(s, i - 1, k);
    }
}

/// Whether a text is empty, or neither starts nor ends with white space.
pub open spec fn is_trimmed(s: Seq<char>) -> bool {
    s.len() > 0 ==> !lexer::is_space(s[0]) && !lexer::is_space(s.last())
}

/// Whether a text is white space through and through.
pub open spec fn is_blank(s: Seq<char>) -> bool {
    forall|i: int| 0 <= i < s.len() ==> lexer::is_space(#[trigger] s[i])
}

/// Trimming takes the white space away that stands around a text, and nothing else.
pub proof fn trimming_takes_what_stands_around(a: Seq<char>, s: Seq<char>, b: Seq<char>)
    requires
        is_blank(a),
        is_blank(b),
        s.len() > 0,
        is_trimmed(s),
    ensures
        lexer::trim(a + s + b) == s,
{
    let t = a + s + b;
    let n = a.len() as int;
    let m = n + s.len();
    assert(t[n] == s[0]);
    assert(t[m - 1] == s.last());
    run_ends_where_the_kind_changes(t, 0, n, true);
    trailing_spaces_start(t, t.len() as int, m);
    assert(t.subrange(n, m) =~= s);
}

/// Of a text that is white space, nothing is left.
pub proof fn trimming_leaves_nothing_of_blanks(s: Seq<char>)
    requires
        is_blank(s),
    ensures
        lexer::trim(s).len() == 0,
{
    run_ends_where_the_kind_changes(s, 0, s.len() as int, true);
    trailing_spaces_start(s, s.len() as int, 0);
}

/// Whether a text holds a character.
pub open spec fn holds(s: Seq<char>, c: char) -> bool {
    exists|i: int| 0 <= i < s.len() && #[trigger] s[i] == c
}

/// A text is split at its line feeds. A carriage return before a line feed belongs to the end
/// of the line; a text that does not end with a line feed ends with a line.
pub proof fn lines_end_with_line_feeds(a: Seq<char>, rest: Seq<char>)
    requires
        !holds(a, '\n'),
    ensures
        a.len() > 0 ==> lexer::lines(a) == seq![a],
        lexer::lines(Seq::<char>::empty()).len() == 0,
        !(a.len() > 0 && a.last() == '\r') ==> lexer::lines(a + seq!['\n'] + rest) == seq![a]
            + lexer::lines(rest),
        lexer::lines(a + seq!['\r', '\n'] + rest) == seq![a] + lexer::lines(rest),
{
    assert forall|j: int| 0 <= j < a.len() implies #[trigger] a[j] != '\n' by {}
    search_ends_at_the_first(a, 0, a.len() as int, '\n');
    assert(a.subrange(0, a.len() as int) =~= a);
    if a.len() > 0 {
        assert(lexer::lines_from(a, 0) =~= seq![a]);
    }
    first_line_is_split_off(a, rest);
    let b = a.push('\r');
    first_line_is_split_off(b, rest);
    assert(b + seq!['\n'] + rest =~= a + seq!['\r', '\n'] + rest);
    assert(b.drop_last() =~= a);
}

proof fn first_line_is_split_off(a: Seq<char>, rest: Seq<char>)
    requires
        forall|j: int| 0 <= j < a.len() ==> #[trigger] a[j] != '\n',
    ensures
        lexer::lines(a + seq!['\n'] + rest) == seq![lexer::chomp(a)] + lexer::lines(rest),
{
    let s = a + seq!['\n'] + rest;
    let n = a.len() as int;
    assert forall|j: int| 0 <= j < n implies #[trigger] s[j] != '\n' by {
        assert(s[j] == a[j]);
    }
    assert(s[n] == '\n');
    search_ends_at_the_first(s, 0, n, '\n');
    assert(s.subrange(0, n) =~= a);
    lexer::later_lines_stay(a + seq!['\n'], rest, 0);
}

/// Whether a text is one word: it holds something, and no white space.
pub open spec fn is_word(s: Seq<char>) -> bool {
    s.len() > 0 && forall|i: int| 0 <= i < s.len() ==> !lexer::is_space(#[trigger] s[i])
}

proof fn digits_are_plain(s: Seq<char>, base: int)
    requires
        s.len() > 0,
        base <= 16,
        lexer::all_digits(s, base),
    ensures
        is_word(s),
        !holds(s, '-'),
        s[0] != '+',
        s[0] != '-',
{
    assert(lexer::digit_value('-') == 36);
    assert(lexer::digit_value('+') == 36);
    assert forall|i: int| 0 <= i < s.len() implies !lexer::is_space(#[trigger] s[i]) && s[i]
        != '-' by {
        assert(lexer::digit_value(s[i]) < 16);
    }
    assert(lexer::digit_value(s[0]) < 16);
}

/// A number that is written in hexadecimal is read as itself, in either case and with any
/// number of zeros in front.
pub proof fn hexadecimal_reads_back(n: nat, upper: bool, width: nat, max: int)
    requires
        n <= max,
    ensures
        lexer::parse_nat(text::pad(text::digits(n, 16, upper), width), 16, max) == Some(n as int),
        is_word(text::pad(text::digits(n, 16, upper), width)),
        !holds(text::pad(text::digits(n, 16, upper), width), '-'),
{
    let d = text::digits(n, 16, upper);
    let h = text::pad(d, width);
    lexer::digits_spell(n, 16, upper);
    if d.len() < width {
        let k = (width - d.len()) as nat;
        lexer::zeros_count_nothing(k, d, 16);
        assert(h == Seq::new(k, |i: int| '0') + d);
        assert forall|i: int| 0 <= i < h.len() implies lexer::digit_value(#[trigger] h[i]) < 16 by {
            if i >= k {
                assert(h[i] == d[i - k]);
            }
        }
    }
    digits_are_plain(h, 16);
}

/// A number that is written in decimal is read as itself.
pub proof fn decimal_reads_back(n: int)
    ensures
        n >= 0 ==> forall|max: int|
            n <= max ==> #[trigger] lexer::parse_nat(text::dec(n), 10, max) == Some(n),
        -0x8000_0000 <= n < 0x8000_0000 ==> lexer::parse_i32(text::dec(n)) == Some(n),
        is_word(text::dec(n)),
{
    let m = (if n < 0 {
        -n
    } else {
        n
    }) as nat;
    let d = text::digits(m, 10, false);
    lexer::digits_spell(m, 10, false);
    digits_are_plain(d, 10);
    if n < 0 {
        assert(text::dec(n).skip(1) =~= d);
        assert forall|i: int| 0 <= i < text::dec(n).len() implies !lexer::is_space(
            #[trigger] text::dec(n)[i],
        ) by {
            if i > 0 {
                assert(text::dec(n)[i] == d[i - 1]);
            }
        }
    }
}

/// A line of a process's map of its memory is understood: two hexadecimal addresses with a
/// dash between them, and after white space what may be done with the region. It counts if
/// it can be read, and written where that is asked for, and starts in the low four gigabytes,
/// at the end of which it is cut off.
pub proof fn map_line_is_understood(
    start: nat,
    end: nat,
    upper: bool,
    width: nat,
    perms: Seq<char>,
    tail: Seq<char>,
    writable: bool,
)
    requires
        start <= usize::MAX,
        end <= usize::MAX,
        is_word(perms),
        tail.len() > 0 ==> lexer::is_space(tail[0]),
    ensures
        ({
            let x = text::pad(text::digits(start, 16, upper), width);
            let y = text::pad(text::digits(end, 16, upper), width);
            let line = x + seq!['-'] + y + seq![' '] + perms + tail;
            let counts = perms[0] == 'r' && (writable ==> perms.len() > 1 && perms[1] == 'w')
                && start <= 0xFFFF_FFFF;
            &&& !counts ==> common::region_of(line, writable) is None
            &&& counts ==> common::region_of(line, writable) == Some(
                (
                    start as int,
                    if end <= 0xFFFF_FFFF {
                        end as int
                    } else {
                        0xFFFF_FFFF
                    },
                ),
            )
        }),
{
    let x = text::pad(text::digits(start, 16, upper), width);
    let y = text::pad(text::digits(end, 16, upper), width);
    let range = x + seq!['-'] + y;
    let line = range + seq![' '] + perms + tail;
    hexadecimal_reads_back(start, upper, width, usize::MAX as int);
    hexadecimal_reads_back(end, upper, width, usize::MAX as int);
    let b = range.len() as int;
    let d = b + 1 + perms.len();
    assert forall|j: int| 0 <= j < b implies !lexer::is_space(#[trigger] line[j]) by {
        assert(line[j] == range[j]);
        if j < x.len() {
            assert(range[j] == x[j]);
        } else if j > x.len() {
            assert(range[j] == y[j - x.len() - 1]);
        }
    }
    assert(!lexer::is_space(line[0]));
    run_ends_where_the_kind_changes(line, 0, 0, true);
    assert(line[b] == ' ');
    run_ends_where_the_kind_changes(line, 0, b, false);
    assert(line[b + 1] == perms[0]);
    run_ends_where_the_kind_changes(line, b, b + 1, true);
    assert forall|j: int| b + 1 <= j < d implies !lexer::is_space(#[trigger] line[j]) by {
        assert(line[j] == perms[j - b - 1]);
    }
    if tail.len() > 0 {
        assert(line[d] == tail[0]);
    }
    run_ends_where_the_kind_changes(line, b + 1, d, false);
    assert(line.subrange(0, b) =~= range);
    assert(line.subrange(b + 1, d) =~= perms);
    assert forall|j: int| 0 <= j < x.len() implies #[trigger] range[j] != '-' by {
        assert(range[j] == x[j]);
    }
    assert(range[x.len() as int] == '-');
    search_ends_at_the_first(range, 0, x.len() as int, '-');
    assert(range.take(x.len() as int) =~= x);
    assert(range.skip(x.len() as int + 1) =~= y);
}

/// Lines are understood one by one, in their order: a line that describes no region adds
/// none.
pub proof fn regions_come_line_by_line(lines: Seq<Seq<char>>, line: Seq<char>, writable: bool)
    ensures
        common::regions_of(Seq::<Seq<char>>::empty(), writable).len() == 0,
        common::regions_of(lines.push(line), writable) == match common::region_of(line, writable) {
            Some(r) => common::regions_of(lines, writable).push(r),
            None => common::regions_of(lines, writable),
        },
{
    assert(lines.push(line).drop_last() =~= lines);
}

/// Of the regions that the kernel reports, those that can be read count, and of these those
/// that can be written where that is asked for; each from its address to its end, in their
/// order.
pub proof fn accessible_regions_are_those_allowed(regions: Seq<common::Region>, writable: bool)
    ensures
        common::accessible(regions, writable) == regions.filter(
            |r: common::Region| r.readable && (writable ==> r.writable),
        ).map_values(|r: common::Region| (r.address, (r.address + r.size) as u64)),
    decreases regions.len(),
{
    let p = |r: common::Region| r.readable && (writable ==> r.writable);
    let f = |r: common::Region| (r.address, (r.address + r.size) as u64);
    reveal(Seq::filter);
    if regions.len() > 0 {
        accessible_regions_are_those_allowed(regions.drop_last(), writable);
        let fewer = regions.drop_last().filter(p);
        if p(regions.last()) {
            assert(regions.filter(p) == fewer.push(regions.last()));
            assert(fewer.push(regions.last()).map_values(f) =~= fewer.map_values(f).push(
                f(regions.last()),
            ));
        } else {
            assert(regions.filter(p) == fewer);
        }
    }
    assert(common::accessible(regions, writable) =~= regions.filter(p).map_values(f));
}

/// Whether a text has two spaces in a row.
pub open spec fn has_gap(s: Seq<char>) -> bool {
    exists|i: int| 0 <= i && i + 1 < s.len() && #[trigger] s[i] == ' ' && s[i + 1] == ' '
}

proof fn no_gap_from(s: Seq<char>, i: int)
    requires
        0 <= i,
        !has_gap(s),
    ensures
        ids::gap(s, i) == s.len(),
    decreases s.len() - i,
{
    if i + 1 < s.len() {
        assert(!(s[i] == ' ' && s[i + 1] == ' '));
        no_gap_from(s, i + 1);
    }
}

/// A line of a table is an identifier, white space, and a name.
pub proof fn table_line_is_understood(id: i32, name: Seq<char>)
    requires
        name.len() > 0,
        is_trimmed(name),
        !has_gap(name),
    ensures
        ids::entry_of(text::dec(id as int) + seq![' '] + name) == Ok::<
            (int, Seq<char>),
            ids::TableFault,
        >((id as int, name)),
{
    let d = text::dec(id as int);
    let line = d + seq![' '] + name;
    let e = d.len() as int;
    decimal_reads_back(id as int);
    assert forall|j: int| 0 <= j < e implies !lexer::is_space(#[trigger] line[j]) by {
        assert(line[j] == d[j]);
    }
    assert(line[e] == ' ');
    run_ends_where_the_kind_changes(line, 0, e, false);
    assert(line.take(e) =~= d);
    assert(line.skip(e + 1) =~= name);
    let none = Seq::<char>::empty();
    trimming_takes_what_stands_around(none, name, none);
    assert(none + name + none =~= name);
    no_gap_from(name, 0);
}

proof fn first_gap_is_found(s: Seq<char>, i: int, k: int)
    requires
        0 <= i <= k,
        k + 1 < s.len(),
        s[k] == ' ',
        s[k + 1] == ' ',
        forall|j: int| i <= j < k ==> !(#[trigger] s[j] == ' ' && s[j + 1] == ' '),
    ensures
        ids::gap(s, i) == k,
    decreases k - i,
{
    if i < k {
        assert(!(s[i] == ' ' && s[i + 1] == ' '));
        first_gap_is_found(s, i + 1, k);
    }
}

/// What follows two spaces in a line of a table is a remark, which is left out of the name.
pub proof fn remark_is_left_out(id: i32, name: Seq<char>, remark: Seq<char>)
    requires
        name.len() > 0,
        is_trimmed(name),
        !has_gap(name),
        remark.len() > 0,
        is_trimmed(remark),
    ensures
        ids::entry_of(text::dec(id as int) + seq![' '] + name + seq![' ', ' '] + remark) == Ok::<
            (int, Seq<char>),
            ids::TableFault,
        >((id as int, name)),
{
    let d = text::dec(id as int);
    let rest = name + seq![' ', ' '] + remark;
    let line = d + seq![' '] + name + seq![' ', ' '] + remark;
    let e = d.len() as int;
    let n = name.len() as int;
    decimal_reads_back(id as int);
    assert forall|j: int| 0 <= j < e implies !lexer::is_space(#[trigger] line[j]) by {
        assert(line[j] == d[j]);
    }
    assert(line[e] == ' ');
    run_ends_where_the_kind_changes(line, 0, e, false);
    assert(line.take(e) =~= d);
    assert(line.skip(e + 1) =~= rest);
    let none = Seq::<char>::empty();
    assert(rest[0] == name[0]);
    assert(rest.last() == remark.last());
    trimming_takes_what_stands_around(none, rest, none);
    assert(none + rest + none =~= rest);
    assert forall|j: int| 0 <= j < n implies !(#[trigger] rest[j] == ' ' && rest[j + 1] == ' ') by {
        assert(rest[j] == name[j]);
        if j + 1 < n {
            assert(rest[j + 1] == name[j + 1]);
            assert(!(name[j] == ' ' && name[j + 1] == ' '));
        } else {
            assert(name[j] == name.last());
        }
    }
    assert(rest[n] == ' ' && rest[n + 1] == ' ');
    first_gap_is_found(rest, 0, n);
    assert(rest.take(n) =~= name);
    trimming_takes_what_stands_around(none, name, none);
    assert(none + name + none =~= name);
}

/// Items stand twelve bytes apart, or as many as a setting says, but no less than 8 and no
/// more than 16.
pub proof fn stride_is_as_set(n: nat)
    requires
        n <= usize::MAX,
    ensures
        state::stride_of(None) == 12,
        8 <= n <= 16 ==> state::stride_of(Some(text::dec(n as int))) == n,
        n < 8 ==> state::stride_of(Some(text::dec(n as int))) == 8,
        n > 16 ==> state::stride_of(Some(text::dec(n as int))) == 16,
{
    let d = text::dec(n as int);
    let none = Seq::<char>::empty();
    decimal_reads_back(n as int);
    trimming_takes_what_stands_around(none, d, none);
    assert(none + d + none =~= d);
}

/// What the maps are called, by their codes from 0 on.
pub open spec fn map_names() -> Seq<Seq<char>> {
    seq![
        "None"@,
        "SAN"@,
        "Scrapyard"@,
        "Materials"@,
        "Factory"@,
        "Research"@,
        "Access"@,
        "Surface"@,
        "Mines"@,
        "Exiles"@,
        "Storage"@,
        "Recycling"@,
        "Scraptown"@,
        "Waste"@,
        "Garrison"@,
        "DSF"@,
        "Subcaves"@,
        "Lower Caves"@,
        "Upper Caves"@,
        "Proximity Caves"@,
        "Deep Caves"@,
        "Zion"@,
        "Data Miner"@,
        "Zhirov"@,
        "Warlord"@,
        "Extension"@,
        "Cetus"@,
        "Archives"@,
        "Hub_04(d)"@,
        "Armory"@,
        "Lab"@,
        "Quarantine"@,
        "Testing"@,
        "Section 7"@,
        "Protoforge"@,
        "Command"@,
        "Access_0"@,
        "Lair"@,
        "Wartown"@,
    ]
}

/// What the endings are called, by their codes from 1000 on.
pub open spec fn ending_names() -> Seq<Seq<char>> {
    seq![
        "To Epsilon Eridani"@,
        "0b11 Command"@,
        "To Fleet Rendezvous"@,
        "Tau Ceti IV Orbit"@,
        "0b10 Command"@,
        "Subspace"@,
        "Near Former Tau Ceti IV"@,
        "Free Derelict Territories"@,
        "By MAIN.C's Side"@,
        "0bPrime"@,
    ]
}

/// A map is called by its code: the maps have the codes from 0 to 38 and the endings those
/// from 1000 to 1009, and there are no others.
#[verifier::spinoff_prover]
pub proof fn maps_are_called_by_their_codes(code: int)
    ensures
        match MapType::of_code(code) {
            Some(m) => {
                ||| 0 <= code <= 38 && m.called() == map_names()[code]
                ||| 1000 <= code <= 1009 && m.called() == ending_names()[code - 1000]
            },
            None => !(0 <= code <= 38) && !(1000 <= code <= 1009),
        },
{
}

proof fn byte_is_two_digits(n: nat)
    requires
        n < 256,
    ensures
        text::hex_low(n, 2).len() == 2,
        lexer::digit_value(text::hex_low(n, 2)[0]) == n / 16,
        lexer::digit_value(text::hex_low(n, 2)[1]) == n % 16,
{
    reveal_with_fuel(text::digits, 3);
    let d = text::digits(n, 16, false);
    if n >= 16 {
        assert(d =~= seq![
            text::digit_char((n / 16) as int, false),
            text::digit_char((n % 16) as int, false),
        ]);
    }
}

/// Bytes are dumped as two hexadecimal digits each, with a space between them.
pub proof fn dump_shows_every_byte(b: Seq<u8>, n: int, i: int)
    requires
        0 <= i < n <= b.len(),
    ensures
        text::dump(b, n, false).len() == 3 * n - 1,
        lexer::digit_value(text::dump(b, n, false)[3 * i]) == b[i] / 16,
        lexer::digit_value(text::dump(b, n, false)[3 * i + 1]) == b[i] % 16,
        i + 1 < n ==> text::dump(b, n, false)[3 * i + 2] == ' ',
    decreases n,
{
    let all = text::dump(b, n, false);
    let fewer = text::dump(b, n - 1, false);
    reveal_strlit("");
    reveal_strlit(" ");
    byte_is_two_digits(b[n - 1] as nat);
    if n > 1 {
        dump_shows_every_byte(
            b,
            n - 1,
            if i < n - 1 {
                i
            } else {
                0
            },
        );
    }
}

/// In a dump that is wrapped, sixteen bytes make a line, which ends with a space and a line
/// feed where another follows.
pub proof fn wrapped_dump_shows_every_byte(b: Seq<u8>, n: int, i: int)
    requires
        0 <= i < n <= b.len(),
    ensures
        text::dump(b, n, true).len() == 3 * n - 1 + (n - 1) / 16,
        lexer::digit_value(text::dump(b, n, true)[3 * i + i / 16]) == b[i] / 16,
        lexer::digit_value(text::dump(b, n, true)[3 * i + i / 16 + 1]) == b[i] % 16,
        i + 1 < n ==> text::dump(b, n, true)[3 * i + i / 16 + 2] == ' ',
        i + 1 < n && i % 16 == 15 ==> text::dump(b, n, true)[3 * i + i / 16 + 3] == '\n',
    decreases n,
{
    let all = text::dump(b, n, true);
    let fewer = text::dump(b, n - 1, true);
    reveal_strlit("");
    reveal_strlit(" ");
    reveal_strlit(" \n");
    byte_is_two_digits(b[n - 1] as nat);
    if n > 1 {
        wrapped_dump_shows_every_byte(
            b,
            n - 1,
            if i < n - 1 {
                i
            } else {
                0
            },
        );
    }
}

/// The codes of the white space characters of Unicode.
pub open spec fn space_codes() -> Set<int> {
    set![
        0x09int,
        0x0Aint,
        0x0Bint,
        0x0Cint,
        0x0Dint,
        0x20int,
        0x85int,
        0xA0int,
        0x1680int,
        0x2000int,
        0x2001int,
        0x2002int,
        0x2003int,
        0x2004int,
        0x2005int,
        0x2006int,
        0x2007int,
        0x2008int,
        0x2009int,
        0x200Aint,
        0x2028int,
        0x2029int,
        0x202Fint,
        0x205Fint,
        0x3000int,
    ]
}

/// A character is white space exactly if Unicode says so.
pub proof fn white_space_is_as_unicode_says(c: char)
    ensures
        lexer::is_space(c) <==> space_codes().contains(c as int),
{
}

/// Every `0x` at the start of a text is taken away, and nothing else.
pub proof fn prefix_is_taken_away(s: Seq<char>)
    ensures
        lexer::strip_0x(seq!['0', 'x'] + s) == lexer::strip_0x(s),
        !(s.len() >= 2 && s[0] == '0' && s[1] == 'x') ==> lexer::strip_0x(s) == s,
{
    assert((seq!['0', 'x'] + s).skip(2) =~= s);
}

/// A number may have a plus sign in front of it; it has to have a digit, nothing but digits,
/// and no more than the bound. A minus sign makes a signed number negative, down to the least
/// of 32 bits.
pub proof fn numbers_are_read_as_written(s: Seq<char>, base: int, max: int)
    requires
        2 <= base <= 16,
        s.len() > 0,
        s[0] != '+',
        s[0] != '-',
    ensures
        lexer::parse_nat(seq!['+'] + s, base, max) == lexer::parse_nat(s, base, max),
        lexer::parse_nat(Seq::<char>::empty(), base, max) is None,
        lexer::parse_nat(seq!['-'] + s, base, max) is None,
        lexer::parse_nat(s, base, max) matches Some(n) ==> lexer::all_digits(s, base) && n
            == lexer::number(s, base) && n <= max,
        lexer::parse_nat(s, base, max) is None ==> !lexer::all_digits(s, base) || lexer::number(
            s,
            base,
        ) > max,
        lexer::parse_i32(s) == lexer::parse_nat(s, 10, 0x7FFF_FFFF),
        lexer::parse_i32(seq!['-'] + s) == match lexer::parse_nat(s, 10, 0x8000_0000) {
            Some(n) => Some(-n),
            None => None,
        },
{
    assert((seq!['+'] + s).skip(1) =~= s);
    assert((seq!['-'] + s).skip(1) =~= s);
    assert(lexer::digit_value('-') == 36);
    let m = seq!['-'] + s;
    assert(m[0] == '-');
    if lexer::all_digits(m, base) {
        assert(lexer::digit_value(m[0]) < base);
    }
}

/// A digit more makes a number as many times larger as the base says, and adds the digit.
pub proof fn digits_count_from_the_right(s: Seq<char>, c: char, base: int)
    ensures
        lexer::number(Seq::<char>::empty(), base) == 0,
        lexer::number(s.push(c), base) == lexer::number(s, base) * base + lexer::digit_value(c),
        '0' <= c <= '9' ==> lexer::digit_value(c) == c as int - '0' as int,
        'a' <= c <= 'f' ==> lexer::digit_value(c) == c as int - 'a' as int + 10,
        'A' <= c <= 'F' ==> lexer::digit_value(c) == c as int - 'A' as int + 10,
{
    assert(s.push(c).drop_last() =~= s);
}

/// Whether a character is a digit from 0 to 9 or a capital letter from A to F.
pub open spec fn is_capital_digit(c: char) -> bool {
    '0' <= c <= '9' || 'A' <= c <= 'F'
}

proof fn capitals_are_digits(n: nat)
    ensures
        text::digits(n, 16, true).len() > 0,
        forall|i: int|
            0 <= i < text::digits(n, 16, true).len() ==> is_capital_digit(
                #[trigger] text::digits(n, 16, true)[i],
            ),
        forall|k: nat| n < #[trigger] pow16(k) && k > 0 ==> text::digits(n, 16, true).len() <= k,
    decreases n,
{
    if n >= 16 {
        capitals_are_digits(n / 16);
        assert forall|k: nat| n < #[trigger] pow16(k) && k > 0 implies text::digits(
            n,
            16,
            true,
        ).len() <= k by {
            if k == 1 {
                assert(pow16(1) == 16 * pow16(0));
            } else {
                assert(pow16(k) == 16 * pow16((k - 1) as nat));
                assert(n / 16 < pow16((k - 1) as nat));
            }
        }
    }
}

spec fn pow16(k: nat) -> nat
    decreases k,
{
    if k == 0 {
        1
    } else {
        16 * pow16((k - 1) as nat)
    }
}

/// A 32-bit address is told as `0x` and eight digits, in capitals.
pub proof fn address_has_eight_digits(n: nat)
    requires
        n < 0x1_0000_0000,
    ensures
        text::address(n).len() == 10,
        text::address(n)[0] == '0',
        text::address(n)[1] == 'x',
        forall|i: int| 2 <= i < 10 ==> is_capital_digit(#[trigger] text::address(n)[i]),
{
    reveal_strlit("0x");
    reveal_with_fuel(pow16, 9);
    capitals_are_digits(n);
    assert(n < pow16(8));
    let d = text::digits(n, 16, true);
    let h = text::hex(n, 8);
    assert forall|i: int| 2 <= i < 10 implies is_capital_digit(#[trigger] text::address(n)[i]) by {
        assert(text::address(n)[i] == h[i - 2]);
        if d.len() < 8 && i - 2 >= 8 - d.len() {
            assert(h[i - 2] == d[i - 2 - (8 - d.len())]);
        }
    }
}

/// A number in decimal has no zero in front, but for zero itself.
pub proof fn decimals_have_no_leading_zero(n: int)
    ensures
        text::dec(n)[0] == '0' <==> n == 0,
        n < 0 <==> text::dec(n)[0] == '-',
{
    let m = (if n < 0 {
        -n
    } else {
        n
    }) as nat;
    first_digit_counts(m);
}

proof fn first_digit_counts(n: nat)
    ensures
        text::digits(n, 10, false).len() > 0,
        text::digits(n, 10, false)[0] == '0' <==> n == 0,
        text::digits(n, 10, false)[0] != '-',
    decreases n,
{
    if n >= 10 {
        first_digit_counts(n / 10);
    }
}

} // verus!
