//! Taking text apart: lines, words and numbers.

use crate::text;
use vstd::prelude::*;

verus! {

/// Unicode white space.
pub open spec fn is_space(c: char) -> bool {
    let n = c as u32;
    ||| 9 <= n <= 13
    ||| n == 32
    ||| n == 0x85
    ||| n == 0xA0
    ||| n == 0x1680
    ||| 0x2000 <= n <= 0x200A
    ||| n == 0x2028
    ||| n == 0x2029
    ||| n == 0x202F
    ||| n == 0x205F
    ||| n == 0x3000
}

/// Where the run of white space (or of anything else) that starts at `i` ends.
pub open spec fn run_end(s: Seq<char>, i: int, spaces: bool) -> int
    decreases s.len() - i,
{
    if 0 <= i < s.len() && is_space(s[i]) == spaces {
        run_end(s, i + 1, spaces)
    } else {
        i
    }
}

/// Where the white space that ends just before `i` starts.
pub open spec fn spaces_start(s: Seq<char>, i: int) -> int
    decreases i,
{
    if 0 < i <= s.len() && is_space(s[i - 1]) {
        spaces_start(s, i - 1)
    } else {
        i
    }
}

/// `s` without the white space at both ends.
pub open spec fn trim(s: Seq<char>) -> Seq<char> {
    let a = run_end(s, 0, true);
    let b = spaces_start(s, s.len() as int);
    if a <= b {
        s.subrange(a, b)
    } else {
        seq![]
    }
}

/// The index of the first `c` at or after `i`, or the length where there is none.
pub open spec fn find(s: Seq<char>, i: int, c: char) -> int
    decreases s.len() - i,
{
    if 0 <= i < s.len() && s[i] != c {
        find(s, i + 1, c)
    } else {
        i
    }
}

/// A line without the carriage return that may precede its line feed.
pub open spec fn chomp(s: Seq<char>) -> Seq<char> {
    if s.len() > 0 && s.last() == '\r' {
        s.drop_last()
    } else {
        s
    }
}

/// The lines of `s` from `i` on, without their line ends.
pub open spec fn lines_from(s: Seq<char>, i: int) -> Seq<Seq<char>>
    decreases s.len() - i,
{
    if 0 <= i < s.len() {
        let e = find(s, i, '\n');
        if i <= e < s.len() {
            seq![chomp(s.subrange(i, e))] + lines_from(s, e + 1)
        } else {
            seq![s.subrange(i, s.len() as int)]
        }
    } else {
        seq![]
    }
}

/// The lines of `s`.
pub open spec fn lines(s: Seq<char>) -> Seq<Seq<char>> {
    lines_from(s, 0)
}

/// The value of `c` as a digit.
pub open spec fn digit_value(c: char) -> int {
    let n = c as int;
    if 48 <= n <= 57 {
        n - 48
    } else if 65 <= n <= 90 {
        n - 55
    } else if 97 <= n <= 122 {
        n - 87
    } else {
        36
    }
}

/// Whether every character is a digit in the base.
pub open spec fn all_digits(s: Seq<char>, base: int) -> bool {
    forall|i: int| 0 <= i < s.len() ==> digit_value(#[trigger] s[i]) < base
}

/// The number that `s` spells, most significant digit first.
pub open spec fn number(s: Seq<char>, base: int) -> int
    decreases s.len(),
{
    if s.len() == 0 {
        0
    } else {
        number(s.drop_last(), base) * base + digit_value(s.last())
    }
}

/// `s` without the plus sign that it may start with.
pub open spec fn unsigned_part(s: Seq<char>) -> Seq<char> {
    if s.len() > 0 && s[0] == '+' {
        s.skip(1)
    } else {
        s
    }
}

/// The number that `s` spells, where it is one and does not exceed `max`.
pub open spec fn parse_nat(s: Seq<char>, base: int, max: int) -> Option<int> {
    let t = unsigned_part(s);
    if t.len() > 0 && all_digits(t, base) && number(t, base) <= max {
        Some(number(t, base))
    } else {
        None
    }
}

/// The number that `s` spells, with its sign, where it fits into 32 bits.
pub open spec fn parse_i32(s: Seq<char>) -> Option<int> {
    if s.len() > 0 && s[0] == '-' {
        let t = s.skip(1);
        if t.len() > 0 && all_digits(t, 10) && number(t, 10) <= 0x8000_0000 {
            Some(-number(t, 10))
        } else {
            None
        }
    } else {
        parse_nat(s, 10, 0x7FFF_FFFF)
    }
}

/// `s` without any `0x` that it starts with.
pub open spec fn strip_0x(s: Seq<char>) -> Seq<char>
    decreases s.len(),
{
    if s.len() >= 2 && s[0] == '0' && s[1] == 'x' {
        strip_0x(s.skip(2))
    } else {
        s
    }
}

proof fn number_grows(s: Seq<char>, i: int, base: int)
    requires
        0 <= i <= s.len(),
        2 <= base,
    ensures
        0 <= number(s.take(i), base) <= number(s, base),
    decreases s.len(),
{
    assert forall|c: char| #[trigger] digit_value(c) >= 0 by {}
    if s.len() == 0 {
        assert(s.take(i) =~= s);
    } else if i == s.len() {
        assert(s.take(i) =~= s);
        number_grows(s.drop_last(), i - 1, base);
        assert(number(s.drop_last(), base) * base >= 0) by (nonlinear_arith)
            requires
                number(s.drop_last(), base) >= 0,
                base >= 2,
        ;
    } else {
        number_grows(s.drop_last(), i, base);
        assert(s.drop_last().take(i) =~= s.take(i));
        assert(number(s.drop_last(), base) * base >= number(s.drop_last(), base)) by (nonlinear_arith)
            requires
                number(s.drop_last(), base) >= 0,
                base >= 2,
        ;
    }
}

/// The characters of a string.
pub fn chars(s: &str) -> (v: Vec<char>)
    ensures
        v@ == s@,
{
    let mut v: Vec<char> = Vec::new();
    for c in it: s.chars()
        invariant
            v@ == it.seq().take(it.index() as int),
            it.seq() == s@,
    {
        v.push(c);
    }
    v
}

/// A string of these characters.
pub fn string(v: &Vec<char>) -> (s: String)
    ensures
        s@ == v@,
{
    let mut s: String = String::new();
    let mut i: usize = 0;
    while i < v.len()
        invariant
            i <= v@.len(),
            s@ == v@.take(i as int),
        decreases v@.len() - i,
    {
        s.push(v[i]);
        i = i + 1;
        assert(s@ =~= v@.take(i as int));
    }
    assert(s@ =~= v@);
    s
}

/// Whether two strings hold the same characters.
pub fn same(a: &String, b: &str) -> (r: bool)
    ensures
        r == (a@ == b@),
{
    *a == b.to_owned()
}

/// The characters `lo..hi` of `v`.
pub fn cut(v: &Vec<char>, lo: usize, hi: usize) -> (r: Vec<char>)
    requires
        lo <= hi <= v@.len(),
    ensures
        r@ == v@.subrange(lo as int, hi as int),
{
    let mut r: Vec<char> = Vec::new();
    let mut i: usize = lo;
    while i < hi
        invariant
            lo <= i <= hi <= v@.len(),
            r@ == v@.subrange(lo as int, i as int),
        decreases hi - i,
    {
        r.push(v[i]);
        i = i + 1;
        assert(r@ =~= v@.subrange(lo as int, i as int));
    }
    r
}

/// Whether `c` is Unicode white space.
pub fn space(c: char) -> (r: bool)
    ensures
        r == is_space(c),
{
    let n: u32 = c as u32;
    (9 <= n && n <= 13) || n == 32 || n == 0x85 || n == 0xA0 || n == 0x1680 || (0x2000 <= n && n
        <= 0x200A) || n == 0x2028 || n == 0x2029 || n == 0x202F || n == 0x205F || n == 0x3000
}

/// Where the run that starts at `i` ends.
pub fn skip_run(v: &Vec<char>, i: usize, spaces: bool) -> (e: usize)
    requires
        i <= v@.len(),
    ensures
        e == run_end(v@, i as int, spaces),
        i <= e <= v@.len(),
{
    let mut e: usize = i;
    while e < v.len() && space(v[e]) == spaces
        invariant
            i <= e <= v@.len(),
            run_end(v@, e as int, spaces) == run_end(v@, i as int, spaces),
        decreases v@.len() - e,
    {
        e = e + 1;
    }
    e
}

/// `v` without the white space at both ends.
pub fn trimmed(v: &Vec<char>) -> (r: Vec<char>)
    ensures
        r@ == trim(v@),
{
    let a: usize = skip_run(v, 0, true);
    let n: usize = v.len();
    let mut b: usize = n;
    while b > 0 && space(v[b - 1])
        invariant
            b <= n == v@.len(),
            spaces_start(v@, b as int) == spaces_start(v@, n as int),
        decreases b,
    {
        b = b - 1;
    }
    if a <= b {
        cut(v, a, b)
    } else {
        Vec::new()
    }
}

/// The index of the first `c` at or after `i`, or the length.
pub fn seek(v: &Vec<char>, i: usize, c: char) -> (e: usize)
    requires
        i <= v@.len(),
    ensures
        e == find(v@, i as int, c),
        i <= e <= v@.len(),
        e < v@.len() ==> v@[e as int] == c,
{
    let mut e: usize = i;
    while e < v.len() && v[e] != c
        invariant
            i <= e <= v@.len(),
            find(v@, e as int, c) == find(v@, i as int, c),
        decreases v@.len() - e,
    {
        e = e + 1;
    }
    e
}

/// The lines of `v`.
pub fn split_lines(v: &Vec<char>) -> (r: Vec<Vec<char>>)
    ensures
        r@.map_values(|l: Vec<char>| l@) == lines(v@),
{
    let mut r: Vec<Vec<char>> = Vec::new();
    let n: usize = v.len();
    let mut i: usize = 0;
    proof {
        assert(r@.map_values(|l: Vec<char>| l@) + lines_from(v@, 0) =~= lines_from(v@, 0));
    }
    while i < n
        invariant
            i <= n == v@.len(),
            r@.map_values(|l: Vec<char>| l@) + lines_from(v@, i as int) == lines(v@),
        decreases n - i,
    {
        let ghost before = r@;
        let e: usize = seek(v, i, '\n');
        if e < n {
            let mut to: usize = e;
            if e > i && v[e - 1] == '\r' {
                to = e - 1;
            }
            let line: Vec<char> = cut(v, i, to);
            assert(line@ =~= chomp(v@.subrange(i as int, e as int)));
            let ghost l = line@;
            r.push(line);
            proof {
                assert(before.map_values(|l: Vec<char>| l@) + (seq![l] + lines_from(v@, e + 1))
                    =~= r@.map_values(|l: Vec<char>| l@) + lines_from(v@, e + 1));
            }
            i = e + 1;
        } else {
            let line: Vec<char> = cut(v, i, n);
            let ghost l = line@;
            r.push(line);
            proof {
                assert(before.map_values(|l: Vec<char>| l@) + seq![l] =~= r@.map_values(
                    |l: Vec<char>| l@,
                ));
                assert(r@.map_values(|l: Vec<char>| l@) + Seq::<Seq<char>>::empty() =~= r@.map_values(
                    |l: Vec<char>| l@,
                ));
            }
            i = n;
        }
    }
    proof {
        assert(lines_from(v@, i as int) =~= Seq::<Seq<char>>::empty());
        assert(r@.map_values(|l: Vec<char>| l@) + Seq::<Seq<char>>::empty() =~= r@.map_values(
            |l: Vec<char>| l@,
        ));
    }
    r
}

fn value_of(c: char) -> (d: u64)
    ensures
        d == digit_value(c),
{
    let n: u32 = c as u32;
    if 48 <= n && n <= 57 {
        (n - 48) as u64
    } else if 65 <= n && n <= 90 {
        (n - 55) as u64
    } else if 97 <= n && n <= 122 {
        (n - 87) as u64
    } else {
        36
    }
}

/// The number that `v` spells, without a sign, where it does not exceed `max`.
fn digits_value(v: &Vec<char>, base: u64, max: u64) -> (r: Option<u64>)
    requires
        2 <= base <= 36,
    ensures
        match r {
            Some(n) => v@.len() > 0 && all_digits(v@, base as int) && n == number(v@, base as int)
                && n <= max,
            None => !(v@.len() > 0 && all_digits(v@, base as int) && number(v@, base as int) <= max),
        },
{
    if v.len() == 0 {
        return None;
    }
    let mut acc: u64 = 0;
    let mut i: usize = 0;
    while i < v.len()
        invariant
            i <= v@.len(),
            2 <= base <= 36,
            acc <= max,
            acc == number(v@.take(i as int), base as int),
            forall|j: int| 0 <= j < i ==> digit_value(#[trigger] v@[j]) < base,
        decreases v@.len() - i,
    {
        let d: u64 = value_of(v[i]);
        proof {
            assert(v@.take(i + 1).drop_last() =~= v@.take(i as int));
            number_grows(v@, i + 1, base as int);
        }
        if d >= base {
            return None;
        }
        if d > max || acc > (max - d) / base {
            proof {
                if d <= max {
                    assert(acc * base + d > max) by (nonlinear_arith)
                        requires
                            d <= max,
                            base >= 2,
                            acc >= (max - d) / (base as int) + 1,
                    ;
                } else {
                    assert(acc * base >= 0) by (nonlinear_arith)
                        requires
                            acc >= 0,
                            base >= 2,
                    ;
                }
            }
            return None;
        }
        assert(acc * base + d <= max) by (nonlinear_arith)
            requires
                d <= max,
                base >= 2,
                acc <= (max - d) / (base as int),
        ;
        assert(0 <= acc * base) by (nonlinear_arith)
            requires
                acc >= 0,
                base >= 2,
        ;
        acc = acc * base + d;
        i = i + 1;
    }
    assert(v@.take(i as int) =~= v@);
    Some(acc)
}

/// The number that `v` spells, where it is one and does not exceed `max`.
pub fn parse(v: &Vec<char>, base: u64, max: u64) -> (r: Option<u64>)
    requires
        2 <= base <= 36,
    ensures
        match r {
            Some(n) => parse_nat(v@, base as int, max as int) == Some(n as int),
            None => parse_nat(v@, base as int, max as int) is None,
        },
{
    if v.len() > 0 && v[0] == '+' {
        let t: Vec<char> = cut(v, 1, v.len());
        assert(t@ =~= v@.skip(1));
        digits_value(&t, base, max)
    } else {
        digits_value(v, base, max)
    }
}

/// The signed number that `v` spells, where it fits into 32 bits.
pub fn parse_int(v: &Vec<char>) -> (r: Option<i32>)
    ensures
        match r {
            Some(n) => parse_i32(v@) == Some(n as int),
            None => parse_i32(v@) is None,
        },
{
    if v.len() > 0 && v[0] == '-' {
        let t: Vec<char> = cut(v, 1, v.len());
        assert(t@ =~= v@.skip(1));
        match digits_value(&t, 10, 0x8000_0000) {
            Some(n) => Some((-(n as i64)) as i32),
            None => None,
        }
    } else {
        match parse(v, 10, 0x7FFF_FFFF) {
            Some(n) => Some(n as i32),
            None => None,
        }
    }
}

/// `v` without any `0x` that it starts with.
pub fn without_0x(v: &Vec<char>) -> (r: Vec<char>)
    ensures
        r@ == strip_0x(v@),
{
    let n: usize = v.len();
    let mut i: usize = 0;
    assert(v@.skip(0) =~= v@);
    while n - i >= 2 && v[i] == '0' && v[i + 1] == 'x'
        invariant
            i <= n == v@.len(),
            strip_0x(v@.skip(i as int)) == strip_0x(v@),
        decreases n - i,
    {
        assert(v@.skip(i as int).skip(2) =~= v@.skip(i + 2));
        i = i + 2;
    }
    let r: Vec<char> = cut(v, i, n);
    assert(r@ =~= v@.skip(i as int));
    r
}

/// What is read as a number is not negative.
pub proof fn numbers_are_natural(s: Seq<char>, base: int, max: int)
    requires
        2 <= base,
    ensures
        parse_nat(s, base, max) matches Some(n) ==> 0 <= n <= max,
{
    number_grows(unsigned_part(s), 0, base);
}

/// The digits of a number spell it.
pub proof fn digits_spell(n: nat, base: nat, upper: bool)
    requires
        2 <= base <= 36,
    ensures
        text::digits(n, base, upper).len() > 0,
        all_digits(text::digits(n, base, upper), base as int),
        number(text::digits(n, base, upper), base as int) == n,
    decreases n,
{
    let s = text::digits(n, base, upper);
    if n < base {
        assert(s.drop_last() =~= Seq::<char>::empty());
        assert(s.last() == text::digit_char(n as int, upper));
        assert(number(s.drop_last(), base as int) == 0);
        assert(digit_value(s.last()) == n);
        assert(0 * (base as int) == 0);
        assert(number(s, base as int) == number(s.drop_last(), base as int) * (base as int)
            + digit_value(s.last()));
    } else {
        assert(n / base < n) by (nonlinear_arith)
            requires
                2 <= base <= n,
        ;
        assert(n / base * base + n % base == n && n % base < base) by (nonlinear_arith)
            requires
                2 <= base,
        ;
        digits_spell(n / base, base, upper);
        assert(s.drop_last() =~= text::digits(n / base, base, upper));
        assert(s.last() == text::digit_char((n % base) as int, upper));
        assert(digit_value(s.last()) == n % base);
        assert(number(s, base as int) == number(s.drop_last(), base as int) * (base as int)
            + digit_value(s.last()));
        assert((n / base) as int * (base as int) == (n / base) * base);
    }
}

/// Zeros in front of a number do not change it.
pub proof fn zeros_count_nothing(k: nat, s: Seq<char>, base: int)
    ensures
        number(Seq::new(k, |i: int| '0') + s, base) == number(s, base),
    decreases k + s.len(),
{
    let z = Seq::new(k, |i: int| '0');
    if s.len() > 0 {
        zeros_count_nothing(k, s.drop_last(), base);
        assert((z + s).drop_last() =~= z + s.drop_last());
    } else if k > 0 {
        let fewer = Seq::new((k - 1) as nat, |i: int| '0');
        zeros_count_nothing((k - 1) as nat, s, base);
        assert((z + s).drop_last() =~= fewer + s);
    } else {
        assert(z + s =~= s);
    }
}

/// An address reads back: what is reported as an address can be given as one.
pub proof fn address_reads_back(n: nat, max: int)
    requires
        n <= max,
    ensures
        parse_nat(strip_0x(text::address(n)), 16, max) == Some(n as int),
{
    reveal_strlit("0x");
    let d = text::digits(n, 16, true);
    let h = text::hex(n, 8);
    digits_spell(n, 16, true);
    if d.len() < 8 {
        let k = (8 - d.len()) as nat;
        let z = Seq::new(k, |i: int| '0');
        zeros_count_nothing(k, d, 16);
        assert(h == z + d);
        assert forall|i: int| 0 <= i < h.len() implies digit_value(#[trigger] h[i]) < 16 by {
            if i >= k {
                assert(h[i] == d[i - k]);
            }
        }
    }
    let s = text::address(n);
    assert(s[0] == '0' && s[1] == 'x');
    assert(s.skip(2) =~= h);
    assert(digit_value(h[0]) < 16);
    assert(digit_value('x') == 33);
    assert(digit_value('+') == 36);
    assert(digit_value(h[1]) < 16);
    assert(strip_0x(h) == h);
    assert(strip_0x(s) == strip_0x(s.skip(2)));
    assert(unsigned_part(h) == h);
    assert(number(h, 16) == n);
}

/// A search that starts in the first of two texts ends at the same place, if a `c` stands
/// between them.
pub proof fn find_ends_before(a: Seq<char>, b: Seq<char>, i: int, c: char)
    requires
        0 <= i <= a.len(),
    ensures
        find(a.push(c) + b, i, c) == find(a, i, c),
        i <= find(a, i, c) <= a.len(),
    decreases a.len() - i,
{
    let t = a.push(c) + b;
    if i < a.len() {
        assert(t[i] == a[i]);
        if a[i] != c {
            find_ends_before(a, b, i + 1, c);
        }
    } else {
        assert(t[i] == c);
    }
}

proof fn find_after(a: Seq<char>, b: Seq<char>, i: int, c: char)
    requires
        0 <= i <= b.len(),
    ensures
        find(a + b, a.len() + i, c) == a.len() + find(b, i, c),
        i <= find(b, i, c) <= b.len(),
    decreases b.len() - i,
{
    if i < b.len() {
        assert((a + b)[a.len() + i] == b[i]);
        if b[i] != c {
            find_after(a, b, i + 1, c);
        }
    }
}

/// The lines from a place in the second of two texts on are lines of that text.
pub proof fn later_lines_stay(a: Seq<char>, b: Seq<char>, i: int)
    requires
        0 <= i <= b.len(),
    ensures
        lines_from(a + b, a.len() + i) == lines_from(b, i),
    decreases b.len() - i,
{
    let t = a + b;
    if i < b.len() {
        find_after(a, b, i, '\n');
        let e = find(b, i, '\n');
        if e < b.len() {
            assert(t.subrange(a.len() + i, a.len() + e) =~= b.subrange(i, e));
            later_lines_stay(a, b, e + 1);
            assert(a.len() + e + 1 == a.len() + (e + 1));
        } else {
            assert(t.subrange(a.len() + i, t.len() as int) =~= b.subrange(i, b.len() as int));
        }
    }
}

/// White space at the end of a line leaves the runs before it as they are.
pub proof fn runs_before_space_stay(s: Seq<char>, c: char, i: int, spaces: bool)
    requires
        is_space(c),
        0 <= i <= s.len(),
    ensures
        i <= run_end(s, i, spaces) <= s.len(),
        run_end(s, i, spaces) < s.len() || !spaces ==> run_end(s.push(c), i, spaces) == run_end(
            s,
            i,
            spaces,
        ),
        run_end(s, i, spaces) == s.len() && spaces ==> run_end(s.push(c), i, spaces) == s.len() + 1,
    decreases s.len() - i,
{
    if i < s.len() {
        assert(s.push(c)[i] == s[i]);
        if is_space(s[i]) == spaces {
            runs_before_space_stay(s, c, i + 1, spaces);
        }
    } else {
        assert(s.push(c)[i] == c);
        assert(run_end(s.push(c), i + 1, spaces) == i + 1);
    }
}

/// A number in decimal holds digits and a leading minus sign, nothing else.
pub proof fn decimals_are_plain(n: int)
    ensures
        text::dec(n).len() > 0,
        forall|i: int| 0 <= i < text::dec(n).len() ==> #[trigger] text::dec(n)[i] != '/',
{
    let m = (if n < 0 {
        -n
    } else {
        n
    }) as nat;
    digits_spell(m, 10, false);
    let d = text::digits(m, 10, false);
    assert forall|i: int| 0 <= i < text::dec(n).len() implies #[trigger] text::dec(n)[i] != '/' by {
        assert(digit_value('/') == 36);
        if n < 0 {
            if i > 0 {
                assert(text::dec(n)[i] == d[i - 1]);
                assert(digit_value(d[i - 1]) < 10);
            }
        } else {
            assert(digit_value(d[i]) < 10);
        }
    }
}

/// Numbers that are written alike in decimal are the same.
pub proof fn decimals_tell_apart(m: int, n: int)
    requires
        text::dec(m) == text::dec(n),
    ensures
        m == n,
{
    let a = (if m < 0 {
        -m
    } else {
        m
    }) as nat;
    let b = (if n < 0 {
        -n
    } else {
        n
    }) as nat;
    digits_spell(a, 10, false);
    digits_spell(b, 10, false);
    let da = text::digits(a, 10, false);
    let db = text::digits(b, 10, false);
    assert(digit_value('-') == 36);
    assert(digit_value(da[0]) < 10);
    assert(digit_value(db[0]) < 10);
    if m < 0 && n < 0 {
        assert(text::dec(m).skip(1) =~= da);
        assert(text::dec(n).skip(1) =~= db);
    } else if m < 0 {
        assert(text::dec(m)[0] == '-');
    } else if n < 0 {
        assert(text::dec(n)[0] == '-');
    }
}

} // verus!
