//! Numbers as text, and text as numbers.

use vstd::prelude::*;
use vstd::string::StringExecFns;

verus! {

/// `String::push` appends one character.
pub assume_specification[ String::push ](s: &mut String, c: char)
    ensures
        final(s)@ == old(s)@.push(c),
;

/// The text that `String::from_utf8_lossy` makes of bytes.
pub uninterp spec fn lossy(b: Seq<u8>) -> Seq<char>;

/// `String::from_utf8_lossy` turns bytes into text. What is valid UTF-8 comes out as the
/// text that it encodes; the rest has its invalid parts replaced.
#[verifier::external_body]
pub(crate) fn lossy_text(b: &Vec<u8>) -> (r: String)
    ensures
        r@ == lossy(b@),
        vstd::utf8::valid_utf8(b@) ==> r@ == vstd::utf8::decode_utf8(b@),
{
    String::from_utf8_lossy(b).into_owned()
}

/// A string in quotes, with the escapes that `Debug` puts into it.
pub uninterp spec fn debug(s: Seq<char>) -> Seq<char>;

/// Formatting a string with `{:?}` puts it in quotes and escapes what is not printable;
/// the outcome depends on the string alone.
#[verifier::external_body]
pub(crate) fn debug_text(s: &String) -> (r: String)
    ensures
        r@ == debug(s@),
{
    format!("{:?}", s)
}

/// The digit of value `d`, as a character.
pub open spec fn digit_char(d: int, upper: bool) -> char {
    if d < 10 {
        (48 + d) as char
    } else if upper {
        (55 + d) as char
    } else {
        (87 + d) as char
    }
}

/// `n` in the given base, most significant digit first, without leading zeros.
pub open spec fn digits(n: nat, base: nat, upper: bool) -> Seq<char>
    decreases n,
{
    if base < 2 || n < base {
        seq![digit_char(n as int, upper)]
    } else {
        proof {
            assert(n / base < n) by (nonlinear_arith)
                requires
                    2 <= base <= n,
            ;
        }
        digits(n / base, base, upper).push(digit_char((n % base) as int, upper))
    }
}

/// `s` with zeros in front of it, up to `width` characters.
pub open spec fn pad(s: Seq<char>, width: nat) -> Seq<char> {
    if s.len() >= width {
        s
    } else {
        Seq::new((width - s.len()) as nat, |i: int| '0') + s
    }
}

/// `n` in decimal, with a minus sign where it is negative.
pub open spec fn dec(n: int) -> Seq<char> {
    if n < 0 {
        seq!['-'] + digits((-n) as nat, 10, false)
    } else {
        digits(n as nat, 10, false)
    }
}

/// `n` in upper case hexadecimal, zero-padded to `width` digits.
pub open spec fn hex(n: nat, width: nat) -> Seq<char> {
    pad(digits(n, 16, true), width)
}

/// `n` in lower case hexadecimal, zero-padded to `width` digits.
pub open spec fn hex_low(n: nat, width: nat) -> Seq<char> {
    pad(digits(n, 16, false), width)
}

/// An address as it is reported: `0x` and at least eight upper case digits.
pub open spec fn address(n: nat) -> Seq<char> {
    "0x"@ + hex(n, 8)
}

/// The first `n` bytes in hexadecimal, separated by spaces. With `wrap`, a new line
/// starts before every sixteenth byte but the first.
pub open spec fn dump(b: Seq<u8>, n: int, wrap: bool) -> Seq<char>
    decreases n,
{
    if n <= 0 {
        seq![]
    } else {
        let i = n - 1;
        let gap = if i == 0 {
            ""@
        } else if wrap && i % 16 == 0 {
            " \n"@
        } else {
            " "@
        };
        dump(b, i, wrap) + gap + hex_low(b[i] as nat, 2)
    }
}

fn push_digits(out: &mut String, n: u64, base: u64, upper: bool)
    requires
        2 <= base <= 16,
    ensures
        final(out)@ == old(out)@ + digits(n as nat, base as nat, upper),
    decreases n,
{
    let d: u8;
    if n >= base {
        assert(n / base < n) by (nonlinear_arith)
            requires
                2 <= base <= n,
        ;
        push_digits(out, n / base, base, upper);
        d = (n % base) as u8;
    } else {
        d = n as u8;
    }
    let ghost before = out@;
    if d < 10 {
        out.push((48 + d) as char);
    } else if upper {
        out.push((55 + d) as char);
    } else {
        out.push((87 + d) as char);
    }
    proof {
        assert((n as nat) / (base as nat) == (n / base) as nat);
        assert((n as nat) % (base as nat) == (n % base) as nat);
        assert(out@ == before.push(digit_char(d as int, upper)));
        assert(out@ =~= old(out)@ + digits(n as nat, base as nat, upper));
    }
}

fn push_padded(out: &mut String, n: u64, upper: bool, width: usize)
    ensures
        final(out)@ == old(out)@ + pad(digits(n as nat, 16, upper), width as nat),
{
    let mut body = String::new();
    push_digits(&mut body, n, 16, upper);
    assert(body@ =~= digits(n as nat, 16, upper));
    let len: usize = body.as_str().unicode_len();
    let ghost start = out@;
    let mut i: usize = len;
    while i < width
        invariant
            len == body@.len(),
            len <= i,
            i <= width || i == len,
            out@ == start + Seq::new((i - len) as nat, |j: int| '0'),
        decreases width - i,
    {
        out.push('0');
        i = i + 1;
        assert(out@ =~= start + Seq::new((i - len) as nat, |j: int| '0'));
    }
    out.append(body.as_str());
    assert(out@ =~= start + pad(digits(n as nat, 16, upper), width as nat));
}

/// Appends `n` in decimal.
pub fn push_dec(out: &mut String, n: i64)
    ensures
        final(out)@ == old(out)@ + dec(n as int),
{
    if n < 0 {
        let m: u64 = (-(n + 1)) as u64 + 1;
        let ghost start = out@;
        out.push('-');
        push_digits(out, m, 10, false);
        assert(out@ =~= start + dec(n as int));
    } else {
        push_digits(out, n as u64, 10, false);
    }
}

/// Appends `n` in decimal.
pub fn push_dec_u(out: &mut String, n: u64)
    ensures
        final(out)@ == old(out)@ + dec(n as int),
{
    push_digits(out, n, 10, false);
}

/// Appends `n` in upper case hexadecimal.
pub fn push_hex(out: &mut String, n: u64, width: usize)
    ensures
        final(out)@ == old(out)@ + hex(n as nat, width as nat),
{
    push_padded(out, n, true, width);
}

/// Appends `n` in lower case hexadecimal.
pub fn push_hex_low(out: &mut String, n: u64, width: usize)
    ensures
        final(out)@ == old(out)@ + hex_low(n as nat, width as nat),
{
    push_padded(out, n, false, width);
}

/// An address as it is reported.
pub fn address_text(n: u64) -> (r: String)
    ensures
        r@ == address(n as nat),
{
    let mut r: String = "0x".to_owned();
    push_hex(&mut r, n, 8);
    r
}

/// Bytes in hexadecimal, separated by spaces, sixteen to a line with `wrap`.
pub fn dump_text(b: &Vec<u8>, wrap: bool) -> (r: String)
    ensures
        r@ == dump(b@, b@.len() as int, wrap),
{
    let mut r: String = String::new();
    let mut i: usize = 0;
    while i < b.len()
        invariant
            i <= b@.len(),
            r@ == dump(b@, i as int, wrap),
        decreases b@.len() - i,
    {
        let gap: &str = if i == 0 {
            ""
        } else if wrap && i % 16 == 0 {
            " \n"
        } else {
            " "
        };
        r.append(gap);
        push_hex_low(&mut r, b[i] as u64, 2);
        i = i + 1;
    }
    r
}

} // verus!
