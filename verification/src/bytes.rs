//! Little-endian integers inside byte sequences.

use vstd::prelude::*;

verus! {

/// The unsigned 16-bit value stored at `o`.
pub open spec fn le16(s: Seq<u8>, o: int) -> int {
    s[o] + 256 * s[o + 1]
}

/// The unsigned 32-bit value stored at `o`.
pub open spec fn le32(s: Seq<u8>, o: int) -> int {
    s[o] + 256 * s[o + 1] + 65536 * s[o + 2] + 16777216 * s[o + 3]
}

/// The two's complement reading of a 16-bit pattern.
pub open spec fn signed16(n: int) -> int {
    if n < 0x8000 {
        n
    } else {
        n - 0x1_0000
    }
}

/// The two's complement reading of a 32-bit pattern.
pub open spec fn signed32(n: int) -> int {
    if n < 0x8000_0000 {
        n
    } else {
        n - 0x1_0000_0000
    }
}

/// The signed 32-bit value stored at `o`.
pub open spec fn le_i32(s: Seq<u8>, o: int) -> int {
    signed32(le32(s, o))
}

/// The low 32 bits of `n`, as an unsigned number.
pub open spec fn bits32(n: int) -> int {
    n % 0x1_0000_0000
}

/// The low 32 bits of `n`, read as a signed number: what a narrowing cast keeps.
pub open spec fn low32(n: int) -> int {
    signed32(n % 0x1_0000_0000)
}

/// The two bytes that store a 16-bit pattern.
#[verifier::opaque]
pub open spec fn bytes16(n: int) -> Seq<u8> {
    seq![(n % 256) as u8, (n / 256 % 256) as u8]
}

/// The four bytes that store a 32-bit pattern.
#[verifier::opaque]
pub open spec fn bytes32(n: int) -> Seq<u8> {
    seq![
        (n % 256) as u8,
        (n / 256 % 256) as u8,
        (n / 65536 % 256) as u8,
        (n / 16777216 % 256) as u8,
    ]
}

/// A 16-bit pattern takes two bytes.
pub broadcast proof fn half_is_two_bytes(n: int)
    ensures
        #[trigger] bytes16(n).len() == 2,
{
    reveal(bytes16);
}

/// A 32-bit pattern takes four bytes.
pub broadcast proof fn word_is_four_bytes(n: int)
    ensures
        #[trigger] bytes32(n).len() == 4,
{
    reveal(bytes32);
}

/// A 16-bit pattern survives being stored and read back.
pub proof fn stored_half_reads_back(n: int)
    requires
        0 <= n < 0x1_0000,
    ensures
        bytes16(n).len() == 2,
        le16(bytes16(n), 0) == n,
{
    reveal(bytes16);
}

/// A 32-bit pattern survives being stored and read back.
pub proof fn stored_word_reads_back(n: int)
    requires
        0 <= n < 0x1_0000_0000,
    ensures
        bytes32(n).len() == 4,
        le32(bytes32(n), 0) == n,
{
    reveal(bytes32);
}

/// A signed 32-bit value survives being stored by its bit pattern and read back.
pub proof fn stored_int_reads_back(n: int)
    requires
        -0x8000_0000 <= n < 0x8000_0000,
    ensures
        le_i32(bytes32(n % 0x1_0000_0000), 0) == n,
{
    stored_word_reads_back(n % 0x1_0000_0000);
}

/// Reinterprets a 32-bit pattern as signed.
pub fn to_i32(w: u32) -> (r: i32)
    ensures
        r == signed32(w as int),
{
    assert(w < 0x8000_0000u32 ==> (w as i32) as int == w as int) by (bit_vector);
    assert(w >= 0x8000_0000u32 ==> (w as i32) as int == w as int - 0x1_0000_0000int) by (bit_vector);
    w as i32
}

/// The bit pattern of a signed value.
pub fn to_u32(v: i32) -> (r: u32)
    ensures
        r == bits32(v as int),
        signed32(r as int) == v,
{
    assert(v >= 0 ==> (v as u32) as int == v as int) by (bit_vector);
    assert(v < 0 ==> (v as u32) as int == v as int + 0x1_0000_0000int) by (bit_vector);
    v as u32
}

/// Keeps the low 32 bits of a 64-bit value, as a narrowing cast does.
pub fn narrow(v: i64) -> (r: i32)
    ensures
        r == low32(v as int),
{
    to_i32(narrow_bits(v))
}

/// Keeps the low 32 bits of a 64-bit value, unsigned.
pub fn narrow_bits(v: i64) -> (r: u32)
    ensures
        r == bits32(v as int),
{
    assert(((v as u64) & 0xFFFF_FFFFu64) == (v as u64) % 0x1_0000_0000u64) by (bit_vector);
    assert(v >= 0 ==> (v as u64) as int == v as int) by (bit_vector);
    assert(v < 0 ==> (v as u64) as int == v as int + 0x1_0000_0000_0000_0000int) by (bit_vector);
    let low: u64 = (v as u64) % 0x1_0000_0000u64;
    low as u32
}

/// Reads the unsigned 16-bit value at `o`.
pub fn half_at(b: &Vec<u8>, o: usize) -> (r: u16)
    requires
        o + 2 <= b@.len(),
    ensures
        r == le16(b@, o as int),
{
    let _n: usize = b.len();
    b[o] as u16 + 256 * (b[o + 1] as u16)
}

/// Reads the signed 16-bit value at `o`.
pub fn short_at(b: &Vec<u8>, o: usize) -> (r: i16)
    requires
        o + 2 <= b@.len(),
    ensures
        r == signed16(le16(b@, o as int)),
{
    let w: u16 = half_at(b, o);
    assert(w < 0x8000u16 ==> (w as i16) as int == w as int) by (bit_vector);
    assert(w >= 0x8000u16 ==> (w as i16) as int == w as int - 0x1_0000int) by (bit_vector);
    w as i16
}

/// Reads the unsigned 32-bit value at `o`.
pub fn word_at(b: &Vec<u8>, o: usize) -> (r: u32)
    requires
        o + 4 <= b@.len(),
    ensures
        r == le32(b@, o as int),
{
    let _n: usize = b.len();
    b[o] as u32 + 256 * (b[o + 1] as u32) + 65536 * (b[o + 2] as u32) + 16777216 * (b[o + 3] as u32)
}

/// Reads the signed 32-bit value at `o`.
pub fn int_at(b: &Vec<u8>, o: usize) -> (r: i32)
    requires
        o + 4 <= b@.len(),
    ensures
        r == le_i32(b@, o as int),
{
    to_i32(word_at(b, o))
}

/// Stores a 16-bit pattern.
pub fn store16(w: u16) -> (r: Vec<u8>)
    ensures
        r@ == bytes16(w as int),
{
    let r: Vec<u8> = vec![(w % 256) as u8, (w / 256) as u8];
    proof {
        reveal(bytes16);
    }
    assert(r@ =~= bytes16(w as int));
    r
}

/// Stores a 32-bit pattern.
pub fn store32(w: u32) -> (r: Vec<u8>)
    ensures
        r@ == bytes32(w as int),
{
    let r: Vec<u8> = vec![
        (w % 256) as u8,
        (w / 256 % 256) as u8,
        (w / 65536 % 256) as u8,
        (w / 16777216 % 256) as u8,
    ];
    proof {
        reveal(bytes32);
    }
    assert(r@ =~= bytes32(w as int));
    r
}

} // verus!
