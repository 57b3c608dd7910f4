use vstd::prelude::*;
use byteorder::{BigEndian, ByteOrder, LittleEndian};

verus! {

/// The unsigned value of the four bytes at `at`, least significant first.
pub open spec fn le_u32_at(s: Seq<u8>, at: int) -> int {
    s[at] as int + 256 * (s[at + 1] as int) + 65536 * (s[at + 2] as int) + 16777216 * (
    s[at + 3] as int)
}

/// The unsigned value of the four bytes at `at`, most significant first.
pub open spec fn be_u32_at(s: Seq<u8>, at: int) -> int {
    s[at + 3] as int + 256 * (s[at + 2] as int) + 65536 * (s[at + 1] as int) + 16777216 * (
    s[at] as int)
}

/// The unsigned value of the two bytes at `at`, least significant first.
pub open spec fn le_u16_at(s: Seq<u8>, at: int) -> int {
    s[at] as int + 256 * (s[at + 1] as int)
}

/// The four bytes of `n`, least significant first.
pub open spec fn le_bytes_u32(n: u32) -> Seq<u8> {
    seq![(n % 256) as u8, ((n / 256) % 256) as u8, ((n / 65536) % 256) as u8, (n / 16777216) as u8]
}

/// The four bytes of `n`, most significant first.
pub open spec fn be_bytes_u32(n: u32) -> Seq<u8> {
    seq![(n / 16777216) as u8, ((n / 65536) % 256) as u8, ((n / 256) % 256) as u8, (n % 256) as u8]
}

/// The two bytes of `n`, least significant first.
pub open spec fn le_bytes_u16(n: u16) -> Seq<u8> {
    seq![(n % 256) as u8, (n / 256) as u8]
}

/// `s` with the bytes from `at` on replaced by `b`; the length stays.
pub open spec fn overwritten(s: Seq<u8>, at: int, b: Seq<u8>) -> Seq<u8> {
    Seq::new(s.len(), |i: int| if at <= i < at + b.len() { b[i - at] } else { s[i] })
}

/// Reading back the bytes of `n`, most significant first, gives `n`.
pub proof fn lemma_be_bytes_u32(n: u32)
    ensures
        be_u32_at(be_bytes_u32(n), 0) == n,
{
    let b = be_bytes_u32(n);
    let q1 = n / 256;
    let q2 = q1 / 256;
    let q3 = q2 / 256;
    assert(n / 65536 == q2);
    assert(n / 16777216 == q3);
    assert(b[3] as int == n - 256 * q1);
    assert(b[2] as int == q1 - 256 * q2);
    assert(b[1] as int == q2 - 256 * q3);
    assert(b[0] as int == q3);
}

/// Reading back the bytes of `n`, least significant first, gives `n`.
pub proof fn lemma_le_bytes_u32(n: u32)
    ensures
        le_u32_at(le_bytes_u32(n), 0) == n,
{
    let b = le_bytes_u32(n);
    let q1 = n / 256;
    let q2 = q1 / 256;
    let q3 = q2 / 256;
    assert(n / 65536 == q2);
    assert(n / 16777216 == q3);
    assert(b[0] as int == n - 256 * q1);
    assert(b[1] as int == q1 - 256 * q2);
    assert(b[2] as int == q2 - 256 * q3);
    assert(b[3] as int == q3);
}

/// Laying out the value read at `at` gives back the four bytes there.
pub proof fn lemma_le_u32_bytes(s: Seq<u8>, at: int)
    requires
        0 <= at,
        at + 4 <= s.len(),
    ensures
        0 <= le_u32_at(s, at) < 0x1_0000_0000,
        le_bytes_u32(le_u32_at(s, at) as u32) == s.subrange(at, at + 4),
{
    let x = le_u32_at(s, at);
    let a = s[at] as int;
    let b = s[at + 1] as int;
    let c = s[at + 2] as int;
    let d = s[at + 3] as int;
    assert(x / 256 == b + 256 * c + 65536 * d);
    assert(x / 65536 == c + 256 * d);
    assert(x / 16777216 == d);
    assert(le_bytes_u32(x as u32) =~= s.subrange(at, at + 4));
}

/// The low sixteen bits of the value read at 0 are the value of the first two bytes.
pub proof fn lemma_le_u32_low_half(s: Seq<u8>)
    requires
        4 <= s.len(),
    ensures
        le_u32_at(s, 0) % 65536 == le_u16_at(s, 0),
{
    let lo = le_u16_at(s, 0);
    let hi = s[2] as int + 256 * (s[3] as int);
    assert(le_u32_at(s, 0) == lo + 65536 * hi);
    assert((lo + 65536 * hi) % 65536 == lo) by (nonlinear_arith)
        requires
            0 <= lo < 65536,
            0 <= hi,
    ;
}

/// Relies on byteorder's `LittleEndian::read_u32`: the first four bytes of the
/// slice, least significant first.
#[verifier::external_body]
pub(crate) fn read_u32_le(buf: &[u8], at: usize) -> (r: u32)
    requires
        at + 4 <= buf@.len(),
    ensures
        r as int == le_u32_at(buf@, at as int),
{
    LittleEndian::read_u32(&buf[at..])
}

/// Relies on byteorder's `BigEndian::read_u32`: the first four bytes of the
/// slice, most significant first.
#[verifier::external_body]
pub(crate) fn read_u32_be(buf: &[u8], at: usize) -> (r: u32)
    requires
        at + 4 <= buf@.len(),
    ensures
        r as int == be_u32_at(buf@, at as int),
{
    BigEndian::read_u32(&buf[at..])
}

/// Relies on byteorder's `LittleEndian::write_u32`: it stores `n` least
/// significant byte first in the first four bytes of the slice.
#[verifier::external_body]
pub(crate) fn write_u32_le(buf: &mut Vec<u8>, at: usize, n: u32)
    requires
        at + 4 <= old(buf)@.len(),
    ensures
        final(buf)@ == overwritten(old(buf)@, at as int, le_bytes_u32(n)),
{
    LittleEndian::write_u32(&mut buf[at..], n)
}

/// Relies on byteorder's `BigEndian::write_u32`: it stores `n` most
/// significant byte first in the first four bytes of the slice.
#[verifier::external_body]
pub(crate) fn write_u32_be(buf: &mut Vec<u8>, at: usize, n: u32)
    requires
        at + 4 <= old(buf)@.len(),
    ensures
        final(buf)@ == overwritten(old(buf)@, at as int, be_bytes_u32(n)),
{
    BigEndian::write_u32(&mut buf[at..], n)
}

/// Relies on byteorder's `LittleEndian::write_u16`: it stores `n` least
/// significant byte first in the first two bytes of the slice.
#[verifier::external_body]
pub(crate) fn write_u16_le(buf: &mut Vec<u8>, at: usize, n: u16)
    requires
        at + 2 <= old(buf)@.len(),
    ensures
        final(buf)@ == overwritten(old(buf)@, at as int, le_bytes_u16(n)),
{
    LittleEndian::write_u16(&mut buf[at..], n)
}

} // verus!
