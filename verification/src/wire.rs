//! Big-endian integers as they stand in an assembly image.

use vstd::prelude::*;
use byteorder::{BigEndian, ByteOrder};

verus! {

/// The number that the bytes `s` spell, most significant byte first.
pub open spec fn be_value(s: Seq<u8>) -> nat
    decreases s.len(),
{
    if s.len() == 0 {
        0
    } else {
        be_value(s.drop_last()) * 256 + s.last() as nat
    }
}

/// The `width` bytes that spell `n`, most significant byte first.
pub open spec fn be_bytes(n: nat, width: nat) -> Seq<u8>
    decreases width,
{
    if width == 0 {
        Seq::empty()
    } else {
        be_bytes(n / 256, (width - 1) as nat).push((n % 256) as u8)
    }
}

/// 256 to the power `width`: the number of values that `width` bytes can spell.
pub open spec fn span(width: nat) -> nat
    decreases width,
{
    if width == 0 {
        1
    } else {
        256 * span((width - 1) as nat)
    }
}

pub proof fn lemma_be_bytes_len(n: nat, width: nat)
    ensures
        be_bytes(n, width).len() == width,
    decreases width,
{
    if width > 0 {
        lemma_be_bytes_len(n / 256, (width - 1) as nat);
    }
}

pub proof fn lemma_be_value_bound(s: Seq<u8>)
    ensures
        be_value(s) < span(s.len()),
    decreases s.len(),
{
    if s.len() > 0 {
        lemma_be_value_bound(s.drop_last());
    }
}

/// Reading back what was written gives the number again.
pub proof fn lemma_be_value_of_bytes(n: nat, width: nat)
    requires
        n < span(width),
    ensures
        be_value(be_bytes(n, width)) == n,
    decreases width,
{
    if width > 0 {
        let w = (width - 1) as nat;
        lemma_be_value_of_bytes(n / 256, w);
        assert(be_bytes(n, width).drop_last() =~= be_bytes(n / 256, w));
    }
}

/// Writing what was read gives the bytes again.
pub proof fn lemma_be_bytes_of_value(s: Seq<u8>)
    ensures
        be_bytes(be_value(s), s.len()) == s,
    decreases s.len(),
{
    if s.len() > 0 {
        lemma_be_bytes_of_value(s.drop_last());
        let n = be_value(s);
        assert(n / 256 == be_value(s.drop_last()));
        assert(n % 256 == s.last() as nat);
        assert(be_bytes(n, s.len()) =~= s);
    } else {
        assert(be_bytes(be_value(s), 0) =~= s);
    }
}

pub proof fn lemma_span_values()
    ensures
        span(1) == 0x100,
        span(2) == 0x1_0000,
        span(4) == 0x1_0000_0000,
        span(8) == 0x1_0000_0000_0000_0000,
{
    reveal_with_fuel(span, 9);
}

/// `byteorder::BigEndian::read_u16`: the first two bytes of `buf` as a
/// big-endian number.
#[verifier::external_body]
pub(crate) fn read_u16(buf: &[u8]) -> (r: u16)
    requires
        buf@.len() >= 2,
    ensures
        r as nat == be_value(buf@.subrange(0, 2)),
{
    BigEndian::read_u16(buf)
}

/// `byteorder::BigEndian::read_u32`: the first four bytes of `buf` as a
/// big-endian number.
#[verifier::external_body]
pub(crate) fn read_u32(buf: &[u8]) -> (r: u32)
    requires
        buf@.len() >= 4,
    ensures
        r as nat == be_value(buf@.subrange(0, 4)),
{
    BigEndian::read_u32(buf)
}

/// `byteorder::BigEndian::read_u64`: the first eight bytes of `buf` as a
/// big-endian number.
#[verifier::external_body]
pub(crate) fn read_u64(buf: &[u8]) -> (r: u64)
    requires
        buf@.len() >= 8,
    ensures
        r as nat == be_value(buf@.subrange(0, 8)),
{
    BigEndian::read_u64(buf)
}

/// `byteorder::BigEndian::write_u16` into a fresh buffer: the two bytes
/// that spell `n`.
#[verifier::external_body]
pub(crate) fn bytes_u16(n: u16) -> (r: [u8; 2])
    ensures
        r@ == be_bytes(n as nat, 2),
{
    let mut buf = [0u8; 2];
    BigEndian::write_u16(&mut buf, n);
    buf
}

/// `byteorder::BigEndian::write_u32` into a fresh buffer: the four bytes
/// that spell `n`.
#[verifier::external_body]
pub(crate) fn bytes_u32(n: u32) -> (r: [u8; 4])
    ensures
        r@ == be_bytes(n as nat, 4),
{
    let mut buf = [0u8; 4];
    BigEndian::write_u32(&mut buf, n);
    buf
}

/// `byteorder::BigEndian::write_u64` into a fresh buffer: the eight bytes
/// that spell `n`.
#[verifier::external_body]
pub(crate) fn bytes_u64(n: u64) -> (r: [u8; 8])
    ensures
        r@ == be_bytes(n as nat, 8),
{
    let mut buf = [0u8; 8];
    BigEndian::write_u64(&mut buf, n);
    buf
}

} // verus!
