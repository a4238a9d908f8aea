//! Big-endian encoding of the integers on the Nanonis wire, through
//! `byteorder`.
use byteorder::{BigEndian, ByteOrder};
use vstd::prelude::*;

verus! {

/// The two bytes of `n`, most significant first.
pub open spec fn enc_u16(n: u16) -> Seq<u8> {
    seq![(n / 256) as u8, (n % 256) as u8]
}

/// The four bytes of `n`, most significant first.
pub open spec fn enc_u32(n: u32) -> Seq<u8> {
    seq![
        (n / 0x100_0000) as u8,
        (n / 0x1_0000 % 256) as u8,
        (n / 256 % 256) as u8,
        (n % 256) as u8,
    ]
}

/// The eight bytes of `n`, most significant first.
pub open spec fn enc_u64(n: u64) -> Seq<u8> {
    enc_u32((n / 0x1_0000_0000) as u32) + enc_u32((n % 0x1_0000_0000) as u32)
}

/// The integer whose big-endian bytes begin `s`.
pub open spec fn dec_u16(s: Seq<u8>) -> u16 {
    (s[0] as int * 256 + s[1] as int) as u16
}

/// The integer whose big-endian bytes begin `s`.
pub open spec fn dec_u32(s: Seq<u8>) -> u32 {
    (s[0] as int * 0x100_0000 + s[1] as int * 0x1_0000 + s[2] as int * 256 + s[3] as int) as u32
}

/// The integer whose big-endian bytes begin `s`.
pub open spec fn dec_u64(s: Seq<u8>) -> u64 {
    (dec_u32(s) as int * 0x1_0000_0000 + dec_u32(s.subrange(4, 8)) as int) as u64
}

pub proof fn lemma_u16_roundtrip(n: u16)
    ensures
        dec_u16(enc_u16(n)) == n,
        enc_u16(n).len() == 2,
{
}

pub proof fn lemma_u32_roundtrip(n: u32)
    ensures
        dec_u32(enc_u32(n)) == n,
        enc_u32(n).len() == 4,
{
}

pub proof fn lemma_u64_roundtrip(n: u64)
    ensures
        dec_u64(enc_u64(n)) == n,
        enc_u64(n).len() == 8,
{
    let hi = (n / 0x1_0000_0000) as u32;
    let lo = (n % 0x1_0000_0000) as u32;
    lemma_u32_roundtrip(hi);
    lemma_u32_roundtrip(lo);
    assert(enc_u64(n).subrange(4, 8) =~= enc_u32(lo));
    assert(dec_u32(enc_u64(n)) == dec_u32(enc_u32(hi)));
}

/// `byteorder`'s `BigEndian::read_u16`: the first two bytes of `buf`, most
/// significant first. It panics on a shorter buffer, which `requires` rules
/// out.
#[verifier::external_body]
pub(crate) fn read_u16(buf: &[u8]) -> (r: u16)
    requires
        buf@.len() >= 2,
    ensures
        r == dec_u16(buf@),
{
    BigEndian::read_u16(buf)
}

/// `byteorder`'s `BigEndian::read_u32`: the first four bytes of `buf`, most
/// significant first. It panics on a shorter buffer, which `requires` rules
/// out.
#[verifier::external_body]
pub(crate) fn read_u32(buf: &[u8]) -> (r: u32)
    requires
        buf@.len() >= 4,
    ensures
        r == dec_u32(buf@),
{
    BigEndian::read_u32(buf)
}

/// `byteorder`'s `BigEndian::read_u64`: the first eight bytes of `buf`, most
/// significant first. It panics on a shorter buffer, which `requires` rules
/// out.
#[verifier::external_body]
pub(crate) fn read_u64(buf: &[u8]) -> (r: u64)
    requires
        buf@.len() >= 8,
    ensures
        r == dec_u64(buf@),
{
    BigEndian::read_u64(buf)
}

/// `byteorder`'s `BigEndian::write_u16` into a two-byte buffer: the bytes of
/// `n`, most significant first.
#[verifier::external_body]
pub(crate) fn u16_bytes(n: u16) -> (r: [u8; 2])
    ensures
        r@ == enc_u16(n),
{
    let mut buf = [0u8; 2];
    BigEndian::write_u16(&mut buf, n);
    buf
}

/// `byteorder`'s `BigEndian::write_u32` into a four-byte buffer: the bytes
/// of `n`, most significant first.
#[verifier::external_body]
pub(crate) fn u32_bytes(n: u32) -> (r: [u8; 4])
    ensures
        r@ == enc_u32(n),
{
    let mut buf = [0u8; 4];
    BigEndian::write_u32(&mut buf, n);
    buf
}

/// `byteorder`'s `BigEndian::write_u64` into an eight-byte buffer: the
/// bytes of `n`, most significant first.
#[verifier::external_body]
pub(crate) fn u64_bytes(n: u64) -> (r: [u8; 8])
    ensures
        r@ == enc_u64(n),
{
    let mut buf = [0u8; 8];
    BigEndian::write_u64(&mut buf, n);
    buf
}

/// Append the big-endian bytes of `n` to `buf`.
pub fn push_u16(buf: &mut Vec<u8>, n: u16)
    ensures
        final(buf)@ == old(buf)@ + enc_u16(n),
{
    let b = u16_bytes(n);
    buf.push(b[0]);
    buf.push(b[1]);
    proof {
        assert(buf@ =~= old(buf)@ + enc_u16(n));
    }
}

/// Append the big-endian bytes of `n` to `buf`.
pub fn push_u32(buf: &mut Vec<u8>, n: u32)
    ensures
        final(buf)@ == old(buf)@ + enc_u32(n),
{
    let b = u32_bytes(n);
    buf.push(b[0]);
    buf.push(b[1]);
    buf.push(b[2]);
    buf.push(b[3]);
    proof {
        assert(buf@ =~= old(buf)@ + enc_u32(n));
    }
}

/// Append the big-endian bytes of `n` to `buf`.
pub fn push_u64(buf: &mut Vec<u8>, n: u64)
    ensures
        final(buf)@ == old(buf)@ + enc_u64(n),
{
    let b = u64_bytes(n);
    let mut i: usize = 0;
    let ghost start = buf@;
    while i < 8
        invariant
            b@ == enc_u64(n),
            b@.len() == 8,
            i <= 8,
            buf@ == start + b@.take(i as int),
        decreases 8 - i,
    {
        buf.push(b[i]);
        proof {
            assert(b@.take(i + 1) =~= b@.take(i as int).push(b@[i as int]));
        }
        i = i + 1;
    }
    proof {
        assert(b@.take(8) =~= b@);
    }
}

} // verus!
