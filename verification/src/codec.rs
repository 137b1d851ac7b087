//! Fixed-width integers as bytes, in the two byte orders that the log and the
//! network protocol use.
use vstd::prelude::*;

verus! {

/// The four bytes of `n`, least significant first.
pub open spec fn le_u32(n: u32) -> Seq<u8> {
    seq![
        (n % 256) as u8,
        (n / 256 % 256) as u8,
        (n / 65536 % 256) as u8,
        (n / 16777216) as u8,
    ]
}

/// The number whose bytes, least significant first, are the first four of `bytes`.
pub open spec fn u32_of_le(bytes: Seq<u8>) -> u32 {
    (bytes[0] + 256 * bytes[1] + 65536 * bytes[2] + 16777216 * bytes[3]) as u32
}

/// The four bytes of `n`, most significant first.
pub open spec fn be_u32(n: u32) -> Seq<u8> {
    le_u32(n).reverse()
}

/// The number whose bytes, most significant first, are the first four of `bytes`.
pub open spec fn u32_of_be(bytes: Seq<u8>) -> u32 {
    u32_of_le(bytes.take(4).reverse())
}

/// The eight bytes of `n`, least significant first.
pub open spec fn le_u64(n: u64) -> Seq<u8> {
    le_u32((n % 4294967296) as u32) + le_u32((n / 4294967296) as u32)
}

/// The number whose bytes, least significant first, are the first eight of `bytes`.
pub open spec fn u64_of_le(bytes: Seq<u8>) -> u64 {
    (u32_of_le(bytes) + 4294967296 * u32_of_le(bytes.skip(4))) as u64
}

/// What is left of `n` in 32 bits.
pub open spec fn low_u32(n: nat) -> u32 {
    (n % 4294967296) as u32
}

/// Four bytes read back as the number they were written from, and no other four
/// bytes read as that number.
pub proof fn law_le_u32(n: u32, bytes: Seq<u8>)
    requires
        bytes.len() == 4,
    ensures
        le_u32(n).len() == 4,
        u32_of_le(le_u32(n)) == n,
        le_u32(u32_of_le(bytes)) == bytes,
{
    let b0 = bytes[0] as int;
    let b1 = bytes[1] as int;
    let b2 = bytes[2] as int;
    let b3 = bytes[3] as int;
    lemma_four_digits(b0, b1, b2, b3);
    assert(le_u32(u32_of_le(bytes)) =~= bytes);
    lemma_digits_of(n as int);
}

/// Four digits to the base 256 are those of the number they write.
proof fn lemma_four_digits(b0: int, b1: int, b2: int, b3: int)
    requires
        0 <= b0 < 256,
        0 <= b1 < 256,
        0 <= b2 < 256,
        0 <= b3 < 256,
    ensures
        ({
            let n = b0 + 256 * b1 + 65536 * b2 + 16777216 * b3;
            &&& n % 256 == b0
            &&& n / 256 % 256 == b1
            &&& n / 65536 % 256 == b2
            &&& n / 16777216 == b3
            &&& 0 <= n < 4294967296
        }),
{
    let n = b0 + 256 * b1 + 65536 * b2 + 16777216 * b3;
    assert(n / 256 == b1 + 256 * b2 + 65536 * b3);
    assert(n / 65536 == b2 + 256 * b3);
}

/// A number below `2^32` is written by its four digits to the base 256.
proof fn lemma_digits_of(n: int)
    requires
        0 <= n < 4294967296,
    ensures
        n == n % 256 + 256 * (n / 256 % 256) + 65536 * (n / 65536 % 256) + 16777216 * (n
            / 16777216),
{
    assert(n / 65536 == n / 256 / 256);
    assert(n / 16777216 == n / 65536 / 256);
}

/// The same for the bytes in the opposite order.
pub proof fn law_be_u32(n: u32, bytes: Seq<u8>)
    requires
        bytes.len() == 4,
    ensures
        be_u32(n).len() == 4,
        u32_of_be(be_u32(n)) == n,
        be_u32(u32_of_be(bytes)) == bytes,
{
    law_le_u32(n, bytes.reverse());
    assert(be_u32(n).take(4).reverse() =~= le_u32(n));
    assert(bytes.take(4) =~= bytes);
    assert(bytes.reverse().reverse() =~= bytes);
}

/// Eight bytes read back as the number they were written from.
pub proof fn law_le_u64(n: u64)
    ensures
        le_u64(n).len() == 8,
        u64_of_le(le_u64(n)) == n,
{
    let low = (n % 4294967296) as u32;
    let high = (n / 4294967296) as u32;
    law_le_u32(low, le_u32(low));
    law_le_u32(high, le_u32(high));
    assert(le_u64(n).skip(4) =~= le_u32(high));
    assert(u32_of_le(le_u64(n)) == u32_of_le(le_u32(low)));
}

/// A length that fits four bytes is read back from them.
pub proof fn lemma_len_field(len: nat)
    requires
        len <= u32::MAX,
    ensures
        le_u32(low_u32(len)).len() == 4,
        u32_of_le(le_u32(low_u32(len))) == len,
{
    law_le_u32(len as u32, le_u32(len as u32));
}

/// No other eight bytes read as that number.
pub proof fn law_le_u64_bytes(bytes: Seq<u8>)
    requires
        bytes.len() == 8,
    ensures
        le_u64(u64_of_le(bytes)) == bytes,
{
    let low = bytes.take(4);
    let high = bytes.skip(4);
    law_le_u32(0, low);
    law_le_u32(0, high);
    lemma_reads_prefix(bytes, Seq::empty());
    let n = u64_of_le(bytes);
    assert(n == u32_of_le(low) + 4294967296 * u32_of_le(high));
    assert(n % 4294967296 == u32_of_le(low));
    assert(n / 4294967296 == u32_of_le(high));
    assert(low + high =~= bytes);
}

/// Numbers read from bytes depend on those bytes alone.
pub proof fn lemma_reads_prefix(bytes: Seq<u8>, rest: Seq<u8>)
    requires
        bytes.len() >= 4,
    ensures
        u32_of_le(bytes + rest) == u32_of_le(bytes),
        u32_of_le(bytes.take(4)) == u32_of_le(bytes),
{
}

/// The low 32 bits of a length.
pub fn len_u32(len: usize) -> (n: u32)
    ensures
        n == low_u32(len as nat),
{
    (len as u64 % 4294967296) as u32
}

/// Writes the bytes of `n`, least significant first, behind `buf`.
pub fn push_u32_le(buf: &mut Vec<u8>, n: u32)
    ensures
        final(buf)@ == old(buf)@ + le_u32(n),
{
    buf.push((n % 256) as u8);
    buf.push((n / 256 % 256) as u8);
    buf.push((n / 65536 % 256) as u8);
    buf.push((n / 16777216) as u8);
    assert(buf@ =~= old(buf)@ + le_u32(n));
}

/// Writes `bytes` behind `buf`.
pub fn push_bytes(buf: &mut Vec<u8>, bytes: &[u8])
    ensures
        final(buf)@ == old(buf)@ + bytes@,
{
    buf.extend_from_slice(bytes);
    assert(buf@ =~= old(buf)@ + bytes@);
}

/// Reads the four bytes of `bytes` from `at` on, least significant first.
pub fn read_u32_le(bytes: &[u8], at: usize) -> (n: u32)
    requires
        at + 4 <= bytes@.len(),
    ensures
        n == u32_of_le(bytes@.subrange(at as int, at + 4)),
{
    bytes[at] as u32 + 256 * bytes[at + 1] as u32 + 65536 * bytes[at + 2] as u32 + 16777216
        * bytes[at + 3] as u32
}

/// Reads the four bytes of `bytes` from `at` on, most significant first.
pub fn read_u32_be(bytes: &[u8], at: usize) -> (n: u32)
    requires
        at + 4 <= bytes@.len(),
    ensures
        n == u32_of_be(bytes@.subrange(at as int, at + 4)),
{
    assert(at + 4 <= bytes.len());
    let ghost four = bytes@.subrange(at as int, at + 4);
    assert(four.take(4) =~= four);
    bytes[at + 3] as u32 + 256 * bytes[at + 2] as u32 + 65536 * bytes[at + 1] as u32 + 16777216
        * bytes[at] as u32
}

/// Reads the eight bytes of `bytes` from `at` on, least significant first.
pub fn read_u64_le(bytes: &[u8], at: usize) -> (n: u64)
    requires
        at + 8 <= bytes@.len(),
    ensures
        n == u64_of_le(bytes@.subrange(at as int, at + 8)),
{
    assert(at + 8 <= bytes.len());
    let low = read_u32_le(bytes, at);
    let high = read_u32_le(bytes, at + 4);
    proof {
        let eight = bytes@.subrange(at as int, at + 8);
        assert(eight.take(4) =~= bytes@.subrange(at as int, at + 4));
        assert(eight.skip(4).take(4) =~= bytes@.subrange(at + 4, at + 8));
        lemma_reads_prefix(eight, Seq::empty());
        lemma_reads_prefix(eight.skip(4), Seq::empty());
    }
    low as u64 + 4294967296 * high as u64
}

/// Calls `bytes::BufMut::put_u32_le` on a vector: the four bytes of `n`, least
/// significant first, stand behind what the vector held. The vector has to have
/// room for them below the largest size that an allocation can have.
#[verifier::external_body]
pub(crate) fn put_u32_le(buf: &mut Vec<u8>, n: u32)
    requires
        old(buf)@.len() + 4 <= isize::MAX,
    ensures
        final(buf)@ == old(buf)@ + le_u32(n),
{
    bytes::BufMut::put_u32_le(buf, n)
}

/// Calls `bytes::BufMut::put_u32` on a vector: the four bytes of `n`, most
/// significant first, stand behind what the vector held. The vector has to have
/// room for them below the largest size that an allocation can have.
#[verifier::external_body]
pub(crate) fn put_u32(buf: &mut Vec<u8>, n: u32)
    requires
        old(buf)@.len() + 4 <= isize::MAX,
    ensures
        final(buf)@ == old(buf)@ + be_u32(n),
{
    bytes::BufMut::put_u32(buf, n)
}

/// Calls `bytes::BufMut::put_u64_le` on a vector: the eight bytes of `n`, least
/// significant first, stand behind what the vector held. The vector has to have
/// room for them below the largest size that an allocation can have.
#[verifier::external_body]
pub(crate) fn put_u64_le(buf: &mut Vec<u8>, n: u64)
    requires
        old(buf)@.len() + 8 <= isize::MAX,
    ensures
        final(buf)@ == old(buf)@ + le_u64(n),
{
    bytes::BufMut::put_u64_le(buf, n)
}

} // verus!
