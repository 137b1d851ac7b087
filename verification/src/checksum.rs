//! The checksum that closes every log entry.
use vstd::prelude::*;

verus! {

/// The register of a CRC-32 after `n` bits more: it moves by one place for each, and the
/// IEEE polynomial is taken off wherever a one falls out.
pub open spec fn crc_shifted(register: u32, n: nat) -> u32
    decreases n,
{
    if n == 0 {
        register
    } else {
        let before = crc_shifted(register, (n - 1) as nat);
        if before & 1 == 1 {
            (before >> 1) ^ 0xEDB8_8320
        } else {
            before >> 1
        }
    }
}

/// The register of a CRC-32 after all bytes, from the first to the last.
pub open spec fn crc_register(bytes: Seq<u8>) -> u32
    decreases bytes.len(),
{
    if bytes.len() == 0 {
        0xFFFF_FFFF
    } else {
        crc_shifted(crc_register(bytes.drop_last()) ^ (bytes.last() as u32), 8)
    }
}

/// The CRC-32 (IEEE) of a byte string.
pub open spec fn crc32_of(bytes: Seq<u8>) -> u32 {
    crc_register(bytes) ^ 0xFFFF_FFFF
}

/// Calls `crc32fast::hash`: the result is the CRC-32 (IEEE) of `bytes`.
#[verifier::external_body]
pub(crate) fn crc32(bytes: &[u8]) -> (crc: u32)
    ensures
        crc == crc32_of(bytes@),
{
    crc32fast::hash(bytes)
}

/// One damaged byte always shows: byte strings that differ in one byte have different
/// checksums.
pub proof fn law_damaged_byte_changes_checksum(bytes: Seq<u8>, at: int, byte: u8)
    requires
        0 <= at < bytes.len(),
        byte != bytes[at],
    ensures
        crc32_of(bytes.update(at, byte)) != crc32_of(bytes),
{
    lemma_registers_differ(bytes, at, byte);
    let a = crc_register(bytes);
    let b = crc_register(bytes.update(at, byte));
    assert(a != b ==> a ^ 0xFFFF_FFFF != b ^ 0xFFFF_FFFF) by (bit_vector);
}

proof fn lemma_registers_differ(bytes: Seq<u8>, at: int, byte: u8)
    requires
        0 <= at < bytes.len(),
        byte != bytes[at],
    ensures
        crc_register(bytes.update(at, byte)) != crc_register(bytes),
    decreases bytes.len(),
{
    let damaged = bytes.update(at, byte);
    let a = crc_register(bytes.drop_last());
    let b = crc_register(damaged.drop_last());
    let x = bytes.last();
    let y = damaged.last();
    if at == bytes.len() - 1 {
        assert(damaged.drop_last() =~= bytes.drop_last());
        assert(x != y ==> a ^ (x as u32) != a ^ (y as u32)) by (bit_vector);
    } else {
        assert(damaged.drop_last() =~= bytes.drop_last().update(at, byte));
        lemma_registers_differ(bytes.drop_last(), at, byte);
        assert(a != b ==> a ^ (x as u32) != b ^ (x as u32)) by (bit_vector);
    }
    lemma_shift_is_injective(a ^ (x as u32), b ^ (y as u32), 8);
}

/// Registers that differ still differ after any number of bits.
proof fn lemma_shift_is_injective(a: u32, b: u32, n: nat)
    requires
        a != b,
    ensures
        crc_shifted(a, n) != crc_shifted(b, n),
    decreases n,
{
    if n > 0 {
        lemma_shift_is_injective(a, b, (n - 1) as nat);
        let x = crc_shifted(a, (n - 1) as nat);
        let y = crc_shifted(b, (n - 1) as nat);
        assert(x != y ==> (if x & 1 == 1 {
            (x >> 1) ^ 0xEDB8_8320
        } else {
            x >> 1
        }) != (if y & 1 == 1 {
            (y >> 1) ^ 0xEDB8_8320
        } else {
            y >> 1
        })) by (bit_vector);
    }
}

} // verus!
