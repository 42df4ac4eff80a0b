//! Path checksum used as the key into the archive index.
//!
//! The checksum is a CRC-32 variant: MSB-first bit order, polynomial
//! `0x04C11DB7`, register initialized to `0xFFFFFFFF`, and no final
//! complement.  Before a path byte is mixed into the register, `/` is
//! replaced by `\` and ASCII uppercase letters are lowered, so that paths
//! that differ only in slash direction or letter case collide.  After the
//! path, four zero bytes are mixed in for bit-for-bit compatibility with
//! the checksums stored in the archive index.

use vstd::prelude::*;

verus! {

pub const CRC_POLY: u32 = 0x04C11DB7;
pub const CRC_INIT: u32 = 0xFFFFFFFF;
pub const CRC_FXOR: u32 = 0x00000000;

/// One shift-and-conditionally-xor round of the MSB-first CRC.
pub open spec fn crc_round(c: u32) -> u32 {
    if c & 0x80000000 == 0 {
        c << 1
    } else {
        (c << 1) ^ CRC_POLY
    }
}

/// `n` successive CRC rounds.
pub open spec fn crc_rounds(c: u32, n: nat) -> u32
    decreases n,
{
    if n == 0 {
        c
    } else {
        crc_round(crc_rounds(c, (n - 1) as nat))
    }
}

/// The register after one input byte: xor the byte into the most
/// significant byte, then run eight rounds.
pub open spec fn spec_update_crc(c: u32, b: u8) -> u32 {
    crc_rounds(c ^ ((b as u32) << 24), 8)
}

/// The register after a whole byte sequence, starting from `c`.
pub open spec fn crc_fold(c: u32, s: Seq<u8>) -> u32
    decreases s.len(),
{
    if s.len() == 0 {
        c
    } else {
        spec_update_crc(crc_fold(c, s.drop_last()), s.last())
    }
}

/// The per-byte cleanup applied to a path before mixing: forward slashes
/// become backslashes and ASCII uppercase letters become lowercase.
pub open spec fn normalize_byte(b: u8) -> u8 {
    if b == 47 {
        92
    } else if 65 <= b && b <= 90 {
        (b + 32) as u8
    } else {
        b
    }
}

/// The checksum of a path: fold the normalized bytes into the register,
/// then mix in four zero bytes.
pub open spec fn spec_calculate_crc(path: Seq<u8>) -> u32 {
    let after_path = crc_fold(CRC_INIT, path.map_values(|b: u8| normalize_byte(b)));
    let after_pad = crc_rounds_zero(after_path, 4);
    after_pad ^ CRC_FXOR
}

/// `n` zero bytes mixed into the register.
pub open spec fn crc_rounds_zero(c: u32, n: nat) -> u32
    decreases n,
{
    if n == 0 {
        c
    } else {
        spec_update_crc(crc_rounds_zero(c, (n - 1) as nat), 0)
    }
}

fn update_crc(crc: &mut u32, b: u8)
    ensures
        *final(crc) == spec_update_crc(*old(crc), b),
{
    *crc = *crc ^ ((b as u32) << 24u32);
    let ghost start: u32 = *crc;
    for i in 0..8u32
        invariant
            *crc == crc_rounds(start, i as nat),
    {
        if (*crc & 0x80000000) == 0 {
            *crc = *crc << 1u32;
        } else {
            *crc = (*crc << 1u32) ^ CRC_POLY;
        }
    }
}

/// Compute the archive-lookup checksum of a path, pure and deterministic.
///
/// Two paths that differ only in slash direction or ASCII letter case
/// produce the same checksum (see [`lemma_crc_normalization`]).
pub fn calculate_crc(path: &[u8]) -> (r: u32)
    ensures
        r == spec_calculate_crc(path@),
{
    let ghost norm = path@.map_values(|x: u8| normalize_byte(x));
    let mut crc: u32 = CRC_INIT;
    let n = path.len();
    for i in 0..n
        invariant
            n == path@.len(),
            crc == crc_fold(CRC_INIT, norm.take(i as int)),
            norm == path@.map_values(|x: u8| normalize_byte(x)),
    {
        let mut b = path[i];
        if b == 47 {
            b = 92;
        }
        if 65 <= b && b <= 90 {
            b = b + 32;
        }
        proof {
            assert(b == normalize_byte(path@[i as int]));
            assert(norm.take(i + 1).drop_last() =~= norm.take(i as int));
            assert(norm.take(i + 1).last() == norm[i as int]);
        }
        update_crc(&mut crc, b);
    }
    proof {
        assert(norm.take(n as int) =~= norm);
    }
    for i in 0..4u32
        invariant
            crc == crc_rounds_zero(crc_fold(CRC_INIT, norm), i as nat),
            norm == path@.map_values(|x: u8| normalize_byte(x)),
    {
        update_crc(&mut crc, 0);
    }
    crc = crc ^ CRC_FXOR;
    crc
}

/// The per-byte cleanup is idempotent.
pub proof fn lemma_normalize_idempotent(b: u8)
    ensures
        normalize_byte(normalize_byte(b)) == normalize_byte(b),
{
}

/// Checksum determinism under normalization: a path and its normalized
/// form (slashes flipped to backslashes, ASCII letters lowered) have the
/// same checksum.
pub proof fn lemma_crc_normalization(p: Seq<u8>)
    ensures
        spec_calculate_crc(p) == spec_calculate_crc(
            p.map_values(|b: u8| normalize_byte(b)),
        ),
{
    let norm = p.map_values(|b: u8| normalize_byte(b));
    assert(norm.map_values(|b: u8| normalize_byte(b)) =~= norm) by {
        assert forall|i: int| 0 <= i < norm.len() implies norm.map_values(
            |b: u8| normalize_byte(b),
        )[i] == norm[i] by {
            lemma_normalize_idempotent(p[i]);
        }
    }
}

} // verus!
