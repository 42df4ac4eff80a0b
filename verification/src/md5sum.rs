//! 128-bit content digests, carried as plain values.
//!
//! The engine never computes a digest itself: digests arrive in manifests
//! and cache lines as 32 hexadecimal digits and are only ever compared for
//! equality, so the type holds the raw 128 bits and knows how to format
//! and parse the hexadecimal form.

use vstd::prelude::*;

use crate::text::{
    all_hex_digits, hex_pad, hex_val, lemma_hex_pad_digits, lemma_hex_val_hex_pad,
    parse_hex_u64, pow16, u64_to_hex_pad,
};

verus! {

/// A 128-bit content digest, as two big-endian 64-bit halves.
#[derive(PartialEq, Eq, Structural, Clone, Copy, Debug)]
pub struct Md5Sum {
    pub hi: u64,
    pub lo: u64,
}

/// The 32-digit lowercase hexadecimal form of a digest.
pub open spec fn md5_hex(m: Md5Sum) -> Seq<char> {
    hex_pad(m.hi as nat, 16) + hex_pad(m.lo as nat, 16)
}

pub proof fn lemma_md5_hex_wf(m: Md5Sum)
    ensures
        md5_hex(m).len() == 32,
        all_hex_digits(md5_hex(m)),
{
    lemma_hex_pad_digits(m.hi as nat, 16);
    lemma_hex_pad_digits(m.lo as nat, 16);
}

/// Parsing the hexadecimal form gives back the digest.
pub proof fn lemma_md5_hex_roundtrip(m: Md5Sum)
    ensures
        hex_val(md5_hex(m).take(16)) == m.hi,
        hex_val(md5_hex(m).skip(16)) == m.lo,
{
    lemma_hex_pad_digits(m.hi as nat, 16);
    lemma_hex_pad_digits(m.lo as nat, 16);
    assert(pow16(16) == 0x10000000000000000) by {
        reveal_with_fuel(pow16, 17);
    }
    lemma_hex_val_hex_pad(m.hi as nat, 16);
    lemma_hex_val_hex_pad(m.lo as nat, 16);
    assert(md5_hex(m).take(16) =~= hex_pad(m.hi as nat, 16));
    assert(md5_hex(m).skip(16) =~= hex_pad(m.lo as nat, 16));
}

impl Md5Sum {
    /// Format as 32 lowercase hexadecimal digits.
    pub fn to_hex(&self) -> (r: String)
        ensures
            r@ == md5_hex(*self),
    {
        let mut s = u64_to_hex_pad(self.hi, 16);
        let t = u64_to_hex_pad(self.lo, 16);
        s.append(t.as_str());
        s
    }

    /// Parse 32 hexadecimal digits, either letter case.  Succeeds exactly
    /// on 32-character all-hex-digit strings.
    pub fn parse(s: &str) -> (r: Option<Md5Sum>)
        ensures
            r.is_some() <==> (s@.len() == 32 && all_hex_digits(s@)),
            r.is_some() ==> r.unwrap().hi == hex_val(s@.take(16)) && r.unwrap().lo == hex_val(
                s@.skip(16),
            ),
    {
        let len = s.unicode_len();
        if len != 32 {
            return None;
        }
        let a = s.substring_char(0, 16);
        let b = s.substring_char(16, 32);
        proof {
            assert(a@ =~= s@.take(16));
            assert(b@ =~= s@.skip(16));
        }
        let hi = match parse_hex_u64(a) {
            Some(v) => v,
            None => {
                return None;
            },
        };
        let lo = match parse_hex_u64(b) {
            Some(v) => v,
            None => {
                return None;
            },
        };
        proof {
            crate::text::lemma_hex_val_bound(a@);
            crate::text::lemma_hex_val_bound(b@);
            assert(pow16(16) == 0x10000000000000000) by {
                reveal_with_fuel(pow16, 17);
            }
            assert forall|i: int| 0 <= i < 32 implies crate::text::is_hex_digit_char(
                #[trigger] s@[i],
            ) by {
                if i < 16 {
                    assert(s@.take(16)[i] == s@[i]);
                } else {
                    assert(s@.skip(16)[i - 16] == s@[i]);
                }
            }
        }
        Some(Md5Sum { hi, lo })
    }
}

} // verus!
