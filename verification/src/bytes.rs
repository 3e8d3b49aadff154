//! Big-endian byte import and export for the 256-bit integer.
//!
//! A byte sequence of length at most 32 is read as one big-endian number; a
//! sequence shorter than 32 bytes behaves as if left-padded with zero bytes.
//! Export always produces exactly 32 bytes, and a 32-byte image is unique,
//! so import and export invert each other.

use vstd::prelude::*;
use vstd::arithmetic::power2::{pow2, lemma2_to64, lemma_pow2_adds, lemma_pow2_strictly_increases};
use vstd::arithmetic::div_mod::{lemma_fundamental_div_mod, lemma_fundamental_div_mod_converse, lemma_small_mod};
use crate::math::lemma_pow2_limb_values;
use crate::u256::{U256, u256_modulus};

verus! {

/// The number a big-endian byte sequence denotes: each byte is worth 256
/// times the bytes after it.
pub open spec fn be_bytes_value(s: Seq<u8>) -> nat
    decreases s.len(),
{
    if s.len() == 0 {
        0
    } else {
        be_bytes_value(s.drop_last()) * 256 + s.last() as nat
    }
}

/// A sequence of `n` bytes denotes a value below `2^(8n)`.
pub proof fn lemma_be_bytes_value_bound(s: Seq<u8>)
    ensures
        be_bytes_value(s) < pow2(8 * s.len()),
    decreases s.len(),
{
    lemma2_to64();
    if s.len() > 0 {
        lemma_be_bytes_value_bound(s.drop_last());
        lemma_pow2_adds(8 * (s.len() - 1) as nat, 8);
    }
}

/// Appending one byte scales the denoted value by 256 and adds the byte.
pub proof fn lemma_be_bytes_value_push(s: Seq<u8>, b: u8)
    ensures
        be_bytes_value(s.push(b)) == be_bytes_value(s) * 256 + b,
{
    assert(s.push(b).drop_last() =~= s);
}

/// Two byte sequences of equal length denoting the same value are the same
/// sequence: with the length fixed, the big-endian image of a value is
/// unique, so exporting the value imported from 32 bytes reproduces those
/// bytes exactly.
pub proof fn lemma_be_bytes_value_injective(s: Seq<u8>, t: Seq<u8>)
    requires
        s.len() == t.len(),
        be_bytes_value(s) == be_bytes_value(t),
    ensures
        s == t,
    decreases s.len(),
{
    if s.len() > 0 {
        lemma_fundamental_div_mod_converse(
            be_bytes_value(s) as int,
            256,
            be_bytes_value(s.drop_last()) as int,
            s.last() as int,
        );
        lemma_fundamental_div_mod_converse(
            be_bytes_value(t) as int,
            256,
            be_bytes_value(t.drop_last()) as int,
            t.last() as int,
        );
        lemma_be_bytes_value_injective(s.drop_last(), t.drop_last());
        assert(s =~= t) by {
            assert forall|i: int| 0 <= i < s.len() implies s[i] == t[i] by {
                if i < s.len() - 1 {
                    assert(s[i] == s.drop_last()[i]);
                    assert(t[i] == t.drop_last()[i]);
                }
            }
        }
    } else {
        assert(s =~= t);
    }
}

impl U256 {
    /// Reads a big-endian byte slice of at most 32 bytes; shorter input is
    /// treated as left-padded with zero bytes.
    pub fn from_be_bytes(bytes: &[u8]) -> (r: U256)
        requires
            bytes@.len() <= 32,
        ensures
            r.as_nat() == be_bytes_value(bytes@),
    {
        let mut r = U256::zero();
        let mut i: usize = 0;
        proof {
            assert(bytes@.take(0) =~= Seq::<u8>::empty());
        }
        while i < bytes.len()
            invariant
                i <= bytes@.len() <= 32,
                r.as_nat() == be_bytes_value(bytes@.take(i as int)),
            decreases bytes@.len() - i,
        {
            proof {
                lemma_pow2_limb_values();
                lemma_be_bytes_value_bound(bytes@.take(i as int));
                lemma_pow2_adds((8 * i) as nat, 8);
                lemma2_to64();
                if 8 * i + 8 < 256 {
                    lemma_pow2_strictly_increases((8 * i + 8) as nat, 256);
                }
                lemma_small_mod((r.as_nat() * 256) as nat, u256_modulus());
            }
            let scaled = r.mul_u32(256);
            let b = bytes[i];
            let next = scaled.add(U256::from_u64(b as u64));
            proof {
                assert(bytes@.take(i + 1).drop_last() =~= bytes@.take(i as int));
                assert(bytes@.take(i + 1).last() == bytes@[i as int]);
            }
            r = next;
            i = i + 1;
        }
        proof {
            assert(bytes@.take(bytes@.len() as int) =~= bytes@);
        }
        r
    }

    /// Writes the value as exactly 32 big-endian bytes, the inverse of
    /// [`U256::from_be_bytes`] on 32-byte input.
    pub fn to_be_bytes(self) -> (r: Vec<u8>)
        ensures
            r@.len() == 32,
            be_bytes_value(r@) == self.as_nat(),
    {
        let mut out: Vec<u8> = Vec::new();
        push_be_u64(&mut out, self.limb3);
        push_be_u64(&mut out, self.limb2);
        push_be_u64(&mut out, self.limb1);
        push_be_u64(&mut out, self.limb0);
        out
    }
}

/// Appends the eight big-endian bytes of one 64-bit limb, scaling the bytes
/// already present by `2^64`.
fn push_be_u64(out: &mut Vec<u8>, x: u64)
    ensures
        final(out)@.len() == old(out)@.len() + 8,
        be_bytes_value(final(out)@) == be_bytes_value(old(out)@) * 0x1_0000_0000_0000_0000 + x,
{
    let b0: u8 = (x / 0x100_0000_0000_0000) as u8;
    let r0: u64 = x % 0x100_0000_0000_0000;
    let b1: u8 = (r0 / 0x1_0000_0000_0000) as u8;
    let r1: u64 = r0 % 0x1_0000_0000_0000;
    let b2: u8 = (r1 / 0x100_0000_0000) as u8;
    let r2: u64 = r1 % 0x100_0000_0000;
    let b3: u8 = (r2 / 0x1_0000_0000) as u8;
    let r3: u64 = r2 % 0x1_0000_0000;
    let b4: u8 = (r3 / 0x100_0000) as u8;
    let r4: u64 = r3 % 0x100_0000;
    let b5: u8 = (r4 / 0x1_0000) as u8;
    let r5: u64 = r4 % 0x1_0000;
    let b6: u8 = (r5 / 0x100) as u8;
    let b7: u8 = (r5 % 0x100) as u8;
    let ghost start = out@;
    out.push(b0);
    proof {
        lemma_be_bytes_value_push(start, b0);
    }
    let ghost s1 = out@;
    out.push(b1);
    proof {
        lemma_be_bytes_value_push(s1, b1);
    }
    let ghost s2 = out@;
    out.push(b2);
    proof {
        lemma_be_bytes_value_push(s2, b2);
    }
    let ghost s3 = out@;
    out.push(b3);
    proof {
        lemma_be_bytes_value_push(s3, b3);
    }
    let ghost s4 = out@;
    out.push(b4);
    proof {
        lemma_be_bytes_value_push(s4, b4);
    }
    let ghost s5 = out@;
    out.push(b5);
    proof {
        lemma_be_bytes_value_push(s5, b5);
    }
    let ghost s6 = out@;
    out.push(b6);
    proof {
        lemma_be_bytes_value_push(s6, b6);
    }
    let ghost s7 = out@;
    out.push(b7);
    proof {
        lemma_be_bytes_value_push(s7, b7);
    }
}

} // verus!
