//! Native sample encodings and little-endian byte decoding.

use vstd::prelude::*;
use vstd::arithmetic::power2::{pow2, lemma2_to64, lemma_pow2_adds};

verus! {

/// The closed set of sample encodings a native audio backend may report
/// for the raw buffers it delivers.
#[derive(Clone, Copy, Debug, PartialEq, Eq, Structural)]
pub enum NativeSampleEncoding {
    Int8,
    UInt8,
    Int16,
    UInt16,
    Int32,
    UInt32,
    Int64,
    UInt64,
    Float32,
    Float64,
}

impl NativeSampleEncoding {
    /// Width of one sample of this encoding, in bytes.
    pub open spec fn spec_bytes_per_sample(self) -> nat {
        match self {
            NativeSampleEncoding::Int8 => 1,
            NativeSampleEncoding::UInt8 => 1,
            NativeSampleEncoding::Int16 => 2,
            NativeSampleEncoding::UInt16 => 2,
            NativeSampleEncoding::Int32 => 4,
            NativeSampleEncoding::UInt32 => 4,
            NativeSampleEncoding::Int64 => 8,
            NativeSampleEncoding::UInt64 => 8,
            NativeSampleEncoding::Float32 => 4,
            NativeSampleEncoding::Float64 => 8,
        }
    }

    pub fn bytes_per_sample(self) -> (n: usize)
        ensures
            n == self.spec_bytes_per_sample(),
    {
        match self {
            NativeSampleEncoding::Int8 => 1,
            NativeSampleEncoding::UInt8 => 1,
            NativeSampleEncoding::Int16 => 2,
            NativeSampleEncoding::UInt16 => 2,
            NativeSampleEncoding::Int32 => 4,
            NativeSampleEncoding::UInt32 => 4,
            NativeSampleEncoding::Int64 => 8,
            NativeSampleEncoding::UInt64 => 8,
            NativeSampleEncoding::Float32 => 4,
            NativeSampleEncoding::Float64 => 8,
        }
    }

    /// Bit width of one sample of this encoding.
    pub open spec fn spec_bit_width(self) -> nat {
        8 * self.spec_bytes_per_sample()
    }

    pub open spec fn is_signed_int(self) -> bool {
        match self {
            NativeSampleEncoding::Int8 => true,
            NativeSampleEncoding::Int16 => true,
            NativeSampleEncoding::Int32 => true,
            NativeSampleEncoding::Int64 => true,
            _ => false,
        }
    }

    pub open spec fn is_unsigned_int(self) -> bool {
        match self {
            NativeSampleEncoding::UInt8 => true,
            NativeSampleEncoding::UInt16 => true,
            NativeSampleEncoding::UInt32 => true,
            NativeSampleEncoding::UInt64 => true,
            _ => false,
        }
    }

    pub open spec fn is_float(self) -> bool {
        self == NativeSampleEncoding::Float32 || self == NativeSampleEncoding::Float64
    }
}

/// The unsigned value of a byte sequence read little-endian.
pub open spec fn le_value(s: Seq<u8>) -> int
    decreases s.len(),
{
    if s.len() == 0 {
        0
    } else {
        s[0] + 256 * le_value(s.skip(1))
    }
}

pub proof fn lemma_le_value_bound(s: Seq<u8>)
    ensures
        0 <= le_value(s) < pow2((8 * s.len()) as nat),
    decreases s.len(),
{
    if s.len() == 0 {
        lemma2_to64();
    } else {
        lemma_le_value_bound(s.skip(1));
        lemma_pow2_adds(8, (8 * (s.len() - 1)) as nat);
        lemma2_to64();
    }
}

/// Two's-complement reading of an unsigned value of the given bit width.
pub open spec fn as_signed(v: int, bits: nat) -> int {
    if v < pow2((bits - 1) as nat) {
        v
    } else {
        v - pow2(bits)
    }
}

/// Reads `n` bytes little-endian starting at `start`.
pub fn read_le(bytes: &Vec<u8>, start: usize, n: usize) -> (v: u64)
    requires
        start + n <= bytes.len(),
        n <= 8,
    ensures
        v == le_value(bytes@.subrange(start as int, (start + n) as int)),
{
    let mut v: u64 = 0;
    let mut j: usize = n;
    proof {
        assert(bytes@.subrange((start + n) as int, (start + n) as int) =~= Seq::<u8>::empty());
    }
    while j > 0
        invariant
            j <= n,
            n <= 8,
            start + n <= bytes.len(),
            v == le_value(bytes@.subrange((start + j) as int, (start + n) as int)),
        decreases j,
    {
        j = j - 1;
        let sub = Ghost(bytes@.subrange((start + j) as int, (start + n) as int));
        proof {
            assert(sub@.skip(1) =~= bytes@.subrange((start + j + 1) as int, (start + n) as int));
            assert(le_value(sub@) == sub@[0] + 256 * le_value(sub@.skip(1)));
            lemma_le_value_bound(bytes@.subrange((start + j + 1) as int, (start + n) as int));
            lemma2_to64();
            vstd::arithmetic::power2::lemma2_to64_rest();
            assert(pow2((8 * (n - j - 1)) as nat) <= pow2(56)) by {
                if 8 * (n - j - 1) < 56 {
                    vstd::arithmetic::power2::lemma_pow2_strictly_increases(
                        (8 * (n - j - 1)) as nat, 56);
                }
            }
            assert(v < pow2(56));
        }
        v = v * 256 + bytes[start + j] as u64;
    }
    v
}

} // verus!
