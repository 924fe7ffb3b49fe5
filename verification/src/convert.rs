//! Sample conversion: raw native bytes to canonical 32-bit float samples
//! (carried as bit patterns).
//!
//! Integer samples are normalized by the type's maximum magnitude; unsigned
//! (offset-binary) samples are then remapped from [0, 1] onto [-1, 1] as
//! `value * 2 - 1`; 32-bit float samples pass through unchanged; 64-bit
//! float samples are narrowed with rounding.

use vstd::prelude::*;
use vstd::arithmetic::power2::{pow2, lemma2_to64, lemma2_to64_rest, lemma_pow2_adds};
use vstd::arithmetic::div_mod::lemma_fundamental_div_mod;

use crate::encoding::{NativeSampleEncoding, le_value, as_signed, read_le, lemma_le_value_bound};
use crate::float_repr::{
    represents_ratio, within_ulps, signed_mag, narrows_f64, bits_sign, bits_exp, bits_frac,
    f64_exp, f64_frac, f64_sign, ratio_to_bits, narrow_f64_bits, pow2_u64, lemma_zero_pattern,
};

verus! {

/// A converted signed integer sample: within one unit in the last place of
/// `s / (2^(bits-1) - 1)` where `s` is the two's-complement reading, and
/// exact at zero and at both extremes of the divisor.
pub open spec fn signed_sample_converted(v: int, bits: nat, b: u32) -> bool {
    let s = as_signed(v, bits);
    let den = pow2((bits - 1) as nat) - 1;
    &&& within_ulps(b, s, den, 1)
    &&& (s == 0 ==> b == 0)
    &&& (s == den ==> represents_ratio(b, 1, 1))
    &&& (s == -den ==> represents_ratio(b, -1, 1))
}

/// A converted unsigned integer sample: within one unit in the last place
/// of `(2 * v - den) / den` where `den = 2^bits - 1`, and exact at both
/// ends of the range.
pub open spec fn unsigned_sample_converted(v: int, bits: nat, b: u32) -> bool {
    let den = pow2(bits) - 1;
    &&& within_ulps(b, 2 * v - den, den, 1)
    &&& (v == den ==> represents_ratio(b, 1, 1))
    &&& (v == 0 ==> represents_ratio(b, -1, 1))
}

/// A narrowed 64-bit float sample: values below the 32-bit overflow
/// threshold narrow to within one unit in the last place; larger finite
/// values become an infinity of the same sign, and a NaN stays a NaN.
pub open spec fn float64_sample_converted(d: u64, b: u32) -> bool {
    &&& (f64_exp(d) == 0 && f64_frac(d) == 0 ==> b == (if f64_sign(d) == 1 {
        0x8000_0000u32
    } else {
        0u32
    }))
    &&& (f64_exp(d) <= 1149 ==> narrows_f64(b, d))
    &&& (f64_exp(d) == 1150 && f64_frac(d) < 0xF_FFFF_F000_0000 ==> narrows_f64(b, d))
    &&& ((1151 <= f64_exp(d) && f64_exp(d) <= 2046) || (f64_exp(d) == 1150 && f64_frac(d)
        >= 0xF_FFFF_F000_0000) ==> bits_exp(b) == 255 && bits_frac(b) == 0 && bits_sign(b)
        == f64_sign(d))
    &&& (f64_exp(d) == 2047 ==> bits_exp(b) == 255 && (f64_frac(d) == 0 <==> bits_frac(b) == 0))
}

/// What the canonical pattern of one converted raw sample value must
/// satisfy, per encoding.
pub open spec fn sample_converted(enc: NativeSampleEncoding, v: int, b: u32) -> bool {
    match enc {
        NativeSampleEncoding::Int8 => signed_sample_converted(v, 8, b),
        NativeSampleEncoding::UInt8 => unsigned_sample_converted(v, 8, b),
        NativeSampleEncoding::Int16 => signed_sample_converted(v, 16, b),
        NativeSampleEncoding::UInt16 => unsigned_sample_converted(v, 16, b),
        NativeSampleEncoding::Int32 => signed_sample_converted(v, 32, b),
        NativeSampleEncoding::UInt32 => unsigned_sample_converted(v, 32, b),
        NativeSampleEncoding::Int64 => signed_sample_converted(v, 64, b),
        NativeSampleEncoding::UInt64 => unsigned_sample_converted(v, 64, b),
        NativeSampleEncoding::Float32 => b == v,
        NativeSampleEncoding::Float64 => float64_sample_converted(v as u64, b),
    }
}

/// Converts one two's-complement sample of the given width.
fn convert_signed(v: u64, bits: u64) -> (b: u32)
    requires
        8 <= bits <= 64,
        (v as int) < pow2(bits as nat),
    ensures
        signed_sample_converted(v as int, bits as nat, b),
{
    let half: u64 = pow2_u64(bits - 1);
    proof {
        vstd::arithmetic::power2::lemma_pow2_pos((bits - 1) as nat);
        lemma2_to64();
        lemma2_to64_rest();
        if bits - 1 < 63 {
            vstd::arithmetic::power2::lemma_pow2_strictly_increases((bits - 1) as nat, 63);
        }
        assert(1 <= half <= 0x8000_0000_0000_0000);
    }
    let den: u64 = half - 1;
    proof {
        lemma2_to64();
        lemma_pow2_adds((bits - 1) as nat, 1);
        assert(pow2(bits as nat) == 2 * (half as int));
        if bits - 1 > 7 {
            vstd::arithmetic::power2::lemma_pow2_strictly_increases(7, (bits - 1) as nat);
        }
        assert(half >= 0x80);
    }
    if v < half {
        let b = ratio_to_bits(false, v, den);
        proof {
            assert(as_signed(v as int, bits as nat) == v as int);
            if v == 0 {
                lemma_zero_pattern(den as int, 1);
            }
        }
        b
    } else {
        // magnitude of the negative value: 2^bits - v == half - (v - half)
        let m: u64 = half - (v - half);
        let b = ratio_to_bits(true, m, den);
        proof {
            assert(as_signed(v as int, bits as nat) == -(m as int));
            assert(m >= 1);
        }
        b
    }
}

/// Converts one offset-binary (unsigned) sample of the given width.
fn convert_unsigned(v: u64, bits: u64) -> (b: u32)
    requires
        8 <= bits <= 64,
        (v as int) < pow2(bits as nat),
    ensures
        unsigned_sample_converted(v as int, bits as nat, b),
{
    let half: u64 = pow2_u64(bits - 1);
    proof {
        vstd::arithmetic::power2::lemma_pow2_pos((bits - 1) as nat);
        lemma2_to64();
        lemma2_to64_rest();
        if bits - 1 < 63 {
            vstd::arithmetic::power2::lemma_pow2_strictly_increases((bits - 1) as nat, 63);
        }
        assert(1 <= half <= 0x8000_0000_0000_0000);
    }
    let den: u64 = (half - 1) + half;
    proof {
        lemma2_to64();
        lemma_pow2_adds((bits - 1) as nat, 1);
        assert(pow2(bits as nat) == 2 * (half as int));
        if bits - 1 > 7 {
            vstd::arithmetic::power2::lemma_pow2_strictly_increases(7, (bits - 1) as nat);
        }
        assert(half >= 0x80);
        assert(den as int == pow2(bits as nat) - 1);
    }
    if v >= half {
        // 2 * v - den == 2 * (v - half) + 1
        let num: u64 = (v - half) * 2 + 1;
        let b = ratio_to_bits(false, num, den);
        proof {
            assert(signed_mag(false, num as int) == 2 * (v as int) - den);
            assert(v == den ==> num == den);
        }
        b
    } else {
        // den - 2 * v == 2 * (half - 1 - v) + 1
        let num: u64 = (half - 1 - v) * 2 + 1;
        let b = ratio_to_bits(true, num, den);
        proof {
            assert(signed_mag(true, num as int) == 2 * (v as int) - den);
            assert(v == 0 ==> num == den);
        }
        b
    }
}

/// Converts one raw sample value under the given encoding.
pub fn convert_one(enc: NativeSampleEncoding, v: u64) -> (b: u32)
    requires
        (v as int) < pow2(enc.spec_bit_width()),
    ensures
        sample_converted(enc, v as int, b),
{
    match enc {
        NativeSampleEncoding::Int8 => convert_signed(v, 8),
        NativeSampleEncoding::UInt8 => convert_unsigned(v, 8),
        NativeSampleEncoding::Int16 => convert_signed(v, 16),
        NativeSampleEncoding::UInt16 => convert_unsigned(v, 16),
        NativeSampleEncoding::Int32 => convert_signed(v, 32),
        NativeSampleEncoding::UInt32 => convert_unsigned(v, 32),
        NativeSampleEncoding::Int64 => convert_signed(v, 64),
        NativeSampleEncoding::UInt64 => convert_unsigned(v, 64),
        NativeSampleEncoding::Float32 => {
            proof {
                lemma2_to64();
            }
            v as u32
        },
        NativeSampleEncoding::Float64 => narrow_f64_bits(v),
    }
}

/// Law: converting the largest positive sample of any encoding yields a
/// pattern that denotes exactly +1.0 — the maximum positive value for
/// signed encodings, the all-ones value for unsigned (offset-binary) ones,
/// and the pattern of 1.0 itself for the float encodings (the 64-bit one
/// to within one unit in the last place, as narrowing promises no more).
pub proof fn lemma_full_scale_converts_to_one(enc: NativeSampleEncoding, v: int, b: u32)
    requires
        sample_converted(enc, v, b),
        enc.is_signed_int() ==> v == pow2((enc.spec_bit_width() - 1) as nat) - 1,
        enc.is_unsigned_int() ==> v == pow2(enc.spec_bit_width()) - 1,
        enc == NativeSampleEncoding::Float32 ==> v == 0x3F80_0000,
        enc == NativeSampleEncoding::Float64 ==> v == 0x3FF0_0000_0000_0000,
    ensures
        enc != NativeSampleEncoding::Float64 ==> represents_ratio(b, 1, 1),
        enc == NativeSampleEncoding::Float64 ==> within_ulps(b, 1, 1, 1),
{
    lemma2_to64();
    lemma2_to64_rest();
    vstd::arithmetic::power2::lemma_pow2_pos((enc.spec_bit_width() - 1) as nat);
    if enc == NativeSampleEncoding::Float32 {
        assert(bits_sign(b) == 0 && bits_exp(b) == 127 && bits_frac(b) == 0);
        lemma_pow2_adds(23, 127);
        assert(crate::float_repr::signed_sig(b) * 1 * pow2(
            crate::float_repr::exp_of(b) as nat,
        ) == 1 * pow2(150)) by (nonlinear_arith)
            requires
                crate::float_repr::signed_sig(b) == pow2(23),
                crate::float_repr::exp_of(b) == 127,
                pow2(23) * pow2(127) == pow2(150),
        ;
    }
    if enc == NativeSampleEncoding::Float64 {
        let d: u64 = 0x3FF0_0000_0000_0000;
        assert(f64_sign(d) == 0 && f64_exp(d) == 1023 && f64_frac(d) == 0);
        assert(crate::float_repr::f64_signed_sig(d) == pow2(52));
        assert(narrows_f64(b, d));
        let e = crate::float_repr::exp_of(b);
        lemma_pow2_adds(52, 1023);
        lemma_pow2_adds(150, 925);
        lemma_pow2_adds(e as nat, 925);
        vstd::arithmetic::power2::lemma_pow2_pos(925);
        assert(-(1 * (1 * pow2(e as nat))) <= crate::float_repr::signed_sig(b) * (1 * pow2(
            e as nat,
        )) - 1 * pow2(150) <= 1 * (1 * pow2(e as nat))) by (nonlinear_arith)
            requires
                -(pow2((e + 925) as nat) as int) <= crate::float_repr::signed_sig(b) * pow2(
                    (e + 925) as nat,
                ) - crate::float_repr::f64_signed_sig(d) * pow2(1023) <= pow2((e + 925) as nat),
                crate::float_repr::f64_signed_sig(d) == pow2(52),
                pow2(52) * pow2(1023) == pow2(1075),
                pow2(150) * pow2(925) == pow2(1075),
                pow2((e + 925) as nat) == pow2(e as nat) * pow2(925),
                pow2(925) > 0,
        ;
    }
}

/// Law: converting the zero sample of a signed or float encoding yields
/// the all-zero pattern, exactly 0.0. The midpoint of an unsigned encoding
/// lands within one unit in the last place of `1 / (2^width - 1)` instead:
/// the offset-binary remap `value * 2 - 1` leaves it one divisor step
/// above zero, not exactly at it.
pub proof fn lemma_zero_point_converts_to_silence(enc: NativeSampleEncoding, v: int, b: u32)
    requires
        sample_converted(enc, v, b),
        enc.is_signed_int() ==> v == 0,
        enc.is_unsigned_int() ==> v == pow2((enc.spec_bit_width() - 1) as nat),
        enc == NativeSampleEncoding::Float32 ==> v == 0,
        enc == NativeSampleEncoding::Float64 ==> v == 0,
    ensures
        enc.is_signed_int() || enc.is_float() ==> b == 0,
        enc.is_unsigned_int() ==> within_ulps(b, 1, pow2(enc.spec_bit_width()) - 1, 1),
{
    lemma2_to64();
    lemma2_to64_rest();
    vstd::arithmetic::power2::lemma_pow2_pos((enc.spec_bit_width() - 1) as nat);
    if enc.is_unsigned_int() {
        lemma_pow2_adds((enc.spec_bit_width() - 1) as nat, 1);
        assert(2 * v - (pow2(enc.spec_bit_width()) - 1) == 1);
    }
    if enc == NativeSampleEncoding::Float64 {
        assert(f64_sign(0u64) == 0 && f64_exp(0u64) == 0 && f64_frac(0u64) == 0);
    }
}

/// The raw little-endian value of sample `i` of `bytes` under `enc`.
pub open spec fn raw_sample(bytes: Seq<u8>, enc: NativeSampleEncoding, i: int) -> int {
    let w = enc.spec_bytes_per_sample() as int;
    le_value(bytes.subrange(i * w, i * w + w))
}

/// Converts every complete sample in `bytes` under `enc`, in order;
/// trailing bytes that do not fill a sample are ignored.
pub fn convert_samples(enc: NativeSampleEncoding, bytes: &Vec<u8>) -> (out: Vec<u32>)
    ensures
        out.len() == bytes.len() as int / enc.spec_bytes_per_sample() as int,
        forall|i: int|
            0 <= i < out.len() ==> sample_converted(
                enc,
                raw_sample(bytes@, enc, i),
                #[trigger] out[i],
            ),
{
    let w: usize = enc.bytes_per_sample();
    let n: usize = bytes.len() / w;
    let mut out: Vec<u32> = Vec::new();
    let mut i: usize = 0;
    while i < n
        invariant
            i <= n,
            1 <= w,
            w == enc.spec_bytes_per_sample(),
            n == bytes.len() as int / w as int,
            out.len() == i,
            forall|j: int|
                0 <= j < i ==> sample_converted(enc, raw_sample(bytes@, enc, j), #[trigger] out[j]),
        decreases n - i,
    {
        proof {
            lemma_fundamental_div_mod(bytes.len() as int, w as int);
            assert(i * w + w <= bytes.len()) by (nonlinear_arith)
                requires
                    i + 1 <= n,
                    0 <= i,
                    w >= 1,
                    bytes.len() as int == (w as int) * (n as int) + (bytes.len() as int) % (
                    w as int),
                    (bytes.len() as int) % (w as int) >= 0,
            ;
        }
        let v: u64 = read_le(bytes, i * w, w);
        proof {
            lemma_le_value_bound(bytes@.subrange((i * w) as int, (i * w + w) as int));
            assert(8 * bytes@.subrange((i * w) as int, (i * w + w) as int).len()
                == enc.spec_bit_width());
        }
        let b: u32 = convert_one(enc, v);
        out.push(b);
        i = i + 1;
    }
    out
}

/// How many samples the byte-length fallback heuristic yields for a buffer
/// of `n` bytes.
pub open spec fn heuristic_count(n: nat) -> nat {
    if n % 4 == 0 {
        n / 4
    } else if n % 2 == 0 {
        n / 2
    } else {
        0
    }
}

/// What sample `i` of the byte-length fallback heuristic must satisfy: a
/// buffer length divisible by four is read as little-endian 32-bit float
/// patterns, one merely divisible by two as little-endian 16-bit signed
/// samples scaled exactly by 1/32768.
pub open spec fn heuristic_sample_ok(bytes: Seq<u8>, i: int, b: u32) -> bool {
    if bytes.len() % 4 == 0 {
        b == le_value(bytes.subrange(4 * i, 4 * i + 4))
    } else {
        represents_ratio(b, as_signed(le_value(bytes.subrange(2 * i, 2 * i + 2)), 16), 0x8000)
    }
}

/// Decodes a raw byte buffer whose sample encoding the backend did not
/// report, from its byte length alone; a buffer that fits neither width
/// yields no samples rather than failing. Explicit encoding metadata is
/// always preferred: this fallback can misread a buffer whose true sample
/// width disagrees with the guess.
pub fn bytes_to_samples(bytes: &Vec<u8>) -> (out: Vec<u32>)
    ensures
        out.len() == heuristic_count(bytes.len() as nat),
        forall|i: int| 0 <= i < out.len() ==> heuristic_sample_ok(bytes@, i, #[trigger] out[i]),
{
    let mut out: Vec<u32> = Vec::new();
    if bytes.len() % 4 == 0 {
        let n: usize = bytes.len() / 4;
        let mut i: usize = 0;
        while i < n
            invariant
                i <= n,
                bytes.len() % 4 == 0,
                n == bytes.len() as int / 4,
                out.len() == i,
                forall|j: int| 0 <= j < i ==> heuristic_sample_ok(bytes@, j, #[trigger] out[j]),
            decreases n - i,
        {
            proof {
                lemma_fundamental_div_mod(bytes.len() as int, 4);
            }
            let v: u64 = read_le(bytes, i * 4, 4);
            proof {
                lemma_le_value_bound(bytes@.subrange((i * 4) as int, (i * 4 + 4) as int));
                lemma2_to64();
            }
            out.push(v as u32);
            i = i + 1;
        }
    } else if bytes.len() % 2 == 0 {
        let n: usize = bytes.len() / 2;
        let mut i: usize = 0;
        while i < n
            invariant
                i <= n,
                bytes.len() % 4 != 0,
                bytes.len() % 2 == 0,
                n == bytes.len() as int / 2,
                out.len() == i,
                forall|j: int| 0 <= j < i ==> heuristic_sample_ok(bytes@, j, #[trigger] out[j]),
            decreases n - i,
        {
            proof {
                lemma_fundamental_div_mod(bytes.len() as int, 2);
            }
            let v: u64 = read_le(bytes, i * 2, 2);
            proof {
                lemma_le_value_bound(bytes@.subrange((i * 2) as int, (i * 2 + 2) as int));
                lemma2_to64();
            }
            let b: u32 = if v < 0x8000 {
                ratio_to_bits(false, v, 0x8000)
            } else {
                ratio_to_bits(true, 0x1_0000 - v, 0x8000)
            };
            proof {
                lemma2_to64();
                assert(0x8000 == pow2(15));
                if v == 0 {
                    lemma_zero_pattern(0x8000, 1);
                }
                assert(as_signed(v as int, 16) == (if v < 0x8000 {
                    v as int
                } else {
                    v - 0x1_0000
                }));
            }
            out.push(b);
            i = i + 1;
        }
    }
    out
}

} // verus!
