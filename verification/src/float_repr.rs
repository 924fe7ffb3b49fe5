//! A bit-level model of IEEE-754 binary32 values.
//!
//! Canonical samples are carried as the bit patterns of 32-bit floats, so
//! that their numeric meaning can be stated and proved in exact integer
//! arithmetic. A finite pattern with sign `s`, biased exponent field `e`
//! and fraction field `f` denotes `(-1)^s * sig * 2^(e' - 150)` where
//! `sig = 2^23 + f` and `e' = e` for normal numbers, and `sig = f` and
//! `e' = 1` for subnormals and zeros (150 = bias 127 + fraction width 23).

use vstd::prelude::*;
use vstd::arithmetic::power2::{
    pow2, lemma2_to64, lemma2_to64_rest, lemma_pow2_adds, lemma_pow2_pos,
    lemma_pow2_strictly_increases,
};
use vstd::arithmetic::div_mod::{
    lemma_fundamental_div_mod, lemma_fundamental_div_mod_converse, lemma_mod_multiples_basic,
};

verus! {

/// Sign bit of a binary32 pattern: 0 or 1.
pub open spec fn bits_sign(b: u32) -> int {
    b as int / 0x8000_0000
}

/// Biased exponent field of a binary32 pattern: 0 to 255.
pub open spec fn bits_exp(b: u32) -> int {
    (b as int / 0x0080_0000) % 0x100
}

/// Fraction field of a binary32 pattern: 0 to 2^23 - 1.
pub open spec fn bits_frac(b: u32) -> int {
    b as int % 0x0080_0000
}

/// A finite pattern: anything but an infinity or NaN.
pub open spec fn is_finite(b: u32) -> bool {
    bits_exp(b) <= 254
}

/// Integer significand of a finite pattern (fraction plus the implicit
/// leading bit of normal numbers).
pub open spec fn sig_of(b: u32) -> int {
    if bits_exp(b) == 0 {
        bits_frac(b)
    } else {
        0x0080_0000 + bits_frac(b)
    }
}

/// Effective exponent field of a finite pattern; subnormals and zeros share
/// the scale of exponent field 1.
pub open spec fn exp_of(b: u32) -> int {
    if bits_exp(b) == 0 {
        1
    } else {
        bits_exp(b)
    }
}

/// Significand with the sign applied: a finite pattern denotes exactly
/// `signed_sig(b) * 2^(exp_of(b) - 150)`.
pub open spec fn signed_sig(b: u32) -> int {
    if bits_sign(b) == 1 {
        -sig_of(b)
    } else {
        sig_of(b)
    }
}

/// The finite pattern `b` denotes exactly the rational `num / den`.
/// (Both sides are scaled by `den * 2^150` to keep the statement integral.)
pub open spec fn represents_ratio(b: u32, num: int, den: int) -> bool {
    &&& den > 0
    &&& is_finite(b)
    &&& signed_sig(b) * den * pow2(exp_of(b) as nat) == num * pow2(150)
}

/// The finite pattern `b` denotes `num / den` to within `ulps` units in the
/// last place of `b` (one unit is `2^(exp_of(b) - 150)`).
pub open spec fn within_ulps(b: u32, num: int, den: int, ulps: int) -> bool {
    let unit = den * pow2(exp_of(b) as nat);
    let diff = signed_sig(b) * unit - num * pow2(150);
    &&& den > 0
    &&& is_finite(b)
    &&& -(ulps * unit) <= diff <= ulps * unit
}

/// The signed numerator described by a sign flag and a magnitude.
pub open spec fn signed_mag(negative: bool, mag: int) -> int {
    if negative {
        -mag
    } else {
        mag
    }
}

/// Sign bit of a binary64 pattern: 0 or 1.
pub open spec fn f64_sign(d: u64) -> int {
    d as int / 0x8000_0000_0000_0000
}

/// Biased exponent field of a binary64 pattern: 0 to 2047.
pub open spec fn f64_exp(d: u64) -> int {
    (d as int / 0x10_0000_0000_0000) % 0x800
}

/// Fraction field of a binary64 pattern: 0 to 2^52 - 1.
pub open spec fn f64_frac(d: u64) -> int {
    d as int % 0x10_0000_0000_0000
}

/// A finite binary64 pattern: anything but an infinity or NaN.
pub open spec fn f64_is_finite(d: u64) -> bool {
    f64_exp(d) <= 2046
}

/// Integer significand of a finite binary64 pattern.
pub open spec fn f64_sig(d: u64) -> int {
    if f64_exp(d) == 0 {
        f64_frac(d)
    } else {
        0x10_0000_0000_0000 + f64_frac(d)
    }
}

/// Effective exponent field of a finite binary64 pattern; subnormals and
/// zeros share the scale of exponent field 1.
pub open spec fn f64_exp_of(d: u64) -> int {
    if f64_exp(d) == 0 {
        1
    } else {
        f64_exp(d)
    }
}

/// Significand with the sign applied: a finite binary64 pattern denotes
/// exactly `f64_signed_sig(d) * 2^(f64_exp_of(d) - 1075)`.
pub open spec fn f64_signed_sig(d: u64) -> int {
    if f64_sign(d) == 1 {
        -f64_sig(d)
    } else {
        f64_sig(d)
    }
}

/// The finite binary32 pattern `b` denotes the value of the finite binary64
/// pattern `d` to within one unit in the last place of `b`. Both values are
/// scaled by `2^1075` to keep the statement integral (so one unit in the
/// last place of `b` becomes `2^(exp_of(b) + 925)`).
pub open spec fn narrows_f64(b: u32, d: u64) -> bool {
    let w32 = signed_sig(b) * pow2((exp_of(b) + 925) as nat);
    let w64 = f64_signed_sig(d) * pow2(f64_exp_of(d) as nat);
    let unit = pow2((exp_of(b) + 925) as nat) as int;
    &&& is_finite(b)
    &&& f64_is_finite(d)
    &&& -unit <= w32 - w64 <= unit
}

/// 2 raised to `e`, as a 64-bit integer.
pub(crate) fn pow2_u64(e: u64) -> (r: u64)
    requires
        e < 64,
    ensures
        r == pow2(e as nat),
{
    let mut r: u64 = 1;
    let mut i: u64 = 0;
    proof {
        lemma2_to64();
    }
    while i < e
        invariant
            i <= e,
            e < 64,
            r == pow2(i as nat),
        decreases e - i,
    {
        proof {
            lemma_pow2_adds(i as nat, 1);
            lemma2_to64();
            if i + 1 < 64 {
                lemma_pow2_strictly_increases((i + 1) as nat, 64);
            }
        }
        r = r * 2;
        i = i + 1;
    }
    r
}

/// 2 raised to `e`, as a 128-bit integer.
pub(crate) fn pow2_u128(e: u64) -> (r: u128)
    requires
        e < 128,
    ensures
        r == pow2(e as nat),
{
    let mut r: u128 = 1;
    let mut i: u64 = 0;
    proof {
        lemma2_to64();
    }
    while i < e
        invariant
            i <= e,
            e < 128,
            r == pow2(i as nat),
        decreases e - i,
    {
        proof {
            lemma_pow2_adds(i as nat, 1);
            lemma2_to64();
            if i + 1 < 128 {
                lemma_pow2_strictly_increases((i + 1) as nat, 128);
            }
            assert(pow2(128) == 0x1_0000_0000_0000_0000 * 0x1_0000_0000_0000_0000) by {
                lemma_pow2_adds(64, 64);
                lemma2_to64();
            }
        }
        r = r * 2;
        i = i + 1;
    }
    r
}

/// Position of the highest set bit of `x`.
pub(crate) fn msb64(x: u64) -> (p: u64)
    requires
        x >= 1,
    ensures
        p <= 63,
        pow2(p as nat) <= x as nat,
        (x as nat) < pow2((p + 1) as nat),
{
    let mut p: u64 = 0;
    let mut y: u64 = x;
    proof {
        lemma2_to64();
    }
    while y >= 2
        invariant
            1 <= y,
            p <= 63,
            pow2(p as nat) * y <= x as nat,
            (x as nat) < pow2(p as nat) * (y + 1),
        decreases y,
    {
        proof {
            lemma_fundamental_div_mod(y as int, 2);
            lemma_pow2_adds(p as nat, 1);
            lemma2_to64();
            let h = y as int / 2;
            assert(pow2((p + 1) as nat) * h <= x as nat && (x as nat) < pow2((p + 1) as nat) * (h
                + 1)) by (nonlinear_arith)
                requires
                    pow2((p + 1) as nat) == 2 * pow2(p as nat),
                    y == 2 * h + (y as int % 2),
                    0 <= y as int % 2 < 2,
                    y >= 2,
                    h >= 1,
                    pow2(p as nat) * y <= x as nat,
                    (x as nat) < pow2(p as nat) * (y + 1),
            ;
            assert(pow2((p + 1) as nat) <= x as nat) by (nonlinear_arith)
                requires
                    pow2((p + 1) as nat) * h <= x as nat,
                    h >= 1,
                    pow2((p + 1) as nat) > 0,
            ;
            assert(p + 1 <= 63) by {
                if p + 1 > 63 {
                    assert(pow2((p + 1) as nat) >= pow2(64)) by {
                        if p + 1 > 64 {
                            lemma_pow2_strictly_increases(64, (p + 1) as nat);
                        }
                    }
                    lemma2_to64();
                }
            }
        }
        y = y / 2;
        p = p + 1;
    }
    proof {
        lemma_pow2_adds(p as nat, 1);
        lemma2_to64();
    }
    p
}

/// Builds the binary32 pattern nearest from below to the rational
/// `(-1)^negative * num / den`, entirely in integer arithmetic.
///
/// The result is always finite; it is within one unit in the last place of
/// the exact ratio, it is exact when the ratio is `0` or `±1`, and it is
/// exact whenever `den` is a power of two no larger than `2^22`.
pub fn ratio_to_bits(negative: bool, num: u64, den: u64) -> (b: u32)
    requires
        1 <= den,
        num as int <= 2 * (den as int),
    ensures
        is_finite(b),
        num == 0 ==> b == 0,
        num != 0 ==> within_ulps(b, signed_mag(negative, num as int), den as int, 1),
        num != 0 ==> bits_sign(b) == (if negative { 1int } else { 0int }),
        num == den ==> represents_ratio(b, signed_mag(negative, 1), 1),
        forall|k: nat|
            k <= 22 && den == pow2(k) ==> represents_ratio(
                b,
                signed_mag(negative, num as int),
                den as int,
            ),
{
    proof {
        lemma2_to64();
    }
    if num == 0 {
        proof {
            assert(bits_sign(0u32) == 0 && bits_exp(0u32) == 0 && bits_frac(0u32) == 0);
            assert forall|k: nat| k <= 22 && den == pow2(k) implies represents_ratio(
                0u32,
                signed_mag(negative, 0),
                den as int,
            ) by {
                assert(signed_sig(0u32) * (den as int) * pow2(exp_of(0u32) as nat) == 0)
                    by (nonlinear_arith)
                    requires
                        signed_sig(0u32) == 0,
                ;
                assert(signed_mag(negative, 0) * pow2(150) == 0) by (nonlinear_arith)
                    requires
                        signed_mag(negative, 0) == 0,
                ;
            }
        }
        return 0;
    }
    let p = msb64(num);
    let d = msb64(den);
    proof {
        // num <= 2*den < 2^(d+2), so p <= d + 1
        lemma_pow2_adds((d + 1) as nat, 1);
        assert(p <= d + 1) by {
            if p > d + 1 {
                if p > d + 2 {
                    lemma_pow2_strictly_increases((d + 2) as nat, p as nat);
                }
                assert(pow2((d + 2) as nat) <= pow2(p as nat));
                assert(num as int <= 2 * (den as int) < 2 * pow2((d + 1) as nat));
            }
        }
    }
    let sh0: u64 = 24 + d - p;
    let pw: u128 = pow2_u128(sh0);
    proof {
        // num * 2^sh0 < 2^(25 + d) <= 2^88, so the product fits in 128 bits
        lemma_pow2_adds((p + 1) as nat, sh0 as nat);
        lemma_pow2_pos(sh0 as nat);
        assert((num as int) * (pw as int) < pow2((25 + d) as nat)) by (nonlinear_arith)
            requires
                (num as int) < pow2((p + 1) as nat),
                pw == pow2(sh0 as nat),
                pow2((p + 1) as nat) * pow2(sh0 as nat) == pow2((p + 1 + sh0) as nat),
                p + 1 + sh0 == 25 + d,
                pw > 0,
                num >= 1,
        ;
        lemma_pow2_strictly_increases((25 + d) as nat, 128);
        assert(pow2(128) == 0x1_0000_0000_0000_0000 * 0x1_0000_0000_0000_0000) by {
            lemma_pow2_adds(64, 64);
            lemma2_to64();
        }
    }
    let shifted0: u128 = (num as u128) * pw;
    let den24: u128 = (den as u128) * 0x0100_0000;
    proof {
        // shifted0 lies strictly between den * 2^23 and den * 2^25
        lemma2_to64();
        lemma_pow2_adds((d + 1) as nat, 23);
        lemma_pow2_adds(p as nat, sh0 as nat);
        lemma_pow2_adds(d as nat, 25);
        lemma_pow2_adds((p + 1) as nat, sh0 as nat);
        assert((den as int) * pow2(23) < shifted0) by (nonlinear_arith)
            requires
                shifted0 == (num as int) * pow2(sh0 as nat),
                pow2(p as nat) <= num as int,
                (den as int) < pow2((d + 1) as nat),
                pow2((d + 1) as nat) * pow2(23) == pow2((d + 1 + 23) as nat),
                pow2(p as nat) * pow2(sh0 as nat) == pow2((p + sh0) as nat),
                p + sh0 == d + 24,
                d + 1 + 23 == d + 24,
                pow2(23) > 0,
                pow2(sh0 as nat) > 0,
        ;
        assert(shifted0 < (den as int) * pow2(25)) by (nonlinear_arith)
            requires
                shifted0 == (num as int) * pow2(sh0 as nat),
                (num as int) < pow2((p + 1) as nat),
                pow2(d as nat) <= den as int,
                pow2((p + 1) as nat) * pow2(sh0 as nat) == pow2((p + 1 + sh0) as nat),
                pow2(d as nat) * pow2(25) == pow2((d + 25) as nat),
                p + 1 + sh0 == d + 25,
                pow2(25) > 0,
                pow2(sh0 as nat) > 0,
        ;
        assert(pow2(23) == 0x0080_0000 && pow2(24) == 0x0100_0000 && pow2(25) == 0x0200_0000);
        assert((den as int) * pow2(24) == 2 * ((den as int) * pow2(23))) by (nonlinear_arith)
            requires
                pow2(24) == 2 * pow2(23),
        ;
        assert((den as int) * pow2(25) == 2 * ((den as int) * pow2(24))) by (nonlinear_arith)
            requires
                pow2(25) == 2 * pow2(24),
        ;
    }
    let sh: u64;
    let shifted: u128;
    if shifted0 >= den24 {
        sh = sh0 - 1;
        shifted = shifted0 / 2;
        proof {
            lemma_pow2_adds(sh as nat, 1);
            assert(shifted0 == 2 * ((num as int) * pow2(sh as nat))) by (nonlinear_arith)
                requires
                    shifted0 == (num as int) * pow2(sh0 as nat),
                    pow2(sh0 as nat) == pow2(sh as nat) * pow2(1),
                    pow2(1) == 2,
            ;
            assert(shifted == (num as int) * pow2(sh as nat));
            assert((den as int) * pow2(23) <= shifted && shifted < (den as int) * pow2(24));
        }
    } else {
        sh = sh0;
        shifted = shifted0;
        proof {
            assert(shifted == (num as int) * pow2(sh as nat));
            assert((den as int) * pow2(23) <= shifted && shifted < (den as int) * pow2(24));
        }
    }
    let q: u128 = shifted / (den as u128);
    let ghost r: int = shifted as int % den as int;
    proof {
        lemma_fundamental_div_mod(shifted as int, den as int);
        assert(0x0080_0000 <= q < 0x0100_0000) by (nonlinear_arith)
            requires
                shifted == (den as int) * (q as int) + r,
                0 <= r < den as int,
                (den as int) * 0x0080_0000 <= shifted,
                shifted < (den as int) * 0x0100_0000,
                den as int >= 1,
        ;
        assert(22 <= sh <= 87);
    }
    let exp_field: u32 = (150 - sh) as u32;
    let frac: u32 = (q as u32) - 0x0080_0000;
    let sign_part: u32 = if negative {
        0x8000_0000
    } else {
        0
    };
    let b: u32 = sign_part + exp_field * 0x0080_0000 + frac;
    proof {
        let s: int = if negative {
            1int
        } else {
            0int
        };
        // decode the fields of b
        lemma_fundamental_div_mod_converse(
            b as int,
            0x0080_0000,
            s * 0x100 + exp_field as int,
            frac as int,
        );
        lemma_fundamental_div_mod_converse(
            s * 0x100 + exp_field as int,
            0x100,
            s,
            exp_field as int,
        );
        lemma_fundamental_div_mod_converse(
            b as int,
            0x8000_0000,
            s,
            (exp_field as int) * 0x0080_0000 + frac as int,
        );
        assert(bits_sign(b) == s);
        assert(bits_exp(b) == exp_field as int);
        assert(bits_frac(b) == frac as int);
        assert(63 <= exp_field <= 128);
        assert(sig_of(b) == q as int);
        assert(exp_of(b) == exp_field as int);
        assert(is_finite(b));
        // the value claim: the signed significand times den * 2^exp misses
        // the signed numerator times 2^150 by at most r * 2^exp
        lemma_pow2_adds(sh as nat, exp_field as nat);
        lemma_pow2_pos(exp_field as nat);
        let snum = signed_mag(negative, num as int);
        let unit = (den as int) * pow2(exp_field as nat);
        assert(-(r * pow2(exp_field as nat)) <= signed_sig(b) * (den as int) * pow2(
            exp_field as nat,
        ) - snum * pow2(150) <= r * pow2(exp_field as nat)) by (nonlinear_arith)
            requires
                (num as int) * pow2(sh as nat) == (den as int) * (q as int) + r,
                pow2(sh as nat) * pow2(exp_field as nat) == pow2(150),
                r >= 0,
                signed_sig(b) == (if negative {
                    -(q as int)
                } else {
                    q as int
                }),
                snum == (if negative {
                    -(num as int)
                } else {
                    num as int
                }),
        ;
        assert(0 <= r * pow2(exp_field as nat) <= unit) by (nonlinear_arith)
            requires
                0 <= r < den as int,
                pow2(exp_field as nat) > 0,
                unit == (den as int) * pow2(exp_field as nat),
        ;
        assert(signed_sig(b) * unit == signed_sig(b) * (den as int) * pow2(exp_field as nat))
            by (nonlinear_arith)
            requires
                unit == (den as int) * pow2(exp_field as nat),
        ;
        assert(within_ulps(b, snum, den as int, 1));
        // exactness whenever the division left no remainder
        if r == 0 {
            assert(r * pow2(exp_field as nat) == 0) by (nonlinear_arith)
                requires
                    r == 0,
            ;
            assert(represents_ratio(b, snum, den as int));
        }
        if num == den {
            assert(r == 0) by (nonlinear_arith)
                requires
                    (num as int) * pow2(sh as nat) == (den as int) * (q as int) + r,
                    0 <= r < den as int,
                    num == den,
                    den as int >= 1,
            ;
            assert(r * pow2(exp_field as nat) == 0) by (nonlinear_arith)
                requires
                    r == 0,
            ;
            assert(signed_sig(b) * (den as int) * pow2(exp_field as nat) == snum * pow2(150));
            assert(signed_sig(b) * 1 * pow2(exp_field as nat) == signed_mag(negative, 1) * pow2(
                150,
            )) by (nonlinear_arith)
                requires
                    signed_sig(b) * (den as int) * pow2(exp_field as nat) == snum * pow2(150),
                    snum == (if negative {
                        -(den as int)
                    } else {
                        den as int
                    }),
                    signed_mag(negative, 1) == (if negative {
                        -1int
                    } else {
                        1int
                    }),
                    den as int >= 1,
            ;
            assert(represents_ratio(b, signed_mag(negative, 1), 1));
        }
        assert forall|k: nat| k <= 22 && den == pow2(k) implies represents_ratio(
            b,
            signed_mag(negative, num as int),
            den as int,
        ) by {
            lemma_pow2_adds(((sh as nat) - k) as nat, k);
            let a = pow2(((sh as nat) - k) as nat) as int;
            assert(shifted as int == ((num as int) * a) * (den as int)) by (nonlinear_arith)
                requires
                    shifted == (num as int) * pow2(sh as nat),
                    pow2(sh as nat) == a * (den as int),
            ;
            lemma_mod_multiples_basic((num as int) * a, den as int);
            assert(r == 0);
            assert(r * pow2(exp_field as nat) == 0) by (nonlinear_arith)
                requires
                    r == 0,
            ;
            assert(represents_ratio(b, snum, den as int));
        }
    }
    b
}

/// The all-zero pattern denotes exactly zero, to any tolerance.
pub proof fn lemma_zero_pattern(den: int, ulps: int)
    requires
        den > 0,
        ulps >= 0,
    ensures
        represents_ratio(0u32, 0, den),
        within_ulps(0u32, 0, den, ulps),
{
    assert(bits_sign(0u32) == 0 && bits_exp(0u32) == 0 && bits_frac(0u32) == 0);
    assert(signed_sig(0u32) == 0);
    lemma_pow2_pos(exp_of(0u32) as nat);
    assert(signed_sig(0u32) * den * pow2(exp_of(0u32) as nat) == 0) by (nonlinear_arith)
        requires
            signed_sig(0u32) == 0,
    ;
    assert(0int * pow2(150) == 0) by (nonlinear_arith);
    assert(signed_sig(0u32) * (den * pow2(exp_of(0u32) as nat)) == 0) by (nonlinear_arith)
        requires
            signed_sig(0u32) == 0,
    ;
    assert(ulps * (den * pow2(exp_of(0u32) as nat)) >= 0) by (nonlinear_arith)
        requires
            ulps >= 0,
            den > 0,
            pow2(exp_of(0u32) as nat) > 0,
    ;
}

/// Recovers the three fields of a binary32 pattern assembled from them.
proof fn lemma_decode32(b: u32, s: int, e: int, f: int)
    requires
        0 <= s <= 1,
        0 <= e < 0x100,
        0 <= f < 0x0080_0000,
        b == s * 0x8000_0000 + e * 0x0080_0000 + f,
    ensures
        bits_sign(b) == s,
        bits_exp(b) == e,
        bits_frac(b) == f,
{
    lemma_fundamental_div_mod_converse(b as int, 0x0080_0000, s * 0x100 + e, f);
    lemma_fundamental_div_mod_converse(s * 0x100 + e, 0x100, s, e);
    lemma_fundamental_div_mod_converse(b as int, 0x8000_0000, s, e * 0x0080_0000 + f);
}

/// Narrows a binary64 pattern to a binary32 pattern in integer arithmetic,
/// rounding the significand half-up.
///
/// Finite inputs whose rounded value stays below `2^128` narrow to within
/// one unit in the last place of the result; larger finite values and
/// infinities map to the infinity of the same sign, and NaNs map to a NaN.
pub fn narrow_f64_bits(d: u64) -> (b: u32)
    ensures
        f64_exp(d) <= 1149 ==> narrows_f64(b, d),
        f64_exp(d) == 1150 && f64_frac(d) < 0xF_FFFF_F000_0000 ==> narrows_f64(b, d),
        f64_exp(d) == 0 && f64_frac(d) == 0 ==> b == (if f64_sign(d) == 1 {
            0x8000_0000u32
        } else {
            0u32
        }),
        (1151 <= f64_exp(d) <= 2046) || (f64_exp(d) == 1150 && f64_frac(d) >= 0xF_FFFF_F000_0000)
            ==> bits_exp(b) == 255 && bits_frac(b) == 0 && bits_sign(b) == f64_sign(d),
        f64_exp(d) == 2047 && f64_frac(d) == 0 ==> bits_exp(b) == 255 && bits_frac(b) == 0
            && bits_sign(b) == f64_sign(d),
        f64_exp(d) == 2047 && f64_frac(d) != 0 ==> bits_exp(b) == 255 && bits_frac(b) != 0,
{
    let negative: bool = d >= 0x8000_0000_0000_0000;
    let e11: u64 = (d / 0x10_0000_0000_0000) % 0x800;
    let f52: u64 = d % 0x10_0000_0000_0000;
    let sign_part: u32 = if negative {
        0x8000_0000
    } else {
        0
    };
    let ghost s: int = if negative {
        1int
    } else {
        0int
    };
    proof {
        lemma2_to64();
        lemma2_to64_rest();
        assert(f64_sign(d) == s);
        assert(e11 == f64_exp(d));
        assert(f52 == f64_frac(d));
    }
    if e11 == 2047 {
        if f52 == 0 {
            let b: u32 = sign_part + 0x7F80_0000;
            proof {
                lemma_decode32(b, s, 0xFF, 0);
            }
            return b;
        } else {
            let b: u32 = sign_part + 0x7FC0_0000;
            proof {
                lemma_decode32(b, s, 0xFF, 0x0040_0000);
            }
            return b;
        }
    }
    if e11 >= 1151 {
        let b: u32 = sign_part + 0x7F80_0000;
        proof {
            lemma_decode32(b, s, 0xFF, 0);
        }
        return b;
    }
    let eo: u64 = if e11 == 0 {
        1
    } else {
        e11
    };
    let msig: u64 = if e11 == 0 {
        f52
    } else {
        0x10_0000_0000_0000 + f52
    };
    proof {
        assert(eo == f64_exp_of(d));
        assert(msig == f64_sig(d));
        assert(f64_signed_sig(d) == (if negative {
            -(msig as int)
        } else {
            msig as int
        }));
    }
    if msig == 0 || eo <= 872 {
        // the value is far below the smallest binary32 subnormal step:
        // it rounds to a zero of the same sign
        let b: u32 = sign_part;
        proof {
            lemma_decode32(b, s, 0, 0);
            assert(sig_of(b) == 0 && exp_of(b) == 1);
            assert(signed_sig(b) == 0);
            assert(signed_sig(b) * pow2((exp_of(b) + 925) as nat) == 0) by (nonlinear_arith)
                requires
                    signed_sig(b) == 0,
            ;
            lemma_pow2_adds(53, 872);
            lemma_pow2_pos(eo as nat);
            if eo < 872 {
                lemma_pow2_strictly_increases(eo as nat, 872);
            }
            lemma_pow2_strictly_increases(925, 926);
            assert((msig as int) * pow2(eo as nat) <= pow2(925)) by (nonlinear_arith)
                requires
                    msig >= 0,
                    (msig as int) < pow2(53),
                    pow2(eo as nat) > 0,
                    pow2(eo as nat) <= pow2(872),
                    pow2(53) * pow2(872) == pow2(925),
            ;
            assert(-(pow2(926) as int) <= 0 - f64_signed_sig(d) * pow2(eo as nat) <= pow2(926))
                by (nonlinear_arith)
                requires
                    f64_signed_sig(d) == (if negative {
                        -(msig as int)
                    } else {
                        msig as int
                    }),
                    0 <= (msig as int) * pow2(eo as nat) <= pow2(925),
                    pow2(925) <= pow2(926),
            ;
            assert(narrows_f64(b, d));
        }
        return b;
    }
    if eo >= 897 {
        // the result is a normal binary32 value
        let q0: u64 = (msig + 0x1000_0000) / 0x2000_0000;
        let ghost rr: int = (msig + 0x1000_0000) as int % 0x2000_0000;
        proof {
            lemma_fundamental_div_mod((msig + 0x1000_0000) as int, 0x2000_0000);
            assert(0x0080_0000 <= q0 <= 0x0100_0000);
        }
        if q0 == 0x0100_0000 && eo == 1150 {
            // the significand rounded up across the top of the binary32
            // range: the result saturates to an infinity
            let b: u32 = sign_part + 0x7F80_0000;
            proof {
                lemma_decode32(b, s, 0xFF, 0);
                assert(f52 >= 0xF_FFFF_F000_0000);
            }
            return b;
        }
        let expf: u32;
        let qq: u32;
        if q0 == 0x0100_0000 {
            expf = (eo - 895) as u32;
            qq = 0x0080_0000;
        } else {
            expf = (eo - 896) as u32;
            qq = q0 as u32;
        }
        let b: u32 = sign_part + expf * 0x0080_0000 + (qq - 0x0080_0000);
        proof {
            assert(1 <= expf <= 254);
            lemma_decode32(b, s, expf as int, qq as int - 0x0080_0000);
            assert(sig_of(b) == qq as int && exp_of(b) == expf as int);
            assert(is_finite(b));
            lemma2_to64();
            lemma_pow2_adds(eo as nat, 29);
            lemma_pow2_adds(eo as nat, 28);
            lemma_pow2_adds((eo + 29) as nat, 1);
            lemma_pow2_pos(eo as nat);
            // in both branches the scaled magnitude is q0 * 2^(eo + 29)
            assert((qq as int) * pow2((expf + 925) as nat) == (q0 as int) * pow2(
                (eo + 29) as nat,
            ));
            assert(-(pow2((eo + 28) as nat) as int) <= (q0 as int) * pow2((eo + 29) as nat) - (
            msig as int) * pow2(eo as nat) <= pow2((eo + 28) as nat)) by (nonlinear_arith)
                requires
                    (q0 as int) * 0x2000_0000 - msig as int == 0x1000_0000 - rr,
                    0 <= rr < 0x2000_0000,
                    pow2((eo + 29) as nat) == pow2(eo as nat) * 0x2000_0000,
                    pow2((eo + 28) as nat) == pow2(eo as nat) * 0x1000_0000,
                    pow2(eo as nat) > 0,
            ;
            assert(pow2((eo + 28) as nat) <= pow2((expf + 925) as nat)) by {
                lemma_pow2_strictly_increases((eo + 28) as nat, (expf + 925) as nat);
            }
            assert(-(pow2((expf + 925) as nat) as int) <= signed_sig(b) * pow2(
                (expf + 925) as nat,
            ) - f64_signed_sig(d) * pow2(eo as nat) <= pow2((expf + 925) as nat))
                by (nonlinear_arith)
                requires
                    signed_sig(b) == (if negative {
                        -(qq as int)
                    } else {
                        qq as int
                    }),
                    f64_signed_sig(d) == (if negative {
                        -(msig as int)
                    } else {
                        msig as int
                    }),
                    (qq as int) * pow2((expf + 925) as nat) == (q0 as int) * pow2((eo + 29) as nat),
                    -(pow2((eo + 28) as nat) as int) <= (q0 as int) * pow2((eo + 29) as nat) - (
                    msig as int) * pow2(eo as nat) <= pow2((eo + 28) as nat),
                    pow2((eo + 28) as nat) <= pow2((expf + 925) as nat),
            ;
            assert(narrows_f64(b, d));
        }
        return b;
    }
    // the result is a binary32 subnormal (or the smallest normal after
    // rounding): 873 <= eo <= 896
    let shift: u64 = 926 - eo;
    let hf: u64 = pow2_u64(shift - 1);
    let dv: u64 = pow2_u64(shift);
    proof {
        lemma_pow2_pos(shift as nat);
        assert(hf <= 0x0010_0000_0000_0000) by {
            if shift - 1 < 52 {
                lemma_pow2_strictly_increases((shift - 1) as nat, 52);
            }
        }
    }
    let q: u64 = (msig + hf) / dv;
    let ghost rr: int = (msig + hf) as int % dv as int;
    proof {
        lemma2_to64();
        lemma2_to64_rest();
        lemma_pow2_adds((shift - 1) as nat, 1);
        assert(30 <= shift <= 53);
        assert(hf < dv && dv == 2 * hf);
        lemma_fundamental_div_mod((msig + hf) as int, dv as int);
        lemma_pow2_adds(shift as nat, 23);
        assert(pow2(53) <= pow2((shift + 23) as nat)) by {
            if shift + 23 > 53 {
                lemma_pow2_strictly_increases(53, (shift + 23) as nat);
            }
        }
        assert(q <= 0x0080_0000) by (nonlinear_arith)
            requires
                (q as int) * (dv as int) + rr == msig as int + hf as int,
                0 <= rr < dv as int,
                msig >= 0,
                (msig as int) < pow2(53),
                hf < dv,
                dv == pow2(shift as nat),
                pow2(shift as nat) * pow2(23) == pow2((shift + 23) as nat),
                pow2(53) <= pow2((shift + 23) as nat),
                pow2(23) == 0x0080_0000,
                dv >= 1,
        ;
    }
    let b: u32 = if q == 0x0080_0000 {
        sign_part + 0x0080_0000
    } else {
        sign_part + (q as u32)
    };
    proof {
        if q == 0x0080_0000 {
            lemma_decode32(b, s, 1, 0);
        } else {
            lemma_decode32(b, s, 0, q as int);
        }
        assert(sig_of(b) == q as int && exp_of(b) == 1);
        assert(is_finite(b));
        lemma_pow2_adds(shift as nat, eo as nat);
        lemma_pow2_adds((shift - 1) as nat, eo as nat);
        lemma_pow2_pos(eo as nat);
        lemma_pow2_strictly_increases(925, 926);
        assert(-(pow2(925) as int) <= (q as int) * pow2(926) - (msig as int) * pow2(eo as nat)
            <= pow2(925)) by (nonlinear_arith)
            requires
                (q as int) * (dv as int) + rr == msig as int + hf as int,
                0 <= rr < dv as int,
                dv == 2 * hf,
                hf == pow2((shift - 1) as nat),
                dv == pow2(shift as nat),
                pow2(926) == pow2(shift as nat) * pow2(eo as nat),
                pow2(925) == pow2((shift - 1) as nat) * pow2(eo as nat),
                pow2(eo as nat) > 0,
        ;
        assert(-(pow2(926) as int) <= signed_sig(b) * pow2(926) - f64_signed_sig(d) * pow2(
            eo as nat,
        ) <= pow2(926)) by (nonlinear_arith)
            requires
                signed_sig(b) == (if negative {
                    -(q as int)
                } else {
                    q as int
                }),
                f64_signed_sig(d) == (if negative {
                    -(msig as int)
                } else {
                    msig as int
                }),
                -(pow2(925) as int) <= (q as int) * pow2(926) - (msig as int) * pow2(eo as nat)
                    <= pow2(925),
                pow2(925) <= pow2(926),
        ;
        assert(narrows_f64(b, d));
    }
    b
}

} // verus!
