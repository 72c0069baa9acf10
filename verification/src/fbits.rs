use vstd::arithmetic::div_mod::lemma_fundamental_div_mod;
use vstd::arithmetic::mul::{lemma_mul_inequality, lemma_mul_strict_inequality};
use vstd::arithmetic::power2::{
    lemma2_to64, lemma_pow2_adds, lemma_pow2_pos, lemma_pow2_strictly_increases, pow2,
};
use vstd::bits::{lemma_u64_pow2_no_overflow, lemma_u64_shl_is_mul, lemma_u64_shr_is_div};
use vstd::math::abs;
use vstd::prelude::*;

verus! {

// Positions travel through the format as IEEE-754 single-precision
// values. The codec never does float arithmetic: a value is carried as
// its 32-bit pattern, and the one numeric question the encoder asks of
// it — is it within a hundredth of a small integer, so that it fits the
// compact one-byte form — is answered exactly on the bit pattern.

/// The exponent field of a single-precision bit pattern.
pub open spec fn f32_exp(bits: u32) -> u32 {
    (bits >> 23) & 0xff
}

/// The fraction field of a single-precision bit pattern.
pub open spec fn f32_frac(bits: u32) -> u32 {
    bits & 0x7fffff
}

/// The sign bit of a single-precision bit pattern.
pub open spec fn f32_neg(bits: u32) -> bool {
    (bits >> 31) == 1
}

/// Finite values are everything but infinities and NaNs.
pub open spec fn f32_is_finite(bits: u32) -> bool {
    f32_exp(bits) != 255
}

/// The exact value of a finite bit pattern, scaled by `2^149`. Every
/// finite single-precision value is an integer multiple of `2^-149`, so
/// this represents it without loss.
pub open spec fn f32_scaled(bits: u32) -> int {
    let mag: int = if f32_exp(bits) == 0 {
        f32_frac(bits) as int
    } else {
        (f32_frac(bits) + 0x800000) * pow2((f32_exp(bits) - 1) as nat)
    };
    if f32_neg(bits) {
        -mag
    } else {
        mag
    }
}

/// The bit pattern denotes exactly the integer `n`.
pub open spec fn f32_is_int(bits: u32, n: int) -> bool {
    f32_is_finite(bits) && f32_scaled(bits) == n * pow2(149)
}

/// The value lies strictly within `1/200` of the integer `n`: rounded to
/// two decimal places it reads as `n` exactly. (`1/200` is not a binary
/// fraction, so no single-precision value sits on the boundary.)
pub open spec fn f32_near_int(bits: u32, n: int) -> bool {
    f32_is_finite(bits) && abs(f32_scaled(bits) - n * pow2(149)) * 200 < pow2(149)
}

/// The value fits the compact one-byte axis form: within `1/200` of an
/// integer that the byte range can carry.
pub open spec fn quantizable(bits: u32) -> bool {
    exists|n: int| 0 <= n <= 254 && f32_near_int(bits, n)
}

/// The byte a quantizable axis is written as: its integer plus one.
pub open spec fn compact_byte(bits: u32) -> u8 {
    ((choose|n: int| 0 <= n <= 254 && f32_near_int(bits, n)) + 1) as u8
}

/// At most one integer lies within `1/200` of a value.
pub proof fn lemma_near_unique(bits: u32, n1: int, n2: int)
    requires
        f32_near_int(bits, n1),
        f32_near_int(bits, n2),
    ensures
        n1 == n2,
{
    lemma_pow2_pos(149);
    let p = pow2(149) as int;
    let s = f32_scaled(bits);
    let a = s - n1 * p;
    let b = s - n2 * p;
    if n1 != n2 {
        assert((n1 - n2) * p == b - a) by (nonlinear_arith)
            requires
                a == s - n1 * p,
                b == s - n2 * p,
        ;
        assert(false) by (nonlinear_arith)
            requires
                abs(a) * 200 < p,
                abs(b) * 200 < p,
                (n1 - n2) * p == b - a,
                n1 != n2,
                p > 0,
        ;
    }
}

/// Bridge between the scaled-value reading of nearness and the plain
/// integer arithmetic the quantizer does on the mantissa: for a normal
/// positive value with exponent field `e` in `[119, 134]`, nearness to
/// `n` is a statement about the mantissa and the shift `150 - e`.
proof fn lemma_near_shift(bits: u32, n: int)
    requires
        !f32_neg(bits),
        119 <= f32_exp(bits) <= 134,
    ensures
        f32_near_int(bits, n) <==> abs(
            (f32_frac(bits) + 0x800000) - n * pow2((150 - f32_exp(bits)) as nat),
        ) * 200 < pow2((150 - f32_exp(bits)) as nat),
{
    let e = f32_exp(bits);
    let sh = (150 - e) as nat;
    let pe = pow2((e - 1) as nat) as int;
    let psh = pow2(sh) as int;
    let mv = (f32_frac(bits) + 0x800000) as int;
    lemma_pow2_adds(sh, (e - 1) as nat);
    lemma_pow2_pos(sh);
    lemma_pow2_pos((e - 1) as nat);
    assert(pow2(149) == psh * pe);
    let d = mv - n * psh;
    assert(f32_scaled(bits) - n * pow2(149) == d * pe) by (nonlinear_arith)
        requires
            f32_scaled(bits) == mv * pe,
            pow2(149) == psh * pe,
            d == mv - n * psh,
    ;
    assert(abs(d * pe) == abs(d) * pe) by (nonlinear_arith)
        requires
            pe > 0,
    ;
    assert((abs(d) * pe) * 200 == (abs(d) * 200) * pe) by (nonlinear_arith);
    if abs(d) * 200 < psh {
        lemma_mul_strict_inequality(abs(d) as int * 200, psh, pe);
    }
    if abs(d) * 200 >= psh {
        lemma_mul_inequality(psh, abs(d) as int * 200, pe);
    }
}

/// A value whose exponent field reaches 135 has magnitude at least 256
/// and is near no byte-range integer.
proof fn lemma_large_not_near(bits: u32, n: int)
    requires
        135 <= f32_exp(bits) <= 254,
        0 <= n <= 254,
    ensures
        !f32_near_int(bits, n),
{
    let e = f32_exp(bits);
    let pe = pow2((e - 1) as nat) as int;
    let p = pow2(149) as int;
    let mv = (f32_frac(bits) + 0x800000) as int;
    lemma_pow2_pos(149);
    lemma_pow2_pos((e - 1) as nat);
    if ((e - 1) as nat) > 134 {
        lemma_pow2_strictly_increases(134, (e - 1) as nat);
    }
    lemma_pow2_adds(8, 149);
    lemma2_to64();
    assert(pow2(134) * pow2(23) == pow2(157)) by {
        lemma_pow2_adds(134, 23);
    }
    assert(pow2(157) == 256 * p);
    // magnitude ≥ 2^23 * 2^134 = 256 * 2^149
    assert(bits & 0x7fffff < 0x800000) by (bit_vector);
    assert(mv >= 0x800000);
    assert(pow2(23) == 0x800000);
    assert(mv * pe >= 256 * p) by (nonlinear_arith)
        requires
            mv >= 0x800000,
            pe >= pow2(134),
            pow2(134) * pow2(23) == 256 * p,
            pow2(23) == 0x800000,
            pow2(134) > 0,
            pe >= pow2(134),
            p > 0,
    ;
    assert(n * p <= 254 * p) by (nonlinear_arith)
        requires
            n <= 254,
            p > 0,
    ;
    assert(abs(f32_scaled(bits) - n * p) >= 2 * p) by {
        assert(n * p >= 0) by (nonlinear_arith)
            requires
                n >= 0,
                p > 0,
        ;
        if f32_neg(bits) {
            assert(f32_scaled(bits) == -(mv * pe));
        } else {
            assert(f32_scaled(bits) == mv * pe);
        }
    }
    assert(abs(f32_scaled(bits) - n * p) * 200 >= (2 * p) * 200) by (nonlinear_arith)
        requires
            abs(f32_scaled(bits) - n * p) >= 2 * p,
            p > 0,
    ;
}

/// A value whose exponent field is at most 118 has magnitude under
/// `2^-8 < 1/200`: it is near zero.
proof fn lemma_small_near_zero(bits: u32)
    requires
        f32_exp(bits) <= 118,
    ensures
        f32_near_int(bits, 0),
{
    let e = f32_exp(bits);
    let p = pow2(149) as int;
    lemma_pow2_pos(149);
    lemma2_to64();
    assert(bits & 0x7fffff < 0x800000) by (bit_vector);
    if e == 0 {
        let mv = f32_frac(bits) as int;
        assert(mv < 0x800000);
        assert(abs(f32_scaled(bits)) == mv);
        assert(mv * 200 < 0x80000000) by (nonlinear_arith)
            requires
                0 <= mv < 0x800000,
        ;
        assert(pow2(31) == 0x80000000);
        lemma_pow2_strictly_increases(31, 149);
    } else {
        let pe = pow2((e - 1) as nat) as int;
        let mv = (f32_frac(bits) + 0x800000) as int;
        lemma_pow2_pos((e - 1) as nat);
        if ((e - 1) as nat) < 117 {
            lemma_pow2_strictly_increases((e - 1) as nat, 117);
        }
        lemma_pow2_adds(32, 117);
        assert(pow2(149) == pow2(32) * pow2(117));
        assert(pow2(32) == 0x100000000);
        assert(abs(f32_scaled(bits)) == mv * pe) by (nonlinear_arith)
            requires
                mv > 0,
                pe > 0,
                f32_scaled(bits) == mv * pe || f32_scaled(bits) == -(mv * pe),
        ;
        assert((mv * pe) * 200 < 0x100000000 * pow2(117)) by (nonlinear_arith)
            requires
                0 < mv < 0x1000000,
                0 < pe <= pow2(117) as int,
                pow2(117) > 0,
        ;
    }
}

/// The nearest multiple of `pw` to `mv` is `n0 * pw`; every other
/// multiple is at least `half = pw / 2` away.
proof fn lemma_other_multiples_far(mv: int, n0: int, n: int, pw: int, half: int)
    requires
        pw == 2 * half,
        half >= 1,
        mv >= 0,
        n0 == (mv + half) / pw,
        n != n0,
    ensures
        abs(mv - n * pw) >= half,
{
    lemma_fundamental_div_mod(mv + half, pw);
    let r = (mv + half) % pw;
    assert(mv - n * pw == pw * (n0 - n) + (r - half)) by (nonlinear_arith)
        requires
            mv + half == pw * n0 + r,
    ;
    let k = n0 - n;
    if k >= 1 {
        assert(pw * k >= pw) by (nonlinear_arith)
            requires
                k >= 1,
                pw > 0,
        ;
    } else {
        assert(pw * k <= -pw) by (nonlinear_arith)
            requires
                k <= -1,
                pw > 0,
        ;
    }
}

/// Decide whether a single-precision bit pattern fits the compact
/// one-byte axis form, and give the byte when it does.
pub fn quantize(bits: u32) -> (r: Option<u8>)
    ensures
        r is Some <==> quantizable(bits),
        r matches Some(q) ==> 1 <= q && q == compact_byte(bits) && f32_near_int(
            bits,
            q - 1,
        ),
{
    let e = (bits >> 23) & 0xff;
    let m = bits & 0x7fffff;
    let neg = (bits >> 31) == 1;
    proof {
        assert(e == f32_exp(bits));
        assert(m == f32_frac(bits));
        assert(neg == f32_neg(bits));
        assert(bits & 0x7fffff < 0x800000) by (bit_vector);
        assert(((bits >> 23) & 0xff) < 0x100) by (bit_vector);
    }
    if e >= 135 {
        proof {
            if f32_exp(bits) == 255 {
                assert(forall|n: int| !f32_near_int(bits, n));
            } else {
                assert forall|n: int| 0 <= n <= 254 implies !f32_near_int(bits, n) by {
                    lemma_large_not_near(bits, n);
                }
            }
        }
        None
    } else if e <= 118 {
        proof {
            lemma_small_near_zero(bits);
            lemma_near_some(bits, 0);
        }
        Some(1)
    } else {
        let sh: u64 = (150 - e) as u64;
        let mv: u64 = (m + 0x800000) as u64;
        proof {
            lemma_u64_pow2_no_overflow(sh as nat);
            lemma_u64_shl_is_mul(1u64, sh);
            lemma_pow2_adds(1, (sh - 1) as nat);
            lemma_u64_pow2_no_overflow((sh - 1) as nat);
            lemma_u64_shl_is_mul(1u64, (sh - 1) as u64);
            lemma2_to64();
        }
        let pw: u64 = 1u64 << sh;
        let half: u64 = 1u64 << (sh - 1);
        proof {
            assert(pw == pow2(sh as nat));
            assert(half == pow2((sh - 1) as nat));
            assert(pw == 2 * half);
            lemma_pow2_pos(sh as nat);
        }
        if neg {
            if mv * 200 < pw {
                proof {
                    lemma_neg_small_near_zero(bits, mv as int, pw as int);
                    lemma_near_some(bits, 0);
                }
                Some(1)
            } else {
                proof {
                    assert forall|n: int| 0 <= n <= 254 implies !f32_near_int(bits, n) by {
                        lemma_neg_not_near(bits, mv as int, pw as int, n);
                    }
                }
                None
            }
        } else {
            let n0: u64 = (mv + half) >> sh;
            proof {
                lemma_u64_shr_is_div((mv + half) as u64, sh);
                assert(n0 == ((mv + half) as int) / (pw as int)) by (nonlinear_arith)
                    requires
                        n0 == (mv + half) as nat / pow2(sh as nat),
                        pw == pow2(sh as nat),
                        pw > 0,
                ;
                lemma_fundamental_div_mod((mv + half) as int, pw as int);
                assert(n0 * pw <= mv + half) by (nonlinear_arith)
                    requires
                        (mv + half) as int == (pw as int) * (n0 as int) + ((mv + half) as int % (
                        pw as int)),
                        (mv + half) as int % (pw as int) >= 0,
                ;
            }
            let ns: u64 = n0 * pw;
            let dist: u64 = if ns >= mv {
                ns - mv
            } else {
                mv - ns
            };
            proof {
                assert(dist == abs(mv - n0 * pw));
            }
            if n0 <= 254 && dist * 200 < pw {
                proof {
                    lemma_near_shift(bits, n0 as int);
                    lemma_near_some(bits, n0 as int);
                }
                Some((n0 + 1) as u8)
            } else {
                proof {
                    assert forall|n: int| 0 <= n <= 254 implies !f32_near_int(bits, n) by {
                        lemma_near_shift(bits, n);
                        if n == n0 {
                            assert(abs((f32_frac(bits) + 0x800000) - n * pow2(
                                (150 - f32_exp(bits)) as nat,
                            )) * 200 >= pw);
                        } else {
                            lemma_other_multiples_far(
                                mv as int,
                                n0 as int,
                                n,
                                pw as int,
                                half as int,
                            );
                            assert(abs(mv - n * (pw as int)) * 200 >= (half as int) * 200)
                                by (nonlinear_arith)
                                requires
                                    abs(mv - n * (pw as int)) >= half as int,
                                    half >= 1,
                            ;
                        }
                    }
                }
                None
            }
        }
    }
}

/// A negative value of small magnitude is near zero.
proof fn lemma_neg_small_near_zero(bits: u32, mv: int, pw: int)
    requires
        f32_neg(bits),
        119 <= f32_exp(bits) <= 134,
        mv == f32_frac(bits) + 0x800000,
        pw == pow2((150 - f32_exp(bits)) as nat),
        mv * 200 < pw,
    ensures
        f32_near_int(bits, 0),
{
    let e = f32_exp(bits);
    let sh = (150 - e) as nat;
    let pe = pow2((e - 1) as nat) as int;
    lemma_pow2_adds(sh, (e - 1) as nat);
    lemma_pow2_pos(sh);
    lemma_pow2_pos((e - 1) as nat);
    assert(f32_scaled(bits) == -(mv * pe));
    assert(abs(f32_scaled(bits) - 0 * pow2(149)) * 200 < pow2(149)) by (nonlinear_arith)
        requires
            f32_scaled(bits) == -(mv * pe),
            mv * 200 < pw,
            mv >= 0,
            pw > 0,
            pe > 0,
            pow2(149) == pw * pe,
    ;
}

/// A negative value is never near a positive integer, and is near zero
/// only when its magnitude is small.
proof fn lemma_neg_not_near(bits: u32, mv: int, pw: int, n: int)
    requires
        f32_neg(bits),
        119 <= f32_exp(bits) <= 134,
        mv == f32_frac(bits) + 0x800000,
        pw == pow2((150 - f32_exp(bits)) as nat),
        mv * 200 >= pw,
        0 <= n <= 254,
    ensures
        !f32_near_int(bits, n),
{
    let e = f32_exp(bits);
    let sh = (150 - e) as nat;
    let pe = pow2((e - 1) as nat) as int;
    lemma_pow2_adds(sh, (e - 1) as nat);
    lemma_pow2_pos(sh);
    lemma_pow2_pos((e - 1) as nat);
    assert(f32_scaled(bits) == -(mv * pe));
    assert(abs(f32_scaled(bits) - n * pow2(149)) * 200 >= pow2(149)) by (nonlinear_arith)
        requires
            f32_scaled(bits) == -(mv * pe),
            mv * 200 >= pw,
            mv > 0,
            n >= 0,
            pw > 0,
            pe > 0,
            pow2(149) == pw * pe,
    ;
}

/// Record that a nearby integer makes the value quantizable and fixes
/// its compact byte.
pub proof fn lemma_near_some(bits: u32, n: int)
    requires
        0 <= n <= 254,
        f32_near_int(bits, n),
    ensures
        quantizable(bits),
        compact_byte(bits) == n + 1,
        f32_near_int(bits, compact_byte(bits) - 1),
{
    assert(quantizable(bits));
    let n2 = choose|n2: int| 0 <= n2 <= 254 && f32_near_int(bits, n2);
    lemma_near_unique(bits, n, n2);
}

/// The single-precision bit pattern of the integer `n`, built from the
/// sign, the leading-bit position and the shifted remainder.
pub open spec fn bits_of_small_int(n: int) -> u32 {
    if n == 0 {
        0
    } else {
        let a: int = if n < 0 { -n } else { n };
        let k: nat = if a >= 128 { 7 } else if a >= 64 { 6 } else if a >= 32 { 5 }
            else if a >= 16 { 4 } else if a >= 8 { 3 } else if a >= 4 { 2 }
            else if a >= 2 { 1 } else { 0 };
        let sign: u32 = if n < 0 { 0x80000000 } else { 0 };
        sign | (((127 + k) as u32) << 23u32) | ((a * pow2((23 - k) as nat) - 0x800000) as u32)
    }
}

/// The single-precision bit pattern of a small integer.
pub fn f32_bits_of_int(n: i32) -> (r: u32)
    requires
        -254 <= n <= 254,
    ensures
        f32_is_int(r, n as int),
        f32_near_int(r, n as int),
        r == bits_of_small_int(n as int),
{
    proof {
        lemma2_to64();
        lemma_pow2_pos(149);
    }
    if n == 0 {
        proof {
            assert((0u32 >> 23) & 0xff == 0 && 0u32 & 0x7fffff == 0 && (0u32 >> 31) == 0)
                by (bit_vector);
            assert(f32_scaled(0) == 0);
            assert((0int) * pow2(149) == 0) by (nonlinear_arith);
        }
        return 0;
    }
    let (a, sign): (u32, u32) = if n < 0 {
        ((-n) as u32, 0x80000000)
    } else {
        (n as u32, 0)
    };
    let (k, scale): (u32, u32) = if a >= 128 {
        (7, 0x10000)
    } else if a >= 64 {
        (6, 0x20000)
    } else if a >= 32 {
        (5, 0x40000)
    } else if a >= 16 {
        (4, 0x80000)
    } else if a >= 8 {
        (3, 0x100000)
    } else if a >= 4 {
        (2, 0x200000)
    } else if a >= 2 {
        (1, 0x400000)
    } else {
        (0, 0x800000)
    };
    proof {
        assert(scale == pow2((23 - k) as nat));
        assert(0x800000 <= a * scale < 0x1000000) by (nonlinear_arith)
            requires
                (k == 7 && scale == 0x10000 && 128 <= a < 256) || (k == 6 && scale == 0x20000 && 64
                    <= a < 128) || (k == 5 && scale == 0x40000 && 32 <= a < 64) || (k == 4 && scale
                    == 0x80000 && 16 <= a < 32) || (k == 3 && scale == 0x100000 && 8 <= a < 16) || (
                k == 2 && scale == 0x200000 && 4 <= a < 8) || (k == 1 && scale == 0x400000 && 2 <= a
                    < 4) || (k == 0 && scale == 0x800000 && a == 1),
        ;
    }
    let mant = a * scale - 0x800000;
    let ebits = 127 + k;
    let r = sign | (ebits << 23) | mant;
    proof {
        let s32 = sign;
        let eb = ebits;
        let mb = mant;
        assert(((s32 | (eb << 23) | mb) >> 23) & 0xff == eb && ((s32 | (eb << 23) | mb) & 0x7fffff)
            == mb && (((s32 | (eb << 23) | mb) >> 31) == 1 <==> s32 == 0x80000000)) by (bit_vector)
            requires
                mb < 0x800000,
                127 <= eb <= 134,
                s32 == 0 || s32 == 0x80000000,
        ;
        assert(f32_exp(r) == ebits);
        assert(f32_frac(r) == mant);
        lemma_pow2_adds((23 - k) as nat, (126 + k) as nat);
        assert((mant + 0x800000) * pow2((126 + k) as nat) == (a as int) * pow2(149))
            by (nonlinear_arith)
            requires
                mant + 0x800000 == a * scale,
                scale == pow2((23 - k) as nat),
                pow2((23 - k) as nat) * pow2((126 + k) as nat) == pow2(149),
        ;
        if n < 0 {
            assert(f32_scaled(r) == -((a as int) * pow2(149)));
            assert(-((a as int) * pow2(149)) == (n as int) * pow2(149)) by (nonlinear_arith)
                requires
                    a == -(n as int),
            ;
        } else {
            assert(f32_scaled(r) == (a as int) * pow2(149));
        }
        assert(f32_scaled(r) - (n as int) * pow2(149) == 0);
    }
    r
}

} // verus!
