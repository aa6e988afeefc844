//! Exact evaluation of linear level formulas over binary32 parameters.
//!
//! A level formula `base + per_level * (level - 1)` is evaluated in binary64: the
//! parameters widen exactly, and for levels up to 100 the product of a binary32
//! value and an integer below 100 has at most 31 significant bits, so it is exact
//! too. Only the final sum is rounded, to nearest with ties to even. Rounding keeps
//! the sign of the exact sum, and the rounded sum is within `±f32::MAX` exactly when
//! the exact sum is within `±(f32::MAX + 2^74)`: `2^74` is half the binary64
//! spacing above `f32::MAX`, whose last significand bit is even. So both questions
//! the level formulas ask are answered exactly on the exact sum, computed here in
//! units of `2^-149`, the smallest binary32 spacing.

use crate::config::numeric::{magnitude_bits, sign_set, spec_is_finite, spec_is_negative};
use vstd::arithmetic::power2::{
    lemma2_to64, lemma_pow2_adds, lemma_pow2_pos, lemma_pow2_strictly_increases,
    lemma_pow2_unfold, pow2,
};
use vstd::prelude::*;

verus! {

/// The biased exponent field of a binary32 bit pattern.
pub open spec fn biased_exponent(bits: u32) -> nat {
    magnitude_bits(bits) / 0x80_0000
}

/// The significand of a finite binary32 value, including the implicit leading one
/// of normal values.
pub open spec fn significand(bits: u32) -> nat {
    let fraction = magnitude_bits(bits) % 0x80_0000;
    if biased_exponent(bits) == 0 {
        fraction
    } else {
        fraction + 0x80_0000
    }
}

/// The power of two that scales the significand, in units of `2^-149`.
pub open spec fn scale_exponent(bits: u32) -> nat {
    if biased_exponent(bits) == 0 {
        0
    } else {
        (biased_exponent(bits) - 1) as nat
    }
}

/// `±x · 2^e`.
pub open spec fn signed_term(negative: bool, x: int, e: nat) -> int {
    if negative {
        -(x * pow2(e))
    } else {
        x * pow2(e)
    }
}

/// The exact value of a finite binary32 bit pattern, in units of `2^-149`.
pub open spec fn scaled_value(bits: u32) -> int {
    signed_term(sign_set(bits), significand(bits) as int, scale_exponent(bits))
}

/// The number of level steps above level one (`level.saturating_sub(1)`).
pub open spec fn level_steps(level: u32) -> nat {
    if level == 0 {
        0
    } else {
        (level - 1) as nat
    }
}

/// The exact value of `base + per_level * (level - 1)`, in units of `2^-149`.
pub open spec fn linear_scaled(base: u32, per_level: u32, level: u32) -> int {
    scaled_value(base) + scaled_value(per_level) * level_steps(level)
}

/// The exact value of a finite binary32 bit pattern has the sign its bits give: it
/// is zero exactly for the two zeros, negative exactly when the sign bit is set on
/// a nonzero magnitude (which is when the value is less than `0.0`), and setting
/// the sign bit of a nonnegative pattern negates the value.
pub proof fn lemma_scaled_value_sign(bits: u32)
    requires
        spec_is_finite(bits),
    ensures
        scaled_value(bits) == 0 <==> magnitude_bits(bits) == 0,
        scaled_value(bits) < 0 <==> sign_set(bits) && magnitude_bits(bits) != 0,
        scaled_value(bits) < 0 <==> spec_is_negative(bits),
        bits < 0x8000_0000 ==> scaled_value((bits + 0x8000_0000) as u32) == -scaled_value(bits),
{
    let m = magnitude_bits(bits);
    let x = significand(bits) as int;
    let e = scale_exponent(bits);
    lemma_pow2_pos(e);
    let pw = pow2(e);
    assert(m == biased_exponent(bits) * 0x80_0000 + m % 0x80_0000);
    if m != 0 {
        assert(x > 0);
        assert(x * pw > 0) by (nonlinear_arith)
            requires
                x > 0,
                pw > 0,
        ;
    } else {
        assert(x == 0);
        assert(x * pw == 0) by (nonlinear_arith)
            requires
                x == 0,
        ;
    }
    if bits < 0x8000_0000 {
        let neg = (bits + 0x8000_0000) as u32;
        assert(magnitude_bits(neg) == magnitude_bits(bits));
        assert(sign_set(neg) && !sign_set(bits));
    }
}

/// A level formula is its base at level one and grows by `per_level` with each
/// level above: at every level from one up it is exactly
/// `base + per_level * (level - 1)`, so at level one it is the flat base value and
/// the range and sign checks of level one are those of the flat base.
pub proof fn lemma_linear_levels(base: u32, per_level: u32, level: u32)
    requires
        1 <= level,
    ensures
        linear_scaled(base, per_level, level) == scaled_value(base) + scaled_value(per_level) * (level - 1),
        linear_scaled(base, per_level, 1) == scaled_value(base),
        level < u32::MAX ==> linear_scaled(base, per_level, (level + 1) as u32) == linear_scaled(base, per_level, level) + scaled_value(per_level),
        scaled_within_f32_range(linear_scaled(base, per_level, 1)) == scaled_within_f32_range(scaled_value(base)),
        (linear_scaled(base, per_level, 1) < 0) == (scaled_value(base) < 0),
{
    let p = scaled_value(per_level);
    let n = (level - 1) as int;
    assert(p * (n + 1) == p * n + p) by (nonlinear_arith);
    assert(p * 0 == 0) by (nonlinear_arith);
}

/// `f32::MAX + 2^74`, in units of `2^-149`.
pub open spec fn range_bound_scaled() -> int {
    0x3F_FFFF_C000_0001int * pow2(223)
}

/// A binary64 result rounded from an exact value `v` (in units of `2^-149`) is
/// finite and within `±f32::MAX`.
pub open spec fn scaled_within_f32_range(v: int) -> bool {
    -range_bound_scaled() <= v <= range_bound_scaled()
}

proof fn lemma_pow2_128()
    ensures
        pow2(64) == 0x1_0000_0000_0000_0000,
        pow2(128) == 0x1_0000_0000_0000_0000 * 0x1_0000_0000_0000_0000,
{
    lemma2_to64();
    lemma_pow2_adds(64, 64);
}

fn pow2_exec(e: u32) -> (r: u128)
    requires
        e < 128,
    ensures
        r == pow2(e as nat),
{
    let mut r: u128 = 1;
    let mut i: u32 = 0;
    proof {
        lemma2_to64();
        lemma_pow2_128();
    }
    while i < e
        invariant
            i <= e,
            e < 128,
            r == pow2(i as nat),
            pow2(128) == 0x1_0000_0000_0000_0000 * 0x1_0000_0000_0000_0000,
        decreases e - i,
    {
        proof {
            lemma_pow2_unfold((i + 1) as nat);
            lemma_pow2_strictly_increases((i + 1) as nat, 128);
        }
        r = r * 2;
        i = i + 1;
    }
    r
}

/// Splits a finite bit pattern into sign, significand and scale exponent.
fn decompose(bits: u32) -> (r: (bool, u64, u32))
    requires
        spec_is_finite(bits),
    ensures
        r.0 == sign_set(bits),
        r.1 == significand(bits),
        r.2 == scale_exponent(bits),
        r.1 < 0x100_0000,
        r.2 <= 253,
{
    let magnitude = bits % 0x8000_0000;
    let exponent = magnitude / 0x80_0000;
    let fraction = magnitude % 0x80_0000;
    let significand: u64 = if exponent == 0 {
        fraction as u64
    } else {
        fraction as u64 + 0x80_0000
    };
    let scale: u32 = if exponent == 0 {
        0
    } else {
        exponent - 1
    };
    (bits >= 0x8000_0000, significand, scale)
}

proof fn lemma_order_scaled(x: int, y: int, p: int)
    requires
        p > 0,
    ensures
        (x < y) == (x * p < y * p),
        (x == y) == (x * p == y * p),
        x < y ==> y * p - x * p >= p,
{
    assert((x < y) == (x * p < y * p)) by (nonlinear_arith)
        requires
            p > 0,
    ;
    assert((x == y) == (x * p == y * p)) by (nonlinear_arith)
        requires
            p > 0,
    ;
    assert(x < y ==> y * p - x * p >= p) by (nonlinear_arith)
        requires
            p > 0,
    ;
}

/// Compares `n · 2^d` with [`range_bound_scaled`]: `-1` below, `0` equal, `1` above.
fn compare_to_bound(n: u128, d: u32) -> (c: i8)
    requires
        n < 0x1_0000_0000_0000_0000_0000_0000,
        d <= 253,
    ensures
        c == -1 || c == 0 || c == 1,
        (c == -1) == (n * pow2(d as nat) < range_bound_scaled()),
        (c == 0) == (n * pow2(d as nat) == range_bound_scaled()),
{
    let tm: u128 = 0x3F_FFFF_C000_0001;
    proof {
        lemma2_to64();
        lemma_pow2_pos(d as nat);
        lemma_pow2_pos(223);
    }
    if d >= 223 {
        let k = d - 223;
        let p = pow2_exec(k);
        proof {
            lemma_pow2_adds(k as nat, 223);
            if k < 30 {
                lemma_pow2_strictly_increases(k as nat, 30);
            }
            assert(n * p < 0x4000_0000_0000_0000_0000_0000_0000_0000) by (nonlinear_arith)
                requires
                    n < 0x1_0000_0000_0000_0000_0000_0000,
                    p <= 0x4000_0000,
            ;
            assert(n * pow2(d as nat) == (n * p) * pow2(223)) by (nonlinear_arith)
                requires
                    pow2(d as nat) == p * pow2(223),
            ;
            lemma_order_scaled((n * p) as int, tm as int, pow2(223) as int);
        }
        let x = n * p;
        if x < tm {
            -1
        } else if x == tm {
            0
        } else {
            1
        }
    } else {
        let k = 223 - d;
        proof {
            lemma_pow2_adds(k as nat, d as nat);
            assert(range_bound_scaled() == (tm * pow2(k as nat)) * pow2(d as nat)) by (nonlinear_arith)
                requires
                    pow2(223) == pow2(k as nat) * pow2(d as nat),
                    tm == 0x3F_FFFF_C000_0001,
            ;
        }
        if k >= 43 {
            proof {
                if k > 43 {
                    lemma_pow2_strictly_increases(43, k as nat);
                }
                lemma_pow2_adds(32, 11);
                assert(pow2(11) == 2048) by {
                    lemma2_to64();
                }
                assert(n < tm * pow2(k as nat)) by (nonlinear_arith)
                    requires
                        n < 0x1_0000_0000_0000_0000_0000_0000,
                        pow2(k as nat) >= pow2(43),
                        pow2(43) == 0x1_0000_0000 * 2048,
                        tm == 0x3F_FFFF_C000_0001,
                ;
                lemma_order_scaled(n as int, tm * pow2(k as nat), pow2(d as nat) as int);
            }
            -1
        } else {
            let p = pow2_exec(k);
            proof {
                if k < 42 {
                    lemma_pow2_strictly_increases(k as nat, 42);
                }
                lemma_pow2_adds(32, 10);
                assert(pow2(10) == 1024) by {
                    lemma2_to64();
                }
                assert(tm * p <= 0x3F_FFFF_C000_0001 * 0x400_0000_0000) by (nonlinear_arith)
                    requires
                        p <= pow2(42),
                        pow2(42) == 0x1_0000_0000 * 1024,
                        tm == 0x3F_FFFF_C000_0001,
                ;
                lemma_order_scaled(n as int, (tm * p) as int, pow2(d as nat) as int);
            }
            let y = tm * p;
            if n < y {
                -1
            } else if n == y {
                0
            } else {
                1
            }
        }
    }
}

/// Range and sign of `±x · 2^s`.
fn single_range(negative: bool, x: u64, s: u32) -> (r: (bool, bool))
    requires
        x < 0x8000_0000,
        s <= 253,
    ensures
        r.0 == scaled_within_f32_range(signed_term(negative, x as int, s as nat)),
        r.1 == (signed_term(negative, x as int, s as nat) < 0),
{
    let c = compare_to_bound(x as u128, s);
    proof {
        lemma_pow2_pos(s as nat);
        assert(x * pow2(s as nat) >= 0) by (nonlinear_arith)
            requires
                pow2(s as nat) > 0,
        ;
        assert((x * pow2(s as nat) == 0) == (x == 0)) by (nonlinear_arith)
            requires
                pow2(s as nat) > 0,
        ;
    }
    (c <= 0, negative && x != 0)
}

/// Range and sign of `±h · 2^sh ± l · 2^sl` for nonzero `h` and `l`, `sh >= sl`.
fn ordered_range(nh: bool, h: u64, sh: u32, nl: bool, l: u64, sl: u32) -> (r: (bool, bool))
    requires
        0 < h < 0x8000_0000,
        0 < l < 0x8000_0000,
        sl <= sh <= 253,
    ensures
        r.0 == scaled_within_f32_range(signed_term(nh, h as int, sh as nat) + signed_term(nl, l as int, sl as nat)),
        r.1 == (signed_term(nh, h as int, sh as nat) + signed_term(nl, l as int, sl as nat) < 0),
{
    let diff = sh - sl;
    let ghost total = signed_term(nh, h as int, sh as nat) + signed_term(nl, l as int, sl as nat);
    let ghost bound = range_bound_scaled();
    proof {
        lemma_pow2_pos(sl as nat);
        lemma_pow2_pos(sh as nat);
        lemma_pow2_adds(diff as nat, sl as nat);
    }
    if diff <= 64 {
        let p = pow2_exec(diff);
        proof {
            if diff < 64 {
                lemma_pow2_strictly_increases(diff as nat, 64);
            }
            lemma2_to64();
            assert(h * p <= 0x8000_0000 * 0x1_0000_0000_0000_0000) by (nonlinear_arith)
                requires
                    h < 0x8000_0000,
                    p <= 0x1_0000_0000_0000_0000,
            ;
        }
        let hp: i128 = (h as u128 * p) as i128;
        let big: i128 = if nh {
            -hp
        } else {
            hp
        };
        let small: i128 = if nl {
            -(l as i128)
        } else {
            l as i128
        };
        let n: i128 = big + small;
        let magnitude: u128 = if n < 0 {
            (0 - n) as u128
        } else {
            n as u128
        };
        proof {
            let ps = pow2(sl as nat);
            assert(signed_term(nh, h as int, sh as nat) == big * ps) by (nonlinear_arith)
                requires
                    pow2(sh as nat) == p * ps,
                    hp == h * p,
                    big == (if nh { -(hp as int) } else { hp as int }),
                    signed_term(nh, h as int, sh as nat) == (if nh { -(h * pow2(sh as nat)) } else { h * pow2(sh as nat) }),
            ;
            assert(signed_term(nl, l as int, sl as nat) == small * ps) by (nonlinear_arith)
                requires
                    small == (if nl { -(l as int) } else { l as int }),
                    signed_term(nl, l as int, sl as nat) == (if nl { -(l * ps) } else { l * ps }),
            ;
            assert(total == n * ps) by (nonlinear_arith)
                requires
                    total == big * ps + small * ps,
                    n == big + small,
            ;
            assert((total < 0) == (n < 0)) by (nonlinear_arith)
                requires
                    total == n * ps,
                    ps > 0,
            ;
            assert(total == magnitude * ps || total == -(magnitude * ps)) by (nonlinear_arith)
                requires
                    total == n * ps,
                    magnitude == (if n < 0 { -(n as int) } else { n as int }),
            ;
            assert(magnitude * ps >= 0) by (nonlinear_arith)
                requires
                    ps > 0,
                    magnitude >= 0,
            ;
        }
        let c = compare_to_bound(magnitude, sl);
        (c <= 0, n < 0)
    } else {
        let c = compare_to_bound(h as u128, sh);
        proof {
            let u = h * pow2(sh as nat);
            let e = l * pow2(sl as nat);
            let g: nat = if sh <= 223 { sh as nat } else { 223 };
            lemma_pow2_pos(g);
            // The smaller term is below 2^g.
            lemma_pow2_adds(31, sl as nat);
            lemma2_to64();
            assert(e < pow2((31 + sl) as nat)) by (nonlinear_arith)
                requires
                    l < 0x8000_0000,
                    pow2(31) == 0x8000_0000,
                    pow2((31 + sl) as nat) == pow2(31) * pow2(sl as nat),
                    pow2(sl as nat) > 0,
                    e == l * pow2(sl as nat),
            ;
            lemma_pow2_strictly_increases((31 + sl) as nat, g);
            assert(e < pow2(g));
            assert(e > 0) by (nonlinear_arith)
                requires
                    l > 0,
                    pow2(sl as nat) > 0,
                    e == l * pow2(sl as nat),
            ;
            // Both the larger term and the bound are multiples of 2^g.
            lemma_pow2_adds((sh - g) as nat, g);
            lemma_pow2_adds((223 - g) as nat, g);
            let hu = h * pow2((sh - g) as nat);
            let tb = 0x3F_FFFF_C000_0001 * pow2((223 - g) as nat);
            assert(u == hu * pow2(g)) by (nonlinear_arith)
                requires
                    u == h * pow2(sh as nat),
                    pow2(sh as nat) == pow2((sh - g) as nat) * pow2(g),
                    hu == h * pow2((sh - g) as nat),
            ;
            assert(bound == tb * pow2(g)) by (nonlinear_arith)
                requires
                    bound == 0x3F_FFFF_C000_0001 * pow2(223),
                    pow2(223) == pow2((223 - g) as nat) * pow2(g),
                    tb == 0x3F_FFFF_C000_0001 * pow2((223 - g) as nat),
            ;
            lemma_order_scaled(hu as int, tb as int, pow2(g) as int);
            lemma_order_scaled(tb as int, hu as int, pow2(g) as int);
            if g < sh {
                lemma_pow2_strictly_increases(g, sh as nat);
            }
            assert(u >= pow2(g)) by (nonlinear_arith)
                requires
                    u == h * pow2(sh as nat),
                    h >= 1,
                    pow2(sh as nat) >= pow2(g),
            ;
            if g < sh {
                lemma_pow2_strictly_increases(g, sh as nat);
            }
        }
        (c < 0 || (c == 0 && nh != nl), nh)
    }
}

/// Range and sign of `±a · 2^sa ± b · 2^sb`.
fn sum_range(na: bool, a: u64, sa: u32, nb: bool, b: u64, sb: u32) -> (r: (bool, bool))
    requires
        a < 0x8000_0000,
        b < 0x8000_0000,
        sa <= 253,
        sb <= 253,
    ensures
        r.0 == scaled_within_f32_range(signed_term(na, a as int, sa as nat) + signed_term(nb, b as int, sb as nat)),
        r.1 == (signed_term(na, a as int, sa as nat) + signed_term(nb, b as int, sb as nat) < 0),
{
    if a == 0 {
        assert(signed_term(na, a as int, sa as nat) == 0);
        single_range(nb, b, sb)
    } else if b == 0 {
        assert(signed_term(nb, b as int, sb as nat) == 0);
        single_range(na, a, sa)
    } else if sa >= sb {
        ordered_range(na, a, sa, nb, b, sb)
    } else {
        ordered_range(nb, b, sb, na, a, sa)
    }
}

/// Whether `base + per_level * level.saturating_sub(1)`, evaluated in binary64, is
/// within the finite binary32 range, and whether it is negative.
pub fn linear_range(base: u32, per_level: u32, level: u32) -> (r: (bool, bool))
    requires
        spec_is_finite(base),
        spec_is_finite(per_level),
        level <= 100,
    ensures
        r.0 == scaled_within_f32_range(linear_scaled(base, per_level, level)),
        r.1 == (linear_scaled(base, per_level, level) < 0),
{
    let (na, a, sa) = decompose(base);
    let (np, mp, sp) = decompose(per_level);
    let steps: u64 = if level == 0 {
        0
    } else {
        (level - 1) as u64
    };
    assert(mp * steps < 0x8000_0000) by (nonlinear_arith)
        requires
            mp < 0x100_0000,
            steps <= 99,
    ;
    let p = mp * steps;
    proof {
        let pw = pow2(sp as nat);
        assert(scaled_value(per_level) * level_steps(level) == signed_term(np, p as int, sp as nat)) by (nonlinear_arith)
            requires
                scaled_value(per_level) == (if np { -(mp * pw) } else { mp * pw }),
                signed_term(np, p as int, sp as nat) == (if np { -(p * pw) } else { p * pw }),
                p == mp * steps,
                steps == level_steps(level),
        ;
    }
    sum_range(na, a, sa, np, p, sp)
}

/// Whether a flat binary32 value, widened to binary64, is within the finite
/// binary32 range (always, for finite values), and whether it is negative.
pub fn flat_range(value: u32) -> (r: (bool, bool))
    requires
        spec_is_finite(value),
    ensures
        r.0 == scaled_within_f32_range(scaled_value(value)),
        r.1 == (scaled_value(value) < 0),
{
    let (negative, x, s) = decompose(value);
    single_range(negative, x, s)
}

} // verus!
