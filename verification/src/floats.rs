//! Conversions between floating-point formats on the bits of their values.
//!
//! Each conversion rounds to the nearest value of the target format and, where
//! two are equally near, to the one whose last bit is 0. A value in double
//! precision comes to bfloat16 in two such steps, by single precision.

use vstd::arithmetic::power2::{
    lemma2_to64, lemma2_to64_rest, lemma_pow2_adds, lemma_pow2_pos, lemma_pow2_strictly_increases,
    lemma_pow2_unfold, pow2,
};
use vstd::prelude::*;

verus! {

/// `n` divided by two to the power `k`, rounded to the nearest integer, and to
/// the even one of two that are equally near.
pub open spec fn rounded(n: nat, k: nat) -> nat {
    let p = pow2(k);
    let q = n / p;
    let r = n % p;
    if 2 * r > p || (2 * r == p && q % 2 == 1) {
        q + 1
    } else {
        q
    }
}

/// How many binary digits `n` has.
pub open spec fn bit_length(n: nat) -> nat
    decreases n,
{
    if n == 0 {
        0
    } else {
        1 + bit_length(n / 2)
    }
}

/// The bits, without the sign, of the value in a format with `bits` bits of
/// fraction and a largest finite exponent below `infinity`. The value is
/// `m` times two to the power of the exponent `e`, both as the source format
/// has them, with `drop` more bits of fraction and exponents that are
/// `rebias` larger.
pub open spec fn narrowed(
    m: nat,
    e: int,
    drop: nat,
    rebias: int,
    fraction: nat,
    infinity: nat,
) -> nat {
    let exp = e - rebias;
    let p = if exp >= 1 {
        ((exp - 1) * fraction + rounded(m, drop)) as nat
    } else {
        rounded(m, (drop + 1 - exp) as nat)
    };
    if p < infinity {
        p
    } else {
        infinity
    }
}

/// The bits in single precision of the value with the bits `b` in double
/// precision.
pub open spec fn single_of_double(b: u64) -> u32 {
    let sign = (b / 0x8000_0000_0000_0000) as nat;
    let exp = (b / 0x10_0000_0000_0000) % 0x800;
    let frac = (b % 0x10_0000_0000_0000) as nat;
    let magnitude = if exp == 0x7ff {
        if frac == 0 {
            0x7f80_0000nat
        } else {
            0x7fc0_0000
        }
    } else if exp == 0 {
        narrowed(frac, 1, 29, 896, 0x80_0000, 0x7f80_0000)
    } else {
        narrowed(0x10_0000_0000_0000 + frac, exp as int, 29, 896, 0x80_0000, 0x7f80_0000)
    };
    (sign * 0x8000_0000 + magnitude) as u32
}

/// The bits in half precision of the value with the bits `b` in double
/// precision.
pub open spec fn half_of_double(b: u64) -> u16 {
    let sign = (b / 0x8000_0000_0000_0000) as nat;
    let exp = (b / 0x10_0000_0000_0000) % 0x800;
    let frac = (b % 0x10_0000_0000_0000) as nat;
    let magnitude = if exp == 0x7ff {
        if frac == 0 {
            0x7c00nat
        } else {
            0x7e00
        }
    } else if exp == 0 {
        narrowed(frac, 1, 42, 1008, 0x400, 0x7c00)
    } else {
        narrowed(0x10_0000_0000_0000 + frac, exp as int, 42, 1008, 0x400, 0x7c00)
    };
    (sign * 0x8000 + magnitude) as u16
}

/// The bits in double precision of the value with the bits `b` in single
/// precision. All of what is no number becomes the same.
pub open spec fn double_of_single(b: u32) -> u64 {
    let sign = (b / 0x8000_0000) as nat;
    let exp = (b / 0x80_0000) % 0x100;
    let frac = (b % 0x80_0000) as nat;
    let magnitude = if exp == 0xff {
        if frac == 0 {
            0x7ff0_0000_0000_0000nat
        } else {
            0x7ff8_0000_0000_0000
        }
    } else if exp > 0 {
        (exp + 896) as nat * 0x10_0000_0000_0000 + frac * 0x2000_0000
    } else if frac > 0 {
        let len = bit_length(frac);
        (872 + len) as nat * 0x10_0000_0000_0000 + frac * pow2((53 - len) as nat)
    } else {
        0
    };
    (sign * 0x8000_0000_0000_0000 + magnitude) as u64
}

/// The bits in the format bfloat16 of the value with the bits `b` in single
/// precision.
pub open spec fn bfloat_of_single(b: u32) -> u16 {
    let sign = (b / 0x8000_0000) as nat;
    let rest = (b % 0x8000_0000) as nat;
    let magnitude = if rest > 0x7f80_0000 {
        0x7fc0nat
    } else {
        rounded(rest, 16)
    };
    (sign * 0x8000 + magnitude) as u16
}

/// The bits in double precision of the integer `n`.
pub open spec fn double_of_integer(n: nat) -> nat {
    let len = bit_length(n);
    if n == 0 {
        0
    } else if len <= 53 {
        (1021 + len) as nat * 0x10_0000_0000_0000 + n * pow2((53 - len) as nat)
    } else {
        (1021 + len) as nat * 0x10_0000_0000_0000 + rounded(n, (len - 53) as nat)
    }
}

fn two_to(k: u32) -> (p: u64)
    requires
        k <= 63,
    ensures
        p == pow2(k as nat),
{
    proof {
        lemma2_to64();
        lemma2_to64_rest();
    }
    let mut p: u64 = 1;
    let mut i: u32 = 0;
    while i < k
        invariant
            i <= k <= 63,
            p == pow2(i as nat),
        decreases k - i,
    {
        proof {
            lemma_pow2_unfold((i + 1) as nat);
            lemma2_to64();
            lemma2_to64_rest();
            if i + 1 < 63 {
                lemma_pow2_strictly_increases((i + 1) as nat, 63);
            }
        }
        p = p * 2;
        i = i + 1;
    }
    p
}

fn round_at(n: u64, k: u32) -> (r: u64)
    requires
        n < 0x8000_0000_0000_0000,
    ensures
        r == rounded(n as nat, k as nat),
        r <= n + 1,
{
    proof {
        lemma_pow2_pos(k as nat);
        lemma2_to64();
        lemma2_to64_rest();
    }
    if k >= 64 {
        proof {
            if k > 64 {
                lemma_pow2_strictly_increases(64, k as nat);
            }
            let p = pow2(k as nat);
            assert(p >= 0x1_0000_0000_0000_0000);
            vstd::arithmetic::div_mod::lemma_small_mod(n as nat, p);
            vstd::arithmetic::div_mod::lemma_basic_div(n as int, p as int);
        }
        return 0;
    }
    let p: u64 = two_to(k);
    let q: u64 = n / p;
    let r: u64 = n % p;
    proof {
        assert(q <= n) by (nonlinear_arith)
            requires
                q == n / p,
                p >= 1,
        ;
    }
    let twice: u128 = 2 * r as u128;
    if twice > p as u128 || (twice == p as u128 && q % 2 == 1) {
        q + 1
    } else {
        q
    }
}

pub(crate) proof fn rounded_is_small(n: nat, k: nat, top: nat)
    requires
        n < top * pow2(k),
    ensures
        rounded(n, k) <= top,
{
    lemma_pow2_pos(k);
    let p = pow2(k);
    assert(n / p < top) by (nonlinear_arith)
        requires
            n < top * p,
            p > 0,
    ;
}

proof fn rounded_falls(n: nat, j: nat, k: nat, top: nat)
    requires
        n < top * pow2(j),
        j <= k,
    ensures
        rounded(n, k) <= top,
{
    lemma_pow2_pos(j);
    if j < k {
        lemma_pow2_strictly_increases(j, k);
    }
    let a = pow2(j);
    let b = pow2(k);
    assert(top * a <= top * b) by (nonlinear_arith)
        requires
            a <= b,
    ;
    rounded_is_small(n, k, top);
}

/// The bits in single precision of the value with the bits `b` in double
/// precision.
pub fn f64_to_f32_bits(b: u64) -> (r: u32)
    ensures
        r == single_of_double(b),
{
    let sign: u64 = b / 0x8000_0000_0000_0000;
    let exp: u64 = (b / 0x10_0000_0000_0000) % 0x800;
    let frac: u64 = b % 0x10_0000_0000_0000;
    proof {
        lemma2_to64();
        lemma2_to64_rest();
    }
    let magnitude: u64 = if exp == 0x7ff {
        if frac == 0 {
            0x7f80_0000
        } else {
            0x7fc0_0000
        }
    } else {
        let m: u64 = if exp == 0 {
            frac
        } else {
            0x10_0000_0000_0000 + frac
        };
        let e: u64 = if exp == 0 {
            1
        } else {
            exp
        };
        let p: u64 = if e >= 897 {
            proof {
                rounded_is_small(m as nat, 29, 0x100_0000);
            }
            (e - 897) * 0x80_0000 + round_at(m, 29)
        } else {
            let k: u32 = (30 + 896 - e) as u32;
            proof {
                rounded_falls(m as nat, 29, k as nat, 0x100_0000);
            }
            round_at(m, k)
        };
        if p < 0x7f80_0000 {
            p
        } else {
            0x7f80_0000
        }
    };
    (sign * 0x8000_0000 + magnitude) as u32
}

/// The bits in half precision of the value with the bits `b` in double
/// precision.
pub fn f64_to_f16_bits(b: u64) -> (r: u16)
    ensures
        r == half_of_double(b),
{
    let sign: u64 = b / 0x8000_0000_0000_0000;
    let exp: u64 = (b / 0x10_0000_0000_0000) % 0x800;
    let frac: u64 = b % 0x10_0000_0000_0000;
    proof {
        lemma2_to64();
        lemma2_to64_rest();
    }
    let magnitude: u64 = if exp == 0x7ff {
        if frac == 0 {
            0x7c00
        } else {
            0x7e00
        }
    } else {
        let m: u64 = if exp == 0 {
            frac
        } else {
            0x10_0000_0000_0000 + frac
        };
        let e: u64 = if exp == 0 {
            1
        } else {
            exp
        };
        let p: u64 = if e >= 1009 {
            proof {
                rounded_is_small(m as nat, 42, 0x800);
            }
            (e - 1009) * 0x400 + round_at(m, 42)
        } else {
            let k: u32 = (43 + 1008 - e) as u32;
            proof {
                rounded_falls(m as nat, 42, k as nat, 0x800);
            }
            round_at(m, k)
        };
        if p < 0x7c00 {
            p
        } else {
            0x7c00
        }
    };
    (sign * 0x8000 + magnitude) as u16
}

/// The bits in the format bfloat16 of the value with the bits `b` in single
/// precision.
pub fn f32_to_bf16_bits(b: u32) -> (r: u16)
    ensures
        r == bfloat_of_single(b),
{
    let sign: u32 = b / 0x8000_0000;
    let rest: u32 = b % 0x8000_0000;
    proof {
        lemma2_to64();
        lemma2_to64_rest();
    }
    let magnitude: u64 = if rest > 0x7f80_0000 {
        0x7fc0
    } else {
        proof {
            rounded_is_small(rest as nat, 16, 0x8000);
        }
        round_at(rest as u64, 16)
    };
    proof {
        if rest <= 0x7f80_0000 {
            assert(magnitude <= 0x7f80) by {
                assert(rest / 0x1_0000 <= 0x7f80);
                assert(rest / 0x1_0000 == 0x7f80 ==> rest % 0x1_0000 == 0);
            }
        }
    }
    (sign as u64 * 0x8000 + magnitude) as u16
}

/// The bits in the format bfloat16 of the value with the bits `b` in double
/// precision, rounded to single precision first.
pub fn f64_to_bf16_bits(b: u64) -> (r: u16)
    ensures
        r == bfloat_of_single(single_of_double(b)),
{
    f32_to_bf16_bits(f64_to_f32_bits(b))
}

pub(crate) proof fn bit_length_bounds(n: nat)
    requires
        n > 0,
    ensures
        bit_length(n) >= 1,
        pow2((bit_length(n) - 1) as nat) <= n < pow2(bit_length(n)),
    decreases n,
{
    lemma2_to64();
    lemma2_to64_rest();
    if n > 1 {
        bit_length_bounds(n / 2);
        let len = bit_length(n / 2);
        lemma_pow2_unfold(len);
        lemma_pow2_unfold(len + 1);
    } else {
        assert(bit_length(0) == 0);
        assert(bit_length(1) == 1);
    }
}

fn bit_count(n: u64) -> (k: u32)
    ensures
        k == bit_length(n as nat),
        k <= 64,
    decreases n,
{
    if n == 0 {
        0
    } else {
        let k: u32 = bit_count(n / 2);
        proof {
            if n > 1 {
                bit_length_bounds(n as nat);
                lemma2_to64();
                lemma2_to64_rest();
                if bit_length(n as nat) - 1 > 64 {
                    lemma_pow2_strictly_increases(64, (bit_length(n as nat) - 1) as nat);
                }
            }
        }
        k + 1
    }
}

pub(crate) proof fn scaled_length(n: nat, top: nat)
    requires
        n > 0,
        bit_length(n) <= top,
    ensures
        pow2((top - 1) as nat) <= n * pow2((top - bit_length(n)) as nat) < pow2(top),
{
    let len = bit_length(n);
    bit_length_bounds(n);
    let p = pow2((top - len) as nat);
    lemma_pow2_pos((top - len) as nat);
    lemma_pow2_adds(len, (top - len) as nat);
    lemma_pow2_adds((len - 1) as nat, (top - len) as nat);
    let low = pow2((len - 1) as nat);
    let high = pow2(len);
    assert(low * p <= n * p < high * p) by (nonlinear_arith)
        requires
            low <= n < high,
            p > 0,
    ;
}

pub(crate) proof fn short_fraction(frac: nat)
    requires
        0 < frac < 0x80_0000,
    ensures
        1 <= bit_length(frac) <= 23,
{
    lemma2_to64();
    bit_length_bounds(frac);
    if bit_length(frac) > 24 {
        lemma_pow2_strictly_increases(23, (bit_length(frac) - 1) as nat);
    }
}

/// The bits in double precision of the value with the bits `b` in single
/// precision.
pub fn f32_to_f64_bits(b: u32) -> (r: u64)
    ensures
        r == double_of_single(b),
{
    let sign: u64 = (b / 0x8000_0000) as u64;
    let exp: u64 = ((b / 0x80_0000) % 0x100) as u64;
    let frac: u64 = (b % 0x80_0000) as u64;
    let magnitude: u64 = if exp == 0xff {
        if frac == 0 {
            0x7ff0_0000_0000_0000
        } else {
            0x7ff8_0000_0000_0000
        }
    } else if exp > 0 {
        (exp + 896) * 0x10_0000_0000_0000 + frac * 0x2000_0000
    } else if frac > 0 {
        let len: u32 = bit_count(frac);
        proof {
            lemma2_to64();
            lemma2_to64_rest();
            short_fraction(frac as nat);
            scaled_length(frac as nat, 53);
        }
        (872 + len as u64) * 0x10_0000_0000_0000 + frac * two_to(53 - len)
    } else {
        0
    };
    sign * 0x8000_0000_0000_0000 + magnitude
}

/// The bits in double precision of the integer `n`.
pub fn u64_to_f64_bits(n: u64) -> (r: u64)
    ensures
        r == double_of_integer(n as nat),
        r < 0x8000_0000_0000_0000,
{
    if n == 0 {
        return 0;
    }
    let len: u32 = bit_count(n);
    proof {
        bit_length_bounds(n as nat);
        lemma2_to64();
        lemma2_to64_rest();
    }
    let base: u64 = (1021 + len as u64) * 0x10_0000_0000_0000;
    if len <= 53 {
        let p: u64 = two_to(53 - len);
        proof {
            lemma_pow2_adds(len as nat, (53 - len) as nat);
            let a = pow2(len as nat);
            assert(n * p <= a * p) by (nonlinear_arith)
                requires
                    n <= a,
                    p >= 0,
            ;
        }
        base + n * p
    } else {
        proof {
            lemma_pow2_adds(53, (len - 53) as nat);
            rounded_is_small(n as nat, (len - 53) as nat, 0x20_0000_0000_0000);
        }
        let q: u64 = round_wide(n, len - 53);
        base + q
    }
}

fn round_wide(n: u64, k: u32) -> (r: u64)
    requires
        1 <= k <= 11,
    ensures
        r == rounded(n as nat, k as nat),
{
    let p: u64 = two_to(k);
    proof {
        lemma_pow2_unfold(k as nat);
        lemma_pow2_pos((k - 1) as nat);
    }
    let q: u64 = n / p;
    let r: u64 = n % p;
    proof {
        assert(2 * q <= n) by (nonlinear_arith)
            requires
                q == n / p,
                p >= 2,
        ;
    }
    let twice: u128 = 2 * r as u128;
    if twice > p as u128 || (twice == p as u128 && q % 2 == 1) {
        q + 1
    } else {
        q
    }
}

/// How far apart two numbers are.
pub open spec fn distance(a: int, b: int) -> int {
    if a >= b {
        a - b
    } else {
        b - a
    }
}

/// No multiple of two to the power `k` is nearer to `n` than the one that
/// rounding gives, and where another is as near, the one that it gives is an
/// even multiple.
pub proof fn rounding_is_to_the_nearest(n: nat, k: nat, c: nat)
    ensures
        ({
            let near = distance((rounded(n, k) * pow2(k)) as int, n as int);
            let other = distance((c * pow2(k)) as int, n as int);
            &&& near <= other
            &&& near == other && c != rounded(n, k) ==> rounded(n, k) % 2 == 0
        }),
{
    lemma_pow2_pos(k);
    let p = pow2(k) as int;
    let q = (n / pow2(k)) as int;
    let r = (n % pow2(k)) as int;
    assert(n == q * p + r && 0 <= r < p) by (nonlinear_arith)
        requires
            p > 0,
            q == n as int / p,
            r == n as int % p,
    ;
    assert((q + 1) * p == q * p + p) by (nonlinear_arith);
    if c < q {
        assert(c * p <= (q - 1) * p) by (nonlinear_arith)
            requires
                c <= q - 1,
                p > 0,
        ;
        assert((q - 1) * p == q * p - p) by (nonlinear_arith);
    } else if c > q + 1 {
        assert(c * p >= (q + 2) * p) by (nonlinear_arith)
            requires
                c >= q + 2,
                p > 0,
        ;
        assert((q + 2) * p == q * p + 2 * p) by (nonlinear_arith);
    }
}

/// A value that needs no rounding is not changed by it.
pub proof fn exact_values_stay(n: nat, k: nat)
    ensures
        rounded(n * pow2(k), k) == n,
{
    lemma_pow2_pos(k);
    let p = pow2(k);
    vstd::arithmetic::div_mod::lemma_div_multiples_vanish(n as int, p as int);
    vstd::arithmetic::div_mod::lemma_mod_multiples_basic(n as int, p as int);
    assert(n * p == p * n) by (nonlinear_arith);
}

/// Widening loses nothing: the value in double precision rounds to the value in
/// single precision that it was made of.
pub proof fn widening_is_exact(b: u32)
    requires
        b % 0x8000_0000 <= 0x7f80_0000,
    ensures
        single_of_double(double_of_single(b)) == b,
{
    lemma2_to64();
    lemma2_to64_rest();
    let sign = (b / 0x8000_0000) as nat;
    let exp = (b / 0x80_0000) % 0x100;
    let frac = (b % 0x80_0000) as nat;
    let d = double_of_single(b);
    assert(b == sign * 0x8000_0000 + exp * 0x80_0000 + frac);
    if exp == 0xff {
    } else if exp > 0 {
        assert(d == sign * 0x8000_0000_0000_0000 + (exp + 896) * 0x10_0000_0000_0000 + frac
            * 0x2000_0000);
        assert(d / 0x8000_0000_0000_0000 == sign);
        assert((d / 0x10_0000_0000_0000) % 0x800 == exp + 896);
        assert(d % 0x10_0000_0000_0000 == frac * 0x2000_0000);
        exact_values_stay(0x80_0000 + frac, 29);
    } else if frac > 0 {
        let len = bit_length(frac);
        short_fraction(frac);
        scaled_length(frac, 53);
        let m = frac * pow2((53 - len) as nat);
        assert(d == sign * 0x8000_0000_0000_0000 + (872 + len) * 0x10_0000_0000_0000 + m);
        assert(d / 0x8000_0000_0000_0000 == sign);
        assert((d / 0x10_0000_0000_0000) % 0x800 == 873 + len);
        assert(d % 0x10_0000_0000_0000 == m - 0x10_0000_0000_0000);
        exact_values_stay(frac, (53 - len) as nat);
    } else {
        assert(d == sign * 0x8000_0000_0000_0000);
        exact_values_stay(0, 925);
        assert(0 * pow2(925) == 0) by (nonlinear_arith);
    }
}

/// Widening makes no finite value infinite, and keeps its sign.
pub proof fn widened_is_finite(b: u32)
    requires
        b % 0x8000_0000 < 0x7f80_0000,
    ensures
        double_of_single(b) % 0x8000_0000_0000_0000 < 0x7ff0_0000_0000_0000,
        double_of_single(b) / 0x8000_0000_0000_0000 == b / 0x8000_0000,
{
    lemma2_to64();
    lemma2_to64_rest();
    let sign = (b / 0x8000_0000) as nat;
    let exp = (b / 0x80_0000) % 0x100;
    let frac = (b % 0x80_0000) as nat;
    let d = double_of_single(b);
    if exp > 0 {
        assert(d == sign * 0x8000_0000_0000_0000 + (exp + 896) * 0x10_0000_0000_0000 + frac
            * 0x2000_0000);
    } else if frac > 0 {
        let len = bit_length(frac);
        short_fraction(frac);
        scaled_length(frac, 53);
        assert(d == sign * 0x8000_0000_0000_0000 + (872 + len) * 0x10_0000_0000_0000 + frac * pow2(
            (53 - len) as nat,
        ));
    }
}

/// The sign stays with a value that is narrowed or widened, with a zero too.
pub proof fn signs_stay(b: u64, s: u32)
    ensures
        single_of_double(b) / 0x8000_0000 == b / 0x8000_0000_0000_0000,
        half_of_double(b) / 0x8000 == b / 0x8000_0000_0000_0000,
        double_of_single(s) / 0x8000_0000_0000_0000 == s / 0x8000_0000,
        bfloat_of_single(s) / 0x8000 == s / 0x8000_0000,
{
    lemma2_to64();
    let sign = (s / 0x8000_0000) as nat;
    let rest = (s % 0x8000_0000) as nat;
    assert(rest <= 0x7f80_0000 ==> rounded(rest, 16) <= 0x7f80);
    if s % 0x8000_0000 < 0x7f80_0000 {
        widened_is_finite(s);
    } else {
        assert((s / 0x80_0000) % 0x100 == 0xff);
    }
}

/// An infinity stays one, and what is no number stays none.
pub proof fn infinities_stay(b: u64, s: u32)
    ensures
        b % 0x8000_0000_0000_0000 == 0x7ff0_0000_0000_0000 ==> single_of_double(b) % 0x8000_0000
            == 0x7f80_0000 && half_of_double(b) % 0x8000 == 0x7c00,
        b % 0x8000_0000_0000_0000 > 0x7ff0_0000_0000_0000 ==> single_of_double(b) % 0x8000_0000
            > 0x7f80_0000 && half_of_double(b) % 0x8000 > 0x7c00,
        b % 0x8000_0000_0000_0000 < 0x7ff0_0000_0000_0000 ==> single_of_double(b) % 0x8000_0000
            <= 0x7f80_0000 && half_of_double(b) % 0x8000 <= 0x7c00,
        s % 0x8000_0000 == 0x7f80_0000 ==> double_of_single(s) % 0x8000_0000_0000_0000
            == 0x7ff0_0000_0000_0000 && bfloat_of_single(s) % 0x8000 == 0x7f80,
        s % 0x8000_0000 > 0x7f80_0000 ==> double_of_single(s) % 0x8000_0000_0000_0000
            > 0x7ff0_0000_0000_0000 && bfloat_of_single(s) % 0x8000 > 0x7f80,
{
    lemma2_to64();
    let mag = b % 0x8000_0000_0000_0000;
    let exp = (b / 0x10_0000_0000_0000) % 0x800;
    let frac = b % 0x10_0000_0000_0000;
    assert(mag == exp * 0x10_0000_0000_0000 + frac);
    let small = s % 0x8000_0000;
    let e = (s / 0x80_0000) % 0x100;
    let f = s % 0x80_0000;
    assert(small == e * 0x80_0000 + f);
    assert(rounded(0x7f80_0000, 16) == 0x7f80);
}

} // verus!
