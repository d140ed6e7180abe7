//! The values of the floating-point formats, and that every conversion gives the
//! nearest one.
//!
//! All values are counted in units of two to the power -1074, the smallest
//! value above 0 in double precision. The bits of an infinity stand for the
//! value that would come next, so a value that is nearer to it than to the
//! largest finite one becomes infinite.

use crate::floats::{
    bfloat_of_single, bit_length, bit_length_bounds, distance, double_of_integer, double_of_single,
    half_of_double, narrowed, rounded, rounded_is_small, rounding_is_to_the_nearest, scaled_length,
    short_fraction, single_of_double,
};
use vstd::arithmetic::div_mod::lemma_fundamental_div_mod_converse;
use vstd::arithmetic::power2::{
    lemma2_to64, lemma2_to64_rest, lemma_pow2_adds, lemma_pow2_pos, lemma_pow2_strictly_increases,
    lemma_pow2_unfold, pow2,
};
use vstd::prelude::*;

verus! {

/// The value of the bits `t`, without a sign, in a format with `fraction`
/// fractions, in units of its smallest value above 0.
pub open spec fn magnitude(t: nat, fraction: nat) -> nat {
    if t < fraction {
        t
    } else {
        (fraction + t % fraction) * pow2((t / fraction - 1) as nat)
    }
}

/// `n` with a sign: negative where `sign` is not 0.
pub open spec fn signed(sign: int, n: nat) -> int {
    if sign == 0 {
        n as int
    } else {
        -(n as int)
    }
}

/// The value of the bits `b` in double precision.
pub open spec fn double_value(b: u64) -> int {
    signed(
        (b / 0x8000_0000_0000_0000) as int,
        magnitude((b % 0x8000_0000_0000_0000) as nat, 0x10_0000_0000_0000),
    )
}

/// The value of the bits `b` in single precision.
pub open spec fn single_value(b: u32) -> int {
    signed(
        (b / 0x8000_0000) as int,
        magnitude((b % 0x8000_0000) as nat, 0x80_0000) * pow2(925),
    )
}

/// The value of the bits `b` in half precision.
pub open spec fn half_value(b: u16) -> int {
    signed((b / 0x8000) as int, magnitude((b % 0x8000) as nat, 0x400) * pow2(1050))
}

/// The value of the bits `b` in the format bfloat16.
pub open spec fn bfloat_value(b: u16) -> int {
    signed((b / 0x8000) as int, magnitude((b % 0x8000) as nat, 0x80) * pow2(941))
}

/// Whether the bits `r` with the value `rv` are at least as good for `v` as the
/// bits `c` with the value `cv`: they are nearer, or as near and even.
pub open spec fn is_as_good(r: nat, rv: int, c: nat, cv: int, v: int) -> bool {
    &&& distance(rv, v) <= distance(cv, v)
    &&& distance(rv, v) == distance(cv, v) && c != r ==> r % 2 == 0
}

proof fn scaled_distance(a: int, b: int, g: nat)
    requires
        g > 0,
    ensures
        distance(a * g, b * g) == distance(a, b) * g,
{
    assert(a * g - b * g == (a - b) * g) by (nonlinear_arith);
    assert(b * g - a * g == (b - a) * g) by (nonlinear_arith);
    if a >= b {
        assert(a * g >= b * g) by (nonlinear_arith)
            requires
                a >= b,
                g > 0,
        ;
    } else {
        assert(a * g < b * g) by (nonlinear_arith)
            requires
                a < b,
                g > 0,
        ;
    }
}

proof fn magnitude_of(q: nat, r: nat, fraction: nat)
    requires
        q >= 1,
        r < fraction,
    ensures
        magnitude(q * fraction + r, fraction) == (fraction + r) * pow2((q - 1) as nat),
{
    let t = q * fraction + r;
    lemma_fundamental_div_mod_converse(t as int, fraction as int, q as int, r as int);
    assert(t >= fraction) by (nonlinear_arith)
        requires
            t == q * fraction + r,
            q >= 1,
    ;
}

proof fn next_is_larger(t: nat, fraction: nat)
    requires
        fraction > 0,
    ensures
        magnitude(t, fraction) < magnitude(t + 1, fraction),
{
    lemma2_to64();
    let f = fraction;
    let q = t / f;
    let r = t % f;
    assert(t == q * f + r && r < f) by (nonlinear_arith)
        requires
            f > 0,
            q == t / f,
            r == t % f,
    ;
    if t + 1 == fraction {
        magnitude_of(1, 0, fraction);
        assert(f * pow2(0) == f);
        assert(1 * f + 0 == t + 1);
    } else if t + 1 > fraction {
        assert(q >= 1) by (nonlinear_arith)
            requires
                t >= f,
                t == q * f + r,
                r < f,
                f > 0,
        ;
        let p = pow2((q - 1) as nat);
        lemma_pow2_pos((q - 1) as nat);
        magnitude_of(q, r, f);
        if r + 1 < f {
            magnitude_of(q, r + 1, f);
            assert((f + r) * p < (f + (r + 1)) * p) by (nonlinear_arith)
                requires
                    p > 0,
            ;
        } else {
            assert(t + 1 == (q + 1) * f + 0) by (nonlinear_arith)
                requires
                    t == q * f + r,
                    r + 1 == f,
            ;
            magnitude_of(q + 1, 0, f);
            lemma_pow2_unfold(q);
            assert((f + r) * p < (f + 0) * (2 * p)) by (nonlinear_arith)
                requires
                    p > 0,
                    r + 1 == f,
            ;
        }
    }
}

proof fn magnitudes_grow(a: nat, b: nat, fraction: nat)
    requires
        fraction > 0,
        a < b,
    ensures
        magnitude(a, fraction) < magnitude(b, fraction),
    decreases b - a,
{
    next_is_larger((b - 1) as nat, fraction);
    if a < b - 1 {
        magnitudes_grow(a, (b - 1) as nat, fraction);
    }
}

/// The value at the step `q` of the exponent `exp`.
proof fn magnitude_at(exp: nat, q: nat, fraction: nat)
    requires
        fraction > 0,
        exp >= 1,
        q <= 2 * fraction,
        q >= fraction || exp == 1,
    ensures
        magnitude(((exp - 1) * fraction + q) as nat, fraction) == q * pow2((exp - 1) as nat),
{
    lemma2_to64();
    let f = fraction;
    let p = pow2((exp - 1) as nat);
    let t = ((exp - 1) * f + q) as nat;
    assert((exp - 1) * f >= 0) by (nonlinear_arith)
        requires
            exp >= 1,
    ;
    if q < fraction {
        assert((exp - 1) * f == 0) by (nonlinear_arith)
            requires
                exp == 1,
        ;
        assert(p == 1);
        assert(q * p == q) by (nonlinear_arith)
            requires
                p == 1,
        ;
    } else if q < 2 * fraction {
        assert(t == exp * f + (q - f)) by (nonlinear_arith)
            requires
                t == (exp - 1) * f + q,
        ;
        magnitude_of(exp, (q - f) as nat, f);
    } else {
        assert(t == (exp + 1) * f + 0) by (nonlinear_arith)
            requires
                t == (exp - 1) * f + q,
                q == 2 * f,
        ;
        magnitude_of(exp + 1, 0, f);
        lemma_pow2_unfold(exp);
        assert(f * (2 * p) == q * p) by (nonlinear_arith)
            requires
                q == 2 * f,
        ;
    }
}

/// The step at which the value of `c` stands on the grid of the exponent
/// `exp`.
proof fn step_of(c: nat, exp: nat, fraction: nat) -> (k: nat)
    requires
        fraction > 0,
        exp >= 1,
        c >= exp * fraction || exp == 1,
    ensures
        magnitude(c, fraction) == k * pow2((exp - 1) as nat),
{
    lemma2_to64();
    if exp == 1 {
        let p = pow2((exp - 1) as nat);
        let k = magnitude(c, fraction);
        assert(k * p == k) by (nonlinear_arith)
            requires
                p == 1,
        ;
        k
    } else {
        let f = fraction as int;
        let q = c as int / f;
        assert(q >= exp) by (nonlinear_arith)
            requires
                c >= exp * f,
                f > 0,
                q == c as int / f,
        ;
        assert(c >= f) by (nonlinear_arith)
            requires
                c >= exp * f,
                exp >= 1,
                f > 0,
        ;
        lemma_pow2_adds((q - exp) as nat, (exp - 1) as nat);
        let a = (fraction + c % fraction) as int;
        let x = pow2((q - exp) as nat) as int;
        let y = pow2((exp - 1) as nat) as int;
        assert(a * (x * y) == (a * x) * y) by (nonlinear_arith);
        assert(a * x >= 0) by (nonlinear_arith)
            requires
                a >= 0,
                x >= 0,
        ;
        (a * x) as nat
    }
}

/// On a grid of steps of the width `pow2(k) * g`, of which a step of the
/// format is the width `u * s`, the step to which `m` is rounded is as good as
/// any other.
proof fn steps_are_nearest(m: nat, k: nat, g: nat, u: nat, s: nat, c: nat)
    requires
        g > 0,
        s * u == pow2(k) * g,
    ensures
        ({
            let near = distance(((rounded(m, k) * s) * u) as int, (m * g) as int);
            let other = distance(((c * s) * u) as int, (m * g) as int);
            &&& near <= other
            &&& near == other && c != rounded(m, k) ==> rounded(m, k) % 2 == 0
        }),
{
    let q = rounded(m, k);
    let p = pow2(k);
    rounding_is_to_the_nearest(m, k, c);
    assert((q * s) * u == (q * p) * g) by (nonlinear_arith)
        requires
            s * u == p * g,
    ;
    assert((c * s) * u == (c * p) * g) by (nonlinear_arith)
        requires
            s * u == p * g,
    ;
    scaled_distance((q * p) as int, m as int, g);
    scaled_distance((c * p) as int, m as int, g);
    let x = distance((q * p) as int, m as int);
    let y = distance((c * p) as int, m as int);
    assert(x * g <= y * g) by (nonlinear_arith)
        requires
            x <= y,
            g > 0,
    ;
    assert(x < y ==> x * g < y * g) by (nonlinear_arith)
        requires
            g > 0,
    ;
}

/// What rounding gives where there is no largest value.
spec fn unbounded(m: nat, e: int, drop: nat, rebias: int, fraction: nat) -> nat {
    let exp = e - rebias;
    if exp >= 1 {
        ((exp - 1) * fraction + rounded(m, drop)) as nat
    } else {
        rounded(m, (drop + 1 - exp) as nat)
    }
}

/// Whether `m` and `e` are a significand and an exponent that a format with
/// `drop` more bits of fraction has.
spec fn fits(m: nat, e: int, drop: nat, rebias: int, fraction: nat) -> bool {
    &&& fraction > 0
    &&& fraction % 2 == 0
    &&& e >= 1
    &&& drop + rebias >= 0
    &&& m < (2 * fraction) * pow2(drop)
    &&& e - rebias >= 2 ==> m >= fraction * pow2(drop)
}

proof fn large_stays_large(m: nat, drop: nat, fraction: nat)
    requires
        m >= fraction * pow2(drop),
    ensures
        rounded(m, drop) >= fraction,
{
    lemma_pow2_pos(drop);
    let p = pow2(drop);
    assert(m / p >= fraction) by (nonlinear_arith)
        requires
            m >= fraction * p,
            p > 0,
    ;
}

proof fn unbounded_is_nearest(m: nat, e: int, drop: nat, rebias: int, fraction: nat, c: nat)
    requires
        fits(m, e, drop, rebias, fraction),
    ensures
        ({
            let t = unbounded(m, e, drop, rebias, fraction);
            let u = pow2((drop + rebias) as nat);
            is_as_good(
                t,
                (magnitude(t, fraction) * u) as int,
                c,
                (magnitude(c, fraction) * u) as int,
                (m * pow2((e - 1) as nat)) as int,
            )
        }),
{
    lemma2_to64();
    let exp = e - rebias;
    let t = unbounded(m, e, drop, rebias, fraction);
    let u = pow2((drop + rebias) as nat);
    let g = pow2((e - 1) as nat);
    let v = (m * g) as int;
    lemma_pow2_pos((e - 1) as nat);
    lemma_pow2_pos((drop + rebias) as nat);
    let base = if exp >= 1 {
        exp as nat
    } else {
        1
    };
    let k = if exp >= 1 {
        drop
    } else {
        (drop + 1 - exp) as nat
    };
    let q = rounded(m, k);
    let s = pow2((base - 1) as nat);
    lemma_pow2_pos((base - 1) as nat);
    lemma_pow2_adds((base - 1) as nat, (drop + rebias) as nat);
    lemma_pow2_adds(k, (e - 1) as nat);
    assert(base - 1 + (drop + rebias) == k + (e - 1));
    assert(s * u == pow2(k) * g);
    if exp >= 1 {
        rounded_is_small(m, drop, 2 * fraction);
        if exp >= 2 {
            large_stays_large(m, drop, fraction);
        }
    } else {
        lemma_pow2_unfold((drop + 1) as nat);
        if k > drop + 1 {
            lemma_pow2_strictly_increases((drop + 1) as nat, k);
        }
        let a = pow2(drop);
        let b = pow2(k);
        assert((2 * fraction) * a <= fraction * b) by (nonlinear_arith)
            requires
                2 * a <= b,
        ;
        rounded_is_small(m, k, fraction);
    }
    assert(t == (base - 1) * fraction + q) by {
        assert(0 * fraction == 0) by (nonlinear_arith);
        assert((base - 1) * fraction >= 0) by (nonlinear_arith)
            requires
                base >= 1,
                fraction > 0,
        ;
    }
    magnitude_at(base, q, fraction);
    assert(t % 2 == q % 2) by {
        let h = fraction / 2;
        assert((base - 1) * fraction == 2 * ((base - 1) * h)) by (nonlinear_arith)
            requires
                fraction == 2 * h,
        ;
    }
    if c != t {
        if c < t {
            magnitudes_grow(c, t, fraction);
        } else {
            magnitudes_grow(t, c, fraction);
        }
        if c >= base * fraction || base == 1 {
            let j = step_of(c, base, fraction);
            steps_are_nearest(m, k, g, u, s, j);
        } else {
            steps_are_nearest(m, k, g, u, s, fraction);
            assert((base - 1) * fraction + fraction == base * fraction) by (nonlinear_arith);
            magnitude_at(base, fraction, fraction);
            magnitudes_grow(c, base * fraction, fraction);
            let low = magnitude(c, fraction);
            let edge = magnitude(base * fraction, fraction);
            assert(low * u < edge * u) by (nonlinear_arith)
                requires
                    low < edge,
                    u > 0,
            ;
            let p = pow2(k);
            assert((fraction * s) * u <= m * g) by (nonlinear_arith)
                requires
                    s * u == p * g,
                    fraction * p <= m,
            ;
        }
    }
}

/// Narrowing gives a value of the target format that is as good as any other.
proof fn narrowed_is_nearest(
    m: nat,
    e: int,
    drop: nat,
    rebias: int,
    fraction: nat,
    infinity: nat,
    c: nat,
)
    requires
        fits(m, e, drop, rebias, fraction),
        infinity % 2 == 0,
        c <= infinity,
    ensures
        ({
            let t = narrowed(m, e, drop, rebias, fraction, infinity);
            let u = pow2((drop + rebias) as nat);
            is_as_good(
                t,
                (magnitude(t, fraction) * u) as int,
                c,
                (magnitude(c, fraction) * u) as int,
                (m * pow2((e - 1) as nat)) as int,
            )
        }),
{
    let t = unbounded(m, e, drop, rebias, fraction);
    let u = pow2((drop + rebias) as nat);
    lemma_pow2_pos((drop + rebias) as nat);
    unbounded_is_nearest(m, e, drop, rebias, fraction, c);
    if t > infinity {
        unbounded_is_nearest(m, e, drop, rebias, fraction, infinity);
        magnitudes_grow(infinity, t, fraction);
        let top = magnitude(t, fraction);
        let edge = magnitude(infinity, fraction);
        assert(edge * u < top * u) by (nonlinear_arith)
            requires
                edge < top,
                u > 0,
        ;
        if c < infinity {
            magnitudes_grow(c, infinity, fraction);
            let low = magnitude(c, fraction);
            assert(low * u < edge * u) by (nonlinear_arith)
                requires
                    low < edge,
                    u > 0,
            ;
        }
    }
}

proof fn sign_makes_no_difference(
    sign: nat,
    t: nat,
    tv: nat,
    other: nat,
    c: nat,
    cv: nat,
    v: nat,
    top: nat,
)
    requires
        is_as_good(t, tv as int, c, cv as int, v as int),
        is_as_good(t, tv as int, 0, 0, v as int),
        sign <= 1,
        other <= 1,
        top % 2 == 0,
    ensures
        is_as_good(
            sign * top + t,
            signed(sign as int, tv),
            other * top + c,
            signed(other as int, cv),
            signed(sign as int, v),
        ),
{
    assert(0 * top == 0 && 1 * top == top) by (nonlinear_arith);
}

/// The significand and the exponent of finite bits.
proof fn magnitude_of_parts(exp: nat, frac: nat, fraction: nat)
    requires
        frac < fraction,
    ensures
        ({
            let m = if exp == 0 {
                frac
            } else {
                fraction + frac
            };
            let e = if exp == 0 {
                1
            } else {
                exp
            };
            magnitude(exp * fraction + frac, fraction) == m * pow2((e - 1) as nat)
        }),
{
    lemma2_to64();
    if exp == 0 {
        assert(0 * fraction == 0) by (nonlinear_arith);
        assert(frac * pow2(0) == frac);
    } else {
        magnitude_of(exp, frac, fraction);
    }
}

/// No value in single precision is better for a finite value in double
/// precision than the one that it becomes.
pub proof fn singles_are_nearest(b: u64, c: u32)
    requires
        b % 0x8000_0000_0000_0000 < 0x7ff0_0000_0000_0000,
        c % 0x8000_0000 <= 0x7f80_0000,
    ensures
        is_as_good(
            single_of_double(b) as nat,
            single_value(single_of_double(b)),
            c as nat,
            single_value(c),
            double_value(b),
        ),
{
    lemma2_to64();
    let sign = (b / 0x8000_0000_0000_0000) as nat;
    let exp = ((b / 0x10_0000_0000_0000) % 0x800) as nat;
    let frac = (b % 0x10_0000_0000_0000) as nat;
    let m = if exp == 0 {
        frac
    } else {
        0x10_0000_0000_0000 + frac
    };
    let e: int = if exp == 0 {
        1
    } else {
        exp as int
    };
    assert(b % 0x8000_0000_0000_0000 == exp * 0x10_0000_0000_0000 + frac);
    magnitude_of_parts(exp, frac, 0x10_0000_0000_0000);
    let t = narrowed(m, e, 29, 896, 0x80_0000, 0x7f80_0000);
    let mag = (c % 0x8000_0000) as nat;
    narrowed_is_nearest(m, e, 29, 896, 0x80_0000, 0x7f80_0000, mag);
    narrowed_is_nearest(m, e, 29, 896, 0x80_0000, 0x7f80_0000, 0);
    let u = pow2(925);
    assert(0 * u == 0) by (nonlinear_arith);
    sign_makes_no_difference(
        sign,
        t,
        magnitude(t, 0x80_0000) * u,
        (c / 0x8000_0000) as nat,
        mag,
        magnitude(mag, 0x80_0000) * u,
        m * pow2((e - 1) as nat),
        0x8000_0000,
    );
}

/// No value in half precision is better for a finite value in double precision
/// than the one that it becomes.
pub proof fn halves_are_nearest(b: u64, c: u16)
    requires
        b % 0x8000_0000_0000_0000 < 0x7ff0_0000_0000_0000,
        c % 0x8000 <= 0x7c00,
    ensures
        is_as_good(
            half_of_double(b) as nat,
            half_value(half_of_double(b)),
            c as nat,
            half_value(c),
            double_value(b),
        ),
{
    lemma2_to64();
    lemma2_to64_rest();
    let sign = (b / 0x8000_0000_0000_0000) as nat;
    let exp = ((b / 0x10_0000_0000_0000) % 0x800) as nat;
    let frac = (b % 0x10_0000_0000_0000) as nat;
    let m = if exp == 0 {
        frac
    } else {
        0x10_0000_0000_0000 + frac
    };
    let e: int = if exp == 0 {
        1
    } else {
        exp as int
    };
    assert(b % 0x8000_0000_0000_0000 == exp * 0x10_0000_0000_0000 + frac);
    magnitude_of_parts(exp, frac, 0x10_0000_0000_0000);
    let t = narrowed(m, e, 42, 1008, 0x400, 0x7c00);
    let mag = (c % 0x8000) as nat;
    narrowed_is_nearest(m, e, 42, 1008, 0x400, 0x7c00, mag);
    narrowed_is_nearest(m, e, 42, 1008, 0x400, 0x7c00, 0);
    let u = pow2(1050);
    assert(0 * u == 0) by (nonlinear_arith);
    sign_makes_no_difference(
        sign,
        t,
        magnitude(t, 0x400) * u,
        (c / 0x8000) as nat,
        mag,
        magnitude(mag, 0x400) * u,
        m * pow2((e - 1) as nat),
        0x8000,
    );
}

proof fn scaled_is_as_good(r: nat, rv: nat, c: nat, cv: nat, v: nat, g: nat)
    requires
        is_as_good(r, rv as int, c, cv as int, v as int),
        g > 0,
    ensures
        is_as_good(r, (rv * g) as int, c, (cv * g) as int, (v * g) as int),
{
    scaled_distance(rv as int, v as int, g);
    scaled_distance(cv as int, v as int, g);
    let x = distance(rv as int, v as int);
    let y = distance(cv as int, v as int);
    assert(x * g <= y * g) by (nonlinear_arith)
        requires
            x <= y,
            g > 0,
    ;
    assert(x < y ==> x * g < y * g) by (nonlinear_arith)
        requires
            g > 0,
    ;
}

proof fn bfloat_magnitude_is_nearest(rest: nat, c: nat)
    requires
        rest < 0x7f80_0000,
        c <= 0x7f80,
    ensures
        rounded(rest, 16) <= 0x7f80,
        is_as_good(
            rounded(rest, 16),
            (magnitude(rounded(rest, 16), 0x80) * pow2(941)) as int,
            c,
            (magnitude(c, 0x80) * pow2(941)) as int,
            (magnitude(rest, 0x80_0000) * pow2(925)) as int,
        ),
{
    lemma2_to64();
    let exp = rest / 0x80_0000;
    let frac = rest % 0x80_0000;
    let m = if exp == 0 {
        frac
    } else {
        0x80_0000 + frac
    };
    let e: int = if exp == 0 {
        1
    } else {
        exp as int
    };
    magnitude_of_parts(exp, frac, 0x80_0000);
    let t = narrowed(m, e, 16, 0, 0x80, 0x7f80);
    assert(rest == (e - 1) * 0x80_0000 + m);
    assert(rest / 0x1_0000 == (e - 1) * 0x80 + m / 0x1_0000);
    assert(rest % 0x1_0000 == m % 0x1_0000);
    assert(rounded(rest, 16) == (e - 1) * 0x80 + rounded(m, 16));
    assert(t == rounded(rest, 16));
    narrowed_is_nearest(m, e, 16, 0, 0x80, 0x7f80, c);
    let a = pow2(16);
    let g = pow2(925);
    lemma_pow2_pos(925);
    lemma_pow2_adds(16, 925);
    let x = magnitude(t, 0x80);
    let y = magnitude(c, 0x80);
    scaled_is_as_good(t, x * a, c, y * a, magnitude(rest, 0x80_0000), g);
    assert((x * a) * g == x * (a * g)) by (nonlinear_arith);
    assert((y * a) * g == y * (a * g)) by (nonlinear_arith);
}

/// No value in the format bfloat16 is better for a finite value in single
/// precision than the one that it becomes.
pub proof fn bfloats_are_nearest(b: u32, c: u16)
    requires
        b % 0x8000_0000 < 0x7f80_0000,
        c % 0x8000 <= 0x7f80,
    ensures
        is_as_good(
            bfloat_of_single(b) as nat,
            bfloat_value(bfloat_of_single(b)),
            c as nat,
            bfloat_value(c),
            single_value(b),
        ),
{
    let sign = (b / 0x8000_0000) as nat;
    let rest = (b % 0x8000_0000) as nat;
    let t = rounded(rest, 16);
    let mag = (c % 0x8000) as nat;
    bfloat_magnitude_is_nearest(rest, mag);
    bfloat_magnitude_is_nearest(rest, 0);
    let u = pow2(941);
    assert(0 * u == 0) by (nonlinear_arith);
    sign_makes_no_difference(
        sign,
        t,
        magnitude(t, 0x80) * u,
        (c / 0x8000) as nat,
        mag,
        magnitude(mag, 0x80) * u,
        magnitude(rest, 0x80_0000) * pow2(925),
        0x8000,
    );
}

proof fn integer_magnitude_is_nearest(n: nat, c: nat)
    requires
        n <= u64::MAX,
        c <= 0x7ff0_0000_0000_0000,
    ensures
        double_of_integer(n) < 0x7ff0_0000_0000_0000,
        is_as_good(
            double_of_integer(n),
            magnitude(double_of_integer(n), 0x10_0000_0000_0000) as int,
            c,
            magnitude(c, 0x10_0000_0000_0000) as int,
            (n * pow2(1074)) as int,
        ),
{
    lemma2_to64();
    lemma2_to64_rest();
    let f: nat = 0x10_0000_0000_0000;
    let t = double_of_integer(n);
    let len = bit_length(n);
    let v = n * pow2(1074);
    if n > 0 {
        bit_length_bounds(n);
        if len > 65 {
            lemma_pow2_strictly_increases(64, (len - 1) as nat);
        }
    }
    if n > 0 && len > 53 {
        let drop = (len - 53) as nat;
        lemma_pow2_adds(52, drop);
        lemma_pow2_adds(53, drop);
        assert(fits(n, 1075, drop, 53 - len, f));
        rounded_is_small(n, drop, 2 * f);
        assert(t == narrowed(n, 1075, drop, 53 - len, f, 0x7ff0_0000_0000_0000));
        narrowed_is_nearest(n, 1075, drop, 53 - len, f, 0x7ff0_0000_0000_0000, c);
        let one = pow2((drop + (53 - len)) as nat);
        assert(one == 1);
        let x = magnitude(t, f);
        let y = magnitude(c, f);
        assert(x * one == x && y * one == y) by (nonlinear_arith)
            requires
                one == 1,
        ;
    } else {
        if n == 0 {
            assert(0 * pow2(1074) == 0) by (nonlinear_arith);
        } else {
            scaled_length(n, 53);
            let p = pow2((53 - len) as nat);
            magnitude_at((1022 + len) as nat, n * p, f);
            lemma_pow2_adds((53 - len) as nat, (1021 + len) as nat);
            let g = pow2((1021 + len) as nat);
            assert((n * p) * g == n * (p * g)) by (nonlinear_arith);
        }
        assert(magnitude(t, f) == v);
        if c < t {
            magnitudes_grow(c, t, f);
        } else if c > t {
            magnitudes_grow(t, c, f);
        }
    }
}

/// No value in double precision is better for an integer than the one that it
/// becomes.
pub proof fn doubles_of_integers_are_nearest(n: u64, c: u64)
    requires
        c % 0x8000_0000_0000_0000 <= 0x7ff0_0000_0000_0000,
    ensures
        is_as_good(
            double_of_integer(n as nat),
            double_value(double_of_integer(n as nat) as u64),
            c as nat,
            double_value(c),
            (n * pow2(1074)) as int,
        ),
{
    let t = double_of_integer(n as nat);
    let mag = (c % 0x8000_0000_0000_0000) as nat;
    integer_magnitude_is_nearest(n as nat, mag);
    integer_magnitude_is_nearest(n as nat, 0);
    sign_makes_no_difference(
        0,
        t,
        magnitude(t, 0x10_0000_0000_0000),
        (c / 0x8000_0000_0000_0000) as nat,
        mag,
        magnitude(mag, 0x10_0000_0000_0000),
        (n * pow2(1074)) as nat,
        0x8000_0000_0000_0000,
    );
}

/// Widening does not change a finite value.
pub proof fn widening_keeps_the_value(b: u32)
    requires
        b % 0x8000_0000 < 0x7f80_0000,
    ensures
        double_value(double_of_single(b)) == single_value(b),
{
    lemma2_to64();
    lemma2_to64_rest();
    let sign = (b / 0x8000_0000) as nat;
    let exp = ((b / 0x80_0000) % 0x100) as nat;
    let frac = (b % 0x80_0000) as nat;
    let d = double_of_single(b);
    let f: nat = 0x10_0000_0000_0000;
    let u = pow2(925);
    assert(b % 0x8000_0000 == exp * 0x80_0000 + frac);
    magnitude_of_parts(exp, frac, 0x80_0000);
    if exp > 0 {
        assert(d == sign * 0x8000_0000_0000_0000 + (exp + 896) * f + frac * 0x2000_0000);
        assert(d % 0x8000_0000_0000_0000 == (exp + 896) * f + frac * 0x2000_0000);
        assert(d / 0x8000_0000_0000_0000 == sign);
        magnitude_of((exp + 896) as nat, frac * 0x2000_0000, f);
        lemma_pow2_adds(29, (exp + 895) as nat);
        lemma_pow2_adds((exp - 1) as nat, 925);
        let m = 0x80_0000 + frac;
        let x = pow2((exp + 895) as nat);
        let y = pow2((exp - 1) as nat);
        assert((f + frac * 0x2000_0000) * x == m * (0x2000_0000 * x)) by (nonlinear_arith)
            requires
                f + frac * 0x2000_0000 == m * 0x2000_0000,
        ;
        assert((m * y) * u == m * (y * u)) by (nonlinear_arith);
    } else if frac > 0 {
        let len = bit_length(frac);
        short_fraction(frac);
        scaled_length(frac, 53);
        let p = pow2((53 - len) as nat);
        let q = frac * p;
        assert(d == sign * 0x8000_0000_0000_0000 + (872 + len) * f + q);
        assert(d % 0x8000_0000_0000_0000 == (872 + len) * f + q);
        assert(d / 0x8000_0000_0000_0000 == sign);
        magnitude_at((873 + len) as nat, q, f);
        lemma_pow2_adds((53 - len) as nat, (872 + len) as nat);
        let x = pow2((872 + len) as nat);
        assert((frac * p) * x == frac * (p * x)) by (nonlinear_arith);
    } else {
        assert(d == sign * 0x8000_0000_0000_0000);
        assert(0 * u == 0) by (nonlinear_arith);
    }
}

/// No integer becomes infinite.
pub proof fn integers_are_finite(n: u64)
    ensures
        double_of_integer(n as nat) < 0x7ff0_0000_0000_0000,
{
    integer_magnitude_is_nearest(n as nat, 0);
}

} // verus!
