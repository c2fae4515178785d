//! The exact mixed-number type: a signed `whole + num/den` value kept in
//! fixed-width integers, with normalization, arithmetic and comparison.

use vstd::prelude::*;
use vstd::arithmetic::div_mod::{
    lemma_div_multiples_vanish, lemma_fundamental_div_mod, lemma_fundamental_div_mod_converse,
    lemma_mod_bound, lemma_mod_breakdown, lemma_mod_multiples_basic, lemma_mod_multiples_vanish,
    lemma_small_mod,
};

verus! {

/// An exact signed mixed number.
///
/// * `den == 0` marks a pure integer: the value is `value` and `num` is zero
///   after normalization.
/// * `den != 0` marks a mixed number `value + num/den` (the two parts are
///   added, so a negative value carries its sign on both nonzero parts).
///
/// The raw fields may hold anything; `simplify` (and every constructor that
/// calls it) establishes `is_normalized`. Arithmetic whose exact result would
/// leave the fixed-width fields collapses to the signed integer extreme
/// (`i32::MAX` or `i32::MIN`): overflow is treated as a reported edge, never
/// wrapped silently.
#[derive(Debug, Clone, Copy, PartialEq, Eq, Structural)]
pub struct MixedRational {
    pub value: i32,
    pub num: i32,
    pub den: u32,
}

/// Magnitude of an `i32`, as a mathematical integer.
pub open spec fn abs_i32(x: i32) -> int {
    if x < 0 {
        -(x as int)
    } else {
        x as int
    }
}

/// Euclid's greatest common divisor.
pub open spec fn gcd(a: nat, b: nat) -> nat
    decreases b,
{
    if b == 0 {
        a
    } else {
        gcd(b, a % b)
    }
}

/// -1 for a negative sign, +1 otherwise.
pub open spec fn sgn(neg: bool) -> int {
    if neg {
        -1
    } else {
        1
    }
}

pub open spec fn in_i32(x: int) -> bool {
    i32::MIN <= x <= i32::MAX
}

/// The value that stands in for a result whose normalized form does not fit
/// the fixed-width fields: the signed integer extreme.
pub open spec fn saturated(neg: bool) -> MixedRational {
    MixedRational { value: if neg { i32::MIN } else { i32::MAX }, num: 0, den: 0 }
}

/// Normalized form of the signed fraction `sgn(neg) * n / d`, where `d == 0`
/// stands for the zero fraction. The magnitude is reduced by the greatest
/// common divisor, split into a whole part and a remainder, and the sign is
/// re-attached to every nonzero part; a result that does not fit saturates.
pub open spec fn spec_build(neg: bool, n: int, d: int) -> MixedRational
    recommends
        0 <= n,
        0 <= d,
{
    if d == 0 {
        MixedRational { value: 0, num: 0, den: 0 }
    } else {
        let g = gcd(n as nat, d as nat) as int;
        let n1 = n / g;
        let d1 = d / g;
        let w = n1 / d1;
        let r = n1 % d1;
        if r == 0 {
            if in_i32(sgn(neg) * w) {
                MixedRational { value: (sgn(neg) * w) as i32, num: 0, den: 0 }
            } else {
                saturated(neg)
            }
        } else if w == 0 {
            if in_i32(sgn(neg) * r) && d1 <= u32::MAX {
                MixedRational { value: 0, num: (sgn(neg) * r) as i32, den: d1 as u32 }
            } else {
                saturated(neg)
            }
        } else {
            if in_i32(sgn(neg) * w) && in_i32(sgn(neg) * r) && d1 <= u32::MAX {
                MixedRational {
                    value: (sgn(neg) * w) as i32,
                    num: (sgn(neg) * r) as i32,
                    den: d1 as u32,
                }
            } else {
                saturated(neg)
            }
        }
    }
}

/// The sign a value's parts carry together: negative when exactly one of the
/// two signed fields is negative.
pub open spec fn sign_neg(q: MixedRational) -> bool {
    (q.value < 0) != (q.num < 0)
}

/// Unsigned numerator of the value written as a single fraction.
pub open spec fn mag_num(q: MixedRational) -> int {
    if q.den != 0 {
        abs_i32(q.num) + q.den * abs_i32(q.value)
    } else {
        abs_i32(q.value)
    }
}

/// Denominator of the value written as a single fraction (1 for a pure
/// integer).
pub open spec fn mag_den(q: MixedRational) -> int {
    if q.den != 0 {
        q.den as int
    } else {
        1
    }
}

/// What `simplify` returns.
pub open spec fn spec_simplify(q: MixedRational) -> MixedRational {
    spec_build(sign_neg(q), mag_num(q), mag_den(q))
}

/// The invariant every normalized value satisfies: a pure integer carries no
/// numerator; a fractional value keeps `0 < |num| < den` with `num` and `den`
/// coprime; and the two signed parts never carry opposite signs.
pub open spec fn is_normalized(q: MixedRational) -> bool {
    &&& (q.den == 0 ==> q.num == 0)
    &&& (q.den != 0 ==> 0 < abs_i32(q.num) < q.den && gcd(abs_i32(q.num) as nat, q.den as nat)
        == 1)
    &&& !(q.value < 0 && q.num > 0)
    &&& !(q.value > 0 && q.num < 0)
}

proof fn lemma_gcd_pos(a: nat, b: nat)
    requires
        a > 0 || b > 0,
    ensures
        gcd(a, b) > 0,
    decreases b,
{
    if b > 0 {
        lemma_gcd_pos(b, a % b);
    }
}

proof fn lemma_gcd_divides(a: nat, b: nat)
    requires
        b > 0,
    ensures
        a % gcd(a, b) == 0,
        b % gcd(a, b) == 0,
    decreases b,
{
    let g = gcd(a, b);
    let m = a % b;
    lemma_mod_bound(a as int, b as int);
    if m == 0 {
        assert(gcd(b, 0) == b);
        assert(g == b);
        assert(a % b == 0);
        lemma_mod_bound(b as int, b as int);
        lemma_fundamental_div_mod(b as int, b as int);
        assert(b % b == 0) by (nonlinear_arith)
            requires b > 0;
    } else {
        lemma_gcd_pos(b, m);
        lemma_gcd_divides(b, m);
        assert(g == gcd(b, m));
        lemma_fundamental_div_mod(a as int, b as int);
        // a == b * (a / b) + m, with b and m both multiples of g
        lemma_fundamental_div_mod(b as int, g as int);
        lemma_fundamental_div_mod(m as int, g as int);
        let k1 = b as int / g as int;
        let k2 = m as int / g as int;
        assert(a as int == g as int * (k1 * (a as int / b as int) + k2)) by (nonlinear_arith)
            requires
                a as int == b as int * (a as int / b as int) + m,
                b as int == g * k1,
                m as int == g * k2,
        ;
        let k = k1 * (a as int / b as int) + k2;
        assert(k >= 0) by (nonlinear_arith)
            requires
                g as int * k == a,
                a >= 0,
                g > 0,
        ;
        assert((g * (k as nat)) % g == 0) by (nonlinear_arith)
            requires g > 0;
        assert(a % g == 0);
    }
}

proof fn lemma_gcd_greatest(a: nat, b: nat, d: nat)
    requires
        d > 0,
        a % d == 0,
        b % d == 0,
    ensures
        gcd(a, b) % d == 0,
    decreases b,
{
    if b == 0 {
        assert(gcd(a, b) == a);
    } else {
        let m = a % b;
        lemma_mod_bound(a as int, b as int);
        lemma_fundamental_div_mod(a as int, b as int);
        lemma_fundamental_div_mod(a as int, d as int);
        lemma_fundamental_div_mod(b as int, d as int);
        let qa = a as int / d as int;
        let qb = b as int / d as int;
        assert(m as int == d as int * (qa - qb * (a as int / b as int))) by (nonlinear_arith)
            requires
                a as int == b as int * (a as int / b as int) + m,
                a as int == d * qa,
                b as int == d * qb,
        ;
        let k = qa - qb * (a as int / b as int);
        assert(k >= 0) by (nonlinear_arith)
            requires
                d as int * k == m,
                m >= 0,
                d > 0,
        ;
        assert((d * (k as nat)) % d == 0) by (nonlinear_arith)
            requires d > 0;
        assert(m % d == 0);
        lemma_gcd_greatest(b, m, d);
    }
}

proof fn lemma_gcd_comm(a: nat, b: nat)
    ensures
        gcd(a, b) == gcd(b, a),
{
    if a == 0 && b == 0 {
        assert(gcd(0, 0) == 0);
    } else if a == 0 {
        lemma_small_mod(0, b);
        assert(gcd(0, b) == gcd(b, 0));
    } else if b == 0 {
        lemma_small_mod(0, a);
        assert(gcd(a, 0) == gcd(0, a));
    } else {
        let g1 = gcd(a, b);
        let g2 = gcd(b, a);
        lemma_gcd_pos(a, b);
        lemma_gcd_pos(b, a);
        lemma_gcd_divides(a, b);
        lemma_gcd_divides(b, a);
        lemma_gcd_greatest(b, a, g1);
        lemma_gcd_greatest(a, b, g2);
        // each divides the other, and both are positive
        lemma_fundamental_div_mod(g2 as int, g1 as int);
        lemma_fundamental_div_mod(g1 as int, g2 as int);
        assert(g1 <= g2) by (nonlinear_arith)
            requires
                g1 > 0,
                g2 > 0,
                g1 as int == g2 as int * (g1 as int / g2 as int),
                g2 as int == g1 as int * (g2 as int / g1 as int),
        ;
        assert(g2 <= g1) by (nonlinear_arith)
            requires
                g1 > 0,
                g2 > 0,
                g1 as int == g2 as int * (g1 as int / g2 as int),
                g2 as int == g1 as int * (g2 as int / g1 as int),
        ;
    }
}

/// Adding a multiple of `b` to `a` leaves the greatest common divisor alone.
proof fn lemma_gcd_add_multiple(a: nat, b: nat, k: nat)
    requires
        b > 0,
    ensures
        gcd(a + k * b, b) == gcd(a, b),
{
    lemma_mod_multiples_vanish(k as int, a as int, b as int);
    assert(b as int * k as int == k as int * b as int) by (nonlinear_arith);
    assert((a + k * b) % b == a % b);
    assert(gcd(a + k * b, b) == gcd(b, (a + k * b) % b));
    assert(gcd(a, b) == gcd(b, a % b));
}

proof fn lemma_gcd_quotients_coprime(a: nat, b: nat)
    requires
        b > 0,
    ensures
        gcd(a / gcd(a, b), b / gcd(a, b)) == 1,
{
    let g = gcd(a, b);
    lemma_gcd_pos(a, b);
    lemma_gcd_divides(a, b);
    lemma_fundamental_div_mod(a as int, g as int);
    lemma_fundamental_div_mod(b as int, g as int);
    let a1 = a / g;
    let b1 = b / g;
    assert(a == g * a1);
    assert(b == g * b1);
    assert(b1 > 0) by (nonlinear_arith)
        requires
            b as int == g as int * b1,
            b > 0,
            g > 0,
    ;
    let g2 = gcd(a1, b1);
    lemma_gcd_pos(a1, b1);
    lemma_gcd_divides(a1, b1);
    lemma_fundamental_div_mod(a1 as int, g2 as int);
    lemma_fundamental_div_mod(b1 as int, g2 as int);
    let a2 = a1 / g2;
    let b2 = b1 / g2;
    let gg = g * g2;
    assert(a == gg * a2 && b == gg * b2) by (nonlinear_arith)
        requires
            a == g * a1,
            b == g * b1,
            a1 as int == g2 as int * a2,
            b1 as int == g2 as int * b2,
            gg == g * g2,
    ;
    assert(gg > 0) by (nonlinear_arith)
        requires
            g > 0,
            g2 > 0,
            gg == g * g2,
    ;
    lemma_mod_multiples_basic(a2 as int, gg as int);
    lemma_mod_multiples_basic(b2 as int, gg as int);
    assert(a2 as int * gg as int == gg as int * a2 as int && b2 as int * gg as int == gg as int
        * b2 as int) by (nonlinear_arith);
    assert(a % gg == 0 && b % gg == 0);
    lemma_gcd_greatest(a, b, gg);
    lemma_fundamental_div_mod(g as int, gg as int);
    assert(g2 == 1) by (nonlinear_arith)
        requires
            g > 0,
            g2 > 0,
            gg == g * g2,
            g as int == gg as int * (g as int / gg as int),
    ;
}

proof fn lemma_gcd_one(a: nat)
    ensures
        gcd(a, 1) == 1,
{
    lemma_small_mod(0, 1);
    assert(a % 1 == 0) by (nonlinear_arith);
    assert(gcd(a, 1) == gcd(1, 0));
}

/// Scaling both arguments scales the greatest common divisor.
proof fn lemma_gcd_scale(k: nat, a: nat, b: nat)
    requires
        k >= 1,
    ensures
        gcd(k * a, k * b) == k * gcd(a, b),
    decreases b,
{
    if b == 0 {
        assert(k * b == 0) by (nonlinear_arith)
            requires b == 0;
        assert(gcd(k * a, 0) == k * a);
    } else {
        assert(k * b > 0) by (nonlinear_arith)
            requires
                k >= 1,
                b > 0,
        ;
        lemma_mod_breakdown(k as int * a as int, k as int, b as int);
        lemma_mod_multiples_basic(a as int, k as int);
        assert(k as int * a as int == a as int * k as int) by (nonlinear_arith);
        assert((k * a) % k == 0);
        vstd::arithmetic::div_mod::lemma_div_multiples_vanish(a as int, k as int);
        assert((k as int * a as int) / k as int == a as int);
        assert((k * a) % (k * b) == k * (a % b));
        lemma_gcd_scale(k, b, a % b);
        assert(gcd(k * a, k * b) == gcd(k * b, (k * a) % (k * b)));
        assert(gcd(a, b) == gcd(b, a % b));
    }
}

/// Euclid's lemma: a factor coprime to `b` can be cancelled from a multiple
/// of `b`.
proof fn lemma_coprime_divides(a: nat, b: nat, c: nat)
    requires
        b >= 1,
        gcd(a, b) == 1,
        (a * c) % b == 0,
    ensures
        c % b == 0,
{
    if c == 0 {
        lemma_small_mod(0, b);
        assert(c % b == 0);
    } else {
        lemma_gcd_scale(c, a, b);
        assert(gcd(c * a, c * b) == c * gcd(a, b));
        assert(c * gcd(a, b) == c) by (nonlinear_arith)
            requires gcd(a, b) == 1;
        assert(c * a == a * c) by (nonlinear_arith);
        assert(c * b == b * c) by (nonlinear_arith);
        // b divides both c*a and c*b, so it divides their gcd, which is c
        lemma_mod_multiples_basic(c as int, b as int);
        assert((c * b) % b == 0) by (nonlinear_arith)
            requires
                b >= 1,
                (c as int * b as int) % b as int == 0,
        ;
        lemma_gcd_greatest(c * a, c * b, b);
        assert(gcd(c * a, c * b) % b == 0);
        assert(c % b == 0);
    }
}

/// Two cross-equal nonnegative fractions reduce to the same pair, so the
/// builder returns the same normalized value for both.
proof fn lemma_build_cross_equal(neg: bool, a: int, b: int, c: int, d: int)
    requires
        0 <= a,
        1 <= b,
        0 <= c,
        1 <= d,
        a * d == c * b,
    ensures
        spec_build(neg, a, b) == spec_build(neg, c, d),
{
    let ga = gcd(a as nat, b as nat) as int;
    let gc = gcd(c as nat, d as nat) as int;
    lemma_gcd_pos(a as nat, b as nat);
    lemma_gcd_pos(c as nat, d as nat);
    lemma_gcd_divides(a as nat, b as nat);
    lemma_gcd_divides(c as nat, d as nat);
    lemma_fundamental_div_mod(a, ga);
    lemma_fundamental_div_mod(b, ga);
    lemma_fundamental_div_mod(c, gc);
    lemma_fundamental_div_mod(d, gc);
    let a1 = a / ga;
    let b1 = b / ga;
    let c1 = c / gc;
    let d1 = d / gc;
    lemma_gcd_quotients_coprime(a as nat, b as nat);
    lemma_gcd_quotients_coprime(c as nat, d as nat);
    assert(a1 >= 0 && b1 >= 1 && c1 >= 0 && d1 >= 1) by (nonlinear_arith)
        requires
            ga >= 1,
            gc >= 1,
            a >= 0,
            b >= 1,
            c >= 0,
            d >= 1,
            a == ga * a1,
            b == ga * b1,
            c == gc * c1,
            d == gc * d1,
    ;
    // the reduced pairs are cross-equal too
    assert(a1 * d1 == c1 * b1) by (nonlinear_arith)
        requires
            a == ga * a1,
            b == ga * b1,
            c == gc * c1,
            d == gc * d1,
            a * d == c * b,
            ga >= 1,
            gc >= 1,
    ;
    // each reduced denominator divides the other
    assert((a1 as nat * d1 as nat) % (b1 as nat) == 0) by (nonlinear_arith)
        requires
            a1 >= 0,
            b1 >= 1,
            c1 >= 0,
            d1 >= 1,
            a1 * d1 == c1 * b1,
    ;
    assert((c1 as nat * b1 as nat) % (d1 as nat) == 0) by (nonlinear_arith)
        requires
            a1 >= 0,
            b1 >= 1,
            c1 >= 0,
            d1 >= 1,
            a1 * d1 == c1 * b1,
    ;
    lemma_coprime_divides(a1 as nat, b1 as nat, d1 as nat);
    lemma_coprime_divides(c1 as nat, d1 as nat, b1 as nat);
    lemma_fundamental_div_mod(d1, b1);
    lemma_fundamental_div_mod(b1, d1);
    assert(b1 == d1) by (nonlinear_arith)
        requires
            b1 >= 1,
            d1 >= 1,
            d1 == b1 * (d1 / b1),
            b1 == d1 * (b1 / d1),
    ;
    assert(a1 == c1) by (nonlinear_arith)
        requires
            b1 == d1,
            d1 >= 1,
            a1 * d1 == c1 * b1,
    ;
}

/// The builder preserves the fraction it was handed: the result's own
/// fraction form is cross-equal to the input, provided nothing saturated.
/// `build_fits` names that side condition.
pub open spec fn build_fits(neg: bool, n: int, d: int) -> bool {
    d >= 1 && {
        let g = gcd(n as nat, d as nat) as int;
        let n1 = n / g;
        let d1 = d / g;
        let w = n1 / d1;
        let r = n1 % d1;
        if r == 0 {
            in_i32(sgn(neg) * w)
        } else if w == 0 {
            in_i32(sgn(neg) * r) && d1 <= u32::MAX
        } else {
            in_i32(sgn(neg) * w) && in_i32(sgn(neg) * r) && d1 <= u32::MAX
        }
    }
}

proof fn lemma_build_value_pos(n: int, d: int)
    requires
        0 <= n,
        1 <= d,
        build_fits(false, n, d),
    ensures
        spec_build(false, n, d).value >= 0,
        spec_build(false, n, d).num >= 0,
        mag_den(spec_build(false, n, d)) >= 1,
        mag_num(spec_build(false, n, d)) * d == n * mag_den(spec_build(false, n, d)),
{
    let g = gcd(n as nat, d as nat) as int;
    lemma_gcd_pos(n as nat, d as nat);
    lemma_gcd_divides(n as nat, d as nat);
    lemma_fundamental_div_mod(n, g);
    lemma_fundamental_div_mod(d, g);
    let n1 = n / g;
    let d1 = d / g;
    assert(n1 >= 0 && d1 >= 1) by (nonlinear_arith)
        requires
            g >= 1,
            n >= 0,
            d >= 1,
            n == g * n1,
            d == g * d1,
    ;
    let w = n1 / d1;
    let r = n1 % d1;
    lemma_fundamental_div_mod(n1, d1);
    lemma_mod_bound(n1, d1);
    assert(w >= 0) by (nonlinear_arith)
        requires
            n1 >= 0,
            d1 >= 1,
            w == n1 / d1,
    ;
    let b = spec_build(false, n, d);
    // cross-equality of the reduced pair with the input pair
    assert(n1 * d == n * d1) by (nonlinear_arith)
        requires
            n == g * n1,
            d == g * d1,
    ;
    if r == 0 {
        assert(b == (MixedRational { value: w as i32, num: 0, den: 0 }));
        assert(mag_num(b) == w && mag_den(b) == 1);
        // n1 == d1 * w exactly, so w / 1 equals n1 / d1
        assert(w * d == n * 1) by (nonlinear_arith)
            requires
                n1 == d1 * w + r,
                r == 0,
                n1 * d == n * d1,
                d1 >= 1,
                d >= 1,
        ;
    } else {
        assert(mag_num(b) == r + d1 * w && mag_den(b) == d1);
        assert(mag_num(b) == n1);
        assert(n1 * d == n * d1);
    }
}

/// What `spec_build` returns is always normalized.
pub proof fn lemma_build_normalized(neg: bool, n: int, d: int)
    requires
        0 <= n,
        0 <= d,
    ensures
        is_normalized(spec_build(neg, n, d)),
{
    if d == 0 {
    } else {
        let g = gcd(n as nat, d as nat) as int;
        lemma_gcd_pos(n as nat, d as nat);
        lemma_gcd_divides(n as nat, d as nat);
        lemma_fundamental_div_mod(n, g);
        lemma_fundamental_div_mod(d, g);
        let n1 = n / g;
        let d1 = d / g;
        assert(n1 >= 0 && d1 >= 1) by (nonlinear_arith)
            requires
                g > 0,
                n >= 0,
                d > 0,
                n == g * n1,
                d == g * d1,
        ;
        lemma_gcd_quotients_coprime(n as nat, d as nat);
        assert(gcd(n1 as nat, d1 as nat) == 1);
        let w = n1 / d1;
        let r = n1 % d1;
        assert(0 <= r < d1 && w >= 0) by (nonlinear_arith)
            requires
                d1 >= 1,
                n1 >= 0,
                w == n1 / d1,
                r == n1 % d1,
        ;
        if r != 0 {
            // coprimality carries from (n1, d1) to (r, d1)
            assert(gcd(n1 as nat, d1 as nat) == gcd(d1 as nat, (n1 as nat) % (d1 as nat)));
            assert((n1 as nat) % (d1 as nat) == r as nat);
            lemma_gcd_comm(r as nat, d1 as nat);
            assert(gcd(r as nat, d1 as nat) == 1);
        }
    }
}

/// Signed numerator of the value a quantity stands for, under the same sign
/// convention `simplify` uses (the two parts pre-multiplied into one signed
/// magnitude). The full value is `rat_num(q) / mag_den(q)`.
pub open spec fn rat_num(q: MixedRational) -> int {
    sgn(sign_neg(q)) * mag_num(q)
}

pub proof fn lemma_mag_nonneg(q: MixedRational)
    ensures
        mag_num(q) >= 0,
        mag_den(q) >= 1,
{
    if q.den != 0 {
        assert(q.den as int * abs_i32(q.value) >= 0) by (nonlinear_arith)
            requires
                q.den as int >= 0,
                abs_i32(q.value) >= 0,
        ;
    }
}

/// A normalized value whose parts do not both carry a negative sign is a
/// fixed point of normalization.
#[verifier::rlimit(30)]
pub proof fn lemma_simplify_fixed(q: MixedRational)
    requires
        is_normalized(q),
        !(q.value < 0 && q.num < 0),
    ensures
        spec_simplify(q) == q,
{
    if q.den == 0 {
        let m = abs_i32(q.value);
        lemma_gcd_one(m as nat);
        assert(m / 1 == m && m % 1 == 0 && 1int / 1 == 1) by (nonlinear_arith)
            requires m >= 0;
        assert(spec_simplify(q) == q);
    } else {
        let an = abs_i32(q.num);
        let av = abs_i32(q.value);
        let d = q.den as int;
        let mag = an + d * av;
        lemma_mag_nonneg(q);
        lemma_gcd_add_multiple(an as nat, d as nat, av as nat);
        assert(an + (av as nat) * (d as nat) == mag) by (nonlinear_arith)
            requires
                an >= 0,
                av >= 0,
                d >= 1,
                mag == an + d * av,
        ;
        assert(gcd(mag as nat, d as nat) == gcd(an as nat, d as nat));
        assert(gcd(mag as nat, d as nat) == 1);
        assert(mag / 1int == mag && d / 1int == d) by (nonlinear_arith)
            requires
                mag >= 0,
                d >= 1,
        ;
        assert(mag == av * d + an) by (nonlinear_arith)
            requires mag == an + d * av;
        lemma_fundamental_div_mod_converse(mag, d, av, an);
        // the quotient is |value| and the remainder is |num|
        assert(mag / d == av && mag % d == an);
        assert(an > 0);
        let s = sgn(sign_neg(q));
        if av == 0 {
            assert(q.value == 0);
            assert(s * an == q.num as int);
            assert(in_i32(s * an));
            assert(d <= u32::MAX);
            assert(spec_simplify(q) == q);
        } else {
            // signs: the parts are sign-consistent and not both negative,
            // and num is nonzero, so both are nonnegative
            assert(q.num > 0 && q.value > 0);
            assert(!sign_neg(q));
            assert(s * av == q.value as int && s * an == q.num as int);
            assert(in_i32(s * av) && in_i32(s * an) && d <= u32::MAX);
            assert(spec_simplify(q) == q);
        }
    }
}

/// Normalization is idempotent: re-normalizing a normalized result changes
/// nothing. The one family of inputs left out: a value whose normalized form
/// is negative with both parts nonzero, where the sign-product convention
/// flips the sign back to positive.
pub proof fn lemma_normalize_idempotent(q: MixedRational)
    requires
        !(spec_simplify(q).value < 0 && spec_simplify(q).num < 0),
    ensures
        spec_simplify(spec_simplify(q)) == spec_simplify(q),
{
    lemma_mag_nonneg(q);
    lemma_build_normalized(sign_neg(q), mag_num(q), mag_den(q));
    lemma_simplify_fixed(spec_simplify(q));
}

/// Normalization establishes the representation invariant: in particular a
/// fractional result keeps `0 < |num| < den` with `num` and `den` coprime.
pub proof fn lemma_simplify_establishes_invariant(q: MixedRational)
    ensures
        is_normalized(spec_simplify(q)),
        spec_simplify(q).den != 0 ==> 0 <= abs_i32(spec_simplify(q).num) < spec_simplify(q).den
            && gcd(abs_i32(spec_simplify(q).num) as nat, spec_simplify(q).den as nat) == 1,
{
    lemma_mag_nonneg(q);
    lemma_build_normalized(sign_neg(q), mag_num(q), mag_den(q));
}

/// What multiplying two quantities returns: the fraction forms multiplied
/// term by term, under the product of the four field signs.
pub open spec fn spec_mul(a: MixedRational, b: MixedRational) -> MixedRational {
    spec_build(sign_neg(a) != sign_neg(b), mag_num(a) * mag_num(b), mag_den(a) * mag_den(b))
}

/// What dividing two quantities returns: the fraction forms cross-multiplied.
/// A zero divisor yields the zero quantity (its fraction form has numerator
/// zero, which the builder reads as the zero-denominator sentinel).
pub open spec fn spec_div(a: MixedRational, b: MixedRational) -> MixedRational {
    spec_build(sign_neg(a) != sign_neg(b), mag_num(a) * mag_den(b), mag_den(a) * mag_num(b))
}

/// What scaling by an unsigned integer returns.
pub open spec fn spec_mul_scalar(a: MixedRational, k: u32) -> MixedRational {
    spec_build(sign_neg(a), k * mag_num(a), mag_den(a))
}

/// The cross-multiplication comparison: both sides are brought over the
/// common product of the two denominators, the whole parts pre-multiplied by
/// it. Pure-integer left-hand sides compare by the `value` fields alone.
pub open spec fn spec_cmp(a: MixedRational, b: MixedRational) -> core::cmp::Ordering {
    if a.den != 0 {
        let dd = (a.den as int) * (b.den as int);
        three_way(dd * (a.num as int) + (a.value as int) * dd, dd * (b.num as int) + (b.value as int) * dd)
    } else {
        three_way(a.value as int, b.value as int)
    }
}

pub open spec fn three_way(x: int, y: int) -> core::cmp::Ordering {
    if x < y {
        core::cmp::Ordering::Less
    } else if x == y {
        core::cmp::Ordering::Equal
    } else {
        core::cmp::Ordering::Greater
    }
}

/// On normalized pure integers the cross-multiplication comparator agrees
/// exactly with the numeric order of the values. (On fractional values it
/// does not: it weighs `num` against `num` regardless of the denominators,
/// which is kept as the system's observable comparison behaviour.)
pub proof fn lemma_cmp_consistent_integers(a: MixedRational, b: MixedRational)
    requires
        is_normalized(a),
        is_normalized(b),
        a.den == 0,
        b.den == 0,
    ensures
        spec_cmp(a, b) == core::cmp::Ordering::Less <==> rat_num(a) < rat_num(b),
        spec_cmp(a, b) == core::cmp::Ordering::Equal <==> rat_num(a) == rat_num(b),
        spec_cmp(a, b) == core::cmp::Ordering::Greater <==> rat_num(a) > rat_num(b),
{
    assert(rat_num(a) == a.value as int);
    assert(rat_num(b) == b.value as int);
    assert(spec_cmp(a, b) == three_way(a.value as int, b.value as int));
}

/// Normalizing a nonnegative value preserves the rational it stands for:
/// the normalized fraction form is cross-equal to the original one,
/// provided the normalized form fits the fixed-width fields.
pub proof fn lemma_simplify_preserves_value(q: MixedRational)
    requires
        q.value >= 0,
        q.num >= 0,
        build_fits(false, mag_num(q), mag_den(q)),
    ensures
        rat_num(spec_simplify(q)) * mag_den(q) == rat_num(q) * mag_den(spec_simplify(q)),
{
    lemma_mag_nonneg(q);
    assert(!sign_neg(q));
    lemma_build_value_pos(mag_num(q), mag_den(q));
    let b = spec_simplify(q);
    assert(!sign_neg(b));
    assert(rat_num(b) == mag_num(b) && rat_num(q) == mag_num(q));
}

/// Dividing a nonnegative normalized quantity by a factor and then by that
/// factor's exact inverse returns the quantity unchanged, provided the
/// intermediate value fits the fixed-width fields.
pub proof fn lemma_div_round_trip(q: MixedRational, f: MixedRational, g: MixedRational)
    requires
        is_normalized(q),
        q.value >= 0,
        q.num >= 0,
        f.value >= 0,
        f.num >= 0,
        g.value >= 0,
        g.num >= 0,
        mag_num(f) >= 1,
        mag_num(g) >= 1,
        mag_num(f) * mag_num(g) == mag_den(f) * mag_den(g),
        build_fits(false, mag_num(q) * mag_den(f), mag_den(q) * mag_num(f)),
    ensures
        spec_div(spec_div(q, f), g) == q,
{
    lemma_mag_nonneg(q);
    lemma_mag_nonneg(f);
    lemma_mag_nonneg(g);
    let nq = mag_num(q);
    let dq = mag_den(q);
    let nf = mag_num(f);
    let df = mag_den(f);
    let ng = mag_num(g);
    let dg = mag_den(g);
    assert(!sign_neg(q) && !sign_neg(f) && !sign_neg(g));
    let n1 = nq * df;
    let d1 = dq * nf;
    assert(n1 >= 0 && d1 >= 1) by (nonlinear_arith)
        requires
            nq >= 0,
            df >= 1,
            dq >= 1,
            nf >= 1,
            n1 == nq * df,
            d1 == dq * nf,
    ;
    let r1 = spec_div(q, f);
    assert(r1 == spec_build(false, n1, d1));
    lemma_build_value_pos(n1, d1);
    lemma_mag_nonneg(r1);
    let m = mag_num(r1);
    let e = mag_den(r1);
    assert(!sign_neg(r1));
    assert(spec_div(r1, g) == spec_build(false, m * dg, e * ng));
    // carry the cross-equality through the second division: from
    // m * d1 == n1 * e and nf * ng == df * dg, cancel the positive nf
    assert((m * dg) * dq == nq * (e * ng)) by (nonlinear_arith)
        requires
            m * d1 == n1 * e,
            n1 == nq * df,
            d1 == dq * nf,
            nf * ng == df * dg,
            nf >= 1,
            dq >= 1,
            dg >= 1,
            e >= 1,
            m >= 0,
            nq >= 0,
    ;
    assert(m * dg >= 0 && e * ng >= 1) by (nonlinear_arith)
        requires
            m >= 0,
            dg >= 1,
            e >= 1,
            ng >= 1,
    ;
    lemma_build_cross_equal(false, m * dg, e * ng, nq, dq);
    lemma_simplify_fixed(q);
    assert(spec_build(false, nq, dq) == spec_simplify(q));
}

impl MixedRational {
    /// Multiplies two quantities exactly and normalizes the product.
    pub fn mul(self, rhs: Self) -> (r: Self)
        ensures
            r == spec_mul(self, rhs),
            is_normalized(r),
    {
        let neg = ((self.value < 0) != (self.num < 0)) != ((rhs.value < 0) != (rhs.num < 0));
        let (nl, dl) = frac_parts(self);
        let (nr, dr) = frac_parts(rhs);
        proof {
            lemma_mag_nonneg(self);
            lemma_mag_nonneg(rhs);
            assert((nl as int) * (nr as int) <= 0xFFFF_FFFF_FFFF_FFFF * 0xFFFF_FFFF_FFFF_FFFF
                && (dl as int) * (dr as int) <= 0xFFFF_FFFF_FFFF_FFFF * 0xFFFF_FFFF_FFFF_FFFF
                && (nl as int) * (nr as int) >= 0 && (dl as int) * (dr as int) >= 0)
                by (nonlinear_arith)
                requires
                    0 <= nl <= 0xFFFF_FFFF_FFFF_FFFFu64,
                    0 <= nr <= 0xFFFF_FFFF_FFFF_FFFFu64,
                    0 <= dl <= 0xFFFF_FFFF_FFFF_FFFFu64,
                    0 <= dr <= 0xFFFF_FFFF_FFFF_FFFFu64,
            ;
            lemma_build_normalized(neg, mag_num(self) * mag_num(rhs), mag_den(self) * mag_den(rhs));
        }
        build(neg, (nl as u128) * (nr as u128), (dl as u128) * (dr as u128))
    }

    /// Divides two quantities exactly (fraction forms cross-multiplied) and
    /// normalizes the result. Dividing by zero yields zero.
    pub fn div(self, rhs: Self) -> (r: Self)
        ensures
            r == spec_div(self, rhs),
            is_normalized(r),
    {
        let neg = ((self.value < 0) != (self.num < 0)) != ((rhs.value < 0) != (rhs.num < 0));
        let (nl, dl) = frac_parts(self);
        let (nr, dr) = frac_parts(rhs);
        proof {
            lemma_mag_nonneg(self);
            lemma_mag_nonneg(rhs);
            assert((nl as int) * (dr as int) <= 0xFFFF_FFFF_FFFF_FFFF * 0xFFFF_FFFF_FFFF_FFFF
                && (dl as int) * (nr as int) <= 0xFFFF_FFFF_FFFF_FFFF * 0xFFFF_FFFF_FFFF_FFFF
                && (nl as int) * (dr as int) >= 0 && (dl as int) * (nr as int) >= 0)
                by (nonlinear_arith)
                requires
                    0 <= nl <= 0xFFFF_FFFF_FFFF_FFFFu64,
                    0 <= nr <= 0xFFFF_FFFF_FFFF_FFFFu64,
                    0 <= dl <= 0xFFFF_FFFF_FFFF_FFFFu64,
                    0 <= dr <= 0xFFFF_FFFF_FFFF_FFFFu64,
            ;
            lemma_build_normalized(neg, mag_num(self) * mag_den(rhs), mag_den(self) * mag_num(rhs));
        }
        build(neg, (nl as u128) * (dr as u128), (dl as u128) * (nr as u128))
    }

    /// Scales the quantity by an unsigned integer and normalizes.
    pub fn mul_scalar(self, rhs: u32) -> (r: Self)
        ensures
            r == spec_mul_scalar(self, rhs),
            is_normalized(r),
    {
        let neg = (self.value < 0) != (self.num < 0);
        let (n, d) = frac_parts(self);
        proof {
            lemma_mag_nonneg(self);
            assert((rhs as int) * (n as int) <= 0xFFFF_FFFF * 0xFFFF_FFFF_FFFF_FFFF
                && (rhs as int) * (n as int) >= 0) by (nonlinear_arith)
                requires
                    0 <= rhs <= 0xFFFF_FFFFu32,
                    0 <= n <= 0xFFFF_FFFF_FFFF_FFFFu64,
            ;
            lemma_build_normalized(neg, rhs * mag_num(self), mag_den(self));
        }
        build(neg, (rhs as u128) * (n as u128), d as u128)
    }

    /// The zero quantity.
    pub fn zero() -> (q: Self)
        ensures
            q == (MixedRational { value: 0, num: 0, den: 0 }),
    {
        MixedRational { value: 0, num: 0, den: 0 }
    }

    /// A pure integer quantity. No normalization is needed: the form is
    /// already normalized.
    pub fn whole(v: i32) -> (q: Self)
        ensures
            q == (MixedRational { value: v, num: 0, den: 0 }),
            is_normalized(q),
    {
        MixedRational { value: v, num: 0, den: 0 }
    }

    /// A quantity built from a whole part, a numerator and a denominator,
    /// normalized on construction (`den == 0` means a pure integer).
    pub fn new(w: i32, n: i32, d: u32) -> (q: Self)
        ensures
            q == spec_simplify(MixedRational { value: w, num: n, den: d }),
            is_normalized(q),
    {
        (MixedRational { value: w, num: n, den: d }).simplify()
    }

    /// A pure fraction `n / d`, normalized on construction.
    pub fn fract(n: i32, d: u32) -> (q: Self)
        ensures
            q == spec_simplify(MixedRational { value: 0, num: n, den: d }),
            is_normalized(q),
    {
        (MixedRational { value: 0, num: n, den: d }).simplify()
    }

    /// Builds one fraction per `[num, den]` pair of the list.
    pub fn from_frac_list(l: Vec<[i32; 2]>) -> (r: Vec<Self>)
        ensures
            r@.len() == l@.len(),
            forall|i: int|
                0 <= i < l@.len() ==> r@[i] == spec_simplify(
                    MixedRational { value: 0, num: l@[i][0], den: l@[i][1] as u32 },
                ),
    {
        let mut r: Vec<Self> = Vec::new();
        let mut i: usize = 0;
        while i < l.len()
            invariant
                0 <= i <= l@.len(),
                r@.len() == i,
                forall|j: int|
                    0 <= j < i ==> r@[j] == spec_simplify(
                        MixedRational { value: 0, num: l@[j][0], den: l@[j][1] as u32 },
                    ),
            decreases l@.len() - i,
        {
            let f = l[i];
            r.push(MixedRational::fract(f[0], #[verifier::truncate] (f[1] as u32)));
            i += 1;
        }
        r
    }

    /// Rewrites the value in normalized form: one reduced fraction split into
    /// a whole part and a remainder, the sign re-attached to every nonzero
    /// part, and a zero remainder collapsed to a pure integer. A normalized
    /// magnitude that cannot fit the fields saturates to the signed integer
    /// extreme.
    pub fn simplify(&self) -> (q: Self)
        ensures
            q == spec_simplify(*self),
            is_normalized(q),
    {
        let neg = (self.value < 0) != (self.num < 0);
        let an = abs32(self.num);
        let av = abs32(self.value);
        let n: u128;
        let d: u128;
        if self.den != 0 {
            proof {
                assert((self.den as int) * (av as int) <= 0xFFFF_FFFF * 0xFFFF_FFFF)
                    by (nonlinear_arith)
                    requires
                        self.den <= 0xFFFF_FFFF,
                        0 <= av <= 0xFFFF_FFFF,
                ;
            }
            n = an as u128 + (self.den as u128) * (av as u128);
            d = self.den as u128;
        } else {
            n = av as u128;
            d = 1;
        }
        proof {
            lemma_build_normalized(neg, n as int, d as int);
        }
        build(neg, n, d)
    }
}

impl PartialOrd for MixedRational {
    /// Compares by cross multiplication, computed exactly in wide integers.
    fn partial_cmp(&self, other: &Self) -> (r: Option<core::cmp::Ordering>) {
        if self.den != 0 {
            proof {
                assert((self.den as int) * (other.den as int) <= 0xFFFF_FFFF * 0xFFFF_FFFF
                    && (self.den as int) * (other.den as int) >= 0) by (nonlinear_arith)
                    requires
                        0 <= self.den <= 0xFFFF_FFFFu32,
                        0 <= other.den <= 0xFFFF_FFFFu32,
                ;
            }
            let dd = (self.den as i128) * (other.den as i128);
            proof {
                assert(dd * (self.num as i128) <= dd * 0x8000_0000 && dd * (self.num as i128)
                    >= -(dd * 0x8000_0000) && dd * 0x8000_0000 < 0x1_0000_0000_0000_0000_0000_0000
                    && (self.value as i128) * dd <= dd * 0x8000_0000 && (self.value as i128) * dd
                    >= -(dd * 0x8000_0000) && dd * (other.num as i128) <= dd * 0x8000_0000 && dd * (
                other.num as i128) >= -(dd * 0x8000_0000) && (other.value as i128) * dd <= dd
                    * 0x8000_0000 && (other.value as i128) * dd >= -(dd * 0x8000_0000))
                    by (nonlinear_arith)
                    requires
                        0 <= dd <= 0xFFFF_FFFFi128 * 0xFFFF_FFFF,
                        -0x8000_0000 <= self.num as i128 <= 0x8000_0000,
                        -0x8000_0000 <= self.value as i128 <= 0x8000_0000,
                        -0x8000_0000 <= other.num as i128 <= 0x8000_0000,
                        -0x8000_0000 <= other.value as i128 <= 0x8000_0000,
                ;
            }
            let lhs = dd * (self.num as i128) + (self.value as i128) * dd;
            let rhs = dd * (other.num as i128) + (other.value as i128) * dd;
            if lhs < rhs {
                Some(core::cmp::Ordering::Less)
            } else if lhs == rhs {
                Some(core::cmp::Ordering::Equal)
            } else {
                Some(core::cmp::Ordering::Greater)
            }
        } else {
            if self.value < other.value {
                Some(core::cmp::Ordering::Less)
            } else if self.value == other.value {
                Some(core::cmp::Ordering::Equal)
            } else {
                Some(core::cmp::Ordering::Greater)
            }
        }
    }
}

impl vstd::std_specs::cmp::PartialOrdSpecImpl for MixedRational {
    open spec fn obeys_partial_cmp_spec() -> bool {
        true
    }

    open spec fn partial_cmp_spec(&self, other: &Self) -> Option<core::cmp::Ordering> {
        Some(spec_cmp(*self, *other))
    }
}

impl Default for MixedRational {
    /// The zero quantity.
    fn default() -> (q: Self)
        ensures
            q == (MixedRational { value: 0, num: 0, den: 0 }),
    {
        MixedRational { value: 0, num: 0, den: 0 }
    }
}

impl From<i32> for MixedRational {
    /// A pure integer quantity.
    fn from(v: i32) -> (q: Self) {
        MixedRational::whole(v)
    }
}

impl vstd::std_specs::convert::FromSpecImpl<i32> for MixedRational {
    open spec fn obeys_from_spec() -> bool {
        true
    }

    open spec fn from_spec(v: i32) -> Self {
        MixedRational { value: v, num: 0, den: 0 }
    }
}

/// The value written as one unsigned fraction: `(mag_num, mag_den)`.
fn frac_parts(q: MixedRational) -> (p: (u64, u64))
    ensures
        p.0 as int == mag_num(q),
        p.1 as int == mag_den(q),
{
    let an = abs32(q.num);
    let av = abs32(q.value);
    if q.den != 0 {
        proof {
            assert((q.den as int) * (av as int) <= 0xFFFF_FFFF * 0x8000_0000 && (q.den as int) * (
            av as int) >= 0) by (nonlinear_arith)
                requires
                    0 <= q.den <= 0xFFFF_FFFFu32,
                    0 <= av <= 0x8000_0000u32,
            ;
        }
        (an as u64 + (q.den as u64) * (av as u64), q.den as u64)
    } else {
        (av as u64, 1)
    }
}

/// Magnitude of an `i32`, in a `u32`.
fn abs32(x: i32) -> (m: u32)
    ensures
        m as int == abs_i32(x),
{
    if x >= 0 {
        x as u32
    } else {
        (-(x as i64)) as u32
    }
}

fn gcd_u128(a0: u128, b0: u128) -> (g: u128)
    ensures
        g as nat == gcd(a0 as nat, b0 as nat),
{
    let mut a = a0;
    let mut b = b0;
    while b != 0
        invariant
            gcd(a as nat, b as nat) == gcd(a0 as nat, b0 as nat),
        decreases b,
    {
        proof {
            lemma_mod_bound(a as int, b as int);
        }
        let t = a % b;
        a = b;
        b = t;
    }
    a
}

/// `sgn(neg) * m` as an `i32`, or `None` where it does not fit.
fn to_signed(neg: bool, m: u128) -> (x: Option<i32>)
    ensures
        match x {
            Some(v) => v as int == sgn(neg) * (m as int) && in_i32(sgn(neg) * (m as int)),
            None => !in_i32(sgn(neg) * (m as int)),
        },
{
    if neg {
        if m <= 2147483648 {
            if m == 2147483648 {
                Some(i32::MIN)
            } else {
                Some(-(m as i32))
            }
        } else {
            None
        }
    } else {
        if m <= 2147483647 {
            Some(m as i32)
        } else {
            None
        }
    }
}

/// Normalized form of the signed fraction `sgn(neg) * n / d`.
fn build(neg: bool, n: u128, d: u128) -> (q: MixedRational)
    ensures
        q == spec_build(neg, n as int, d as int),
{
    if d == 0 {
        return MixedRational { value: 0, num: 0, den: 0 };
    }
    let g = gcd_u128(n, d);
    proof {
        lemma_gcd_pos(n as nat, d as nat);
        lemma_gcd_divides(n as nat, d as nat);
        lemma_fundamental_div_mod(d as int, g as int);
        assert(d as int / g as int >= 1) by (nonlinear_arith)
            requires
                g > 0,
                d > 0,
                d as int == g as int * (d as int / g as int),
        ;
    }
    let n1 = n / g;
    let d1 = d / g;
    let w = n1 / d1;
    let r = n1 % d1;
    if r == 0 {
        match to_signed(neg, w) {
            Some(v) => MixedRational { value: v, num: 0, den: 0 },
            None => saturate(neg),
        }
    } else if w == 0 {
        if d1 <= 0xFFFF_FFFF {
            match to_signed(neg, r) {
                Some(nv) => MixedRational { value: 0, num: nv, den: d1 as u32 },
                None => saturate(neg),
            }
        } else {
            saturate(neg)
        }
    } else {
        if d1 <= 0xFFFF_FFFF {
            match (to_signed(neg, w), to_signed(neg, r)) {
                (Some(v), Some(nv)) => MixedRational { value: v, num: nv, den: d1 as u32 },
                _ => saturate(neg),
            }
        } else {
            saturate(neg)
        }
    }
}

fn saturate(neg: bool) -> (q: MixedRational)
    ensures
        q == saturated(neg),
{
    MixedRational { value: if neg { i32::MIN } else { i32::MAX }, num: 0, den: 0 }
}

} // verus!
