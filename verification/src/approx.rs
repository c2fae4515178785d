//! Bounded-digit approximation: both numerator and denominator are divided by
//! a growing common scale until their decimal digit counts fit a budget. The
//! scale grows by the factor 11/10 each round, carried in 64.64 fixed point,
//! and its integer part is the divisor actually applied. This keeps stored
//! conversion factors and displayed fractions human sized; it is an
//! approximation, not a rounding to the nearest n-th.

use vstd::prelude::*;
use crate::mixed_rational::{abs_i32, is_normalized, sgn, spec_simplify, MixedRational};

verus! {

/// One unit in 64.64 fixed point.
pub open spec fn fp_one() -> nat {
    0x1_0000_0000_0000_0000
}

/// Ceiling of the base-ten logarithm: the count of decimal digits needed,
/// with 0 and 1 needing none (a power of ten counts as its exponent).
pub open spec fn clog10(v: nat) -> nat
    decreases v,
{
    if v <= 1 {
        0
    } else {
        1 + clog10((v + 9) / 10)
    }
}

/// Whether the scaled numerator or denominator still holds more digits than
/// the budget allows.
pub open spec fn digits_exceed(num: nat, den: nat, digits: nat, cur: nat) -> bool
    recommends
        cur >= 1,
{
    clog10(num / cur) > digits || clog10(den / cur) > digits
}

/// The divisor the approximation loop settles on: starting from scale
/// `div_fp` (fixed point) with integer part `cur` at round `i`, grow the
/// scale by 11/10 until the digit budget is met, a round would drive either
/// part to zero (the previous scale is kept), or the round cap is hit.
pub open spec fn approx_divisor(num: nat, den: nat, digits: nat, div_fp: nat, cur: nat, i: nat) -> nat
    recommends
        cur >= 1,
        i <= 1000000,
    decreases 1000000 - i,
{
    if i >= 1000000 || !digits_exceed(num, den, digits, cur) {
        cur
    } else {
        let nfp = div_fp * 11 / 10;
        let nd = nfp / fp_one();
        if num / nd == 0 || den / nd == 0 {
            cur
        } else {
            approx_divisor(num, den, digits, nfp, nd, i + 1)
        }
    }
}

/// What `approx_ratio` returns: numerator magnitude and denominator divided
/// by the settled divisor (sign and whole part carried through), normalized.
pub open spec fn spec_approx_ratio(q: MixedRational, digits: nat) -> MixedRational {
    let fdiv = approx_divisor(abs_i32(q.num) as nat, q.den as nat, digits, fp_one(), 1, 0);
    spec_simplify(
        MixedRational {
            value: q.value,
            num: (sgn(q.num < 0) * (abs_i32(q.num) / fdiv as int)) as i32,
            den: (q.den as nat / fdiv) as u32,
        },
    )
}

/// Powers of ten.
pub open spec fn pow10(k: nat) -> nat
    decreases k,
{
    if k == 0 {
        1
    } else {
        10 * pow10((k - 1) as nat)
    }
}

/// A number below the k-th power of ten needs at most k digits.
proof fn lemma_clog10_le(v: nat, k: nat)
    requires
        v <= pow10(k),
    ensures
        clog10(v) <= k,
    decreases k,
{
    if v <= 1 {
    } else {
        assert(k >= 1);
        let m = (v + 9) / 10;
        assert(m <= pow10((k - 1) as nat) && m < v) by (nonlinear_arith)
            requires
                v >= 2,
                m == (v + 9) / 10,
                v <= 10 * pow10((k - 1) as nat),
        ;
        lemma_clog10_le(m, (k - 1) as nat);
    }
}

/// Digit count of `v` (ceiling of log base ten).
pub(crate) fn clog10_u64(v: u64) -> (k: usize)
    ensures
        k as nat == clog10(v as nat),
        k <= 20,
    decreases v,
{
    proof {
        assert(pow10(20) > 0xFFFF_FFFF_FFFF_FFFFu64) by {
            reveal_with_fuel(pow10, 21);
        }
        lemma_clog10_le(v as nat, 20);
    }
    if v <= 1 {
        0
    } else {
        proof {
            assert((v - 1) / 10 + 1 == (v + 9) / 10 && (v + 9) / 10 < v) by (nonlinear_arith)
                requires v >= 2;
        }
        1 + clog10_u64((v - 1) / 10 + 1)
    }
}

impl MixedRational {
    /// Divides numerator and denominator by a growing common scale until both
    /// fit within `digits` decimal digits (or a round would hit zero, or the
    /// round cap is reached), then normalizes.
    pub fn approx_ratio(&self, digits: usize) -> (r: Self)
        ensures
            r == spec_approx_ratio(*self, digits as nat),
            is_normalized(r),
    {
        let num_mag: u64 = abs_i32_u64(self.num);
        let den: u64 = self.den as u64;
        let ghost target = approx_divisor(num_mag as nat, den as nat, digits as nat, fp_one(), 1, 0);
        let mut i: u32 = 0;
        let mut div_fp: u128 = 0x1_0000_0000_0000_0000;
        let mut cur: u64 = 1;
        loop
            invariant
                1 <= cur,
                cur as nat == div_fp as nat / fp_one(),
                fp_one() <= div_fp as nat && (div_fp as nat) < 0x1_0000_0000_0000_0000_0000_0000,
                i <= 1000000,
                num_mag as nat == abs_i32(self.num),
                den == self.den,
                approx_divisor(num_mag as nat, den as nat, digits as nat, div_fp as nat, cur as nat, i as nat)
                    == target,
            ensures
                cur as nat == target,
            decreases 1000000 - i,
        {
            let over = clog10_u64(num_mag / cur) > digits || clog10_u64(den / cur) > digits;
            if !(over && i < 1000000) {
                break;
            }
            let nfp: u128 = div_fp * 11 / 10;
            proof {
                assert(div_fp as nat <= nfp as nat && (nfp as nat) < 0x1_0000_0000_0000_0000_0000_0000 * 11
                    / 10 && (nfp as nat) / fp_one() < 0x1_0000_0000_0000_0000) by (nonlinear_arith)
                    requires
                        fp_one() <= div_fp as nat && (div_fp as nat) < 0x1_0000_0000_0000_0000_0000_0000,
                        nfp as nat == div_fp as nat * 11 / 10,
                        fp_one() == 0x1_0000_0000_0000_0000,
                ;
                assert(nfp as nat / fp_one() >= 1) by (nonlinear_arith)
                    requires
                        nfp as nat >= fp_one(),
                        fp_one() == 0x1_0000_0000_0000_0000,
                ;
            }
            let nd: u64 = (nfp / 0x1_0000_0000_0000_0000) as u64;
            if num_mag / nd == 0 || den / nd == 0 {
                break;
            }
            // the scale only advances while both parts stay nonzero, so its
            // integer part stays within the parts' own range
            proof {
                assert(nd as nat <= num_mag as nat && (nfp as nat) < (num_mag as nat + 1) * fp_one())
                    by (nonlinear_arith)
                    requires
                        num_mag as nat / (nd as nat) >= 1,
                        nd as nat >= 1,
                        nd as nat == nfp as nat / fp_one(),
                        fp_one() == 0x1_0000_0000_0000_0000,
                ;
                assert((num_mag as nat + 1) * fp_one() <= 0x1_0000_0000_0000_0000_0000_0000)
                    by (nonlinear_arith)
                    requires
                        num_mag as nat <= 0x8000_0000,
                        fp_one() == 0x1_0000_0000_0000_0000,
                ;
            }
            div_fp = nfp;
            cur = nd;
            i = i + 1;
        }
        let new_num: i32 = signed_quot(self.num, num_mag / cur);
        let new_den: u32 = (den / cur) as u32;
        proof {
            assert(den as nat / cur as nat <= den as nat) by (nonlinear_arith)
                requires cur >= 1;
            assert(num_mag as nat / cur as nat <= num_mag as nat) by (nonlinear_arith)
                requires cur >= 1;
        }
        MixedRational { value: self.value, num: new_num, den: new_den }.simplify()
    }
}

/// Magnitude of an `i32`, in a `u64`.
fn abs_i32_u64(x: i32) -> (m: u64)
    ensures
        m as int == abs_i32(x),
{
    if x >= 0 {
        x as u64
    } else {
        (-(x as i64)) as u64
    }
}

/// Re-attaches the sign of `orig` to the quotient of its magnitude.
fn signed_quot(orig: i32, q: u64) -> (r: i32)
    requires
        q as int <= abs_i32(orig),
    ensures
        r as int == sgn(orig < 0) * (q as int),
{
    if orig < 0 {
        if q == 2147483648 {
            i32::MIN
        } else {
            -(q as i32)
        }
    } else {
        q as i32
    }
}

} // verus!
