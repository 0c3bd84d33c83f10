//! The numeric capability used for coefficients and exponents.
//!
//! Coefficients are `i64` values with wrapping ring operations, so the
//! ring laws that the rewrite rules rely on hold for every input.
//! Exponentiation is partial: raising a constant other than `1` or `-1`
//! to a negative power has no exact integer value, and the kernel
//! surfaces that as a typed error.

use vstd::prelude::*;
use vstd::arithmetic::div_mod::{lemma_add_mod_noop, lemma_mod_sub_multiples_vanish, lemma_mul_mod_noop_left};

verus! {

/// One past the largest `u64`: the modulus of the wrapping ring.
pub open spec fn ring_size() -> int {
    0x1_0000_0000_0000_0000
}

/// Wrapping sum of two coefficients.
pub open spec fn wadd(a: i64, b: i64) -> i64 {
    vstd::wrapping::i64_specs::wrapping_add(a, b)
}

/// Wrapping product of two coefficients.
pub open spec fn wmul(a: i64, b: i64) -> i64 {
    vstd::wrapping::i64_specs::wrapping_mul(a, b)
}

/// Wrapping negation of a coefficient.
pub open spec fn wneg(a: i64) -> i64 {
    vstd::wrapping::i64_specs::wrapping_sub(0, a)
}

/// Whether `base ^ exp` has an exact integer value.
pub open spec fn pow_ok(base: i64, exp: i64) -> bool {
    exp >= 0 || base == 1 || base == -1
}

/// Wrapping power of a coefficient. For the negative exponents that
/// `pow_ok` allows, the exact value is returned; outside `pow_ok` the
/// result is a placeholder that no verified caller relies on.
pub open spec fn wpow(base: i64, exp: i64) -> i64
    decreases exp,
{
    if exp <= 0 {
        if exp == 0 {
            1
        } else if base == 1 {
            1
        } else if base == -1 {
            if exp % 2 == 0 {
                1
            } else {
                -1i64
            }
        } else {
            0
        }
    } else {
        wmul(base, wpow(base, (exp - 1) as i64))
    }
}

/// Reduction of an unbounded integer into the wrapping ring.
pub open spec fn crop(x: int) -> i64 {
    vstd::wrapping::i64_specs::signed_crop(x)
}

/// The wrapping sum is the cropped exact sum.
pub proof fn lemma_wadd_crop(a: i64, b: i64)
    ensures
        wadd(a, b) == crop(a + b),
{
}

/// The wrapping product is the cropped exact product.
pub proof fn lemma_wmul_crop(a: i64, b: i64)
    ensures
        wmul(a, b) == crop(a * b),
{
}

/// Cropping only looks at the residue class of its argument.
pub proof fn lemma_crop_congruent(x: int, y: int)
    requires
        x % ring_size() == y % ring_size(),
    ensures
        crop(x) == crop(y),
{
}

/// A cropped value stays in the residue class it came from.
pub proof fn lemma_crop_mod(x: int)
    ensures
        (crop(x) as int) % ring_size() == x % ring_size(),
{
    let r = ring_size();
    if x % r > i64::MAX {
        lemma_mod_sub_multiples_vanish(x % r, r);
        assert((x % r - r) % r == (x % r) % r);
    }
}

/// Cropping one addend before a sum does not change the cropped sum.
pub proof fn lemma_crop_add_inner(x: int, c: int)
    ensures
        crop(crop(x) + c) == crop(x + c),
{
    let r = ring_size();
    lemma_crop_mod(x);
    lemma_add_mod_noop(crop(x) as int, c, r);
    lemma_add_mod_noop(x, c, r);
    lemma_crop_congruent(crop(x) + c, x + c);
}

/// Addition of coefficients is commutative.
pub proof fn lemma_wadd_comm(a: i64, b: i64)
    ensures
        wadd(a, b) == wadd(b, a),
{
}

/// Addition of coefficients is associative.
pub proof fn lemma_wadd_assoc(a: i64, b: i64, c: i64)
    ensures
        wadd(wadd(a, b), c) == wadd(a, wadd(b, c)),
{
    lemma_wadd_crop(a, b);
    lemma_wadd_crop(wadd(a, b), c);
    lemma_wadd_crop(b, c);
    lemma_wadd_crop(a, wadd(b, c));
    lemma_crop_add_inner(a + b, c as int);
    lemma_crop_add_inner(b + c, a as int);
    assert(crop(crop(a + b) + c) == crop(a + b + c));
    assert(crop(crop(b + c) + a) == crop(b + c + a));
}

/// Zero is the additive identity.
pub proof fn lemma_wadd_zero(a: i64)
    ensures
        wadd(a, 0) == a,
        wadd(0, a) == a,
{
}

/// A coefficient and its negation cancel.
pub proof fn lemma_wadd_neg(a: i64)
    ensures
        wadd(a, wneg(a)) == 0,
        wadd(wneg(a), a) == 0,
{
}

/// Negation sends zero, and only zero, to zero.
pub proof fn lemma_wneg_zero(a: i64)
    ensures
        wneg(a) == 0 <==> a == 0,
{
}

/// Cropping one factor before a product does not change the cropped
/// product.
pub proof fn lemma_crop_mul_inner(x: int, c: int)
    ensures
        crop(crop(x) * c) == crop(x * c),
{
    let r = ring_size();
    lemma_crop_mod(x);
    lemma_mul_mod_noop_left(crop(x) as int, c, r);
    lemma_mul_mod_noop_left(x, c, r);
    lemma_crop_congruent(crop(x) * c, x * c);
}

/// Multiplication of coefficients is commutative.
pub proof fn lemma_wmul_comm(a: i64, b: i64)
    ensures
        wmul(a, b) == wmul(b, a),
{
    lemma_wmul_crop(a, b);
    lemma_wmul_crop(b, a);
    assert(a * b == b * a) by (nonlinear_arith);
}

/// Multiplication of coefficients is associative.
pub proof fn lemma_wmul_assoc(a: i64, b: i64, c: i64)
    ensures
        wmul(wmul(a, b), c) == wmul(a, wmul(b, c)),
{
    lemma_wmul_crop(a, b);
    lemma_wmul_crop(wmul(a, b), c);
    lemma_wmul_crop(b, c);
    lemma_wmul_crop(a, wmul(b, c));
    lemma_crop_mul_inner(a * b, c as int);
    lemma_crop_mul_inner(b * c, a as int);
    assert(crop(crop(a * b) * c) == crop(a * b * c)) by {
        assert((a * b) * c == a * b * c) by (nonlinear_arith);
    }
    assert(crop(crop(b * c) * a) == crop(a * b * c)) by {
        assert((b * c) * a == a * b * c) by (nonlinear_arith);
    }
}

/// One is the multiplicative identity.
pub proof fn lemma_wmul_one(a: i64)
    ensures
        wmul(a, 1) == a,
        wmul(1, a) == a,
{
}

/// Zero is absorbing for multiplication.
pub proof fn lemma_wmul_zero(a: i64)
    ensures
        wmul(a, 0) == 0,
        wmul(0, a) == 0,
{
}

} // verus!
