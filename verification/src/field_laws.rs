//! What holds of the field's operations: closure, the additive inverse, and
//! division as the inverse of multiplication in the field of a prime.

use crate::field::Residue;
use crate::modular::{inv_mod, lemma_mod_of_reduced, lemma_mul_mod_reduced};
use crate::primes::{is_prime, lemma_inverse};
use vstd::arithmetic::div_mod::{lemma_mod_bound, lemma_mod_self_0};
use vstd::prelude::*;

verus! {

/// Closure: every operation on residues of one field gives a residue of
/// that field, reduced below its prime.
pub proof fn lemma_field_closed(a: Residue, b: Residue, exponent: nat)
    requires
        a.wf(),
        b.wf(),
        a.prime == b.prime,
    ensures
        a.add(b).wf() && a.add(b).prime == a.prime,
        a.subtract(b).wf() && a.subtract(b).prime == a.prime,
        a.multiply(b).wf() && a.multiply(b).prime == a.prime,
        a.divide(b).wf() && a.divide(b).prime == a.prime,
        a.power(exponent).wf() && a.power(exponent).prime == a.prime,
        a.negate().wf() && a.negate().prime == a.prime,
{
    let p = a.prime;
    lemma_mod_bound(a.value + b.value, p);
    lemma_mod_bound(a.value - b.value, p);
    lemma_mod_bound(a.value * b.value, p);
    lemma_mod_bound(a.value * inv_mod(b.value, p), p);
    lemma_mod_bound(vstd::arithmetic::power::pow(a.value, exponent), p);
    lemma_mod_bound(p - a.value, p);
}

/// The additive inverse: `a + (prime - a)` is zero.
pub proof fn lemma_additive_inverse(a: Residue)
    requires
        a.wf(),
    ensures
        a.add(a.negate()) == a.zero(),
        a.negate().add(a) == a.zero(),
{
    let p = a.prime;
    lemma_mod_self_0(p);
    if a.value == 0 {
        lemma_mod_of_reduced(0, p);
        assert(a.negate().value == 0);
    } else {
        lemma_mod_of_reduced(p - a.value, p);
        assert(a.value + (p - a.value) == p);
        assert((p - a.value) + a.value == p);
    }
}

/// Division is multiplication by the divisor raised to `prime - 2`.
pub proof fn lemma_divide_is_multiply_by_power(a: Residue, b: Residue)
    requires
        a.wf(),
        b.wf(),
        a.prime == b.prime,
    ensures
        a.divide(b) == a.multiply(b.power((a.prime - 2) as nat)),
{
}

/// The multiplicative inverse: in the field of a prime, an element that is
/// not zero, divided by itself, is one.
pub proof fn lemma_divide_self(a: Residue)
    requires
        a.wf(),
        a.value != 0,
        is_prime(a.prime),
    ensures
        a.divide(a) == a.one(),
{
    let p = a.prime;
    lemma_mod_of_reduced(a.value, p);
    lemma_inverse(a.value, p);
    lemma_mod_of_reduced(1, p);
}

/// In the field of a prime, division by an element that is not zero undoes
/// multiplication by it, and multiplication undoes division.
pub proof fn lemma_divide_undoes_multiply(a: Residue, b: Residue)
    requires
        a.wf(),
        b.wf(),
        a.prime == b.prime,
        b.value != 0,
        is_prime(a.prime),
    ensures
        a.multiply(b).divide(b) == a,
        a.divide(b).multiply(b) == a,
{
    let p = a.prime;
    let i = inv_mod(b.value, p);
    lemma_mod_of_reduced(a.value, p);
    lemma_mod_of_reduced(b.value, p);
    lemma_inverse(b.value, p);
    // both sides are a * (b * i) modulo p, and b * i is 1 there
    lemma_mul_mod_reduced(a.value * b.value, i, p);
    lemma_mul_mod_reduced(a.value * i, b.value, p);
    lemma_mul_mod_reduced(a.value, b.value * i, p);
    assert((a.value * b.value) * i == a.value * (b.value * i)) by (nonlinear_arith);
    assert((a.value * i) * b.value == a.value * (b.value * i)) by (nonlinear_arith);
    assert(a.value * 1 == a.value);
}

} // verus!
