//! Arithmetic on integers modulo `m`, as the specifications use it.

use vstd::arithmetic::div_mod::{
    lemma_add_mod_noop, lemma_mul_mod_noop_general, lemma_small_mod, lemma_sub_mod_noop,
};
use vstd::arithmetic::power::{lemma_pow_mod_noop, pow};
use vstd::prelude::*;

verus! {

/// `(a + b) mod m`.
pub open spec fn add_mod(a: int, b: int, m: int) -> int {
    (a + b) % m
}

/// `(a - b) mod m`, the representative in `[0, m)`.
pub open spec fn sub_mod(a: int, b: int, m: int) -> int {
    (a - b) % m
}

/// `(a * b) mod m`.
pub open spec fn mul_mod(a: int, b: int, m: int) -> int {
    (a * b) % m
}

/// `a^e mod m`; `a^0` is 1, so the result for `e == 0` is `1 mod m`.
pub open spec fn pow_mod(a: int, e: nat, m: int) -> int {
    pow(a, e) % m
}

/// `a^(m - 2) mod m`: the inverse of `a` modulo `m` when `m` is prime and
/// does not divide `a`.
pub open spec fn inv_mod(a: int, m: int) -> int {
    pow_mod(a, (m - 2) as nat, m)
}

/// `a * b^(m - 2) mod m`: the quotient of `a` by `b` in the field of a prime `m`.
pub open spec fn div_mod(a: int, b: int, m: int) -> int {
    mul_mod(a, inv_mod(b, m), m)
}

/// Reducing either operand first does not change a sum modulo `m`.
pub proof fn lemma_add_mod_reduced(a: int, b: int, m: int)
    requires
        m > 0,
    ensures
        add_mod(a % m, b, m) == add_mod(a, b, m),
        add_mod(a, b % m, m) == add_mod(a, b, m),
        add_mod(a % m, b % m, m) == add_mod(a, b, m),
{
    lemma_add_mod_noop(a, b, m);
    lemma_add_mod_noop(a % m, b, m);
    lemma_add_mod_noop(a, b % m, m);
    vstd::arithmetic::div_mod::lemma_mod_twice(a, m);
    vstd::arithmetic::div_mod::lemma_mod_twice(b, m);
}

/// Reducing either operand first does not change a difference modulo `m`.
pub proof fn lemma_sub_mod_reduced(a: int, b: int, m: int)
    requires
        m > 0,
    ensures
        sub_mod(a % m, b, m) == sub_mod(a, b, m),
        sub_mod(a, b % m, m) == sub_mod(a, b, m),
        sub_mod(a % m, b % m, m) == sub_mod(a, b, m),
{
    lemma_sub_mod_noop(a, b, m);
    lemma_sub_mod_noop(a % m, b, m);
    lemma_sub_mod_noop(a, b % m, m);
    vstd::arithmetic::div_mod::lemma_mod_twice(a, m);
    vstd::arithmetic::div_mod::lemma_mod_twice(b, m);
}

/// Reducing either operand first does not change a product modulo `m`.
pub proof fn lemma_mul_mod_reduced(a: int, b: int, m: int)
    requires
        m > 0,
    ensures
        mul_mod(a % m, b, m) == mul_mod(a, b, m),
        mul_mod(a, b % m, m) == mul_mod(a, b, m),
        mul_mod(a % m, b % m, m) == mul_mod(a, b, m),
{
    lemma_mul_mod_noop_general(a, b, m);
}

/// Reducing the base first does not change a power modulo `m`.
pub proof fn lemma_pow_mod_reduced(a: int, e: nat, m: int)
    requires
        m > 0,
    ensures
        pow_mod(a % m, e, m) == pow_mod(a, e, m),
{
    lemma_pow_mod_noop(a, e, m);
}

/// Reducing either operand first does not change a quotient modulo `m`.
pub proof fn lemma_div_mod_reduced(a: int, b: int, m: int)
    requires
        m > 0,
    ensures
        div_mod(a % m, b % m, m) == div_mod(a, b, m),
        div_mod(a % m, b, m) == div_mod(a, b, m),
        div_mod(a, b % m, m) == div_mod(a, b, m),
{
    let e = (m - 2) as nat;
    lemma_pow_mod_reduced(b, e, m);
    lemma_mul_mod_reduced(a, inv_mod(b, m), m);
}

/// A value already in `[0, m)` is its own remainder.
pub proof fn lemma_mod_of_reduced(a: int, m: int)
    requires
        0 <= a < m,
    ensures
        a % m == a,
{
    lemma_small_mod(a as nat, m as nat);
}

} // verus!
