//! Prime moduli: Euclid's lemma, Fermat's little theorem, and the inverse
//! that the field's division rests on.

use crate::modular::{inv_mod, mul_mod, pow_mod};
use vstd::arithmetic::div_mod::{
    lemma_fundamental_div_mod, lemma_mod_equivalence,
    lemma_mod_multiples_basic, lemma_mul_mod_noop_general, lemma_small_mod,
};
use vstd::arithmetic::power::{lemma_pow0, lemma_pow1, lemma_pow_adds, pow};
use vstd::prelude::*;
use vstd::set_lib::{lemma_int_range, lemma_len_subset, set_int_range};

verus! {

/// `p` is prime: at least 2, and no `d` strictly between 1 and `p` divides it.
pub open spec fn is_prime(p: int) -> bool {
    &&& p >= 2
    &&& forall|d: int| 2 <= d < p ==> #[trigger] (p % d) != 0
}

/// Bezout's identity, by Euclid's algorithm: a common divisor `g` of `a` and
/// `b` that is a combination `u*a + v*b` of them. Returns `(g, u, v, a/g, b/g)`.
proof fn lemma_bezout(a: nat, b: nat) -> (r: (int, int, int, int, int))
    requires
        a + b > 0,
    ensures
        r.0 > 0,
        r.1 * a + r.2 * b == r.0,
        a == r.3 * r.0,
        b == r.4 * r.0,
    decreases b,
{
    if b == 0 {
        (a as int, 1, 0, 1, 0)
    } else {
        let q = (a / b) as int;
        let rem = (a % b) as int;
        lemma_fundamental_div_mod(a as int, b as int);
        let (g, u, v, kb, kr) = lemma_bezout(b, rem as nat);
        assert(v * a + (u - v * q) * b == g) by (nonlinear_arith)
            requires
                u * b + v * rem == g,
                a == b * q + rem,
        ;
        assert(a == (q * kb + kr) * g) by (nonlinear_arith)
            requires
                a == b * q + rem,
                b == kb * g,
                rem == kr * g,
        ;
        (g, v, u - v * q, q * kb + kr, kb)
    }
}

/// Euclid's lemma: a prime that divides a product divides one of its factors.
pub proof fn lemma_prime_divides_product(p: int, x: int, y: int)
    requires
        is_prime(p),
        (x * y) % p == 0,
    ensures
        x % p == 0 || y % p == 0,
{
    let xr = x % p;
    if xr != 0 {
        let (g, u, v, kx, kp) = lemma_bezout(xr as nat, p as nat);
        // g divides p, so g is 1 or p; it is not p, because g divides xr < p
        assert(p % g == 0) by {
            lemma_mod_multiples_basic(kp, g);
        }
        assert(g <= p) by (nonlinear_arith)
            requires
                p == kp * g,
                g > 0,
                p > 0,
        ;
        assert(g != p) by (nonlinear_arith)
            requires
                xr == kx * g,
                0 < xr < p,
                g > 0,
        ;
        assert(g == 1);
        // y == u*xr*y + v*p*y, and p divides xr*y
        lemma_mul_mod_noop_general(x, y, p);
        let t = xr * y;
        assert(t % p == 0);
        lemma_fundamental_div_mod(t, p);
        let m = t / p;
        assert(y == (u * m + v * y) * p) by (nonlinear_arith)
            requires
                u * xr + v * p == 1,
                xr * y == p * m,
        ;
        lemma_mod_multiples_basic(u * m + v * y, p);
    }
}

/// Two residues that are not zero have a product that is not zero.
pub proof fn lemma_no_zero_divisors(p: int, x: int, y: int)
    requires
        is_prime(p),
        x % p != 0,
        y % p != 0,
    ensures
        (x * y) % p != 0,
{
    if (x * y) % p == 0 {
        lemma_prime_divides_product(p, x, y);
    }
}

/// The product of the elements of `s`.
spec fn seq_product(s: Seq<int>) -> int
    decreases s.len(),
{
    if s.len() == 0 {
        1
    } else {
        seq_product(s.drop_last()) * s.last()
    }
}

/// `n!`.
spec fn factorial(n: nat) -> int
    decreases n,
{
    if n == 0 {
        1
    } else {
        factorial((n - 1) as nat) * n
    }
}

/// The first `n` multiples `x, 2x, ..., n*x`, each reduced modulo `p`.
spec fn multiples(x: int, p: int, n: nat) -> Seq<int> {
    Seq::new(n, |i: int| (x * (i + 1)) % p)
}

/// An element can be taken out of a product.
proof fn lemma_product_remove(s: Seq<int>, j: int)
    requires
        0 <= j < s.len(),
    ensures
        seq_product(s) == s[j] * seq_product(s.remove(j)),
    decreases s.len(),
{
    let front = s.drop_last();
    if j == s.len() - 1 {
        assert(s.remove(j) =~= front);
        assert(seq_product(front) * s.last() == s.last() * seq_product(front))
            by (nonlinear_arith);
    } else {
        lemma_product_remove(front, j);
        let rest = s.remove(j);
        assert(rest.drop_last() =~= front.remove(j));
        assert(rest.last() == s.last());
        assert(rest.len() > 0);
        let inner = seq_product(front.remove(j));
        assert(seq_product(rest) == inner * s.last());
        assert((s[j] * inner) * s.last() == s[j] * (inner * s.last())) by (nonlinear_arith);
    }
}

/// A sequence that holds each of `1, ..., n` once has the product `n!`.
proof fn lemma_product_of_permutation(s: Seq<int>, n: nat)
    requires
        s.len() == n,
        s.no_duplicates(),
        forall|i: int| 0 <= i < s.len() ==> 1 <= #[trigger] s[i] <= n,
    ensures
        seq_product(s) == factorial(n),
    decreases n,
{
    if n > 0 {
        // n occurs in s: otherwise n distinct values would lie among 1, ..., n-1
        if forall|i: int| 0 <= i < s.len() ==> #[trigger] s[i] != n {
            let range = set_int_range(1, n as int);
            lemma_int_range(1, n as int);
            assert(s.to_set().subset_of(range)) by {
                assert forall|v: int| s.to_set().contains(v) implies range.contains(v) by {
                    let i = choose|i: int| 0 <= i < s.len() && s[i] == v;
                    assert(1 <= s[i] <= n);
                }
            }
            lemma_len_subset(s.to_set(), range);
            s.unique_seq_to_set();
            assert(false);
        }
        let j = choose|j: int| 0 <= j < s.len() && s[j] == n;
        let rest = s.remove(j);
        s.remove_ensures(j);
        assert(rest.no_duplicates()) by {
            assert forall|i: int, k: int|
                0 <= i < rest.len() && 0 <= k < rest.len() && i != k implies rest[i] != rest[k] by {
                let si = if i < j { i } else { i + 1 };
                let sk = if k < j { k } else { k + 1 };
                assert(rest[i] == s[si]);
                assert(rest[k] == s[sk]);
                assert(si != sk);
            }
        }
        assert forall|i: int| 0 <= i < rest.len() implies 1 <= #[trigger] rest[i] <= n - 1 by {
            let si = if i < j { i } else { i + 1 };
            assert(rest[i] == s[si]);
            assert(si != j);
            assert(1 <= s[si] <= n);
        }
        lemma_product_of_permutation(rest, (n - 1) as nat);
        lemma_product_remove(s, j);
        assert(n * factorial((n - 1) as nat) == factorial((n - 1) as nat) * n)
            by (nonlinear_arith);
    }
}

/// No factorial below `p!` is divisible by the prime `p`.
proof fn lemma_factorial_not_divisible(p: int, n: nat)
    requires
        is_prime(p),
        n < p,
    ensures
        factorial(n) % p != 0,
    decreases n,
{
    if n == 0 {
        lemma_small_mod(1, p as nat);
    } else {
        lemma_factorial_not_divisible(p, (n - 1) as nat);
        lemma_small_mod(n, p as nat);
        lemma_no_zero_divisors(p, factorial((n - 1) as nat), n as int);
    }
}

/// The product of the first `n` reduced multiples of `x` is congruent to `x^n * n!`.
proof fn lemma_product_of_multiples(x: int, p: int, n: nat)
    requires
        p > 0,
    ensures
        seq_product(multiples(x, p, n)) % p == (pow(x, n) * factorial(n)) % p,
    decreases n,
{
    if n == 0 {
        lemma_pow0(x);
        assert(1int * 1int == 1int);
    } else {
        let k = (n - 1) as nat;
        let s = multiples(x, p, n);
        lemma_product_of_multiples(x, p, k);
        assert(s.drop_last() =~= multiples(x, p, k));
        let front = seq_product(multiples(x, p, k));
        let model = pow(x, k) * factorial(k);
        assert(seq_product(s) == front * ((x * n) % p));
        // front * ((x*n) % p)  is congruent to  model * (x*n)
        lemma_mul_mod_noop_general(front, x * n, p);
        lemma_mul_mod_noop_general(model, x * n, p);
        assert(pow(x, n) == pow(x, k) * x) by {
            lemma_pow_adds(x, k, 1);
            lemma_pow1(x);
        }
        assert((pow(x, k) * factorial(k)) * (x * n) == (pow(x, k) * x) * (factorial(k) * n))
            by (nonlinear_arith);
    }
}

/// The reduced multiples `x, 2x, ..., (p-1)*x` of a residue that is not
/// zero are a rearrangement of `1, ..., p-1`.
proof fn lemma_multiples_permute(x: int, p: int)
    requires
        is_prime(p),
        x % p != 0,
    ensures
        seq_product(multiples(x, p, (p - 1) as nat)) == factorial((p - 1) as nat),
{
    let n = (p - 1) as nat;
    let s = multiples(x, p, n);
    assert forall|i: int| 0 <= i < s.len() implies 1 <= #[trigger] s[i] <= n by {
        lemma_small_mod((i + 1) as nat, p as nat);
        lemma_no_zero_divisors(p, x, i + 1);
    }
    assert(s.no_duplicates()) by {
        assert forall|i: int, j: int|
            0 <= i < s.len() && 0 <= j < s.len() && i != j implies s[i] != s[j] by {
            if s[i] == s[j] {
                let (hi, lo) = if i > j { (i, j) } else { (j, i) };
                lemma_mod_equivalence(x * (hi + 1), x * (lo + 1), p);
                assert(x * (hi + 1) - x * (lo + 1) == x * (hi - lo)) by (nonlinear_arith);
                lemma_prime_divides_product(p, x, hi - lo);
                lemma_small_mod((hi - lo) as nat, p as nat);
            }
        }
    }
    lemma_product_of_permutation(s, n);
}

/// Fermat's little theorem: `a^(p-1)` is congruent to 1 modulo a prime `p`
/// that does not divide `a`.
pub proof fn lemma_fermat_little(a: int, p: int)
    requires
        is_prime(p),
        a % p != 0,
    ensures
        pow_mod(a, (p - 1) as nat, p) == 1,
{
    let n = (p - 1) as nat;
    let f = factorial(n);
    let e = pow(a, n);
    lemma_multiples_permute(a, p);
    lemma_product_of_multiples(a, p, n);
    // f is congruent to e * f, so p divides (e - 1) * f, and p does not divide f
    assert((e * f) % p == f % p);
    lemma_mod_equivalence(e * f, f, p);
    assert(e * f - f == (e - 1) * f) by (nonlinear_arith);
    lemma_prime_divides_product(p, e - 1, f);
    lemma_factorial_not_divisible(p, n);
    assert((e - 1) % p == 0);
    lemma_mod_equivalence(e, 1, p);
    lemma_small_mod(1, p as nat);
}

/// In the field of a prime `p`, `b^(p-2)` is the inverse of a `b` that is not zero.
pub proof fn lemma_inverse(b: int, p: int)
    requires
        is_prime(p),
        b % p != 0,
    ensures
        mul_mod(b, inv_mod(b, p), p) == 1,
        mul_mod(inv_mod(b, p), b, p) == 1,
{
    let e = (p - 2) as nat;
    lemma_fermat_little(b, p);
    assert(pow(b, (p - 1) as nat) == b * pow(b, e)) by {
        lemma_pow_adds(b, 1, e);
        lemma_pow1(b);
    }
    lemma_mul_mod_noop_general(b, pow(b, e), p);
    assert(b * inv_mod(b, p) == inv_mod(b, p) * b) by (nonlinear_arith);
}

} // verus!
