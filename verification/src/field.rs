//! Elements of a prime field and their arithmetic.

use crate::error::EccError;
use crate::modular::{add_mod, div_mod, mul_mod, pow_mod, sub_mod};
use vstd::arithmetic::div_mod::{
    lemma_fundamental_div_mod_converse_mod, lemma_mul_mod_noop_general, lemma_small_mod,
};
use vstd::arithmetic::power::{lemma_pow0, lemma_pow1, lemma_pow_adds, lemma_pow_distributes, pow};
use vstd::prelude::*;

verus! {

/// The mathematical value of a field element: a residue `value` modulo `prime`.
pub struct Residue {
    pub value: int,
    pub prime: int,
}

impl Residue {
    /// The residue is reduced: `0 <= value < prime`.
    pub open spec fn wf(self) -> bool {
        0 <= self.value < self.prime
    }

    /// The additive identity of the field of `self`.
    pub open spec fn zero(self) -> Residue {
        Residue { value: 0, prime: self.prime }
    }

    /// The multiplicative identity of the field of `self` (0 in the field of one element).
    pub open spec fn one(self) -> Residue {
        Residue { value: 1int % self.prime, prime: self.prime }
    }

    /// Sum of two residues of one field.
    pub open spec fn add(self, rhs: Residue) -> Residue {
        Residue { value: add_mod(self.value, rhs.value, self.prime), prime: self.prime }
    }

    /// Difference of two residues of one field.
    pub open spec fn subtract(self, rhs: Residue) -> Residue {
        Residue { value: sub_mod(self.value, rhs.value, self.prime), prime: self.prime }
    }

    /// Product of two residues of one field.
    pub open spec fn multiply(self, rhs: Residue) -> Residue {
        Residue { value: mul_mod(self.value, rhs.value, self.prime), prime: self.prime }
    }

    /// `self` raised to `exponent`.
    pub open spec fn power(self, exponent: nat) -> Residue {
        Residue { value: pow_mod(self.value, exponent, self.prime), prime: self.prime }
    }

    /// The additive inverse `prime - value`, reduced.
    pub open spec fn negate(self) -> Residue {
        Residue { value: (self.prime - self.value) % self.prime, prime: self.prime }
    }

    /// Quotient of two residues of one field: `self * rhs^(prime - 2)`.
    pub open spec fn divide(self, rhs: Residue) -> Residue {
        Residue { value: div_mod(self.value, rhs.value, self.prime), prime: self.prime }
    }
}

/// An element `num` of the field of integers modulo `prime`.
///
/// `prime` is taken to be prime; this is not checked. Division is an inverse
/// of multiplication only when it is.
#[derive(PartialEq, Eq, Structural, Debug, Clone, Copy)]
pub struct FieldElement {
    pub num: u32,
    pub prime: u32,
}

impl View for FieldElement {
    type V = Residue;

    open spec fn view(&self) -> Residue {
        Residue { value: self.num as int, prime: self.prime as int }
    }
}

impl FieldElement {
    /// The invariant of a field element: `num < prime`.
    pub open spec fn wf(self) -> bool {
        self.num < self.prime
    }

    /// The field element whose value is the residue `r`.
    pub open spec fn of(r: Residue) -> FieldElement {
        FieldElement { num: r.value as u32, prime: r.prime as u32 }
    }

    /// Makes the element `num` of the field modulo `prime`, or refuses a
    /// `num` that is not below `prime`.
    pub fn new(num: u32, prime: u32) -> (r: Result<FieldElement, EccError>)
        ensures
            num < prime ==> r == Ok::<FieldElement, EccError>(FieldElement { num, prime }),
            num >= prime ==> r == Err::<FieldElement, EccError>(EccError::OutOfRange),
            r matches Ok(v) ==> v.wf(),
    {
        if num >= prime {
            return Err(EccError::OutOfRange);
        }
        Ok(FieldElement { num, prime })
    }

    /// Raises `self` to `exponent` by repeated squaring.
    pub fn pow(self, exponent: u32) -> (r: FieldElement)
        requires
            self.wf(),
        ensures
            r@ == self@.power(exponent as nat),
            r.wf(),
    {
        let m: u64 = self.prime as u64;
        let mut acc: u64 = 1 % m;
        let mut base: u64 = self.num as u64;
        let mut e: u32 = exponent;
        proof {
            lemma_pow0(self.num as int);
            lemma_mul_mod_noop_general(1, pow(base as int, e as nat), m as int);
        }
        while e > 0
            invariant
                m == self.prime,
                0 < m,
                acc < m,
                base < m,
                (acc * pow(base as int, e as nat)) % (m as int) == pow(
                    self.num as int,
                    exponent as nat,
                ) % (m as int),
            decreases e,
        {
            proof {
                lemma_square_step(acc as int, base as int, e as nat, m as int);
                lemma_product_bound(acc, base, m);
                lemma_product_bound(base, base, m);
            }
            if e % 2 == 1 {
                acc = (acc * base) % m;
            }
            base = (base * base) % m;
            e = e / 2;
        }
        proof {
            lemma_pow0(base as int);
            lemma_small_mod(acc as nat, m as nat);
        }
        FieldElement { num: acc as u32, prime: self.prime }
    }
}

/// Products of two values below `m` fit in 64 bits when `m` fits in 32.
proof fn lemma_product_bound(a: u64, b: u64, m: u64)
    requires
        a < m,
        b < m,
        m <= u32::MAX,
    ensures
        a * b <= u64::MAX,
{
    assert(a * b <= 0xffff_ffff * 0xffff_ffff) by (nonlinear_arith)
        requires
            a <= 0xffff_ffff,
            b <= 0xffff_ffff,
    ;
}

/// One round of square-and-multiply keeps `acc * base^e` unchanged modulo `m`.
proof fn lemma_square_step(acc: int, base: int, e: nat, m: int)
    requires
        m > 0,
        e > 0,
    ensures
        e % 2 == 1 ==> (((acc * base) % m) * pow((base * base) % m, e / 2)) % m == (acc * pow(
            base,
            e,
        )) % m,
        e % 2 == 0 ==> (acc * pow((base * base) % m, e / 2)) % m == (acc * pow(base, e)) % m,
{
    let h = e / 2;
    let sq = pow(base * base, h);
    // base^(2h) == (base * base)^h
    assert(pow(base, h + h) == sq) by {
        lemma_pow_adds(base, h, h);
        lemma_pow_distributes(base, base, h);
    }
    // reducing the squared base does not change the power modulo m
    assert(pow((base * base) % m, h) % m == sq % m) by {
        vstd::arithmetic::power::lemma_pow_mod_noop(base * base, h, m);
    }
    if e % 2 == 1 {
        assert(e == h + h + 1);
        assert(pow(base, e) == base * sq) by {
            lemma_pow_adds(base, 1, h + h);
            lemma_pow1(base);
        }
        assert(acc * (base * sq) == (acc * base) * sq) by (nonlinear_arith);
        lemma_mul_mod_noop_general(acc * base, pow((base * base) % m, h), m);
        lemma_mul_mod_noop_general(acc * base, sq, m);
    } else {
        assert(e == h + h);
        lemma_mul_mod_noop_general(acc, pow((base * base) % m, h), m);
        lemma_mul_mod_noop_general(acc, sq, m);
    }
}

impl core::ops::Add for FieldElement {
    type Output = Result<FieldElement, EccError>;

    /// Sum in the field; refused when the operands' primes differ.
    fn add(self, rhs: FieldElement) -> (r: Result<FieldElement, EccError>)
        ensures
            self.prime != rhs.prime ==> r == Err::<FieldElement, EccError>(EccError::FieldMismatch),
            self.prime == rhs.prime ==> (r matches Ok(v) && v@ == self@.add(rhs@) && v.wf()),
    {
        if self.prime != rhs.prime {
            return Err(EccError::FieldMismatch);
        }
        let sum: u64 = (self.num as u64 + rhs.num as u64) % (self.prime as u64);
        Ok(FieldElement { num: sum as u32, prime: self.prime })
    }
}

impl vstd::std_specs::ops::AddSpecImpl for FieldElement {
    open spec fn obeys_add_spec() -> bool {
        true
    }

    open spec fn add_req(self, rhs: FieldElement) -> bool {
        self.wf() && rhs.wf()
    }

    open spec fn add_spec(self, rhs: FieldElement) -> Result<FieldElement, EccError> {
        if self.prime != rhs.prime {
            Err(EccError::FieldMismatch)
        } else {
            Ok(FieldElement::of(self@.add(rhs@)))
        }
    }
}

impl core::ops::Sub for FieldElement {
    type Output = Result<FieldElement, EccError>;

    /// Difference in the field, wrapping below zero; refused when the
    /// operands' primes differ.
    fn sub(self, rhs: FieldElement) -> (r: Result<FieldElement, EccError>)
        ensures
            self.prime != rhs.prime ==> r == Err::<FieldElement, EccError>(EccError::FieldMismatch),
            self.prime == rhs.prime ==> (r matches Ok(v) && v@ == self@.subtract(rhs@) && v.wf()),
    {
        if self.prime != rhs.prime {
            return Err(EccError::FieldMismatch);
        }
        let diff: u32 = if self.num >= rhs.num {
            self.num - rhs.num
        } else {
            self.prime - (rhs.num - self.num)
        };
        proof {
            if self.num >= rhs.num {
                lemma_small_mod((self.num - rhs.num) as nat, self.prime as nat);
            } else {
                lemma_fundamental_div_mod_converse_mod(
                    self.num - rhs.num,
                    self.prime as int,
                    -1,
                    diff as int,
                );
            }
        }
        Ok(FieldElement { num: diff, prime: self.prime })
    }
}

impl vstd::std_specs::ops::SubSpecImpl for FieldElement {
    open spec fn obeys_sub_spec() -> bool {
        true
    }

    open spec fn sub_req(self, rhs: FieldElement) -> bool {
        self.wf() && rhs.wf()
    }

    open spec fn sub_spec(self, rhs: FieldElement) -> Result<FieldElement, EccError> {
        if self.prime != rhs.prime {
            Err(EccError::FieldMismatch)
        } else {
            Ok(FieldElement::of(self@.subtract(rhs@)))
        }
    }
}

impl core::ops::Mul for FieldElement {
    type Output = Result<FieldElement, EccError>;

    /// Product in the field, computed in 64 bits before it is reduced;
    /// refused when the operands' primes differ.
    fn mul(self, rhs: FieldElement) -> (r: Result<FieldElement, EccError>)
        ensures
            self.prime != rhs.prime ==> r == Err::<FieldElement, EccError>(EccError::FieldMismatch),
            self.prime == rhs.prime ==> (r matches Ok(v) && v@ == self@.multiply(rhs@) && v.wf()),
    {
        if self.prime != rhs.prime {
            return Err(EccError::FieldMismatch);
        }
        proof {
            lemma_product_bound(self.num as u64, rhs.num as u64, self.prime as u64);
        }
        let product: u64 = (self.num as u64 * rhs.num as u64) % (self.prime as u64);
        Ok(FieldElement { num: product as u32, prime: self.prime })
    }
}

impl vstd::std_specs::ops::MulSpecImpl for FieldElement {
    open spec fn obeys_mul_spec() -> bool {
        true
    }

    open spec fn mul_req(self, rhs: FieldElement) -> bool {
        self.wf() && rhs.wf()
    }

    open spec fn mul_spec(self, rhs: FieldElement) -> Result<FieldElement, EccError> {
        if self.prime != rhs.prime {
            Err(EccError::FieldMismatch)
        } else {
            Ok(FieldElement::of(self@.multiply(rhs@)))
        }
    }
}

impl core::ops::Div for FieldElement {
    type Output = Result<FieldElement, EccError>;

    /// Quotient in the field: `self` times `rhs` raised to `prime - 2`.
    /// Refused when the operands' primes differ, and when `rhs` is zero.
    fn div(self, rhs: FieldElement) -> (r: Result<FieldElement, EccError>)
        ensures
            self.prime != rhs.prime ==> r == Err::<FieldElement, EccError>(EccError::FieldMismatch),
            self.prime == rhs.prime && rhs.num == 0 ==> r == Err::<FieldElement, EccError>(
                EccError::DivisionByZero,
            ),
            self.prime == rhs.prime && rhs.num != 0 ==> (r matches Ok(v) && v@ == self@.divide(rhs@)
                && v.wf()),
    {
        if self.prime != rhs.prime {
            return Err(EccError::FieldMismatch);
        }
        if rhs.num == 0 {
            return Err(EccError::DivisionByZero);
        }
        let inverse = rhs.pow(self.prime - 2);
        self * inverse
    }
}

impl vstd::std_specs::ops::DivSpecImpl for FieldElement {
    open spec fn obeys_div_spec() -> bool {
        true
    }

    open spec fn div_req(self, rhs: FieldElement) -> bool {
        self.wf() && rhs.wf()
    }

    open spec fn div_spec(self, rhs: FieldElement) -> Result<FieldElement, EccError> {
        if self.prime != rhs.prime {
            Err(EccError::FieldMismatch)
        } else if rhs.num == 0 {
            Err(EccError::DivisionByZero)
        } else {
            Ok(FieldElement::of(self@.divide(rhs@)))
        }
    }
}

} // verus!
