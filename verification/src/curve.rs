//! Points of an elliptic curve `y^2 = x^3 + a*x + b` over a prime field, and
//! the chord-and-tangent addition of such points.

use crate::error::EccError;
use crate::field::{FieldElement, Residue};
use crate::modular::{
    add_mod, div_mod, lemma_add_mod_reduced, lemma_div_mod_reduced, lemma_mul_mod_reduced,
    lemma_sub_mod_reduced,
};
use vstd::arithmetic::power::{lemma_pow1, lemma_pow_adds, lemma_square_is_pow2, pow};
use vstd::prelude::*;

verus! {

/// Where a point of the model lies: at infinity, or at `(x, y)`.
pub enum Coordinates {
    Infinity,
    Affine { x: Residue, y: Residue },
}

/// The mathematical value of a point: the constants `a` and `b` of its curve
/// and its place on it.
pub struct CurvePoint {
    pub a: Residue,
    pub b: Residue,
    pub at: Coordinates,
}

/// The curve's equation `y^2 = x^3 + a*x + b`, read modulo `p`.
pub open spec fn on_curve(a: int, b: int, x: int, y: int, p: int) -> bool {
    (y * y) % p == (x * (x * x) + a * x + b) % p
}

/// `n / d` in the field modulo `p`, refused for a divisor that is zero there.
pub open spec fn checked_div_mod(n: int, d: int, p: int) -> Result<int, EccError> {
    if d % p == 0 {
        Err(EccError::DivisionByZero)
    } else {
        Ok(div_mod(n, d, p))
    }
}

/// The slope of the line through `(x1, y1)` and `(x2, y2)`: of the tangent
/// `(3*x1^2 + a) / (2*y1)` where the two are one point, else of the chord
/// `(y2 - y1) / (x2 - x1)`.
pub open spec fn slope(a: int, x1: int, y1: int, x2: int, y2: int, p: int) -> Result<
    int,
    EccError,
> {
    if x1 == x2 && y1 == y2 {
        checked_div_mod(3 * (x1 * x1) + a, 2 * y1, p)
    } else {
        checked_div_mod(y2 - y1, x2 - x1, p)
    }
}

/// The x-coordinate `s^2 - x1 - x2` of the third point of the line of slope `s`.
pub open spec fn third_x(s: int, x1: int, x2: int, p: int) -> int {
    (s * s - x1 - x2) % p
}

/// The y-coordinate `s*(x1 - x3) - y1` of the sum, given its x-coordinate `x3`.
pub open spec fn third_y(s: int, x1: int, y1: int, x3: int, p: int) -> int {
    (s * (x1 - x3) - y1) % p
}

impl CurvePoint {
    /// The point's invariant: its constants are reduced and, unless it is at
    /// infinity, its coordinates are reduced, share the constants' prime and
    /// satisfy the curve's equation.
    pub open spec fn wf(self) -> bool {
        &&& self.a.wf()
        &&& self.b.wf()
        &&& self.at matches Coordinates::Affine { x, y } ==> {
            &&& x.wf()
            &&& y.wf()
            &&& self.a.prime == x.prime
            &&& self.b.prime == x.prime
            &&& y.prime == x.prime
            &&& on_curve(self.a.value, self.b.value, x.value, y.value, x.prime)
        }
    }

    /// The point at infinity of the curve with constants `a` and `b`.
    pub open spec fn infinity(a: Residue, b: Residue) -> CurvePoint {
        CurvePoint { a, b, at: Coordinates::Infinity }
    }

    /// The point at infinity of the curve of `self`: the identity of addition.
    pub open spec fn identity(self) -> CurvePoint {
        CurvePoint::infinity(self.a, self.b)
    }

    /// The mirror image `(x, -y)` of `self`; infinity is its own.
    pub open spec fn negate(self) -> CurvePoint {
        match self.at {
            Coordinates::Infinity => self,
            Coordinates::Affine { x, y } => CurvePoint {
                a: self.a,
                b: self.b,
                at: Coordinates::Affine { x, y: y.negate() },
            },
        }
    }

    /// The validating constructor: no coordinates give the point at infinity,
    /// one alone is refused, two must share the constants' field and satisfy
    /// the curve's equation.
    pub open spec fn create(a: Residue, b: Residue, x: Option<Residue>, y: Option<Residue>) -> Result<
        CurvePoint,
        EccError,
    > {
        match (x, y) {
            (None, None) => Ok(CurvePoint::infinity(a, b)),
            (Some(x), Some(y)) => {
                if a.prime != b.prime || b.prime != x.prime || x.prime != y.prime {
                    Err(EccError::FieldMismatch)
                } else if !on_curve(a.value, b.value, x.value, y.value, x.prime) {
                    Err(EccError::NotOnCurve)
                } else {
                    Ok(CurvePoint { a, b, at: Coordinates::Affine { x, y } })
                }
            },
            _ => Err(EccError::InvalidInfinity),
        }
    }

    /// The group law. Points of different curves are refused. Infinity is
    /// the identity; two points on one vertical line, `y1 + y2 = 0`, sum to
    /// infinity; otherwise the sum is the mirror image of the third point of
    /// the line through the two, made by [`CurvePoint::create`].
    pub open spec fn add(self, rhs: CurvePoint) -> Result<CurvePoint, EccError> {
        if self.a != rhs.a || self.b != rhs.b {
            Err(EccError::FieldMismatch)
        } else {
            match (self.at, rhs.at) {
                (Coordinates::Infinity, _) => Ok(rhs),
                (_, Coordinates::Infinity) => Ok(self),
                (Coordinates::Affine { x: x1, y: y1 }, Coordinates::Affine { x: x2, y: y2 }) => {
                    let p = x1.prime;
                    if x1.value == x2.value && add_mod(y1.value, y2.value, p) == 0 {
                        Ok(self.identity())
                    } else {
                        match slope(self.a.value, x1.value, y1.value, x2.value, y2.value, p) {
                            Err(e) => Err(e),
                            Ok(s) => {
                                let x3 = third_x(s, x1.value, x2.value, p);
                                let y3 = third_y(s, x1.value, y1.value, x3, p);
                                CurvePoint::create(
                                    self.a,
                                    self.b,
                                    Some(Residue { value: x3, prime: p }),
                                    Some(Residue { value: y3, prime: p }),
                                )
                            },
                        }
                    }
                },
            }
        }
    }

    /// `self` added to infinity `k` times, from the left:
    /// `((infinity + self) + self) + ...`. The first failing addition fails
    /// the whole.
    pub open spec fn scalar_multiply(self, k: nat) -> Result<CurvePoint, EccError>
        decreases k,
    {
        if k == 0 {
            Ok(self.identity())
        } else {
            match self.scalar_multiply((k - 1) as nat) {
                Ok(partial) => partial.add(self),
                Err(e) => Err(e),
            }
        }
    }
}

/// A point of the curve `y^2 = x^3 + a*x + b`: the coordinates `x` and `y`,
/// or the point at infinity where both are absent.
#[derive(PartialEq, Eq, Structural, Debug, Clone, Copy)]
pub struct Point {
    pub a: FieldElement,
    pub b: FieldElement,
    pub x: Option<FieldElement>,
    pub y: Option<FieldElement>,
}

/// The residue of an optional field element.
pub open spec fn residue_of(v: Option<FieldElement>) -> Option<Residue> {
    match v {
        Some(e) => Some(e@),
        None => None,
    }
}

/// The model of the outcome of an operation on points.
pub open spec fn model_of(r: Result<Point, EccError>) -> Result<CurvePoint, EccError> {
    match r {
        Ok(p) => Ok(p@),
        Err(e) => Err(e),
    }
}

impl View for Point {
    type V = CurvePoint;

    open spec fn view(&self) -> CurvePoint {
        CurvePoint {
            a: self.a@,
            b: self.b@,
            at: match (self.x, self.y) {
                (Some(x), Some(y)) => Coordinates::Affine { x: x@, y: y@ },
                _ => Coordinates::Infinity,
            },
        }
    }
}

impl Point {
    /// The invariant of a point: both coordinates or none, and a model that
    /// is a point of its curve.
    pub open spec fn wf(self) -> bool {
        &&& self.x is Some <==> self.y is Some
        &&& self@.wf()
    }

    /// The point whose model is `m`.
    pub open spec fn of(m: CurvePoint) -> Point {
        Point {
            a: FieldElement::of(m.a),
            b: FieldElement::of(m.b),
            x: match m.at {
                Coordinates::Infinity => None,
                Coordinates::Affine { x, y } => Some(FieldElement::of(x)),
            },
            y: match m.at {
                Coordinates::Infinity => None,
                Coordinates::Affine { x, y } => Some(FieldElement::of(y)),
            },
        }
    }

    /// The result whose model is `r`.
    pub open spec fn of_result(r: Result<CurvePoint, EccError>) -> Result<Point, EccError> {
        match r {
            Ok(m) => Ok(Point::of(m)),
            Err(e) => Err(e),
        }
    }

    /// Makes the point `(x, y)` of the curve with constants `a` and `b`, or
    /// its point at infinity where both coordinates are absent.
    ///
    /// One coordinate alone is refused as `InvalidInfinity`; coordinates and
    /// constants of different fields as `FieldMismatch`; coordinates that do
    /// not satisfy the curve's equation as `NotOnCurve`.
    pub fn new(
        a: FieldElement,
        b: FieldElement,
        x: Option<FieldElement>,
        y: Option<FieldElement>,
    ) -> (r: Result<Point, EccError>)
        requires
            a.wf(),
            b.wf(),
            x matches Some(v) ==> v.wf(),
            y matches Some(v) ==> v.wf(),
        ensures
            match CurvePoint::create(a@, b@, residue_of(x), residue_of(y)) {
                Ok(m) => r == Ok::<Point, EccError>(Point { a, b, x, y }) && m == (Point {
                    a,
                    b,
                    x,
                    y,
                })@,
                Err(e) => r == Err::<Point, EccError>(e),
            },
            r matches Ok(p) ==> p.wf(),
    {
        match (x, y) {
            (None, None) => Ok(Point { a, b, x: None, y: None }),
            (Some(xv), Some(yv)) => {
                if a.prime != b.prime || b.prime != xv.prime || xv.prime != yv.prime {
                    return Err(EccError::FieldMismatch);
                }
                let lhs = yv.pow(2);
                let cube = xv.pow(3);
                let linear = (a * xv).unwrap();
                let rhs = ((cube + linear).unwrap() + b).unwrap();
                proof {
                    lemma_curve_sides(a@.value, b@.value, xv@.value, yv@.value, xv@.prime);
                }
                if lhs != rhs {
                    return Err(EccError::NotOnCurve);
                }
                Ok(Point { a, b, x: Some(xv), y: Some(yv) })
            },
            _ => Err(EccError::InvalidInfinity),
        }
    }

    /// The point at infinity of the curve of `self`.
    fn infinity(self) -> (r: Point)
        requires
            self.wf(),
        ensures
            r@ == self@.identity(),
            r.wf(),
    {
        Point { a: self.a, b: self.b, x: None, y: None }
    }

    /// Adds `self` to itself `by` times, starting from infinity, or reports
    /// the failure of the first addition that fails.
    pub fn checked_scalar_mul(self, by: u32) -> (r: Result<Point, EccError>)
        requires
            self.wf(),
        ensures
            model_of(r) == self@.scalar_multiply(by as nat),
            r matches Ok(p) ==> p.wf(),
    {
        let mut product = self.infinity();
        let mut done: u32 = 0;
        while done < by
            invariant
                done <= by,
                self.wf(),
                product.wf(),
                Ok::<CurvePoint, EccError>(product@) == self@.scalar_multiply(done as nat),
            decreases by - done,
        {
            match product + self {
                Ok(next) => {
                    product = next;
                    done = done + 1;
                },
                Err(e) => {
                    proof {
                        lemma_scalar_multiply_failure(self@, (done + 1) as nat, by as nat);
                    }
                    return Err(e);
                },
            }
        }
        Ok(product)
    }

    /// Adds `self` to itself `by` times: infinity for 0, `self` for 1.
    ///
    /// The sum must exist: every addition on the way succeeds when the
    /// field's modulus is prime.
    pub fn scalar_mul(self, by: u32) -> (r: Point)
        requires
            self.wf(),
            self@.scalar_multiply(by as nat) is Ok,
        ensures
            self@.scalar_multiply(by as nat) == Ok::<CurvePoint, EccError>(r@),
            r.wf(),
    {
        self.checked_scalar_mul(by).unwrap()
    }
}

/// Once a partial sum of a scalar multiple fails, every longer one fails alike.
proof fn lemma_scalar_multiply_failure(p: CurvePoint, j: nat, k: nat)
    requires
        j <= k,
        p.scalar_multiply(j) is Err,
    ensures
        p.scalar_multiply(k) == p.scalar_multiply(j),
    decreases k,
{
    if j < k {
        lemma_scalar_multiply_failure(p, j, (k - 1) as nat);
    }
}

/// The two sides of the curve's equation, as the field operations compute them.
proof fn lemma_curve_sides(a: int, b: int, x: int, y: int, p: int)
    requires
        p > 0,
    ensures
        pow(y, 2) % p == (y * y) % p,
        add_mod(add_mod(pow(x, 3) % p, (a * x) % p, p), b, p) == (x * (x * x) + a * x + b) % p,
{
    lemma_square_is_pow2(y);
    lemma_square_is_pow2(x);
    lemma_pow_adds(x, 1, 2);
    lemma_pow1(x);
    assert(pow(x, 3) == x * (x * x));
    lemma_add_mod_reduced(pow(x, 3), a * x, p);
    lemma_add_mod_reduced(pow(x, 3) + a * x, b, p);
}

impl core::ops::Add for Point {
    type Output = Result<Point, EccError>;

    /// The sum of two points of one curve; points of different curves are
    /// refused as `FieldMismatch`.
    ///
    /// Infinity is the identity. Two points on one vertical line sum to
    /// infinity. Otherwise the line through the two points, or the tangent
    /// where they are one, meets the curve a third time, and the sum is the
    /// mirror image of that third point. Over a field whose modulus is prime
    /// the sum always exists; over another modulus the slope's division or
    /// the curve's equation may fail, and that failure is handed back.
    fn add(self, rhs: Point) -> (r: Result<Point, EccError>)
        ensures
            model_of(r) == self@.add(rhs@),
            r matches Ok(p) ==> p.wf(),
    {
        if self.a != rhs.a || self.b != rhs.b {
            return Err(EccError::FieldMismatch);
        }
        let (x1, y1) = match (self.x, self.y) {
            (Some(x), Some(y)) => (x, y),
            _ => {
                return Ok(rhs);
            },
        };
        let (x2, y2) = match (rhs.x, rhs.y) {
            (Some(x), Some(y)) => (x, y),
            _ => {
                return Ok(self);
            },
        };
        let ghost p = x1.prime as int;
        if x1 == x2 && (y1 + y2).unwrap().num == 0 {
            return Ok(self.infinity());
        }
        let quotient = if x1 == x2 && y1 == y2 {
            let three = FieldElement { num: 3 % x1.prime, prime: x1.prime };
            let two = FieldElement { num: 2 % x1.prime, prime: x1.prime };
            let square = (x1 * x1).unwrap();
            let numerator = ((three * square).unwrap() + self.a).unwrap();
            let denominator = (two * y1).unwrap();
            proof {
                lemma_mul_mod_reduced(3, x1.num * x1.num, p);
                lemma_add_mod_reduced(3 * (x1.num * x1.num), self.a.num as int, p);
                lemma_mul_mod_reduced(2, y1.num as int, p);
                lemma_div_mod_reduced(3 * (x1.num * x1.num) + self.a.num, 2 * y1.num, p);
            }
            numerator / denominator
        } else {
            let numerator = (y2 - y1).unwrap();
            let denominator = (x2 - x1).unwrap();
            proof {
                lemma_div_mod_reduced(y2.num - y1.num, x2.num - x1.num, p);
            }
            numerator / denominator
        };
        let s = match quotient {
            Ok(s) => s,
            Err(e) => {
                return Err(e);
            },
        };
        let x3 = (((s * s).unwrap() - x1).unwrap() - x2).unwrap();
        let y3 = ((s * (x1 - x3).unwrap()).unwrap() - y1).unwrap();
        proof {
            lemma_sub_mod_reduced(s.num * s.num, x1.num as int, p);
            lemma_sub_mod_reduced(s.num * s.num - x1.num, x2.num as int, p);
            lemma_mul_mod_reduced(s.num as int, x1.num - x3.num, p);
            lemma_sub_mod_reduced(s.num * (x1.num - x3.num), y1.num as int, p);
        }
        Point::new(self.a, self.b, Some(x3), Some(y3))
    }
}

impl vstd::std_specs::ops::AddSpecImpl for Point {
    open spec fn obeys_add_spec() -> bool {
        true
    }

    open spec fn add_req(self, rhs: Point) -> bool {
        self.wf() && rhs.wf()
    }

    open spec fn add_spec(self, rhs: Point) -> Result<Point, EccError> {
        Point::of_result(self@.add(rhs@))
    }
}

} // verus!
