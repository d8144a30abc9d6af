//! Arithmetic in a prime field and on an elliptic curve `y^2 = x^3 + a*x + b`
//! over that field.
//!
//! [`FieldElement`] is a residue modulo a prime; [`Point`] is a point of a
//! curve over such a field, or the curve's point at infinity. Every operation
//! is stated against a mathematical model ([`Residue`], [`CurvePoint`]) and
//! proved to compute it.

pub mod curve;
pub mod curve_laws;
pub mod error;
pub mod field;
pub mod field_laws;
pub mod modular;
pub mod primes;
pub mod text;

pub use curve::{Coordinates, CurvePoint, Point};
pub use error::EccError;
pub use field::{FieldElement, Residue};
