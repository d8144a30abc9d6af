use vstd::prelude::*;

verus! {

/// Why an operation refused its input. Every failure is handed back to the
/// caller; nothing is replaced by a default value.
#[derive(PartialEq, Eq, Structural, Debug, Clone, Copy)]
pub enum EccError {
    /// A value was not below the modulus when a field element was made.
    OutOfRange,
    /// The operands belong to different fields, or to different curves.
    FieldMismatch,
    /// The divisor of a field division was zero.
    DivisionByZero,
    /// Exactly one of the two coordinates of a point was given.
    InvalidInfinity,
    /// The coordinates do not satisfy the curve's equation.
    NotOnCurve,
}

} // verus!
