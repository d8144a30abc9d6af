//! How field elements and points are written out.

use crate::curve::{Coordinates, CurvePoint, Point};
use crate::field::{FieldElement, Residue};
use vstd::prelude::*;
use vstd::string::*;

verus! {

/// The character of the decimal digit `d`.
pub open spec fn digit_char(d: int) -> char {
    if d == 0 {
        '0'
    } else if d == 1 {
        '1'
    } else if d == 2 {
        '2'
    } else if d == 3 {
        '3'
    } else if d == 4 {
        '4'
    } else if d == 5 {
        '5'
    } else if d == 6 {
        '6'
    } else if d == 7 {
        '7'
    } else if d == 8 {
        '8'
    } else {
        '9'
    }
}

/// `n` in decimal, without leading zeros.
pub open spec fn decimal(n: nat) -> Seq<char>
    decreases n,
{
    if n < 10 {
        seq![digit_char(n as int)]
    } else {
        decimal(n / 10).push(digit_char((n % 10) as int))
    }
}

/// A field element, written `FieldElement_<prime>(<value>)`.
pub open spec fn residue_text(r: Residue) -> Seq<char> {
    "FieldElement_"@ + decimal(r.prime as nat) + "("@ + decimal(r.value as nat) + ")"@
}

/// A point, written `Point(<x>, <y>)_a<a>_b<b>`, or with the sign of
/// infinity in place of the coordinates.
pub open spec fn point_text(p: CurvePoint) -> Seq<char> {
    match p.at {
        Coordinates::Infinity => "Point(∞)_a"@ + residue_text(p.a) + "_b"@ + residue_text(p.b),
        Coordinates::Affine { x, y } => "Point("@ + decimal(x.value as nat) + ", "@ + decimal(
            y.value as nat,
        ) + ")_a"@ + residue_text(p.a) + "_b"@ + residue_text(p.b),
    }
}

/// The one-character string of the decimal digit `d`.
fn digit_str(d: u32) -> (s: &'static str)
    requires
        d < 10,
    ensures
        s@ == seq![digit_char(d as int)],
{
    proof {
        reveal_strlit("0");
        reveal_strlit("1");
        reveal_strlit("2");
        reveal_strlit("3");
        reveal_strlit("4");
        reveal_strlit("5");
        reveal_strlit("6");
        reveal_strlit("7");
        reveal_strlit("8");
        reveal_strlit("9");
    }
    let s = if d == 0 {
        "0"
    } else if d == 1 {
        "1"
    } else if d == 2 {
        "2"
    } else if d == 3 {
        "3"
    } else if d == 4 {
        "4"
    } else if d == 5 {
        "5"
    } else if d == 6 {
        "6"
    } else if d == 7 {
        "7"
    } else if d == 8 {
        "8"
    } else {
        "9"
    };
    assert(s@ =~= seq![digit_char(d as int)]);
    s
}

/// Appends `n` in decimal to `out`.
fn push_decimal(out: &mut String, n: u32)
    ensures
        final(out)@ == old(out)@ + decimal(n as nat),
    decreases n,
{
    if n >= 10 {
        push_decimal(out, n / 10);
    }
    out.append(digit_str(n % 10));
    assert(final(out)@ =~= old(out)@ + decimal(n as nat));
}

/// Appends a field element to `out`.
fn push_field_element(out: &mut String, e: &FieldElement)
    ensures
        final(out)@ == old(out)@ + residue_text(e@),
{
    out.append("FieldElement_");
    push_decimal(out, e.prime);
    out.append("(");
    push_decimal(out, e.num);
    out.append(")");
    assert(final(out)@ =~= old(out)@ + residue_text(e@));
}

impl FieldElement {
    /// The element written out as `FieldElement_<prime>(<value>)`.
    pub fn to_string(&self) -> (r: String)
        ensures
            r@ == residue_text(self@),
    {
        let mut out = String::new();
        push_field_element(&mut out, self);
        assert(out@ =~= residue_text(self@));
        out
    }
}

impl Point {
    /// The point written out as `Point(<x>, <y>)_a<a>_b<b>`, with the sign
    /// of infinity in place of the coordinates where it has none.
    pub fn to_string(&self) -> (r: String)
        ensures
            r@ == point_text(self@),
    {
        let mut out = String::new();
        match (self.x, self.y) {
            (Some(x), Some(y)) => {
                out.append("Point(");
                push_decimal(&mut out, x.num);
                out.append(", ");
                push_decimal(&mut out, y.num);
                out.append(")_a");
            },
            _ => {
                out.append("Point(∞)_a");
            },
        }
        push_field_element(&mut out, &self.a);
        out.append("_b");
        push_field_element(&mut out, &self.b);
        assert(out@ =~= point_text(self@));
        out
    }
}

} // verus!
