//! What a reader learns from the caller about a number written in a file.
//!
//! The file formats this crate reads hold decimal numbers that the simulator
//! uses as binary64 values. Turning text into such a value is the caller's
//! work; the readers only need to know, of each piece of text, whether it is
//! a number at all and how the resulting value compares. [`Reading`] carries
//! exactly that.
use vstd::prelude::*;

use crate::text::{chars_of, string_of};

verus! {

/// Where a binary64 value lies on the number line.
#[derive(Debug, Clone, Copy, PartialEq, Eq, Structural)]
pub enum FloatClass {
    /// Not a number.
    Nan,
    /// Negative infinity.
    NegInfinity,
    /// A finite value below zero.
    Negative,
    /// Zero, of either sign.
    Zero,
    /// A finite value above zero.
    Positive,
    /// Positive infinity.
    PosInfinity,
}

impl FloatClass {
    pub open spec fn finite(self) -> bool {
        self is Negative || self is Zero || self is Positive
    }

    /// Whether the value is finite.
    pub fn is_finite(&self) -> (r: bool)
        ensures
            r == self.finite(),
    {
        match self {
            FloatClass::Negative | FloatClass::Zero | FloatClass::Positive => true,
            _ => false,
        }
    }
}

/// A piece of text read as a binary64 value.
#[derive(Debug, Clone, Copy, PartialEq, Eq, Structural)]
pub struct FloatValue {
    /// Where the value lies.
    pub class: FloatClass,
    /// Whether the value is within `1e-9` of one.
    pub unit: bool,
    /// A key that orders finite values as the values are ordered, equal keys
    /// for equal values (both zeros included).
    pub key: u64,
}

/// Whether a piece of text reads as a number, and which.
#[derive(Debug, Clone, PartialEq)]
pub enum Reading {
    /// The text is not a number.
    NotANumber,
    /// The text reads as this value, which is written back (as a binary64
    /// value's `Display` writes it) as the string.
    Number(FloatValue, String),
}

/// `s` with a Fortran exponent marker (`D` or `d`) written as `e`.
pub open spec fn e_exponent(s: Seq<char>) -> Seq<char> {
    s.map_values(|c: char| if c == 'D' || c == 'd' { 'e' } else { c })
}

/// The text a number written with a Fortran exponent (`0.484D-03`) reads
/// as once its exponent marker is the one Rust's number syntax takes
/// (`0.484e-03`). Every other character is kept.
pub fn with_e_exponent(s: &str) -> (t: String)
    ensures
        t@ == e_exponent(s@),
{
    let v = chars_of(s);
    let mut out: Vec<char> = Vec::new();
    let mut i: usize = 0;
    while i < v.len()
        invariant
            i <= v@.len(),
            v@ == s@,
            out@ == e_exponent(v@.take(i as int)),
        decreases v@.len() - i,
    {
        let c = v[i];
        let d = if c == 'D' || c == 'd' {
            'e'
        } else {
            c
        };
        out.push(d);
        proof {
            assert(v@.take(i + 1) =~= v@.take(i as int).push(c));
            assert(e_exponent(v@.take(i + 1)) =~= e_exponent(v@.take(i as int)).push(d));
        }
        i = i + 1;
    }
    proof {
        assert(v@.take(v@.len() as int) =~= v@);
    }
    string_of(out.as_slice())
}

} // verus!
