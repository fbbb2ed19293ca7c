//! Earth: the physical constants of the WGS-84 / EGM96 models, exact as
//! published.
//!
//! The published values are decimal numbers, so they are held exactly as
//! [`Decimal`]s: a mantissa and a power of ten. A negative scale multiplies,
//! so the shortest decimal of every finite binary64 value has one.
use vstd::prelude::*;

verus! {

/// The number `mantissa × 10^-scale`.
#[derive(Debug, Clone, Copy, PartialEq, Eq, Structural)]
pub struct Decimal {
    pub mantissa: i64,
    pub scale: i32,
}

/// The absolute value of `x`.
pub open spec fn abs(x: int) -> int {
    if x < 0 {
        -x
    } else {
        x
    }
}

/// Ten to the power `n`.
pub open spec fn pow10(n: nat) -> int
    decreases n,
{
    if n == 0 {
        1
    } else {
        10 * pow10((n - 1) as nat)
    }
}

impl Decimal {
    /// The number is `numerator() / denominator()`.
    pub open spec fn numerator(self) -> int {
        if self.scale >= 0 {
            self.mantissa as int
        } else {
            self.mantissa * pow10((-self.scale) as nat)
        }
    }

    /// The number is `numerator() / denominator()`.
    pub open spec fn denominator(self) -> int {
        if self.scale >= 0 {
            pow10(self.scale as nat)
        } else {
            1
        }
    }

    /// `self < other` as numbers: cross-multiplied by the denominators.
    pub open spec fn below(self, other: Decimal) -> bool {
        self.numerator() * other.denominator() < other.numerator() * self.denominator()
    }

    /// The number is above zero.
    pub open spec fn positive(self) -> bool {
        self.mantissa > 0
    }

    /// The number is below zero.
    pub open spec fn negative(self) -> bool {
        self.mantissa < 0
    }

    /// `|self| < |other|` as numbers.
    pub open spec fn smaller(self, other: Decimal) -> bool {
        abs(self.numerator()) * other.denominator() < abs(other.numerator()) * self.denominator()
    }

    /// Whether the number is above zero.
    pub fn is_positive(&self) -> (r: bool)
        ensures
            r == self.positive(),
    {
        self.mantissa > 0
    }

    /// Whether the number is below zero.
    pub fn is_negative(&self) -> (r: bool)
        ensures
            r == self.negative(),
    {
        self.mantissa < 0
    }
}

/// Earth gravitational parameter [km³/s²] (WGS-84): 398600.4418.
pub open spec fn mu_value() -> Decimal {
    Decimal { mantissa: 3986004418, scale: 4 }
}

/// Earth gravitational parameter [km³/s²] (WGS-84): 398600.4418.
pub fn mu() -> (d: Decimal)
    ensures
        d == mu_value(),
{
    Decimal { mantissa: 3986004418, scale: 4 }
}

/// Earth equatorial radius [km] (WGS-84): 6378.137.
pub open spec fn r_value() -> Decimal {
    Decimal { mantissa: 6378137, scale: 3 }
}

/// Earth equatorial radius [km] (WGS-84): 6378.137.
pub fn r() -> (d: Decimal)
    ensures
        d == r_value(),
{
    Decimal { mantissa: 6378137, scale: 3 }
}

/// Earth J2 zonal harmonic coefficient (WGS-84 / EGM96): 1.08263e-3.
pub open spec fn j2_value() -> Decimal {
    Decimal { mantissa: 108263, scale: 8 }
}

/// Earth J2 zonal harmonic coefficient (WGS-84 / EGM96): 1.08263e-3.
pub fn j2() -> (d: Decimal)
    ensures
        d == j2_value(),
{
    Decimal { mantissa: 108263, scale: 8 }
}

/// Earth J3 zonal harmonic coefficient (WGS-84 / EGM96): -2.5356e-6.
pub open spec fn j3_value() -> Decimal {
    Decimal { mantissa: -25356i64, scale: 10 }
}

/// Earth J3 zonal harmonic coefficient (WGS-84 / EGM96): -2.5356e-6.
pub fn j3() -> (d: Decimal)
    ensures
        d == j3_value(),
{
    Decimal { mantissa: -25356i64, scale: 10 }
}

/// Earth J4 zonal harmonic coefficient (WGS-84 / EGM96): -1.6199e-6.
pub open spec fn j4_value() -> Decimal {
    Decimal { mantissa: -16199i64, scale: 10 }
}

/// Earth J4 zonal harmonic coefficient (WGS-84 / EGM96): -1.6199e-6.
pub fn j4() -> (d: Decimal)
    ensures
        d == j4_value(),
{
    Decimal { mantissa: -16199i64, scale: 10 }
}

/// Nominal mean Earth angular velocity [rad/s] (WGS-84): 7.292115e-5.
pub open spec fn omega_value() -> Decimal {
    Decimal { mantissa: 7292115, scale: 11 }
}

/// Nominal mean Earth angular velocity [rad/s] (WGS-84): 7.292115e-5.
pub fn omega() -> (d: Decimal)
    ensures
        d == omega_value(),
{
    Decimal { mantissa: 7292115, scale: 11 }
}

/// The signs of the constants: μ, R, J2 and ω are positive; J3 and J4 are
/// negative.
pub proof fn law_constant_signs()
    ensures
        mu_value().positive(),
        r_value().positive(),
        j2_value().positive(),
        j3_value().negative(),
        j4_value().negative(),
        omega_value().positive(),
{
}

/// J2 dominates the higher zonal harmonics: J2 > |J3| > |J4|.
pub proof fn law_j2_dominates()
    ensures
        j3_value().smaller(j2_value()),
        j4_value().smaller(j3_value()),
{
    assert(pow10(0) == 1);
    assert(pow10(1) == 10);
    assert(pow10(2) == 100);
    assert(pow10(3) == 1000);
    assert(pow10(4) == 10000);
    assert(pow10(5) == 100000);
    assert(pow10(6) == 1000000);
    assert(pow10(7) == 10000000);
    assert(pow10(8) == 100000000);
    assert(pow10(9) == 1000000000);
    assert(pow10(10) == 10000000000);
}

} // verus!
