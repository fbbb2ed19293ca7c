use orts::earth::{j2, j3, j4, mu, omega, r, Decimal};

/// The binary64 value nearest a decimal constant.
fn value(d: Decimal) -> f64 {
    if d.scale >= 0 {
        d.mantissa as f64 / 10f64.powi(d.scale)
    } else {
        d.mantissa as f64 * 10f64.powi(-d.scale)
    }
}

#[test]
fn mu_is_positive() {
    assert!(value(mu()) > 0.0);
}

#[test]
fn r_is_positive() {
    assert!(value(r()) > 0.0);
}

#[test]
fn surface_gravity_approximate() {
    // g ≈ μ/R² ≈ 9.798e-3 km/s² ≈ 9.798 m/s²
    let g = value(mu()) / (value(r()) * value(r()));
    assert!((g - 9.798e-3).abs() < 0.01e-3);
}

#[test]
fn j2_is_positive() {
    assert!(value(j2()) > 0.0);
}

#[test]
fn j3_is_negative() {
    assert!(value(j3()) < 0.0);
}

#[test]
fn j4_is_negative() {
    assert!(value(j4()) < 0.0);
}

#[test]
fn j2_dominates_higher_harmonics() {
    assert!(value(j2()) > value(j3()).abs());
    assert!(value(j3()).abs() > value(j4()).abs());
}

#[test]
fn the_constants_are_the_published_values() {
    assert_eq!(value(mu()), 398600.4418);
    assert_eq!(value(r()), 6378.137);
    assert_eq!(value(j2()), 1.08263e-3);
    assert_eq!(value(j3()), -2.5356e-6);
    assert_eq!(value(j4()), -1.6199e-6);
    assert_eq!(value(omega()), 7.292_115e-5);
}

#[test]
fn signs_are_read_from_the_mantissa() {
    assert!(mu().is_positive());
    assert!(!mu().is_negative());
    assert!(j3().is_negative());
    assert!(!j3().is_positive());
    let zero = Decimal { mantissa: 0, scale: 3 };
    assert!(!zero.is_positive());
    assert!(!zero.is_negative());
}

#[test]
fn a_negative_scale_multiplies() {
    let big = Decimal { mantissa: 17, scale: -300 };
    assert!(big.is_positive());
    assert!((value(big) / 1.7e301 - 1.0).abs() < 1e-12);
}
