//! Scalar fixed-point arithmetic, trigonometry accuracy, and the ARGB
//! packing laws on concrete values.
use insploray::fx::{fx_div, fx_gamma, fx_mul, fx_pow, fx_sqrt, ONE};
use insploray::trig::{acos_fx, atan2_fx, atan_fx, cos_fx, sin_fx, HALF_PI_FX, PI_FX, TWO_PI_FX};
use insploray::utils::convert_to_argb;
use insploray::vec::{Vec3, Vec4};

fn fx(v: f64) -> i64 {
    (v * 4294967296.0) as i64
}

fn to_f(r: i64) -> f64 {
    r as f64 / 4294967296.0
}

#[test]
fn fixed_mul_and_div_are_exact_on_integers() {
    assert_eq!(fx_mul(3 * ONE, 4 * ONE), 12 * ONE);
    assert_eq!(fx_mul(-3 * ONE, 4 * ONE), -12 * ONE);
    assert_eq!(fx_div(12 * ONE, 4 * ONE), 3 * ONE);
    assert_eq!(fx_div(-12 * ONE, 4 * ONE), -3 * ONE);
    // Truncation toward zero on both signs.
    assert_eq!(fx_div(ONE, 3 * ONE), 1431655765);
    assert_eq!(fx_div(-ONE, 3 * ONE), -1431655765);
}

#[test]
fn fixed_sqrt_is_exact_on_squares() {
    assert_eq!(fx_sqrt(4 * ONE), 2 * ONE);
    assert_eq!(fx_sqrt(9 * ONE), 3 * ONE);
    assert_eq!(fx_sqrt(0), 0);
    let r = fx_sqrt(2 * ONE);
    assert!((to_f(r) - 1.4142135623).abs() < 1e-9);
}

#[test]
fn trig_matches_reference_within_tolerance() {
    let cases = [0.0f64, 0.1975, -0.7941, -1.9074, 1.0, 3.0, -2.5, 6.0];
    for &a in cases.iter() {
        let raw = fx(a);
        assert!((to_f(sin_fx(raw)) - a.sin()).abs() < 1e-6, "sin({})", a);
        assert!((to_f(cos_fx(raw)) - a.cos()).abs() < 1e-6, "cos({})", a);
    }
    assert_eq!(sin_fx(0), 0);
    assert_eq!(cos_fx(0), ONE);
    assert!((to_f(PI_FX) - std::f64::consts::PI).abs() < 1e-9);
    assert!((to_f(TWO_PI_FX) - 2.0 * std::f64::consts::PI).abs() < 1e-9);
    assert!((to_f(HALF_PI_FX) - 0.5 * std::f64::consts::PI).abs() < 1e-9);
}

#[test]
fn atan_matches_reference_within_tolerance() {
    let cases = [0.0f64, 0.25, 0.7857142857142857, 1.0, 2.5, -0.5, -3.0];
    for &a in cases.iter() {
        assert!((to_f(atan_fx(fx(a))) - a.atan()).abs() < 1e-7, "atan({})", a);
    }
    let quads = [(1.0f64, 1.0f64), (1.0, -1.0), (-1.0, 1.0), (-1.0, -1.0), (0.0, 1.0), (1.0, 0.0)];
    for &(y, x) in quads.iter() {
        let got = to_f(atan2_fx(fx(y), fx(x)));
        assert!((got - y.atan2(x)).abs() < 1e-6, "atan2({}, {})", y, x);
    }
    assert!((to_f(acos_fx(0)) - std::f64::consts::FRAC_PI_2).abs() < 1e-6);
    assert!((to_f(acos_fx(ONE)) - 0.0).abs() < 1e-6);
    assert!((to_f(acos_fx(-ONE)) - std::f64::consts::PI).abs() < 1e-5);
}

#[test]
fn gamma_matches_power_curve() {
    // x^(1/2.2) == x^(5/11).
    assert_eq!(fx_gamma(0), 0);
    assert_eq!(fx_gamma(ONE), ONE);
    let cases = [0.5f64, 0.2, 0.9, 0.0625];
    for &x in cases.iter() {
        let got = to_f(fx_gamma(fx(x)));
        let want = x.powf(5.0 / 11.0);
        assert!((got - want).abs() < 1e-4, "gamma({}) = {} want {}", x, got, want);
    }
    assert_eq!(fx_pow(fx(0.5), 2), fx(0.25));
}

#[test]
fn argb_pack_matches_the_bit_layout() {
    // pack(1,0,0,1) == opaque red; unpack recovers it at 8-bit precision.
    let red = convert_to_argb(&Vec4 { x: ONE, y: 0, z: 0, w: ONE });
    assert_eq!(red, 0xFFFF0000u32);
    assert_eq!((red >> 24) & 0xFF, 255);
    assert_eq!((red >> 16) & 0xFF, 255);
    assert_eq!((red >> 8) & 0xFF, 0);
    assert_eq!(red & 0xFF, 0);
    assert_eq!(convert_to_argb(&Vec4 { x: 0, y: 0, z: 0, w: 0 }), 0x00000000u32);
    assert_eq!(convert_to_argb(&Vec4 { x: ONE, y: ONE, z: ONE, w: ONE }), 0xFFFFFFFFu32);
}

#[test]
fn argb_channels_round_trip_within_one_step() {
    let cases = [0.0f64, 0.125, 0.2, 0.5, 0.75, 0.999, 1.0];
    for &c in cases.iter() {
        let stored = fx(c);
        let packed = convert_to_argb(&Vec4 { x: stored, y: 0, z: 0, w: ONE });
        let channel = ((packed >> 16) & 0xFF) as f64 / 255.0;
        assert!((channel - to_f(stored)).abs() < 1.0 / 255.0, "round trip {}", c);
    }
}

#[test]
fn vectors_normalize_to_unit_length() {
    let v = Vec3 { x: 3 * ONE, y: 4 * ONE, z: 0 };
    let n = v.normalize();
    let len = (to_f(n.x).powi(2) + to_f(n.y).powi(2) + to_f(n.z).powi(2)).sqrt();
    assert!((len - 1.0).abs() < 1e-6);
    assert!((to_f(n.x) - 0.6).abs() < 1e-6);
    assert!((to_f(n.y) - 0.8).abs() < 1e-6);
    let axis = Vec3 { x: 0, y: 0, z: -ONE };
    let na = axis.normalize();
    assert_eq!((na.x, na.y, na.z), (0, 0, -ONE));
}
