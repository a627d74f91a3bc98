//! Angles against the same formulas on the machine's numbers.
use route_deviation::angles::{normalize_deg, smallest_angle_diff_deg};
use route_deviation::binary64::Binary64;

fn wrap(x: f64) -> Binary64 {
    Binary64 { bits: x.to_bits() }
}

fn unwrap(x: Binary64) -> f64 {
    f64::from_bits(x.bits)
}

fn normalized(x: f64) -> f64 {
    ((x % 360.0) + 360.0) % 360.0
}

fn between(a: f64, b: f64) -> f64 {
    let d = (a - b + 540.0) % 360.0 - 180.0;
    d.abs()
}

fn bearings() -> Vec<f64> {
    let mut all = vec![
        0.0, -0.0, 1e-20, -1e-20, 89.99999999999999, 90.0, 179.99999999999997, 180.0,
        180.00000000000003, 269.5, 359.99999999999994, 360.0, -90.0, -255.99999999999997, -360.0,
        720.25, 1e10, -1e18, 1e300, f64::MAX,
    ];
    let mut x = -725.0;
    while x < 725.0 {
        all.push(x);
        x += 7.3;
    }
    all
}

#[test]
fn normalization_follows_the_formula() {
    for x in bearings() {
        let r = normalize_deg(wrap(x));
        assert_eq!(r.bits, normalized(x).to_bits(), "{x}");
        assert!((0.0..360.0).contains(&unwrap(r)), "{x}");
    }
    assert_eq!(unwrap(normalize_deg(wrap(-90.0))), 270.0);
    assert_eq!(unwrap(normalize_deg(wrap(725.5))), 5.5);
    assert_eq!(unwrap(normalize_deg(wrap(360.0))), 0.0);
}

#[test]
fn normalization_of_no_angle_is_no_angle() {
    for x in [f64::NAN, f64::INFINITY, f64::NEG_INFINITY] {
        assert!(unwrap(normalize_deg(wrap(x))).is_nan());
    }
}

#[test]
fn difference_follows_the_formula() {
    for a in bearings() {
        for b in bearings() {
            let (a, b) = (normalized(a), normalized(b));
            let r = smallest_angle_diff_deg(wrap(a), wrap(b));
            assert_eq!(r.bits, between(a, b).to_bits(), "{a} {b}");
            assert!((0.0..=180.0).contains(&unwrap(r)));
        }
    }
    assert_eq!(unwrap(smallest_angle_diff_deg(wrap(270.0), wrap(90.0))), 180.0);
    assert_eq!(unwrap(smallest_angle_diff_deg(wrap(350.0), wrap(10.0))), 20.0);
    assert_eq!(unwrap(smallest_angle_diff_deg(wrap(10.0), wrap(350.0))), 20.0);
    assert_eq!(unwrap(smallest_angle_diff_deg(wrap(45.5), wrap(45.5))), 0.0);
}

#[test]
fn whole_degrees_are_exact() {
    for a in 0u16..1000 {
        assert_eq!(unwrap(normalize_deg(Binary64::from_u16(a))), f64::from(a % 360));
    }
    for n in -1000i32..1000 {
        let r = normalize_deg(wrap(f64::from(n)));
        assert_eq!(r.bits, f64::from(n.rem_euclid(360)).to_bits());
    }
    for a in 0u16..360 {
        for b in [0u16, 1, 45, 90, 179, 180, 181, 270, 359] {
            let d = a.abs_diff(b);
            let r = smallest_angle_diff_deg(Binary64::from_u16(a), Binary64::from_u16(b));
            assert_eq!(unwrap(r), f64::from(d.min(360 - d)));
        }
    }
}
