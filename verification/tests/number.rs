use cherenkov::number::{Real32, Real64};

fn wide(x: f64) -> Real64 {
    Real64 { bits: x.to_bits() }
}

fn short(x: f32) -> Real32 {
    Real32 { bits: x.to_bits() }
}

const SAMPLES: [f64; 12] = [
    f64::NEG_INFINITY,
    -2.5,
    -1e-310,
    -0.0,
    0.0,
    1e-310,
    1.0,
    1.5,
    25.0,
    f64::MAX,
    f64::INFINITY,
    f64::NAN,
];

#[test]
fn wide_comparisons_agree_with_the_machine() {
    for a in SAMPLES {
        for b in SAMPLES {
            assert_eq!(wide(a).below(&wide(b)), a < b, "{a} {b}");
            assert_eq!(wide(a).at_most(&wide(b)), a <= b, "{a} {b}");
            assert_eq!(wide(a).equals(&wide(b)), a == b, "{a} {b}");
        }
        assert_eq!(wide(a).is_nan(), a.is_nan());
        assert_eq!(wide(a).is_finite(), a.is_finite());
    }
}

#[test]
fn short_comparisons_agree_with_the_machine() {
    for a in SAMPLES.map(|x| x as f32) {
        for b in SAMPLES.map(|x| x as f32) {
            assert_eq!(short(a).below(&short(b)), a < b, "{a} {b}");
            assert_eq!(short(a).at_most(&short(b)), a <= b, "{a} {b}");
            assert_eq!(short(a).equals(&short(b)), a == b, "{a} {b}");
        }
        assert_eq!(short(a).is_nan(), a.is_nan());
        assert_eq!(short(a).is_finite(), a.is_finite());
    }
}

#[test]
fn total_keys_order_as_total_comparison_does() {
    for a in SAMPLES {
        for b in SAMPLES {
            assert_eq!(wide(a).total_key() < wide(b).total_key(), a.total_cmp(&b).is_lt());
            let (c, d) = (a as f32, b as f32);
            assert_eq!(short(c).total_key() < short(d).total_key(), c.total_cmp(&d).is_lt());
        }
    }
}

#[test]
fn exactly_one_comparison_holds_of_two_numbers() {
    for a in SAMPLES.iter().filter(|x| !x.is_nan()) {
        for b in SAMPLES.iter().filter(|x| !x.is_nan()) {
            let (a, b) = (wide(*a), wide(*b));
            let held = [a.below(&b), a.equals(&b), b.below(&a)];
            assert_eq!(held.iter().filter(|h| **h).count(), 1);
        }
    }
}

#[test]
fn nothing_compares_with_what_is_no_number() {
    let none = wide(f64::NAN);
    for a in SAMPLES {
        assert!(!none.below(&wide(a)) && !wide(a).below(&none) && !none.equals(&wide(a)));
    }
}
