use cherenkov::number::{Real32, Real64};
use cherenkov::options::{cut, positive, Options, OptionsError, PoolBudget};

fn wide(x: f64) -> Real64 {
    Real64 { bits: x.to_bits() }
}

fn short(x: f32) -> Real32 {
    Real32 { bits: x.to_bits() }
}

#[test]
fn pool_budget_reads_modes_and_sizes() {
    assert!(matches!(PoolBudget::from_text("adaptive", None), Some(PoolBudget::Adaptive)));
    assert!(matches!(PoolBudget::from_text("max", None), Some(PoolBudget::Max)));
    match PoolBudget::from_text("12.5", Some(wide(12.5))) {
        Some(PoolBudget::Gb(n)) => assert_eq!(f64::from_bits(n.bits), 12.5),
        other => panic!("{other:?}"),
    }
}

#[test]
fn pool_budget_refuses_what_is_no_size() {
    for x in [0.0, -1.0, f64::NAN, f64::INFINITY, -0.0] {
        assert!(PoolBudget::from_text("x", Some(wide(x))).is_none());
    }
    assert!(PoolBudget::from_text("many", None).is_none());
    assert_eq!(
        cherenkov::options::pool_error(),
        "pool must be a positive number of decimal GB, adaptive, or max"
    );
}

#[test]
fn positive_reads_counts() {
    assert_eq!(positive("64"), Ok(64));
    assert_eq!(positive("+7"), Ok(7));
    assert_eq!(positive("0"), Err("must be a positive integer"));
    assert_eq!(positive(""), Err("must be a positive integer"));
    assert_eq!(positive("-1"), Err("must be a positive integer"));
    assert_eq!(positive("1x"), Err("must be a positive integer"));
    assert_eq!(positive("99999999999999999999999"), Err("must be a positive integer"));
    assert_eq!(positive("18446744073709551615"), Ok(usize::MAX));
}

#[test]
fn cut_accepts_weights_from_zero_to_one() {
    assert!(cut(Some(short(0.0))).is_ok());
    assert!(cut(Some(short(1.0))).is_ok());
    assert!(cut(Some(short(0.25))).is_ok());
    assert!(cut(Some(short(1.0001))).is_err());
    assert!(cut(Some(short(-0.1))).is_err());
    assert!(cut(Some(short(f32::NAN))).is_err());
    assert!(cut(None).is_err());
}

#[test]
fn defaults_are_valid() {
    let o = Options::default();
    assert!(o.validate().is_ok());
    assert_eq!((o.experts, o.drafts, o.max_tokens, o.max_ctx, o.repeat), (4, 2, 64, 2048, 1));
    assert_eq!(o.miss_bits(), 4);
    assert!(o.build_missing_store && !o.repack && !o.raw && !o.check && !o.no_eos);
}

#[test]
fn each_option_error_has_an_input() {
    let valid = Options::default();
    let mut o = valid;
    o.experts = 5;
    assert_eq!(o.validate(), Err(OptionsError::Precision));
    let mut o = valid;
    o.experts = 3;
    o.miss_experts = Some(2);
    assert_eq!(o.validate(), Err(OptionsError::Mixed));
    let mut o = valid;
    o.repack = true;
    assert_eq!(o.validate(), Err(OptionsError::Repack));
    o.miss_experts = Some(3);
    assert_eq!(o.validate(), Ok(()));
    let mut o = valid;
    o.drafts = 4;
    assert_eq!(o.validate(), Err(OptionsError::Drafts));
    let mut o = valid;
    o.cut_weak = short(2.0);
    assert_eq!(o.validate(), Err(OptionsError::CutWeight));
    let mut o = valid;
    o.repeat = 0;
    assert_eq!(o.validate(), Err(OptionsError::Limits));
    let mut o = valid;
    o.pool_gb = PoolBudget::Gb(wide(-1.0));
    assert_eq!(o.validate(), Err(OptionsError::Pool));
    assert_eq!(OptionsError::Drafts.message(), "--drafts must be 0..3");
}
