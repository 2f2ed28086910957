use tgrade_contracts::common::Decimal;
use tgrade_contracts::mixer::{MixerError, PoEFunction, PoEFunctionType, Sigmoid, Step};

fn ratio(num: u128, den: u128) -> Decimal {
    Decimal { atomics: num * 1_000_000_000_000_000_000 / den }
}

#[test]
fn mixer_sigmoid_works() {
    let sigmoid = Sigmoid::new(1000, ratio(68, 100), ratio(3, 100000));

    // either 0 -> 0
    assert_eq!(sigmoid.rewards(0, 123456).unwrap(), 0);
    assert_eq!(sigmoid.rewards(7777, 0).unwrap(), 0);

    // Basic math checks (no rounding)
    // Values from PoE paper, Appendix A, "root of engagement" curve
    assert_eq!(sigmoid.rewards(5, 1000).unwrap(), 4);
    assert_eq!(sigmoid.rewards(5, 100000).unwrap(), 112);
    assert_eq!(sigmoid.rewards(1000, 1000).unwrap(), 178);
    assert_eq!(sigmoid.rewards(1000, 100000).unwrap(), 999);
    assert_eq!(sigmoid.rewards(100000, 100000).unwrap(), 1000);

    // Rounding down (697.8821566)
    assert_eq!(sigmoid.rewards(100, 100000).unwrap(), 697);

    // Overflow checks
    let err = sigmoid.rewards(u64::MAX, u64::MAX).unwrap_err();
    assert_eq!(err, MixerError::WeightOverflow);

    // Very big, but positive in the i64 range
    let very_big = i64::MAX as u64;
    let err = sigmoid.rewards(very_big, very_big).unwrap_err();
    assert_eq!(err, MixerError::ComputationOverflow(Step::Powd));

    // Precise limit
    let very_big = 32_313_447;
    assert_eq!(sigmoid.rewards(very_big, very_big).unwrap(), 1000);
    let err = sigmoid.rewards(very_big, very_big + 1).unwrap_err();
    assert_eq!(err, MixerError::ComputationOverflow(Step::Powd));
}

#[test]
fn configured_functions_compute_rewards() {
    let geometric = PoEFunctionType::GeometricMean.to_poe_fn();
    assert_eq!(geometric.rewards(4, 9), Ok(6));
    let sigmoid = PoEFunctionType::Sigmoid { max_rewards: 1000, p: ratio(68, 100), s: ratio(3, 100000) }.to_poe_fn();
    assert!(matches!(sigmoid, PoEFunction::Sigmoid(_)));
    assert_eq!(sigmoid.rewards(1000, 1000), Ok(178));
}

#[test]
fn sigmoid_rejects_too_large_maximum() {
    let sigmoid = Sigmoid::new(u64::MAX, ratio(68, 100), ratio(3, 100000));
    assert_eq!(sigmoid.rewards(1, 1), Err(MixerError::RewardOverflow));
}
