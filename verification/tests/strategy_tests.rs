use fhe_life::strategy::{select_strategy, Strategy, StrategyKind};
use fhe_life::LifeError;

#[test]
fn fused_regimes_select_their_layout() {
    assert_eq!(
        select_strategy(StrategyKind::FusedLookup, 16, 1),
        Ok(Strategy::FusedTwoStep)
    );
    assert_eq!(
        select_strategy(StrategyKind::FusedLookup, 2, 8),
        Ok(Strategy::FusedTwoStep)
    );
    assert_eq!(
        select_strategy(StrategyKind::FusedLookup, 2, 16),
        Ok(Strategy::FusedPacked)
    );
    assert_eq!(
        select_strategy(StrategyKind::FusedLookup, 16, 2),
        Ok(Strategy::FusedPacked)
    );
    assert_eq!(
        select_strategy(StrategyKind::FusedLookup, 32, 1),
        Ok(Strategy::FusedPacked)
    );
}

#[test]
fn fused_small_capacity_is_unsupported() {
    // Every context advertising a combined capacity below nine must be
    // rejected before any ciphertext work.
    for (msg, carry) in [(2u64, 2u64), (8, 1), (1, 8), (2, 4), (4, 2), (1, 1), (0, 0), (0, 16)] {
        assert_eq!(
            select_strategy(StrategyKind::FusedLookup, msg, carry),
            Err(LifeError::UnsupportedParameterRegime)
        );
    }
}

#[test]
fn fused_unlisted_large_capacity_is_unsupported() {
    // Ample capacity, but not one of the enumerated table layouts.
    for (msg, carry) in [(4u64, 4u64), (8, 4), (64, 1), (4, 8)] {
        assert_eq!(
            select_strategy(StrategyKind::FusedLookup, msg, carry),
            Err(LifeError::UnsupportedParameterRegime)
        );
    }
}

#[test]
fn integer_sum_needs_nine_values() {
    assert_eq!(
        select_strategy(StrategyKind::IntegerSum, 3, 3),
        Ok(Strategy::IntegerSum)
    );
    assert_eq!(
        select_strategy(StrategyKind::IntegerSum, 16, 1),
        Ok(Strategy::IntegerSum)
    );
    assert_eq!(
        select_strategy(StrategyKind::IntegerSum, 4, 4),
        Ok(Strategy::IntegerSum)
    );
    assert_eq!(
        select_strategy(StrategyKind::IntegerSum, 2, 4),
        Err(LifeError::CapacityOverflow)
    );
    assert_eq!(
        select_strategy(StrategyKind::IntegerSum, 0, 5),
        Err(LifeError::CapacityOverflow)
    );
}

#[test]
fn bit_slice_needs_three_values() {
    assert_eq!(
        select_strategy(StrategyKind::BitSlice, 2, 2),
        Ok(Strategy::BitSlice)
    );
    assert_eq!(
        select_strategy(StrategyKind::BitSlice, 3, 1),
        Ok(Strategy::BitSlice)
    );
    assert_eq!(
        select_strategy(StrategyKind::BitSlice, 1, 2),
        Err(LifeError::CapacityOverflow)
    );
    assert_eq!(
        select_strategy(StrategyKind::BitSlice, 2, 0),
        Err(LifeError::CapacityOverflow)
    );
}
