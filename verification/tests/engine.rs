use skyblock_flipper::engine::{self, Appraisal, FeeSchedule, FlipThresholds, FlipVerdict};
use skyblock_flipper::parser::ParsedItem;
use skyblock_flipper::pricing::{PriceEntry, PriceLookup, PriceSource, PriceTier};

/// The part of a price that a rate takes, to the nearest coin.
fn share(price: u64, rate: f64) -> u64 {
    let part = (price as f64 * rate).round();
    part.clamp(0.0, u64::MAX as f64) as u64
}

fn appraise(profit: i64, buy_price: u64, max: f64, min: f64, factor: Option<f64>) -> Appraisal<f64> {
    let roi_percent = (profit as f64 / buy_price as f64) * 100.0;
    Appraisal {
        roi_percent,
        implausible: roi_percent > max,
        clears_bar: roi_percent >= min * factor.unwrap_or(1.0),
    }
}

fn default_fees() -> FeeSchedule<f64> {
    FeeSchedule { tax_rate: 0.01, minimum_tax: 0 }
}

fn default_thresholds() -> FlipThresholds<f64> {
    FlipThresholds::standard(10.0, 1_000.0, 1.5, 3.0)
}

fn evaluate(
    item: &ParsedItem,
    price: Option<PriceLookup>,
    current_tick: i64,
    fees: &FeeSchedule<f64>,
    thresholds: &FlipThresholds<f64>,
) -> FlipVerdict<f64> {
    engine::evaluate(item, price, current_tick, fees, thresholds, &share, &appraise)
}


fn item(bin: bool, starting_bid: u64) -> ParsedItem {
    ParsedItem {
        uuid: "auction-uuid".to_string(),
        auctioneer: "seller-uuid".to_string(),
        skyblock_item_id: "HYPERION".to_string(),
        display_name: "Hyperion".to_string(),
        count: 1,
        starting_bid,
        bin,
        end: 1_690_003_600_000,
        extra_attributes: None,
    }
}

/// A live price under an exact fingerprint.
fn price(estimated_value: u64, sample_size: u32, updated_at_tick: i64) -> PriceLookup {
    PriceLookup {
        entry: PriceEntry {
            estimated_value,
            sample_size,
            updated_at_tick,
            source: PriceSource::Live,
        },
        tier: PriceTier::Exact,
    }
}

fn historical_price(
    estimated_value: u64,
    sample_size: u32,
    updated_at_tick: i64,
) -> PriceLookup {
    PriceLookup {
        entry: PriceEntry {
            estimated_value,
            sample_size,
            updated_at_tick,
            source: PriceSource::Historical,
        },
        tier: PriceTier::Exact,
    }
}

fn tiered_price(
    estimated_value: u64,
    sample_size: u32,
    updated_at_tick: i64,
    tier: PriceTier,
) -> PriceLookup {
    PriceLookup {
        tier,
        ..price(estimated_value, sample_size, updated_at_tick)
    }
}

#[test]
fn non_bin_auction_is_ignored_regardless_of_price() {
    let verdict = evaluate(
        &item(false, 100),
        Some(price(1_000_000, 5, 100)),
        100,
        &default_fees(),
        &default_thresholds(),
    );
    assert_eq!(verdict, FlipVerdict::NotBin);
}

#[test]
fn missing_price_data_is_reported_and_does_not_panic() {
    let verdict = evaluate(
        &item(true, 100),
        None,
        100,
        &default_fees(),
        &default_thresholds(),
    );
    assert_eq!(verdict, FlipVerdict::NoPriceData);
}

#[test]
fn insufficient_sample_size_is_skipped() {
    let thresholds = FlipThresholds {
        min_sample_size: 3,
        ..default_thresholds()
    };
    let verdict = evaluate(
        &item(true, 100),
        Some(price(1_000_000, 1, 100)),
        100,
        &default_fees(),
        &thresholds,
    );
    assert_eq!(
        verdict,
        FlipVerdict::InsufficientSampleSize { sample_size: 1 }
    );
}

#[test]
fn stale_price_is_skipped() {
    let thresholds = FlipThresholds {
        max_price_age_ticks: 5,
        ..default_thresholds()
    };
    let verdict = evaluate(
        &item(true, 100),
        Some(price(1_000_000, 5, 10)),
        20,
        &default_fees(),
        &thresholds,
    );
    assert_eq!(verdict, FlipVerdict::StalePrice { age_ticks: 10 });
}

#[test]
fn default_live_staleness_survives_at_least_one_hypixel_tick_interval() {
    assert!(
        default_thresholds().max_price_age_ticks > 60_000,
        "max_price_age_ticks must be large enough to survive at least \
         one ~60s Hypixel tick interval, or every live price is stale \
         immediately"
    );
}

#[test]
fn live_price_a_few_ticks_old_is_still_usable_under_the_default() {
    let thresholds = default_thresholds();
    let verdict = evaluate(
        &item(true, 1_000_000),
        Some(price(2_000_000, 5, 0)),
        120_000,
        &default_fees(),
        &thresholds,
    );
    assert!(!matches!(verdict, FlipVerdict::StalePrice { .. }));
}

#[test]
fn historical_price_days_old_is_still_usable() {
    let thresholds = default_thresholds();
    let seven_days_ms = 7 * 24 * 60 * 60 * 1000;

    let verdict = evaluate(
        &item(true, 1_000_000),
        Some(historical_price(2_000_000, 5, 0)),
        seven_days_ms,
        &default_fees(),
        &thresholds,
    );
    assert!(!matches!(verdict, FlipVerdict::StalePrice { .. }));
}

#[test]
fn historical_price_beyond_its_own_ceiling_is_stale() {
    let thresholds = default_thresholds();
    let ninety_days_ms = 90 * 24 * 60 * 60 * 1000;

    let verdict = evaluate(
        &item(true, 1_000_000),
        Some(historical_price(2_000_000, 5, 0)),
        ninety_days_ms,
        &default_fees(),
        &thresholds,
    );
    assert!(matches!(verdict, FlipVerdict::StalePrice { .. }));
}

#[test]
fn live_price_that_would_be_fine_if_historical_is_stale_as_live() {
    let thresholds = default_thresholds();
    let seven_days_ms = 7 * 24 * 60 * 60 * 1000;

    let verdict = evaluate(
        &item(true, 1_000_000),
        Some(price(2_000_000, 5, 0)),
        seven_days_ms,
        &default_fees(),
        &thresholds,
    );
    assert!(matches!(verdict, FlipVerdict::StalePrice { .. }));
}

#[test]
fn out_of_order_ticks_do_not_produce_negative_age_or_panic() {
    let verdict = evaluate(
        &item(true, 100),
        Some(price(1_000_000, 5, 100)),
        50,
        &default_fees(),
        &default_thresholds(),
    );
    assert!(!matches!(verdict, FlipVerdict::StalePrice { .. }));
}

#[test]
fn zero_buy_price_is_invalid_not_a_divide_by_zero_panic() {
    let verdict = evaluate(
        &item(true, 0),
        Some(price(1_000_000, 5, 100)),
        100,
        &default_fees(),
        &default_thresholds(),
    );
    assert_eq!(verdict, FlipVerdict::InvalidPriceData);
}

#[test]
fn zero_estimated_value_is_invalid() {
    let verdict = evaluate(
        &item(true, 100),
        Some(price(0, 5, 100)),
        100,
        &default_fees(),
        &default_thresholds(),
    );
    assert_eq!(verdict, FlipVerdict::InvalidPriceData);
}

#[test]
fn profitable_flip_matches_hand_computed_numbers() {
    let fees = FeeSchedule {
        tax_rate: 0.01,
        minimum_tax: 0,
    };
    let thresholds = default_thresholds();

    let verdict = evaluate(
        &item(true, 1_000_000),
        Some(price(2_000_000, 5, 100)),
        100,
        &fees,
        &thresholds,
    );

    match verdict {
        FlipVerdict::Flip(profit) => {
            assert_eq!(profit.tax, 20_000);
            assert_eq!(profit.expected_profit, 980_000);
            assert!((profit.roi_percent - 98.0).abs() < 1e-9);
        }
        other => panic!("expected Flip, got {other:?}"),
    }
}

#[test]
fn thin_profit_below_thresholds_is_not_reported_as_a_flip() {
    let thresholds = FlipThresholds {
        min_profit: 1_000_000,
        min_roi_percent: 5.0,
        ..default_thresholds()
    };

    let verdict = evaluate(
        &item(true, 1_000_000),
        Some(price(1_050_000, 5, 100)),
        100,
        &FeeSchedule {
            tax_rate: 0.0,
            minimum_tax: 0,
        },
        &thresholds,
    );

    assert!(matches!(verdict, FlipVerdict::BelowThreshold(_)));
    assert!(!verdict.is_flip());
}

#[test]
fn overpriced_auction_is_a_signed_loss_not_a_panic() {
    let verdict = evaluate(
        &item(true, 2_000_000),
        Some(price(1_000_000, 5, 100)),
        100,
        &default_fees(),
        &default_thresholds(),
    );

    match verdict {
        FlipVerdict::BelowThreshold(profit) => {
            assert!(profit.expected_profit < 0);
            assert!(profit.roi_percent < 0.0);
        }
        other => panic!("expected BelowThreshold with a loss, got {other:?}"),
    }
}

#[test]
fn implausible_roi_is_rejected_as_a_false_positive_guard() {
    let thresholds = FlipThresholds {
        max_plausible_roi_percent: 500.0,
        ..default_thresholds()
    };

    let verdict = evaluate(
        &item(true, 100),
        Some(price(100_000_000, 5, 100)),
        100,
        &default_fees(),
        &thresholds,
    );

    assert!(matches!(verdict, FlipVerdict::ImplausibleRoi { .. }));
}

#[test]
fn minimum_tax_floor_is_applied_on_cheap_resales() {
    let fees = FeeSchedule {
        tax_rate: 0.01,
        minimum_tax: 500,
    };
    assert_eq!(fees.tax_on(1_000, share), 500);
    assert_eq!(fees.tax_on(1_000_000, share), 10_000);
}

#[test]
fn extreme_values_do_not_overflow_or_panic() {
    let verdict = evaluate(
        &item(true, 1),
        Some(price(u64::MAX, 5, 100)),
        100,
        &default_fees(),
        &FlipThresholds {
            max_plausible_roi_percent: f64::MAX,
            ..default_thresholds()
        },
    );
    let _ = verdict;
}


#[test]
fn exact_tier_is_trusted_even_at_low_confidence() {
    let verdict = evaluate(
        &item(true, 1_000_000),
        Some(price(2_000_000, 2, 100)),
        100,
        &default_fees(),
        &default_thresholds(),
    );
    assert!(!matches!(
        verdict,
        FlipVerdict::InsufficientSampleSize { .. }
    ));
}

#[test]
fn major_modifier_tier_below_medium_confidence_is_rejected() {
    let verdict = evaluate(
        &item(true, 1_000_000),
        Some(tiered_price(2_000_000, 5, 100, PriceTier::MajorModifiers)),
        100,
        &default_fees(),
        &default_thresholds(),
    );
    assert_eq!(
        verdict,
        FlipVerdict::InsufficientSampleSize { sample_size: 5 }
    );
}

#[test]
fn major_modifier_tier_at_medium_confidence_passes_the_gate() {
    let verdict = evaluate(
        &item(true, 1_000_000),
        Some(tiered_price(2_000_000, 10, 100, PriceTier::MajorModifiers)),
        100,
        &default_fees(),
        &default_thresholds(),
    );
    assert!(!matches!(
        verdict,
        FlipVerdict::InsufficientSampleSize { .. }
    ));
}

#[test]
fn base_item_tier_below_high_confidence_is_rejected() {
    let verdict = evaluate(
        &item(true, 1_000_000),
        Some(tiered_price(2_000_000, 20, 100, PriceTier::BaseItem)),
        100,
        &default_fees(),
        &default_thresholds(),
    );
    assert_eq!(
        verdict,
        FlipVerdict::InsufficientSampleSize { sample_size: 20 }
    );
}

#[test]
fn base_item_tier_at_high_confidence_passes_the_gate() {
    let verdict = evaluate(
        &item(true, 1_000_000),
        Some(tiered_price(2_000_000, 50, 100, PriceTier::BaseItem)),
        100,
        &default_fees(),
        &default_thresholds(),
    );
    assert!(!matches!(
        verdict,
        FlipVerdict::InsufficientSampleSize { .. }
    ));
}


#[test]
fn major_modifier_tier_needs_a_bigger_roi_margin_than_exact() {
    let thresholds = FlipThresholds {
        min_profit: 0,
        min_roi_percent: 20.0,
        ..default_thresholds()
    };
    let fees = FeeSchedule {
        tax_rate: 0.0,
        minimum_tax: 0,
    };

    let exact_verdict = evaluate(
        &item(true, 1_000_000),
        Some(tiered_price(1_250_000, 50, 100, PriceTier::Exact)),
        100,
        &fees,
        &thresholds,
    );
    assert!(exact_verdict.is_flip());

    let major_verdict = evaluate(
        &item(true, 1_000_000),
        Some(tiered_price(1_250_000, 50, 100, PriceTier::MajorModifiers)),
        100,
        &fees,
        &thresholds,
    );
    assert!(matches!(major_verdict, FlipVerdict::BelowThreshold(_)));
}

#[test]
fn base_item_tier_needs_an_even_bigger_roi_margin() {
    let thresholds = FlipThresholds {
        min_profit: 0,
        min_roi_percent: 10.0,
        ..default_thresholds()
    };
    let fees = FeeSchedule {
        tax_rate: 0.0,
        minimum_tax: 0,
    };

    let verdict = evaluate(
        &item(true, 1_000_000),
        Some(tiered_price(1_200_000, 50, 100, PriceTier::BaseItem)),
        100,
        &fees,
        &thresholds,
    );
    assert!(matches!(verdict, FlipVerdict::BelowThreshold(_)));

    let verdict = evaluate(
        &item(true, 1_000_000),
        Some(tiered_price(1_400_000, 50, 100, PriceTier::BaseItem)),
        100,
        &fees,
        &thresholds,
    );
    assert!(verdict.is_flip());
}

#[test]
fn profit_calculation_reports_which_tier_it_came_from() {
    let verdict = evaluate(
        &item(true, 1_000_000),
        Some(tiered_price(2_000_000, 50, 100, PriceTier::MajorModifiers)),
        100,
        &default_fees(),
        &default_thresholds(),
    );
    match verdict {
        FlipVerdict::Flip(profit) => assert_eq!(profit.tier, PriceTier::MajorModifiers),
        other => panic!("expected Flip, got {other:?}"),
    }
}

#[test]
fn the_cheaper_listing_promises_no_less_profit() {
    let cheap = engine::expected_profit(900_000, 2_000_000, 20_000);
    let dear = engine::expected_profit(1_000_000, 2_000_000, 20_000);
    let taxed = engine::expected_profit(900_000, 2_000_000, 40_000);
    assert_eq!(cheap, 1_080_000);
    assert_eq!(dear, 980_000);
    assert_eq!(taxed, 1_060_000);
    assert_eq!(engine::expected_profit(u64::MAX, 0, 0), i64::MIN);
}

#[test]
fn a_flip_at_a_coarser_tier_is_a_flip_at_the_exact_one() {
    for tier in [PriceTier::MajorModifiers, PriceTier::BaseItem] {
        let at = |tier| {
            evaluate(
                &item(true, 1_000_000),
                Some(tiered_price(2_000_000, 60, 100, tier)),
                100,
                &default_fees(),
                &default_thresholds(),
            )
        };
        match (at(tier), at(PriceTier::Exact)) {
            (FlipVerdict::Flip(coarse), FlipVerdict::Flip(exact)) => {
                assert_eq!(coarse.tier, tier);
                assert_eq!(exact.tier, PriceTier::Exact);
                assert_eq!(coarse.expected_profit, exact.expected_profit);
                assert_eq!(coarse.tax, exact.tax);
                assert_eq!(coarse.roi_percent, exact.roi_percent);
                assert_eq!(coarse.sample_size, exact.sample_size);
            }
            other => panic!("expected two flips, got {other:?}"),
        }
    }
}
