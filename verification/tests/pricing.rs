use skyblock_flipper::batch::MergeStats;
use skyblock_flipper::cache::PriceCache;
use skyblock_flipper::fingerprint::Fingerprint;
use skyblock_flipper::pricing::{Confidence, PriceEntry, PriceSource, PriceTier};

fn entry(value: u64) -> PriceEntry {
    PriceEntry {
        estimated_value: value,
        sample_size: 1,
        updated_at_tick: 1_000,
        source: PriceSource::Live,
    }
}

fn entry_with_samples(value: u64, sample_size: u32) -> PriceEntry {
    PriceEntry {
        estimated_value: value,
        sample_size,
        updated_at_tick: 1_000,
        source: PriceSource::Live,
    }
}

fn historical_entry(value: u64, sample_size: u32) -> PriceEntry {
    PriceEntry {
        estimated_value: value,
        sample_size,
        updated_at_tick: 1_000,
        source: PriceSource::Historical,
    }
}

#[test]
fn confidence_thresholds() {
    assert_eq!(Confidence::from_sample_size(0), Confidence::Low);
    assert_eq!(Confidence::from_sample_size(9), Confidence::Low);
    assert_eq!(Confidence::from_sample_size(10), Confidence::Medium);
    assert_eq!(Confidence::from_sample_size(49), Confidence::Medium);
    assert_eq!(Confidence::from_sample_size(50), Confidence::High);
    assert_eq!(Confidence::from_sample_size(10_000), Confidence::High);
}

#[test]
fn confidence_is_ordered() {
    assert!(Confidence::Low < Confidence::Medium);
    assert!(Confidence::Medium < Confidence::High);
}

#[test]
fn price_entry_confidence_matches_sample_size() {
    assert_eq!(entry_with_samples(1, 3).confidence(), Confidence::Low);
    assert_eq!(entry_with_samples(1, 20).confidence(), Confidence::Medium);
    assert_eq!(entry_with_samples(1, 200).confidence(), Confidence::High);
}

#[test]
fn get_on_empty_cache_returns_none_at_every_tier_without_panicking() {
    let cache = PriceCache::new();
    assert_eq!(
        cache.get(Fingerprint(42), Fingerprint(43), "HYPERION"),
        None
    );
}

#[test]
fn exact_tier_hit_is_returned_and_tagged() {
    let mut cache = PriceCache::new();
    cache.update_exact_batch(vec![(Fingerprint(1), entry(1_000_000))]);

    let lookup = cache
        .get(Fingerprint(1), Fingerprint(99), "HYPERION")
        .unwrap();
    assert_eq!(lookup.entry, entry(1_000_000));
    assert_eq!(lookup.tier, PriceTier::Exact);
}

#[test]
fn falls_back_to_major_modifier_tier_when_exact_misses() {
    let mut cache = PriceCache::new();
    cache.update_major_batch(vec![(Fingerprint(2), entry(500_000))]);

    let lookup = cache
        .get(Fingerprint(1), Fingerprint(2), "HYPERION")
        .unwrap();
    assert_eq!(lookup.entry, entry(500_000));
    assert_eq!(lookup.tier, PriceTier::MajorModifiers);
}

#[test]
fn falls_back_to_base_item_tier_when_exact_and_major_miss() {
    let mut cache = PriceCache::new();
    cache.update_base_batch(vec![("HYPERION".to_string(), entry(250_000))]);

    let lookup = cache
        .get(Fingerprint(1), Fingerprint(2), "HYPERION")
        .unwrap();
    assert_eq!(lookup.entry, entry(250_000));
    assert_eq!(lookup.tier, PriceTier::BaseItem);
}

#[test]
fn exact_tier_always_wins_when_all_three_have_data() {
    let mut cache = PriceCache::new();
    cache.update_exact_batch(vec![(Fingerprint(1), entry(1_000_000))]);
    cache.update_major_batch(vec![(Fingerprint(2), entry(500_000))]);
    cache.update_base_batch(vec![("HYPERION".to_string(), entry(250_000))]);

    let lookup = cache
        .get(Fingerprint(1), Fingerprint(2), "HYPERION")
        .unwrap();
    assert_eq!(lookup.tier, PriceTier::Exact);
    assert_eq!(lookup.entry.estimated_value, 1_000_000);
}

#[test]
fn major_tier_wins_over_base_tier_when_both_have_data() {
    let mut cache = PriceCache::new();
    cache.update_major_batch(vec![(Fingerprint(2), entry(500_000))]);
    cache.update_base_batch(vec![("HYPERION".to_string(), entry(250_000))]);

    let lookup = cache
        .get(Fingerprint(1), Fingerprint(2), "HYPERION")
        .unwrap();
    assert_eq!(lookup.tier, PriceTier::MajorModifiers);
}

#[test]
fn updating_the_same_exact_fingerprint_with_the_same_live_source_merges_not_overwrites() {
    let mut cache = PriceCache::new();
    cache.update_exact_batch(vec![(Fingerprint(1), entry(1_000_000))]);
    let stats = cache.update_exact_batch(vec![(Fingerprint(1), entry(2_000_000))]);

    assert_eq!(
        cache.get_exact(Fingerprint(1)),
        Some(entry_with_samples(1_500_000, 2))
    );
    assert_eq!(cache.exact_len(), 1);
    assert_eq!(stats.live_merged, 1);
    assert_eq!(stats.overwritten, 0);
    assert_eq!(stats.inserted_new, 0);
}

#[test]
fn updating_the_same_base_item_id_with_the_same_live_source_merges_not_overwrites() {
    let mut cache = PriceCache::new();
    cache.update_base_batch(vec![("HYPERION".to_string(), entry(1_000_000))]);
    let stats = cache.update_base_batch(vec![("HYPERION".to_string(), entry(2_000_000))]);

    assert_eq!(
        cache.get_base("HYPERION"),
        Some(entry_with_samples(1_500_000, 2))
    );
    assert_eq!(cache.base_len(), 1);
    assert_eq!(stats.live_merged, 1);
}

#[test]
fn cross_source_update_still_overwrites_outright() {
    let mut cache = PriceCache::new();
    cache.update_exact_batch(vec![(Fingerprint(1), historical_entry(1_000_000, 40))]);
    let stats = cache.update_exact_batch(vec![(Fingerprint(1), entry(2_000_000))]);

    assert_eq!(cache.get_exact(Fingerprint(1)), Some(entry(2_000_000)));
    assert_eq!(stats.live_merged, 0);
    assert_eq!(stats.overwritten, 1);
}

#[test]
fn historical_refresh_still_overwrites_outright() {
    let mut cache = PriceCache::new();
    cache.update_exact_batch(vec![(Fingerprint(1), historical_entry(1_000_000, 40))]);
    let stats = cache.update_exact_batch(vec![(Fingerprint(1), historical_entry(3_000_000, 60))]);

    assert_eq!(
        cache.get_exact(Fingerprint(1)),
        Some(historical_entry(3_000_000, 60))
    );
    assert_eq!(stats.live_merged, 0);
    assert_eq!(stats.overwritten, 1);
}

#[test]
fn merge_weights_by_existing_sample_size_not_a_plain_average() {
    let mut cache = PriceCache::new();
    cache.update_exact_batch(vec![(Fingerprint(1), entry_with_samples(1_000_000, 9))]);
    cache.update_exact_batch(vec![(Fingerprint(1), entry_with_samples(2_000_000, 1))]);

    let result = cache.get_exact(Fingerprint(1)).unwrap();
    assert_eq!(result.estimated_value, 1_100_000);
    assert_eq!(result.sample_size, 10);
}

#[test]
fn a_single_wild_observation_is_dampened_not_fully_trusted() {
    let mut cache = PriceCache::new();
    cache.update_exact_batch(vec![(Fingerprint(1), entry_with_samples(1_000_000, 9))]);
    cache.update_exact_batch(vec![(Fingerprint(1), entry_with_samples(100_000_000, 1))]);

    let result = cache.get_exact(Fingerprint(1)).unwrap();
    assert_eq!(result.estimated_value, 1_400_000);
    assert!(
        result.estimated_value < 10_000_000,
        "a single 100x outlier must not come close to dominating the average"
    );
}

#[test]
fn accumulated_sample_size_is_capped() {
    let mut cache = PriceCache::new();
    cache.update_exact_batch(vec![(Fingerprint(1), entry_with_samples(1_000_000, 199))]);
    cache.update_exact_batch(vec![(Fingerprint(1), entry_with_samples(1_000_000, 50))]);

    assert_eq!(cache.get_exact(Fingerprint(1)).unwrap().sample_size, 200);
}

#[test]
fn a_capped_entry_still_responds_to_new_observations() {
    let mut cache = PriceCache::new();
    cache.update_exact_batch(vec![(Fingerprint(1), entry_with_samples(1_000_000, 200))]);
    cache.update_exact_batch(vec![(Fingerprint(1), entry_with_samples(2_000_000, 1))]);

    let result = cache.get_exact(Fingerprint(1)).unwrap();
    assert!(
        result.estimated_value > 1_000_000,
        "a capped entry must still move in response to new data, got {}",
        result.estimated_value
    );
}

#[test]
fn unrelated_fingerprints_do_not_interfere_across_shards() {
    let mut cache = PriceCache::new();

    let updates: Vec<_> = (0..500u64)
        .map(|i| (Fingerprint(i), entry(i * 1_000)))
        .collect();
    cache.update_exact_batch(updates);

    assert_eq!(cache.exact_len(), 500);
    for i in 0..500u64 {
        assert_eq!(cache.get_exact(Fingerprint(i)), Some(entry(i * 1_000)));
    }
}

#[test]
fn empty_batches_are_a_no_op_at_every_tier() {
    let mut cache = PriceCache::new();
    cache.update_exact_batch(Vec::new());
    cache.update_major_batch(Vec::new());
    cache.update_base_batch(Vec::new());
    assert!(cache.is_empty());
}

#[test]
fn base_item_lookup_does_not_require_an_owned_string() {
    let mut cache = PriceCache::new();
    cache.update_base_batch(vec![("HYPERION".to_string(), entry(1))]);

    let owned = String::from("HYPERION");
    let borrowed: &str = &owned;
    assert_eq!(cache.get_base(borrowed), Some(entry(1)));
}

#[test]
fn stats_on_empty_cache_is_all_zero_without_panicking() {
    let cache = PriceCache::new();
    let stats = cache.stats();
    assert_eq!(stats.total_entries, 0);
    assert_eq!(stats.total_sample_size, 0);
    assert_eq!(stats.high_confidence_entries, 0);
    assert_eq!(stats.average_sample_size(0.0, |total, n| total as f64 / n as f64), 0.0);
}

#[test]
fn stats_aggregates_across_all_three_tiers() {
    let mut cache = PriceCache::new();
    cache.update_exact_batch(vec![(Fingerprint(1), entry_with_samples(1_000_000, 5))]);
    cache.update_major_batch(vec![(Fingerprint(2), entry_with_samples(2_000_000, 15))]);
    cache.update_base_batch(vec![("HYPERION".to_string(), entry_with_samples(3_000_000, 50))]);

    let stats = cache.stats();
    assert_eq!(stats.total_entries, 3);
    assert_eq!(stats.total_sample_size, 5 + 15 + 50);
    assert_eq!(stats.high_confidence_entries, 1);
    assert!((stats.average_sample_size(0.0, |total, n| total as f64 / n as f64) - (70.0 / 3.0)).abs() < 1e-9);
}

#[test]
fn merge_stats_distinguish_new_inserts_from_merges_and_overwrites() {
    let mut cache = PriceCache::new();

    let first = cache.update_exact_batch(vec![(Fingerprint(1), entry(1_000_000))]);
    assert_eq!(
        first,
        MergeStats {
            live_merged: 0,
            overwritten: 0,
            inserted_new: 1,
        }
    );

    let second = cache.update_exact_batch(vec![(Fingerprint(1), entry(2_000_000))]);
    assert_eq!(
        second,
        MergeStats {
            live_merged: 1,
            overwritten: 0,
            inserted_new: 0,
        }
    );
}
