use skyblock_flipper::batch::MergeStats;
use skyblock_flipper::cache::PriceCache;
use skyblock_flipper::fingerprint::Fingerprint;
use skyblock_flipper::pricing::{
    dampen_outlier, merge_price_entry, Confidence, MergeOutcome, PriceEntry, PriceSource,
    PriceTier,
};
use skyblock_flipper::shards::{shard_index, FingerprintHasher, FingerprintShardedMap};
use skyblock_flipper::shared::{SharedPriceCache, TierUpdates};
use skyblock_flipper::stats::CacheStats;
use std::sync::Arc;

fn live(value: u64, samples: u32, tick: i64) -> PriceEntry {
    PriceEntry {
        estimated_value: value,
        sample_size: samples,
        updated_at_tick: tick,
        source: PriceSource::Live,
    }
}

fn stats(live_merged: u64, overwritten: u64, inserted_new: u64) -> MergeStats {
    MergeStats { live_merged, overwritten, inserted_new }
}

#[test]
fn outliers_are_held_within_five_times_the_estimate() {
    assert_eq!(dampen_outlier(100, 499), 499);
    assert_eq!(dampen_outlier(100, 501), 500);
    assert_eq!(dampen_outlier(100, 19), 20);
    assert_eq!(dampen_outlier(100, 20), 20);
    assert_eq!(dampen_outlier(0, 7), 7);
    assert_eq!(dampen_outlier(3, 0), 1);
    assert_eq!(dampen_outlier(u64::MAX, u64::MAX), u64::MAX);
}

#[test]
fn merging_rounds_down_and_keeps_the_later_tick() {
    let (entry, outcome) = merge_price_entry(live(10, 2, 7), live(11, 1, 5));
    assert_eq!(entry, live(10, 3, 7));
    assert_eq!(outcome, MergeOutcome::LiveMerged);
    let (entry, _) = merge_price_entry(live(10, 1, 5), live(13, 2, 9));
    assert_eq!(entry, live(12, 3, 9));
}

#[test]
fn a_historical_price_replaces_a_live_one() {
    let past = PriceEntry { source: PriceSource::Historical, ..live(5, 1, 1) };
    assert_eq!(
        merge_price_entry(live(10, 200, 9), past),
        (past, MergeOutcome::Overwritten)
    );
}

#[test]
fn the_largest_prices_merge_without_overflow() {
    let (entry, _) = merge_price_entry(live(u64::MAX, u32::MAX, 1), live(u64::MAX, u32::MAX, 1));
    assert_eq!(entry, live(u64::MAX, 200, 1));
}

#[test]
fn one_wild_observation_moves_an_estimate_at_most_fivefold() {
    let (up, _) = merge_price_entry(live(1_000, 1, 1), live(u64::MAX, u32::MAX, 1));
    assert!(up.estimated_value <= 5_000);
    let (down, _) = merge_price_entry(live(1_000, 1, 1), live(0, u32::MAX, 1));
    assert!(down.estimated_value >= 200);
}

#[test]
fn confidence_ranks_from_low_to_high() {
    assert!(Confidence::Low.is_below(Confidence::Medium));
    assert!(Confidence::Low.is_below(Confidence::High));
    assert!(Confidence::Medium.is_below(Confidence::High));
    assert!(!Confidence::High.is_below(Confidence::High));
    assert!(!Confidence::Medium.is_below(Confidence::Low));
}

#[test]
fn updates_of_one_batch_apply_in_their_order() {
    let mut cache = PriceCache::new();
    let done = cache.update_exact_batch(vec![
        (Fingerprint(1), live(100, 1, 1)),
        (Fingerprint(65), live(7, 1, 1)),
        (Fingerprint(1), live(200, 1, 2)),
        (Fingerprint(2), live(9, 1, 1)),
    ]);
    assert_eq!(done, stats(1, 0, 3));
    assert_eq!(cache.get_exact(Fingerprint(1)), Some(live(150, 2, 2)));
    assert_eq!(cache.get_exact(Fingerprint(65)), Some(live(7, 1, 1)));
    assert_eq!(cache.get_exact(Fingerprint(2)), Some(live(9, 1, 1)));
    assert_eq!(cache.get_major(Fingerprint(1)), None);
    assert_eq!(cache.len(), 3);
}

#[test]
fn two_batches_do_what_one_long_batch_does() {
    let first = vec![(Fingerprint(1), live(100, 3, 1)), (Fingerprint(2), live(5, 1, 1))];
    let second = vec![(Fingerprint(1), live(300, 1, 2)), (Fingerprint(3), live(8, 1, 2))];
    let mut apart = PriceCache::new();
    let mut sum = apart.update_exact_batch(first.clone());
    sum.add(apart.update_exact_batch(second.clone()));
    let mut together = PriceCache::new();
    let both: Vec<_> = first.into_iter().chain(second).collect();
    assert_eq!(together.update_exact_batch(both), sum);
    for k in 1..4 {
        assert_eq!(apart.get_exact(Fingerprint(k)), together.get_exact(Fingerprint(k)));
    }
}

#[test]
fn a_copy_of_the_cache_does_not_see_later_updates() {
    let mut cache = PriceCache::new();
    cache.update_exact_batch(vec![(Fingerprint(1), live(100, 1, 1))]);
    cache.update_base_batch(vec![("A".to_string(), live(1, 1, 1))]);
    let copy = cache.duplicate();
    cache.update_exact_batch(vec![(Fingerprint(1), live(300, 1, 1))]);
    cache.update_base_batch(vec![("B".to_string(), live(2, 1, 1))]);
    assert_eq!(copy.get_exact(Fingerprint(1)), Some(live(100, 1, 1)));
    assert_eq!(copy.get_base("B"), None);
    assert_eq!(copy.base_len(), 1);
    assert_eq!(cache.get_exact(Fingerprint(1)), Some(live(200, 2, 1)));
}

#[test]
fn an_empty_cache_becomes_non_empty_in_any_tier() {
    assert!(PriceCache::default().is_empty());
    let mut a = PriceCache::new();
    a.update_exact_batch(vec![(Fingerprint(9), live(1, 1, 1))]);
    assert!(!a.is_empty());
    let mut b = PriceCache::new();
    b.update_major_batch(vec![(Fingerprint(9), live(1, 1, 1))]);
    assert!(!b.is_empty());
    assert_eq!(b.major_len(), 1);
    let mut c = PriceCache::new();
    c.update_base_batch(vec![("A".to_string(), live(1, 1, 1))]);
    assert!(!c.is_empty());
}

#[test]
fn shards_follow_the_low_bits() {
    assert_eq!(shard_index(Fingerprint(0)), 0);
    assert_eq!(shard_index(Fingerprint(63)), 63);
    assert_eq!(shard_index(Fingerprint(64)), 0);
    assert_eq!(shard_index(Fingerprint(u64::MAX)), 63);
    let mut hasher = FingerprintHasher::new();
    assert_eq!(hasher.finish(), 0);
    hasher.write_u64(42);
    assert_eq!(hasher.finish(), 42);
}

#[test]
fn a_sharded_map_counts_what_it_holds() {
    let mut map = FingerprintShardedMap::new();
    assert!(map.is_empty());
    let updates = (0..200u64).map(|i| (Fingerprint(i * 3), live(i, 50, 1))).collect();
    assert_eq!(map.update_batch(updates), stats(0, 0, 200));
    assert_eq!(map.len(), 200);
    let mut totals = CacheStats::default();
    map.fold_stats(&mut totals);
    assert_eq!(totals.total_entries, 200);
    assert_eq!(totals.total_sample_size, 10_000);
    assert_eq!(totals.high_confidence_entries, 200);
}

#[test]
fn a_shared_cache_shows_updates_to_later_snapshots_only() {
    let cache = SharedPriceCache::new();
    let before = cache.snapshot();
    let done = cache.update(TierUpdates::Exact(vec![(Fingerprint(1), live(100, 1, 1))]));
    assert_eq!(done, stats(0, 0, 1));
    let done = cache.update(TierUpdates::Exact(vec![
        (Fingerprint(1), live(300, 1, 1)),
        (Fingerprint(2), live(5, 1, 1)),
    ]));
    assert_eq!(done, stats(1, 0, 1));
    cache.update(TierUpdates::Major(vec![(Fingerprint(3), live(7, 1, 1))]));
    cache.update(TierUpdates::Base(vec![("A".to_string(), live(9, 1, 1))]));
    assert!(before.is_empty());
    let after = cache.snapshot();
    assert_eq!(after.get_exact(Fingerprint(1)), Some(live(200, 2, 1)));
    let found = after.get(Fingerprint(8), Fingerprint(3), "A").unwrap();
    assert_eq!(found.tier, PriceTier::MajorModifiers);
    let found = after.get(Fingerprint(8), Fingerprint(8), "A").unwrap();
    assert_eq!(found.entry, live(9, 1, 1));
    assert_eq!(after.len(), 4);
}

#[test]
fn concurrent_updates_to_the_same_shard_do_not_lose_data() {
    let cache = Arc::new(SharedPriceCache::new());
    let writers = 8;
    let per_writer = 50u64;
    let runtime = tokio::runtime::Builder::new_multi_thread()
        .worker_threads(4)
        .build()
        .unwrap();

    runtime.block_on(async {
        let mut handles = Vec::new();
        for w in 0..writers {
            let cache = Arc::clone(&cache);
            handles.push(tokio::task::spawn_blocking(move || {
                let updates: Vec<_> = (0..per_writer)
                    .map(|i| {
                        let fp = Fingerprint((w * per_writer + i) << 16);
                        (fp, live(w * per_writer + i, 1, 1_000))
                    })
                    .collect();
                cache.update(TierUpdates::Exact(updates))
            }));
        }
        let mut inserted = 0;
        for h in handles {
            let done = h.await.unwrap();
            assert_eq!(done, stats(0, 0, per_writer));
            inserted += done.inserted_new;
        }
        assert_eq!(inserted, writers * per_writer);
    });

    let after = cache.snapshot();
    assert_eq!(after.exact_len() as u64, writers * per_writer);
    for n in 0..writers * per_writer {
        assert_eq!(after.get_exact(Fingerprint(n << 16)), Some(live(n, 1, 1_000)));
    }
}

#[test]
fn what_a_batch_wrote_stands_until_a_later_one_names_its_key() {
    let cache = SharedPriceCache::new();
    cache.update(TierUpdates::Base(vec![
        ("A".to_string(), live(10, 1, 1)),
        ("B".to_string(), live(20, 1, 1)),
    ]));
    cache.update(TierUpdates::Exact(vec![(Fingerprint(1), live(5, 1, 1))]));
    cache.update(TierUpdates::Base(vec![("B".to_string(), live(40, 1, 2))]));
    let after = cache.snapshot();
    assert_eq!(after.get_base("A"), Some(live(10, 1, 1)));
    assert_eq!(after.get_base("B"), Some(live(30, 2, 2)));
    assert_eq!(after.get_exact(Fingerprint(1)), Some(live(5, 1, 1)));
}

#[test]
fn an_exchange_gives_the_cache_from_before_it() {
    let cache = SharedPriceCache::new();
    cache.update(TierUpdates::Exact(vec![(Fingerprint(1), live(100, 1, 1))]));
    let (before, done) =
        cache.exchange(TierUpdates::Exact(vec![(Fingerprint(1), live(300, 1, 2))]));
    assert_eq!(done, stats(1, 0, 0));
    assert_eq!(before.get_exact(Fingerprint(1)), Some(live(100, 1, 1)));
    assert_eq!(cache.snapshot().get_exact(Fingerprint(1)), Some(live(200, 2, 2)));
}
