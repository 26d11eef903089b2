use base64::prelude::{Engine as _, BASE64_STANDARD};
use fastnbt::Value as Nbt;
use flate2::{write::GzEncoder, Compression};
use skyblock_flipper::auction::RawAuction;
use skyblock_flipper::cache::PriceCache;
use skyblock_flipper::engine::{Appraisal, FeeSchedule, FlipThresholds, FlipVerdict};
use skyblock_flipper::fingerprint::fingerprint;
use skyblock_flipper::notify::FlipDeduplicator;
use skyblock_flipper::parser::{ParseError, ParsedItem};
use skyblock_flipper::pipeline::{
    count_fingerprints, evaluate_tick, observe_prices, parse_batch, process_tick, run_tick,
};
use skyblock_flipper::pricing::{PriceEntry, PriceSource};
use skyblock_flipper::shared::{SharedPriceCache, TierUpdates};
use std::collections::HashMap;
use std::io::Write;

fn item(uuid: &str, id: &str, starting_bid: u64, bin: bool) -> ParsedItem {
    ParsedItem {
        uuid: uuid.to_string(),
        auctioneer: "s".to_string(),
        skyblock_item_id: id.to_string(),
        display_name: format!("the {id}"),
        count: 1,
        starting_bid,
        bin,
        end: 1_000_000,
        extra_attributes: None,
    }
}

fn price(value: u64, samples: u32, tick: i64, source: PriceSource) -> PriceEntry {
    PriceEntry { estimated_value: value, sample_size: samples, updated_at_tick: tick, source }
}

fn fees() -> FeeSchedule<f64> {
    FeeSchedule { tax_rate: 0.01, minimum_tax: 0 }
}

fn thresholds() -> FlipThresholds<f64> {
    FlipThresholds::standard(10.0, 1_000.0, 1.5, 3.0)
}

fn share(price: u64, rate: f64) -> u64 {
    (price as f64 * rate).round() as u64
}

fn appraise(profit: i64, buy_price: u64, max: f64, min: f64, factor: Option<f64>) -> Appraisal<f64> {
    let roi_percent = (profit as f64 / buy_price as f64) * 100.0;
    Appraisal {
        roi_percent,
        implausible: roi_percent > max,
        clears_bar: roi_percent >= min * factor.unwrap_or(1.0),
    }
}

#[test]
fn flips_become_alerts_in_order() {
    let mut cache = PriceCache::new();
    let a = item("a", "A", 1_000_000, true);
    cache.update_exact_batch(vec![(
        fingerprint(&a),
        price(2_000_000, 5, 100, PriceSource::Live),
    )]);
    cache.update_base_batch(vec![(
        "B".to_string(),
        price(3_000_000, 50, 100, PriceSource::Historical),
    )]);
    let items = vec![
        a,
        item("b", "B", 1_000_000, true),
        item("c", "A", 1_990_000, true),
        item("d", "UNKNOWN", 1, true),
        item("e", "A", 1, false),
    ];
    let result = evaluate_tick(&items, 100, &cache, &fees(), &thresholds(), &share, &appraise);
    assert_eq!(result.verdicts.len(), 5);
    assert!(result.verdicts[0].is_flip());
    assert!(result.verdicts[1].is_flip());
    assert!(matches!(result.verdicts[2], FlipVerdict::BelowThreshold(_)));
    assert_eq!(result.verdicts[3], FlipVerdict::NoPriceData);
    assert_eq!(result.verdicts[4], FlipVerdict::NotBin);
    assert_eq!(result.below_threshold, 1);
    assert_eq!(result.alerts.len(), 2);
    let first = &result.alerts[0];
    assert_eq!(first.auction_uuid, "a");
    assert_eq!(first.viewauction_command, "/viewauction a");
    assert_eq!(first.item_name, "the A");
    assert_eq!(first.profit, 980_000);
    assert_eq!(first.tier, "Exact");
    assert_eq!(first.price_source, "Live");
    assert_eq!(first.auction_end, 1_000_000);
    assert_eq!(result.alerts[1].tier, "Base");
    assert_eq!(result.alerts[1].price_source, "COFL");
}

#[test]
fn a_tick_shows_its_cheapest_listings() {
    let items = vec![
        item("a", "A", 500, true),
        item("b", "A", 300, true),
        item("c", "A", 1, false),
        item("d", "B", 7, true),
        item("e", "A", 400, true),
    ];
    let mut seen: Vec<(u64, u32, i64)> = observe_prices(&items, 9)
        .iter()
        .map(|(_, e)| (e.estimated_value, e.sample_size, e.updated_at_tick))
        .collect();
    seen.sort();
    assert_eq!(seen, vec![(7, 1, 9), (300, 3, 9)]);
    assert!(observe_prices(&Vec::new(), 9).is_empty());
}

#[test]
fn auctions_are_not_held_against_prices_of_their_own_tick() {
    let cache = SharedPriceCache::new();
    let mut dedup = FlipDeduplicator::new();
    let items = vec![item("a", "A", 1_000_000, true), item("b", "A", 3_000_000, true)];
    let report = run_tick(
        &items,
        100,
        &cache,
        &mut dedup,
        &fees(),
        &thresholds(),
        &share,
        &appraise,
    );
    assert!(report.new_flips.is_empty());
    assert_eq!(report.below_threshold, 0);
    assert_eq!(report.unique_fingerprints, 1);
    assert_eq!(report.priced_fingerprints, 1);
    assert_eq!(report.merge_stats.inserted_new, 1);
    let known = cache.snapshot().get_exact(fingerprint(&items[0])).unwrap();
    assert_eq!(known, price(1_000_000, 2, 100, PriceSource::Live));
}

#[test]
fn a_flip_is_reported_once() {
    let cache = SharedPriceCache::new();
    let a = item("a", "A", 1_000_000, true);
    cache.update(TierUpdates::Exact(vec![(
        fingerprint(&a),
        price(2_000_000, 5, 100, PriceSource::Historical),
    )]));
    let mut dedup = FlipDeduplicator::new();
    let items = vec![a];
    let first = run_tick(
        &items, 100, &cache, &mut dedup, &fees(), &thresholds(), &share, &appraise,
    );
    assert_eq!(first.new_flips.len(), 1);
    assert_eq!(first.merge_stats.overwritten, 1);
    cache.update(TierUpdates::Exact(vec![(
        fingerprint(&items[0]),
        price(2_000_000, 5, 100, PriceSource::Historical),
    )]));
    let second = run_tick(
        &items, 101, &cache, &mut dedup, &fees(), &thresholds(), &share, &appraise,
    );
    assert!(second.new_flips.is_empty());
}

fn compound(pairs: Vec<(&str, Nbt)>) -> Nbt {
    let mut map = HashMap::new();
    for (k, v) in pairs {
        map.insert(k.to_string(), v);
    }
    Nbt::Compound(map)
}

fn raw(uuid: &str, item_bytes: String) -> RawAuction {
    RawAuction {
        uuid: uuid.to_string(),
        auctioneer: "s".to_string(),
        item_name: "n".to_string(),
        starting_bid: 1,
        item_bytes,
        bin: Some(true),
        end: 1,
    }
}

#[test]
fn auctions_that_cannot_be_parsed_are_set_aside() {
    let stack = compound(vec![
        ("Count", Nbt::Byte(1)),
        (
            "tag",
            compound(vec![(
                "ExtraAttributes",
                compound(vec![("id", Nbt::String("STICK".to_string()))]),
            )]),
        ),
    ]);
    let value = compound(vec![("i", Nbt::List(vec![stack]))]);
    let mut encoder = GzEncoder::new(Vec::new(), Compression::default());
    encoder.write_all(&fastnbt::to_bytes(&value).unwrap()).unwrap();
    let good = BASE64_STANDARD.encode(encoder.finish().unwrap());
    let batch = parse_batch(&vec![
        raw("a", good.clone()),
        raw("b", "?".to_string()),
        raw("c", good),
    ]);
    let uuids: Vec<&str> = batch.items.iter().map(|i| i.uuid.as_str()).collect();
    assert_eq!(uuids, vec!["a", "c"]);
    assert_eq!(batch.failures.len(), 1);
    assert_eq!(batch.failures[0].0, 1);
    assert!(matches!(batch.failures[0].1, ParseError::Base64(_)));
}

#[test]
fn a_tick_is_judged_by_the_prices_that_it_is_given() {
    let mut before = PriceCache::new();
    let a = item("a", "A", 1_000_000, true);
    before.update_exact_batch(vec![(
        fingerprint(&a),
        price(2_000_000, 5, 100, PriceSource::Live),
    )]);
    let items = vec![a, item("b", "A", 1, true), item("c", "B", 5, false)];
    let mut dedup = FlipDeduplicator::new();
    let outcome = process_tick(
        &items, 100, &before, &mut dedup, &fees(), &thresholds(), &share, &appraise,
    );
    assert_eq!(outcome.new_flips.len(), 1);
    assert_eq!(outcome.new_flips[0].auction_uuid, "a");
    assert_eq!(outcome.new_flips[0].estimated_value, 2_000_000);
    assert_eq!(outcome.unique_fingerprints, 2);
    assert_eq!(outcome.below_threshold, 0);
}

#[test]
fn fingerprints_are_counted_once() {
    assert_eq!(count_fingerprints(&vec![]), 0);
    let items = vec![
        item("a", "A", 1, true),
        item("b", "A", 2, false),
        item("c", "B", 3, true),
    ];
    assert_eq!(count_fingerprints(&items), 2);
}
