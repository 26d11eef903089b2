use skyblock_flipper::backfill::{repeat_after_seconds, tag_updates, Backfill, Step};
use skyblock_flipper::cache::PriceCache;
use skyblock_flipper::cofl::{
    fingerprint_of, major_modifier_key_of, HistoricalSale, ReconstructedAttributes,
};
use skyblock_flipper::grouping::{median_entries, Group};
use skyblock_flipper::nbt::{Compound, Value};
use skyblock_flipper::pricing::{PriceEntry, PriceSource};
use skyblock_flipper::shared::SharedPriceCache;

fn sale(tag: &str, price: u64, sold_at: i64, hot_potato_count: Option<i32>) -> HistoricalSale {
    HistoricalSale {
        item_tag: tag.to_string(),
        sale_price: price,
        sold_at,
        extra_attributes: None,
        reconstructed: ReconstructedAttributes { hot_potato_count, ..Default::default() },
    }
}

/// Runs a crawl to its end; `page` answers for a tag and a page number, and
/// `None` is a failure. Gives the cache and the pages asked for.
fn run<F: Fn(&str, u32) -> Option<Vec<HistoricalSale>>>(
    crawl: &mut Backfill,
    page: F,
) -> (PriceCache, Vec<(String, u32, bool)>) {
    let mut cache = PriceCache::new();
    let mut asked = Vec::new();
    loop {
        match crawl.step() {
            Step::Fetch { item_tag, page: number, pause } => {
                match page(&item_tag, number) {
                    Some(sales) => crawl.page_fetched(sales),
                    None => crawl.page_failed(),
                }
                asked.push((item_tag, number, pause));
            }
            Step::Seed(updates) => {
                updates.seed(&mut cache);
            }
            Step::Done => return (cache, asked),
        }
    }
}

#[test]
fn backfill_seeds_the_price_cache_from_multiple_sales() {
    let mut crawl = Backfill::new(vec!["HYPERION".to_string()], 5);
    let (cache, asked) = run(&mut crawl, |_, page| {
        Some(if page == 0 {
            vec![
                sale("HYPERION", 1_000_000, 1_609_459_200_000, None),
                sale("HYPERION", 2_000_000, 1_609_545_600_000, None),
            ]
        } else {
            vec![]
        })
    });
    assert_eq!(asked.len(), 2);
    assert!(!asked[0].2);
    assert!(asked[1].2);

    let stats = crawl.stats();
    assert_eq!(stats.item_tags_attempted, 1);
    assert_eq!(stats.sales_fetched, 2);
    assert_eq!(stats.fingerprints_loaded, 1);
    assert_eq!(stats.exact_entries_seeded, 1);
    assert_eq!(stats.major_modifier_entries_seeded, 1);
    assert_eq!(stats.base_item_entries_seeded, 1);
    assert_eq!(stats.sales_from_reconstruction, 2);

    let sample = sale("HYPERION", 0, 0, None);
    let exact = cache.get_exact(fingerprint_of(&sample)).unwrap();
    assert_eq!(exact.sample_size, 2);
    assert_eq!(exact.source, PriceSource::Historical);
    assert_eq!(exact.estimated_value, 2_000_000);
    assert_eq!(exact.updated_at_tick, 1_609_545_600_000);

    let major = cache.get_major(major_modifier_key_of(&sample)).unwrap();
    assert_eq!(major.sample_size, 2);
    assert_eq!(major.estimated_value, 2_000_000);

    let base = cache.get_base("HYPERION").unwrap();
    assert_eq!(base.sample_size, 2);
    assert_eq!(base.estimated_value, 2_000_000);
}

#[test]
fn backfill_seeds_the_major_modifier_and_base_tiers_across_distinct_exact_fingerprints() {
    let mut crawl = Backfill::new(vec!["HYPERION".to_string()], 5);
    let (cache, _) = run(&mut crawl, |_, page| {
        Some(if page == 0 {
            vec![
                sale("HYPERION", 1_000_000, 1_609_459_200_000, Some(5)),
                sale("HYPERION", 3_000_000, 1_609_545_600_000, Some(10)),
            ]
        } else {
            vec![]
        })
    });
    assert_eq!(crawl.stats().exact_entries_seeded, 2);
    assert_eq!(crawl.stats().major_modifier_entries_seeded, 2);
    assert_eq!(crawl.stats().base_item_entries_seeded, 1);
    assert_eq!(cache.get_base("HYPERION").unwrap().sample_size, 2);
}

#[test]
fn a_failed_page_ends_its_tag_and_not_the_crawl() {
    let tags = vec!["A".to_string(), "B".to_string(), "C".to_string()];
    let mut crawl = Backfill::new(tags, 2);
    let (cache, asked) = run(&mut crawl, |tag, page| match (tag, page) {
        ("A", 0) => Some(vec![sale("A", 5, 1, None)]),
        ("A", _) => None,
        ("B", _) => None,
        _ => Some(vec![sale("C", 7 + page as u64, 1, None)]),
    });
    let pages: Vec<(&str, u32)> = asked.iter().map(|a| (a.0.as_str(), a.1)).collect();
    assert_eq!(pages, vec![("A", 0), ("A", 1), ("B", 0), ("C", 0), ("C", 1)]);
    let stats = crawl.stats();
    assert_eq!(stats.fetch_errors, 2);
    assert_eq!(stats.item_tags_attempted, 3);
    assert_eq!(stats.sales_fetched, 3);
    assert_eq!(cache.get_base("A").unwrap().estimated_value, 5);
    assert_eq!(cache.get_base("B"), None);
    assert_eq!(cache.get_base("C").unwrap().estimated_value, 8);
}

#[test]
fn no_pages_per_tag_means_no_requests() {
    let mut crawl = Backfill::new(vec!["A".to_string()], 0);
    let (cache, asked) = run(&mut crawl, |_, _| None);
    assert!(asked.is_empty());
    assert!(cache.is_empty());
    assert_eq!(crawl.stats().item_tags_attempted, 1);
}

#[test]
fn sales_count_by_where_their_attributes_come_from() {
    let mut known = sale("A", 5, 1, None);
    known.extra_attributes = Some(Value::Compound(Compound::new()));
    let mut crawl = Backfill::new(vec!["A".to_string()], 1);
    run(&mut crawl, |_, _| Some(vec![known.clone(), sale("A", 6, 1, None)]));
    assert_eq!(crawl.stats().sales_from_real_nbt, 1);
    assert_eq!(crawl.stats().sales_from_reconstruction, 1);
}

#[test]
fn sales_of_other_tags_are_grouped_under_their_own() {
    let updates = tag_updates(&vec![
        sale("A", 5, 9, None),
        sale("B", 6, 2, None),
        sale("A", 4, 3, None),
    ]);
    let base: Vec<(&str, u64, u32, i64)> = updates
        .base
        .iter()
        .map(|(k, e)| (k.as_str(), e.estimated_value, e.sample_size, e.updated_at_tick))
        .collect();
    assert_eq!(base, vec![("A", 5, 2, 9), ("B", 6, 1, 2)]);
}

#[test]
fn the_median_is_the_upper_middle_price() {
    let group = |prices: Vec<u64>| Group { key: "k".to_string(), prices, latest: 3 };
    let entries = median_entries(vec![
        group(vec![5]),
        group(vec![9, 1]),
        group(vec![3, 9, 1]),
        group(vec![4, 4, 1, 9]),
    ]);
    let values: Vec<u64> = entries.iter().map(|(_, e)| e.estimated_value).collect();
    assert_eq!(values, vec![5, 9, 3, 4]);
    assert_eq!(
        entries[2].1,
        PriceEntry {
            estimated_value: 3,
            sample_size: 3,
            updated_at_tick: 3,
            source: PriceSource::Historical,
        }
    );
}

#[test]
fn every_sale_counts_once_at_every_tier() {
    let sales = vec![
        sale("A", 5, 9, None),
        sale("B", 6, 2, Some(10)),
        sale("A", 4, 3, Some(10)),
        sale("A", 4, 3, None),
    ];
    let updates = tag_updates(&sales);
    let exact: u32 = updates.exact.iter().map(|(_, e)| e.sample_size).sum();
    let major: u32 = updates.major.iter().map(|(_, e)| e.sample_size).sum();
    let base: u32 = updates.base.iter().map(|(_, e)| e.sample_size).sum();
    assert_eq!((exact, major, base), (4, 4, 4));
    assert_eq!((updates.exact.len(), updates.major.len(), updates.base.len()), (3, 3, 2));
}

#[test]
fn a_shared_cache_is_seeded_tier_by_tier() {
    let sales = vec![
        sale("A", 5, 9, None),
        sale("A", 4, 3, Some(10)),
        sale("B", 6, 2, None),
    ];
    let cache = SharedPriceCache::new();
    let stats = tag_updates(&sales).seed_shared(&cache);
    assert_eq!(stats.map(|s| s.inserted_new), [3, 3, 2]);
    let mut alone = PriceCache::new();
    tag_updates(&sales).seed(&mut alone);
    let shared = cache.snapshot();
    for sale in &sales {
        let exact = fingerprint_of(sale);
        let major = major_modifier_key_of(sale);
        assert!(shared.get_exact(exact).is_some());
        assert_eq!(shared.get_exact(exact), alone.get_exact(exact));
        assert_eq!(shared.get_major(major), alone.get_major(major));
        assert_eq!(shared.get_base(&sale.item_tag), alone.get_base(&sale.item_tag));
    }
    assert_eq!(shared.exact_len(), 3);
    assert_eq!(shared.major_len(), 3);
    assert_eq!(shared.base_len(), 2);
}

#[test]
fn a_crawl_repeats_after_its_interval() {
    assert_eq!(repeat_after_seconds(0), None);
    assert_eq!(repeat_after_seconds(1), Some(60));
    assert_eq!(repeat_after_seconds(720), Some(43_200));
    assert_eq!(repeat_after_seconds(u64::MAX), Some(u64::MAX));
}
