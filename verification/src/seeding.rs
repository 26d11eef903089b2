//! What the crawl through past sales comes to.

use crate::backfill::{
    by_fingerprint, by_major_key, by_tag, real_count, ImportStats, Position, TagUpdates,
};
use crate::batch::law_distinct_updates_are_all_kept;
use crate::cache::{named, Prices};
use crate::cofl::{sale_attributes, HistoricalSale};
use crate::fingerprint::{exact_key, major_key};
use crate::grouping::{
    is_upper_median, keys_of, latest_of, law_every_sale_has_its_group, law_what_a_group_holds,
    law_what_a_summary_says, prices_of, summaries, Sighting,
};
use crate::pricing::PriceEntry;
use crate::shards::keyed;
use crate::shared::{distinct, holds_just};
use vstd::prelude::*;

verus! {

/// The prices of the sales under `key`, in their order.
pub open spec fn paid_under<V>(
    sales: Seq<HistoricalSale>,
    key_of: spec_fn(HistoricalSale) -> V,
    key: V,
) -> Seq<u64> {
    sales.filter(|s: HistoricalSale| key_of(s) == key).map_values(|s: HistoricalSale| s.sale_price)
}

/// `entries` are one price for each key of the sales: their upper median,
/// how many they are, and the time of the latest.
#[verifier::opaque]
pub open spec fn summed_up<V>(
    entries: Seq<(V, PriceEntry)>,
    sales: Seq<HistoricalSale>,
    key_of: spec_fn(HistoricalSale) -> V,
) -> bool {
    &&& forall|i: int, j: int|
        0 <= i < j < entries.len() ==> (#[trigger] entries[i]).0 != (#[trigger] entries[j]).0
    &&& forall|n: int|
        0 <= n < sales.len() ==> exists|i: int|
            0 <= i < entries.len() && (#[trigger] entries[i]).0 == key_of(#[trigger] sales[n])
    &&& forall|i: int|
        0 <= i < entries.len() ==> {
            let (key, entry) = #[trigger] entries[i];
            let paid = paid_under(sales, key_of, key);
            &&& paid.len() > 0
            &&& paid.len() <= u32::MAX ==> entry.sample_size == paid.len()
            &&& paid.len() <= u32::MAX ==> is_upper_median(entry.estimated_value, paid)
            &&& entry.source is Historical
            &&& exists|n: int|
                0 <= n < sales.len() && key_of(#[trigger] sales[n]) == key && sales[n].sold_at
                    == entry.updated_at_tick
            &&& forall|n: int|
                0 <= n < sales.len() && key_of(#[trigger] sales[n]) == key ==> sales[n].sold_at
                    <= entry.updated_at_tick
        }
}

proof fn lemma_filtered<V>(
    sales: Seq<HistoricalSale>,
    sightings: Seq<Sighting<V>>,
    key_of: spec_fn(HistoricalSale) -> V,
    key: V,
)
    requires
        sightings.len() == sales.len(),
        forall|i: int|
            0 <= i < sales.len() ==> (#[trigger] sightings[i]).key == key_of(sales[i])
                && sightings[i].price == sales[i].sale_price,
    ensures
        sightings.filter(|s: Sighting<V>| s.key == key).map_values(|s: Sighting<V>| s.price)
            == paid_under(sales, key_of, key),
    decreases sales.len(),
{
    reveal(Seq::filter);
    let p = |s: Sighting<V>| s.key == key;
    let f = |s: Sighting<V>| s.price;
    let q = |s: HistoricalSale| key_of(s) == key;
    let g = |s: HistoricalSale| s.sale_price;
    if sales.len() > 0 {
        let fewer = sales.drop_last();
        let shorter = sightings.drop_last();
        let n = sales.len() - 1;
        assert(sightings[n].key == key_of(sales[n]));
        assert forall|i: int| 0 <= i < fewer.len() implies (#[trigger] shorter[i]).key == key_of(
            fewer[i],
        ) && shorter[i].price == fewer[i].sale_price by {
            assert(sightings[i].key == key_of(sales[i]));
        }
        lemma_filtered(fewer, shorter, key_of, key);
        let a = shorter.filter(p);
        let b = fewer.filter(q);
        if sightings[n].key == key {
            assert(sightings.filter(p) == a.push(sightings[n]));
            assert(sales.filter(q) == b.push(sales[n]));
            assert(a.push(sightings[n]).map_values(f) =~= a.map_values(f).push(f(sightings[n])));
            assert(b.push(sales[n]).map_values(g) =~= b.map_values(g).push(g(sales[n])));
        } else {
            assert(sightings.filter(p) == a);
            assert(sales.filter(q) == b);
        }
    }
    assert(sightings.filter(p).map_values(f) =~= sales.filter(q).map_values(g));
}

proof fn lemma_summed_up<V>(
    sales: Seq<HistoricalSale>,
    sightings: Seq<Sighting<V>>,
    key_of: spec_fn(HistoricalSale) -> V,
)
    requires
        sightings.len() == sales.len(),
        forall|i: int|
            0 <= i < sales.len() ==> (#[trigger] sightings[i]).key == key_of(sales[i])
                && sightings[i].price == sales[i].sale_price && sightings[i].sold_at
                == sales[i].sold_at,
    ensures
        summed_up(summaries(sightings), sales, key_of),
{
    reveal(summed_up);
    let keys = keys_of(sightings);
    let entries = summaries(sightings);
    law_every_sale_has_its_group(sightings);
    assert forall|i: int, j: int| 0 <= i < j < entries.len() implies (#[trigger] entries[i]).0 != (
    #[trigger] entries[j]).0 by {
        assert(keys[i] != keys[j]);
    }
    assert forall|n: int| 0 <= n < sales.len() implies exists|i: int|
        0 <= i < entries.len() && (#[trigger] entries[i]).0 == key_of(#[trigger] sales[n]) by {
        assert(keys.contains(sightings[n].key));
        let i = choose|i: int| 0 <= i < keys.len() && keys[i] == sightings[n].key;
        assert(entries[i].0 == key_of(sales[n]));
    }
    assert forall|i: int| 0 <= i < entries.len() implies {
        let (key, entry) = #[trigger] entries[i];
        let paid = paid_under(sales, key_of, key);
        &&& paid.len() > 0
        &&& paid.len() <= u32::MAX ==> entry.sample_size == paid.len()
        &&& paid.len() <= u32::MAX ==> is_upper_median(entry.estimated_value, paid)
        &&& entry.source is Historical
        &&& exists|n: int|
            0 <= n < sales.len() && key_of(#[trigger] sales[n]) == key && sales[n].sold_at
                == entry.updated_at_tick
        &&& forall|n: int|
            0 <= n < sales.len() && key_of(#[trigger] sales[n]) == key ==> sales[n].sold_at
                <= entry.updated_at_tick
    } by {
        let key = keys[i];
        let latest = latest_of(sightings, key);
        assert(keys.contains(key));
        law_what_a_group_holds(sightings, key);
        lemma_filtered(sales, sightings, key_of, key);
        let paid = prices_of(sightings, key);
        assert(paid.len() > 0);
        if paid.len() <= u32::MAX {
            law_what_a_summary_says(paid, latest->0);
        }
        assert(latest is Some);
        let t = latest->0;
        let n = choose|n: int|
            0 <= n < sightings.len() && (#[trigger] sightings[n]).key == key && sightings[n].sold_at
                == t;
        assert(key_of(sales[n]) == key && sales[n].sold_at == t);
        assert forall|m: int|
            0 <= m < sales.len() && key_of(#[trigger] sales[m]) == key implies sales[m].sold_at
            <= t by {
            assert(sightings[m].key == key);
        }
    }
}

/// The fingerprint that a live auction of a sold item would have.
pub open spec fn sold_fingerprint() -> spec_fn(HistoricalSale) -> u64 {
    |s: HistoricalSale| exact_key(s.item_tag@, Some(sale_attributes(s))).0
}

/// The key of major modifiers that a live auction of a sold item would have.
pub open spec fn sold_major_key() -> spec_fn(HistoricalSale) -> u64 {
    |s: HistoricalSale| major_key(s.item_tag@, Some(sale_attributes(s))).0
}

/// The tag of a sold item.
pub open spec fn sold_tag() -> spec_fn(HistoricalSale) -> Seq<char> {
    |s: HistoricalSale| s.item_tag@
}

/// The prices of past sales. In each tier there is one for every key of the
/// sales: by the fingerprint that a live auction of the sold item would
/// have, by its key of major modifiers, and by its tag.
pub proof fn law_prices_of_past_sales(updates: TagUpdates, sales: Seq<HistoricalSale>)
    requires
        updates.of_sales(sales),
    ensures
        summed_up(keyed(updates.exact@), sales, sold_fingerprint()),
        summed_up(keyed(updates.major@), sales, sold_major_key()),
        summed_up(named(updates.base@), sales, sold_tag()),
{
    assert(summed_up(summaries(by_fingerprint(sales)), sales, sold_fingerprint())) by {
        lemma_summed_up(sales, by_fingerprint(sales), sold_fingerprint());
    }
    assert(summed_up(summaries(by_major_key(sales)), sales, sold_major_key())) by {
        lemma_summed_up(sales, by_major_key(sales), sold_major_key());
    }
    assert(summed_up(summaries(by_tag(sales)), sales, sold_tag())) by {
        lemma_summed_up(sales, by_tag(sales), sold_tag());
    }
}

proof fn lemma_keys_differ<V>(sightings: Seq<Sighting<V>>)
    ensures
        distinct(summaries(sightings)),
{
    let keys = keys_of(sightings);
    let entries = summaries(sightings);
    law_every_sale_has_its_group(sightings);
    assert forall|i: int, j: int| 0 <= i < j < entries.len() implies (#[trigger] entries[i]).0 != (
    #[trigger] entries[j]).0 by {
        assert(keys[i] != keys[j]);
    }
}

/// Prices of past sales that are written to a cache without prices are held
/// there, each in its tier and under its key, and nothing else is.
pub proof fn law_seeded_prices_are_held(updates: TagUpdates, sales: Seq<HistoricalSale>)
    requires
        updates.of_sales(sales),
    ensures
        ({
            let after = updates.seeded(Prices::empty());
            &&& holds_just(after.exact, keyed(updates.exact@))
            &&& holds_just(after.major, keyed(updates.major@))
            &&& holds_just(after.base, named(updates.base@))
        }),
{
    lemma_keys_differ(by_fingerprint(sales));
    lemma_keys_differ(by_major_key(sales));
    lemma_keys_differ(by_tag(sales));
    law_distinct_updates_are_all_kept(Map::<u64, PriceEntry>::empty(), keyed(updates.exact@));
    law_distinct_updates_are_all_kept(Map::<u64, PriceEntry>::empty(), keyed(updates.major@));
    law_distinct_updates_are_all_kept(
        Map::<Seq<char>, PriceEntry>::empty(),
        named(updates.base@),
    );
}

/// What a crawl counts. A page with sales adds them to those fetched, and
/// each to the ones with real attributes or to the others; a failure adds
/// one to the errors; and a finished tag adds one to the tags and its
/// prices to those of each tier. Nothing else is counted.
pub proof fn law_what_a_crawl_counts(
    position: Position,
    sales: Seq<HistoricalSale>,
    exact: nat,
    major: nat,
    base: nat,
)
    requires
        position.consistent(),
        position.wants_page(),
        position.stats.sales_fetched + sales.len() <= u64::MAX,
        position.stats.exact_entries_seeded + exact <= u64::MAX,
        position.stats.major_modifier_entries_seeded + major <= u64::MAX,
        position.stats.base_item_entries_seeded + base <= u64::MAX,
    ensures
        ({
            let stats = position.stats;
            let page = position.after_page(sales);
            let failure = position.after_failure();
            let tag = position.after_tag(exact, major, base);
            let known = sales.filter(|s: HistoricalSale| s.extra_attributes is Some).len();
            &&& page.stats.sales_fetched == stats.sales_fetched + sales.len()
            &&& page.stats.sales_from_real_nbt == stats.sales_from_real_nbt + known
            &&& page.stats.sales_from_reconstruction == stats.sales_from_reconstruction
                + sales.len() - known
            &&& page.stats.fetch_errors == stats.fetch_errors
            &&& page.stats.item_tags_attempted == stats.item_tags_attempted
            &&& page.stats.exact_entries_seeded == stats.exact_entries_seeded
            &&& page.stats.fingerprints_loaded == stats.fingerprints_loaded
            &&& page.stats.major_modifier_entries_seeded == stats.major_modifier_entries_seeded
            &&& page.stats.base_item_entries_seeded == stats.base_item_entries_seeded
            &&& failure.stats == (ImportStats {
                fetch_errors: (stats.fetch_errors + 1) as u64,
                ..stats
            })
            &&& tag.stats.item_tags_attempted == stats.item_tags_attempted + 1
            &&& tag.stats.exact_entries_seeded == stats.exact_entries_seeded + exact
            &&& tag.stats.fingerprints_loaded == stats.fingerprints_loaded + exact
            &&& tag.stats.major_modifier_entries_seeded == stats.major_modifier_entries_seeded
                + major
            &&& tag.stats.base_item_entries_seeded == stats.base_item_entries_seeded + base
            &&& tag.stats.sales_fetched == stats.sales_fetched
            &&& tag.stats.fetch_errors == stats.fetch_errors
            &&& tag.stats.sales_from_real_nbt == stats.sales_from_real_nbt
            &&& tag.stats.sales_from_reconstruction == stats.sales_from_reconstruction
        }),
{
    lemma_real_count(sales);
}

proof fn lemma_real_count(sales: Seq<HistoricalSale>)
    ensures
        real_count(sales) == sales.filter(|s: HistoricalSale| s.extra_attributes is Some).len(),
        real_count(sales) <= sales.len(),
    decreases sales.len(),
{
    reveal(Seq::filter);
    if sales.len() > 0 {
        lemma_real_count(sales.drop_last());
    }
}

/// Tags take their turns. The next tag starts with its first page, without
/// sales, and is asked for pages if there is a next tag and any page is
/// asked for at all; behind the last tag the crawl is done. A page is asked
/// for before the first failure, empty page or page too many, and not after
/// it, and from the second request on there is a pause.
pub proof fn law_tags_take_their_turns(position: Position, exact: nat, major: nat, base: nat)
    requires
        position.consistent(),
        !position.is_done(),
    ensures
        ({
            let next = position.after_tag(exact, major, base);
            &&& next.tags == position.tags
            &&& next.pages_per_tag == position.pages_per_tag
            &&& next.tag == position.tag + 1
            &&& next.page == 0
            &&& next.sales.len() == 0
            &&& next.requested == position.requested
            &&& next.is_done() <==> position.tag + 1 == position.tags.len()
            &&& next.wants_page() <==> position.tag + 1 < position.tags.len()
                && position.pages_per_tag > 0
            &&& position.wants_page() <==> position.open && position.page < position.pages_per_tag
            &&& position.after_request().requested
            &&& position.after_request().page == position.page
            &&& position.after_request().tag == position.tag
            &&& position.after_request().sales == position.sales
            &&& position.after_request().open == position.open
            &&& position.after_request().stats == position.stats
            &&& position.after_failure().tag == position.tag
            &&& position.after_failure().requested == position.requested
            &&& position.after_page(Seq::empty()).tag == position.tag
            &&& position.after_page(Seq::empty()).requested == position.requested
        }),
{
}

} // verus!
