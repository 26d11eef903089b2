//! One tick: from the auctions that changed to alerts and new prices.
//!
//! Every auction of a tick is evaluated against the prices that the cache
//! held before those of the tick itself took effect in it, so no auction is
//! held against a price that it has set itself.

use crate::auction::RawAuction;
use crate::batch::{observed, MergeStats};
use crate::cache::{lookup, PriceCache, Prices};
use crate::engine::{
    callable, evaluate, reachable, Appraisal, FeeSchedule, FlipThresholds, FlipVerdict,
    ProfitCalculation,
};
use crate::fingerprint::{
    exact_key, fingerprint, major_key, major_modifier_key, tree_of, Fingerprint,
};
use crate::notify::{
    first_alerts, running_at, source_label, source_name, tier_label, tier_name, FlipAlert,
    FlipDeduplicator,
};
use crate::parser::{listed_as, parse_item, wire_reports, DecodedItem, ParseError, ParsedItem};
use crate::pricing::{PriceEntry, PriceLookup, PriceSource};
use crate::shards::keyed;
use crate::shared::{stage, takes_effect, written, Batch, SharedPriceCache, TierUpdates};
use std::collections::{HashMap, HashSet};
use vstd::prelude::*;
use vstd::std_specs::hash::spec_keys_iter;
use vstd::std_specs::iter::IteratorSpec;

verus! {

broadcast use vstd::std_specs::hash::group_hash_axioms;

// ---------------------------------------------------------------------
// Parsing
// ---------------------------------------------------------------------

/// `item` is what parsing `raw` gives.
pub open spec fn parsed_from(item: ParsedItem, raw: RawAuction) -> bool {
    exists|decoded: DecodedItem|
        wire_reports(Ok::<DecodedItem, ParseError>(decoded), raw.item_bytes@) && #[trigger]
            listed_as(item, raw, decoded)
}

/// `error` is why `raw` cannot be parsed.
pub open spec fn refused_with(error: ParseError, raw: RawAuction) -> bool {
    wire_reports(Err::<DecodedItem, ParseError>(error), raw.item_bytes@)
}

/// Auctions, parsed as far as they could be.
pub struct ParsedBatch {
    /// The auctions that could be parsed, in their order.
    pub items: Vec<ParsedItem>,
    /// The positions of the others, and why.
    pub failures: Vec<(usize, ParseError)>,
}

/// `items` and `failures` together are what parsing `auctions` gives, each
/// in its order.
pub open spec fn parses(
    auctions: Seq<RawAuction>,
    items: Seq<ParsedItem>,
    failures: Seq<(usize, ParseError)>,
) -> bool
    decreases auctions.len(),
{
    if auctions.len() == 0 {
        items.len() == 0 && failures.len() == 0
    } else {
        let raw = auctions.last();
        let before = auctions.drop_last();
        ||| {
            &&& items.len() > 0
            &&& parsed_from(items.last(), raw)
            &&& parses(before, items.drop_last(), failures)
        }
        ||| {
            &&& failures.len() > 0
            &&& failures.last().0 == auctions.len() - 1
            &&& refused_with(failures.last().1, raw)
            &&& parses(before, items, failures.drop_last())
        }
    }
}

/// Parses every auction that can be parsed.
pub fn parse_batch(auctions: &Vec<RawAuction>) -> (batch: ParsedBatch)
    ensures
        parses(auctions@, batch.items@, batch.failures@),
        batch.items@.len() + batch.failures@.len() == auctions@.len(),
{
    let ghost all = auctions@;
    let mut items: Vec<ParsedItem> = Vec::new();
    let mut failures: Vec<(usize, ParseError)> = Vec::new();
    let n: usize = auctions.len();
    for i in 0..n
        invariant
            n == auctions@.len(),
            all == auctions@,
            parses(all.take(i as int), items@, failures@),
            items@.len() + failures@.len() == i,
    {
        assert(all.take(i + 1).drop_last() =~= all.take(i as int));
        match parse_item(&auctions[i]) {
            Ok(item) => {
                let ghost before = items@;
                items.push(item);
                assert(items@.drop_last() =~= before);
            },
            Err(error) => {
                let ghost before = failures@;
                failures.push((i, error));
                assert(failures@.drop_last() =~= before);
            },
        }
    }
    assert(all.take(n as int) =~= all);
    ParsedBatch { items, failures }
}

// ---------------------------------------------------------------------
// Evaluation
// ---------------------------------------------------------------------

/// The price that the cache has for an item.
pub open spec fn cached(prices: Prices, item: ParsedItem) -> Option<PriceLookup> {
    let attributes = tree_of(item.extra_attributes);
    lookup(
        prices,
        exact_key(item.skyblock_item_id@, attributes).0,
        major_key(item.skyblock_item_id@, attributes).0,
        item.skyblock_item_id@,
    )
}

/// `alert` reports the flip of `item`, with these numbers and this price.
pub open spec fn alerts_on<R>(
    alert: FlipAlert<R>,
    item: ParsedItem,
    numbers: ProfitCalculation<R>,
    price: Option<PriceLookup>,
) -> bool {
    &&& alert.auction_uuid@ == item.uuid@
    &&& alert.viewauction_command@ == "/viewauction "@ + item.uuid@
    &&& alert.item_name@ == item.display_name@
    &&& alert.buy_price == numbers.buy_price
    &&& alert.estimated_value == numbers.estimated_value
    &&& alert.profit == numbers.expected_profit
    &&& alert.roi_percent == numbers.roi_percent
    &&& alert.auction_end == item.end
    &&& alert.tier@ == tier_name(numbers.tier)
    &&& price matches Some(found) ==> alert.price_source@ == source_name(found.entry.source)
}

/// `alerts` report the flips among the verdicts on `items`, in order.
pub open spec fn alerts_of<R>(
    alerts: Seq<FlipAlert<R>>,
    items: Seq<ParsedItem>,
    verdicts: Seq<FlipVerdict<R>>,
    prices: Prices,
) -> bool
    decreases items.len(),
{
    if items.len() == 0 || verdicts.len() != items.len() {
        alerts.len() == 0
    } else {
        match verdicts.last() {
            FlipVerdict::Flip(numbers) => {
                &&& alerts.len() > 0
                &&& alerts_on(alerts.last(), items.last(), numbers, cached(prices, items.last()))
                &&& alerts_of(alerts.drop_last(), items.drop_last(), verdicts.drop_last(), prices)
            },
            _ => alerts_of(alerts, items.drop_last(), verdicts.drop_last(), prices),
        }
    }
}

/// How many auctions could be evaluated but promise too little.
pub open spec fn below_count<R>(verdicts: Seq<FlipVerdict<R>>) -> nat
    decreases verdicts.len(),
{
    if verdicts.len() == 0 {
        0
    } else {
        below_count(verdicts.drop_last()) + if verdicts.last() is BelowThreshold {
            1nat
        } else {
            0nat
        }
    }
}

/// What the evaluation of a tick gives.
pub struct TickVerdicts<R> {
    /// The verdict on each auction.
    pub verdicts: Vec<FlipVerdict<R>>,
    /// An alert for each flip.
    pub alerts: Vec<FlipAlert<R>>,
    /// How many auctions promise too little.
    pub below_threshold: usize,
}

/// Evaluates the auctions of a tick against the prices from before it.
pub fn evaluate_tick<
    R: Copy,
    S: Fn(u64, R) -> u64,
    A: Fn(i64, u64, R, R, Option<R>) -> Appraisal<R>,
>(
    items: &Vec<ParsedItem>,
    tick: i64,
    cache: &PriceCache,
    fees: &FeeSchedule<R>,
    thresholds: &FlipThresholds<R>,
    share: &S,
    appraise: &A,
) -> (result: TickVerdicts<R>)
    requires
        callable(*share, *appraise, *fees, *thresholds),
    ensures
        result.verdicts@.len() == items@.len(),
        forall|i: int|
            0 <= i < items@.len() ==> reachable(
                *share,
                *appraise,
                items@[i],
                cached(cache@, items@[i]),
                tick,
                *fees,
                *thresholds,
                #[trigger] result.verdicts@[i],
            ),
        alerts_of(result.alerts@, items@, result.verdicts@, cache@),
        result.below_threshold == below_count(result.verdicts@),
{
    let ghost all = items@;
    let ghost prices = cache@;
    let mut verdicts: Vec<FlipVerdict<R>> = Vec::new();
    let mut alerts: Vec<FlipAlert<R>> = Vec::new();
    let mut below_threshold: usize = 0;
    let n: usize = items.len();
    for i in 0..n
        invariant
            n == items@.len(),
            all == items@,
            prices == cache@,
            callable(*share, *appraise, *fees, *thresholds),
            verdicts@.len() == i,
            forall|j: int|
                0 <= j < i ==> reachable(
                    *share,
                    *appraise,
                    all[j],
                    cached(prices, all[j]),
                    tick,
                    *fees,
                    *thresholds,
                    #[trigger] verdicts@[j],
                ),
            alerts_of(alerts@, all.take(i as int), verdicts@, prices),
            below_threshold == below_count(verdicts@),
            below_threshold <= i,
    {
        let item = &items[i];
        let price = cache.get(
            fingerprint(item),
            major_modifier_key(item),
            item.skyblock_item_id.as_str(),
        );
        let verdict = evaluate(item, price, tick, fees, thresholds, share, appraise);
        let ghost before = verdicts@;
        verdicts.push(verdict);
        proof {
            assert(all.take(i + 1).drop_last() =~= all.take(i as int));
            assert(verdicts@.drop_last() =~= before);
        }
        match verdict {
            FlipVerdict::Flip(profit) => {
                let price_source = match price {
                    Some(found) => source_label(found.entry.source),
                    None => source_label(PriceSource::Live),
                };
                let ghost sent = alerts@;
                alerts.push(
                    FlipAlert::new(
                        item.uuid.clone(),
                        item.display_name.clone(),
                        profit.buy_price,
                        profit.estimated_value,
                        profit.expected_profit,
                        profit.roi_percent,
                        item.end,
                        tier_label(profit.tier),
                        price_source,
                    ),
                );
                assert(alerts@.drop_last() =~= sent);
            },
            FlipVerdict::BelowThreshold(_) => {
                below_threshold += 1;
            },
            _ => {},
        }
    }
    assert(all.take(n as int) =~= all);
    TickVerdicts { verdicts, alerts, below_threshold }
}

// ---------------------------------------------------------------------
// The tick's own prices
// ---------------------------------------------------------------------

/// What a tick shows of prices: per fingerprint the cheapest listing that
/// can be bought at once, and how many there are.
pub open spec fn cheapest(items: Seq<ParsedItem>, tick: i64) -> Map<u64, PriceEntry>
    decreases items.len(),
{
    if items.len() == 0 {
        Map::empty()
    } else {
        let before = cheapest(items.drop_last(), tick);
        let item = items.last();
        let key = exact_key(item.skyblock_item_id@, tree_of(item.extra_attributes)).0;
        if !item.bin {
            before
        } else if before.contains_key(key) {
            before.insert(
                key,
                PriceEntry {
                    estimated_value: if before[key].estimated_value < item.starting_bid {
                        before[key].estimated_value
                    } else {
                        item.starting_bid
                    },
                    sample_size: (before[key].sample_size + 1) as u32,
                    ..before[key]
                },
            )
        } else {
            before.insert(
                key,
                PriceEntry {
                    estimated_value: item.starting_bid,
                    sample_size: 1,
                    updated_at_tick: tick,
                    source: PriceSource::Live,
                },
            )
        }
    }
}

/// No price rests on more observations than there are auctions, each rests
/// on one at least, and all are live.
proof fn lemma_cheapest(items: Seq<ParsedItem>, tick: i64)
    requires
        items.len() <= u32::MAX,
    ensures
        forall|k: u64| #[trigger]
            cheapest(items, tick).contains_key(k) ==> {
                &&& 1 <= cheapest(items, tick)[k].sample_size <= items.len()
                &&& cheapest(items, tick)[k].source is Live
                &&& cheapest(items, tick)[k].updated_at_tick == tick
            },
    decreases items.len(),
{
    if items.len() > 0 {
        lemma_cheapest(items.drop_last(), tick);
        let before = cheapest(items.drop_last(), tick);
        assert forall|k: u64| #[trigger] cheapest(items, tick).contains_key(k) implies {
            &&& 1 <= cheapest(items, tick)[k].sample_size <= items.len()
            &&& cheapest(items, tick)[k].source is Live
            &&& cheapest(items, tick)[k].updated_at_tick == tick
        } by {
            if before.contains_key(k) {
                assert(before[k].sample_size <= items.len() - 1);
            }
        }
    }
}

/// `updates` are the entries of `m`, each once.
pub open spec fn lists_entries(
    updates: Seq<(Fingerprint, PriceEntry)>,
    m: Map<u64, PriceEntry>,
) -> bool {
    &&& forall|i: int, j: int|
        0 <= i < j < updates.len() ==> (#[trigger] updates[i]).0 != (#[trigger] updates[j]).0
    &&& forall|i: int|
        0 <= i < updates.len() ==> m.contains_key((#[trigger] updates[i]).0.0) && m[updates[i].0.0]
            == updates[i].1
    &&& forall|k: u64| #[trigger]
        m.contains_key(k) ==> exists|i: int|
            0 <= i < updates.len() && (#[trigger] updates[i]).0.0 == k
}

/// Gathers what a tick shows of prices, for the cache.
pub fn observe_prices(items: &Vec<ParsedItem>, tick: i64) -> (updates: Vec<
    (Fingerprint, PriceEntry),
>)
    requires
        items@.len() <= u32::MAX,
    ensures
        lists_entries(updates@, cheapest(items@, tick)),
        observed(keyed(updates@)),
{
    let ghost all = items@;
    let mut seen: HashMap<u64, PriceEntry> = HashMap::new();
    let n: usize = items.len();
    assert(all.take(0) =~= Seq::<ParsedItem>::empty());
    for i in 0..n
        invariant
            n == items@.len() <= u32::MAX,
            all == items@,
            seen@ == cheapest(all.take(i as int), tick),
    {
        proof {
            assert(all.take(i + 1).drop_last() =~= all.take(i as int));
            lemma_cheapest(all.take(i as int), tick);
        }
        let item = &items[i];
        if item.bin {
            let key: u64 = fingerprint(item).0;
            let existing: Option<PriceEntry> = match seen.get(&key) {
                Some(entry) => Some(*entry),
                None => None,
            };
            let entry = match existing {
                Some(entry) => PriceEntry {
                    estimated_value: if entry.estimated_value < item.starting_bid {
                        entry.estimated_value
                    } else {
                        item.starting_bid
                    },
                    sample_size: entry.sample_size + 1,
                    ..entry
                },
                None => PriceEntry {
                    estimated_value: item.starting_bid,
                    sample_size: 1,
                    updated_at_tick: tick,
                    source: PriceSource::Live,
                },
            };
            seen.insert(key, entry);
        }
    }
    assert(all.take(n as int) =~= all);
    proof {
        lemma_cheapest(all, tick);
    }
    let ghost m = seen@;
    let ghost keys = spec_keys_iter(&seen).remaining().unref();
    proof {
        let refs = spec_keys_iter(&seen).remaining();
        assert forall|i: int, j: int| 0 <= i < keys.len() && 0 <= j < keys.len() && i
            != j implies keys[i] != keys[j] by {
            assert(refs[i] != refs[j]);
        }
    }
    let mut updates: Vec<(Fingerprint, PriceEntry)> = Vec::new();
    for key in iter: seen.keys()
        invariant
            keys == iter.seq().unref(),
            keys.to_set() == m.dom(),
            keys.no_duplicates(),
            m == seen@,
            updates@.len() == iter.index(),
            forall|i: int|
                0 <= i < iter.index() ==> (#[trigger] updates@[i]).0.0 == keys[i] && m.contains_key(
                    keys[i],
                ) && updates@[i].1 == m[keys[i]],
    {
        let ghost i = iter.index();
        assert(keys[i] == *key);
        assert(keys.to_set().contains(keys[i]));
        if let Some(entry) = seen.get(key) {
            updates.push((Fingerprint(*key), *entry));
        }
    }
    proof {
        assert forall|i: int, j: int| 0 <= i < j < updates@.len() implies (
        #[trigger] updates@[i]).0 != (#[trigger] updates@[j]).0 by {
            assert(keys[i] != keys[j]);
        }
        assert forall|k: u64| #[trigger] m.contains_key(k) implies exists|i: int|
            0 <= i < updates@.len() && (#[trigger] updates@[i]).0.0 == k by {
            assert(keys.to_set().contains(k));
            let i = choose|i: int| 0 <= i < keys.len() && keys[i] == k;
            assert(updates@[i].0.0 == k);
        }
    }
    updates
}

/// A price that a tick shows belongs to an item of the tick that can be
/// bought at once, and lies at or below what any of them asks.
pub proof fn law_cheapest_is_cheapest(items: Seq<ParsedItem>, tick: i64)
    ensures
        forall|i: int|
            0 <= i < items.len() && (#[trigger] items[i]).bin ==> {
                let key = exact_key(
                    items[i].skyblock_item_id@,
                    tree_of(items[i].extra_attributes),
                ).0;
                &&& cheapest(items, tick).contains_key(key)
                &&& cheapest(items, tick)[key].estimated_value <= items[i].starting_bid
            },
        forall|k: u64| #[trigger]
            cheapest(items, tick).contains_key(k) ==> exists|i: int|
                {
                    &&& 0 <= i < items.len()
                    &&& (#[trigger] items[i]).bin
                    &&& exact_key(
                        items[i].skyblock_item_id@,
                        tree_of(items[i].extra_attributes),
                    ).0 == k
                    &&& cheapest(items, tick)[k].estimated_value == items[i].starting_bid
                },
    decreases items.len(),
{
    if items.len() > 0 {
        let fewer = items.drop_last();
        law_cheapest_is_cheapest(fewer, tick);
        let before = cheapest(fewer, tick);
        let after = cheapest(items, tick);
        let n = items.len() - 1;
        assert forall|i: int| 0 <= i < items.len() && (#[trigger] items[i]).bin implies {
            let key = exact_key(
                items[i].skyblock_item_id@,
                tree_of(items[i].extra_attributes),
            ).0;
            &&& after.contains_key(key)
            &&& after[key].estimated_value <= items[i].starting_bid
        } by {
            if i < n {
                assert(fewer[i] == items[i]);
                assert(fewer[i].bin);
            }
        }
        assert forall|k: u64| #[trigger] after.contains_key(k) implies exists|i: int|
            {
                &&& 0 <= i < items.len()
                &&& (#[trigger] items[i]).bin
                &&& exact_key(
                    items[i].skyblock_item_id@,
                    tree_of(items[i].extra_attributes),
                ).0 == k
                &&& after[k].estimated_value == items[i].starting_bid
            } by {
            if before.contains_key(k) && after[k].estimated_value == before[k].estimated_value {
                let i = choose|i: int|
                    {
                        &&& 0 <= i < fewer.len()
                        &&& (#[trigger] fewer[i]).bin
                        &&& exact_key(
                            fewer[i].skyblock_item_id@,
                            tree_of(fewer[i].extra_attributes),
                        ).0 == k
                        &&& before[k].estimated_value == fewer[i].starting_bid
                    };
                assert(items[i] == fewer[i]);
            } else {
                assert(items[n] == items.last());
            }
        }
    }
}

// ---------------------------------------------------------------------
// A whole tick
// ---------------------------------------------------------------------

/// The exact fingerprints of some items.
pub open spec fn fingerprints(items: Seq<ParsedItem>) -> Set<u64> {
    Seq::new(
        items.len(),
        |i: int| exact_key(items[i].skyblock_item_id@, tree_of(items[i].extra_attributes)).0,
    ).to_set()
}

/// How many different fingerprints some items have.
pub fn count_fingerprints(items: &Vec<ParsedItem>) -> (count: usize)
    ensures
        count == fingerprints(items@).len(),
{
    let ghost all = items@;
    let mut seen: HashSet<u64> = HashSet::new();
    let n: usize = items.len();
    assert(fingerprints(all.take(0)) =~= Set::<u64>::empty());
    for i in 0..n
        invariant
            n == items@.len(),
            all == items@,
            seen@ == fingerprints(all.take(i as int)),
    {
        let key: u64 = fingerprint(&items[i]).0;
        seen.insert(key);
        proof {
            let before = Seq::new(
                i as nat,
                |j: int| exact_key(all[j].skyblock_item_id@, tree_of(all[j].extra_attributes)).0,
            );
            let after = before.push(key);
            assert(fingerprints(all.take(i as int)) == before.to_set()) by {
                assert(before =~= Seq::new(
                    all.take(i as int).len(),
                    |j: int|
                        exact_key(
                            all.take(i as int)[j].skyblock_item_id@,
                            tree_of(all.take(i as int)[j].extra_attributes),
                        ).0,
                ));
            }
            assert(fingerprints(all.take(i + 1)) == after.to_set()) by {
                assert(after =~= Seq::new(
                    all.take(i + 1).len(),
                    |j: int|
                        exact_key(
                            all.take(i + 1)[j].skyblock_item_id@,
                            tree_of(all.take(i + 1)[j].extra_attributes),
                        ).0,
                ));
            }
            assert(after.to_set() =~= before.to_set().insert(key)) by {
                assert forall|k: u64| before.to_set().insert(key).contains(k) implies
                    after.to_set().contains(k) by {
                    if k == key {
                        assert(after[i as int] == k);
                    } else {
                        let j = choose|j: int| 0 <= j < before.len() && before[j] == k;
                        assert(after[j] == k);
                    }
                }
            }
        }
    }
    assert(all.take(n as int) =~= all);
    seen.len()
}

/// What the evaluation of a tick comes to.
pub struct TickOutcome<R> {
    /// The flips that have not been reported before.
    pub new_flips: Vec<FlipAlert<R>>,
    /// How many auctions promise too little.
    pub below_threshold: usize,
    /// How many different fingerprints the auctions have.
    pub unique_fingerprints: usize,
}

/// What became of a tick.
pub struct TickReport<R> {
    /// The flips that have not been reported before.
    pub new_flips: Vec<FlipAlert<R>>,
    /// How many auctions promise too little.
    pub below_threshold: usize,
    /// How many different fingerprints the auctions have.
    pub unique_fingerprints: usize,
    /// How many fingerprints the tick shows a price of.
    pub priced_fingerprints: usize,
    /// What those prices did to the cache.
    pub merge_stats: MergeStats,
}

/// `alerts` and `below` come of the evaluation of `items` against `prices`.
pub open spec fn evaluated_against<
    R,
    S: Fn(u64, R) -> u64,
    A: Fn(i64, u64, R, R, Option<R>) -> Appraisal<R>,
>(
    prices: Prices,
    items: Seq<ParsedItem>,
    tick: i64,
    fees: FeeSchedule<R>,
    thresholds: FlipThresholds<R>,
    share: S,
    appraise: A,
    alerts: Seq<FlipAlert<R>>,
    below: usize,
) -> bool {
    exists|verdicts: Seq<FlipVerdict<R>>|
        {
            &&& verdicts.len() == items.len()
            &&& forall|i: int|
                0 <= i < items.len() ==> reachable(
                    share,
                    appraise,
                    items[i],
                    cached(prices, items[i]),
                    tick,
                    fees,
                    thresholds,
                    #[trigger] verdicts[i],
                )
            &&& #[trigger] alerts_of(alerts, items, verdicts, prices)
            &&& below == below_count(verdicts)
        }
}

/// Evaluates a tick's auctions against the prices in `before` and nothing
/// else, and gives the flips that have not been reported yet.
pub fn process_tick<
    R: Copy,
    S: Fn(u64, R) -> u64,
    A: Fn(i64, u64, R, R, Option<R>) -> Appraisal<R>,
>(
    items: &Vec<ParsedItem>,
    tick: i64,
    before: &PriceCache,
    dedup: &mut FlipDeduplicator,
    fees: &FeeSchedule<R>,
    thresholds: &FlipThresholds<R>,
    share: &S,
    appraise: &A,
) -> (outcome: TickOutcome<R>)
    requires
        callable(*share, *appraise, *fees, *thresholds),
    ensures
        exists|alerts: Seq<FlipAlert<R>>|
            {
                &&& #[trigger] evaluated_against(
                    before@,
                    items@,
                    tick,
                    *fees,
                    *thresholds,
                    *share,
                    *appraise,
                    alerts,
                    outcome.below_threshold,
                )
                &&& outcome.new_flips@ == first_alerts(old(dedup)@, alerts).1
                &&& final(dedup)@ == running_at(first_alerts(old(dedup)@, alerts).0, tick)
            },
        outcome.unique_fingerprints == fingerprints(items@).len(),
{
    let TickVerdicts { verdicts, alerts, below_threshold } = evaluate_tick(
        items,
        tick,
        before,
        fees,
        thresholds,
        share,
        appraise,
    );
    let ghost found = alerts@;
    assert(alerts_of(found, items@, verdicts@, before@));
    let unique_fingerprints: usize = count_fingerprints(items);
    let new_flips = dedup.filter_new(alerts, tick);
    let outcome = TickOutcome { new_flips, below_threshold, unique_fingerprints };
    assert(evaluated_against(
        before@,
        items@,
        tick,
        *fees,
        *thresholds,
        *share,
        *appraise,
        found,
        outcome.below_threshold,
    ));
    assert(outcome.new_flips@ == first_alerts(old(dedup)@, found).1);
    assert(dedup@ == running_at(first_alerts(old(dedup)@, found).0, tick));
    outcome
}

/// Processes a tick with a shared cache: writes the prices that the tick
/// shows to the cache, and evaluates its auctions against the prices that
/// the cache held just before those took effect.
pub fn run_tick<
    R: Copy,
    S: Fn(u64, R) -> u64,
    A: Fn(i64, u64, R, R, Option<R>) -> Appraisal<R>,
>(
    items: &Vec<ParsedItem>,
    tick: i64,
    cache: &SharedPriceCache,
    dedup: &mut FlipDeduplicator,
    fees: &FeeSchedule<R>,
    thresholds: &FlipThresholds<R>,
    share: &S,
    appraise: &A,
) -> (report: TickReport<R>)
    requires
        items@.len() <= u32::MAX,
        callable(*share, *appraise, *fees, *thresholds),
    ensures
        exists|updates: Seq<(Fingerprint, PriceEntry)>, n: int, alerts: Seq<FlipAlert<R>>|
            {
                &&& lists_entries(updates, cheapest(items@, tick))
                &&& report.priced_fingerprints == updates.len()
                &&& #[trigger] takes_effect(written(*cache), n, Batch::Exact(keyed(updates)))
                &&& report.merge_stats@ == Batch::Exact(keyed(updates)).tally_on(stage(*cache, n))
                &&& #[trigger] evaluated_against(
                    stage(*cache, n),
                    items@,
                    tick,
                    *fees,
                    *thresholds,
                    *share,
                    *appraise,
                    alerts,
                    report.below_threshold,
                )
                &&& report.new_flips@ == first_alerts(old(dedup)@, alerts).1
                &&& final(dedup)@ == running_at(first_alerts(old(dedup)@, alerts).0, tick)
            },
        report.unique_fingerprints == fingerprints(items@).len(),
{
    let updates = observe_prices(items, tick);
    let priced_fingerprints: usize = updates.len();
    let ghost shown = updates@;
    let (before, merge_stats) = cache.exchange(TierUpdates::Exact(updates));
    let ghost n = choose|n: int| #[trigger]
        takes_effect(written(*cache), n, Batch::Exact(keyed(shown))) && (*before)@ == stage(
            *cache,
            n,
        ) && merge_stats@ == Batch::Exact(keyed(shown)).tally_on(stage(*cache, n));
    let TickOutcome { new_flips, below_threshold, unique_fingerprints } = process_tick(
        items,
        tick,
        &before,
        dedup,
        fees,
        thresholds,
        share,
        appraise,
    );
    let ghost alerts = choose|alerts: Seq<FlipAlert<R>>|
        {
            &&& #[trigger] evaluated_against(
                stage(*cache, n),
                items@,
                tick,
                *fees,
                *thresholds,
                *share,
                *appraise,
                alerts,
                below_threshold,
            )
            &&& new_flips@ == first_alerts(old(dedup)@, alerts).1
            &&& dedup@ == running_at(first_alerts(old(dedup)@, alerts).0, tick)
        };
    let report = TickReport {
        new_flips,
        below_threshold,
        unique_fingerprints,
        priced_fingerprints,
        merge_stats,
    };
    proof {
        assert(takes_effect(written(*cache), n, Batch::Exact(keyed(shown))));
        assert(evaluated_against(
            stage(*cache, n),
            items@,
            tick,
            *fees,
            *thresholds,
            *share,
            *appraise,
            alerts,
            report.below_threshold,
        ));
    }
    report
}

} // verus!
