//! What a tick comes to, auction by auction.

use crate::auction::RawAuction;
use crate::batch::{folded, law_distinct_updates_are_all_kept, law_only_named_keys_change};
use crate::cache::Prices;
use crate::engine::{
    reachable, Appraisal, FeeSchedule, FlipThresholds, FlipVerdict, ProfitCalculation,
};
use crate::fingerprint::{exact_key, major_key, tree_of, Fingerprint};
use crate::notify::FlipAlert;
use crate::parser::{ParseError, ParsedItem};
use crate::pipeline::{
    alerts_of, alerts_on, below_count, cached, cheapest, evaluated_against, fingerprints,
    lists_entries, parsed_from, parses, refused_with,
};
use crate::pricing::{PriceEntry, PriceLookup, PriceTier};
use crate::shards::keyed;
use vstd::prelude::*;

verus! {

/// The price of an item is looked up under its own keys: the one under its
/// fingerprint, or else the one under its key of major modifiers, or else
/// the one under its item id.
pub proof fn law_where_a_price_is_looked_up(prices: Prices, item: ParsedItem)
    ensures
        ({
            let attributes = tree_of(item.extra_attributes);
            let exact = exact_key(item.skyblock_item_id@, attributes).0;
            let major = major_key(item.skyblock_item_id@, attributes).0;
            let id = item.skyblock_item_id@;
            &&& prices.exact.contains_key(exact) ==> cached(prices, item) == Some(
                PriceLookup { entry: prices.exact[exact], tier: PriceTier::Exact },
            )
            &&& !prices.exact.contains_key(exact) && prices.major.contains_key(major) ==> cached(
                prices,
                item,
            ) == Some(PriceLookup { entry: prices.major[major], tier: PriceTier::MajorModifiers })
            &&& !prices.exact.contains_key(exact) && !prices.major.contains_key(major)
                && prices.base.contains_key(id) ==> cached(prices, item) == Some(
                PriceLookup { entry: prices.base[id], tier: PriceTier::BaseItem },
            )
            &&& cached(prices, item) is None <==> !prices.exact.contains_key(exact)
                && !prices.major.contains_key(major) && !prices.base.contains_key(id)
        }),
{
}

/// An alert names its auction and item, and gives the numbers of its flip,
/// the tier and the source of its price.
pub proof fn law_what_an_alert_says<R>(
    alert: FlipAlert<R>,
    item: ParsedItem,
    numbers: ProfitCalculation<R>,
    price: Option<PriceLookup>,
)
    requires
        alerts_on(alert, item, numbers, price),
    ensures
        alert.auction_uuid@ == item.uuid@,
        alert.viewauction_command@ == "/viewauction "@ + item.uuid@,
        alert.item_name@ == item.display_name@,
        alert.buy_price == numbers.buy_price,
        alert.estimated_value == numbers.estimated_value,
        alert.profit == numbers.expected_profit,
        alert.roi_percent == numbers.roi_percent,
        alert.auction_end == item.end,
        numbers.tier is Exact ==> alert.tier@ == "Exact"@,
        numbers.tier is MajorModifiers ==> alert.tier@ == "Major"@,
        numbers.tier is BaseItem ==> alert.tier@ == "Base"@,
        price matches Some(found) ==> {
            &&& found.entry.source is Live ==> alert.price_source@ == "Live"@
            &&& found.entry.source is Historical ==> alert.price_source@ == "COFL"@
        },
{
}

/// Every flip of a tick has one alert, and nothing else has: the alert of a
/// flip stands behind those of the flips before it. What falls short is
/// counted, each auction once.
pub proof fn law_every_flip_has_one_alert<R>(
    alerts: Seq<FlipAlert<R>>,
    items: Seq<ParsedItem>,
    verdicts: Seq<FlipVerdict<R>>,
    prices: Prices,
)
    requires
        verdicts.len() == items.len(),
        alerts_of(alerts, items, verdicts, prices),
    ensures
        alerts.len() == verdicts.filter(|v: FlipVerdict<R>| v is Flip).len(),
        forall|i: int|
            0 <= i < items.len() && (#[trigger] verdicts[i]) is Flip ==> {
                let n = verdicts.take(i).filter(|v: FlipVerdict<R>| v is Flip).len() as int;
                &&& n < alerts.len()
                &&& alerts_on(alerts[n], items[i], verdicts[i]->Flip_0, cached(prices, items[i]))
            },
        below_count(verdicts) == verdicts.filter(|v: FlipVerdict<R>| v is BelowThreshold).len(),
    decreases items.len(),
{
    reveal(Seq::filter);
    let flip = |v: FlipVerdict<R>| v is Flip;
    if items.len() > 0 {
        let last = items.len() - 1;
        let fewer = if verdicts.last() is Flip {
            alerts.drop_last()
        } else {
            alerts
        };
        law_every_flip_has_one_alert(fewer, items.drop_last(), verdicts.drop_last(), prices);
        assert(verdicts.take(last) =~= verdicts.drop_last());
        assert forall|i: int| 0 <= i < items.len() && (#[trigger] verdicts[i]) is Flip implies {
            let n = verdicts.take(i).filter(flip).len() as int;
            &&& n < alerts.len()
            &&& alerts_on(alerts[n], items[i], verdicts[i]->Flip_0, cached(prices, items[i]))
        } by {
            if i < last {
                assert(verdicts.drop_last()[i] == verdicts[i]);
                assert(verdicts.drop_last().take(i) =~= verdicts.take(i));
            }
        }
    }
}

/// The auctions of a fingerprint that can be bought at once.
pub open spec fn offers(items: Seq<ParsedItem>, key: u64) -> Seq<ParsedItem> {
    items.filter(
        |item: ParsedItem|
            item.bin && exact_key(item.skyblock_item_id@, tree_of(item.extra_attributes)).0 == key,
    )
}

/// What a tick shows of prices: there is one for a fingerprint exactly where
/// an auction of it can be bought at once. It is the lowest price asked, it
/// rests on as many observations as there are such auctions, and it is live
/// and of this tick.
pub proof fn law_what_a_tick_shows(items: Seq<ParsedItem>, tick: i64, key: u64)
    requires
        items.len() <= u32::MAX,
    ensures
        cheapest(items, tick).contains_key(key) <==> offers(items, key).len() > 0,
        cheapest(items, tick).contains_key(key) ==> {
            let entry = cheapest(items, tick)[key];
            let asked = offers(items, key);
            &&& entry.sample_size == asked.len()
            &&& entry.updated_at_tick == tick
            &&& entry.source is Live
            &&& exists|i: int|
                0 <= i < asked.len() && (#[trigger] asked[i]).starting_bid == entry.estimated_value
            &&& forall|i: int|
                0 <= i < asked.len() ==> (#[trigger] asked[i]).starting_bid
                    >= entry.estimated_value
        },
        offers(items, key).len() <= items.len(),
    decreases items.len(),
{
    reveal(Seq::filter);
    if items.len() > 0 {
        let fewer = items.drop_last();
        let item = items.last();
        law_what_a_tick_shows(fewer, tick, key);
        let before = offers(fewer, key);
        let asked = offers(items, key);
        let fits = item.bin && exact_key(
            item.skyblock_item_id@,
            tree_of(item.extra_attributes),
        ).0 == key;
        if fits {
            assert(asked == before.push(item));
            assert(asked[before.len() as int] == item);
            let entry = cheapest(items, tick)[key];
            if cheapest(fewer, tick).contains_key(key) {
                let old = cheapest(fewer, tick)[key];
                let i = choose|i: int|
                    0 <= i < before.len() && (#[trigger] before[i]).starting_bid
                        == old.estimated_value;
                assert(asked[i] == before[i]);
                assert forall|j: int| 0 <= j < asked.len() implies (
                #[trigger] asked[j]).starting_bid >= entry.estimated_value by {
                    if j < before.len() {
                        assert(asked[j] == before[j]);
                    }
                }
            }
        } else {
            assert(asked == before);
        }
    }
}

/// The fingerprints of a tick are those of its auctions and no others.
pub proof fn law_fingerprints_of_a_tick(items: Seq<ParsedItem>, key: u64)
    ensures
        fingerprints(items).contains(key) <==> exists|i: int|
            0 <= i < items.len() && exact_key(
                (#[trigger] items[i]).skyblock_item_id@,
                tree_of(items[i].extra_attributes),
            ).0 == key,
{
    let keys = Seq::new(
        items.len(),
        |i: int| exact_key(items[i].skyblock_item_id@, tree_of(items[i].extra_attributes)).0,
    );
    if exists|i: int|
        0 <= i < items.len() && exact_key(
            (#[trigger] items[i]).skyblock_item_id@,
            tree_of(items[i].extra_attributes),
        ).0 == key {
        let i = choose|i: int|
            0 <= i < items.len() && exact_key(
                (#[trigger] items[i]).skyblock_item_id@,
                tree_of(items[i].extra_attributes),
            ).0 == key;
        assert(keys[i] == key);
    }
    if fingerprints(items).contains(key) {
        let i = choose|i: int| 0 <= i < keys.len() && keys[i] == key;
        assert(exact_key(items[i].skyblock_item_id@, tree_of(items[i].extra_attributes)).0 == key);
    }
}

/// The failures among the first `n` auctions.
pub open spec fn failures_before(failures: Seq<(usize, ParseError)>, n: int) -> Seq<
    (usize, ParseError),
> {
    failures.filter(|f: (usize, ParseError)| f.0 < n)
}

/// The auction at position `i` did not fail.
pub open spec fn is_sound(failures: Seq<(usize, ParseError)>, i: int) -> bool {
    forall|f: int| 0 <= f < failures.len() ==> (#[trigger] failures[f]).0 != i
}

/// The item of the auction at position `i` stands behind those of the
/// auctions before it that did not fail.
pub open spec fn has_item(
    auctions: Seq<RawAuction>,
    items: Seq<ParsedItem>,
    failures: Seq<(usize, ParseError)>,
    i: int,
) -> bool {
    let n = i - failures_before(failures, i).len();
    0 <= n < items.len() && parsed_from(items[n], auctions[i])
}

/// Every auction of a batch is accounted for: it is among the failures with
/// its position and the reason, or its item stands behind those of the
/// auctions before it that did not fail. Failures stand in their order.
pub proof fn law_every_auction_is_accounted_for(
    auctions: Seq<RawAuction>,
    items: Seq<ParsedItem>,
    failures: Seq<(usize, ParseError)>,
)
    requires
        parses(auctions, items, failures),
    ensures
        items.len() + failures.len() == auctions.len(),
        forall|f: int|
            0 <= f < failures.len() ==> {
                &&& (#[trigger] failures[f]).0 < auctions.len()
                &&& refused_with(failures[f].1, auctions[failures[f].0 as int])
            },
        forall|f: int, g: int|
            0 <= f < g < failures.len() ==> (#[trigger] failures[f]).0 < (#[trigger] failures[g]).0,
        forall|i: int|
            0 <= i < auctions.len() && is_sound(failures, i) ==> #[trigger] has_item(
                auctions,
                items,
                failures,
                i,
            ),
    decreases auctions.len(),
{
    reveal(Seq::filter);
    if auctions.len() > 0 {
        let before = auctions.drop_last();
        let last = auctions.len() - 1;
        if items.len() > 0 && parsed_from(items.last(), auctions.last()) && parses(
            before,
            items.drop_last(),
            failures,
        ) {
            law_every_auction_is_accounted_for(before, items.drop_last(), failures);
            assert forall|f: int| 0 <= f < failures.len() implies {
                &&& (#[trigger] failures[f]).0 < auctions.len()
                &&& refused_with(failures[f].1, auctions[failures[f].0 as int])
            } by {
                assert(before[failures[f].0 as int] == auctions[failures[f].0 as int]);
            }
            lemma_all_before(failures, last);
            assert forall|i: int|
                0 <= i < auctions.len() && is_sound(failures, i) implies #[trigger] has_item(
                auctions,
                items,
                failures,
                i,
            ) by {
                if i < last {
                    assert(before[i] == auctions[i]);
                    assert(has_item(before, items.drop_last(), failures, i));
                }
            }
        } else {
            let fewer = failures.drop_last();
            law_every_auction_is_accounted_for(before, items, fewer);
            let end = failures.len() - 1;
            assert(failures[end].0 == last);
            assert forall|f: int| 0 <= f < failures.len() implies {
                &&& (#[trigger] failures[f]).0 < auctions.len()
                &&& refused_with(failures[f].1, auctions[failures[f].0 as int])
            } by {
                if f < end {
                    assert(fewer[f] == failures[f]);
                    assert(before[failures[f].0 as int] == auctions[failures[f].0 as int]);
                }
            }
            assert forall|f: int, g: int| 0 <= f < g < failures.len() implies (
            #[trigger] failures[f]).0 < (#[trigger] failures[g]).0 by {
                assert(fewer[f] == failures[f]);
                if g < end {
                    assert(fewer[g] == failures[g]);
                }
            }
            assert forall|i: int|
                0 <= i < auctions.len() && is_sound(failures, i) implies #[trigger] has_item(
                auctions,
                items,
                failures,
                i,
            ) by {
                assert(failures[end].0 != i);
                assert(i < last);
                assert(before[i] == auctions[i]);
                assert forall|f: int| 0 <= f < fewer.len() implies (#[trigger] fewer[f]).0
                    != i by {
                    assert(failures[f].0 != i);
                }
                assert(failures_before(failures, i) == failures_before(fewer, i));
                assert(has_item(before, items, fewer, i));
            }
        }
    }
}

proof fn lemma_all_before(failures: Seq<(usize, ParseError)>, n: int)
    requires
        forall|f: int| 0 <= f < failures.len() ==> (#[trigger] failures[f]).0 < n,
    ensures
        failures_before(failures, n) == failures,
    decreases failures.len(),
{
    reveal(Seq::filter);
    if failures.len() > 0 {
        let fewer = failures.drop_last();
        assert forall|f: int| 0 <= f < fewer.len() implies (#[trigger] fewer[f]).0 < n by {
            assert(failures[f].0 < n);
        }
        lemma_all_before(fewer, n);
        assert(failures[failures.len() - 1].0 < n);
        assert(fewer.push(failures.last()) =~= failures);
    } else {
        assert(failures_before(failures, n) =~= failures);
    }
}

/// Whether an alert shows one of the auctions, found to be a flip against the
/// price that the cache has for it.
pub open spec fn is_of_a_flip<R, S: Fn(u64, R) -> u64, A: Fn(
    i64,
    u64,
    R,
    R,
    Option<R>,
) -> Appraisal<R>>(
    alert: FlipAlert<R>,
    prices: Prices,
    items: Seq<ParsedItem>,
    tick: i64,
    fees: FeeSchedule<R>,
    thresholds: FlipThresholds<R>,
    share: S,
    appraise: A,
) -> bool {
    exists|i: int, p: ProfitCalculation<R>|
        {
            &&& 0 <= i < items.len()
            &&& #[trigger] alerts_on(alert, items[i], p, cached(prices, items[i]))
            &&& reachable(
                share,
                appraise,
                items[i],
                cached(prices, items[i]),
                tick,
                fees,
                thresholds,
                FlipVerdict::Flip(p),
            )
        }
}

/// The alerts of a tick are those of its flips. Each belongs to an auction
/// that was found to be a flip against the price that the cache has for it,
/// and where an auction cannot but be a flip against that price, one of the
/// alerts is of it. No more fall short than there are auctions.
pub proof fn law_alerts_are_of_flips<R, S: Fn(u64, R) -> u64, A: Fn(
    i64,
    u64,
    R,
    R,
    Option<R>,
) -> Appraisal<R>>(
    prices: Prices,
    items: Seq<ParsedItem>,
    tick: i64,
    fees: FeeSchedule<R>,
    thresholds: FlipThresholds<R>,
    share: S,
    appraise: A,
    alerts: Seq<FlipAlert<R>>,
    below: usize,
)
    requires
        evaluated_against(
            prices,
            items,
            tick,
            fees,
            thresholds,
            share,
            appraise,
            alerts,
            below,
        ),
    ensures
        alerts.len() + below <= items.len(),
        forall|n: int|
            0 <= n < alerts.len() ==> is_of_a_flip(
                #[trigger] alerts[n],
                prices,
                items,
                tick,
                fees,
                thresholds,
                share,
                appraise,
            ),
        forall|i: int|
            #![trigger items[i]]
            0 <= i < items.len() && (forall|verdict: FlipVerdict<R>| #[trigger]
                reachable(
                    share,
                    appraise,
                    items[i],
                    cached(prices, items[i]),
                    tick,
                    fees,
                    thresholds,
                    verdict,
                ) ==> verdict is Flip) ==> exists|n: int|
                0 <= n < alerts.len() && (#[trigger] alerts[n]).auction_uuid@ == items[i].uuid@,
{
    let verdicts = choose|verdicts: Seq<FlipVerdict<R>>|
        {
            &&& verdicts.len() == items.len()
            &&& forall|i: int|
                0 <= i < items.len() ==> reachable(
                    share,
                    appraise,
                    items[i],
                    cached(prices, items[i]),
                    tick,
                    fees,
                    thresholds,
                    #[trigger] verdicts[i],
                )
            &&& #[trigger] alerts_of(alerts, items, verdicts, prices)
            &&& below == below_count(verdicts)
        };
    law_every_flip_has_one_alert(alerts, items, verdicts, prices);
    lemma_flips_and_others(verdicts);
    assert forall|n: int| 0 <= n < alerts.len() implies is_of_a_flip(
        #[trigger] alerts[n],
        prices,
        items,
        tick,
        fees,
        thresholds,
        share,
        appraise,
    ) by {
        let i = lemma_alert_has_flip(alerts, items, verdicts, prices, n);
        let p = verdicts[i]->Flip_0;
        assert(verdicts[i] == FlipVerdict::Flip(p));
        assert(alerts_on(alerts[n], items[i], p, cached(prices, items[i])));
    }
    assert forall|i: int|
        #![trigger items[i]]
        0 <= i < items.len() && (forall|verdict: FlipVerdict<R>| #[trigger]
            reachable(
                share,
                appraise,
                items[i],
                cached(prices, items[i]),
                tick,
                fees,
                thresholds,
                verdict,
            ) ==> verdict is Flip) implies exists|n: int|
        0 <= n < alerts.len() && (#[trigger] alerts[n]).auction_uuid@ == items[i].uuid@ by {
        assert(verdicts[i] is Flip);
        let n = verdicts.take(i).filter(|v: FlipVerdict<R>| v is Flip).len() as int;
        assert(alerts[n].auction_uuid@ == items[i].uuid@);
    }
}

proof fn lemma_flips_and_others<R>(verdicts: Seq<FlipVerdict<R>>)
    ensures
        verdicts.filter(|v: FlipVerdict<R>| v is Flip).len() + verdicts.filter(
            |v: FlipVerdict<R>| v is BelowThreshold,
        ).len() <= verdicts.len(),
    decreases verdicts.len(),
{
    reveal(Seq::filter);
    if verdicts.len() > 0 {
        lemma_flips_and_others(verdicts.drop_last());
    }
}

proof fn lemma_alert_has_flip<R>(
    alerts: Seq<FlipAlert<R>>,
    items: Seq<ParsedItem>,
    verdicts: Seq<FlipVerdict<R>>,
    prices: Prices,
    n: int,
) -> (i: int)
    requires
        verdicts.len() == items.len(),
        alerts_of(alerts, items, verdicts, prices),
        0 <= n < alerts.len(),
    ensures
        0 <= i < items.len(),
        verdicts[i] is Flip,
        alerts_on(alerts[n], items[i], verdicts[i]->Flip_0, cached(prices, items[i])),
    decreases items.len(),
{
    let last = items.len() - 1;
    if verdicts.last() is Flip {
        if n == alerts.len() - 1 {
            last
        } else {
            lemma_alert_has_flip(
                alerts.drop_last(),
                items.drop_last(),
                verdicts.drop_last(),
                prices,
                n,
            )
        }
    } else {
        lemma_alert_has_flip(alerts, items.drop_last(), verdicts.drop_last(), prices, n)
    }
}

/// The updates of a tick, written to a tier without prices, leave just what
/// the tick shows.
pub proof fn law_listed_entries_are_all_of_them(
    updates: Seq<(Fingerprint, PriceEntry)>,
    shown: Map<u64, PriceEntry>,
)
    requires
        lists_entries(updates, shown),
    ensures
        folded(Map::<u64, PriceEntry>::empty(), keyed(updates)).0 == shown,
        shown.dom().finite(),
        shown.len() == updates.len(),
{
    let none = Map::<u64, PriceEntry>::empty();
    let keys = keyed(updates);
    assert forall|i: int, j: int| 0 <= i < j < keys.len() implies (#[trigger] keys[i]).0 != (
    #[trigger] keys[j]).0 by {
        assert(updates[i].0 != updates[j].0);
    }
    law_distinct_updates_are_all_kept(none, keys);
    law_only_named_keys_change(none, keys);
    let after = folded(none, keys).0;
    assert forall|k: u64| after.contains_key(k) <==> shown.contains_key(k) by {
        if shown.contains_key(k) {
            let i = choose|i: int| 0 <= i < updates.len() && (#[trigger] updates[i]).0.0 == k;
            assert(keys[i].0 == k);
        } else {
            assert forall|i: int| 0 <= i < keys.len() implies (#[trigger] keys[i]).0 != k by {
                assert(shown.contains_key(updates[i].0.0));
            }
            assert(after.contains_key(k) <==> none.contains_key(k));
        }
    }
    assert forall|k: u64| after.contains_key(k) implies after[k] == shown[k] by {
        let i = choose|i: int| 0 <= i < updates.len() && (#[trigger] updates[i]).0.0 == k;
        assert(keys[i].0 == k);
    }
    assert(after =~= shown);
}

} // verus!
