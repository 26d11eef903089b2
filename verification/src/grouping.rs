//! Sales grouped by key, each group reduced to one price.

use crate::fingerprint::Fingerprint;
use crate::pricing::{PriceEntry, PriceSource};
use crate::text::same_text;
use vstd::prelude::*;
use vstd::relations::{sorted_by, total_ordering};
use vstd::seq_lib::{lemma_sorted_unique, to_multiset_contains, to_multiset_len};

verus! {

/// A key that sales are grouped by.
pub trait GroupKey: View + Sized {
    /// Whether two keys are the same.
    fn same(&self, other: &Self) -> (yes: bool)
        ensures
            yes == (self@ == other@),
    ;
}

impl View for Fingerprint {
    type V = u64;

    open spec fn view(&self) -> u64 {
        self.0
    }
}

impl GroupKey for Fingerprint {
    fn same(&self, other: &Self) -> (yes: bool) {
        self.0 == other.0
    }
}

impl GroupKey for String {
    fn same(&self, other: &Self) -> (yes: bool) {
        same_text(self.as_str(), other.as_str())
    }
}

/// The sales under one key.
pub struct Group<K> {
    pub key: K,
    /// The prices paid, in the order of the sales.
    pub prices: Vec<u64>,
    /// When the latest sale was, in Unix milliseconds.
    pub latest: i64,
}

/// One sale for the purpose of grouping.
pub struct Sighting<V> {
    pub key: V,
    pub price: u64,
    pub sold_at: i64,
}

/// The prices paid under a key, in the order of the sales.
pub open spec fn prices_of<V>(sales: Seq<Sighting<V>>, key: V) -> Seq<u64>
    decreases sales.len(),
{
    if sales.len() == 0 {
        Seq::empty()
    } else {
        let before = prices_of(sales.drop_last(), key);
        if sales.last().key == key {
            before.push(sales.last().price)
        } else {
            before
        }
    }
}

/// The time of the latest sale under a key.
pub open spec fn latest_of<V>(sales: Seq<Sighting<V>>, key: V) -> Option<i64>
    decreases sales.len(),
{
    if sales.len() == 0 {
        None
    } else {
        let before = latest_of(sales.drop_last(), key);
        if sales.last().key == key {
            match before {
                Some(t) => if t >= sales.last().sold_at {
                    Some(t)
                } else {
                    Some(sales.last().sold_at)
                },
                None => Some(sales.last().sold_at),
            }
        } else {
            before
        }
    }
}

/// The keys of the sales, each once, in the order in which they first come.
pub open spec fn keys_of<V>(sales: Seq<Sighting<V>>) -> Seq<V>
    decreases sales.len(),
{
    if sales.len() == 0 {
        Seq::empty()
    } else {
        let before = keys_of(sales.drop_last());
        if before.contains(sales.last().key) {
            before
        } else {
            before.push(sales.last().key)
        }
    }
}

/// `groups` are the sales, grouped.
pub open spec fn grouped<K: View>(groups: Seq<Group<K>>, sales: Seq<Sighting<K::V>>) -> bool {
    &&& groups.len() == keys_of(sales).len()
    &&& forall|i: int|
        0 <= i < groups.len() ==> {
            &&& (#[trigger] groups[i]).key@ == keys_of(sales)[i]
            &&& groups[i].prices@ == prices_of(sales, keys_of(sales)[i])
            &&& Some(groups[i].latest) == latest_of(sales, keys_of(sales)[i])
        }
}

/// The keys are those of the sales, each once, and each has a sale.
pub proof fn law_every_sale_has_its_group<V>(sales: Seq<Sighting<V>>)
    ensures
        keys_of(sales).no_duplicates(),
        keys_of(sales).len() <= sales.len(),
        forall|i: int| 0 <= i < sales.len() ==> keys_of(sales).contains((#[trigger] sales[i]).key),
        forall|k: V|
            #![trigger keys_of(sales).contains(k)]
            keys_of(sales).contains(k) ==> prices_of(sales, k).len() > 0 && latest_of(
                sales,
                k,
            ) is Some,
        forall|k: V|
            #![trigger prices_of(sales, k)]
            !keys_of(sales).contains(k) ==> prices_of(sales, k).len() == 0 && latest_of(
                sales,
                k,
            ) is None,
    decreases sales.len(),
{
    if sales.len() > 0 {
        let shorter = sales.drop_last();
        let last = sales.last();
        law_every_sale_has_its_group(shorter);
        let before = keys_of(shorter);
        let after = keys_of(sales);
        if !before.contains(last.key) {
            assert(after[before.len() as int] == last.key);
        }
        assert forall|k: V| before.contains(k) implies #[trigger] after.contains(k) by {
            let i = choose|i: int| 0 <= i < before.len() && before[i] == k;
            assert(after[i] == k);
        }
        assert forall|k: V| #[trigger] after.contains(k) && k != last.key implies before.contains(
            k,
        ) by {
            let i = choose|i: int| 0 <= i < after.len() && after[i] == k;
            assert(i < before.len());
            assert(before[i] == k);
        }
        assert forall|i: int| 0 <= i < sales.len() implies after.contains(
            (#[trigger] sales[i]).key,
        ) by {
            if i < shorter.len() {
                assert(shorter[i] == sales[i]);
                assert(before.contains(shorter[i].key));
            }
        }
        assert(after.contains(last.key));
        assert forall|k: V|
            #![trigger prices_of(sales, k)]
            !after.contains(k) implies prices_of(sales, k).len() == 0 && latest_of(
            sales,
            k,
        ) is None by {
            assert(!before.contains(k));
            assert(prices_of(shorter, k).len() == 0);
        }
    }
}

/// Puts one more sale into its group, or begins a group with it.
pub(crate) fn add_sale<K: GroupKey>(
    groups: &mut Vec<Group<K>>,
    key: K,
    price: u64,
    sold_at: i64,
    Ghost(sales): Ghost<Seq<Sighting<K::V>>>,
)
    requires
        grouped(old(groups)@, sales),
    ensures
        grouped(final(groups)@, sales.push(Sighting { key: key@, price, sold_at })),
{
    let ghost k = key@;
    let ghost longer = sales.push(Sighting { key: k, price, sold_at });
    let ghost keys = keys_of(sales);
    assert(longer.drop_last() =~= sales);
    proof {
        law_every_sale_has_its_group(sales);
    }
    let ghost before = groups@;
    let n: usize = groups.len();
    let mut at: usize = 0;
    while at < n && !groups[at].key.same(&key)
        invariant
            n == groups@.len(),
            groups@ == before,
            at <= n,
            grouped(before, sales),
            keys == keys_of(sales),
            k == key@,
            forall|i: int| 0 <= i < at ==> #[trigger] keys[i] != k,
        decreases n - at,
    {
        assert(before[at as int].key@ == keys[at as int]);
        at += 1;
    }
    if at < n {
        assert(before[at as int].key@ == keys[at as int]);
        assert(keys.contains(k));
        groups[at].prices.push(price);
        if groups[at].latest < sold_at {
            groups[at].latest = sold_at;
        }
        assert forall|i: int| 0 <= i < groups@.len() implies {
            &&& (#[trigger] groups@[i]).key@ == keys_of(longer)[i]
            &&& groups@[i].prices@ == prices_of(longer, keys_of(longer)[i])
            &&& Some(groups@[i].latest) == latest_of(longer, keys_of(longer)[i])
        } by {
            assert(before[i].key@ == keys[i]);
            if i != at {
                assert(groups@[i] == before[i]);
                assert(keys[i] != keys[at as int]);
            }
        }
    } else {
        assert(!keys.contains(k));
        assert(prices_of(sales, k).len() == 0);
        let mut prices: Vec<u64> = Vec::new();
        prices.push(price);
        groups.push(Group { key, prices, latest: sold_at });
        assert(prices_of(longer, k) =~= prices@);
        assert forall|i: int| 0 <= i < groups@.len() implies {
            &&& (#[trigger] groups@[i]).key@ == keys_of(longer)[i]
            &&& groups@[i].prices@ == prices_of(longer, keys_of(longer)[i])
            &&& Some(groups@[i].latest) == latest_of(longer, keys_of(longer)[i])
        } by {
            if i < n {
                assert(groups@[i] == before[i]);
                assert(before[i].key@ == keys[i]);
                assert(keys.contains(keys[i]));
            }
        }
    }
}

// ---------------------------------------------------------------------
// Medians
// ---------------------------------------------------------------------

/// The order of amounts.
pub open spec fn by_amount() -> spec_fn(u64, u64) -> bool {
    |a: u64, b: u64| a <= b
}

/// The middle one of some prices; of an even number, the upper middle one.
pub open spec fn median(prices: Seq<u64>) -> u64 {
    prices.sort_by(by_amount())[prices.len() as int / 2]
}

/// Calls `<[u64]>::sort_unstable`, which puts the amounts in ascending
/// order and keeps each as often as it was there.
#[verifier::external_body]
fn sort_amounts(amounts: &mut Vec<u64>)
    ensures
        sorted_by(final(amounts)@, by_amount()),
        final(amounts)@.to_multiset() == old(amounts)@.to_multiset(),
{
    amounts.sort_unstable();
}

/// One price for all the sales of a group.
pub open spec fn summary(prices: Seq<u64>, latest: i64) -> PriceEntry {
    PriceEntry {
        estimated_value: median(prices),
        sample_size: prices.len() as u32,
        updated_at_tick: latest,
        source: PriceSource::Historical,
    }
}

/// One price per key, in the order in which the keys first come.
pub open spec fn summaries<V>(sales: Seq<Sighting<V>>) -> Seq<(V, PriceEntry)> {
    let keys = keys_of(sales);
    Seq::new(
        keys.len(),
        |i: int| (keys[i], summary(prices_of(sales, keys[i]), latest_of(sales, keys[i])->0)),
    )
}

/// Keys by their views.
pub open spec fn viewed<K: View>(updates: Seq<(K, PriceEntry)>) -> Seq<(K::V, PriceEntry)> {
    Seq::new(updates.len(), |i: int| (updates[i].0@, updates[i].1))
}

/// Sorting does not change how many prices there are, nor which.
proof fn lemma_sorted_prices(sorted: Seq<u64>, prices: Seq<u64>)
    requires
        sorted_by(sorted, by_amount()),
        sorted.to_multiset() == prices.to_multiset(),
    ensures
        sorted == prices.sort_by(by_amount()),
        sorted.len() == prices.len(),
        forall|p: u64| sorted.contains(p) <==> prices.contains(p),
{
    let le = by_amount();
    assert(total_ordering(le));
    prices.lemma_sort_by_ensures(le);
    lemma_sorted_unique(sorted, prices.sort_by(le), le);
    to_multiset_len(sorted);
    to_multiset_len(prices);
    assert forall|p: u64| sorted.contains(p) <==> prices.contains(p) by {
        to_multiset_contains(sorted, p);
        to_multiset_contains(prices, p);
    }
}

/// Reduces each group to its median price.
pub fn median_entries<K: GroupKey>(groups: Vec<Group<K>>) -> (entries: Vec<(K, PriceEntry)>)
    requires
        forall|i: int| 0 <= i < groups@.len() ==> (#[trigger] groups@[i]).prices@.len() > 0,
    ensures
        entries@.len() == groups@.len(),
        forall|i: int|
            0 <= i < groups@.len() ==> (#[trigger] entries@[i]).0 == groups@[i].key
                && entries@[i].1 == summary(groups@[i].prices@, groups@[i].latest),
{
    let ghost all = groups@;
    let mut entries: Vec<(K, PriceEntry)> = Vec::new();
    for group in iter: groups
        invariant
            iter.seq() == all,
            forall|i: int| 0 <= i < all.len() ==> (#[trigger] all[i]).prices@.len() > 0,
            entries@.len() == iter.index(),
            forall|i: int|
                0 <= i < iter.index() ==> (#[trigger] entries@[i]).0 == all[i].key
                    && entries@[i].1 == summary(all[i].prices@, all[i].latest),
    {
        assert(all[iter.index()].prices@.len() > 0);
        let Group { key, prices, latest } = group;
        let mut prices = prices;
        let ghost unsorted = prices@;
        sort_amounts(&mut prices);
        proof {
            lemma_sorted_prices(prices@, unsorted);
        }
        let n: usize = prices.len();
        let entry = PriceEntry {
            estimated_value: prices[n / 2],
            sample_size: n as u32,
            updated_at_tick: latest,
            source: PriceSource::Historical,
        };
        entries.push((key, entry));
    }
    entries
}

/// One price per key of some sales, by the medians of their groups.
pub(crate) fn reduce<K: GroupKey>(
    groups: Vec<Group<K>>,
    Ghost(sales): Ghost<Seq<Sighting<K::V>>>,
) -> (entries: Vec<(K, PriceEntry)>)
    requires
        grouped(groups@, sales),
    ensures
        viewed(entries@) == summaries(sales),
{
    let ghost keys = keys_of(sales);
    proof {
        law_every_sale_has_its_group(sales);
        assert forall|i: int| 0 <= i < groups@.len() implies (
        #[trigger] groups@[i]).prices@.len() > 0 by {
            assert(keys.contains(keys[i]));
        }
    }
    let ghost all = groups@;
    let entries = median_entries(groups);
    assert forall|i: int| 0 <= i < entries@.len() implies viewed(entries@)[i] == summaries(
        sales,
    )[i] by {
        assert(entries@[i].0 == all[i].key);
        assert(keys.contains(keys[i]));
    }
    assert(viewed(entries@) =~= summaries(sales));
    entries
}

/// The median is one of the prices, and no more than half of them lie
/// below it and no more than half above it.
pub proof fn law_median_is_in_the_middle(prices: Seq<u64>)
    requires
        prices.len() > 0,
    ensures
        prices.contains(median(prices)),
        ({
            let sorted = prices.sort_by(by_amount());
            let middle = prices.len() as int / 2;
            &&& sorted.to_multiset() == prices.to_multiset()
            &&& forall|i: int| 0 <= i < middle ==> #[trigger] sorted[i] <= median(prices)
            &&& forall|i: int|
                middle <= i < prices.len() ==> #[trigger] sorted[i] >= median(prices)
        }),
{
    let le = by_amount();
    assert(total_ordering(le));
    prices.lemma_sort_by_ensures(le);
    let sorted = prices.sort_by(le);
    lemma_sorted_prices(sorted, prices);
    let middle = prices.len() as int / 2;
    assert(sorted.contains(sorted[middle]));
    assert forall|i: int| 0 <= i < middle implies #[trigger] sorted[i] <= median(prices) by {
        assert(le(sorted[i], sorted[middle]));
    }
    assert forall|i: int| middle <= i < prices.len() implies #[trigger] sorted[i] >= median(
        prices,
    ) by {
        if i > middle {
            assert(le(sorted[middle], sorted[i]));
        }
    }
}

/// How many sales the groups of some keys hold.
pub open spec fn group_sizes<V>(sales: Seq<Sighting<V>>, keys: Seq<V>) -> nat
    decreases keys.len(),
{
    if keys.len() == 0 {
        0
    } else {
        group_sizes(sales, keys.drop_last()) + prices_of(sales, keys.last()).len()
    }
}

/// One more sale adds to the group of its key and to no other.
proof fn lemma_group_sizes_step<V>(sales: Seq<Sighting<V>>, keys: Seq<V>)
    requires
        sales.len() > 0,
        keys.no_duplicates(),
    ensures
        group_sizes(sales, keys) == group_sizes(sales.drop_last(), keys) + if keys.contains(
            sales.last().key,
        ) {
            1nat
        } else {
            0nat
        },
    decreases keys.len(),
{
    if keys.len() > 0 {
        let fewer = keys.drop_last();
        let k = sales.last().key;
        lemma_group_sizes_step(sales, fewer);
        if fewer.contains(k) {
            let i = choose|i: int| 0 <= i < fewer.len() && fewer[i] == k;
            assert(keys[i] == k);
            assert(keys[i] != keys[keys.len() - 1]);
        } else if keys.contains(k) {
            let i = choose|i: int| 0 <= i < keys.len() && keys[i] == k;
            if i < fewer.len() {
                assert(fewer[i] == k);
            }
        } else {
            assert(keys[keys.len() - 1] != k);
        }
    }
}

/// Groups of keys without a sale are empty.
proof fn lemma_group_sizes_push<V>(sales: Seq<Sighting<V>>, keys: Seq<V>, key: V)
    ensures
        group_sizes(sales, keys.push(key)) == group_sizes(sales, keys) + prices_of(
            sales,
            key,
        ).len(),
{
    assert(keys.push(key).drop_last() =~= keys);
}

/// Every sale counts once in its tier: the groups together hold as many
/// prices as there are sales.
pub proof fn law_every_sale_counts_once<V>(sales: Seq<Sighting<V>>)
    ensures
        group_sizes(sales, keys_of(sales)) == sales.len(),
    decreases sales.len(),
{
    if sales.len() > 0 {
        let fewer = sales.drop_last();
        let k = sales.last().key;
        law_every_sale_counts_once(fewer);
        law_every_sale_has_its_group(fewer);
        law_every_sale_has_its_group(sales);
        lemma_group_sizes_step(sales, keys_of(sales));
        if !keys_of(fewer).contains(k) {
            lemma_group_sizes_push(fewer, keys_of(fewer), k);
            assert(prices_of(fewer, k).len() == 0);
            assert(keys_of(sales)[keys_of(fewer).len() as int] == k);
        }
        assert(keys_of(sales).contains(k));
    }
}

/// `value` is the middle one of the prices once they stand in ascending
/// order, and of an even number of them the upper middle one.
pub open spec fn is_upper_median(value: u64, prices: Seq<u64>) -> bool {
    forall|sorted: Seq<u64>|
        (forall|i: int, j: int|
            0 <= i <= j < sorted.len() ==> #[trigger] sorted[i] <= #[trigger] sorted[j])
            && #[trigger] sorted.to_multiset() == prices.to_multiset() ==> value
            == sorted[prices.len() as int / 2]
}

/// The summary of some prices: their upper median, how many they are, the
/// time of the latest, and that they are of past sales.
pub proof fn law_what_a_summary_says(prices: Seq<u64>, latest: i64)
    requires
        0 < prices.len() <= u32::MAX,
    ensures
        is_upper_median(summary(prices, latest).estimated_value, prices),
        summary(prices, latest).sample_size == prices.len(),
        summary(prices, latest).updated_at_tick == latest,
        summary(prices, latest).source is Historical,
{
    assert forall|sorted: Seq<u64>|
        (forall|i: int, j: int|
            0 <= i <= j < sorted.len() ==> #[trigger] sorted[i] <= #[trigger] sorted[j])
            && #[trigger] sorted.to_multiset() == prices.to_multiset() implies summary(
        prices,
        latest,
    ).estimated_value == sorted[prices.len() as int / 2] by {
        let le = by_amount();
        assert forall|i: int, j: int| 0 <= i < j < sorted.len() implies #[trigger] le(
            sorted[i],
            sorted[j],
        ) by {
            assert(sorted[i] <= sorted[j]);
        }
        assert(sorted_by(sorted, le));
        lemma_sorted_prices(sorted, prices);
    }
}

/// The prices paid under a key are those of its sales and no others, in
/// their order, and the time of its latest sale is that of one of them and
/// not before any.
pub proof fn law_what_a_group_holds<V>(sales: Seq<Sighting<V>>, key: V)
    ensures
        prices_of(sales, key) == sales.filter(|s: Sighting<V>| s.key == key).map_values(
            |s: Sighting<V>| s.price,
        ),
        latest_of(sales, key) is None <==> forall|i: int|
            0 <= i < sales.len() ==> (#[trigger] sales[i]).key != key,
        latest_of(sales, key) matches Some(t) ==> {
            &&& exists|i: int|
                0 <= i < sales.len() && (#[trigger] sales[i]).key == key && sales[i].sold_at == t
            &&& forall|i: int|
                0 <= i < sales.len() && (#[trigger] sales[i]).key == key ==> sales[i].sold_at <= t
        },
    decreases sales.len(),
{
    reveal(Seq::filter);
    let p = |s: Sighting<V>| s.key == key;
    let f = |s: Sighting<V>| s.price;
    if sales.len() > 0 {
        let fewer = sales.drop_last();
        let n = sales.len() - 1;
        let last = sales[n];
        law_what_a_group_holds(fewer, key);
        let before = fewer.filter(p);
        if last.key == key {
            assert(sales.filter(p) == before.push(last));
            assert(before.push(last).map_values(f) =~= before.map_values(f).push(f(last)));
        } else {
            assert(sales.filter(p) == before);
        }
        assert forall|i: int| 0 <= i < n implies sales[i] == #[trigger] fewer[i] by {}
        if let Some(t) = latest_of(sales, key) {
            if latest_of(fewer, key) == Some(t) {
                let i = choose|i: int|
                    0 <= i < fewer.len() && (#[trigger] fewer[i]).key == key && fewer[i].sold_at
                        == t;
                assert(sales[i].key == key && sales[i].sold_at == t);
            } else {
                assert(sales[n].key == key && sales[n].sold_at == t);
            }
            assert forall|i: int|
                0 <= i < sales.len() && (#[trigger] sales[i]).key
                    == key implies sales[i].sold_at <= t by {
                if i < n {
                    assert(fewer[i].key == key);
                }
            }
        } else {
            assert forall|i: int| 0 <= i < sales.len() implies (#[trigger] sales[i]).key
                != key by {
                if i < n {
                    assert(fewer[i].key != key);
                }
            }
        }
        if forall|i: int| 0 <= i < sales.len() ==> (#[trigger] sales[i]).key != key {
            assert(sales[n].key != key);
            assert forall|i: int| 0 <= i < fewer.len() implies (#[trigger] fewer[i]).key
                != key by {
                assert(sales[i].key != key);
            }
        }
    }
    assert(prices_of(sales, key) =~= sales.filter(p).map_values(f));
}

/// Groups stand in the order in which their first sales come: one sale more
/// opens a group behind the others where its key is new, and opens none
/// otherwise.
pub proof fn law_groups_stand_in_order<V>(sales: Seq<Sighting<V>>, sale: Sighting<V>)
    ensures
        keys_of(Seq::<Sighting<V>>::empty()).len() == 0,
        (exists|i: int| 0 <= i < sales.len() && (#[trigger] sales[i]).key == sale.key) ==> keys_of(
            sales.push(sale),
        ) == keys_of(sales),
        (forall|i: int| 0 <= i < sales.len() ==> (#[trigger] sales[i]).key != sale.key) ==> keys_of(
            sales.push(sale),
        ) == keys_of(sales).push(sale.key),
{
    law_every_sale_has_its_group(sales);
    law_what_a_group_holds(sales, sale.key);
    assert(sales.push(sale).drop_last() =~= sales);
}

} // verus!
