//! The in-memory price cache.
//!
//! Three independent tiers, from the most exact to the coarsest: prices
//! under the full fingerprint, under the key of the weightiest modifiers,
//! and under the bare item id. A lookup takes the first tier that answers.

use crate::batch::{
    batch_mergeable, folded, law_a_fresh_price_is_read_back, law_every_update_is_counted,
    lemma_mergeable_prefix, MergeStats,
};
use crate::fingerprint::Fingerprint;
use crate::pricing::{merge_price_entry, PriceEntry, PriceLookup, PriceTier};
use crate::shards::{keyed, share, FingerprintShardedMap};
use crate::stats::{
    by_count, by_high_confidence, by_samples, lemma_high_is_part, lemma_listed_weight,
    lemma_listed_weight_grows, lemma_weight_by_count, lemma_weight_remove, listed_weight, weight,
    CacheStats,
};
use crate::table::StringTable;
use std::sync::Arc;
use vstd::prelude::*;

verus! {

/// The prices of all three tiers.
#[verifier::ext_equal]
pub struct Prices {
    pub exact: Map<u64, PriceEntry>,
    pub major: Map<u64, PriceEntry>,
    pub base: Map<Seq<char>, PriceEntry>,
}

impl Prices {
    /// No prices.
    pub open spec fn empty() -> Prices {
        Prices { exact: Map::empty(), major: Map::empty(), base: Map::empty() }
    }

    /// Number of prices.
    pub open spec fn count(self) -> nat {
        self.exact.len() + self.major.len() + self.base.len()
    }

    /// Observations behind the prices.
    pub open spec fn samples(self) -> nat {
        weight(self.exact, by_samples()) + weight(self.major, by_samples()) + weight(
            self.base,
            by_samples(),
        )
    }

    /// Number of prices with high confidence.
    pub open spec fn high_confidence(self) -> nat {
        weight(self.exact, by_high_confidence()) + weight(self.major, by_high_confidence())
            + weight(self.base, by_high_confidence())
    }
}

/// Updates with the text of their item id as key.
pub open spec fn named(updates: Seq<(String, PriceEntry)>) -> Seq<(Seq<char>, PriceEntry)> {
    Seq::new(updates.len(), |i: int| (updates[i].0@, updates[i].1))
}

/// The price at the first tier that has one.
pub open spec fn lookup(
    prices: Prices,
    exact: u64,
    major: u64,
    base: Seq<char>,
) -> Option<PriceLookup> {
    if prices.exact.contains_key(exact) {
        Some(PriceLookup { entry: prices.exact[exact], tier: PriceTier::Exact })
    } else if prices.major.contains_key(major) {
        Some(PriceLookup { entry: prices.major[major], tier: PriceTier::MajorModifiers })
    } else if prices.base.contains_key(base) {
        Some(PriceLookup { entry: prices.base[base], tier: PriceTier::BaseItem })
    } else {
        None
    }
}

/// Applies updates to the tier under item ids.
fn merge_into_table(table: &mut StringTable<PriceEntry>, updates: Vec<(String, PriceEntry)>) -> (stats:
    MergeStats)
    requires
        batch_mergeable(old(table)@, named(updates@)),
    ensures
        final(table)@ == folded(old(table)@, named(updates@)).0,
        stats@ == folded(old(table)@, named(updates@)).1,
{
    let ghost start = table@;
    let ghost all = named(updates@);
    let ghost raw = updates@;
    let mut stats = MergeStats::default();
    assert(updates.len() <= usize::MAX);
    assert(all.take(0) =~= Seq::<(Seq<char>, PriceEntry)>::empty());
    for update in iter: updates
        invariant
            iter.seq() == raw,
            raw.len() <= usize::MAX,
            all == named(raw),
            batch_mergeable(start, all),
            table@ == folded(start, all.take(iter.index())).0,
            stats@ == folded(start, all.take(iter.index())).1,
    {
        let ghost i = iter.index();
        proof {
            assert(all.take(i + 1).drop_last() =~= all.take(i));
            assert(all.take(i + 1).last() == all[i]);
            lemma_mergeable_prefix(start, all, i + 1);
            law_every_update_is_counted(start, all.take(i));
        }
        let (item_id, entry) = update;
        let existing: Option<PriceEntry> = match table.get(item_id.as_str()) {
            Some(existing) => Some(*existing),
            None => None,
        };
        match existing {
            Some(existing) => {
                let (entry, outcome) = merge_price_entry(existing, entry);
                table.insert(item_id, entry);
                stats.count(Some(outcome));
            },
            None => {
                table.insert(item_id, entry);
                stats.count(None);
            },
        }
    }
    assert(all.take(all.len() as int) =~= all);
    stats
}

/// A three-tier price cache.
pub struct PriceCache {
    exact: FingerprintShardedMap,
    major: FingerprintShardedMap,
    base: Arc<StringTable<PriceEntry>>,
}

impl View for PriceCache {
    type V = Prices;

    closed spec fn view(&self) -> Prices {
        Prices { exact: self.exact@, major: self.major@, base: (*self.base)@ }
    }
}

impl PriceCache {
    /// A cache without prices.
    pub fn new() -> (cache: Self)
        ensures
            cache@ == Prices::empty(),
    {
        PriceCache {
            exact: FingerprintShardedMap::new(),
            major: FingerprintShardedMap::new(),
            base: Arc::new(StringTable::new()),
        }
    }

    /// A copy that shares its shards with `self` until either is updated.
    pub fn duplicate(&self) -> (copy: Self)
        ensures
            copy@ == self@,
    {
        PriceCache {
            exact: self.exact.duplicate(),
            major: self.major.duplicate(),
            base: share(&self.base),
        }
    }

    /// Tiered lookup: the exact fingerprint first, then the key of the
    /// major modifiers, then the item id.
    pub fn get(&self, exact: Fingerprint, major: Fingerprint, base_item_id: &str) -> (found: Option<
        PriceLookup,
    >)
        ensures
            found == lookup(self@, exact.0, major.0, base_item_id@),
    {
        if let Some(entry) = self.get_exact(exact) {
            return Some(PriceLookup { entry, tier: PriceTier::Exact });
        }
        if let Some(entry) = self.get_major(major) {
            return Some(PriceLookup { entry, tier: PriceTier::MajorModifiers });
        }
        match self.get_base(base_item_id) {
            Some(entry) => Some(PriceLookup { entry, tier: PriceTier::BaseItem }),
            None => None,
        }
    }

    /// The price under an exact fingerprint.
    pub fn get_exact(&self, fingerprint: Fingerprint) -> (entry: Option<PriceEntry>)
        ensures
            entry == self@.exact.get(fingerprint.0),
    {
        self.exact.get(fingerprint)
    }

    /// The price under a key of major modifiers.
    pub fn get_major(&self, key: Fingerprint) -> (entry: Option<PriceEntry>)
        ensures
            entry == self@.major.get(key.0),
    {
        self.major.get(key)
    }

    /// The price under an item id.
    pub fn get_base(&self, item_id: &str) -> (entry: Option<PriceEntry>)
        ensures
            entry == self@.base.get(item_id@),
    {
        match self.base.get(item_id) {
            Some(entry) => Some(*entry),
            None => None,
        }
    }

    /// Applies a batch of updates under exact fingerprints.
    pub fn update_exact_batch(&mut self, updates: Vec<(Fingerprint, PriceEntry)>) -> (stats:
        MergeStats)
        requires
            batch_mergeable(old(self)@.exact, keyed(updates@)),
        ensures
            final(self)@ == (Prices {
                exact: folded(old(self)@.exact, keyed(updates@)).0,
                ..old(self)@
            }),
            stats@ == folded(old(self)@.exact, keyed(updates@)).1,
    {
        self.exact.update_batch(updates)
    }

    /// Applies a batch of updates under keys of major modifiers.
    pub fn update_major_batch(&mut self, updates: Vec<(Fingerprint, PriceEntry)>) -> (stats:
        MergeStats)
        requires
            batch_mergeable(old(self)@.major, keyed(updates@)),
        ensures
            final(self)@ == (Prices {
                major: folded(old(self)@.major, keyed(updates@)).0,
                ..old(self)@
            }),
            stats@ == folded(old(self)@.major, keyed(updates@)).1,
    {
        self.major.update_batch(updates)
    }

    /// Applies a batch of updates under item ids.
    pub fn update_base_batch(&mut self, updates: Vec<(String, PriceEntry)>) -> (stats: MergeStats)
        requires
            batch_mergeable(old(self)@.base, named(updates@)),
        ensures
            final(self)@ == (Prices {
                base: folded(old(self)@.base, named(updates@)).0,
                ..old(self)@
            }),
            stats@ == folded(old(self)@.base, named(updates@)).1,
    {
        if updates.len() == 0 {
            return MergeStats::default();
        }
        let mut next = self.base.duplicate();
        let stats = merge_into_table(&mut next, updates);
        self.base = Arc::new(next);
        stats
    }

    /// Number of prices under exact fingerprints.
    pub fn exact_len(&self) -> (n: usize)
        requires
            self@.exact.len() <= usize::MAX,
        ensures
            n == self@.exact.len(),
            self@.exact.dom().finite(),
    {
        self.exact.len()
    }

    /// Number of prices under keys of major modifiers.
    pub fn major_len(&self) -> (n: usize)
        requires
            self@.major.len() <= usize::MAX,
        ensures
            n == self@.major.len(),
            self@.major.dom().finite(),
    {
        self.major.len()
    }

    /// Number of prices under item ids.
    pub fn base_len(&self) -> (n: usize)
        ensures
            n == self@.base.len(),
            self@.base.dom().finite(),
    {
        self.base.len()
    }

    /// Number of prices in all tiers.
    pub fn len(&self) -> (n: usize)
        requires
            self@.count() <= usize::MAX,
        ensures
            n == self@.count(),
            self@.exact.dom().finite(),
            self@.major.dom().finite(),
            self@.base.dom().finite(),
    {
        self.exact_len() + self.major_len() + self.base_len()
    }

    /// Whether no tier has a price.
    pub fn is_empty(&self) -> (yes: bool)
        ensures
            yes == (self@ == Prices::empty()),
    {
        let empty_base = self.base.len() == 0;
        proof {
            if empty_base {
                assert(self@.base.dom() =~= Set::<Seq<char>>::empty());
                assert(self@.base =~= Map::<Seq<char>, PriceEntry>::empty());
            }
        }
        self.exact.is_empty() && self.major.is_empty() && empty_base
    }

    /// Totals over every price of every tier.
    pub fn stats(&self) -> (stats: CacheStats)
        requires
            self@.count() <= usize::MAX,
            self@.samples() <= u64::MAX,
        ensures
            stats.total_entries == self@.count(),
            stats.total_sample_size == self@.samples(),
            stats.high_confidence_entries == self@.high_confidence(),
    {
        let mut stats = CacheStats::default();
        self.exact.fold_stats(&mut stats);
        proof {
            lemma_high_is_part(self@.exact);
        }
        self.major.fold_stats(&mut stats);
        proof {
            lemma_high_is_part(self@.major);
        }
        let ghost before = stats;
        let n: usize = self.base.len();
        let ghost m = self@.base;
        let ghost keys = self.base.keys();
        proof {
            lemma_listed_weight(m, keys, by_count());
            lemma_listed_weight(m, keys, by_samples());
            lemma_listed_weight(m, keys, by_high_confidence());
            lemma_weight_by_count(m);
        }
        for i in 0..n
            invariant
                m == (*self.base)@,
                keys == self.base.keys(),
                n == keys.len(),
                before.total_entries + listed_weight(m, keys, by_count(), n as int) <= usize::MAX,
                before.total_sample_size + listed_weight(m, keys, by_samples(), n as int)
                    <= u64::MAX,
                stats.high_confidence_entries <= stats.total_entries,
                stats.adds(
                    before,
                    listed_weight(m, keys, by_count(), i as int),
                    listed_weight(m, keys, by_samples(), i as int),
                    listed_weight(m, keys, by_high_confidence(), i as int),
                ),
        {
            proof {
                lemma_listed_weight_grows(m, keys, by_count(), i + 1, n as int);
                lemma_listed_weight_grows(m, keys, by_samples(), i + 1, n as int);
            }
            stats.count(self.base.value_at(i));
        }
        stats
    }
}

impl Default for PriceCache {
    fn default() -> (cache: Self)
        ensures
            cache@ == Prices::empty(),
    {
        PriceCache::new()
    }
}

/// The exact tier answers whenever it has a price, whatever the others
/// hold; the tier of major modifiers comes before that of item ids.
pub proof fn law_finer_tiers_win(prices: Prices, exact: u64, major: u64, base: Seq<char>)
    ensures
        prices.exact.contains_key(exact) ==> lookup(prices, exact, major, base) == Some(
            PriceLookup { entry: prices.exact[exact], tier: PriceTier::Exact },
        ),
        !prices.exact.contains_key(exact) && prices.major.contains_key(major) ==> lookup(
            prices,
            exact,
            major,
            base,
        ) == Some(PriceLookup { entry: prices.major[major], tier: PriceTier::MajorModifiers }),
        !prices.exact.contains_key(exact) && !prices.major.contains_key(major)
            && prices.base.contains_key(base) ==> lookup(prices, exact, major, base) == Some(
            PriceLookup { entry: prices.base[base], tier: PriceTier::BaseItem },
        ),
        lookup(prices, exact, major, base) is None <==> !prices.exact.contains_key(exact)
            && !prices.major.contains_key(major) && !prices.base.contains_key(base),
{
}

/// A price that is written to a tier under a key that the tier does not
/// hold, and that no other update of the batch names, is found there as it
/// was written: by its own fingerprint or item id, and as a price of that
/// tier where no finer tier has one.
pub proof fn law_a_written_price_is_found(
    prices: Prices,
    updates: Seq<(Fingerprint, PriceEntry)>,
    named_updates: Seq<(String, PriceEntry)>,
    i: int,
    exact: u64,
    major: u64,
    base: Seq<char>,
)
    requires
        0 <= i < updates.len(),
        0 <= i < named_updates.len(),
        forall|j: int|
            0 <= j < updates.len() && j != i ==> (#[trigger] updates[j]).0.0 != updates[i].0.0,
        forall|j: int|
            0 <= j < named_updates.len() && j != i ==> (#[trigger] named_updates[j]).0@
                != named_updates[i].0@,
    ensures
        ({
            let key = updates[i].0.0;
            let entry = updates[i].1;
            let id = named_updates[i].0@;
            let in_exact = Prices { exact: folded(prices.exact, keyed(updates)).0, ..prices };
            let in_major = Prices { major: folded(prices.major, keyed(updates)).0, ..prices };
            let in_base = Prices { base: folded(prices.base, named(named_updates)).0, ..prices };
            &&& !prices.exact.contains_key(key) ==> lookup(in_exact, key, major, base) == Some(
                PriceLookup { entry, tier: PriceTier::Exact },
            )
            &&& !prices.major.contains_key(key) && !prices.exact.contains_key(exact) ==> lookup(
                in_major,
                exact,
                key,
                base,
            ) == Some(PriceLookup { entry, tier: PriceTier::MajorModifiers })
            &&& !prices.base.contains_key(id) && !prices.exact.contains_key(exact)
                && !prices.major.contains_key(major) ==> lookup(in_base, exact, major, id) == Some(
                PriceLookup { entry: named_updates[i].1, tier: PriceTier::BaseItem },
            )
        }),
{
    let keys = keyed(updates);
    let names = named(named_updates);
    assert forall|j: int| 0 <= j < keys.len() && j != i implies (#[trigger] keys[j]).0
        != keys[i].0 by {
        assert(updates[j].0.0 != updates[i].0.0);
    }
    assert forall|j: int| 0 <= j < names.len() && j != i implies (#[trigger] names[j]).0
        != names[i].0 by {
        assert(named_updates[j].0@ != named_updates[i].0@);
    }
    if !prices.exact.contains_key(keys[i].0) {
        law_a_fresh_price_is_read_back(prices.exact, keys, i);
    }
    if !prices.major.contains_key(keys[i].0) {
        law_a_fresh_price_is_read_back(prices.major, keys, i);
    }
    if !prices.base.contains_key(names[i].0) {
        law_a_fresh_price_is_read_back(prices.base, names, i);
    }
}

/// The totals of a cache: nothing without prices, and each price adds one to
/// the entries, its observations to theirs, and one to those of high
/// confidence if it rests on fifty or more, at whichever tier it is.
pub proof fn law_each_price_counts_once(prices: Prices, key: u64, id: Seq<char>, entry: PriceEntry)
    requires
        prices.exact.dom().finite(),
        prices.major.dom().finite(),
        prices.base.dom().finite(),
        !prices.exact.contains_key(key),
        !prices.major.contains_key(key),
        !prices.base.contains_key(id),
    ensures
        Prices::empty().count() == 0,
        Prices::empty().samples() == 0,
        Prices::empty().high_confidence() == 0,
        ({
            let high = if entry.sample_size >= 50 {
                1int
            } else {
                0int
            };
            let in_exact = Prices { exact: prices.exact.insert(key, entry), ..prices };
            let in_major = Prices { major: prices.major.insert(key, entry), ..prices };
            let in_base = Prices { base: prices.base.insert(id, entry), ..prices };
            &&& in_exact.count() == prices.count() + 1
            &&& in_major.count() == prices.count() + 1
            &&& in_base.count() == prices.count() + 1
            &&& in_exact.samples() == prices.samples() + entry.sample_size
            &&& in_major.samples() == prices.samples() + entry.sample_size
            &&& in_base.samples() == prices.samples() + entry.sample_size
            &&& in_exact.high_confidence() == prices.high_confidence() + high
            &&& in_major.high_confidence() == prices.high_confidence() + high
            &&& in_base.high_confidence() == prices.high_confidence() + high
        }),
{
    let exact = prices.exact.insert(key, entry);
    let major = prices.major.insert(key, entry);
    let base = prices.base.insert(id, entry);
    assert(exact.remove(key) =~= prices.exact);
    assert(major.remove(key) =~= prices.major);
    assert(base.remove(id) =~= prices.base);
    lemma_weight_remove(exact, by_samples(), key);
    lemma_weight_remove(exact, by_high_confidence(), key);
    lemma_weight_remove(major, by_samples(), key);
    lemma_weight_remove(major, by_high_confidence(), key);
    lemma_weight_remove(base, by_samples(), id);
    lemma_weight_remove(base, by_high_confidence(), id);
}

} // verus!
