//! Totals over the entries of price maps.

use crate::pricing::{Confidence, PriceEntry};
use vstd::prelude::*;

verus! {

/// What each entry of `m` weighs, added up.
pub open spec fn weight<K>(m: Map<K, PriceEntry>, f: spec_fn(PriceEntry) -> nat) -> nat
    decreases m.dom().len(),
    when m.dom().finite()
{
    if m.dom().len() == 0 {
        0
    } else {
        let k = m.dom().choose();
        f(m[k]) + weight(m.remove(k), f)
    }
}

/// An entry weighs one.
pub open spec fn by_count() -> spec_fn(PriceEntry) -> nat {
    |e: PriceEntry| 1nat
}

/// An entry weighs its observations.
pub open spec fn by_samples() -> spec_fn(PriceEntry) -> nat {
    |e: PriceEntry| e.sample_size as nat
}

/// An entry weighs one if its confidence is high.
pub open spec fn by_high_confidence() -> spec_fn(PriceEntry) -> nat {
    |e: PriceEntry|
        if Confidence::of(e.sample_size) is High {
            1nat
        } else {
            0nat
        }
}

/// Any entry can be weighed first.
pub proof fn lemma_weight_remove<K>(m: Map<K, PriceEntry>, f: spec_fn(PriceEntry) -> nat, k: K)
    requires
        m.dom().finite(),
        m.contains_key(k),
    ensures
        weight(m, f) == f(m[k]) + weight(m.remove(k), f),
    decreases m.dom().len(),
{
    let c = m.dom().choose();
    assert(m.dom().contains(c));
    if c != k {
        lemma_weight_remove(m.remove(c), f, k);
        lemma_weight_remove(m.remove(k), f, c);
        assert(m.remove(c).remove(k) =~= m.remove(k).remove(c));
    }
}

/// The weights of two maps without a common key add up.
pub proof fn lemma_weight_union<K>(
    a: Map<K, PriceEntry>,
    b: Map<K, PriceEntry>,
    f: spec_fn(PriceEntry) -> nat,
)
    requires
        a.dom().finite(),
        b.dom().finite(),
        a.dom().disjoint(b.dom()),
    ensures
        a.union_prefer_right(b).dom().finite(),
        weight(a.union_prefer_right(b), f) == weight(a, f) + weight(b, f),
    decreases b.dom().len(),
{
    let both = a.union_prefer_right(b);
    assert(both.dom() =~= a.dom().union(b.dom()));
    if b.dom().len() == 0 {
        assert(b.dom() =~= Set::<K>::empty());
        assert(both =~= a);
    } else {
        let k = b.dom().choose();
        assert(b.dom().contains(k));
        lemma_weight_union(a, b.remove(k), f);
        lemma_weight_remove(both, f, k);
        assert(both.remove(k) =~= a.union_prefer_right(b.remove(k)));
    }
}

/// Counting the entries gives the size of the map.
pub proof fn lemma_weight_by_count<K>(m: Map<K, PriceEntry>)
    requires
        m.dom().finite(),
    ensures
        weight(m, by_count()) == m.len(),
    decreases m.dom().len(),
{
    if m.dom().len() > 0 {
        lemma_weight_by_count(m.remove(m.dom().choose()));
    }
}

/// What the entries under the first `n` of `keys` weigh.
pub open spec fn listed_weight<K>(
    m: Map<K, PriceEntry>,
    keys: Seq<K>,
    f: spec_fn(PriceEntry) -> nat,
    n: int,
) -> nat
    decreases n,
{
    if n <= 0 {
        0
    } else {
        listed_weight(m, keys, f, n - 1) + f(m[keys[n - 1]])
    }
}

/// More keys weigh no less.
pub proof fn lemma_listed_weight_grows<K>(
    m: Map<K, PriceEntry>,
    keys: Seq<K>,
    f: spec_fn(PriceEntry) -> nat,
    n: int,
    all: int,
)
    requires
        0 <= n <= all,
    ensures
        listed_weight(m, keys, f, n) <= listed_weight(m, keys, f, all),
    decreases all - n,
{
    if n < all {
        lemma_listed_weight_grows(m, keys, f, n, all - 1);
    }
}

/// Maps that agree under the first `n` keys weigh the same there.
proof fn lemma_listed_weight_agrees<K>(
    a: Map<K, PriceEntry>,
    b: Map<K, PriceEntry>,
    keys: Seq<K>,
    other_keys: Seq<K>,
    f: spec_fn(PriceEntry) -> nat,
    n: int,
)
    requires
        0 <= n <= keys.len(),
        n <= other_keys.len(),
        forall|i: int|
            0 <= i < n ==> #[trigger] keys[i] == other_keys[i] && a[keys[i]] == b[keys[i]],
    ensures
        listed_weight(a, keys, f, n) == listed_weight(b, other_keys, f, n),
    decreases n,
{
    if n > 0 {
        lemma_listed_weight_agrees(a, b, keys, other_keys, f, n - 1);
        assert(keys[n - 1] == other_keys[n - 1]);
    }
}

/// Walking every key once weighs the whole map.
pub proof fn lemma_listed_weight<K>(
    m: Map<K, PriceEntry>,
    keys: Seq<K>,
    f: spec_fn(PriceEntry) -> nat,
)
    requires
        keys.no_duplicates(),
        keys.to_set() == m.dom(),
    ensures
        m.dom().finite(),
        listed_weight(m, keys, f, keys.len() as int) == weight(m, f),
    decreases keys.len(),
{
    vstd::seq_lib::seq_to_set_is_finite(keys);
    if keys.len() == 0 {
        assert(m.dom() =~= Set::<K>::empty());
    } else {
        let k = keys.last();
        let n = keys.len() - 1;
        let fewer = keys.drop_last();
        assert(keys.contains(k)) by {
            assert(keys[n] == k);
        }
        assert(m.contains_key(k));
        assert(fewer.to_set() =~= m.remove(k).dom()) by {
            assert forall|x: K| fewer.to_set().contains(x) <==> m.remove(k).dom().contains(x) by {
                if fewer.contains(x) {
                    let i = choose|i: int| 0 <= i < fewer.len() && fewer[i] == x;
                    assert(keys[i] == x);
                    assert(keys.to_set().contains(x));
                }
                if m.remove(k).dom().contains(x) {
                    assert(keys.to_set().contains(x));
                    let i = choose|i: int| 0 <= i < keys.len() && keys[i] == x;
                    assert(fewer[i] == x);
                }
            }
        }
        lemma_listed_weight(m.remove(k), fewer, f);
        lemma_weight_remove(m, f, k);
        assert forall|i: int| 0 <= i < n implies #[trigger] keys[i] == fewer[i] && m[keys[i]]
            == m.remove(k)[keys[i]] by {
            assert(keys[i] != keys[n]);
        }
        lemma_listed_weight_agrees(m, m.remove(k), keys, fewer, f, n);
    }
}

/// Totals over the entries of a cache.
#[derive(Debug, Clone, Copy, PartialEq, Eq, Structural)]
pub struct CacheStats {
    pub total_entries: usize,
    pub total_sample_size: u64,
    /// Entries with high confidence.
    pub high_confidence_entries: usize,
}

impl Default for CacheStats {
    fn default() -> (stats: Self)
        ensures
            stats.total_entries == 0,
            stats.total_sample_size == 0,
            stats.high_confidence_entries == 0,
    {
        CacheStats { total_entries: 0, total_sample_size: 0, high_confidence_entries: 0 }
    }
}

impl CacheStats {
    /// The mean sample size in the number type `R`: `ratio` of the totals,
    /// or `zero` where there are no entries.
    pub fn average_sample_size<R, F: Fn(u64, usize) -> R>(&self, zero: R, ratio: F) -> (mean: R)
        requires
            self.total_entries > 0 ==> call_requires(
                ratio,
                (self.total_sample_size, self.total_entries),
            ),
        ensures
            self.total_entries == 0 ==> mean == zero,
            self.total_entries > 0 ==> call_ensures(
                ratio,
                (self.total_sample_size, self.total_entries),
                mean,
            ),
    {
        if self.total_entries == 0 {
            zero
        } else {
            ratio(self.total_sample_size, self.total_entries)
        }
    }

    /// The counts of `self` are those of `before` and the given ones.
    pub open spec fn adds(
        self,
        before: CacheStats,
        entries: nat,
        samples: nat,
        high: nat,
    ) -> bool {
        &&& self.total_entries == before.total_entries + entries
        &&& self.total_sample_size == before.total_sample_size + samples
        &&& self.high_confidence_entries == before.high_confidence_entries + high
    }

    /// Counts one entry.
    pub fn count(&mut self, entry: &PriceEntry)
        requires
            old(self).total_entries < usize::MAX,
            old(self).total_sample_size + entry.sample_size <= u64::MAX,
            old(self).high_confidence_entries < usize::MAX,
        ensures
            final(self).adds(
                *old(self),
                1,
                by_samples()(*entry),
                by_high_confidence()(*entry),
            ),
    {
        self.total_entries = self.total_entries + 1;
        self.total_sample_size = self.total_sample_size + entry.sample_size as u64;
        if entry.confidence() == Confidence::High {
            self.high_confidence_entries = self.high_confidence_entries + 1;
        }
    }
}

/// High-confidence entries are entries.
pub proof fn lemma_high_is_part<K>(m: Map<K, PriceEntry>)
    requires
        m.dom().finite(),
    ensures
        weight(m, by_high_confidence()) <= m.len(),
    decreases m.dom().len(),
{
    if m.dom().len() > 0 {
        lemma_high_is_part(m.remove(m.dom().choose()));
    }
}

} // verus!
