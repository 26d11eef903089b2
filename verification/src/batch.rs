//! Batches of price updates, over any kind of key.

use crate::pricing::{mergeable, merged, MergeOutcome, PriceEntry};
use vstd::prelude::*;

verus! {

/// Counts of what a batch of updates did.
#[derive(Debug, Clone, Copy, PartialEq, Eq, Structural)]
pub struct MergeStats {
    /// Updates that were averaged with a live entry.
    pub live_merged: u64,
    /// Updates that replaced an entry.
    pub overwritten: u64,
    /// Updates under a key that had no entry.
    pub inserted_new: u64,
}

/// [`MergeStats`] without a bound on the counts.
#[verifier::ext_equal]
pub struct Tally {
    pub live_merged: nat,
    pub overwritten: nat,
    pub inserted_new: nat,
}

impl View for MergeStats {
    type V = Tally;

    open spec fn view(&self) -> Tally {
        Tally {
            live_merged: self.live_merged as nat,
            overwritten: self.overwritten as nat,
            inserted_new: self.inserted_new as nat,
        }
    }
}

impl Tally {
    /// Nothing counted yet.
    pub open spec fn zero() -> Tally {
        Tally { live_merged: 0, overwritten: 0, inserted_new: 0 }
    }

    /// Both counts together.
    pub open spec fn plus(self, other: Tally) -> Tally {
        Tally {
            live_merged: self.live_merged + other.live_merged,
            overwritten: self.overwritten + other.overwritten,
            inserted_new: self.inserted_new + other.inserted_new,
        }
    }

    /// How many updates were counted.
    pub open spec fn total(self) -> nat {
        self.live_merged + self.overwritten + self.inserted_new
    }
}

impl Default for MergeStats {
    fn default() -> (stats: Self)
        ensures
            stats@ == Tally::zero(),
    {
        MergeStats { live_merged: 0, overwritten: 0, inserted_new: 0 }
    }
}

impl MergeStats {
    /// Adds the counts of another batch.
    pub fn add(&mut self, other: MergeStats)
        requires
            old(self).live_merged + other.live_merged <= u64::MAX,
            old(self).overwritten + other.overwritten <= u64::MAX,
            old(self).inserted_new + other.inserted_new <= u64::MAX,
        ensures
            final(self)@ == old(self)@.plus(other@),
    {
        self.live_merged = self.live_merged + other.live_merged;
        self.overwritten = self.overwritten + other.overwritten;
        self.inserted_new = self.inserted_new + other.inserted_new;
    }

    /// Counts one more update: what became of the entry under its key, or
    /// `None` where there was none.
    pub fn count(&mut self, outcome: Option<MergeOutcome>)
        requires
            old(self)@.total() < u64::MAX,
        ensures
            final(self)@ == old(self)@.plus(counted(outcome)),
    {
        match outcome {
            Some(MergeOutcome::LiveMerged) => {
                self.live_merged = self.live_merged + 1;
            },
            Some(MergeOutcome::Overwritten) => {
                self.overwritten = self.overwritten + 1;
            },
            None => {
                self.inserted_new = self.inserted_new + 1;
            },
        }
    }
}

/// The count of one update.
pub open spec fn counted(outcome: Option<MergeOutcome>) -> Tally {
    match outcome {
        Some(MergeOutcome::LiveMerged) => Tally { live_merged: 1, overwritten: 0, inserted_new: 0 },
        Some(MergeOutcome::Overwritten) => Tally { live_merged: 0, overwritten: 1, inserted_new: 0 },
        None => Tally { live_merged: 0, overwritten: 0, inserted_new: 1 },
    }
}

/// What an update finds under its key: the entry that stands there
/// afterwards, and what became of the one before.
pub open spec fn met<K>(m: Map<K, PriceEntry>, update: (K, PriceEntry)) -> (
    PriceEntry,
    Option<MergeOutcome>,
) {
    if m.contains_key(update.0) {
        let (entry, outcome) = merged(m[update.0], update.1);
        (entry, Some(outcome))
    } else {
        (update.1, None)
    }
}

/// The prices after one update.
pub open spec fn updated<K>(m: Map<K, PriceEntry>, update: (K, PriceEntry)) -> Map<K, PriceEntry> {
    m.insert(update.0, met(m, update).0)
}

/// The prices after a batch of updates in their order, and what they did.
pub open spec fn folded<K>(m: Map<K, PriceEntry>, updates: Seq<(K, PriceEntry)>) -> (
    Map<K, PriceEntry>,
    Tally,
)
    decreases updates.len(),
{
    if updates.len() == 0 {
        (m, Tally::zero())
    } else {
        let (before, tally) = folded(m, updates.drop_last());
        (
            updated(before, updates.last()),
            tally.plus(counted(met(before, updates.last()).1)),
        )
    }
}

/// Every update of a batch can be merged with what it finds.
pub open spec fn batch_mergeable<K>(m: Map<K, PriceEntry>, updates: Seq<(K, PriceEntry)>) -> bool
    decreases updates.len(),
{
    updates.len() > 0 ==> {
        let before = folded(m, updates.drop_last()).0;
        let (key, entry) = updates.last();
        &&& batch_mergeable(m, updates.drop_last())
        &&& before.contains_key(key) ==> mergeable(before[key], entry)
    }
}

/// Each live update rests on at least one observation.
pub open spec fn observed<K>(updates: Seq<(K, PriceEntry)>) -> bool {
    forall|i: int|
        0 <= i < updates.len() && (#[trigger] updates[i]).1.source is Live
            ==> updates[i].1.sample_size > 0
}

/// Updates that rest on observations can always be merged.
pub proof fn law_observed_updates_are_mergeable<K>(
    m: Map<K, PriceEntry>,
    updates: Seq<(K, PriceEntry)>,
)
    requires
        observed(updates),
    ensures
        batch_mergeable(m, updates),
    decreases updates.len(),
{
    if updates.len() > 0 {
        assert(observed(updates.drop_last())) by {
            assert forall|i: int|
                0 <= i < updates.drop_last().len() && (
                #[trigger] updates.drop_last()[i]).1.source is Live implies updates.drop_last()[i].1
                .sample_size > 0 by {
                assert(updates.drop_last()[i] == updates[i]);
            }
        }
        law_observed_updates_are_mergeable(m, updates.drop_last());
    }
}

/// Each live price rests on at least one observation.
pub open spec fn grounded<K>(m: Map<K, PriceEntry>) -> bool {
    forall|k: K| #[trigger]
        m.contains_key(k) && m[k].source is Live ==> m[k].sample_size > 0
}

/// Updates that rest on observations leave prices that do.
pub proof fn law_prices_stay_grounded<K>(m: Map<K, PriceEntry>, updates: Seq<(K, PriceEntry)>)
    requires
        grounded(m),
        observed(updates),
    ensures
        grounded(folded(m, updates).0),
    decreases updates.len(),
{
    if updates.len() > 0 {
        let shorter = updates.drop_last();
        assert(observed(shorter)) by {
            assert forall|i: int|
                0 <= i < shorter.len() && (
                #[trigger] shorter[i]).1.source is Live implies shorter[i].1.sample_size > 0 by {
                assert(shorter[i] == updates[i]);
            }
        }
        law_prices_stay_grounded(m, shorter);
        let before = folded(m, shorter).0;
        let last = updates[updates.len() - 1];
        assert forall|k: K| #[trigger]
            folded(m, updates).0.contains_key(k) && folded(
                m,
                updates,
            ).0[k].source is Live implies folded(m, updates).0[k].sample_size > 0 by {
            if k != last.0 {
                assert(before.contains_key(k));
            }
        }
    }
}

/// The beginning of a mergeable batch is mergeable.
pub proof fn lemma_mergeable_prefix<K>(
    m: Map<K, PriceEntry>,
    updates: Seq<(K, PriceEntry)>,
    n: int,
)
    requires
        batch_mergeable(m, updates),
        0 <= n <= updates.len(),
    ensures
        batch_mergeable(m, updates.take(n)),
    decreases updates.len(),
{
    if n == updates.len() {
        assert(updates.take(n) =~= updates);
    } else {
        lemma_mergeable_prefix(m, updates.drop_last(), n);
        assert(updates.drop_last().take(n) =~= updates.take(n));
    }
}

/// Every update is counted once.
pub proof fn law_every_update_is_counted<K>(m: Map<K, PriceEntry>, updates: Seq<(K, PriceEntry)>)
    ensures
        folded(m, updates).1.total() == updates.len(),
    decreases updates.len(),
{
    if updates.len() > 0 {
        law_every_update_is_counted(m, updates.drop_last());
    }
}

/// A batch leaves every key alone that it does not name, and gives every
/// key that it names an entry.
pub proof fn law_only_named_keys_change<K>(m: Map<K, PriceEntry>, updates: Seq<(K, PriceEntry)>)
    ensures
        forall|k: K|
            (forall|i: int| 0 <= i < updates.len() ==> (#[trigger] updates[i]).0 != k) ==> (
            #[trigger] folded(m, updates).0.contains_key(k) <==> m.contains_key(k)) && (
            m.contains_key(k) ==> folded(m, updates).0[k] == m[k]),
        forall|i: int|
            0 <= i < updates.len() ==> folded(m, updates).0.contains_key(
                (#[trigger] updates[i]).0,
            ),
    decreases updates.len(),
{
    if updates.len() > 0 {
        let shorter = updates.drop_last();
        law_only_named_keys_change(m, shorter);
        assert forall|k: K|
            (forall|i: int| 0 <= i < updates.len() ==> (#[trigger] updates[i]).0 != k) implies (
        #[trigger] folded(m, updates).0.contains_key(k) <==> m.contains_key(k)) && (
        m.contains_key(k) ==> folded(m, updates).0[k] == m[k]) by {
            assert(updates[updates.len() - 1].0 != k);
            assert forall|i: int| 0 <= i < shorter.len() implies (#[trigger] shorter[i]).0
                != k by {
                assert(updates[i].0 != k);
            }
            assert(folded(m, shorter).0.contains_key(k) <==> m.contains_key(k));
        }
        assert forall|i: int| 0 <= i < updates.len() implies folded(m, updates).0.contains_key(
            (#[trigger] updates[i]).0,
        ) by {
            if i < shorter.len() {
                assert(shorter[i] == updates[i]);
            }
        }
    }
}

/// A price written once under a fresh key is read back as it was written.
pub proof fn law_a_fresh_price_is_read_back<K>(
    m: Map<K, PriceEntry>,
    updates: Seq<(K, PriceEntry)>,
    i: int,
)
    requires
        0 <= i < updates.len(),
        !m.contains_key(updates[i].0),
        forall|j: int|
            0 <= j < updates.len() && j != i ==> (#[trigger] updates[j]).0 != updates[i].0,
    ensures
        folded(m, updates).0.contains_key(updates[i].0),
        folded(m, updates).0[updates[i].0] == updates[i].1,
    decreases updates.len(),
{
    let shorter = updates.drop_last();
    let n = updates.len() - 1;
    if i < n {
        assert(updates[n].0 != updates[i].0);
        assert forall|j: int| 0 <= j < shorter.len() && j != i implies (#[trigger] shorter[j]).0
            != shorter[i].0 by {
            assert(updates[j].0 != updates[i].0);
        }
        law_a_fresh_price_is_read_back(m, shorter, i);
    } else {
        law_only_named_keys_change(m, shorter);
        let k = updates[i].0;
        assert forall|j: int| 0 <= j < shorter.len() implies (#[trigger] shorter[j]).0 != k by {
            assert(updates[j].0 != k);
        }
        assert(folded(m, shorter).0.contains_key(k) <==> m.contains_key(k));
    }
}

/// Two batches one after the other do what both together do.
pub proof fn law_batches_add_up<K>(
    m: Map<K, PriceEntry>,
    first: Seq<(K, PriceEntry)>,
    second: Seq<(K, PriceEntry)>,
)
    ensures
        folded(m, first + second).0 == folded(folded(m, first).0, second).0,
        folded(m, first + second).1 == folded(m, first).1.plus(
            folded(folded(m, first).0, second).1,
        ),
    decreases second.len(),
{
    if second.len() == 0 {
        assert(first + second =~= first);
    } else {
        law_batches_add_up(m, first, second.drop_last());
        assert((first + second).drop_last() =~= first + second.drop_last());
    }
}

/// A batch adds no more keys than it has updates, and takes none away.
pub proof fn law_a_batch_adds_at_most_its_length<K>(
    m: Map<K, PriceEntry>,
    updates: Seq<(K, PriceEntry)>,
)
    requires
        m.dom().finite(),
    ensures
        folded(m, updates).0.dom().finite(),
        m.len() <= folded(m, updates).0.len() <= m.len() + updates.len(),
        m.dom().subset_of(folded(m, updates).0.dom()),
    decreases updates.len(),
{
    if updates.len() > 0 {
        law_a_batch_adds_at_most_its_length(m, updates.drop_last());
    }
}

/// Updates under keys that are new and all different are kept as they were
/// written, and each is counted as new.
pub proof fn law_distinct_updates_are_all_kept<K>(
    m: Map<K, PriceEntry>,
    updates: Seq<(K, PriceEntry)>,
)
    requires
        m.dom().finite(),
        forall|i: int| 0 <= i < updates.len() ==> !m.contains_key((#[trigger] updates[i]).0),
        forall|i: int, j: int|
            0 <= i < j < updates.len() ==> (#[trigger] updates[i]).0 != (#[trigger] updates[j]).0,
    ensures
        forall|i: int|
            0 <= i < updates.len() ==> folded(m, updates).0.contains_key(
                (#[trigger] updates[i]).0,
            ) && folded(m, updates).0[updates[i].0] == updates[i].1,
        folded(m, updates).0.dom().finite(),
        folded(m, updates).0.len() == m.len() + updates.len(),
        folded(m, updates).1 == (Tally {
            live_merged: 0,
            overwritten: 0,
            inserted_new: updates.len(),
        }),
    decreases updates.len(),
{
    if updates.len() > 0 {
        let shorter = updates.drop_last();
        let n = updates.len() - 1;
        assert forall|i: int| 0 <= i < shorter.len() implies !m.contains_key(
            (#[trigger] shorter[i]).0,
        ) by {
            assert(shorter[i] == updates[i]);
        }
        assert forall|i: int, j: int| 0 <= i < j < shorter.len() implies (
        #[trigger] shorter[i]).0 != (#[trigger] shorter[j]).0 by {
            assert(updates[i].0 != updates[j].0);
        }
        law_distinct_updates_are_all_kept(m, shorter);
        law_only_named_keys_change(m, shorter);
        let key = updates[n].0;
        assert forall|i: int| 0 <= i < shorter.len() implies (#[trigger] shorter[i]).0 != key by {
            assert(updates[i].0 != updates[n].0);
        }
        assert(folded(m, shorter).0.contains_key(key) <==> m.contains_key(key));
        assert(!m.contains_key(updates[n].0));
        assert forall|i: int| 0 <= i < updates.len() implies folded(m, updates).0.contains_key(
            (#[trigger] updates[i]).0,
        ) && folded(m, updates).0[updates[i].0] == updates[i].1 by {
            if i < n {
                assert(shorter[i] == updates[i]);
                assert(updates[i].0 != updates[n].0);
            }
        }
    }
}

/// One update puts its entry under a fresh key as it is, and counts it as
/// new. Under a known key two live entries are merged, and counted as
/// merged; any other entry replaces the old one, and is counted as such. No
/// other key changes.
pub proof fn law_one_update<K>(m: Map<K, PriceEntry>, key: K, entry: PriceEntry)
    ensures
        ({
            let (after, tally) = folded(m, seq![(key, entry)]);
            let merges = m.contains_key(key) && m[key].source is Live && entry.source is Live;
            &&& after.contains_key(key)
            &&& merges ==> after[key] == merged(m[key], entry).0
            &&& !merges ==> after[key] == entry
            &&& tally.live_merged == if merges {
                1nat
            } else {
                0nat
            }
            &&& tally.overwritten == if m.contains_key(key) && !merges {
                1nat
            } else {
                0nat
            }
            &&& tally.inserted_new == if m.contains_key(key) {
                0nat
            } else {
                1nat
            }
            &&& forall|other: K|
                other != key ==> (#[trigger] after.contains_key(other) <==> m.contains_key(other))
                    && (m.contains_key(other) ==> after[other] == m[other])
        }),
{
    let updates = seq![(key, entry)];
    assert(updates.drop_last() =~= Seq::<(K, PriceEntry)>::empty());
    assert(folded(m, updates.drop_last()) == (m, Tally::zero()));
}

/// No updates change nothing.
pub proof fn law_no_updates_change_nothing<K>(m: Map<K, PriceEntry>)
    ensures
        folded(m, Seq::<(K, PriceEntry)>::empty()).0 == m,
        folded(m, Seq::<(K, PriceEntry)>::empty()).1.total() == 0,
{
}

/// The counts of two batches add up one by one.
pub proof fn law_tallies_add_up(a: Tally, b: Tally)
    ensures
        a.plus(b).live_merged == a.live_merged + b.live_merged,
        a.plus(b).overwritten == a.overwritten + b.overwritten,
        a.plus(b).inserted_new == a.inserted_new + b.inserted_new,
        a.total() == a.live_merged + a.overwritten + a.inserted_new,
{
}

} // verus!
