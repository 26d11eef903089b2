//! A price cache that many tasks read while others update it.
//!
//! Readers take a snapshot and look prices up in it; a writer replaces the
//! snapshot by an updated copy, and starts over if another writer was
//! faster. So the batches of all writers take effect one after the other,
//! each on what the one before it left, and no update is lost.

use crate::batch::{
    folded, grounded, law_batches_add_up, law_distinct_updates_are_all_kept,
    law_every_update_is_counted, law_observed_updates_are_mergeable, law_only_named_keys_change,
    law_prices_stay_grounded, observed, MergeStats, Tally,
};
use crate::cache::{named, PriceCache, Prices};
use crate::fingerprint::Fingerprint;
use crate::pricing::PriceEntry;
use crate::shards::keyed;
use arc_swap::ArcSwap;
use std::sync::Arc;
use vstd::prelude::*;

verus! {

// ---------------------------------------------------------------------
// Batches
// ---------------------------------------------------------------------

/// A batch of updates for one tier.
pub enum TierUpdates {
    Exact(Vec<(Fingerprint, PriceEntry)>),
    Major(Vec<(Fingerprint, PriceEntry)>),
    Base(Vec<(String, PriceEntry)>),
}

/// What a batch of updates for one tier means.
pub enum Batch {
    Exact(Seq<(u64, PriceEntry)>),
    Major(Seq<(u64, PriceEntry)>),
    Base(Seq<(Seq<char>, PriceEntry)>),
}

impl View for TierUpdates {
    type V = Batch;

    open spec fn view(&self) -> Batch {
        match self {
            TierUpdates::Exact(updates) => Batch::Exact(keyed(updates@)),
            TierUpdates::Major(updates) => Batch::Major(keyed(updates@)),
            TierUpdates::Base(updates) => Batch::Base(named(updates@)),
        }
    }
}

impl Batch {
    /// Each live update rests on at least one observation.
    pub open spec fn observed(self) -> bool {
        match self {
            Batch::Exact(updates) => observed(updates),
            Batch::Major(updates) => observed(updates),
            Batch::Base(updates) => observed(updates),
        }
    }

    /// The number of updates.
    pub open spec fn count(self) -> nat {
        match self {
            Batch::Exact(updates) => updates.len(),
            Batch::Major(updates) => updates.len(),
            Batch::Base(updates) => updates.len(),
        }
    }

    /// The prices after the updates.
    pub open spec fn applied_to(self, prices: Prices) -> Prices {
        match self {
            Batch::Exact(updates) => Prices { exact: folded(prices.exact, updates).0, ..prices },
            Batch::Major(updates) => Prices { major: folded(prices.major, updates).0, ..prices },
            Batch::Base(updates) => Prices { base: folded(prices.base, updates).0, ..prices },
        }
    }

    /// What the updates do to the prices.
    pub open spec fn tally_on(self, prices: Prices) -> Tally {
        match self {
            Batch::Exact(updates) => folded(prices.exact, updates).1,
            Batch::Major(updates) => folded(prices.major, updates).1,
            Batch::Base(updates) => folded(prices.base, updates).1,
        }
    }
}

/// The prices that batches of updates, one after the other, lead to from
/// `start`.
pub open spec fn replayed(start: Prices, batches: Seq<Batch>) -> Prices
    decreases batches.len(),
{
    if batches.len() == 0 {
        start
    } else {
        batches.last().applied_to(replayed(start, batches.drop_last()))
    }
}

/// What batches of updates, one after the other, do to the prices in all.
pub open spec fn tallies(start: Prices, batches: Seq<Batch>) -> Tally
    decreases batches.len(),
{
    if batches.len() == 0 {
        Tally::zero()
    } else {
        tallies(start, batches.drop_last()).plus(
            batches.last().tally_on(replayed(start, batches.drop_last())),
        )
    }
}

/// Each batch rests on observations.
pub open spec fn all_observed(batches: Seq<Batch>) -> bool {
    forall|i: int| 0 <= i < batches.len() ==> (#[trigger] batches[i]).observed()
}

/// Batches that rest on observations lead from `start` to these prices.
pub open spec fn attainable(start: Prices, prices: Prices) -> bool {
    exists|batches: Seq<Batch>|
        all_observed(batches) && prices == #[trigger] replayed(start, batches)
}

/// The updates under exact fingerprints, over all batches.
pub open spec fn exact_updates(batches: Seq<Batch>) -> Seq<(u64, PriceEntry)>
    decreases batches.len(),
{
    if batches.len() == 0 {
        Seq::empty()
    } else {
        let before = exact_updates(batches.drop_last());
        match batches.last() {
            Batch::Exact(updates) => before + updates,
            _ => before,
        }
    }
}

/// The updates under keys of major modifiers, over all batches.
pub open spec fn major_updates(batches: Seq<Batch>) -> Seq<(u64, PriceEntry)>
    decreases batches.len(),
{
    if batches.len() == 0 {
        Seq::empty()
    } else {
        let before = major_updates(batches.drop_last());
        match batches.last() {
            Batch::Major(updates) => before + updates,
            _ => before,
        }
    }
}

/// The updates under item ids, over all batches.
pub open spec fn base_updates(batches: Seq<Batch>) -> Seq<(Seq<char>, PriceEntry)>
    decreases batches.len(),
{
    if batches.len() == 0 {
        Seq::empty()
    } else {
        let before = base_updates(batches.drop_last());
        match batches.last() {
            Batch::Base(updates) => before + updates,
            _ => before,
        }
    }
}

// ---------------------------------------------------------------------
// Laws
// ---------------------------------------------------------------------

/// A batch changes its own tier, as its updates one after the other do, and
/// leaves the other two as they are.
pub proof fn law_a_batch_changes_its_own_tier(
    prices: Prices,
    keyed_updates: Seq<(u64, PriceEntry)>,
    named_updates: Seq<(Seq<char>, PriceEntry)>,
)
    ensures
        ({
            let exact = Batch::Exact(keyed_updates);
            let major = Batch::Major(keyed_updates);
            let base = Batch::Base(named_updates);
            &&& exact.applied_to(prices).exact == folded(prices.exact, keyed_updates).0
            &&& exact.applied_to(prices).major == prices.major
            &&& exact.applied_to(prices).base == prices.base
            &&& exact.tally_on(prices) == folded(prices.exact, keyed_updates).1
            &&& major.applied_to(prices).exact == prices.exact
            &&& major.applied_to(prices).major == folded(prices.major, keyed_updates).0
            &&& major.applied_to(prices).base == prices.base
            &&& major.tally_on(prices) == folded(prices.major, keyed_updates).1
            &&& base.applied_to(prices).exact == prices.exact
            &&& base.applied_to(prices).major == prices.major
            &&& base.applied_to(prices).base == folded(prices.base, named_updates).0
            &&& base.tally_on(prices) == folded(prices.base, named_updates).1
        }),
{
}

/// Updates are those of the tier that they are for, each under its own key
/// and with its own entry.
pub proof fn law_updates_keep_their_keys(updates: TierUpdates)
    ensures
        updates matches TierUpdates::Exact(list) ==> {
            &&& updates@ is Exact
            &&& updates@->Exact_0.len() == list@.len()
            &&& forall|i: int|
                0 <= i < list@.len() ==> #[trigger] updates@->Exact_0[i] == (
                    list@[i].0.0,
                    list@[i].1,
                )
        },
        updates matches TierUpdates::Major(list) ==> {
            &&& updates@ is Major
            &&& updates@->Major_0.len() == list@.len()
            &&& forall|i: int|
                0 <= i < list@.len() ==> #[trigger] updates@->Major_0[i] == (
                    list@[i].0.0,
                    list@[i].1,
                )
        },
        updates matches TierUpdates::Base(list) ==> {
            &&& updates@ is Base
            &&& updates@->Base_0.len() == list@.len()
            &&& forall|i: int|
                0 <= i < list@.len() ==> #[trigger] updates@->Base_0[i] == (
                    list@[i].0@,
                    list@[i].1,
                )
        },
{
}

/// Prices are attainable from themselves, and one batch more leads from
/// attainable prices to attainable prices.
pub proof fn law_updates_keep_prices_attainable(start: Prices, prices: Prices, batch: Batch)
    requires
        attainable(start, prices),
        batch.observed(),
    ensures
        attainable(start, start),
        attainable(start, batch.applied_to(prices)),
{
    let none = Seq::<Batch>::empty();
    assert(replayed(start, none) == start);
    let batches = choose|batches: Seq<Batch>|
        all_observed(batches) && prices == #[trigger] replayed(start, batches);
    let longer = batches.push(batch);
    assert(longer.drop_last() =~= batches);
    assert(replayed(start, longer) == batch.applied_to(prices));
}

/// From prices of which each live one has an observation behind it, such as
/// none at all, only such prices are attainable: there is always a weight
/// to average by.
pub proof fn law_live_prices_rest_on_observations(start: Prices, prices: Prices)
    requires
        grounded(start.exact),
        grounded(start.major),
        grounded(start.base),
        attainable(start, prices),
    ensures
        grounded(prices.exact),
        grounded(prices.major),
        grounded(prices.base),
{
    let batches = choose|batches: Seq<Batch>|
        all_observed(batches) && prices == #[trigger] replayed(start, batches);
    lemma_replayed_grounded(start, batches);
}

proof fn lemma_replayed_grounded(start: Prices, batches: Seq<Batch>)
    requires
        grounded(start.exact),
        grounded(start.major),
        grounded(start.base),
        all_observed(batches),
    ensures
        grounded(replayed(start, batches).exact),
        grounded(replayed(start, batches).major),
        grounded(replayed(start, batches).base),
    decreases batches.len(),
{
    if batches.len() > 0 {
        let shorter = batches.drop_last();
        let before = replayed(start, shorter);
        assert forall|i: int| 0 <= i < shorter.len() implies (#[trigger] shorter[i]).observed() by {
            assert(shorter[i] == batches[i]);
        }
        lemma_replayed_grounded(start, shorter);
        let last = batches[batches.len() - 1];
        assert(last.observed());
        match last {
            Batch::Exact(updates) => law_prices_stay_grounded(before.exact, updates),
            Batch::Major(updates) => law_prices_stay_grounded(before.major, updates),
            Batch::Base(updates) => law_prices_stay_grounded(before.base, updates),
        }
    }
}

/// However updates are cut into batches, each tier ends as if all its
/// updates had come in one batch, and the counts add up.
pub proof fn law_tiers_add_up(start: Prices, batches: Seq<Batch>)
    ensures
        replayed(start, batches).exact == folded(start.exact, exact_updates(batches)).0,
        replayed(start, batches).major == folded(start.major, major_updates(batches)).0,
        replayed(start, batches).base == folded(start.base, base_updates(batches)).0,
        tallies(start, batches) == folded(start.exact, exact_updates(batches)).1.plus(
            folded(start.major, major_updates(batches)).1,
        ).plus(folded(start.base, base_updates(batches)).1),
    decreases batches.len(),
{
    if batches.len() > 0 {
        let shorter = batches.drop_last();
        law_tiers_add_up(start, shorter);
        match batches.last() {
            Batch::Exact(updates) => law_batches_add_up(
                start.exact,
                exact_updates(shorter),
                updates,
            ),
            Batch::Major(updates) => law_batches_add_up(
                start.major,
                major_updates(shorter),
                updates,
            ),
            Batch::Base(updates) => law_batches_add_up(start.base, base_updates(shorter), updates),
        }
    }
}

proof fn lemma_replayed_in_two(start: Prices, first: Seq<Batch>, second: Seq<Batch>)
    ensures
        replayed(start, first + second) == replayed(replayed(start, first), second),
    decreases second.len(),
{
    if second.len() == 0 {
        assert(first + second =~= first);
    } else {
        lemma_replayed_in_two(start, first, second.drop_last());
        assert((first + second).drop_last() =~= first + second.drop_last());
    }
}

/// What `updates` left in `then` is kept in `now`: each key that they name
/// has a price, and the price that they left, unless one of the `later`
/// updates names it too. No other key is gone either.
pub open spec fn kept<K>(
    then: Map<K, PriceEntry>,
    now: Map<K, PriceEntry>,
    updates: Seq<(K, PriceEntry)>,
    later: Seq<(K, PriceEntry)>,
) -> bool {
    &&& then.dom().subset_of(now.dom())
    &&& forall|n: int|
        0 <= n < updates.len() ==> {
            let key = (#[trigger] updates[n]).0;
            &&& now.contains_key(key)
            &&& (forall|l: int| 0 <= l < later.len() ==> (#[trigger] later[l]).0 != key)
                ==> now[key] == then[key]
        }
}

proof fn lemma_kept<K>(
    before: Map<K, PriceEntry>,
    updates: Seq<(K, PriceEntry)>,
    later: Seq<(K, PriceEntry)>,
)
    ensures
        kept(
            folded(before, updates).0,
            folded(folded(before, updates).0, later).0,
            updates,
            later,
        ),
{
    let then = folded(before, updates).0;
    let now = folded(then, later).0;
    law_only_named_keys_change(before, updates);
    law_only_named_keys_change(then, later);
    assert forall|k: K| then.contains_key(k) implies now.contains_key(k) by {
        if forall|l: int| 0 <= l < later.len() ==> (#[trigger] later[l]).0 != k {
            assert(now.contains_key(k) <==> then.contains_key(k));
        }
    }
    assert forall|n: int| 0 <= n < updates.len() implies {
        let key = (#[trigger] updates[n]).0;
        &&& now.contains_key(key)
        &&& (forall|l: int| 0 <= l < later.len() ==> (#[trigger] later[l]).0 != key)
            ==> now[key] == then[key]
    } by {
        assert(then.contains_key(updates[n].0));
    }
}

/// No update is lost: what a batch wrote, in its turn among the batches of
/// all writers, stands in everything that is held later, but for what later
/// batches make of the same keys.
pub proof fn law_no_update_is_lost(start: Prices, batches: Seq<Batch>, i: int, j: int)
    requires
        0 <= i < j <= batches.len(),
    ensures
        ({
            let before = replayed(start, batches.take(i));
            let then = replayed(start, batches.take(i + 1));
            let now = replayed(start, batches.take(j));
            let later = batches.subrange(i + 1, j);
            &&& then == batches[i].applied_to(before)
            &&& match batches[i] {
                Batch::Exact(updates) => kept(
                    then.exact,
                    now.exact,
                    updates,
                    exact_updates(later),
                ),
                Batch::Major(updates) => kept(
                    then.major,
                    now.major,
                    updates,
                    major_updates(later),
                ),
                Batch::Base(updates) => kept(then.base, now.base, updates, base_updates(later)),
            }
        }),
{
    let before = replayed(start, batches.take(i));
    let then = replayed(start, batches.take(i + 1));
    let later = batches.subrange(i + 1, j);
    assert(batches.take(i + 1).drop_last() =~= batches.take(i));
    assert(then == batches[i].applied_to(before));
    assert(batches.take(j) =~= batches.take(i + 1) + later);
    lemma_replayed_in_two(start, batches.take(i + 1), later);
    law_tiers_add_up(then, later);
    match batches[i] {
        Batch::Exact(updates) => lemma_kept(before.exact, updates, exact_updates(later)),
        Batch::Major(updates) => lemma_kept(before.major, updates, major_updates(later)),
        Batch::Base(updates) => lemma_kept(before.base, updates, base_updates(later)),
    }
}

/// No key is named twice.
pub open spec fn distinct<K>(updates: Seq<(K, PriceEntry)>) -> bool {
    forall|i: int, j: int|
        0 <= i < j < updates.len() ==> (#[trigger] updates[i]).0 != (#[trigger] updates[j]).0
}

/// `m` holds the updates, each as it was written, and nothing else.
pub open spec fn holds_just<K>(m: Map<K, PriceEntry>, updates: Seq<(K, PriceEntry)>) -> bool {
    &&& m.dom().finite()
    &&& m.len() == updates.len()
    &&& forall|i: int|
        0 <= i < updates.len() ==> m.contains_key((#[trigger] updates[i]).0) && m[updates[i].0]
            == updates[i].1
}

/// Where many writers fill an empty cache and no key is written twice, every
/// update is held in the end as it was written, in whatever turns the
/// batches took effect, and each is counted once as new.
pub proof fn law_distinct_updates_of_many_writers_are_all_kept(batches: Seq<Batch>)
    requires
        distinct(exact_updates(batches)),
        distinct(major_updates(batches)),
        distinct(base_updates(batches)),
    ensures
        holds_just(replayed(Prices::empty(), batches).exact, exact_updates(batches)),
        holds_just(replayed(Prices::empty(), batches).major, major_updates(batches)),
        holds_just(replayed(Prices::empty(), batches).base, base_updates(batches)),
        tallies(Prices::empty(), batches) == (Tally {
            live_merged: 0,
            overwritten: 0,
            inserted_new: exact_updates(batches).len() + major_updates(batches).len()
                + base_updates(batches).len(),
        }),
{
    law_tiers_add_up(Prices::empty(), batches);
    law_distinct_updates_are_all_kept(Map::<u64, PriceEntry>::empty(), exact_updates(batches));
    law_distinct_updates_are_all_kept(Map::<u64, PriceEntry>::empty(), major_updates(batches));
    law_distinct_updates_are_all_kept(
        Map::<Seq<char>, PriceEntry>::empty(),
        base_updates(batches),
    );
}

// ---------------------------------------------------------------------
// Updating a copy
// ---------------------------------------------------------------------

/// A copy of updates under fingerprints.
fn copy_keyed(updates: &Vec<(Fingerprint, PriceEntry)>) -> (copy: Vec<(Fingerprint, PriceEntry)>)
    ensures
        copy@ == updates@,
{
    let mut copy: Vec<(Fingerprint, PriceEntry)> = Vec::new();
    let n: usize = updates.len();
    for i in 0..n
        invariant
            n == updates@.len(),
            copy@ == updates@.take(i as int),
    {
        copy.push(updates[i]);
        assert(updates@.take(i + 1) =~= updates@.take(i as int).push(updates@[i as int]));
    }
    assert(updates@.take(n as int) =~= updates@);
    copy
}

/// A copy of updates under item ids.
fn copy_named(updates: &Vec<(String, PriceEntry)>) -> (copy: Vec<(String, PriceEntry)>)
    ensures
        named(copy@) == named(updates@),
{
    let mut copy: Vec<(String, PriceEntry)> = Vec::new();
    let n: usize = updates.len();
    for i in 0..n
        invariant
            n == updates@.len(),
            copy@.len() == i,
            forall|j: int|
                0 <= j < i ==> (#[trigger] copy@[j]).0@ == updates@[j].0@ && copy@[j].1
                    == updates@[j].1,
    {
        copy.push((updates[i].0.clone(), updates[i].1));
    }
    assert(named(copy@) =~= named(updates@));
    copy
}

/// The cache after some updates, and what they did.
pub fn revised(current: &PriceCache, updates: &TierUpdates) -> (next: (PriceCache, MergeStats))
    requires
        updates@.observed(),
    ensures
        next.0@ == updates@.applied_to(current@),
        next.1@ == updates@.tally_on(current@),
        next.1@.total() == updates@.count(),
{
    let mut cache = current.duplicate();
    let stats = match updates {
        TierUpdates::Exact(updates) => {
            proof {
                law_observed_updates_are_mergeable(current@.exact, keyed(updates@));
                law_every_update_is_counted(current@.exact, keyed(updates@));
            }
            cache.update_exact_batch(copy_keyed(updates))
        },
        TierUpdates::Major(updates) => {
            proof {
                law_observed_updates_are_mergeable(current@.major, keyed(updates@));
                law_every_update_is_counted(current@.major, keyed(updates@));
            }
            cache.update_major_batch(copy_keyed(updates))
        },
        TierUpdates::Base(updates) => {
            proof {
                law_observed_updates_are_mergeable(current@.base, named(updates@));
                law_every_update_is_counted(current@.base, named(updates@));
            }
            cache.update_base_batch(copy_named(updates))
        },
    };
    (cache, stats)
}

/// The cache after some updates.
fn next_cache(current: &PriceCache, updates: &TierUpdates) -> (next: PriceCache)
    requires
        updates@.observed(),
    ensures
        next@ == updates@.applied_to(current@),
{
    revised(current, updates).0
}

// ---------------------------------------------------------------------
// Sharing
// ---------------------------------------------------------------------

/// A price cache behind a cell that holds the current snapshot.
#[verifier::external_body]
pub struct SharedPriceCache {
    cell: ArcSwap<PriceCache>,
}

/// The prices that a shared cache was made with. They stay the same, while
/// what it holds changes.
pub uninterp spec fn first_prices(shared: SharedPriceCache) -> Prices;

/// The batches that all tasks ever write to a shared cache, in the order in
/// which they take effect.
pub uninterp spec fn written(shared: SharedPriceCache) -> Seq<Batch>;

/// The prices that a shared cache holds once `n` batches have taken effect.
pub open spec fn stage(shared: SharedPriceCache, n: int) -> Prices {
    replayed(first_prices(shared), written(shared).take(n))
}

/// `batch` is the one that takes effect after `n` others. They all rest on
/// observations.
pub open spec fn takes_effect(batches: Seq<Batch>, n: int, batch: Batch) -> bool {
    &&& 0 <= n < batches.len()
    &&& batches[n] == batch
    &&& all_observed(batches.take(n + 1))
}

/// `batch` takes effect among `batches`, and then on the prices `before`.
pub open spec fn meets(start: Prices, batches: Seq<Batch>, batch: Batch, before: Prices) -> bool {
    exists|n: int| #[trigger]
        takes_effect(batches, n, batch) && before == replayed(start, batches.take(n))
}

/// A shared cache holds these prices at one moment or another.
pub open spec fn held(shared: SharedPriceCache, prices: Prices) -> bool {
    exists|n: int|
        {
            &&& 0 <= n <= written(shared).len()
            &&& all_observed(written(shared).take(n))
            &&& prices == #[trigger] stage(shared, n)
        }
}

/// What a shared cache holds is attainable from what it was made with. A
/// batch that takes effect does so on prices that are held, and what it
/// makes of them is held.
pub proof fn law_batches_take_effect_on_what_is_held(
    shared: SharedPriceCache,
    prices: Prices,
    n: int,
    batch: Batch,
)
    ensures
        held(shared, prices) ==> attainable(first_prices(shared), prices),
        takes_effect(written(shared), n, batch) ==> {
            &&& held(shared, stage(shared, n))
            &&& held(shared, stage(shared, n + 1))
            &&& stage(shared, n + 1) == batch.applied_to(stage(shared, n))
        },
{
    let batches = written(shared);
    if takes_effect(batches, n, batch) {
        assert(batches.take(n + 1).drop_last() =~= batches.take(n));
        assert forall|i: int| 0 <= i < n implies (#[trigger] batches.take(n)[i]).observed() by {
            assert(batches.take(n + 1)[i] == batches.take(n)[i]);
        }
        assert(all_observed(batches.take(n)));
    }
}

impl SharedPriceCache {
    /// Puts a cache into a cell, by `ArcSwap::from_pointee`. The claim is that
    /// this is the cache that the cell was made with.
    #[verifier::external_body]
    fn with(cache: PriceCache) -> (shared: Self)
        ensures
            first_prices(shared) == cache@,
    {
        SharedPriceCache { cell: ArcSwap::from_pointee(cache) }
    }

    /// The cache that the cell holds at this moment, by
    /// `ArcSwapAny::load_full`. The claim is that it is one that was stored:
    /// the first one, or what some of the batches, in the order in which
    /// they take effect, have made of it. How many of them have taken effect
    /// by now depends on what other tasks do, and is not said.
    #[verifier::external_body]
    fn load(&self) -> (cache: Arc<PriceCache>)
        ensures
            held(*self, cache@),
    {
        self.cell.load_full()
    }

    /// Replaces the cache in the cell by the updated one, by
    /// `ArcSwapAny::rcu`, which calls [`next_cache`] on what the cell holds
    /// until no other task came in between, and gives back the cache that
    /// was replaced. The claim is that the updates take effect, on just that
    /// cache. Which of all batches come before them depends on what other
    /// tasks do, and is not said.
    #[verifier::external_body]
    fn replace(&self, updates: &TierUpdates) -> (before: Arc<PriceCache>)
        requires
            updates@.observed(),
        ensures
            meets(first_prices(*self), written(*self), updates@, before@),
    {
        self.cell.rcu(|current| next_cache(current, updates))
    }

    /// A shared cache without prices. Tasks that share it may have updated
    /// it by the time that it is read.
    pub fn new() -> (shared: Self)
        ensures
            first_prices(shared) == Prices::empty(),
    {
        SharedPriceCache::with(PriceCache::new())
    }

    /// The cache as it is now: what the first one has become by some of the
    /// batches. Later updates do not show in it.
    pub fn snapshot(&self) -> (cache: Arc<PriceCache>)
        ensures
            held(*self, cache@),
            attainable(first_prices(*self), cache@),
    {
        let cache = self.load();
        proof {
            law_batches_take_effect_on_what_is_held(*self, cache@, 0, arbitrary());
        }
        cache
    }

    /// Applies updates to what the cache holds by then, and gives the cache
    /// that it held just before, and what the updates did to that one.
    pub fn exchange(&self, updates: TierUpdates) -> (done: (Arc<PriceCache>, MergeStats))
        requires
            updates@.observed(),
        ensures
            exists|n: int| #[trigger]
                takes_effect(written(*self), n, updates@) && done.0@ == stage(*self, n)
                    && done.1@ == updates@.tally_on(stage(*self, n)),
            done.1@.total() == updates@.count(),
    {
        let before = self.replace(&updates);
        let (_, stats) = revised(&before, &updates);
        (before, stats)
    }

    /// Applies updates to what the cache holds by then, and says what they
    /// did to it.
    pub fn update(&self, updates: TierUpdates) -> (stats: MergeStats)
        requires
            updates@.observed(),
        ensures
            exists|n: int| #[trigger]
                takes_effect(written(*self), n, updates@) && stats@ == updates@.tally_on(
                    stage(*self, n),
                ),
            stats@.total() == updates@.count(),
    {
        let (_, stats) = self.exchange(updates);
        stats
    }
}

} // verus!
