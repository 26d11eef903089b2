//! Prices under fingerprints, split into shards.
//!
//! A shard is shared until it is written to, so that a copy of the map
//! costs little and an update copies only the shards that it touches.

use crate::batch::{
    batch_mergeable, counted, folded, law_every_update_is_counted, lemma_mergeable_prefix, met,
    updated, MergeStats, Tally,
};
use crate::fingerprint::Fingerprint;
use crate::pricing::{merge_price_entry, PriceEntry};
use crate::stats::{
    by_count, by_high_confidence, by_samples, lemma_high_is_part, lemma_listed_weight,
    lemma_listed_weight_grows, lemma_weight_by_count, lemma_weight_union, listed_weight, weight,
    CacheStats,
};
use std::collections::HashMap;
use std::sync::Arc;
use vstd::prelude::*;
use vstd::std_specs::hash::spec_keys_iter;
use vstd::std_specs::iter::IteratorSpec;

verus! {

broadcast use vstd::std_specs::hash::group_hash_axioms;

/// Number of shards of a tier under fingerprints.
pub const SHARD_COUNT: usize = 64;

/// The identity hasher for fingerprints, which are well distributed hashes
/// already.
#[derive(Debug)]
pub struct FingerprintHasher(u64);

impl FingerprintHasher {
    /// The value last written.
    pub closed spec fn value(self) -> u64 {
        self.0
    }

    /// A hasher that has been given nothing yet.
    pub fn new() -> (hasher: Self)
        ensures
            hasher.value() == 0,
    {
        FingerprintHasher(0)
    }

    /// Takes a key in place of any before.
    pub fn write_u64(&mut self, key: u64)
        ensures
            final(self).value() == key,
    {
        self.0 = key;
    }

    /// The key itself.
    pub fn finish(&self) -> (hash: u64)
        ensures
            hash == self.value(),
    {
        self.0
    }
}

/// The shard of a key.
pub open spec fn shard_of(key: u64) -> int {
    key as int % SHARD_COUNT as int
}

/// The shard of a fingerprint.
pub fn shard_index(fingerprint: Fingerprint) -> (index: usize)
    ensures
        index == shard_of(fingerprint.0),
        index < SHARD_COUNT,
{
    let mut hasher = FingerprintHasher::new();
    hasher.write_u64(fingerprint.0);
    let key: u64 = hasher.finish();
    assert(key & 63 == key % 64) by (bit_vector);
    (key & 63) as usize
}

/// Updates with the number of their fingerprint as key.
pub open spec fn keyed(updates: Seq<(Fingerprint, PriceEntry)>) -> Seq<(u64, PriceEntry)> {
    Seq::new(updates.len(), |i: int| (updates[i].0.0, updates[i].1))
}

// ---------------------------------------------------------------------
// Shards as maps
// ---------------------------------------------------------------------

/// Every key stands in its own shard.
spec fn placed(parts: Seq<Map<u64, PriceEntry>>) -> bool {
    &&& parts.len() == SHARD_COUNT
    &&& forall|j: int, k: u64|
        0 <= j < parts.len() && #[trigger] parts[j].contains_key(k) ==> shard_of(k) == j
}

/// The prices in all shards together.
spec fn whole(parts: Seq<Map<u64, PriceEntry>>) -> Map<u64, PriceEntry> {
    Map::new(
        |k: u64| parts[shard_of(k)].contains_key(k),
        |k: u64| parts[shard_of(k)][k],
    )
}

/// The updates that fall into shard `j`, in their order.
spec fn chosen(updates: Seq<(u64, PriceEntry)>, j: int) -> Seq<(u64, PriceEntry)>
    decreases updates.len(),
{
    if updates.len() == 0 {
        Seq::empty()
    } else {
        let before = chosen(updates.drop_last(), j);
        if shard_of(updates.last().0) == j {
            before.push(updates.last())
        } else {
            before
        }
    }
}

/// `part` holds what `m` holds under the keys of shard `j`.
spec fn agree(m: Map<u64, PriceEntry>, part: Map<u64, PriceEntry>, j: int) -> bool {
    forall|k: u64| #[trigger]
        part.contains_key(k) <==> shard_of(k) == j && m.contains_key(k) && m[k] == part[k]
}

/// What `part` does not hold under a key of shard `j`, `m` does not hold.
spec fn covers(m: Map<u64, PriceEntry>, part: Map<u64, PriceEntry>, j: int) -> bool {
    forall|k: u64| shard_of(k) == j && #[trigger] m.contains_key(k) ==> part.contains_key(k)
}

/// A shard changes by its own updates as the whole changes by all of them.
proof fn lemma_shard_of_batch(
    m: Map<u64, PriceEntry>,
    part: Map<u64, PriceEntry>,
    updates: Seq<(u64, PriceEntry)>,
    j: int,
)
    requires
        agree(m, part, j),
        covers(m, part, j),
    ensures
        agree(folded(m, updates).0, folded(part, chosen(updates, j)).0, j),
        covers(folded(m, updates).0, folded(part, chosen(updates, j)).0, j),
        batch_mergeable(m, updates) ==> batch_mergeable(part, chosen(updates, j)),
    decreases updates.len(),
{
    if updates.len() > 0 {
        let shorter = updates.drop_last();
        let update = updates.last();
        lemma_shard_of_batch(m, part, shorter, j);
        let m1 = folded(m, shorter).0;
        let p1 = folded(part, chosen(shorter, j)).0;
        if shard_of(update.0) == j {
            assert(chosen(updates, j).drop_last() =~= chosen(shorter, j));
            assert(p1.contains_key(update.0) <==> m1.contains_key(update.0));
            assert(met(m1, update) == met(p1, update));
            let m2 = updated(m1, update);
            let p2 = updated(p1, update);
            assert forall|k: u64| #[trigger] p2.contains_key(k) <==> shard_of(k) == j
                && m2.contains_key(k) && m2[k] == p2[k] by {
                assert(p1.contains_key(k) <==> shard_of(k) == j && m1.contains_key(k) && m1[k]
                    == p1[k]);
            }
            assert forall|k: u64| shard_of(k) == j && #[trigger] m2.contains_key(
                k,
            ) implies p2.contains_key(k) by {
                assert(m1.contains_key(k) || k == update.0);
            }
        } else {
            let m2 = updated(m1, update);
            assert forall|k: u64| #[trigger] p1.contains_key(k) <==> shard_of(k) == j
                && m2.contains_key(k) && m2[k] == p1[k] by {
                assert(p1.contains_key(k) <==> shard_of(k) == j && m1.contains_key(k) && m1[k]
                    == p1[k]);
            }
            assert forall|k: u64| shard_of(k) == j && #[trigger] m2.contains_key(
                k,
            ) implies p1.contains_key(k) by {
                assert(m1.contains_key(k));
            }
        }
    }
}

/// What the updates do in the first `n` shards.
spec fn shard_tally(
    parts: Seq<Map<u64, PriceEntry>>,
    updates: Seq<(u64, PriceEntry)>,
    n: int,
) -> Tally
    decreases n,
{
    if n <= 0 {
        Tally::zero()
    } else {
        shard_tally(parts, updates, n - 1).plus(
            folded(parts[n - 1], chosen(updates, n - 1)).1,
        )
    }
}

/// One more update is counted in its own shard and in no other.
proof fn lemma_tally_step(
    parts: Seq<Map<u64, PriceEntry>>,
    updates: Seq<(u64, PriceEntry)>,
    n: int,
)
    requires
        updates.len() > 0,
        0 <= n <= parts.len(),
    ensures
        ({
            let s = shard_of(updates.last().0);
            let before = folded(parts[s], chosen(updates.drop_last(), s)).0;
            shard_tally(parts, updates, n) == if s < n {
                shard_tally(parts, updates.drop_last(), n).plus(
                    counted(met(before, updates.last()).1),
                )
            } else {
                shard_tally(parts, updates.drop_last(), n)
            }
        }),
    decreases n,
{
    let s = shard_of(updates.last().0);
    if n > 0 {
        lemma_tally_step(parts, updates, n - 1);
        if s == n - 1 {
            assert(chosen(updates, s).drop_last() =~= chosen(updates.drop_last(), s));
        }
    }
}

/// The shards' counts add up to the count of the batch.
proof fn lemma_tally(parts: Seq<Map<u64, PriceEntry>>, updates: Seq<(u64, PriceEntry)>)
    requires
        placed(parts),
    ensures
        folded(whole(parts), updates).1 == shard_tally(parts, updates, SHARD_COUNT as int),
    decreases updates.len(),
{
    if updates.len() > 0 {
        let shorter = updates.drop_last();
        let update = updates.last();
        let s = shard_of(update.0);
        lemma_tally(parts, shorter);
        lemma_tally_step(parts, updates, SHARD_COUNT as int);
        lemma_parts_agree(parts, s);
        lemma_shard_of_batch(whole(parts), parts[s], shorter, s);
        let m1 = folded(whole(parts), shorter).0;
        let p1 = folded(parts[s], chosen(shorter, s)).0;
        assert(p1.contains_key(update.0) <==> m1.contains_key(update.0));
        assert(met(m1, update) == met(p1, update));
    } else {
        lemma_empty_tally(parts, updates, SHARD_COUNT as int);
    }
}

proof fn lemma_empty_tally(
    parts: Seq<Map<u64, PriceEntry>>,
    updates: Seq<(u64, PriceEntry)>,
    n: int,
)
    requires
        updates.len() == 0,
        0 <= n,
    ensures
        shard_tally(parts, updates, n) == Tally::zero(),
    decreases n,
{
    if n > 0 {
        lemma_empty_tally(parts, updates, n - 1);
    }
}

/// The count over some shards is part of the count over more of them.
proof fn lemma_tally_grows(
    parts: Seq<Map<u64, PriceEntry>>,
    updates: Seq<(u64, PriceEntry)>,
    n: int,
    all: int,
)
    requires
        0 <= n <= all,
    ensures
        shard_tally(parts, updates, n).live_merged <= shard_tally(parts, updates, all).live_merged,
        shard_tally(parts, updates, n).overwritten <= shard_tally(parts, updates, all).overwritten,
        shard_tally(parts, updates, n).inserted_new <= shard_tally(
            parts,
            updates,
            all,
        ).inserted_new,
    decreases all - n,
{
    if n < all {
        lemma_tally_grows(parts, updates, n, all - 1);
    }
}

/// Each shard holds what the whole holds under its keys.
proof fn lemma_parts_agree(parts: Seq<Map<u64, PriceEntry>>, j: int)
    requires
        placed(parts),
        0 <= j < SHARD_COUNT,
    ensures
        agree(whole(parts), parts[j], j),
        covers(whole(parts), parts[j], j),
{
}

/// Shards that hold what `m` holds under their keys are `m` together.
proof fn lemma_whole(parts: Seq<Map<u64, PriceEntry>>, m: Map<u64, PriceEntry>)
    requires
        parts.len() == SHARD_COUNT,
        forall|j: int|
            0 <= j < SHARD_COUNT ==> agree(m, #[trigger] parts[j], j) && covers(m, parts[j], j),
    ensures
        placed(parts),
        whole(parts) == m,
{
    assert forall|k: u64| whole(parts).contains_key(k) <==> m.contains_key(k) by {
        let j = shard_of(k);
        assert(agree(m, parts[j], j) && covers(m, parts[j], j));
        assert(parts[j].contains_key(k) <==> m.contains_key(k));
    }
    assert forall|k: u64| whole(parts).contains_key(k) implies whole(parts)[k] == m[k] by {
        let j = shard_of(k);
        assert(agree(m, parts[j], j));
        assert(parts[j].contains_key(k));
    }
    assert(whole(parts) =~= m);
    assert forall|j: int, k: u64|
        0 <= j < parts.len() && #[trigger] parts[j].contains_key(k) implies shard_of(k) == j by {
        assert(agree(m, parts[j], j));
    }
}

// ---------------------------------------------------------------------
// Updating one map
// ---------------------------------------------------------------------

/// Applies updates to one map.
fn merge_into(map: &mut HashMap<u64, PriceEntry>, updates: &Vec<(u64, PriceEntry)>) -> (stats:
    MergeStats)
    requires
        batch_mergeable(old(map)@, updates@),
    ensures
        final(map)@ == folded(old(map)@, updates@).0,
        stats@ == folded(old(map)@, updates@).1,
{
    let ghost start = map@;
    let ghost all = updates@;
    let mut stats = MergeStats::default();
    let n: usize = updates.len();
    for i in 0..n
        invariant
            n == updates@.len(),
            all == updates@,
            batch_mergeable(start, all),
            map@ == folded(start, all.take(i as int)).0,
            stats@ == folded(start, all.take(i as int)).1,
    {
        let (key, entry) = updates[i];
        proof {
            assert(all.take(i + 1).drop_last() =~= all.take(i as int));
            lemma_mergeable_prefix(start, all, i + 1);
            law_every_update_is_counted(start, all.take(i as int));
        }
        let existing: Option<PriceEntry> = match map.get(&key) {
            Some(existing) => Some(*existing),
            None => None,
        };
        match existing {
            Some(existing) => {
                let (entry, outcome) = merge_price_entry(existing, entry);
                map.insert(key, entry);
                stats.count(Some(outcome));
            },
            None => {
                map.insert(key, entry);
                stats.count(None);
            },
        }
    }
    assert(all.take(n as int) =~= all);
    stats
}

// ---------------------------------------------------------------------
// A tier under fingerprints
// ---------------------------------------------------------------------

/// Calls `Arc::clone`, which gives another handle to the same value.
#[verifier::external_body]
pub(crate) fn share<T>(value: &Arc<T>) -> (handle: Arc<T>)
    ensures
        *handle == **value,
{
    Arc::clone(value)
}

/// The prices of one tier, split into shards by fingerprint.
pub struct FingerprintShardedMap {
    shards: Vec<Arc<HashMap<u64, PriceEntry>>>,
}

impl View for FingerprintShardedMap {
    type V = Map<u64, PriceEntry>;

    closed spec fn view(&self) -> Map<u64, PriceEntry> {
        whole(self.parts())
    }
}

impl FingerprintShardedMap {
    spec fn parts(self) -> Seq<Map<u64, PriceEntry>> {
        Seq::new(self.shards@.len(), |j: int| (*self.shards@[j])@)
    }

    #[verifier::type_invariant]
    spec fn keys_are_placed(self) -> bool {
        placed(self.parts())
    }

    /// A tier without prices.
    pub fn new() -> (tier: Self)
        ensures
            tier@ == Map::<u64, PriceEntry>::empty(),
    {
        let mut shards: Vec<Arc<HashMap<u64, PriceEntry>>> = Vec::new();
        let mut j: usize = 0;
        while j < SHARD_COUNT
            invariant
                j <= SHARD_COUNT,
                shards@.len() == j,
                forall|i: int|
                    0 <= i < j ==> (*(#[trigger] shards@[i]))@ == Map::<u64, PriceEntry>::empty(),
            decreases SHARD_COUNT - j,
        {
            shards.push(Arc::new(HashMap::new()));
            j += 1;
        }
        let tier = FingerprintShardedMap { shards };
        assert(tier@ =~= Map::<u64, PriceEntry>::empty());
        tier
    }

    /// Another handle to every shard.
    pub fn duplicate(&self) -> (copy: Self)
        ensures
            copy@ == self@,
    {
        proof {
            use_type_invariant(self);
        }
        let mut shards: Vec<Arc<HashMap<u64, PriceEntry>>> = Vec::new();
        let n: usize = self.shards.len();
        for j in 0..n
            invariant
                n == self.shards@.len(),
                shards@.len() == j,
                forall|i: int| 0 <= i < j ==> *(#[trigger] shards@[i]) == *self.shards@[i],
        {
            shards.push(share(&self.shards[j]));
        }
        let ghost copied = FingerprintShardedMap { shards };
        assert(copied.parts() =~= self.parts());
        FingerprintShardedMap { shards }
    }

    /// The price under a fingerprint.
    pub fn get(&self, fingerprint: Fingerprint) -> (entry: Option<PriceEntry>)
        ensures
            entry == self@.get(fingerprint.0),
    {
        proof {
            use_type_invariant(self);
        }
        let j: usize = shard_index(fingerprint);
        assert(self.parts()[j as int] == (*self.shards@[j as int])@);
        match self.shards[j].get(&fingerprint.0) {
            Some(entry) => Some(*entry),
            None => None,
        }
    }

    /// Applies a batch of updates, shard by shard.
    pub fn update_batch(&mut self, updates: Vec<(Fingerprint, PriceEntry)>) -> (stats: MergeStats)
        requires
            batch_mergeable(old(self)@, keyed(updates@)),
        ensures
            final(self)@ == folded(old(self)@, keyed(updates@)).0,
            stats@ == folded(old(self)@, keyed(updates@)).1,
    {
        proof {
            use_type_invariant(&*self);
        }
        let ghost parts = self.parts();
        let ghost m = whole(parts);
        let ghost all = keyed(updates@);
        let by_shard = group_by_shard(&updates);
        let mut shards: Vec<Arc<HashMap<u64, PriceEntry>>> = Vec::new();
        let mut stats = MergeStats::default();
        let ghost result = folded(m, all).0;
        for j in 0..SHARD_COUNT
            invariant
                self.parts() == parts,
                self.shards@.len() == SHARD_COUNT,
                placed(parts),
                m == whole(parts),
                batch_mergeable(m, all),
                result == folded(m, all).0,
                by_shard@.len() == SHARD_COUNT,
                forall|i: int| 0 <= i < SHARD_COUNT ==> (#[trigger] by_shard@[i])@ == chosen(all, i),
                all.len() <= usize::MAX,
                shards@.len() == j,
                forall|i: int|
                    0 <= i < j ==> agree(result, (*(#[trigger] shards@[i]))@, i) && covers(
                        result,
                        (*shards@[i])@,
                        i,
                    ),
                stats@ == shard_tally(parts, all, j as int),
        {
            proof {
                lemma_parts_agree(parts, j as int);
                lemma_shard_of_batch(m, parts[j as int], all, j as int);
                lemma_tally(parts, all);
                lemma_tally_grows(parts, all, j + 1, SHARD_COUNT as int);
                law_every_update_is_counted(m, all);
                assert(parts[j as int] == (*self.shards@[j as int])@);
                assert(by_shard@[j as int]@ == chosen(all, j as int));
            }
            if by_shard[j].len() == 0 {
                shards.push(share(&self.shards[j]));
            } else {
                let mut next = (*self.shards[j]).clone();
                let done = merge_into(&mut next, &by_shard[j]);
                stats.add(done);
                shards.push(Arc::new(next));
            }
        }
        let ghost written = FingerprintShardedMap { shards };
        proof {
            assert forall|j: int| 0 <= j < SHARD_COUNT implies agree(
                result,
                #[trigger] written.parts()[j],
                j,
            ) && covers(result, written.parts()[j], j) by {
                assert(written.parts()[j] == (*shards@[j])@);
            }
            lemma_whole(written.parts(), result);
            lemma_tally(parts, all);
        }
        *self = FingerprintShardedMap { shards };
        stats
    }
}

/// What the entries of the first `n` shards weigh.
spec fn shard_weight(
    parts: Seq<Map<u64, PriceEntry>>,
    f: spec_fn(PriceEntry) -> nat,
    n: int,
) -> nat
    decreases n,
{
    if n <= 0 {
        0
    } else {
        shard_weight(parts, f, n - 1) + weight(parts[n - 1], f)
    }
}

/// The prices in the first `n` shards.
spec fn first_shards(parts: Seq<Map<u64, PriceEntry>>, n: int) -> Map<u64, PriceEntry> {
    Map::new(
        |k: u64| shard_of(k) < n && parts[shard_of(k)].contains_key(k),
        |k: u64| parts[shard_of(k)][k],
    )
}

/// The shards' weights add up.
proof fn lemma_shard_weight(
    parts: Seq<Map<u64, PriceEntry>>,
    f: spec_fn(PriceEntry) -> nat,
    n: int,
)
    requires
        placed(parts),
        forall|j: int| 0 <= j < parts.len() ==> (#[trigger] parts[j]).dom().finite(),
        0 <= n <= parts.len(),
    ensures
        first_shards(parts, n).dom().finite(),
        shard_weight(parts, f, n) == weight(first_shards(parts, n), f),
    decreases n,
{
    if n == 0 {
        assert(first_shards(parts, n).dom() =~= Set::<u64>::empty());
    } else {
        lemma_shard_weight(parts, f, n - 1);
        let before = first_shards(parts, n - 1);
        lemma_weight_union(before, parts[n - 1], f);
        assert(first_shards(parts, n) =~= before.union_prefer_right(parts[n - 1]));
    }
}

/// The weight of all shards is the weight of the whole.
proof fn lemma_whole_weight(parts: Seq<Map<u64, PriceEntry>>, f: spec_fn(PriceEntry) -> nat)
    requires
        placed(parts),
        forall|j: int| 0 <= j < parts.len() ==> (#[trigger] parts[j]).dom().finite(),
    ensures
        whole(parts).dom().finite(),
        shard_weight(parts, f, SHARD_COUNT as int) == weight(whole(parts), f),
{
    lemma_shard_weight(parts, f, SHARD_COUNT as int);
    assert(first_shards(parts, SHARD_COUNT as int) =~= whole(parts));
}

/// Fewer shards weigh no more.
proof fn lemma_shard_weight_grows(
    parts: Seq<Map<u64, PriceEntry>>,
    f: spec_fn(PriceEntry) -> nat,
    n: int,
    all: int,
)
    requires
        0 <= n <= all,
    ensures
        shard_weight(parts, f, n) <= shard_weight(parts, f, all),
    decreases all - n,
{
    if n < all {
        lemma_shard_weight_grows(parts, f, n, all - 1);
    }
}

// ---------------------------------------------------------------------
// Size and statistics
// ---------------------------------------------------------------------

/// Counts the entries of one map.
fn count_entries(map: &HashMap<u64, PriceEntry>, stats: &mut CacheStats)
    requires
        old(stats).total_entries + map@.len() <= usize::MAX,
        old(stats).total_sample_size + weight(map@, by_samples()) <= u64::MAX,
        old(stats).high_confidence_entries <= old(stats).total_entries,
    ensures
        final(stats).adds(
            *old(stats),
            map@.len(),
            weight(map@, by_samples()),
            weight(map@, by_high_confidence()),
        ),
        map@.dom().finite(),
{
    let ghost before = *stats;
    let ghost keys = spec_keys_iter(map).remaining().unref();
    proof {
        let refs = spec_keys_iter(map).remaining();
        assert(keys.no_duplicates()) by {
            assert forall|i: int, j: int| 0 <= i < keys.len() && 0 <= j < keys.len() && i
                != j implies keys[i] != keys[j] by {
                assert(refs[i] != refs[j]);
            }
        }
        lemma_listed_weight(map@, keys, by_count());
        lemma_listed_weight(map@, keys, by_samples());
        lemma_listed_weight(map@, keys, by_high_confidence());
        lemma_weight_by_count(map@);
    }
    for key in iter: map.keys()
        invariant
            keys == iter.seq().unref(),
            keys.to_set() == map@.dom(),
            keys.no_duplicates(),
            before.total_entries + map@.len() <= usize::MAX,
            before.total_sample_size + weight(map@, by_samples()) <= u64::MAX,
            stats.high_confidence_entries <= stats.total_entries,
            map@.len() == weight(map@, by_count()),
            listed_weight(map@, keys, by_count(), keys.len() as int) == weight(map@, by_count()),
            listed_weight(map@, keys, by_samples(), keys.len() as int) == weight(
                map@,
                by_samples(),
            ),
            listed_weight(map@, keys, by_high_confidence(), keys.len() as int) == weight(
                map@,
                by_high_confidence(),
            ),
            stats.adds(
                before,
                listed_weight(map@, keys, by_count(), iter.index()),
                listed_weight(map@, keys, by_samples(), iter.index()),
                listed_weight(map@, keys, by_high_confidence(), iter.index()),
            ),
    {
        let ghost i = iter.index();
        proof {
            assert(keys[i] == *key);
            assert(keys.to_set().contains(keys[i]));
            lemma_listed_weight_grows(map@, keys, by_count(), i + 1, keys.len() as int);
            lemma_listed_weight_grows(map@, keys, by_samples(), i + 1, keys.len() as int);
        }
        if let Some(entry) = map.get(key) {
            stats.count(entry);
        }
    }
}

impl FingerprintShardedMap {
    /// Number of prices.
    pub fn len(&self) -> (n: usize)
        requires
            self@.len() <= usize::MAX,
        ensures
            n == self@.len(),
            self@.dom().finite(),
    {
        let ghost parts = self.parts();
        proof {
            use_type_invariant(self);
            self.lemma_finite();
            lemma_whole_weight(parts, by_count());
            lemma_weight_by_count(self@);
        }
        let mut total: usize = 0;
        for j in 0..SHARD_COUNT
            invariant
                parts == self.parts(),
                placed(parts),
                forall|i: int| 0 <= i < parts.len() ==> (#[trigger] parts[i]).dom().finite(),
                shard_weight(parts, by_count(), SHARD_COUNT as int) <= usize::MAX,
                total == shard_weight(parts, by_count(), j as int),
        {
            proof {
                assert(parts[j as int] == (*self.shards@[j as int])@);
                lemma_weight_by_count(parts[j as int]);
                lemma_shard_weight_grows(parts, by_count(), j + 1, SHARD_COUNT as int);
            }
            total += self.shards[j].len();
        }
        total
    }

    /// Whether there is no price.
    pub fn is_empty(&self) -> (yes: bool)
        ensures
            yes == (self@ == Map::<u64, PriceEntry>::empty()),
    {
        let ghost parts = self.parts();
        proof {
            use_type_invariant(self);
        }
        for j in 0..SHARD_COUNT
            invariant
                parts == self.parts(),
                placed(parts),
                forall|i: int, k: u64| 0 <= i < j ==> !(#[trigger] parts[i].contains_key(k)),
        {
            assert(parts[j as int] == (*self.shards@[j as int])@);
            if !self.shards[j].is_empty() {
                proof {
                    let k = parts[j as int].dom().choose();
                    assert(parts[j as int].contains_key(k));
                    assert(self@.contains_key(k));
                }
                return false;
            }
        }
        assert(self@ =~= Map::<u64, PriceEntry>::empty());
        true
    }

    /// Counts every price.
    pub fn fold_stats(&self, stats: &mut CacheStats)
        requires
            old(stats).total_entries + self@.len() <= usize::MAX,
            old(stats).total_sample_size + weight(self@, by_samples()) <= u64::MAX,
            old(stats).high_confidence_entries <= old(stats).total_entries,
        ensures
            final(stats).adds(
                *old(stats),
                self@.len(),
                weight(self@, by_samples()),
                weight(self@, by_high_confidence()),
            ),
            self@.dom().finite(),
    {
        let ghost before = *stats;
        let ghost parts = self.parts();
        proof {
            use_type_invariant(self);
            self.lemma_finite();
            lemma_whole_weight(parts, by_count());
            lemma_whole_weight(parts, by_samples());
            lemma_whole_weight(parts, by_high_confidence());
            lemma_weight_by_count(self@);
        }
        for j in 0..SHARD_COUNT
            invariant
                parts == self.parts(),
                placed(parts),
                forall|i: int| 0 <= i < parts.len() ==> (#[trigger] parts[i]).dom().finite(),
                before.total_entries + shard_weight(parts, by_count(), SHARD_COUNT as int)
                    <= usize::MAX,
                before.total_sample_size + shard_weight(parts, by_samples(), SHARD_COUNT as int)
                    <= u64::MAX,
                stats.high_confidence_entries <= stats.total_entries,
                stats.adds(
                    before,
                    shard_weight(parts, by_count(), j as int),
                    shard_weight(parts, by_samples(), j as int),
                    shard_weight(parts, by_high_confidence(), j as int),
                ),
        {
            proof {
                assert(parts[j as int] == (*self.shards@[j as int])@);
                lemma_weight_by_count(parts[j as int]);
                lemma_high_is_part(parts[j as int]);
                lemma_shard_weight_grows(parts, by_count(), j + 1, SHARD_COUNT as int);
                lemma_shard_weight_grows(parts, by_samples(), j + 1, SHARD_COUNT as int);
            }
            count_entries(&self.shards[j], stats);
        }
    }

    proof fn lemma_finite(self)
        requires
            self.keys_are_placed(),
        ensures
            forall|j: int| 0 <= j < self.parts().len() ==> (#[trigger] self.parts()[j]).dom().finite(),
    {
        assert forall|j: int| 0 <= j < self.parts().len() implies (
        #[trigger] self.parts()[j]).dom().finite() by {
            let map = *self.shards@[j];
            let keys = spec_keys_iter(&map).remaining().unref();
            vstd::seq_lib::seq_to_set_is_finite(keys);
        }
    }
}

/// Splits updates by the shard that they fall into, keeping their order.
fn group_by_shard(updates: &Vec<(Fingerprint, PriceEntry)>) -> (groups: Vec<Vec<(u64, PriceEntry)>>)
    ensures
        groups@.len() == SHARD_COUNT,
        forall|j: int|
            0 <= j < SHARD_COUNT ==> (#[trigger] groups@[j])@ == chosen(keyed(updates@), j),
{
    let ghost all = keyed(updates@);
    let mut groups: Vec<Vec<(u64, PriceEntry)>> = Vec::new();
    let mut j: usize = 0;
    while j < SHARD_COUNT
        invariant
            j <= SHARD_COUNT,
            groups@.len() == j,
            forall|i: int|
                0 <= i < j ==> (#[trigger] groups@[i])@ == Seq::<(u64, PriceEntry)>::empty(),
        decreases SHARD_COUNT - j,
    {
        groups.push(Vec::new());
        j += 1;
    }
    let n: usize = updates.len();
    assert(all.take(0) =~= Seq::<(u64, PriceEntry)>::empty());
    for i in 0..n
        invariant
            n == updates@.len(),
            all == keyed(updates@),
            groups@.len() == SHARD_COUNT,
            forall|j: int|
                0 <= j < SHARD_COUNT ==> (#[trigger] groups@[j])@ == chosen(all.take(i as int), j),
    {
        let (fingerprint, entry) = updates[i];
        let s: usize = shard_index(fingerprint);
        let ghost before = groups@;
        assert(all.take(i + 1).drop_last() =~= all.take(i as int));
        assert(before[s as int]@ == chosen(all.take(i as int), s as int));
        groups[s].push((fingerprint.0, entry));
        assert forall|j: int| 0 <= j < SHARD_COUNT implies (#[trigger] groups@[j])@ == chosen(
            all.take(i + 1),
            j,
        ) by {
            assert(before[j]@ == chosen(all.take(i as int), j));
        }
    }
    assert(all.take(n as int) =~= all);
    groups
}

} // verus!
