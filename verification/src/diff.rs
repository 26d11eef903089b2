//! Auction diff detection: which auctions of a snapshot are new or changed.
//!
//! The detector remembers, per auction, the bid and end time that it last
//! saw. An auction whose end has passed cannot reappear, so its entry is
//! dropped; that bounds the memory by the number of live auctions.

use crate::auction::{AuctionSnapshot, RawAuction};
use crate::table::{restricted, StringTable};
use vstd::prelude::*;

verus! {

/// What the detector remembers of an auction.
#[derive(Debug, Clone, Copy, PartialEq, Eq, Structural)]
pub struct SeenAuction {
    pub starting_bid: u64,
    pub end: i64,
}

/// The part of an auction that decides whether it has changed.
pub open spec fn state_of(auction: RawAuction) -> SeenAuction {
    SeenAuction { starting_bid: auction.starting_bid, end: auction.end }
}

/// Walks `auctions` in order. Gives the remembered states afterwards and the
/// auctions whose state differs from the remembered one at their turn.
pub open spec fn scan(
    seen: Map<Seq<char>, SeenAuction>,
    auctions: Seq<RawAuction>,
) -> (Map<Seq<char>, SeenAuction>, Seq<RawAuction>)
    decreases auctions.len(),
{
    if auctions.len() == 0 {
        (seen, Seq::empty())
    } else {
        let (known, changed) = scan(seen, auctions.drop_last());
        let auction = auctions.last();
        let uuid = auction.uuid@;
        if known.contains_key(uuid) && known[uuid] == state_of(auction) {
            (known, changed)
        } else {
            (known.insert(uuid, state_of(auction)), changed.push(auction))
        }
    }
}

/// The entries whose auction is still running at `tick`.
pub open spec fn live_at(seen: Map<Seq<char>, SeenAuction>, tick: i64) -> Map<
    Seq<char>,
    SeenAuction,
> {
    restricted(seen, |state: SeenAuction| state.end > tick)
}

/// Filters snapshots down to new and changed auctions. One detector serves
/// one stream of snapshots, in order.
pub struct DiffDetector {
    seen: StringTable<SeenAuction>,
}

impl View for DiffDetector {
    type V = Map<Seq<char>, SeenAuction>;

    closed spec fn view(&self) -> Map<Seq<char>, SeenAuction> {
        self.seen@
    }
}

impl DiffDetector {
    /// A detector that has seen nothing.
    pub fn new() -> (detector: Self)
        ensures
            detector@ == Map::<Seq<char>, SeenAuction>::empty(),
    {
        DiffDetector { seen: StringTable::new() }
    }

    /// Number of auctions currently remembered.
    pub fn tracked_count(&self) -> (count: usize)
        ensures
            count == self@.len(),
    {
        self.seen.len()
    }

    /// Gives the auctions of `snapshot` that are new or whose bid or end
    /// differs from what was last seen, in their order, and forgets every
    /// auction that has ended by the snapshot's tick.
    pub fn diff(&mut self, snapshot: AuctionSnapshot) -> (changed: Vec<RawAuction>)
        ensures
            changed@ == scan(old(self)@, snapshot.auctions@).1,
            final(self)@ == live_at(scan(old(self)@, snapshot.auctions@).0, snapshot.last_updated),
    {
        let tick = snapshot.last_updated;
        let ghost auctions = snapshot.auctions@;
        let ghost before = self@;
        let mut changed: Vec<RawAuction> = Vec::new();
        assert(auctions.take(0) =~= Seq::<RawAuction>::empty());
        for auction in iter: snapshot.auctions
            invariant
                iter.seq() == auctions,
                self@ == scan(before, auctions.take(iter.index())).0,
                changed@ == scan(before, auctions.take(iter.index())).1,
        {
            let ghost i = iter.index();
            assert(auctions.take(i + 1).drop_last() =~= auctions.take(i));
            let state = SeenAuction { starting_bid: auction.starting_bid, end: auction.end };
            let is_new_or_changed = match self.seen.get(auction.uuid.as_str()) {
                Some(previous) => *previous != state,
                None => true,
            };
            if is_new_or_changed {
                self.seen.insert(auction.uuid.clone(), state);
                changed.push(auction);
            }
        }
        assert(auctions.take(auctions.len() as int) =~= auctions);
        let running = |state: &SeenAuction| -> (yes: bool)
            ensures
                yes == (state.end > tick),
        {
            let end: i64 = state.end;
            end > tick
        };
        self.seen.retain(running, Ghost(|state: SeenAuction| state.end > tick));
        changed
    }
}

/// `auctions[i]` is the last listing of its auction in `auctions`.
pub open spec fn last_listing(auctions: Seq<RawAuction>, i: int) -> bool {
    &&& 0 <= i < auctions.len()
    &&& forall|j: int|
        i < j < auctions.len() ==> (#[trigger] auctions[j]).uuid@ != auctions[i].uuid@
}

/// After a scan the detector remembers, of every auction in the snapshot,
/// the state of its last listing, and of every other auction what it
/// remembered before.
pub proof fn law_remembers_last_listing(
    seen: Map<Seq<char>, SeenAuction>,
    auctions: Seq<RawAuction>,
)
    ensures
        forall|i: int| #[trigger]
            last_listing(auctions, i) ==> scan(seen, auctions).0.contains_key(auctions[i].uuid@)
                && scan(seen, auctions).0[auctions[i].uuid@] == state_of(auctions[i]),
        forall|k: Seq<char>|
            (forall|i: int| 0 <= i < auctions.len() ==> (#[trigger] auctions[i]).uuid@ != k) ==> (
            #[trigger] scan(seen, auctions).0.contains_key(k) <==> seen.contains_key(k)) && (
            seen.contains_key(k) ==> scan(seen, auctions).0[k] == seen[k]),
    decreases auctions.len(),
{
    if auctions.len() > 0 {
        let shorter = auctions.drop_last();
        law_remembers_last_listing(seen, shorter);
        let n = auctions.len() - 1;
        assert forall|i: int| #[trigger] last_listing(auctions, i) implies scan(
            seen,
            auctions,
        ).0.contains_key(auctions[i].uuid@) && scan(seen, auctions).0[auctions[i].uuid@]
            == state_of(auctions[i]) by {
            if i < n {
                assert(auctions[n].uuid@ != auctions[i].uuid@);
                assert(last_listing(shorter, i)) by {
                    assert forall|j: int| i < j < shorter.len() implies (
                    #[trigger] shorter[j]).uuid@ != shorter[i].uuid@ by {
                        assert(auctions[j].uuid@ != auctions[i].uuid@);
                    }
                }
            }
        }
        assert forall|k: Seq<char>|
            (forall|i: int| 0 <= i < auctions.len() ==> (#[trigger] auctions[i]).uuid@ != k) implies (
        #[trigger] scan(seen, auctions).0.contains_key(k) <==> seen.contains_key(k)) && (
        seen.contains_key(k) ==> scan(seen, auctions).0[k] == seen[k]) by {
            assert(auctions[n].uuid@ != k);
            assert forall|i: int| 0 <= i < shorter.len() implies (#[trigger] shorter[i]).uuid@
                != k by {
                assert(auctions[i].uuid@ != k);
            }
            assert(scan(seen, shorter).0.contains_key(k) <==> seen.contains_key(k));
        }
    }
}

/// Where every auction of a snapshot has its remembered state, nothing is
/// emitted and nothing changes in memory.
pub proof fn law_known_states_are_not_emitted(
    seen: Map<Seq<char>, SeenAuction>,
    auctions: Seq<RawAuction>,
)
    requires
        forall|i: int|
            0 <= i < auctions.len() ==> seen.contains_key((#[trigger] auctions[i]).uuid@)
                && seen[auctions[i].uuid@] == state_of(auctions[i]),
    ensures
        scan(seen, auctions) == (seen, Seq::<RawAuction>::empty()),
    decreases auctions.len(),
{
    if auctions.len() > 0 {
        assert forall|i: int| 0 <= i < auctions.drop_last().len() implies seen.contains_key(
            (#[trigger] auctions.drop_last()[i]).uuid@,
        ) && seen[auctions.drop_last()[i].uuid@] == state_of(auctions.drop_last()[i]) by {
            assert(auctions.drop_last()[i] == auctions[i]);
        }
        law_known_states_are_not_emitted(seen, auctions.drop_last());
    }
}

/// An auction that a snapshot lists again, unchanged and still running, is
/// not emitted a second time.
pub proof fn law_unchanged_auctions_are_filtered_out(
    seen: Map<Seq<char>, SeenAuction>,
    first: Seq<RawAuction>,
    tick: i64,
    second: Seq<RawAuction>,
)
    requires
        forall|j: int|
            0 <= j < second.len() ==> (#[trigger] second[j]).end > tick && exists|i: int|
                #[trigger] last_listing(first, i) && first[i].uuid@ == second[j].uuid@ && state_of(
                    first[i],
                ) == state_of(second[j]),
    ensures
        scan(live_at(scan(seen, first).0, tick), second).1 == Seq::<RawAuction>::empty(),
{
    let known = scan(seen, first).0;
    law_remembers_last_listing(seen, first);
    assert forall|j: int| 0 <= j < second.len() implies live_at(known, tick).contains_key(
        (#[trigger] second[j]).uuid@,
    ) && live_at(known, tick)[second[j].uuid@] == state_of(second[j]) by {
        let i = choose|i: int| #[trigger]
            last_listing(first, i) && first[i].uuid@ == second[j].uuid@ && state_of(first[i])
                == state_of(second[j]);
        assert(known[first[i].uuid@] == state_of(first[i]));
    }
    law_known_states_are_not_emitted(live_at(known, tick), second);
}

/// Of a snapshot that lists no auction twice, exactly those auctions are
/// emitted that were not remembered or were remembered in another state.
pub proof fn law_new_and_changed_auctions_are_emitted(
    seen: Map<Seq<char>, SeenAuction>,
    auctions: Seq<RawAuction>,
)
    requires
        forall|i: int, j: int|
            0 <= i < j < auctions.len() ==> (#[trigger] auctions[i]).uuid@ != (
            #[trigger] auctions[j]).uuid@,
    ensures
        forall|i: int|
            0 <= i < auctions.len() ==> (scan(seen, auctions).1.contains(#[trigger] auctions[i])
                <==> !(seen.contains_key(auctions[i].uuid@) && seen[auctions[i].uuid@] == state_of(
                auctions[i],
            ))),
        forall|k: int|
            0 <= k < scan(seen, auctions).1.len() ==> auctions.contains(
                #[trigger] scan(seen, auctions).1[k],
            ),
    decreases auctions.len(),
{
    if auctions.len() > 0 {
        let fewer = auctions.drop_last();
        let n = auctions.len() - 1;
        let last = auctions[n];
        assert forall|i: int, j: int| 0 <= i < j < fewer.len() implies (
        #[trigger] fewer[i]).uuid@ != (#[trigger] fewer[j]).uuid@ by {
            assert(auctions[i].uuid@ != auctions[j].uuid@);
        }
        law_new_and_changed_auctions_are_emitted(seen, fewer);
        law_remembers_last_listing(seen, fewer);
        let (known, before) = scan(seen, fewer);
        let after = scan(seen, auctions).1;
        assert forall|i: int| 0 <= i < fewer.len() implies (#[trigger] fewer[i]).uuid@
            != last.uuid@ by {
            assert(auctions[i].uuid@ != auctions[n].uuid@);
        }
        assert(known.contains_key(last.uuid@) <==> seen.contains_key(last.uuid@));
        assert forall|k: int| 0 <= k < after.len() implies auctions.contains(
            #[trigger] after[k],
        ) by {
            if k < before.len() {
                assert(after[k] == before[k]);
                let i = choose|i: int| 0 <= i < fewer.len() && fewer[i] == before[k];
                assert(auctions[i] == after[k]);
            } else {
                assert(auctions[n] == after[k]);
            }
        }
        assert forall|i: int| 0 <= i < auctions.len() implies (after.contains(
            #[trigger] auctions[i],
        ) <==> !(seen.contains_key(auctions[i].uuid@) && seen[auctions[i].uuid@] == state_of(
            auctions[i],
        ))) by {
            if i < n {
                assert(fewer[i] == auctions[i]);
                assert(fewer[i].uuid@ != last.uuid@);
                if before.contains(auctions[i]) {
                    let k = choose|k: int| 0 <= k < before.len() && before[k] == auctions[i];
                    assert(after[k] == auctions[i]);
                }
                if after.contains(auctions[i]) {
                    let k = choose|k: int| 0 <= k < after.len() && after[k] == auctions[i];
                    assert(k < before.len());
                    assert(before[k] == auctions[i]);
                }
            } else {
                if after.contains(last) && after.len() == before.len() {
                    let k = choose|k: int| 0 <= k < after.len() && after[k] == last;
                    assert(fewer.contains(before[k]));
                    let j = choose|j: int| 0 <= j < fewer.len() && fewer[j] == before[k];
                    assert(fewer[j].uuid@ != last.uuid@);
                }
                if after.len() > before.len() {
                    assert(after[before.len() as int] == last);
                }
            }
        }
    }
}

/// One auction more in a snapshot: it is emitted, behind the others, unless
/// the same bid and the same end were last seen of it, and in either case
/// its bid and end are what is remembered of it. Of other auctions nothing
/// changes. An empty snapshot emits nothing.
pub proof fn law_one_auction_more(
    seen: Map<Seq<char>, SeenAuction>,
    auctions: Seq<RawAuction>,
    auction: RawAuction,
)
    ensures
        scan(seen, Seq::<RawAuction>::empty()) == (seen, Seq::<RawAuction>::empty()),
        ({
            let (known, emitted) = scan(seen, auctions);
            let (known_after, emitted_after) = scan(seen, auctions.push(auction));
            let uuid = auction.uuid@;
            let same = known.contains_key(uuid) && known[uuid].starting_bid == auction.starting_bid
                && known[uuid].end == auction.end;
            &&& same ==> emitted_after == emitted
            &&& !same ==> emitted_after == emitted.push(auction)
            &&& known_after.contains_key(uuid)
            &&& known_after[uuid].starting_bid == auction.starting_bid
            &&& known_after[uuid].end == auction.end
            &&& forall|other: Seq<char>|
                other != uuid ==> (#[trigger] known_after.contains_key(other)
                    <==> known.contains_key(other)) && (known.contains_key(other)
                    ==> known_after[other] == known[other])
        }),
{
    assert(auctions.push(auction).drop_last() =~= auctions);
}

/// Exactly the auctions that have ended by the tick are forgotten.
pub proof fn law_ended_auctions_are_forgotten(
    seen: Map<Seq<char>, SeenAuction>,
    tick: i64,
    uuid: Seq<char>,
)
    ensures
        live_at(seen, tick).contains_key(uuid) <==> seen.contains_key(uuid) && seen[uuid].end
            > tick,
        live_at(seen, tick).contains_key(uuid) ==> live_at(seen, tick)[uuid] == seen[uuid],
{
}

} // verus!
