//! Flip alerts and their deduplication.

use crate::pricing::{PriceSource, PriceTier};
use crate::table::{restricted, StringTable};
use vstd::prelude::*;

verus! {

/// A confirmed flip, ready to be sent. `R` is the type of a return in
/// percent, which is carried along and not looked into.
#[derive(Debug, Clone, PartialEq)]
pub struct FlipAlert<R> {
    pub auction_uuid: String,
    /// Ready-to-paste command, e.g. `/viewauction <uuid>`.
    pub viewauction_command: String,
    pub item_name: String,
    pub buy_price: u64,
    pub estimated_value: u64,
    pub profit: i64,
    pub roi_percent: R,
    /// Which pricing tier the estimate came from.
    pub tier: &'static str,
    /// Where the price came from.
    pub price_source: &'static str,
    /// When the auction ends, in Unix milliseconds. Not part of what is
    /// sent: it tells when the auction can be forgotten.
    pub auction_end: i64,
}

impl<R> FlipAlert<R> {
    /// Builds an alert; the command is derived from the auction's uuid.
    pub fn new(
        auction_uuid: String,
        item_name: String,
        buy_price: u64,
        estimated_value: u64,
        profit: i64,
        roi_percent: R,
        auction_end: i64,
        tier: &'static str,
        price_source: &'static str,
    ) -> (alert: Self)
        ensures
            alert.auction_uuid == auction_uuid,
            alert.viewauction_command@ == "/viewauction "@ + auction_uuid@,
            alert.item_name == item_name,
            alert.buy_price == buy_price,
            alert.estimated_value == estimated_value,
            alert.profit == profit,
            alert.roi_percent == roi_percent,
            alert.auction_end == auction_end,
            alert.tier == tier,
            alert.price_source == price_source,
    {
        let mut viewauction_command = "/viewauction ".to_owned();
        viewauction_command.append(auction_uuid.as_str());
        FlipAlert {
            auction_uuid,
            viewauction_command,
            item_name,
            buy_price,
            estimated_value,
            profit,
            roi_percent,
            tier,
            price_source,
            auction_end,
        }
    }
}

/// The name of a tier in an alert.
pub open spec fn tier_name(tier: PriceTier) -> Seq<char> {
    match tier {
        PriceTier::Exact => "Exact"@,
        PriceTier::MajorModifiers => "Major"@,
        PriceTier::BaseItem => "Base"@,
    }
}

/// The name of a source in an alert.
pub open spec fn source_name(source: PriceSource) -> Seq<char> {
    match source {
        PriceSource::Live => "Live"@,
        PriceSource::Historical => "COFL"@,
    }
}

/// The name of a tier in an alert.
pub fn tier_label(tier: PriceTier) -> (label: &'static str)
    ensures
        label@ == tier_name(tier),
{
    match tier {
        PriceTier::Exact => "Exact",
        PriceTier::MajorModifiers => "Major",
        PriceTier::BaseItem => "Base",
    }
}

/// The name of a source in an alert.
pub fn source_label(source: PriceSource) -> (label: &'static str)
    ensures
        label@ == source_name(source),
{
    match source {
        PriceSource::Live => "Live",
        PriceSource::Historical => "COFL",
    }
}

// ---------------------------------------------------------------------
// The feed of one client
// ---------------------------------------------------------------------

/// Why alerts cannot be sent.
#[derive(Debug)]
pub enum NotifyError {
    /// The listening socket could not be bound.
    Bind { addr: String, source: std::io::Error },
}

/// What happens on a client's connection.
#[derive(Debug, Clone, Copy, PartialEq, Eq, Structural)]
pub enum FeedEvent {
    /// An alert is due.
    Alert,
    /// The client was too slow, and some alerts are gone.
    Lagged,
    /// There will be no more alerts.
    Ended,
    /// The client sent something.
    ClientFrame,
    /// The client said goodbye, vanished, or broke the protocol.
    ClientGone,
}

/// What to do about it.
#[derive(Debug, Clone, Copy, PartialEq, Eq, Structural)]
pub enum FeedAction {
    /// Send the alert, and disconnect if that fails.
    Deliver,
    /// Go on.
    Continue,
    Disconnect,
}

/// Decides what to do about an event. The feed goes one way, so what a
/// client sends is ignored; a slow client misses alerts and stays.
pub fn on_feed_event(event: FeedEvent) -> (action: FeedAction)
    ensures
        action is Deliver <==> event is Alert,
        action is Disconnect <==> event is Ended || event is ClientGone,
{
    match event {
        FeedEvent::Alert => FeedAction::Deliver,
        FeedEvent::Lagged | FeedEvent::ClientFrame => FeedAction::Continue,
        FeedEvent::Ended | FeedEvent::ClientGone => FeedAction::Disconnect,
    }
}

// ---------------------------------------------------------------------
// Deduplication
// ---------------------------------------------------------------------

/// Walks `candidates` in order. Gives the auctions alerted on afterwards,
/// each with its end, and the candidates whose auction was not among them
/// at their turn.
pub open spec fn first_alerts<R>(
    alerted: Map<Seq<char>, i64>,
    candidates: Seq<FlipAlert<R>>,
) -> (Map<Seq<char>, i64>, Seq<FlipAlert<R>>)
    decreases candidates.len(),
{
    if candidates.len() == 0 {
        (alerted, Seq::empty())
    } else {
        let (known, fresh) = first_alerts(alerted, candidates.drop_last());
        let alert = candidates.last();
        if known.contains_key(alert.auction_uuid@) {
            (known, fresh)
        } else {
            (known.insert(alert.auction_uuid@, alert.auction_end), fresh.push(alert))
        }
    }
}

/// The entries whose auction is still running at `tick`.
pub open spec fn running_at(alerted: Map<Seq<char>, i64>, tick: i64) -> Map<Seq<char>, i64> {
    restricted(alerted, |end: i64| end > tick)
}

/// Remembers which auctions have been alerted on, until they end.
pub struct FlipDeduplicator {
    alerted: StringTable<i64>,
}

impl View for FlipDeduplicator {
    type V = Map<Seq<char>, i64>;

    closed spec fn view(&self) -> Map<Seq<char>, i64> {
        self.alerted@
    }
}

impl FlipDeduplicator {
    /// A deduplicator that has let nothing through yet.
    pub fn new() -> (dedup: Self)
        ensures
            dedup@ == Map::<Seq<char>, i64>::empty(),
    {
        FlipDeduplicator { alerted: StringTable::new() }
    }

    /// Number of auctions currently remembered as alerted on.
    pub fn tracked_count(&self) -> (count: usize)
        ensures
            count == self@.len(),
    {
        self.alerted.len()
    }

    /// Gives the candidates whose auction has not been alerted on yet, in
    /// their order, remembers them, and forgets every auction that has ended
    /// by `current_tick`.
    pub fn filter_new<R>(
        &mut self,
        candidates: Vec<FlipAlert<R>>,
        current_tick: i64,
    ) -> (new_flips: Vec<FlipAlert<R>>)
        ensures
            new_flips@ == first_alerts(old(self)@, candidates@).1,
            final(self)@ == running_at(first_alerts(old(self)@, candidates@).0, current_tick),
    {
        let ghost all = candidates@;
        let ghost before = self@;
        let mut new_flips: Vec<FlipAlert<R>> = Vec::new();
        assert(all.take(0) =~= Seq::<FlipAlert<R>>::empty());
        for candidate in iter: candidates
            invariant
                iter.seq() == all,
                self@ == first_alerts(before, all.take(iter.index())).0,
                new_flips@ == first_alerts(before, all.take(iter.index())).1,
        {
            let ghost i = iter.index();
            assert(all.take(i + 1).drop_last() =~= all.take(i));
            if !self.alerted.contains_key(candidate.auction_uuid.as_str()) {
                self.alerted.insert(candidate.auction_uuid.clone(), candidate.auction_end);
                new_flips.push(candidate);
            }
        }
        assert(all.take(all.len() as int) =~= all);
        let running = |end: &i64| -> (yes: bool)
            ensures
                yes == (*end > current_tick),
        {
            let end: i64 = *end;
            end > current_tick
        };
        self.alerted.retain(running, Ghost(|end: i64| end > current_tick));
        new_flips
    }
}

/// What one batch lets through: no auction twice, none that was alerted on
/// before; and every candidate's auction is remembered afterwards.
pub proof fn law_each_auction_alerts_once<R>(
    alerted: Map<Seq<char>, i64>,
    candidates: Seq<FlipAlert<R>>,
)
    ensures
        ({
            let (known, fresh) = first_alerts(alerted, candidates);
            &&& forall|i: int, j: int|
                0 <= i < j < fresh.len() ==> (#[trigger] fresh[i]).auction_uuid@ != (
                #[trigger] fresh[j]).auction_uuid@
            &&& forall|i: int|
                0 <= i < fresh.len() ==> !alerted.contains_key(
                    (#[trigger] fresh[i]).auction_uuid@,
                ) && known.contains_key(fresh[i].auction_uuid@) && candidates.contains(fresh[i])
            &&& forall|i: int|
                0 <= i < candidates.len() ==> known.contains_key(
                    (#[trigger] candidates[i]).auction_uuid@,
                )
            &&& forall|k: Seq<char>|
                alerted.contains_key(k) ==> #[trigger] known.contains_key(k) && known[k]
                    == alerted[k]
        }),
    decreases candidates.len(),
{
    if candidates.len() > 0 {
        let shorter = candidates.drop_last();
        law_each_auction_alerts_once(alerted, shorter);
        let (known, fresh) = first_alerts(alerted, candidates);
        let (known0, fresh0) = first_alerts(alerted, shorter);
        assert forall|i: int| 0 <= i < fresh.len() implies !alerted.contains_key(
            (#[trigger] fresh[i]).auction_uuid@,
        ) && known.contains_key(fresh[i].auction_uuid@) && candidates.contains(fresh[i]) by {
            if i < fresh0.len() {
                assert(fresh[i] == fresh0[i]);
                let j = choose|j: int| 0 <= j < shorter.len() && shorter[j] == fresh0[i];
                assert(candidates[j] == fresh[i]);
            } else {
                assert(candidates[candidates.len() - 1] == fresh[i]);
            }
        }
        assert forall|i: int| 0 <= i < candidates.len() implies known.contains_key(
            (#[trigger] candidates[i]).auction_uuid@,
        ) by {
            if i < shorter.len() {
                assert(shorter[i] == candidates[i]);
            }
        }
        assert forall|i: int, j: int| 0 <= i < j < fresh.len() implies (
        #[trigger] fresh[i]).auction_uuid@ != (#[trigger] fresh[j]).auction_uuid@ by {
            assert(fresh[i] == fresh0[i]);
            if j < fresh0.len() {
                assert(fresh[j] == fresh0[j]);
            }
        }
    }
}

/// A candidate whose auction is remembered is filtered out; so a batch of
/// remembered auctions yields nothing and changes nothing in memory.
pub proof fn law_repeats_are_filtered_out<R>(
    alerted: Map<Seq<char>, i64>,
    candidates: Seq<FlipAlert<R>>,
)
    requires
        forall|i: int|
            0 <= i < candidates.len() ==> alerted.contains_key(
                (#[trigger] candidates[i]).auction_uuid@,
            ),
    ensures
        first_alerts(alerted, candidates) == (alerted, Seq::<FlipAlert<R>>::empty()),
    decreases candidates.len(),
{
    if candidates.len() > 0 {
        assert forall|i: int| 0 <= i < candidates.drop_last().len() implies alerted.contains_key(
            (#[trigger] candidates.drop_last()[i]).auction_uuid@,
        ) by {
            assert(candidates.drop_last()[i] == candidates[i]);
        }
        law_repeats_are_filtered_out(alerted, candidates.drop_last());
    }
}

/// While an auction that was alerted on is running, it is not alerted on
/// again.
pub proof fn law_reported_auctions_stay_silent<R>(
    alerted: Map<Seq<char>, i64>,
    first: Seq<FlipAlert<R>>,
    tick: i64,
    second: Seq<FlipAlert<R>>,
)
    requires
        forall|j: int|
            0 <= j < second.len() ==> ({
                let known = first_alerts(alerted, first).0;
                known.contains_key((#[trigger] second[j]).auction_uuid@)
                    && known[second[j].auction_uuid@] > tick
            }),
    ensures
        first_alerts(running_at(first_alerts(alerted, first).0, tick), second).1 == Seq::<
            FlipAlert<R>,
        >::empty(),
{
    law_repeats_are_filtered_out(running_at(first_alerts(alerted, first).0, tick), second);
}

/// One candidate more: it is let through, behind the others, unless its
/// auction has been alerted on, and then its auction is remembered with its
/// end. Nothing else changes, and no candidates let nothing through.
pub proof fn law_one_candidate_more<R>(
    alerted: Map<Seq<char>, i64>,
    candidates: Seq<FlipAlert<R>>,
    alert: FlipAlert<R>,
)
    ensures
        first_alerts(alerted, Seq::<FlipAlert<R>>::empty()) == (
            alerted,
            Seq::<FlipAlert<R>>::empty(),
        ),
        ({
            let (known, fresh) = first_alerts(alerted, candidates);
            let (known_after, fresh_after) = first_alerts(alerted, candidates.push(alert));
            let uuid = alert.auction_uuid@;
            &&& known.contains_key(uuid) ==> fresh_after == fresh && known_after == known
            &&& !known.contains_key(uuid) ==> {
                &&& fresh_after == fresh.push(alert)
                &&& known_after == known.insert(uuid, alert.auction_end)
            }
        }),
{
    assert(candidates.push(alert).drop_last() =~= candidates);
}

/// Exactly the auctions that have ended by the tick are forgotten.
pub proof fn law_ended_alerts_are_forgotten(
    alerted: Map<Seq<char>, i64>,
    tick: i64,
    uuid: Seq<char>,
)
    ensures
        running_at(alerted, tick).contains_key(uuid) <==> alerted.contains_key(uuid)
            && alerted[uuid] > tick,
        running_at(alerted, tick).contains_key(uuid) ==> running_at(alerted, tick)[uuid]
            == alerted[uuid],
{
}

} // verus!
