//! Price entries, how far they can be trusted, and how a new observation
//! joins what is already known.
//!
//! The policy for two entries under one key:
//!
//! - both live: a running average, weighted by sample size, with the new
//!   value held within a bounded step of the old one;
//! - both historical: the new one replaces the old one, since each is an
//!   aggregate of its own;
//! - one of each: the new one replaces the old one, since a live asking
//!   price and a median of past sales answer different questions.

use vstd::prelude::*;

verus! {

/// Ceiling on the sample size that live observations add up to. It bounds
/// the weight of old data, so that an entry keeps answering to new prices.
pub const MAX_ACCUMULATED_SAMPLE_SIZE: u32 = 200;

/// How far one observation may lie from the current estimate, as a multiple
/// of it. Beyond that it counts as if it lay at the boundary.
pub const OUTLIER_DAMPING_FACTOR: u64 = 5;

/// Where a price came from.
#[derive(Debug, Clone, Copy, PartialEq, Eq, Structural)]
pub enum PriceSource {
    /// An auction seen on a recent tick.
    Live,
    /// Past sales.
    Historical,
}

/// How far a price can be trusted, by the number of observations behind it.
#[derive(Debug, Clone, Copy, PartialEq, Eq, PartialOrd, Ord, Structural)]
pub enum Confidence {
    Low,
    Medium,
    High,
}

impl Confidence {
    /// The confidence that a sample size earns.
    pub open spec fn of(sample_size: u32) -> Confidence {
        if sample_size >= 50 {
            Confidence::High
        } else if sample_size >= 10 {
            Confidence::Medium
        } else {
            Confidence::Low
        }
    }

    /// Position in the order low, medium, high.
    pub open spec fn rank(self) -> int {
        match self {
            Confidence::Low => 0,
            Confidence::Medium => 1,
            Confidence::High => 2,
        }
    }

    /// The confidence that a sample size earns: high from fifty
    /// observations on, medium from ten on.
    pub fn from_sample_size(sample_size: u32) -> (confidence: Self)
        ensures
            confidence == Confidence::of(sample_size),
    {
        if sample_size >= 50 {
            Confidence::High
        } else if sample_size >= 10 {
            Confidence::Medium
        } else {
            Confidence::Low
        }
    }

    /// Whether `self` is less than `other`.
    pub fn is_below(self, other: Confidence) -> (yes: bool)
        ensures
            yes == (self.rank() < other.rank()),
    {
        match (self, other) {
            (Confidence::Low, Confidence::Low) => false,
            (Confidence::Low, _) => true,
            (Confidence::Medium, Confidence::High) => true,
            _ => false,
        }
    }
}

/// An estimated price and what it rests on.
#[derive(Debug, Clone, Copy, PartialEq, Eq, Structural)]
pub struct PriceEntry {
    /// Estimated value of one unit, in coins.
    pub estimated_value: u64,
    /// How many observations the estimate is derived from.
    pub sample_size: u32,
    /// The tick of the latest observation, in Unix milliseconds.
    pub updated_at_tick: i64,
    pub source: PriceSource,
}

impl PriceEntry {
    /// How far the entry can be trusted.
    pub fn confidence(&self) -> (confidence: Confidence)
        ensures
            confidence == Confidence::of(self.sample_size),
    {
        Confidence::from_sample_size(self.sample_size)
    }
}

/// How closely a price matched the item it was asked for.
#[derive(Debug, Clone, Copy, PartialEq, Eq, Structural)]
pub enum PriceTier {
    /// Every modifier matched.
    Exact,
    /// The item and its weightiest modifiers matched.
    MajorModifiers,
    /// Only the item matched.
    BaseItem,
}

/// A price and the tier it was found at.
#[derive(Debug, Clone, Copy, PartialEq, Eq, Structural)]
pub struct PriceLookup {
    pub entry: PriceEntry,
    pub tier: PriceTier,
}

// ---------------------------------------------------------------------
// Merging two entries
// ---------------------------------------------------------------------

/// What became of an entry that was already there.
#[derive(Debug, Clone, Copy, PartialEq, Eq, Structural)]
pub enum MergeOutcome {
    /// The two live entries were averaged.
    LiveMerged,
    /// The new entry replaced the old one.
    Overwritten,
}

/// `incoming`, held between a fifth and five times a nonzero `anchor`.
pub open spec fn dampened(anchor: u64, incoming: u64) -> u64 {
    let lower = if anchor < OUTLIER_DAMPING_FACTOR {
        1
    } else {
        anchor / OUTLIER_DAMPING_FACTOR
    };
    let upper = anchor * OUTLIER_DAMPING_FACTOR;
    if anchor == 0 {
        incoming
    } else if incoming < lower {
        lower
    } else if incoming > upper {
        upper as u64
    } else {
        incoming
    }
}

/// Holds `incoming` within [`OUTLIER_DAMPING_FACTOR`] of `anchor`, the
/// current estimate. Without an estimate there is nothing to hold it to.
pub fn dampen_outlier(anchor: u64, incoming: u64) -> (value: u64)
    ensures
        value == dampened(anchor, incoming),
{
    if anchor == 0 {
        return incoming;
    }
    let fifth: u64 = anchor / OUTLIER_DAMPING_FACTOR;
    let lower: u64 = if fifth < 1 {
        1
    } else {
        fifth
    };
    let upper: u64 = match anchor.checked_mul(OUTLIER_DAMPING_FACTOR) {
        Some(upper) => upper,
        None => u64::MAX,
    };
    if incoming < lower {
        lower
    } else if incoming > upper {
        upper
    } else {
        incoming
    }
}

/// A sample size, held to the ceiling.
pub open spec fn capped(n: int) -> int {
    if n < MAX_ACCUMULATED_SAMPLE_SIZE {
        n
    } else {
        MAX_ACCUMULATED_SAMPLE_SIZE as int
    }
}

/// Two entries can be merged: they are not both live and both without any
/// observation, which leaves no weight to average by.
pub open spec fn mergeable(existing: PriceEntry, incoming: PriceEntry) -> bool {
    existing.source is Live && incoming.source is Live ==> existing.sample_size
        + incoming.sample_size > 0
}

/// The average of `existing` and the dampened `incoming`, by their weights.
pub open spec fn weighted_average(existing: PriceEntry, incoming: PriceEntry) -> int {
    let value = dampened(existing.estimated_value, incoming.estimated_value);
    let weight = capped(existing.sample_size as int);
    (existing.estimated_value * weight + value * incoming.sample_size) / (weight
        + incoming.sample_size)
}

/// What becomes of an entry when another one comes under its key.
pub open spec fn merged(existing: PriceEntry, incoming: PriceEntry) -> (PriceEntry, MergeOutcome) {
    if existing.source is Live && incoming.source is Live {
        (
            PriceEntry {
                estimated_value: weighted_average(existing, incoming) as u64,
                sample_size: capped(existing.sample_size + incoming.sample_size) as u32,
                updated_at_tick: if existing.updated_at_tick >= incoming.updated_at_tick {
                    existing.updated_at_tick
                } else {
                    incoming.updated_at_tick
                },
                source: PriceSource::Live,
            },
            MergeOutcome::LiveMerged,
        )
    } else {
        (incoming, MergeOutcome::Overwritten)
    }
}

/// A weighted average lies between what it averages.
proof fn lemma_average_between(a: int, u: int, b: int, v: int, low: int, high: int)
    requires
        0 <= u,
        0 <= v,
        u + v > 0,
        low <= a <= high,
        low <= b <= high,
    ensures
        low <= (a * u + b * v) / (u + v) <= high,
{
    let total = u + v;
    let sum = a * u + b * v;
    assert(low * total <= sum <= high * total) by (nonlinear_arith)
        requires
            0 <= u,
            0 <= v,
            low <= a <= high,
            low <= b <= high,
            total == u + v,
            sum == a * u + b * v,
    ;
    assert(low <= sum / total <= high) by (nonlinear_arith)
        requires
            total > 0,
            low * total <= sum <= high * total,
    ;
}

/// Combines a new observation with what is already known under its key.
pub fn merge_price_entry(existing: PriceEntry, incoming: PriceEntry) -> (result: (
    PriceEntry,
    MergeOutcome,
))
    requires
        mergeable(existing, incoming),
    ensures
        result == merged(existing, incoming),
{
    if existing.source != incoming.source || incoming.source == PriceSource::Historical {
        return (incoming, MergeOutcome::Overwritten);
    }
    let value: u64 = dampen_outlier(existing.estimated_value, incoming.estimated_value);
    let old_weight: u128 = if existing.sample_size < MAX_ACCUMULATED_SAMPLE_SIZE {
        existing.sample_size as u128
    } else {
        MAX_ACCUMULATED_SAMPLE_SIZE as u128
    };
    let new_weight: u128 = incoming.sample_size as u128;
    let old_value: u128 = existing.estimated_value as u128;
    let new_value: u128 = value as u128;
    assert(old_value * old_weight <= 0xffff_ffff_ffff_ffff * 200) by (nonlinear_arith)
        requires
            old_value <= 0xffff_ffff_ffff_ffff,
            old_weight <= 200,
    ;
    assert(new_value * new_weight <= 0xffff_ffff_ffff_ffff * 0xffff_ffff) by (nonlinear_arith)
        requires
            new_value <= 0xffff_ffff_ffff_ffff,
            new_weight <= 0xffff_ffff,
    ;
    let total: u128 = old_weight + new_weight;
    let sum: u128 = old_value * old_weight + new_value * new_weight;
    proof {
        lemma_average_between(
            old_value as int,
            old_weight as int,
            new_value as int,
            new_weight as int,
            0,
            0xffff_ffff_ffff_ffff,
        );
    }
    let average: u64 = (sum / total) as u64;
    let samples: u64 = existing.sample_size as u64 + incoming.sample_size as u64;
    let entry = PriceEntry {
        estimated_value: average,
        sample_size: if samples < MAX_ACCUMULATED_SAMPLE_SIZE as u64 {
            samples as u32
        } else {
            MAX_ACCUMULATED_SAMPLE_SIZE
        },
        updated_at_tick: if existing.updated_at_tick >= incoming.updated_at_tick {
            existing.updated_at_tick
        } else {
            incoming.updated_at_tick
        },
        source: PriceSource::Live,
    };
    (entry, MergeOutcome::LiveMerged)
}

/// One live observation moves a nonzero estimate to no more than five times
/// and no less than a fifth of it, however wild it is; an observation
/// within those bounds moves it only towards itself.
pub proof fn law_one_observation_moves_an_estimate_little(
    existing: PriceEntry,
    incoming: PriceEntry,
)
    requires
        mergeable(existing, incoming),
        existing.source is Live,
        incoming.source is Live,
        existing.estimated_value > 0,
    ensures
        ({
            let old = existing.estimated_value;
            let new = incoming.estimated_value;
            let value = merged(existing, incoming).0.estimated_value;
            &&& value <= old * OUTLIER_DAMPING_FACTOR
            &&& old < OUTLIER_DAMPING_FACTOR || value >= old / OUTLIER_DAMPING_FACTOR
            &&& value >= 1
            &&& new >= old ==> old <= value <= new
            &&& new <= old && new >= 1 ==> new <= value <= old
        }),
{
    let old = existing.estimated_value as int;
    let new = incoming.estimated_value as int;
    let held = dampened(existing.estimated_value, incoming.estimated_value) as int;
    let low = if old <= held {
        old
    } else {
        held
    };
    let high = if old <= held {
        held
    } else {
        old
    };
    lemma_average_between(
        old,
        capped(existing.sample_size as int),
        held,
        incoming.sample_size as int,
        low,
        high,
    );
}

/// Observations add up to the ceiling and no further.
pub proof fn law_sample_size_is_capped(existing: PriceEntry, incoming: PriceEntry)
    requires
        existing.source is Live,
        incoming.source is Live,
    ensures
        ({
            let samples = merged(existing, incoming).0.sample_size;
            &&& samples <= MAX_ACCUMULATED_SAMPLE_SIZE
            &&& existing.sample_size + incoming.sample_size <= MAX_ACCUMULATED_SAMPLE_SIZE
                ==> samples == existing.sample_size + incoming.sample_size
        }),
{
}

/// An entry whose sample size has reached the ceiling still answers to a
/// new price: a single observation that lies at least 201 coins away, and
/// within the bounds of one step, moves the estimate.
pub proof fn law_a_capped_entry_still_moves(existing: PriceEntry, incoming: PriceEntry)
    requires
        existing.source is Live,
        incoming.source is Live,
        incoming.sample_size >= 1,
        existing.estimated_value > 0,
        incoming.estimated_value >= existing.estimated_value + 201,
        incoming.estimated_value <= existing.estimated_value * OUTLIER_DAMPING_FACTOR,
    ensures
        merged(existing, incoming).0.estimated_value > existing.estimated_value,
{
    let a = existing.estimated_value as int;
    let b = incoming.estimated_value as int;
    let u = capped(existing.sample_size as int);
    let v = incoming.sample_size as int;
    assert(dampened(existing.estimated_value, incoming.estimated_value) == incoming.estimated_value);
    assert((a * u + b * v) / (u + v) >= a + 1) by (nonlinear_arith)
        requires
            0 <= u <= 200,
            v >= 1,
            b >= a + 201,
    {
        assert(a * u + b * v >= a * (u + v) + 201 * v) by (nonlinear_arith)
            requires
                0 <= u,
                v >= 1,
                b >= a + 201,
        ;
        assert(201 * v >= u + v);
        assert(a * u + b * v >= (a + 1) * (u + v)) by (nonlinear_arith)
            requires
                a * u + b * v >= a * (u + v) + 201 * v,
                201 * v >= u + v,
        ;
    }
    lemma_average_between(a, u, b, v, a, b);
}

/// Two live entries are averaged by their weights, rounded down: the old one
/// weighs as many observations as it rests on, at most two hundred, and the
/// new one all of its own. A new value beyond five times the old one or
/// below a fifth of it, rounded down and at least one, counts as if it lay
/// there, and beside an old value of zero it counts as it is. The
/// observations add up to at most two hundred, and the later tick stays.
pub proof fn law_live_entries_are_averaged(existing: PriceEntry, incoming: PriceEntry, value: int)
    requires
        existing.source is Live,
        incoming.source is Live,
        existing.sample_size + incoming.sample_size > 0,
        ({
            let old = existing.estimated_value;
            let new = incoming.estimated_value;
            &&& old == 0 || (new <= 5 * old && (5 * new >= old - 4 && new >= 1)) ==> value == new
            &&& old > 0 && new > 5 * old ==> value == 5 * old
            &&& old > 0 && (5 * new < old - 4 || new == 0) ==> value >= 1 && (5 * value <= old
                < 5 * value + 5 || (old < 5 && value == 1))
        }),
    ensures
        ({
            let (entry, outcome) = merged(existing, incoming);
            let u = if existing.sample_size < 200 {
                existing.sample_size as int
            } else {
                200
            };
            let v = incoming.sample_size as int;
            let sum = existing.estimated_value * u + value * v;
            &&& outcome is LiveMerged
            &&& entry.estimated_value * (u + v) <= sum < (entry.estimated_value + 1) * (u + v)
            &&& existing.sample_size + v <= 200 ==> entry.sample_size == existing.sample_size + v
            &&& existing.sample_size + v > 200 ==> entry.sample_size == 200
            &&& entry.updated_at_tick >= existing.updated_at_tick
            &&& entry.updated_at_tick >= incoming.updated_at_tick
            &&& entry.updated_at_tick == existing.updated_at_tick || entry.updated_at_tick
                == incoming.updated_at_tick
            &&& entry.source is Live
        }),
{
    let a = existing.estimated_value as int;
    let held = dampened(existing.estimated_value, incoming.estimated_value) as int;
    let u = capped(existing.sample_size as int);
    let v = incoming.sample_size as int;
    assert(held == value);
    lemma_average_between(a, u, held, v, 0, u64::MAX as int);
    let sum = a * u + held * v;
    let total = u + v;
    assert(sum / total * total <= sum < (sum / total + 1) * total) by (nonlinear_arith)
        requires
            total > 0,
    ;
}

/// Where not both entries are live, the new one stands in the place of the
/// old one as it is.
pub proof fn law_other_entries_are_replaced(existing: PriceEntry, incoming: PriceEntry)
    requires
        existing.source is Historical || incoming.source is Historical,
    ensures
        merged(existing, incoming).0 == incoming,
        merged(existing, incoming).1 is Overwritten,
{
}

/// An estimate answers to lower prices, however many observations it rests
/// on: a single lower one within the bounds of one step lowers it, though
/// not below itself.
pub proof fn law_a_lower_price_lowers_the_estimate(existing: PriceEntry, incoming: PriceEntry)
    requires
        existing.source is Live,
        incoming.source is Live,
        incoming.sample_size >= 1,
        incoming.estimated_value < existing.estimated_value,
        1 <= incoming.estimated_value,
        existing.estimated_value <= incoming.estimated_value * OUTLIER_DAMPING_FACTOR,
    ensures
        merged(existing, incoming).0.estimated_value < existing.estimated_value,
        merged(existing, incoming).0.estimated_value >= incoming.estimated_value,
{
    let a = existing.estimated_value as int;
    let b = incoming.estimated_value as int;
    let u = capped(existing.sample_size as int);
    let v = incoming.sample_size as int;
    assert(dampened(existing.estimated_value, incoming.estimated_value) == b);
    assert((a * u + b * v) / (u + v) < a) by (nonlinear_arith)
        requires
            0 <= u,
            v >= 1,
            b < a,
    {
        assert(a * u + b * v < a * (u + v)) by (nonlinear_arith)
            requires
                v >= 1,
                b < a,
        ;
    }
    lemma_average_between(a, u, b, v, b, a);
}

/// More observations never earn less confidence; ten earn more than nine,
/// and fifty more than forty-nine.
pub proof fn law_confidence_grows_with_observations(fewer: u32, more: u32)
    requires
        fewer <= more,
    ensures
        Confidence::of(fewer).rank() <= Confidence::of(more).rank(),
        Confidence::of(more) is Low <==> more < 10,
        Confidence::of(more) is High <==> more >= 50,
        Confidence::of(more) is Medium <==> 10 <= more < 50,
        Confidence::Low.rank() < Confidence::Medium.rank() < Confidence::High.rank(),
{
}

} // verus!
