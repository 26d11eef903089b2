//! The profit engine: is an auction worth buying to resell?
//!
//! An auction is screened against the price that was looked up for it, its
//! profit is computed, and a verdict is given. A price from a coarser tier
//! has to rest on more observations and to promise a higher return.
//!
//! An auction must be evaluated against prices from before its own tick,
//! never against a price that it has set itself.
//!
//! Rates and percentages are of a number type `R` that the caller chooses,
//! together with the functions that compute on it.

use crate::parser::ParsedItem;
use crate::pricing::{Confidence, PriceEntry, PriceLookup, PriceSource, PriceTier};
use vstd::prelude::*;

verus! {

/// The tax on a resale.
#[derive(Debug, Clone, Copy, PartialEq)]
pub struct FeeSchedule<R> {
    /// Fraction of the resale price that is taken.
    pub tax_rate: R,
    /// The least that is taken, in coins.
    pub minimum_tax: u64,
}

/// What an auction must promise, and what its price must rest on.
#[derive(Debug, Clone, Copy, PartialEq)]
pub struct FlipThresholds<R> {
    /// Least expected profit, in coins.
    pub min_profit: i64,
    /// Least return, in percent.
    pub min_roi_percent: R,
    /// Least sample size at which a price is trusted at all.
    pub min_sample_size: u32,
    /// Greatest age of a live price, in milliseconds.
    pub max_price_age_ticks: i64,
    /// Greatest age of a historical price, in milliseconds.
    pub max_historical_price_age_ticks: i64,
    /// A return above this percentage is taken for bad data.
    pub max_plausible_roi_percent: R,
    /// Factor on `min_roi_percent` for a price by major modifiers.
    pub major_modifier_roi_multiplier: R,
    /// Factor on `min_roi_percent` for a price by item id alone.
    pub base_item_roi_multiplier: R,
    /// Least confidence of a price by major modifiers.
    pub min_major_modifier_confidence: Confidence,
    /// Least confidence of a price by item id alone.
    pub min_base_item_confidence: Confidence,
}

impl<R> FlipThresholds<R> {
    /// The standard guards with the given percentages and factors: a
    /// hundred thousand coins of profit, one observation, live prices of
    /// up to three minutes, historical ones of up to thirty days, medium
    /// confidence by major modifiers and high confidence by item id.
    pub fn standard(
        min_roi_percent: R,
        max_plausible_roi_percent: R,
        major_modifier_roi_multiplier: R,
        base_item_roi_multiplier: R,
    ) -> (thresholds: Self)
        ensures
            thresholds == (FlipThresholds {
                min_profit: 100_000,
                min_roi_percent,
                min_sample_size: 1,
                max_price_age_ticks: 180_000,
                max_historical_price_age_ticks: 2_592_000_000,
                max_plausible_roi_percent,
                major_modifier_roi_multiplier,
                base_item_roi_multiplier,
                min_major_modifier_confidence: Confidence::Medium,
                min_base_item_confidence: Confidence::High,
            }),
    {
        FlipThresholds {
            min_profit: 100_000,
            min_roi_percent,
            min_sample_size: 1,
            max_price_age_ticks: 180_000,
            max_historical_price_age_ticks: 30 * 24 * 60 * 60 * 1000,
            max_plausible_roi_percent,
            major_modifier_roi_multiplier,
            base_item_roi_multiplier,
            min_major_modifier_confidence: Confidence::Medium,
            min_base_item_confidence: Confidence::High,
        }
    }
}

/// The numbers of an auction whose price could be used.
#[derive(Debug, Clone, Copy, PartialEq)]
pub struct ProfitCalculation<R> {
    pub estimated_value: u64,
    pub buy_price: u64,
    pub tax: u64,
    /// Negative where the auction is a bad deal.
    pub expected_profit: i64,
    pub roi_percent: R,
    pub sample_size: u32,
    pub price_age_ticks: i64,
    /// The tier that the price came from.
    pub tier: PriceTier,
}

/// What became of an auction.
#[derive(Debug, Clone, Copy, PartialEq)]
pub enum FlipVerdict<R> {
    /// Worth reporting.
    Flip(ProfitCalculation<R>),
    /// The profit or the return is too small.
    BelowThreshold(ProfitCalculation<R>),
    /// The auction cannot be bought at once.
    NotBin,
    /// There is no price for the item.
    NoPriceData,
    /// The price is too old.
    StalePrice { age_ticks: i64 },
    /// The price rests on too few observations.
    InsufficientSampleSize { sample_size: u32 },
    /// The bid or the price is zero.
    InvalidPriceData,
    /// The return is too good to be true.
    ImplausibleRoi { roi_percent: R },
}

impl<R> FlipVerdict<R> {
    /// Whether the auction is worth reporting.
    pub fn is_flip(&self) -> (yes: bool)
        ensures
            yes == (self is Flip),
    {
        match self {
            FlipVerdict::Flip(_) => true,
            _ => false,
        }
    }
}

// ---------------------------------------------------------------------
// Screening
// ---------------------------------------------------------------------

/// Whether a price can be used for an auction.
#[derive(Debug, Clone, Copy, PartialEq, Eq, Structural)]
pub enum Screening {
    NotBin,
    NoPriceData,
    InsufficientSampleSize { sample_size: u32 },
    StalePrice { age_ticks: i64 },
    InvalidPriceData,
    Usable { entry: PriceEntry, tier: PriceTier, age_ticks: i64 },
}

/// The least confidence that a tier asks for, as a rank.
pub open spec fn required_rank<R>(tier: PriceTier, thresholds: FlipThresholds<R>) -> int {
    match tier {
        PriceTier::Exact => Confidence::Low.rank(),
        PriceTier::MajorModifiers => thresholds.min_major_modifier_confidence.rank(),
        PriceTier::BaseItem => thresholds.min_base_item_confidence.rank(),
    }
}

/// Whether an entry rests on enough observations for its tier.
pub open spec fn trusted<R>(
    entry: PriceEntry,
    tier: PriceTier,
    thresholds: FlipThresholds<R>,
) -> bool {
    &&& entry.sample_size >= thresholds.min_sample_size
    &&& Confidence::of(entry.sample_size).rank() >= required_rank(tier, thresholds)
}

/// The age of an entry: zero if it lies ahead, and never more than fits.
pub open spec fn age(entry: PriceEntry, current_tick: i64) -> int {
    let difference = current_tick - entry.updated_at_tick;
    if difference < 0 {
        0
    } else if difference > i64::MAX {
        i64::MAX as int
    } else {
        difference
    }
}

/// The greatest age that an entry may have, by its source.
pub open spec fn age_limit<R>(entry: PriceEntry, thresholds: FlipThresholds<R>) -> i64 {
    match entry.source {
        PriceSource::Live => thresholds.max_price_age_ticks,
        PriceSource::Historical => thresholds.max_historical_price_age_ticks,
    }
}

/// How an auction passes the screening.
pub open spec fn screening<R>(
    bin: bool,
    starting_bid: u64,
    price: Option<PriceLookup>,
    current_tick: i64,
    thresholds: FlipThresholds<R>,
) -> Screening {
    if !bin {
        Screening::NotBin
    } else {
        match price {
            None => Screening::NoPriceData,
            Some(found) => {
                let entry = found.entry;
                if !trusted(entry, found.tier, thresholds) {
                    Screening::InsufficientSampleSize { sample_size: entry.sample_size }
                } else if age(entry, current_tick) > age_limit(entry, thresholds) {
                    Screening::StalePrice { age_ticks: age(entry, current_tick) as i64 }
                } else if starting_bid == 0 || entry.estimated_value == 0 {
                    Screening::InvalidPriceData
                } else {
                    Screening::Usable {
                        entry,
                        tier: found.tier,
                        age_ticks: age(entry, current_tick) as i64,
                    }
                }
            },
        }
    }
}

/// Screens an auction against the price that was looked up for it.
pub fn screen<R>(
    item: &ParsedItem,
    price: Option<PriceLookup>,
    current_tick: i64,
    thresholds: &FlipThresholds<R>,
) -> (result: Screening)
    ensures
        result == screening(item.bin, item.starting_bid, price, current_tick, *thresholds),
{
    if !item.bin {
        return Screening::NotBin;
    }
    let PriceLookup { entry, tier } = match price {
        Some(found) => found,
        None => return Screening::NoPriceData,
    };
    if entry.sample_size < thresholds.min_sample_size {
        return Screening::InsufficientSampleSize { sample_size: entry.sample_size };
    }
    let required = match tier {
        PriceTier::Exact => None,
        PriceTier::MajorModifiers => Some(thresholds.min_major_modifier_confidence),
        PriceTier::BaseItem => Some(thresholds.min_base_item_confidence),
    };
    if let Some(required) = required {
        if entry.confidence().is_below(required) {
            return Screening::InsufficientSampleSize { sample_size: entry.sample_size };
        }
    }
    let difference: i128 = current_tick as i128 - entry.updated_at_tick as i128;
    let age_ticks: i64 = if difference < 0 {
        0
    } else if difference > i64::MAX as i128 {
        i64::MAX
    } else {
        difference as i64
    };
    let limit: i64 = match entry.source {
        PriceSource::Live => thresholds.max_price_age_ticks,
        PriceSource::Historical => thresholds.max_historical_price_age_ticks,
    };
    if age_ticks > limit {
        return Screening::StalePrice { age_ticks };
    }
    if item.starting_bid == 0 || entry.estimated_value == 0 {
        return Screening::InvalidPriceData;
    }
    Screening::Usable { entry, tier, age_ticks }
}

// ---------------------------------------------------------------------
// Profit
// ---------------------------------------------------------------------

/// The greater of two amounts.
pub open spec fn at_least(amount: u64, floor: u64) -> u64 {
    if amount < floor {
        floor
    } else {
        amount
    }
}

impl<R: Copy> FeeSchedule<R> {
    /// The tax on a resale at `resale_price` coins, where `share` gives a
    /// rate's share of a price.
    pub fn tax_on<S: Fn(u64, R) -> u64>(&self, resale_price: u64, share: S) -> (tax: u64)
        requires
            call_requires(share, (resale_price, self.tax_rate)),
        ensures
            exists|part: u64| #[trigger]
                call_ensures(share, (resale_price, self.tax_rate), part) && tax == at_least(
                    part,
                    self.minimum_tax,
                ),
    {
        let part: u64 = share(resale_price, self.tax_rate);
        if part < self.minimum_tax {
            self.minimum_tax
        } else {
            part
        }
    }
}

/// What is left of a resale after tax and the price paid, as far as it fits.
pub open spec fn profit(buy_price: u64, estimated_value: u64, tax: u64) -> int {
    let exact = estimated_value - tax - buy_price;
    if exact < i64::MIN {
        i64::MIN as int
    } else if exact > i64::MAX {
        i64::MAX as int
    } else {
        exact
    }
}

/// The expected profit. Wide intermediates, so that neither a large value
/// nor a loss overflows.
pub fn expected_profit(buy_price: u64, estimated_value: u64, tax: u64) -> (coins: i64)
    ensures
        coins == profit(buy_price, estimated_value, tax),
{
    let exact: i128 = estimated_value as i128 - tax as i128 - buy_price as i128;
    if exact < i64::MIN as i128 {
        i64::MIN
    } else if exact > i64::MAX as i128 {
        i64::MAX
    } else {
        exact as i64
    }
}

/// The factor on the least return for a tier; none where the price is exact.
pub open spec fn multiplier<R>(tier: PriceTier, thresholds: FlipThresholds<R>) -> Option<R> {
    match tier {
        PriceTier::Exact => None,
        PriceTier::MajorModifiers => Some(thresholds.major_modifier_roi_multiplier),
        PriceTier::BaseItem => Some(thresholds.base_item_roi_multiplier),
    }
}

/// The return on an auction, held against the thresholds.
#[derive(Debug, Clone, Copy, PartialEq)]
pub struct Appraisal<R> {
    pub roi_percent: R,
    /// The return exceeds the plausible one.
    pub implausible: bool,
    /// The return reaches the least one, times the tier's factor.
    pub clears_bar: bool,
}

/// The verdict on an auction that passed the screening.
pub open spec fn decided<R>(
    numbers: ProfitCalculation<R>,
    appraisal: Appraisal<R>,
    min_profit: i64,
) -> FlipVerdict<R> {
    if appraisal.implausible {
        FlipVerdict::ImplausibleRoi { roi_percent: appraisal.roi_percent }
    } else if numbers.expected_profit >= min_profit && appraisal.clears_bar {
        FlipVerdict::Flip(numbers)
    } else {
        FlipVerdict::BelowThreshold(numbers)
    }
}

/// The verdict on an auction that did not pass the screening.
pub open spec fn turned_away<R>(result: Screening) -> FlipVerdict<R> {
    match result {
        Screening::NotBin => FlipVerdict::NotBin,
        Screening::NoPriceData => FlipVerdict::NoPriceData,
        Screening::InsufficientSampleSize { sample_size } => FlipVerdict::InsufficientSampleSize {
            sample_size,
        },
        Screening::StalePrice { age_ticks } => FlipVerdict::StalePrice { age_ticks },
        _ => FlipVerdict::InvalidPriceData,
    }
}

/// Gives the verdict on an auction that did not pass the screening.
fn turn_away<R>(result: Screening) -> (verdict: FlipVerdict<R>)
    ensures
        verdict == turned_away::<R>(result),
{
    match result {
        Screening::NotBin => FlipVerdict::NotBin,
        Screening::NoPriceData => FlipVerdict::NoPriceData,
        Screening::InsufficientSampleSize { sample_size } => FlipVerdict::InsufficientSampleSize {
            sample_size,
        },
        Screening::StalePrice { age_ticks } => FlipVerdict::StalePrice { age_ticks },
        _ => FlipVerdict::InvalidPriceData,
    }
}

/// The numbers of an auction with a usable price.
pub open spec fn numbers<R>(
    buy_price: u64,
    entry: PriceEntry,
    tier: PriceTier,
    age_ticks: i64,
    tax: u64,
    roi_percent: R,
) -> ProfitCalculation<R> {
    ProfitCalculation {
        estimated_value: entry.estimated_value,
        buy_price,
        tax,
        expected_profit: profit(buy_price, entry.estimated_value, tax) as i64,
        roi_percent,
        sample_size: entry.sample_size,
        price_age_ticks: age_ticks,
        tier,
    }
}

/// The verdict on an auction, given the rate's share of the estimated value
/// and the appraisal of the return.
pub open spec fn verdict_of<R>(
    bin: bool,
    starting_bid: u64,
    price: Option<PriceLookup>,
    current_tick: i64,
    fees: FeeSchedule<R>,
    thresholds: FlipThresholds<R>,
    part: u64,
    appraisal: Appraisal<R>,
) -> FlipVerdict<R> {
    match screening(bin, starting_bid, price, current_tick, thresholds) {
        Screening::Usable { entry, tier, age_ticks } => decided(
            numbers(
                starting_bid,
                entry,
                tier,
                age_ticks,
                at_least(part, fees.minimum_tax),
                appraisal.roi_percent,
            ),
            appraisal,
            thresholds.min_profit,
        ),
        other => turned_away(other),
    }
}

/// `verdict` comes of an evaluation with these functions: of a share and an
/// appraisal that they give for this auction.
pub open spec fn reachable<
    R,
    S: Fn(u64, R) -> u64,
    A: Fn(i64, u64, R, R, Option<R>) -> Appraisal<R>,
>(
    share: S,
    appraise: A,
    item: ParsedItem,
    price: Option<PriceLookup>,
    current_tick: i64,
    fees: FeeSchedule<R>,
    thresholds: FlipThresholds<R>,
    verdict: FlipVerdict<R>,
) -> bool {
    let passed = screening(item.bin, item.starting_bid, price, current_tick, thresholds);
    exists|part: u64, appraisal: Appraisal<R>|
        {
            &&& verdict == #[trigger] verdict_of(
                item.bin,
                item.starting_bid,
                price,
                current_tick,
                fees,
                thresholds,
                part,
                appraisal,
            )
            &&& passed matches Screening::Usable { entry, tier, .. } ==> {
                &&& call_ensures(share, (entry.estimated_value, fees.tax_rate), part)
                &&& call_ensures(
                    appraise,
                    (
                        profit(
                            item.starting_bid,
                            entry.estimated_value,
                            at_least(part, fees.minimum_tax),
                        ) as i64,
                        item.starting_bid,
                        thresholds.max_plausible_roi_percent,
                        thresholds.min_roi_percent,
                        multiplier(tier, thresholds),
                    ),
                    appraisal,
                )
            }
        }
}

/// The functions can be called on whatever an evaluation hands them.
pub open spec fn callable<
    R,
    S: Fn(u64, R) -> u64,
    A: Fn(i64, u64, R, R, Option<R>) -> Appraisal<R>,
>(share: S, appraise: A, fees: FeeSchedule<R>, thresholds: FlipThresholds<R>) -> bool {
    &&& forall|value: u64| #[trigger] call_requires(share, (value, fees.tax_rate))
    &&& forall|gain: i64, paid: u64, factor: Option<R>| #[trigger]
        call_requires(
            appraise,
            (
                gain,
                paid,
                thresholds.max_plausible_roi_percent,
                thresholds.min_roi_percent,
                factor,
            ),
        )
}

/// Gives the verdict on an auction with a usable price.
pub fn decide<R: Copy>(
    calculation: ProfitCalculation<R>,
    appraisal: Appraisal<R>,
    min_profit: i64,
) -> (verdict: FlipVerdict<R>)
    ensures
        verdict == decided(calculation, appraisal, min_profit),
{
    if appraisal.implausible {
        return FlipVerdict::ImplausibleRoi { roi_percent: appraisal.roi_percent };
    }
    if calculation.expected_profit >= min_profit && appraisal.clears_bar {
        FlipVerdict::Flip(calculation)
    } else {
        FlipVerdict::BelowThreshold(calculation)
    }
}

/// Evaluates an auction against the price that was looked up for it.
///
/// `share` gives a rate's share of a price. `appraise` takes the expected
/// profit, the buy price, the greatest plausible return, the least return
/// and the tier's factor on it.
pub fn evaluate<R: Copy, S: Fn(u64, R) -> u64, A: Fn(i64, u64, R, R, Option<R>) -> Appraisal<R>>(
    item: &ParsedItem,
    price: Option<PriceLookup>,
    current_tick: i64,
    fees: &FeeSchedule<R>,
    thresholds: &FlipThresholds<R>,
    share: &S,
    appraise: &A,
) -> (verdict: FlipVerdict<R>)
    requires
        callable(*share, *appraise, *fees, *thresholds),
    ensures
        reachable(*share, *appraise, *item, price, current_tick, *fees, *thresholds, verdict),
{
    let (entry, tier, age_ticks) = match screen(item, price, current_tick, thresholds) {
        Screening::Usable { entry, tier, age_ticks } => (entry, tier, age_ticks),
        result => {
            let verdict = turn_away(result);
            assert(verdict == verdict_of(
                item.bin,
                item.starting_bid,
                price,
                current_tick,
                *fees,
                *thresholds,
                0,
                arbitrary(),
            ));
            return verdict;
        },
    };
    let tax: u64 = fees.tax_on(entry.estimated_value, share);
    let gain: i64 = expected_profit(item.starting_bid, entry.estimated_value, tax);
    let factor = match tier {
        PriceTier::Exact => None,
        PriceTier::MajorModifiers => Some(thresholds.major_modifier_roi_multiplier),
        PriceTier::BaseItem => Some(thresholds.base_item_roi_multiplier),
    };
    let appraisal = appraise(
        gain,
        item.starting_bid,
        thresholds.max_plausible_roi_percent,
        thresholds.min_roi_percent,
        factor,
    );
    let calculation = ProfitCalculation {
        estimated_value: entry.estimated_value,
        buy_price: item.starting_bid,
        tax,
        expected_profit: gain,
        roi_percent: appraisal.roi_percent,
        sample_size: entry.sample_size,
        price_age_ticks: age_ticks,
        tier,
    };
    let verdict = decide(calculation, appraisal, thresholds.min_profit);
    proof {
        let part = choose|part: u64| #[trigger]
            call_ensures(share, (entry.estimated_value, fees.tax_rate), part) && tax == at_least(
                part,
                fees.minimum_tax,
            );
        assert(verdict == verdict_of(
            item.bin,
            item.starting_bid,
            price,
            current_tick,
            *fees,
            *thresholds,
            part,
            appraisal,
        ));
    }
    verdict
}

/// An auction is reported if and only if it can be bought at once, its
/// price is trusted for its tier, fresh and nonzero, its bid is nonzero,
/// its return is plausible, and both profit and return are large enough.
pub proof fn law_what_is_reported<R>(
    bin: bool,
    starting_bid: u64,
    price: Option<PriceLookup>,
    current_tick: i64,
    fees: FeeSchedule<R>,
    thresholds: FlipThresholds<R>,
    part: u64,
    appraisal: Appraisal<R>,
)
    ensures
        verdict_of(
            bin,
            starting_bid,
            price,
            current_tick,
            fees,
            thresholds,
            part,
            appraisal,
        ) is Flip <==> {
            &&& bin
            &&& starting_bid > 0
            &&& price matches Some(found)
            &&& found.entry.estimated_value > 0
            &&& trusted(found.entry, found.tier, thresholds)
            &&& age(found.entry, current_tick) <= age_limit(found.entry, thresholds)
            &&& profit(
                starting_bid,
                found.entry.estimated_value,
                at_least(part, fees.minimum_tax),
            ) >= thresholds.min_profit
            &&& !appraisal.implausible
            &&& appraisal.clears_bar
        },
{
}

/// Of two listings of one item, the cheaper one promises no less profit,
/// and a higher tax leaves no more of it.
pub proof fn law_cheaper_is_no_worse(
    cheap: u64,
    dear: u64,
    estimated_value: u64,
    tax: u64,
    higher_tax: u64,
)
    requires
        cheap <= dear,
        tax <= higher_tax,
    ensures
        profit(cheap, estimated_value, tax) >= profit(dear, estimated_value, tax),
        profit(cheap, estimated_value, tax) >= profit(cheap, estimated_value, higher_tax),
{
}

/// A price that is trusted for a coarser tier would be trusted for the
/// exact one.
pub proof fn law_coarser_tiers_ask_for_more<R>(
    entry: PriceEntry,
    tier: PriceTier,
    thresholds: FlipThresholds<R>,
)
    requires
        trusted(entry, tier, thresholds),
    ensures
        trusted(entry, PriceTier::Exact, thresholds),
{
}

/// The shares that `share` gives are settled by the price and the rate.
pub open spec fn settled<R, S: Fn(u64, R) -> u64>(share: S) -> bool {
    forall|price: u64, rate: R, a: u64, b: u64| #[trigger]
        call_ensures(share, (price, rate), a) && #[trigger] call_ensures(share, (price, rate), b)
            ==> a == b
}

/// The return that `appraise` finds does not depend on the factor of the
/// tier, and a bar that is cleared with a factor is cleared without one.
pub open spec fn lenient<R, A: Fn(i64, u64, R, R, Option<R>) -> Appraisal<R>>(
    appraise: A,
    thresholds: FlipThresholds<R>,
) -> bool {
    forall|gain: i64, paid: u64, factor: Option<R>, a: Appraisal<R>, b: Appraisal<R>| #[trigger]
        call_ensures(
            appraise,
            (
                gain,
                paid,
                thresholds.max_plausible_roi_percent,
                thresholds.min_roi_percent,
                factor,
            ),
            a,
        ) && #[trigger] call_ensures(
            appraise,
            (
                gain,
                paid,
                thresholds.max_plausible_roi_percent,
                thresholds.min_roi_percent,
                None::<R>,
            ),
            b,
        ) ==> {
            &&& a.roi_percent == b.roi_percent
            &&& a.implausible == b.implausible
            &&& a.clears_bar ==> b.clears_bar
        }
}

/// A coarser tier is never trusted more than an exact match: a flip at any
/// tier is a flip if the same entry matched exactly, with the same numbers.
pub proof fn law_a_flip_at_any_tier_is_a_flip_at_the_exact_one<
    R,
    S: Fn(u64, R) -> u64,
    A: Fn(i64, u64, R, R, Option<R>) -> Appraisal<R>,
>(
    share: S,
    appraise: A,
    item: ParsedItem,
    entry: PriceEntry,
    tier: PriceTier,
    current_tick: i64,
    fees: FeeSchedule<R>,
    thresholds: FlipThresholds<R>,
    flip: ProfitCalculation<R>,
    verdict: FlipVerdict<R>,
)
    requires
        settled(share),
        lenient(appraise, thresholds),
        reachable(
            share,
            appraise,
            item,
            Some(PriceLookup { entry, tier }),
            current_tick,
            fees,
            thresholds,
            FlipVerdict::Flip(flip),
        ),
        reachable(
            share,
            appraise,
            item,
            Some(PriceLookup { entry, tier: PriceTier::Exact }),
            current_tick,
            fees,
            thresholds,
            verdict,
        ),
    ensures
        verdict == FlipVerdict::Flip(ProfitCalculation { tier: PriceTier::Exact, ..flip }),
{
}

/// What the price of an auction is good for, field by field of the
/// thresholds. A price with too few observations for its tier is refused:
/// fewer than `min_sample_size` at any tier, and by major modifiers or by
/// item id alone fewer than ten or fifty where medium or high confidence is
/// asked for. Then comes its age, held against the limit for its source,
/// and then a bid or an estimate of zero.
pub proof fn law_what_is_turned_away<R, S: Fn(u64, R) -> u64, A: Fn(
    i64,
    u64,
    R,
    R,
    Option<R>,
) -> Appraisal<R>>(
    share: S,
    appraise: A,
    item: ParsedItem,
    price: Option<PriceLookup>,
    tick: i64,
    fees: FeeSchedule<R>,
    thresholds: FlipThresholds<R>,
    verdict: FlipVerdict<R>,
)
    requires
        reachable(share, appraise, item, price, tick, fees, thresholds, verdict),
    ensures
        verdict is NotBin <==> !item.bin,
        verdict is NoPriceData <==> item.bin && price is None,
        item.bin && price is Some ==> {
            let entry = price->0.entry;
            let asked = match price->0.tier {
                PriceTier::Exact => Confidence::Low,
                PriceTier::MajorModifiers => thresholds.min_major_modifier_confidence,
                PriceTier::BaseItem => thresholds.min_base_item_confidence,
            };
            let weak = entry.sample_size < thresholds.min_sample_size || (asked is Medium
                && entry.sample_size < 10) || (asked is High && entry.sample_size < 50);
            let limit = if entry.source is Live {
                thresholds.max_price_age_ticks
            } else {
                thresholds.max_historical_price_age_ticks
            };
            let elapsed = tick - entry.updated_at_tick;
            let stale = limit < 0 || (elapsed > limit && limit < i64::MAX);
            let worthless = item.starting_bid == 0 || entry.estimated_value == 0;
            &&& verdict is InsufficientSampleSize <==> weak
            &&& verdict matches FlipVerdict::InsufficientSampleSize { sample_size } ==> sample_size
                == entry.sample_size
            &&& verdict is StalePrice <==> !weak && stale
            &&& verdict matches FlipVerdict::StalePrice { age_ticks } ==> {
                &&& 0 <= age_ticks
                &&& 0 <= elapsed <= i64::MAX ==> age_ticks == elapsed
                &&& elapsed < 0 ==> age_ticks == 0
                &&& elapsed > i64::MAX ==> age_ticks == i64::MAX
            }
            &&& verdict is InvalidPriceData <==> !weak && !stale && worthless
        },
{
}

/// What an auction with a usable price comes to. The tax is the rate's share
/// of the estimate, and never below the least tax; the profit is what is
/// left of the estimate after tax and bid. The return is appraised against
/// the greatest plausible and the least one, the latter raised by the factor
/// for major modifiers or for the item id alone, and by none for an exact
/// match. It is a flip where the return is plausible and both profit and
/// return reach their bars, and what is reported are these numbers.
pub proof fn law_what_a_usable_price_comes_to<R, S: Fn(u64, R) -> u64, A: Fn(
    i64,
    u64,
    R,
    R,
    Option<R>,
) -> Appraisal<R>>(
    share: S,
    appraise: A,
    item: ParsedItem,
    entry: PriceEntry,
    tier: PriceTier,
    tick: i64,
    fees: FeeSchedule<R>,
    thresholds: FlipThresholds<R>,
    verdict: FlipVerdict<R>,
) -> (found: (u64, i64, Appraisal<R>))
    requires
        reachable(
            share,
            appraise,
            item,
            Some(PriceLookup { entry, tier }),
            tick,
            fees,
            thresholds,
            verdict,
        ),
        !(verdict is NotBin),
        !(verdict is InsufficientSampleSize),
        !(verdict is StalePrice),
        !(verdict is InvalidPriceData),
    ensures
        ({
            let (part, gain, appraisal) = found;
            let tax = if part < fees.minimum_tax {
                fees.minimum_tax
            } else {
                part
            };
            let left = entry.estimated_value - tax - item.starting_bid;
            let (most, least) = (
                thresholds.max_plausible_roi_percent,
                thresholds.min_roi_percent,
            );
            &&& call_ensures(share, (entry.estimated_value, fees.tax_rate), part)
            &&& i64::MIN <= left <= i64::MAX ==> gain == left
            &&& left < i64::MIN ==> gain == i64::MIN
            &&& left > i64::MAX ==> gain == i64::MAX
            &&& tier is Exact ==> call_ensures(
                appraise,
                (gain, item.starting_bid, most, least, None::<R>),
                appraisal,
            )
            &&& tier is MajorModifiers ==> call_ensures(
                appraise,
                (
                    gain,
                    item.starting_bid,
                    most,
                    least,
                    Some(thresholds.major_modifier_roi_multiplier),
                ),
                appraisal,
            )
            &&& tier is BaseItem ==> call_ensures(
                appraise,
                (
                    gain,
                    item.starting_bid,
                    most,
                    least,
                    Some(thresholds.base_item_roi_multiplier),
                ),
                appraisal,
            )
            &&& verdict is ImplausibleRoi <==> appraisal.implausible
            &&& verdict matches FlipVerdict::ImplausibleRoi { roi_percent } ==> roi_percent
                == appraisal.roi_percent
            &&& verdict is Flip <==> !appraisal.implausible && gain >= thresholds.min_profit
                && appraisal.clears_bar
            &&& verdict is BelowThreshold <==> !appraisal.implausible && (gain
                < thresholds.min_profit || !appraisal.clears_bar)
            &&& verdict is Flip || verdict is BelowThreshold ==> {
                let p = if verdict is Flip {
                    verdict->Flip_0
                } else {
                    verdict->BelowThreshold_0
                };
                &&& p.estimated_value == entry.estimated_value
                &&& p.buy_price == item.starting_bid
                &&& p.tax == tax
                &&& p.expected_profit == gain
                &&& p.roi_percent == appraisal.roi_percent
                &&& p.sample_size == entry.sample_size
                &&& p.tier == tier
                &&& 0 <= p.price_age_ticks
                &&& entry.updated_at_tick <= tick && tick - entry.updated_at_tick <= i64::MAX
                    ==> p.price_age_ticks == tick - entry.updated_at_tick
                &&& entry.updated_at_tick > tick ==> p.price_age_ticks == 0
            }
        }),
{
    let price = Some(PriceLookup { entry, tier });
    let (part, appraisal) = choose|part: u64, appraisal: Appraisal<R>|
        {
            &&& verdict == #[trigger] verdict_of(
                item.bin,
                item.starting_bid,
                price,
                tick,
                fees,
                thresholds,
                part,
                appraisal,
            )
            &&& screening(
                item.bin,
                item.starting_bid,
                price,
                tick,
                thresholds,
            ) matches Screening::Usable { entry, tier, .. } ==> {
                &&& call_ensures(share, (entry.estimated_value, fees.tax_rate), part)
                &&& call_ensures(
                    appraise,
                    (
                        profit(
                            item.starting_bid,
                            entry.estimated_value,
                            at_least(part, fees.minimum_tax),
                        ) as i64,
                        item.starting_bid,
                        thresholds.max_plausible_roi_percent,
                        thresholds.min_roi_percent,
                        multiplier(tier, thresholds),
                    ),
                    appraisal,
                )
            }
        };
    let tax = at_least(part, fees.minimum_tax);
    (part, profit(item.starting_bid, entry.estimated_value, tax) as i64, appraisal)
}

} // verus!
