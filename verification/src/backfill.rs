//! The crawl through past sales that seeds the price cache.
//!
//! The crawl asks for one page of sales after another, tag by tag, and
//! hands out the prices of a tag as soon as its pages are in. What to do
//! next is decided here; fetching a page and waiting is up to the caller.

use crate::batch::{folded, law_observed_updates_are_mergeable, observed, MergeStats};
use crate::cache::{named, PriceCache, Prices};
use crate::cofl::{fingerprint_of, major_modifier_key_of, sale_attributes, HistoricalSale};
use crate::fingerprint::{exact_key, major_key, Fingerprint};
use crate::grouping::{
    add_sale, grouped, law_every_sale_has_its_group, reduce, summaries, viewed, Group,
    Sighting,
};
use crate::pricing::PriceEntry;
use crate::shards::keyed;
use crate::shared::{stage, takes_effect, written, Batch, SharedPriceCache, TierUpdates};
use crate::text::texts;
use vstd::prelude::*;

verus! {

// ---------------------------------------------------------------------
// The prices of one tag
// ---------------------------------------------------------------------

/// Sales by exact fingerprint.
pub open spec fn by_fingerprint(sales: Seq<HistoricalSale>) -> Seq<Sighting<u64>> {
    Seq::new(
        sales.len(),
        |i: int|
            Sighting {
                key: exact_key(sales[i].item_tag@, Some(sale_attributes(sales[i]))).0,
                price: sales[i].sale_price,
                sold_at: sales[i].sold_at,
            },
    )
}

/// Sales by key of major modifiers.
pub open spec fn by_major_key(sales: Seq<HistoricalSale>) -> Seq<Sighting<u64>> {
    Seq::new(
        sales.len(),
        |i: int|
            Sighting {
                key: major_key(sales[i].item_tag@, Some(sale_attributes(sales[i]))).0,
                price: sales[i].sale_price,
                sold_at: sales[i].sold_at,
            },
    )
}

/// Sales by item tag.
pub open spec fn by_tag(sales: Seq<HistoricalSale>) -> Seq<Sighting<Seq<char>>> {
    Seq::new(
        sales.len(),
        |i: int|
            Sighting {
                key: sales[i].item_tag@,
                price: sales[i].sale_price,
                sold_at: sales[i].sold_at,
            },
    )
}

/// Prices for all three tiers.
pub struct TagUpdates {
    pub exact: Vec<(Fingerprint, PriceEntry)>,
    pub major: Vec<(Fingerprint, PriceEntry)>,
    pub base: Vec<(String, PriceEntry)>,
}

impl TagUpdates {
    /// The prices are those of `sales`: a median per key, in each tier.
    pub open spec fn of_sales(self, sales: Seq<HistoricalSale>) -> bool {
        &&& keyed(self.exact@) == summaries(by_fingerprint(sales))
        &&& keyed(self.major@) == summaries(by_major_key(sales))
        &&& named(self.base@) == summaries(by_tag(sales))
    }

    /// The cache after the prices were written to it.
    pub open spec fn seeded(self, prices: Prices) -> Prices {
        Prices {
            exact: folded(prices.exact, keyed(self.exact@)).0,
            major: folded(prices.major, keyed(self.major@)).0,
            base: folded(prices.base, named(self.base@)).0,
        }
    }

    /// Writes the prices to a cache. One sale counts in every tier.
    pub fn seed(self, cache: &mut PriceCache) -> (stats: [MergeStats; 3])
        requires
            observed(keyed(self.exact@)),
            observed(keyed(self.major@)),
            observed(named(self.base@)),
        ensures
            final(cache)@ == self.seeded(old(cache)@),
            stats[0]@ == folded(old(cache)@.exact, keyed(self.exact@)).1,
            stats[1]@ == folded(old(cache)@.major, keyed(self.major@)).1,
            stats[2]@ == folded(old(cache)@.base, named(self.base@)).1,
    {
        proof {
            law_observed_updates_are_mergeable(cache@.exact, keyed(self.exact@));
            law_observed_updates_are_mergeable(cache@.major, keyed(self.major@));
            law_observed_updates_are_mergeable(cache@.base, named(self.base@));
        }
        let exact = cache.update_exact_batch(self.exact);
        let major = cache.update_major_batch(self.major);
        let base = cache.update_base_batch(self.base);
        [exact, major, base]
    }

    /// Writes the prices to a cache that other tasks use too, tier by tier.
    pub fn seed_shared(self, cache: &SharedPriceCache) -> (stats: [MergeStats; 3])
        requires
            observed(keyed(self.exact@)),
            observed(keyed(self.major@)),
            observed(named(self.base@)),
        ensures
            exists|n: int| #[trigger]
                takes_effect(written(*cache), n, Batch::Exact(keyed(self.exact@))) && stats[0]@
                    == Batch::Exact(keyed(self.exact@)).tally_on(stage(*cache, n)),
            exists|n: int| #[trigger]
                takes_effect(written(*cache), n, Batch::Major(keyed(self.major@))) && stats[1]@
                    == Batch::Major(keyed(self.major@)).tally_on(stage(*cache, n)),
            exists|n: int| #[trigger]
                takes_effect(written(*cache), n, Batch::Base(named(self.base@))) && stats[2]@
                    == Batch::Base(named(self.base@)).tally_on(stage(*cache, n)),
    {
        let exact = cache.update(TierUpdates::Exact(self.exact));
        let major = cache.update(TierUpdates::Major(self.major));
        let base = cache.update(TierUpdates::Base(self.base));
        [exact, major, base]
    }
}

/// Medians of past sales can be written to any cache.
proof fn lemma_summaries_are_observed<V>(sales: Seq<Sighting<V>>)
    ensures
        observed(summaries(sales)),
{
}

/// One more sale is one more sighting in every tier.
proof fn lemma_one_more_sale(sales: Seq<HistoricalSale>, i: int)
    requires
        0 <= i < sales.len(),
    ensures
        ({
            let sale = sales[i];
            let done = sales.take(i);
            let more = sales.take(i + 1);
            let attributes = Some(sale_attributes(sale));
            let (price, sold_at) = (sale.sale_price, sale.sold_at);
            &&& by_fingerprint(more) == by_fingerprint(done).push(
                Sighting { key: exact_key(sale.item_tag@, attributes).0, price, sold_at },
            )
            &&& by_major_key(more) == by_major_key(done).push(
                Sighting { key: major_key(sale.item_tag@, attributes).0, price, sold_at },
            )
            &&& by_tag(more) == by_tag(done).push(
                Sighting { key: sale.item_tag@, price, sold_at },
            )
        }),
{
    let sale = sales[i];
    let done = sales.take(i);
    let more = sales.take(i + 1);
    let attributes = Some(sale_attributes(sale));
    let (price, sold_at) = (sale.sale_price, sale.sold_at);
    assert(by_fingerprint(more) =~= by_fingerprint(done).push(
        Sighting { key: exact_key(sale.item_tag@, attributes).0, price, sold_at },
    ));
    assert(by_major_key(more) =~= by_major_key(done).push(
        Sighting { key: major_key(sale.item_tag@, attributes).0, price, sold_at },
    ));
    assert(by_tag(more) =~= by_tag(done).push(Sighting { key: sale.item_tag@, price, sold_at }));
}

/// Computes the prices of all three tiers from the same sales.
pub fn tag_updates(sales: &Vec<HistoricalSale>) -> (updates: TagUpdates)
    ensures
        updates.of_sales(sales@),
        updates.exact@.len() <= sales@.len(),
        updates.major@.len() <= sales@.len(),
        updates.base@.len() <= sales@.len(),
        observed(keyed(updates.exact@)),
        observed(keyed(updates.major@)),
        observed(named(updates.base@)),
{
    let ghost all = sales@;
    let mut exact: Vec<Group<Fingerprint>> = Vec::new();
    let mut major: Vec<Group<Fingerprint>> = Vec::new();
    let mut base: Vec<Group<String>> = Vec::new();
    let n: usize = sales.len();
    for i in 0..n
        invariant
            n == sales@.len(),
            all == sales@,
            grouped(exact@, by_fingerprint(all.take(i as int))),
            grouped(major@, by_major_key(all.take(i as int))),
            grouped(base@, by_tag(all.take(i as int))),
    {
        let sale = &sales[i];
        let ghost done = all.take(i as int);
        add_sale(
            &mut exact,
            fingerprint_of(sale),
            sale.sale_price,
            sale.sold_at,
            Ghost(by_fingerprint(done)),
        );
        add_sale(
            &mut major,
            major_modifier_key_of(sale),
            sale.sale_price,
            sale.sold_at,
            Ghost(by_major_key(done)),
        );
        add_sale(
            &mut base,
            sale.item_tag.clone(),
            sale.sale_price,
            sale.sold_at,
            Ghost(by_tag(done)),
        );
        proof {
            lemma_one_more_sale(all, i as int);
        }
    }
    assert(all.take(n as int) =~= all);
    proof {
        law_every_sale_has_its_group(by_fingerprint(all));
        law_every_sale_has_its_group(by_major_key(all));
        law_every_sale_has_its_group(by_tag(all));
        lemma_summaries_are_observed(by_fingerprint(all));
        lemma_summaries_are_observed(by_major_key(all));
        lemma_summaries_are_observed(by_tag(all));
    }
    let exact = reduce(exact, Ghost(by_fingerprint(all)));
    let major = reduce(major, Ghost(by_major_key(all)));
    let base = reduce(base, Ghost(by_tag(all)));
    assert(keyed(exact@) =~= viewed(exact@));
    assert(keyed(major@) =~= viewed(major@));
    assert(named(base@) =~= viewed(base@));
    TagUpdates { exact, major, base }
}

// ---------------------------------------------------------------------
// The crawl
// ---------------------------------------------------------------------

/// What a crawl has done.
#[derive(Debug, Clone, Copy, Default, PartialEq, Eq, Structural)]
pub struct ImportStats {
    pub item_tags_attempted: u32,
    pub sales_fetched: u64,
    /// Distinct exact fingerprints, tag by tag.
    pub fingerprints_loaded: u64,
    pub exact_entries_seeded: u64,
    pub major_modifier_entries_seeded: u64,
    pub base_item_entries_seeded: u64,
    pub fetch_errors: u64,
    /// Sales whose item NBT could be decoded.
    pub sales_from_real_nbt: u64,
    /// Sales whose modifiers were put together from separate fields.
    pub sales_from_reconstruction: u64,
}

/// The number of sales whose item NBT could be decoded.
pub open spec fn real_count(sales: Seq<HistoricalSale>) -> nat
    decreases sales.len(),
{
    if sales.len() == 0 {
        0
    } else {
        real_count(sales.drop_last()) + if sales.last().extra_attributes is Some {
            1nat
        } else {
            0nat
        }
    }
}

/// Where a crawl stands.
#[verifier::ext_equal]
pub struct Position {
    /// The tags, in the order in which they are crawled.
    pub tags: Seq<Seq<char>>,
    pub pages_per_tag: u32,
    /// The current tag.
    pub tag: nat,
    /// The next page of the current tag.
    pub page: u32,
    /// Whether the current tag may have more pages.
    pub open: bool,
    /// Whether any page has been asked for.
    pub requested: bool,
    /// The sales of the current tag.
    pub sales: Seq<HistoricalSale>,
    pub stats: ImportStats,
}

impl Position {
    /// The crawl waits for a page of the current tag.
    pub open spec fn wants_page(self) -> bool {
        self.tag < self.tags.len() && self.open && self.page < self.pages_per_tag
    }

    /// Every tag has been crawled.
    pub open spec fn is_done(self) -> bool {
        self.tag >= self.tags.len()
    }

    /// After a page with sales came; an empty one ends the tag.
    pub open spec fn after_page(self, sales: Seq<HistoricalSale>) -> Position {
        if sales.len() == 0 {
            Position { open: false, ..self }
        } else {
            Position {
                page: (self.page + 1) as u32,
                sales: self.sales + sales,
                stats: ImportStats {
                    sales_fetched: (self.stats.sales_fetched + sales.len()) as u64,
                    sales_from_real_nbt: (self.stats.sales_from_real_nbt + real_count(
                        sales,
                    )) as u64,
                    sales_from_reconstruction: (self.stats.sales_from_reconstruction + sales.len()
                        - real_count(sales)) as u64,
                    ..self.stats
                },
                ..self
            }
        }
    }

    /// After a page could not be fetched, which ends the tag.
    pub open spec fn after_failure(self) -> Position {
        Position {
            open: false,
            stats: ImportStats {
                fetch_errors: (self.stats.fetch_errors + 1) as u64,
                ..self.stats
            },
            ..self
        }
    }

    /// After a page was asked for.
    pub open spec fn after_request(self) -> Position {
        Position { requested: true, ..self }
    }

    /// After the prices of the current tag were handed out: at the next tag.
    pub open spec fn after_tag(self, exact: nat, major: nat, base: nat) -> Position {
        Position {
            tag: self.tag + 1,
            page: 0,
            open: true,
            sales: Seq::empty(),
            stats: ImportStats {
                item_tags_attempted: (self.stats.item_tags_attempted + 1) as u32,
                fingerprints_loaded: (self.stats.fingerprints_loaded + exact) as u64,
                exact_entries_seeded: (self.stats.exact_entries_seeded + exact) as u64,
                major_modifier_entries_seeded: (self.stats.major_modifier_entries_seeded
                    + major) as u64,
                base_item_entries_seeded: (self.stats.base_item_entries_seeded + base) as u64,
                ..self.stats
            },
            ..self
        }
    }

    /// The counts fit together: every sale has its attributes from one
    /// source, no tier has been seeded more often than there were sales,
    /// and no tag has failed more than once.
    pub open spec fn consistent(self) -> bool {
        let stats = self.stats;
        &&& self.tag <= self.tags.len() <= u32::MAX
        &&& self.page <= self.pages_per_tag
        &&& stats.item_tags_attempted == self.tag
        &&& stats.sales_from_real_nbt + stats.sales_from_reconstruction == stats.sales_fetched
        &&& stats.fingerprints_loaded == stats.exact_entries_seeded
        &&& stats.exact_entries_seeded + self.sales.len() <= stats.sales_fetched
        &&& stats.major_modifier_entries_seeded + self.sales.len() <= stats.sales_fetched
        &&& stats.base_item_entries_seeded + self.sales.len() <= stats.sales_fetched
        &&& stats.fetch_errors <= self.tag + if self.open {
            0int
        } else {
            1int
        }
        &&& !self.open ==> self.tag < self.tags.len()
    }
}

/// What a crawl asks its caller to do next.
pub enum Step {
    /// Fetch a page of sales, after a pause if `pause` is set, and report
    /// what came.
    Fetch { item_tag: String, page: u32, pause: bool },
    /// Write the prices of a tag to the cache, and ask again.
    Seed(TagUpdates),
    /// Nothing: every tag has been crawled.
    Done,
}

/// A crawl through the past sales of some tags.
pub struct Backfill {
    item_tags: Vec<String>,
    pages_per_tag: u32,
    tag: usize,
    page: u32,
    open: bool,
    requested: bool,
    sales: Vec<HistoricalSale>,
    stats: ImportStats,
}

impl View for Backfill {
    type V = Position;

    closed spec fn view(&self) -> Position {
        Position {
            tags: texts(self.item_tags@),
            pages_per_tag: self.pages_per_tag,
            tag: self.tag as nat,
            page: self.page,
            open: self.open,
            requested: self.requested,
            sales: self.sales@,
            stats: self.stats,
        }
    }
}

/// Counts the sales whose item NBT could be decoded.
fn count_real(sales: &Vec<HistoricalSale>) -> (n: u64)
    ensures
        n == real_count(sales@),
        n <= sales@.len(),
{
    let mut count: u64 = 0;
    let n: usize = sales.len();
    let ghost all = sales@;
    assert(all.take(0) =~= Seq::<HistoricalSale>::empty());
    for i in 0..n
        invariant
            n == sales@.len(),
            all == sales@,
            count <= i,
            count == real_count(all.take(i as int)),
    {
        assert(all.take(i + 1).drop_last() =~= all.take(i as int));
        if sales[i].extra_attributes.is_some() {
            count += 1;
        }
    }
    assert(all.take(n as int) =~= all);
    count
}

impl Backfill {
    #[verifier::type_invariant]
    spec fn counts_are_consistent(self) -> bool {
        self@.consistent()
    }

    /// A crawl that has not begun.
    pub fn new(item_tags: Vec<String>, pages_per_tag: u32) -> (crawl: Self)
        requires
            item_tags@.len() <= u32::MAX,
        ensures
            crawl@ == (Position {
                tags: texts(item_tags@),
                pages_per_tag,
                tag: 0,
                page: 0,
                open: true,
                requested: false,
                sales: Seq::empty(),
                stats: ImportStats {
                    item_tags_attempted: 0,
                    sales_fetched: 0,
                    fingerprints_loaded: 0,
                    exact_entries_seeded: 0,
                    major_modifier_entries_seeded: 0,
                    base_item_entries_seeded: 0,
                    fetch_errors: 0,
                    sales_from_real_nbt: 0,
                    sales_from_reconstruction: 0,
                },
            }),
    {
        Backfill {
            item_tags,
            pages_per_tag,
            tag: 0,
            page: 0,
            open: true,
            requested: false,
            sales: Vec::new(),
            stats: ImportStats {
                item_tags_attempted: 0,
                sales_fetched: 0,
                fingerprints_loaded: 0,
                exact_entries_seeded: 0,
                major_modifier_entries_seeded: 0,
                base_item_entries_seeded: 0,
                fetch_errors: 0,
                sales_from_real_nbt: 0,
                sales_from_reconstruction: 0,
            },
        }
    }

    /// What the crawl has done so far.
    pub fn stats(&self) -> (stats: ImportStats)
        ensures
            stats == self@.stats,
            self@.consistent(),
    {
        proof {
            use_type_invariant(self);
        }
        self.stats
    }

    /// What to do next.
    pub fn step(&mut self) -> (step: Step)
        ensures
            match step {
                Step::Fetch { item_tag, page, pause } => {
                    &&& old(self)@.wants_page()
                    &&& item_tag@ == old(self)@.tags[old(self)@.tag as int]
                    &&& page == old(self)@.page
                    &&& pause == old(self)@.requested
                    &&& final(self)@ == old(self)@.after_request()
                },
                Step::Seed(updates) => {
                    &&& !old(self)@.is_done()
                    &&& !old(self)@.wants_page()
                    &&& updates.of_sales(old(self)@.sales)
                    &&& observed(keyed(updates.exact@))
                    &&& observed(keyed(updates.major@))
                    &&& observed(named(updates.base@))
                    &&& final(self)@ == old(self)@.after_tag(
                        updates.exact@.len(),
                        updates.major@.len(),
                        updates.base@.len(),
                    )
                },
                Step::Done => old(self)@.is_done() && final(self)@ == old(self)@,
            },
    {
        proof {
            use_type_invariant(&*self);
        }
        if self.tag >= self.item_tags.len() {
            return Step::Done;
        }
        if self.open && self.page < self.pages_per_tag {
            let pause = self.requested;
            self.requested = true;
            let item_tag = self.item_tags[self.tag].clone();
            return Step::Fetch { item_tag, page: self.page, pause };
        }
        let ghost before = self@;
        let mut taken = Backfill::new(Vec::new(), 0);
        std::mem::swap(self, &mut taken);
        let Backfill { item_tags, pages_per_tag, tag, page, open, requested, sales, stats } = taken;
        let updates = tag_updates(&sales);
        let exact: u64 = updates.exact.len() as u64;
        let major: u64 = updates.major.len() as u64;
        let base: u64 = updates.base.len() as u64;
        *self = Backfill {
            item_tags,
            pages_per_tag,
            tag: tag + 1,
            page: 0,
            open: true,
            requested,
            sales: Vec::new(),
            stats: ImportStats {
                item_tags_attempted: stats.item_tags_attempted + 1,
                fingerprints_loaded: stats.fingerprints_loaded + exact,
                exact_entries_seeded: stats.exact_entries_seeded + exact,
                major_modifier_entries_seeded: stats.major_modifier_entries_seeded + major,
                base_item_entries_seeded: stats.base_item_entries_seeded + base,
                ..stats
            },
        };
        assert(self@ =~= before.after_tag(
            updates.exact@.len(),
            updates.major@.len(),
            updates.base@.len(),
        ));
        Step::Seed(updates)
    }

    /// Takes in a page that was fetched.
    pub fn page_fetched(&mut self, sales: Vec<HistoricalSale>)
        requires
            old(self)@.wants_page(),
            old(self)@.stats.sales_fetched + sales@.len() <= u64::MAX,
        ensures
            final(self)@ == old(self)@.after_page(sales@),
    {
        proof {
            use_type_invariant(&*self);
        }
        if sales.len() == 0 {
            self.open = false;
            return;
        }
        let ghost before = self@;
        let ghost fresh = sales@;
        let with_nbt: u64 = count_real(&sales);
        let count: u64 = sales.len() as u64;
        let mut taken = Backfill::new(Vec::new(), 0);
        std::mem::swap(self, &mut taken);
        let Backfill {
            item_tags,
            pages_per_tag,
            tag,
            page,
            open,
            requested,
            sales: mut all,
            stats,
        } = taken;
        let mut sales = sales;
        all.append(&mut sales);
        *self = Backfill {
            item_tags,
            pages_per_tag,
            tag,
            page: page + 1,
            open,
            requested,
            sales: all,
            stats: ImportStats {
                sales_fetched: stats.sales_fetched + count,
                sales_from_real_nbt: stats.sales_from_real_nbt + with_nbt,
                sales_from_reconstruction: stats.sales_from_reconstruction + (count - with_nbt),
                ..stats
            },
        };
        assert(self@ =~= before.after_page(fresh));
    }

    /// Takes in that a page could not be fetched.
    pub fn page_failed(&mut self)
        requires
            old(self)@.wants_page(),
        ensures
            final(self)@ == old(self)@.after_failure(),
    {
        proof {
            use_type_invariant(&*self);
        }
        let ghost before = self@;
        let mut taken = Backfill::new(Vec::new(), 0);
        std::mem::swap(self, &mut taken);
        let Backfill { item_tags, pages_per_tag, tag, page, open, requested, sales, stats } = taken;
        *self = Backfill {
            item_tags,
            pages_per_tag,
            tag,
            page,
            open: false,
            requested,
            sales,
            stats: ImportStats { fetch_errors: stats.fetch_errors + 1, ..stats },
        };
        assert(self@ =~= before.after_failure());
    }
}

/// The position after some pages in turn.
pub open spec fn after_pages(position: Position, pages: Seq<Seq<HistoricalSale>>) -> Position
    decreases pages.len(),
{
    if pages.len() == 0 {
        position
    } else {
        after_pages(position, pages.drop_last()).after_page(pages.last())
    }
}

/// Pages with sales add up: after each of them, as many as are asked for,
/// the crawl of the tag goes on with the next page and holds all their
/// sales in order.
pub proof fn law_pages_add_up(position: Position, pages: Seq<Seq<HistoricalSale>>)
    requires
        position.tag < position.tags.len(),
        position.open,
        position.page + pages.len() <= position.pages_per_tag,
        forall|i: int| 0 <= i < pages.len() ==> (#[trigger] pages[i]).len() > 0,
    ensures
        ({
            let after = after_pages(position, pages);
            &&& after.open
            &&& after.tags == position.tags
            &&& after.pages_per_tag == position.pages_per_tag
            &&& after.tag == position.tag
            &&& after.page == position.page + pages.len()
            &&& after.sales == position.sales + pages.flatten()
            &&& after.wants_page() <==> position.page + pages.len() < position.pages_per_tag
        }),
    decreases pages.len(),
{
    if pages.len() > 0 {
        let fewer = pages.drop_last();
        assert forall|i: int| 0 <= i < fewer.len() implies (#[trigger] fewer[i]).len() > 0 by {
            assert(fewer[i] == pages[i]);
        }
        law_pages_add_up(position, fewer);
        assert(pages[pages.len() - 1].len() > 0);
        assert(pages =~= fewer.push(pages.last()));
        pages.lemma_flatten_and_flatten_alt_are_equivalent();
        fewer.lemma_flatten_and_flatten_alt_are_equivalent();
        assert(after_pages(position, pages).sales =~= position.sales + pages.flatten());
    } else {
        assert(position.sales + pages.flatten() =~= position.sales);
    }
}

/// An empty page or a failed one ends the tag with the sales so far.
pub proof fn law_a_gap_ends_the_tag(position: Position)
    ensures
        !position.after_page(Seq::empty()).wants_page(),
        position.after_page(Seq::empty()).sales == position.sales,
        !position.after_failure().wants_page(),
        position.after_failure().sales == position.sales,
{
}

/// How many seconds after a crawl the next one starts, for an interval in
/// minutes; an interval of zero means that there is none.
pub fn repeat_after_seconds(minutes: u64) -> (seconds: Option<u64>)
    ensures
        seconds == if minutes == 0 {
            None
        } else if minutes * 60 <= u64::MAX {
            Some((minutes * 60) as u64)
        } else {
            Some(u64::MAX)
        },
{
    if minutes == 0 {
        return None;
    }
    match minutes.checked_mul(60) {
        Some(seconds) => Some(seconds),
        None => Some(u64::MAX),
    }
}

} // verus!
