//! Rows of the auction history.

use crate::parser::ParsedItem;
use vstd::prelude::*;

verus! {

/// One stored sighting of an auction.
#[derive(Debug, Clone, PartialEq, Eq)]
pub struct AuctionRow {
    pub uuid: String,
    pub tick: i64,
    pub auctioneer: String,
    pub skyblock_item_id: String,
    pub display_name: String,
    pub item_count: i8,
    /// The bid in the two's complement that the database can hold.
    pub starting_bid: i64,
    pub bin: bool,
    pub end_time: i64,
    pub observed_at: i64,
}

impl AuctionRow {
    /// The row stores this auction as seen at this tick and time.
    pub open spec fn stores(self, item: ParsedItem, tick: i64, observed_at: i64) -> bool {
        &&& self.uuid@ == item.uuid@
        &&& self.tick == tick
        &&& self.auctioneer@ == item.auctioneer@
        &&& self.skyblock_item_id@ == item.skyblock_item_id@
        &&& self.display_name@ == item.display_name@
        &&& self.item_count == item.count
        &&& self.starting_bid == item.starting_bid as i64
        &&& self.bin == item.bin
        &&& self.end_time == item.end
        &&& self.observed_at == observed_at
    }
}

/// The rows that store a tick's auctions, one each and in their order.
pub fn rows(tick: i64, observed_at: i64, items: &Vec<ParsedItem>) -> (rows: Vec<AuctionRow>)
    ensures
        rows@.len() == items@.len(),
        forall|i: int|
            0 <= i < items@.len() ==> (#[trigger] rows@[i]).stores(items@[i], tick, observed_at),
{
    let mut rows: Vec<AuctionRow> = Vec::new();
    let n: usize = items.len();
    for i in 0..n
        invariant
            n == items@.len(),
            rows@.len() == i,
            forall|j: int|
                0 <= j < i ==> (#[trigger] rows@[j]).stores(items@[j], tick, observed_at),
    {
        let item = &items[i];
        rows.push(
            AuctionRow {
                uuid: item.uuid.clone(),
                tick,
                auctioneer: item.auctioneer.clone(),
                skyblock_item_id: item.skyblock_item_id.clone(),
                display_name: item.display_name.clone(),
                item_count: item.count,
                starting_bid: item.starting_bid as i64,
                bin: item.bin,
                end_time: item.end,
                observed_at,
            },
        );
    }
    rows
}

/// A row holds of its auction what the history is asked for, each in its own
/// column; a bid that the database can hold stands there as it is, and a
/// larger one as the negative number of the same bits.
pub proof fn law_a_row_stores_its_auction(
    row: AuctionRow,
    item: ParsedItem,
    tick: i64,
    observed_at: i64,
)
    requires
        row.stores(item, tick, observed_at),
    ensures
        row.uuid@ == item.uuid@,
        row.tick == tick,
        row.auctioneer@ == item.auctioneer@,
        row.skyblock_item_id@ == item.skyblock_item_id@,
        row.display_name@ == item.display_name@,
        row.item_count == item.count,
        item.starting_bid <= i64::MAX ==> row.starting_bid == item.starting_bid,
        item.starting_bid > i64::MAX ==> row.starting_bid == item.starting_bid - u64::MAX - 1,
        row.bin == item.bin,
        row.end_time == item.end,
        row.observed_at == observed_at,
{
    let bid = item.starting_bid;
    assert(bid > i64::MAX ==> bid as i64 == bid - u64::MAX - 1) by (bit_vector);
}

} // verus!
