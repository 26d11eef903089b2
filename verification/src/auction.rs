//! Auctions as the auction-house endpoint lists them.

use vstd::prelude::*;

verus! {

/// One listed auction, with the fields that flip detection needs.
#[derive(Debug, Clone)]
pub struct RawAuction {
    pub uuid: String,
    pub auctioneer: String,
    pub item_name: String,
    pub starting_bid: u64,
    /// Base64-encoded, gzip-compressed NBT.
    pub item_bytes: String,
    pub bin: Option<bool>,
    pub end: i64,
}

/// One page of the paginated auctions endpoint.
#[derive(Debug, Clone)]
pub struct AuctionPageResponse {
    pub success: bool,
    pub page: u32,
    pub total_pages: u32,
    pub total_auctions: u64,
    /// Unix milliseconds of the cache refresh that the page belongs to.
    pub last_updated: i64,
    pub auctions: Vec<RawAuction>,
}

/// Every page of one cache refresh, merged.
#[derive(Debug, Clone)]
pub struct AuctionSnapshot {
    pub last_updated: i64,
    pub auctions: Vec<RawAuction>,
}

} // verus!
