use skyblock_flipper::auction::{AuctionPageResponse, RawAuction};
use skyblock_flipper::ingestion::{
    accept_page, assemble, page_url, remaining_pages, IngestionError, Poll, TickPoller,
};
use skyblock_flipper::notify::{
    on_feed_event, source_label, tier_label, FeedAction, FeedEvent,
};
use skyblock_flipper::parser::ParsedItem;
use skyblock_flipper::pricing::{PriceSource, PriceTier};
use skyblock_flipper::storage::rows;

fn auction(uuid: &str) -> RawAuction {
    RawAuction {
        uuid: uuid.to_string(),
        auctioneer: "seller-uuid".to_string(),
        item_name: "Hyperion".to_string(),
        starting_bid: 900_000_000,
        item_bytes: "base64gzipdata==".to_string(),
        bin: Some(true),
        end: 1_690_003_600_000,
    }
}

fn page(page: u32, total_pages: u32, last_updated: i64, uuids: &[&str]) -> AuctionPageResponse {
    AuctionPageResponse {
        success: true,
        page,
        total_pages,
        total_auctions: uuids.len() as u64,
        last_updated,
        auctions: uuids.iter().map(|u| auction(u)).collect(),
    }
}

#[test]
fn detects_new_tick_and_assembles_full_snapshot() {
    let mut poller = TickPoller { last_known_tick: 1_000 };
    assert!(matches!(poller.look_at(page(0, 2, 1_000, &["stale-a"])), Poll::Wait));
    assert!(matches!(poller.look_at(page(0, 2, 1_000, &["stale-a"])), Poll::Wait));
    let (first_page, pages) = match poller.look_at(page(0, 2, 2_000, &["fresh-a"])) {
        Poll::NewTick { first_page, pages } => (first_page, pages),
        Poll::Wait => panic!("expected a new tick"),
    };
    assert_eq!(pages, vec![1]);
    assert_eq!(poller.last_known_tick, 2_000);

    let snapshot = assemble(first_page, vec![Some(page(1, 2, 2_000, &["fresh-b"]))]);
    assert_eq!(snapshot.last_updated, 2_000);
    assert_eq!(snapshot.auctions.len(), 2);
    let uuids: Vec<&str> = snapshot.auctions.iter().map(|a| a.uuid.as_str()).collect();
    assert!(uuids.contains(&"fresh-a"));
    assert!(uuids.contains(&"fresh-b"));
}

#[test]
fn an_earlier_timestamp_is_a_new_tick_too() {
    let mut poller = TickPoller { last_known_tick: 5 };
    assert!(matches!(poller.look_at(page(0, 1, 4, &[])), Poll::NewTick { .. }));
}

#[test]
fn failed_pages_are_left_out_and_later_ones_kept_in_order() {
    let rest = vec![Some(page(1, 4, 9, &["b", "c"])), None, Some(page(3, 4, 7, &["d"]))];
    let snapshot = assemble(page(0, 4, 7, &["a"]), rest);
    let uuids: Vec<&str> = snapshot.auctions.iter().map(|a| a.uuid.as_str()).collect();
    assert_eq!(uuids, vec!["a", "b", "c", "d"]);
    assert_eq!(snapshot.last_updated, 7);
}

#[test]
fn the_first_page_is_not_fetched_again() {
    assert!(remaining_pages(0).is_empty());
    assert!(remaining_pages(1).is_empty());
    assert_eq!(remaining_pages(4), vec![1, 2, 3]);
}

#[test]
fn an_unsuccessful_page_is_refused() {
    assert!(accept_page(3, page(3, 4, 1, &[])).is_ok());
    let mut bad = page(3, 4, 1, &[]);
    bad.success = false;
    assert_eq!(
        accept_page(3, bad).unwrap_err(),
        IngestionError::ApiUnsuccessful { page: 3 }
    );
}

#[test]
fn the_address_of_a_page_names_its_number() {
    assert_eq!(page_url("http://x", 0), "http://x/skyblock/auctions?page=0");
    assert_eq!(page_url("http://x", 4_294_967_295), "http://x/skyblock/auctions?page=4294967295");
}

#[test]
fn rows_store_what_was_seen() {
    let item = ParsedItem {
        uuid: "u".to_string(),
        auctioneer: "s".to_string(),
        skyblock_item_id: "HYPERION".to_string(),
        display_name: "Hyperion".to_string(),
        count: -1,
        starting_bid: u64::MAX,
        bin: true,
        end: 7,
        extra_attributes: None,
    };
    let stored = rows(1_000, 2_000, &vec![item]);
    assert_eq!(stored.len(), 1);
    assert_eq!(stored[0].uuid, "u");
    assert_eq!(stored[0].tick, 1_000);
    assert_eq!(stored[0].auctioneer, "s");
    assert_eq!(stored[0].skyblock_item_id, "HYPERION");
    assert_eq!(stored[0].display_name, "Hyperion");
    assert_eq!(stored[0].item_count, -1);
    assert_eq!(stored[0].starting_bid, -1);
    assert!(stored[0].bin);
    assert_eq!(stored[0].end_time, 7);
    assert_eq!(stored[0].observed_at, 2_000);
    assert!(rows(1, 2, &Vec::new()).is_empty());
}

#[test]
fn a_feed_delivers_alerts_and_ignores_what_clients_send() {
    assert_eq!(on_feed_event(FeedEvent::Alert), FeedAction::Deliver);
    assert_eq!(on_feed_event(FeedEvent::Lagged), FeedAction::Continue);
    assert_eq!(on_feed_event(FeedEvent::ClientFrame), FeedAction::Continue);
    assert_eq!(on_feed_event(FeedEvent::ClientGone), FeedAction::Disconnect);
    assert_eq!(on_feed_event(FeedEvent::Ended), FeedAction::Disconnect);
}

#[test]
fn alerts_name_tier_and_source() {
    assert_eq!(tier_label(PriceTier::Exact), "Exact");
    assert_eq!(tier_label(PriceTier::MajorModifiers), "Major");
    assert_eq!(tier_label(PriceTier::BaseItem), "Base");
    assert_eq!(source_label(PriceSource::Live), "Live");
    assert_eq!(source_label(PriceSource::Historical), "COFL");
}
