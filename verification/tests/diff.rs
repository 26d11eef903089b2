use skyblock_flipper::auction::{AuctionSnapshot, RawAuction};
use skyblock_flipper::diff::DiffDetector;

fn auction(uuid: &str, starting_bid: u64, end: i64) -> RawAuction {
    RawAuction {
        uuid: uuid.to_string(),
        auctioneer: "seller".to_string(),
        item_name: "Hyperion".to_string(),
        starting_bid,
        item_bytes: "base64==".to_string(),
        bin: Some(true),
        end,
    }
}

#[test]
fn first_snapshot_emits_everything_as_new() {
    let mut detector = DiffDetector::new();
    let snapshot = AuctionSnapshot {
        last_updated: 1_000,
        auctions: vec![auction("a", 100, 2_000), auction("b", 200, 2_000)],
    };

    let changed = detector.diff(snapshot);
    assert_eq!(changed.len(), 2);
    assert_eq!(detector.tracked_count(), 2);
}

#[test]
fn unchanged_auction_is_filtered_out_on_next_tick() {
    let mut detector = DiffDetector::new();
    detector.diff(AuctionSnapshot {
        last_updated: 1_000,
        auctions: vec![auction("a", 100, 2_000)],
    });

    let changed = detector.diff(AuctionSnapshot {
        last_updated: 1_500,
        auctions: vec![auction("a", 100, 2_000)],
    });

    assert!(changed.is_empty());
}

#[test]
fn changed_starting_bid_is_emitted_again() {
    let mut detector = DiffDetector::new();
    detector.diff(AuctionSnapshot {
        last_updated: 1_000,
        auctions: vec![auction("a", 100, 2_000)],
    });

    let changed = detector.diff(AuctionSnapshot {
        last_updated: 1_500,
        auctions: vec![auction("a", 150, 2_000)],
    });

    assert_eq!(changed.len(), 1);
    assert_eq!(changed[0].starting_bid, 150);
}

#[test]
fn expired_auction_is_pruned_and_does_not_bloat_the_seen_set() {
    let mut detector = DiffDetector::new();
    detector.diff(AuctionSnapshot {
        last_updated: 1_000,
        auctions: vec![auction("a", 100, 1_200)],
    });

    let changed = detector.diff(AuctionSnapshot {
        last_updated: 1_500,
        auctions: vec![auction("b", 999, 3_000)],
    });

    assert_eq!(changed.len(), 1);
    assert_eq!(changed[0].uuid, "b");
    assert_eq!(detector.tracked_count(), 1);
}

#[test]
fn new_auction_among_unchanged_ones_is_isolated() {
    let mut detector = DiffDetector::new();
    detector.diff(AuctionSnapshot {
        last_updated: 1_000,
        auctions: vec![auction("a", 100, 5_000), auction("b", 200, 5_000)],
    });

    let changed = detector.diff(AuctionSnapshot {
        last_updated: 1_500,
        auctions: vec![
            auction("a", 100, 5_000),
            auction("b", 200, 5_000),
            auction("c", 300, 5_000),
        ],
    });

    assert_eq!(changed.len(), 1);
    assert_eq!(changed[0].uuid, "c");
}

#[test]
fn empty_snapshot_is_a_no_op() {
    let mut detector = DiffDetector::new();
    let changed = detector.diff(AuctionSnapshot {
        last_updated: 1_000,
        auctions: vec![],
    });

    assert!(changed.is_empty());
    assert_eq!(detector.tracked_count(), 0);
}

#[test]
fn the_last_listing_of_an_auction_is_remembered() {
    let mut detector = DiffDetector::new();
    let changed = detector.diff(AuctionSnapshot {
        last_updated: 1_000,
        auctions: vec![auction("a", 100, 2_000), auction("a", 150, 2_000)],
    });
    assert_eq!(changed.len(), 2);
    let changed = detector.diff(AuctionSnapshot {
        last_updated: 1_100,
        auctions: vec![auction("a", 150, 2_000)],
    });
    assert!(changed.is_empty());
    let changed = detector.diff(AuctionSnapshot {
        last_updated: 1_200,
        auctions: vec![auction("a", 150, 2_500)],
    });
    assert_eq!(changed.len(), 1);
    assert_eq!(detector.tracked_count(), 1);
}
