use skyblock_flipper::notify::{FlipAlert, FlipDeduplicator};

fn alert(uuid: &str, end: i64) -> FlipAlert<f64> {
    FlipAlert::new(
        uuid.to_string(),
        "Hyperion".to_string(),
        1_000_000,
        2_000_000,
        980_000,
        98.0,
        end,
        "Exact",
        "Live",
    )
}

#[test]
fn viewauction_command_is_formatted_from_the_uuid() {
    let a = alert("abc-123", 1_000);
    assert_eq!(a.viewauction_command, "/viewauction abc-123");
}

#[test]
fn first_occurrence_of_a_uuid_is_reported_as_new() {
    let mut dedup = FlipDeduplicator::new();
    let survivors = dedup.filter_new(vec![alert("a", 5_000)], 1_000);

    assert_eq!(survivors.len(), 1);
    assert_eq!(dedup.tracked_count(), 1);
}

#[test]
fn repeat_occurrence_in_a_later_batch_is_filtered_out() {
    let mut dedup = FlipDeduplicator::new();
    dedup.filter_new(vec![alert("a", 5_000)], 1_000);

    let survivors = dedup.filter_new(vec![alert("a", 5_000)], 1_500);
    assert!(survivors.is_empty());
}

#[test]
fn duplicate_uuid_within_the_same_batch_is_only_kept_once() {
    let mut dedup = FlipDeduplicator::new();
    let survivors = dedup.filter_new(vec![alert("a", 5_000), alert("a", 5_000)], 1_000);

    assert_eq!(survivors.len(), 1);
}

#[test]
fn distinct_uuids_in_the_same_batch_are_all_kept() {
    let mut dedup = FlipDeduplicator::new();
    let survivors = dedup.filter_new(
        vec![alert("a", 5_000), alert("b", 5_000), alert("c", 5_000)],
        1_000,
    );

    assert_eq!(survivors.len(), 3);
    assert_eq!(dedup.tracked_count(), 3);
}

#[test]
fn expired_auction_is_pruned_and_uuid_reuse_is_treated_as_new() {
    let mut dedup = FlipDeduplicator::new();
    dedup.filter_new(vec![alert("a", 1_200)], 1_000);

    dedup.filter_new(vec![alert("b", 5_000)], 1_500);
    assert_eq!(dedup.tracked_count(), 1);

    let survivors = dedup.filter_new(vec![alert("a", 5_000)], 1_600);
    assert_eq!(survivors.len(), 1);
}


#[test]
fn a_reported_auction_stays_silent_until_it_ends() {
    let mut dedup = FlipDeduplicator::new();
    assert_eq!(dedup.filter_new(vec![alert("a", 1_000)], 0).len(), 1);
    for tick in [1, 500, 999] {
        let survivors = dedup.filter_new(vec![alert("a", 1_000)], tick);
        assert!(survivors.is_empty());
    }
}
