use skyblock_flipper::config::{tag_list, Config, ConfigError, Settings};

fn settings() -> Settings {
    Settings {
        hypixel_api_key: Some("key".to_string()),
        hypixel_base_url: None,
        tick_poll_interval_ms: None,
        request_timeout_ms: None,
        storage_db_path: None,
        websocket_bind_addr: None,
        cofl_backfill_enabled: None,
        cofl_base_url: None,
        cofl_backfill_item_tags: None,
        cofl_backfill_pages_per_tag: None,
        cofl_backfill_interval_minutes: None,
    }
}

fn some(s: &str) -> Option<String> {
    Some(s.to_string())
}

fn fault(settings: Settings) -> (String, Option<String>) {
    match Config::from_settings(settings).unwrap_err() {
        ConfigError::MissingVar(name) => (name, None),
        ConfigError::InvalidVar(name, expected) => (name, Some(expected)),
    }
}

#[test]
fn the_key_alone_is_enough() {
    let config = Config::from_settings(settings()).unwrap();
    assert_eq!(config.hypixel_api_key, "key");
    assert_eq!(config.hypixel_base_url, "https://api.hypixel.net");
    assert_eq!(config.tick_poll_interval_ms, 750);
    assert_eq!(config.request_timeout_ms, 5000);
    assert_eq!(config.storage_db_path, "auctions.sqlite3");
    assert_eq!(config.websocket_bind_addr, "127.0.0.1:9001");
    assert!(config.cofl_backfill_enabled);
    assert_eq!(config.cofl_base_url, "https://sky.coflnet.com/api");
    assert_eq!(config.cofl_backfill_pages_per_tag, 3);
    assert_eq!(config.cofl_backfill_interval_minutes, 60);
    let tags = config.cofl_backfill_item_tags;
    assert!(tags.len() > 90);
    assert_eq!(tags[0], "HYPERION");
    assert_eq!(tags[tags.len() - 1], "ENCHANTED_BAKED_POTATO");
}

#[test]
fn settings_override_the_defaults() {
    let config = Config::from_settings(Settings {
        hypixel_base_url: some("http://x"),
        tick_poll_interval_ms: some("+10"),
        request_timeout_ms: some("0"),
        storage_db_path: some(""),
        websocket_bind_addr: some("0.0.0.0:1"),
        cofl_backfill_enabled: some("false"),
        cofl_base_url: some("http://y"),
        cofl_backfill_item_tags: some(" A, B ,,\tC"),
        cofl_backfill_pages_per_tag: some("4294967295"),
        cofl_backfill_interval_minutes: some("18446744073709551615"),
        ..settings()
    })
    .unwrap();
    assert_eq!(config.hypixel_base_url, "http://x");
    assert_eq!(config.tick_poll_interval_ms, 10);
    assert_eq!(config.request_timeout_ms, 0);
    assert_eq!(config.storage_db_path, "");
    assert_eq!(config.websocket_bind_addr, "0.0.0.0:1");
    assert!(!config.cofl_backfill_enabled);
    assert_eq!(config.cofl_base_url, "http://y");
    assert_eq!(config.cofl_backfill_item_tags, vec!["A", "B", "C"]);
    assert_eq!(config.cofl_backfill_pages_per_tag, u32::MAX);
    assert_eq!(config.cofl_backfill_interval_minutes, u64::MAX);
}

#[test]
fn a_missing_key_is_reported_first() {
    let given = Settings {
        hypixel_api_key: None,
        request_timeout_ms: some("x"),
        ..settings()
    };
    assert_eq!(fault(given), ("HYPIXEL_API_KEY".to_string(), None));
}

#[test]
fn invalid_settings_are_named_with_what_was_expected() {
    let millis = some("expected an integer number of milliseconds");
    let given = Settings {
        tick_poll_interval_ms: some("fast"),
        request_timeout_ms: some("x"),
        ..settings()
    };
    assert_eq!(fault(given), ("TICK_POLL_INTERVAL_MS".to_string(), millis.clone()));
    let given = Settings { request_timeout_ms: some("-1"), ..settings() };
    assert_eq!(fault(given), ("REQUEST_TIMEOUT_MS".to_string(), millis));
    let given = Settings { cofl_backfill_enabled: some("True"), ..settings() };
    assert_eq!(
        fault(given),
        (
            "COFL_BACKFILL_ENABLED".to_string(),
            some("expected \"true\" or \"false\"")
        )
    );
    let given = Settings { cofl_backfill_pages_per_tag: some("4294967296"), ..settings() };
    assert_eq!(
        fault(given),
        (
            "COFL_BACKFILL_PAGES_PER_TAG".to_string(),
            some("expected a non-negative integer")
        )
    );
    let given = Settings { cofl_backfill_interval_minutes: some(""), ..settings() };
    assert_eq!(
        fault(given),
        (
            "COFL_BACKFILL_INTERVAL_MINUTES".to_string(),
            some("expected a non-negative integer number of minutes (0 disables the repeat)")
        )
    );
}

#[test]
fn errors_have_messages() {
    assert_eq!(
        ConfigError::MissingVar("A".to_string()).message(),
        "missing required environment variable: A"
    );
    assert_eq!(
        ConfigError::InvalidVar("A".to_string(), "expected b".to_string()).message(),
        "invalid value for environment variable A: expected b"
    );
}

#[test]
fn lists_without_members_are_empty() {
    assert!(tag_list("").is_empty());
    assert!(tag_list(" , ,").is_empty());
}
