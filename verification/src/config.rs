//! Runtime configuration from named settings.

use crate::text::{
    integer_within, law_only_white_space_is_trimmed, parse_unsigned, same_text, split, split_text,
    texts, trim, trimmed, white_space,
};
use vstd::prelude::*;

verus! {

/// The items whose past sales are crawled by default: endgame weapons and
/// accessories, which bring the rare large flips, and enchanted materials,
/// which are traded in great numbers.
pub const DEFAULT_COFL_BACKFILL_ITEM_TAGS: &'static str = "HYPERION,VALKYRIE,ASTRAEA,SCYLLA,NECRON_HANDLE,ASPECT_OF_THE_END,ASPECT_OF_THE_VOID,ASPECT_OF_THE_DRAGONS,LIVID_DAGGER,SHADOW_FURY,GIANTS_SWORD,MIDAS_SWORD,VOODOO_DOLL,SPIRIT_SCEPTRE,SILENT_DEATH,TERMINATOR,JUJU_SHORTBOW,RUNAANS_BOW,MOSQUITO_BOW,BONZO_STAFF,REAPER_FALCHION,PIGMAN_SWORD,ZOMBIE_SWORD,PRISMARINE_BLADE,YETI_SWORD,RAIDER_AXE,EXECUTIVE_AXE,HYPERSONIC_WAND,FLOWER_OF_TRUTH,ICE_SPRAY_WAND,TACTICIAN_SWORD,POOCH_SWORD,EMPEROR_SWORD,SPIDER_QUEEN_STINGER,HEGEMONY_ARTIFACT,WITHER_ARTIFACT,SPEED_TALISMAN,INTIMIDATION_TALISMAN,RING_OF_LOVE,HEALING_RING,POTION_AFFINITY_TALISMAN,CAMPFIRE_TALISMAN,ENCHANTED_COAL,ENCHANTED_IRON,ENCHANTED_GOLD,ENCHANTED_DIAMOND,ENCHANTED_LAPIS_LAZULI,ENCHANTED_REDSTONE,ENCHANTED_EMERALD,ENCHANTED_QUARTZ,ENCHANTED_GLOWSTONE_DUST,ENCHANTED_OBSIDIAN,ENCHANTED_ENDER_PEARL,ENCHANTED_SLIME_BALL,ENCHANTED_SUGAR_CANE,ENCHANTED_SUGAR,ENCHANTED_CACTUS_GREEN,ENCHANTED_CACTUS,ENCHANTED_MELON,ENCHANTED_MELON_BLOCK,ENCHANTED_PUMPKIN,ENCHANTED_RAW_RABBIT,ENCHANTED_RABBIT_HIDE,ENCHANTED_LEATHER,ENCHANTED_MUTTON,ENCHANTED_RAW_CHICKEN,ENCHANTED_COOKED_CHICKEN,ENCHANTED_EGG,ENCHANTED_FEATHER,ENCHANTED_RAW_BEEF,ENCHANTED_RAW_PORKCHOP,ENCHANTED_RAW_FISH,ENCHANTED_RAW_SALMON,ENCHANTED_PUFFERFISH,ENCHANTED_CLOWNFISH,ENCHANTED_PRISMARINE_SHARD,ENCHANTED_PRISMARINE_CRYSTAL,ENCHANTED_SPONGE,ENCHANTED_BONE,ENCHANTED_BONE_BLOCK,ENCHANTED_ROTTEN_FLESH,ENCHANTED_STRING,ENCHANTED_SPIDER_EYE,ENCHANTED_GUNPOWDER,ENCHANTED_NETHERRACK,ENCHANTED_NETHER_STALK,ENCHANTED_BLAZE_ROD,ENCHANTED_MAGMA_CREAM,ENCHANTED_GHAST_TEAR,ENCHANTED_ENDSTONE,ENCHANTED_COBBLESTONE,ENCHANTED_STONE,ENCHANTED_NETHER_BRICK,ENCHANTED_CLAY_BALL,ENCHANTED_CLAY_BLOCK,ENCHANTED_SNOWBALL,ENCHANTED_ICE,ENCHANTED_HAY_BLOCK,ENCHANTED_WHEAT,ENCHANTED_BREAD,ENCHANTED_CARROT,ENCHANTED_POTATO,ENCHANTED_BAKED_POTATO";

/// The settings as they were given; any of them may be missing.
pub struct Settings {
    /// `HYPIXEL_API_KEY`
    pub hypixel_api_key: Option<String>,
    /// `HYPIXEL_BASE_URL`
    pub hypixel_base_url: Option<String>,
    /// `TICK_POLL_INTERVAL_MS`
    pub tick_poll_interval_ms: Option<String>,
    /// `REQUEST_TIMEOUT_MS`
    pub request_timeout_ms: Option<String>,
    /// `STORAGE_DB_PATH`
    pub storage_db_path: Option<String>,
    /// `WEBSOCKET_BIND_ADDR`
    pub websocket_bind_addr: Option<String>,
    /// `COFL_BACKFILL_ENABLED`
    pub cofl_backfill_enabled: Option<String>,
    /// `COFL_BASE_URL`
    pub cofl_base_url: Option<String>,
    /// `COFL_BACKFILL_ITEM_TAGS`
    pub cofl_backfill_item_tags: Option<String>,
    /// `COFL_BACKFILL_PAGES_PER_TAG`
    pub cofl_backfill_pages_per_tag: Option<String>,
    /// `COFL_BACKFILL_INTERVAL_MINUTES`
    pub cofl_backfill_interval_minutes: Option<String>,
}

/// Runtime configuration.
#[derive(Debug, Clone)]
pub struct Config {
    pub hypixel_api_key: String,
    pub hypixel_base_url: String,
    /// How often to ask whether there is a new tick, in milliseconds.
    pub tick_poll_interval_ms: u64,
    /// How long to wait for an answer, in milliseconds.
    pub request_timeout_ms: u64,
    /// Path of the database file.
    pub storage_db_path: String,
    /// Address that flips are sent from.
    pub websocket_bind_addr: String,
    /// Whether past sales are crawled at all.
    pub cofl_backfill_enabled: bool,
    pub cofl_base_url: String,
    /// The items whose past sales are crawled.
    pub cofl_backfill_item_tags: Vec<String>,
    /// How many pages of past sales are asked for per item.
    pub cofl_backfill_pages_per_tag: u32,
    /// How often the crawl is repeated, in minutes; zero means never.
    pub cofl_backfill_interval_minutes: u64,
}

/// Why settings are not a configuration.
#[derive(Debug)]
pub enum ConfigError {
    /// A required setting is missing: its name.
    MissingVar(String),
    /// A setting has an invalid value: its name, and what was expected.
    InvalidVar(String, String),
}

impl ConfigError {
    /// The error as a message.
    pub fn message(&self) -> (text: String)
        ensures
            match *self {
                ConfigError::MissingVar(name) => text@
                    == "missing required environment variable: "@ + name@,
                ConfigError::InvalidVar(name, expected) => text@
                    == "invalid value for environment variable "@ + name@ + ": "@ + expected@,
            },
    {
        match self {
            ConfigError::MissingVar(name) => {
                let mut text = "missing required environment variable: ".to_owned();
                text.append(name.as_str());
                text
            },
            ConfigError::InvalidVar(name, expected) => {
                let mut text = "invalid value for environment variable ".to_owned();
                text.append(name.as_str());
                text.append(": ");
                text.append(expected.as_str());
                text
            },
        }
    }
}

/// A text setting, or its default.
pub open spec fn text_or(value: Option<String>, default: Seq<char>) -> Seq<char> {
    match value {
        Some(s) => s@,
        None => default,
    }
}

/// A number setting of at most `max`, or its default; none where the
/// setting is no such number.
pub open spec fn number_or(value: Option<String>, max: u64, default: u64) -> Option<int> {
    match value {
        Some(s) => integer_within(s@, 0, max as int),
        None => Some(default as int),
    }
}

/// A flag setting, or true; none where the setting is no flag.
pub open spec fn flag_or_true(value: Option<String>) -> Option<bool> {
    match value {
        Some(s) => if s@ == "true"@ {
            Some(true)
        } else if s@ == "false"@ {
            Some(false)
        } else {
            None
        },
        None => Some(true),
    }
}

/// The members of a list without white space around them, but for those
/// that are nothing else.
pub open spec fn tidied(list: Seq<Seq<char>>) -> Seq<Seq<char>>
    decreases list.len(),
{
    if list.len() == 0 {
        Seq::empty()
    } else {
        let before = tidied(list.drop_last());
        if trimmed(list.last()).len() > 0 {
            before.push(trimmed(list.last()))
        } else {
            before
        }
    }
}

/// The first setting that does not hold what is expected: its name, and
/// what is expected, or none where it is missing altogether.
pub open spec fn first_fault(settings: Settings) -> Option<(Seq<char>, Option<Seq<char>>)> {
    let millis = "expected an integer number of milliseconds"@;
    if settings.hypixel_api_key is None {
        Some(("HYPIXEL_API_KEY"@, None))
    } else if number_or(settings.tick_poll_interval_ms, u64::MAX, 750) is None {
        Some(("TICK_POLL_INTERVAL_MS"@, Some(millis)))
    } else if number_or(settings.request_timeout_ms, u64::MAX, 5000) is None {
        Some(("REQUEST_TIMEOUT_MS"@, Some(millis)))
    } else if flag_or_true(settings.cofl_backfill_enabled) is None {
        Some(("COFL_BACKFILL_ENABLED"@, Some("expected \"true\" or \"false\""@)))
    } else if number_or(settings.cofl_backfill_pages_per_tag, u32::MAX as u64, 3) is None {
        Some(("COFL_BACKFILL_PAGES_PER_TAG"@, Some("expected a non-negative integer"@)))
    } else if number_or(settings.cofl_backfill_interval_minutes, u64::MAX, 60) is None {
        Some(
            (
                "COFL_BACKFILL_INTERVAL_MINUTES"@,
                Some(
                    "expected a non-negative integer number of minutes (0 disables the repeat)"@,
                ),
            ),
        )
    } else {
        None
    }
}

/// `config` is what the settings say, with defaults for what is missing.
pub open spec fn configured(config: Config, settings: Settings) -> bool {
    &&& settings.hypixel_api_key matches Some(key) && config.hypixel_api_key@ == key@
    &&& config.hypixel_base_url@ == text_or(
        settings.hypixel_base_url,
        "https://api.hypixel.net"@,
    )
    &&& number_or(settings.tick_poll_interval_ms, u64::MAX, 750) == Some(
        config.tick_poll_interval_ms as int,
    )
    &&& number_or(settings.request_timeout_ms, u64::MAX, 5000) == Some(
        config.request_timeout_ms as int,
    )
    &&& config.storage_db_path@ == text_or(settings.storage_db_path, "auctions.sqlite3"@)
    &&& config.websocket_bind_addr@ == text_or(settings.websocket_bind_addr, "127.0.0.1:9001"@)
    &&& flag_or_true(settings.cofl_backfill_enabled) == Some(config.cofl_backfill_enabled)
    &&& config.cofl_base_url@ == text_or(settings.cofl_base_url, "https://sky.coflnet.com/api"@)
    &&& texts(config.cofl_backfill_item_tags@) == tidied(
        split(text_or(settings.cofl_backfill_item_tags, DEFAULT_COFL_BACKFILL_ITEM_TAGS@), ','),
    )
    &&& number_or(settings.cofl_backfill_pages_per_tag, u32::MAX as u64, 3) == Some(
        config.cofl_backfill_pages_per_tag as int,
    )
    &&& number_or(settings.cofl_backfill_interval_minutes, u64::MAX, 60) == Some(
        config.cofl_backfill_interval_minutes as int,
    )
}

fn text_setting(value: Option<String>, default: &str) -> (text: String)
    ensures
        text@ == text_or(value, default@),
{
    match value {
        Some(s) => s,
        None => default.to_owned(),
    }
}

fn number_setting(value: &Option<String>, max: u64, default: u64) -> (n: Option<u64>)
    ensures
        match n {
            Some(n) => number_or(*value, max, default) == Some(n as int),
            None => number_or(*value, max, default) is None,
        },
{
    match value {
        Some(s) => parse_unsigned(s.as_str(), max),
        None => Some(default),
    }
}

fn flag_setting(value: &Option<String>) -> (flag: Option<bool>)
    ensures
        flag == flag_or_true(*value),
{
    match value {
        Some(s) => if same_text(s.as_str(), "true") {
            Some(true)
        } else if same_text(s.as_str(), "false") {
            Some(false)
        } else {
            None
        },
        None => Some(true),
    }
}

/// The members of a comma-separated list without white space around them;
/// empty ones are left out.
pub fn tag_list(text: &str) -> (tags: Vec<String>)
    ensures
        texts(tags@) == tidied(split(text@, ',')),
{
    let pieces = split_text(text, ',');
    let ghost list = split(text@, ',');
    let mut tags: Vec<String> = Vec::new();
    let n: usize = pieces.len();
    assert(texts(tags@) =~= tidied(list.take(0)));
    for i in 0..n
        invariant
            n == pieces@.len(),
            list == texts(pieces@),
            texts(tags@) == tidied(list.take(i as int)),
    {
        assert(list.take(i + 1).drop_last() =~= list.take(i as int));
        let tag = trim(pieces[i].as_str());
        let ghost before = texts(tags@);
        if !tag.as_str().is_empty() {
            let ghost text = tag@;
            tags.push(tag);
            assert(texts(tags@) =~= before.push(text));
        }
    }
    assert(list.take(n as int) =~= list);
    tags
}

fn invalid(name: &str, expected: &str) -> (error: ConfigError)
    ensures
        error matches ConfigError::InvalidVar(n, e) && n@ == name@ && e@ == expected@,
{
    ConfigError::InvalidVar(name.to_owned(), expected.to_owned())
}

impl Config {
    /// Reads the configuration from settings.
    pub fn from_settings(settings: Settings) -> (config: Result<Config, ConfigError>)
        ensures
            match config {
                Ok(config) => first_fault(settings) is None && configured(config, settings),
                Err(ConfigError::MissingVar(name)) => first_fault(settings) == Some(
                    (name@, None::<Seq<char>>),
                ),
                Err(ConfigError::InvalidVar(name, expected)) => first_fault(settings) == Some(
                    (name@, Some(expected@)),
                ),
            },
    {
        let hypixel_api_key = match settings.hypixel_api_key {
            Some(key) => key,
            None => return Err(ConfigError::MissingVar("HYPIXEL_API_KEY".to_owned())),
        };
        let tick_poll_interval_ms: u64 = match number_setting(
            &settings.tick_poll_interval_ms,
            u64::MAX,
            750,
        ) {
            Some(n) => n,
            None => return Err(
                invalid("TICK_POLL_INTERVAL_MS", "expected an integer number of milliseconds"),
            ),
        };
        let request_timeout_ms: u64 = match number_setting(
            &settings.request_timeout_ms,
            u64::MAX,
            5000,
        ) {
            Some(n) => n,
            None => return Err(
                invalid("REQUEST_TIMEOUT_MS", "expected an integer number of milliseconds"),
            ),
        };
        let cofl_backfill_enabled = match flag_setting(&settings.cofl_backfill_enabled) {
            Some(flag) => flag,
            None => return Err(
                invalid("COFL_BACKFILL_ENABLED", "expected \"true\" or \"false\""),
            ),
        };
        let cofl_backfill_pages_per_tag: u32 = match number_setting(
            &settings.cofl_backfill_pages_per_tag,
            u32::MAX as u64,
            3,
        ) {
            Some(n) => n as u32,
            None => return Err(
                invalid("COFL_BACKFILL_PAGES_PER_TAG", "expected a non-negative integer"),
            ),
        };
        let cofl_backfill_interval_minutes: u64 = match number_setting(
            &settings.cofl_backfill_interval_minutes,
            u64::MAX,
            60,
        ) {
            Some(n) => n,
            None => return Err(
                invalid(
                    "COFL_BACKFILL_INTERVAL_MINUTES",
                    "expected a non-negative integer number of minutes (0 disables the repeat)",
                ),
            ),
        };
        let tags = text_setting(settings.cofl_backfill_item_tags, DEFAULT_COFL_BACKFILL_ITEM_TAGS);
        Ok(
            Config {
                hypixel_api_key,
                hypixel_base_url: text_setting(
                    settings.hypixel_base_url,
                    "https://api.hypixel.net",
                ),
                tick_poll_interval_ms,
                request_timeout_ms,
                storage_db_path: text_setting(settings.storage_db_path, "auctions.sqlite3"),
                websocket_bind_addr: text_setting(settings.websocket_bind_addr, "127.0.0.1:9001"),
                cofl_backfill_enabled,
                cofl_base_url: text_setting(settings.cofl_base_url, "https://sky.coflnet.com/api"),
                cofl_backfill_item_tags: tag_list(tags.as_str()),
                cofl_backfill_pages_per_tag,
                cofl_backfill_interval_minutes,
            },
        )
    }
}

/// What a configuration takes from the settings: each value from the setting
/// of its name, read as what it is, or else its default.
pub proof fn law_what_is_configured(config: Config, settings: Settings)
    requires
        configured(config, settings),
    ensures
        settings.hypixel_api_key is Some,
        config.hypixel_api_key@ == settings.hypixel_api_key->0@,
        settings.hypixel_base_url matches Some(s) ==> config.hypixel_base_url@ == s@,
        settings.hypixel_base_url is None ==> config.hypixel_base_url@
            == "https://api.hypixel.net"@,
        settings.storage_db_path matches Some(s) ==> config.storage_db_path@ == s@,
        settings.storage_db_path is None ==> config.storage_db_path@ == "auctions.sqlite3"@,
        settings.websocket_bind_addr matches Some(s) ==> config.websocket_bind_addr@ == s@,
        settings.websocket_bind_addr is None ==> config.websocket_bind_addr@ == "127.0.0.1:9001"@,
        settings.cofl_base_url matches Some(s) ==> config.cofl_base_url@ == s@,
        settings.cofl_base_url is None ==> config.cofl_base_url@
            == "https://sky.coflnet.com/api"@,
        settings.tick_poll_interval_ms is None ==> config.tick_poll_interval_ms == 750,
        settings.tick_poll_interval_ms matches Some(s) ==> integer_within(
            s@,
            0,
            u64::MAX as int,
        ) == Some(config.tick_poll_interval_ms as int),
        settings.request_timeout_ms is None ==> config.request_timeout_ms == 5000,
        settings.request_timeout_ms matches Some(s) ==> integer_within(
            s@,
            0,
            u64::MAX as int,
        ) == Some(config.request_timeout_ms as int),
        settings.cofl_backfill_pages_per_tag is None ==> config.cofl_backfill_pages_per_tag == 3,
        settings.cofl_backfill_pages_per_tag matches Some(s) ==> integer_within(
            s@,
            0,
            u32::MAX as int,
        ) == Some(config.cofl_backfill_pages_per_tag as int),
        settings.cofl_backfill_interval_minutes is None ==> config.cofl_backfill_interval_minutes
            == 60,
        settings.cofl_backfill_interval_minutes matches Some(s) ==> integer_within(
            s@,
            0,
            u64::MAX as int,
        ) == Some(config.cofl_backfill_interval_minutes as int),
        settings.cofl_backfill_enabled is None ==> config.cofl_backfill_enabled,
        settings.cofl_backfill_enabled matches Some(s) ==> s@ == (if config.cofl_backfill_enabled {
            "true"@
        } else {
            "false"@
        }),
        settings.cofl_backfill_item_tags matches Some(s) ==> texts(config.cofl_backfill_item_tags@)
            == tidied(split(s@, ',')),
        settings.cofl_backfill_item_tags is None ==> texts(config.cofl_backfill_item_tags@)
            == tidied(split(DEFAULT_COFL_BACKFILL_ITEM_TAGS@, ',')),
{
}

/// A number setting that is there but spells no number of at most `max`.
pub open spec fn misspelled(value: Option<String>, max: int) -> bool {
    value is Some && integer_within(value->0@, 0, max) is None
}

/// The fault is a setting of this name, which is there but not as expected.
pub open spec fn blames(
    fault: Option<(Seq<char>, Option<Seq<char>>)>,
    name: Seq<char>,
    expected: Seq<char>,
) -> bool {
    fault == Some((name, Some(expected)))
}

/// Settings are refused by the first that is wrong, in a fixed order: the
/// key that must be there, the two intervals in milliseconds, whether the
/// crawl is on, its pages and its repeat. Each says what was expected of it.
/// Where none is wrong, there is no fault.
pub proof fn law_the_first_fault_is_named(settings: Settings)
    ensures
        ({
            let no_key = settings.hypixel_api_key is None;
            let poll = misspelled(settings.tick_poll_interval_ms, u64::MAX as int);
            let timeout = misspelled(settings.request_timeout_ms, u64::MAX as int);
            let flag = settings.cofl_backfill_enabled matches Some(s) && s@ != "true"@ && s@
                != "false"@;
            let pages = misspelled(settings.cofl_backfill_pages_per_tag, u32::MAX as int);
            let repeat = misspelled(settings.cofl_backfill_interval_minutes, u64::MAX as int);
            let fault = first_fault(settings);
            &&& no_key ==> fault == Some(("HYPIXEL_API_KEY"@, None::<Seq<char>>))
            &&& !no_key && poll ==> blames(
                fault,
                "TICK_POLL_INTERVAL_MS"@,
                "expected an integer number of milliseconds"@,
            )
            &&& !no_key && !poll && timeout ==> blames(
                fault,
                "REQUEST_TIMEOUT_MS"@,
                "expected an integer number of milliseconds"@,
            )
            &&& !no_key && !poll && !timeout && flag ==> blames(
                fault,
                "COFL_BACKFILL_ENABLED"@,
                "expected \"true\" or \"false\""@,
            )
            &&& !no_key && !poll && !timeout && !flag && pages ==> blames(
                fault,
                "COFL_BACKFILL_PAGES_PER_TAG"@,
                "expected a non-negative integer"@,
            )
            &&& !no_key && !poll && !timeout && !flag && !pages && repeat ==> blames(
                fault,
                "COFL_BACKFILL_INTERVAL_MINUTES"@,
                "expected a non-negative integer number of minutes (0 disables the repeat)"@,
            )
            &&& fault is None <==> !no_key && !poll && !timeout && !flag && !pages && !repeat
        }),
{
}

/// A list of tags, member by member: a member counts without the white
/// space around it, and not at all where it is nothing else.
pub proof fn law_tags_one_by_one(
    list: Seq<Seq<char>>,
    before: Seq<char>,
    tag: Seq<char>,
    after: Seq<char>,
)
    requires
        forall|i: int| 0 <= i < before.len() ==> white_space(#[trigger] before[i]),
        forall|i: int| 0 <= i < after.len() ==> white_space(#[trigger] after[i]),
        tag.len() > 0 ==> !white_space(tag.first()) && !white_space(tag.last()),
    ensures
        tidied(Seq::<Seq<char>>::empty()).len() == 0,
        tag.len() > 0 ==> tidied(list.push(before + tag + after)) == tidied(list).push(tag),
        tag.len() == 0 ==> tidied(list.push(before + tag + after)) == tidied(list),
{
    law_only_white_space_is_trimmed(before, tag, after);
    assert(list.push(before + tag + after).drop_last() =~= list);
}

} // verus!
