//! Verified core of a SkyBlock auction-house flip finder.

pub mod auction;
pub mod backfill;
pub mod batch;
pub mod cache;
pub mod calendar;
pub mod cofl;
pub mod config;
pub mod diff;
pub mod encoding;
pub mod engine;
pub mod fingerprint;
pub mod grouping;
pub mod ingestion;
pub mod items;
pub mod nbt;
pub mod notify;
pub mod order;
pub mod parser;
pub mod pipeline;
pub mod pricing;
pub mod reports;
pub mod seeding;
pub mod shards;
pub mod shared;
pub mod stats;
pub mod storage;
pub mod table;
pub mod tags;
pub mod text;
pub mod ticks;

