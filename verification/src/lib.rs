//! Verified core of the TipJar indexer, backup tools and royalty ledger.

pub mod text;
pub mod json;
pub mod event_listener;
pub mod api;
pub mod event_parser;
pub mod royalty;
pub mod checksum;
pub mod crypto;
pub mod types;
pub mod state_exporter;
pub mod storage;
pub mod state_importer;
pub mod backup_scheduler;
