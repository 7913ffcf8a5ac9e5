//! Traffic accounting for a home router: packet and TLS parsing, per-flow
//! tracking, application identification and per-day history.

pub mod text;
pub mod sni_parser;
pub mod types;
pub mod nflog_listener;
pub mod clock;
pub mod flow_tracker;
pub mod history_aggregator;
pub mod app_identifier;
pub mod config;
pub mod api_server;
pub mod nft_setup;
pub mod nftables_counter;
pub mod monitor;
pub mod persistence;
