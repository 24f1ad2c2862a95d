//! The rules of a broker and rates service: an admin API in which brokers are registered, a
//! collector that takes their live messages, a writer that keeps the latest rates, and a streamer
//! that sends every message to the connected clients.
//!
//! The library decides; the programs around it do the reading, writing and waiting.
pub mod admin;
pub mod admin_laws;
pub mod api_error;
pub mod broker;
pub mod broker_keys;
pub mod broker_set;
pub mod cli;
pub mod collector;
pub mod collector_laws;
pub mod consumer_groups;
pub mod discovery;
pub mod ip;
pub mod ip_laws;
pub mod json;
pub mod listing;
pub mod namespace;
pub mod rates;
pub mod secret;
pub mod sequence;
pub mod stream_laws;
pub mod streamer;
pub mod streamer_laws;
pub mod streams;
pub mod string_map;
pub mod text;
pub mod text_laws;
pub mod whitelist;
pub mod writer_laws;
