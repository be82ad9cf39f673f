//! Derivation of delay records and delay events from a transit line's live feed.
//!
//! Raw observations of a trip are turned into point observations (delay records),
//! and consecutive records of one trip are turned into space-time intervals (delay
//! events). Times are microseconds since the Unix epoch; a position within a track
//! segment is a fixed-point fraction where `SEGMENT_SCALE` stands for the whole segment.
pub mod models;
pub mod trip_map;
pub mod cache;
pub mod client;
pub mod crawler;
pub mod position;
pub mod rebuild;
pub mod transport;
pub mod ws_api;
