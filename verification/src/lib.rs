//! A verified core for a network device scanner: address-range parsing,
//! scan-pass orchestration over a deduplicating staging map, a device
//! registry replaced wholesale per pass, bounded history buffers for
//! plotting, a schema-stable CSV recorder, and the operator-facing
//! decisions around them.

pub mod control;
pub mod export;
pub mod fmt;
pub mod history;
pub mod ip;
pub mod models;
pub mod progress;
pub mod recording;
pub mod registry;
pub mod sampling;
pub mod scan;
pub mod search;
pub mod sort;
pub mod stats;
pub mod store;
