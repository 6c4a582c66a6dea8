//! A personal watch-history viewer: ingests an exported history file,
//! aggregates raw watch events into per-video records, and answers
//! filtered, sorted, paginated queries over the aggregate, served by a
//! connection-bounded listener with graceful shutdown.
//!
//! This crate holds the verified core: text normalization, schema
//! sniffing, aggregation, the query engine, and the listener/shutdown
//! state machine. Network and file plumbing live outside it.

use vstd::prelude::*;

pub mod listener;
pub mod pagination;
pub mod schema;
pub mod service;
pub mod table;
pub mod text;
pub mod utils;
pub mod v1;
pub mod youtube;

verus! {

/// Remote location of the embeddable player script.
pub const IFRAME_API_URL: &'static str = "https://www.youtube.com/iframe_api";

/// Local route under which the patched widget script is served.
pub const LOCAL_WIDGET_API_PATH: &'static str = "/www-widgetapi.js";

} // verus!
