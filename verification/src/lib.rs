//! Live ingestion core for a game-session tracker: an incremental log-file
//! tailer with a pure line parser, a token-bucket rate limiter and a TTL
//! response cache composed into a rate-limited caching API client, and an
//! in-memory store for runs, splits, snapshots and records.
//!
//! All file, network and timer work stays outside this crate: callers read
//! appended bytes, issue HTTP requests and sleep, and hand the results (byte
//! chunks, response statuses and bodies, clock readings in milliseconds) to
//! the functions here, which make every decision and are verified.

pub mod api_types;
pub mod cache;
pub mod client;
pub mod events;
pub mod image_proxy;
pub mod limiter;
pub mod parser;
pub mod store;
pub mod tailer;
pub mod text;
pub mod upload;
