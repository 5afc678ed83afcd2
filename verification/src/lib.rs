//! Verified core of a clipboard history keeper.
//!
//! The library holds the logic of a capture -> classify -> dedup -> persist ->
//! evict pipeline: a content classifier, a sensitive-data detector, a
//! content-addressed identity scheme, the per-tick decision logic of the
//! clipboard poller, and an in-memory store with deduplicating insert,
//! pagination, search, and two eviction policies. All I/O (clipboard, clock,
//! files, durable persistence) stays outside and hands plain values in.

pub mod classifier;
pub mod digest;
pub mod error;
pub mod imaging;
pub mod models;
pub mod monitor;
pub mod platform;
pub mod sensitive;
pub mod sorting;
pub mod store;
pub mod text;
