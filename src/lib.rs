//! A per-process resource-usage watcher: the metering engine that turns I/O
//! samples into rate violations, the byte ring and framing that carry events to
//! user space, the watchlist, and the decisions of the user-side handle.
pub mod collector;
pub mod control;
pub mod event;
pub mod framing;
pub mod meter;
pub mod ring;
pub mod store;
pub mod watchlist;
