//! Supervisor core for a reverse proxy whose configuration is assembled from
//! a directory of fragment files.
//!
//! The library holds the verified logic: deterministic assembly of fragment
//! files into one configuration buffer, content-digest change detection,
//! poller tick decisions with cooperative cancellation, the child-process
//! command model, and the event dispatch rules. The surrounding binary does
//! the actual filesystem, signal, process and thread work and feeds plain
//! values into these functions.

pub mod child;
pub mod config;
pub mod dispatch;
pub mod events;
pub mod fsext;
