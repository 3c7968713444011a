//! Core of a short-lived paste store: a key codec keyed by a server
//! secret, an abstract TTL-bearing field store with view counters, a
//! write-coalescing in-process cache with randomized eviction, a
//! token-bucket admission controller, and a deactivation watcher.

pub mod anti_bot;
pub mod args;
pub mod block;
pub mod cache;
pub mod config;
pub mod crypto;
pub mod dto;
pub mod error;
pub mod limiter;
pub mod record;
pub mod store;
pub mod svc;
pub mod time;
pub mod utils;
