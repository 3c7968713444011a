//! Configuration handed to the core at startup. Reading it from a
//! file is the surrounding program's concern; the core only consumes
//! these plain values.

use vstd::prelude::*;

verus! {

/// Addresses the HTTP layer binds and advertises.
#[derive(Clone, Debug)]
pub struct ServerConfig {
    pub bind_addr: String,
    pub host_addr: String,
}

/// Limits and secrets of the admission and validation paths.
#[derive(Clone, Debug)]
pub struct SecurityConfig {
    /// Server secret keying the reversible key codec.
    pub secret_key: String,
    /// Largest accepted request body, in bytes.
    pub max_body_length: usize,
    /// Largest accepted title, in characters.
    pub max_title_chars: usize,
    /// Largest accepted record lifetime, in seconds.
    pub max_expiration_seconds: u32,
    /// Requests admitted per second on each protected route.
    pub max_qps: u32,
    /// Patterns whose match on a title or content drops the save.
    pub block_rules: Option<Vec<String>>,
    /// Whether unconfirmed saves self-destruct after a delay.
    pub anti_bot: bool,
}

/// How to reach the durable TTL-bearing key-value backend.
#[derive(Clone, Debug)]
pub struct RedisConfig {
    pub url: String,
    /// Namespace prefix put before every backend key.
    pub key_prefix: String,
    /// Bound on concurrently open pooled connections.
    pub max_open_connections: u64,
}

/// Parameters of the in-process cache; absent means the cache is
/// disabled and every lookup goes to the durable store.
#[derive(Clone, Debug)]
pub struct CacheConfig {
    /// Period of the reconciliation daemon, in seconds.
    pub update_duration_seconds: u64,
    /// Rough bound on live cache entries; enforced probabilistically.
    pub capacity: usize,
}

/// Everything the core needs at construction time.
#[derive(Clone, Debug)]
pub struct Config {
    pub server: ServerConfig,
    pub security: SecurityConfig,
    pub redis: RedisConfig,
    pub cache: Option<CacheConfig>,
}

} // verus!
