//! Infrastructure configuration records handed to the excluded loading
//! layer's consumers.

use vstd::prelude::*;

verus! {

/// Connection settings of the storage layer.
#[derive(Debug, Clone, PartialEq, Eq)]
pub struct DatabaseConfig {
    pub clickhouse_url: String,
    pub clickhouse_database: String,
    pub postgres_url: String,
    pub max_connections: u32,
    pub connection_timeout_ms: u64,
    pub query_timeout_ms: u64,
    pub batch_size: u32,
    pub flush_interval_ms: u64,
}

impl DatabaseConfig {
    /// Settings for a local development stack.
    pub fn development() -> (r: DatabaseConfig)
        ensures
            r.max_connections == 10,
            r.connection_timeout_ms == 5000,
            r.query_timeout_ms == 30000,
            r.batch_size == 1000,
            r.flush_interval_ms == 1000,
    {
        DatabaseConfig {
            clickhouse_url: "tcp://localhost:9000".to_owned(),
            clickhouse_database: "arbfinder_dev".to_owned(),
            postgres_url: "postgresql://localhost/arbfinder_dev".to_owned(),
            max_connections: 10,
            connection_timeout_ms: 5000,
            query_timeout_ms: 30000,
            batch_size: 1000,
            flush_interval_ms: 1000,
        }
    }

    /// Settings for the production stack.
    pub fn production() -> (r: DatabaseConfig)
        ensures
            r.max_connections == 50,
            r.connection_timeout_ms == 10000,
            r.query_timeout_ms == 60000,
            r.batch_size == 10000,
            r.flush_interval_ms == 500,
    {
        DatabaseConfig {
            clickhouse_url: "tcp://clickhouse:9000".to_owned(),
            clickhouse_database: "arbfinder".to_owned(),
            postgres_url: "postgresql://postgres:5432/arbfinder".to_owned(),
            max_connections: 50,
            connection_timeout_ms: 10000,
            query_timeout_ms: 60000,
            batch_size: 10000,
            flush_interval_ms: 500,
        }
    }
}

/// Connection settings of the messaging layer.
#[derive(Debug, Clone, PartialEq, Eq)]
pub struct MessagingConfig {
    pub nats_url: String,
    pub max_reconnect_attempts: u32,
    pub reconnect_delay_ms: u64,
    pub request_timeout_ms: u64,
    pub max_payload_size: usize,
    pub enable_jetstream: bool,
}

impl MessagingConfig {
    /// Settings for a local development stack.
    pub fn development() -> (r: MessagingConfig)
        ensures
            r.max_reconnect_attempts == 10,
            r.reconnect_delay_ms == 2000,
            r.request_timeout_ms == 5000,
            r.max_payload_size == 1048576,
            r.enable_jetstream == false,
    {
        MessagingConfig {
            nats_url: "nats://localhost:4222".to_owned(),
            max_reconnect_attempts: 10,
            reconnect_delay_ms: 2000,
            request_timeout_ms: 5000,
            max_payload_size: 1048576,
            enable_jetstream: false,
        }
    }

    /// Settings for the production stack.
    pub fn production() -> (r: MessagingConfig)
        ensures
            r.max_reconnect_attempts == 100,
            r.reconnect_delay_ms == 1000,
            r.request_timeout_ms == 10000,
            r.max_payload_size == 8388608,
            r.enable_jetstream == true,
    {
        MessagingConfig {
            nats_url: "nats://nats:4222".to_owned(),
            max_reconnect_attempts: 100,
            reconnect_delay_ms: 1000,
            request_timeout_ms: 10000,
            max_payload_size: 8388608,
            enable_jetstream: true,
        }
    }
}

} // verus!
