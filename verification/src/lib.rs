//! Verified core of the Highwater durable streaming service.
pub mod streaming;
pub mod text;
pub mod process;
pub mod relational;
pub mod journal;
pub mod keyspace;
pub mod leases;
pub mod auth;
pub mod console;
pub mod state;
pub mod cli;
pub mod model;
pub mod document;
pub mod server;
pub mod ingest;
pub mod errors;
pub mod transaction;
pub mod graph;
pub mod operators;
pub mod views;
pub mod outbox;
pub mod workflow;
pub mod protocol;
pub mod storage;
