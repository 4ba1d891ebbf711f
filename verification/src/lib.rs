//! A local gateway for language model providers.

pub mod circuit_breaker;
pub mod config;
pub mod draw;
pub mod election;
pub mod error;
pub mod headers;
pub mod ir;
pub mod json;
pub mod laws;
pub mod protocol;
pub mod query;
pub mod rectifier;
pub mod registry;
pub mod router;
pub mod server;
pub mod session;
pub mod sorting;
pub mod stats;
pub mod stats_ext;
pub mod table;
pub mod text;
pub mod upstream;
pub mod views;
