//! Verified core of an observability server.

pub mod address;
pub mod alerts;
pub mod api;
pub mod auth;
pub mod authz;
pub mod cluster;
pub mod config;
pub mod crypto;
pub mod doubles;
pub mod grouping;
pub mod hex_number;
pub mod ingest;
pub mod json;
pub mod labels;
pub mod metrics;
pub mod migrate;
pub mod number;
pub mod promql;
pub mod promql_eval;
pub mod promql_laws;
pub mod queries;
pub mod ranking;
pub mod retention;
pub mod scoring;
pub mod server;
pub mod similarity;
pub mod spans;
pub mod sql;
pub mod tenancy;
pub mod text;
pub mod text_map;
pub mod time;
