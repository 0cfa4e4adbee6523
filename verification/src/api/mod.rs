//! The query API: what requests ask for, and what they are answered.

pub mod embeddings;
pub mod eval_compare;
pub mod eval_writes;
pub mod evals;
pub mod live;
pub mod metric_detail;
pub mod params;
pub mod requests;
pub mod topology;
pub mod wal;
