//! Verified parts of a data warehouse.
//!
//! - [`parquet_meta`], [`parquet_batch`]: reading the metadata of Parquet files.
//! - [`metadata_walk`]: which metadata can be decoded.
//! - [`arrow_conversion`]: from the schema of a Parquet file to an Arrow schema.
//! - [`schema_tree`]: numbering and selecting the leaf columns of a Parquet schema.
//! - [`mutation_status`]: row counts of a mutation.
//! - [`sm_v003`], [`leveled_map`], [`log_id`], [`apply`]: the state machine of a raft
//!   log.
//! - [`drop_sequence`]: dropping a sequence.
//!
//! The library decides and computes; whoever uses it talks to storage, catalogs and
//! other services, and hands back what they answered.
pub mod apply;
pub mod arrow_conversion;
pub mod drop_sequence;
pub mod error;
pub mod leveled_map;
pub mod log_id;
pub mod metadata_walk;
pub mod metadata_walk_laws;
pub mod mutation_status;
pub mod parquet_batch;
pub mod parquet_meta;
pub mod schema_tree;
pub mod schema_tree_laws;
pub mod sm_v003;
pub mod text;
