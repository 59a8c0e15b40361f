//! A durable, identity-indexed collection store with atomic whole-snapshot
//! persistence, plus the pure parts of the services built around it: the
//! snapshot codec, the per-collection ordering policy, request-path builders
//! for the remote aggregation API, and the category post-processing of the
//! AI-categorization job.
//!
//! All file, network and clock work lives outside this crate; the library
//! computes snapshots, decides mutations, and produces the exact byte
//! content that a caller must write durably.

pub mod codec;
pub mod csv;
pub mod db_base;
pub mod db_structs;
pub mod genai;
pub mod laws;
pub mod order;
pub mod powens_api;
pub mod record;
pub mod sort;
pub mod storage;
pub mod text;
pub mod transaction;
pub mod transactions_export;
