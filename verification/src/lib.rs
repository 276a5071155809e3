//! An in-memory columnar query engine: compressed column segments, a plan
//! builder that keeps data encoded where it can, and vector operators that
//! evaluate filters, projections, grouping and ordering over one batch.
//!
//! Data comes in through a [`buffer::Buffer`], which is frozen into a
//! [`batch::Batch`] of [`column::Column`]s. A [`query::Query`] is planned
//! per expression into a [`query_plan::QueryPlan`], lowered to
//! [`vector_operator::Operator`]s and run on one batch at a time.

pub mod aggregation;
pub mod batch;
pub mod bits;
pub mod buffer;
pub mod column;
pub mod dictionary;
pub mod expression;
pub mod inner_ruba;
pub mod int_like;
pub mod query;
pub mod query_plan;
pub mod raw_col;
pub mod raw_val;
pub mod semantics;
pub mod sort;
pub mod table;
pub mod text;
pub mod typed_vec;
pub mod types;
pub mod vector_operator;

pub use crate::query::BatchResult;
pub use crate::raw_val::RawVal as Value;
pub use crate::table::TableStats;
