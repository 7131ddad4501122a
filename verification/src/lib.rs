//! An incremental build driver for Java sources: dependency discovery,
//! topological ordering, staleness detection and compiler diagnostics.

pub mod builder;
pub mod cache;
pub mod deps;
pub mod docs;
pub mod embedded;
pub mod error_format;
pub mod graph;
pub mod plan;
pub mod run;
pub mod runtime_format;
pub mod suggest;
pub mod text;
pub mod tree;

pub use docs::{Class, Method, Package};
pub use embedded::get_docs;
