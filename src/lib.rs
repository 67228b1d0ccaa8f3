//! Schema-aware data-quality checks on JSON record sets.

pub mod document;
pub mod error;
pub mod float_syntax;
pub mod scan;
pub mod schema;
