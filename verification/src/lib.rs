//! Verified core of a language-tooling backend for Erlang sources.
//!
//! The crate keeps an in-memory text buffer consistent with a stream of
//! editor change events, runs a table of diagnostic rules over a resolved
//! structural view of the code, and packages the findings as positioned
//! diagnostics with safe, non-overlapping text rewrites.

pub mod assists;
pub mod base;
pub mod completion;
pub mod decode;
pub mod diagnostics;
pub mod doc_links;
pub mod document;
pub mod eqwalizer_analyses;
pub mod expected_type;
pub mod export_type;
pub mod expression_can_be_simplified;
pub mod flip_sep;
pub mod fold;
pub mod helpers;
pub mod inefficient_last;
pub mod lines;
pub mod missing_compile_warn_missing_spec;
pub mod module_mismatch;
pub mod redundant_assignment;
pub mod registry;
pub mod safety;
pub mod source_change;
pub mod strutil;
pub mod suppression;
pub mod syntax;
pub mod unspecific_include;
pub mod view;

pub use base::FileId;
pub use base::FilePosition;
pub use base::FileRange;
pub use base::TextRange;
