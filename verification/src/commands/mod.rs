//! The decisions of the commands. Reading and writing files is left to the
//! program that drives them.

pub mod convert;
pub mod extract;
pub mod invert;
pub mod pipeline;
pub mod validate;

pub use pipeline::{
    load_indexes, should_build_crossref_index, should_include_citation, validate_args,
    ExtractionStats,
};
