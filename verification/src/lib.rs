//! Citation extraction: mining, partitioning, inverting and validating
//! scholarly identifier references.

pub mod cli;
pub mod commands;
pub mod common;
pub mod extract;
pub mod index;
pub mod json;
pub mod streaming;
pub mod text;
pub mod validation;
