//! Types shared by the pipeline's stages.

pub mod output;
pub mod string_set;
pub mod types;
pub mod vecs;

pub use output::SplitOutputPaths;
pub use string_set::StringSet;
pub use types::ArxivMatch;
