//! Mining and normalizing DOIs and arXiv identifiers out of free text.

pub mod captures;
pub mod doi;
pub mod patterns;
pub mod provenance;
pub mod reference;

pub use doi::{doi_prefix, extract_doi_matches_from_text, normalize_doi, DoiMatch};
pub use patterns::{extract_arxiv_matches_from_text, normalize_arxiv_id};
pub use provenance::Provenance;
