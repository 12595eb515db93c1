//! Core data model for OKF bundles.

pub mod bundle;
pub mod document;
pub mod metadata;

pub use bundle::Bundle;
pub use document::{Document, DocumentId, IdProblem, InvalidDocumentId};
pub use metadata::{Metadata, Reference, TextSet};
