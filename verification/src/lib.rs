//! Vendor-neutral APIs for Open Knowledge Format bundles.
//!
//! The crate validates bundle structure, exposes a directed knowledge graph, provides
//! deterministic lexical retrieval, and implements the storage-independent OKF Library model.

pub mod agent_provider;
pub mod entries;
pub mod error;
pub mod graph;
pub mod http_provider;
pub mod library;
pub mod library_manifest;
pub mod library_providers;
pub mod library_sources;
pub mod listing;
pub mod model;
pub mod parser;
pub mod process_provider;
pub mod project_context;
pub mod provider_protocol;
pub mod provider_stack;
pub mod retrieval;
pub mod s3_provider;
pub mod semantic_provider;
pub mod sqlite_provider;
pub mod text;
pub mod validator;
pub mod yaml;

pub use error::{Error, FrontMatterProblem, Result};
pub use graph::KnowledgeGraph;
pub use library::{
    CapabilitySet, CatalogEntry, KnowledgeNode, KnowledgeNodeKind, KnowledgeUri, LibraryCapability,
    LibraryCatalog, LibraryError, LibraryId, LibraryInstance, LibraryManifest, LibraryProvider,
    LibraryQuery, LibraryQueryHit, LibraryQueryResult, LibraryRegistry, LibraryResult,
    LibrarySource, QueryStrategy,
};
pub use library_manifest::LibraryPackageManifest;
pub use model::{Bundle, Document, DocumentId, InvalidDocumentId, Metadata, Reference, TextSet};
pub use parser::{parse_document, BundleParser, ParserOptions};
pub use retrieval::{search, MatchField, MatchFieldSet, SearchHit, SearchQuery};
pub use validator::{Severity, ValidationIssue, ValidationOptions, ValidationReport, Validator};
pub use yaml::YamlNode;
