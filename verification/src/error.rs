//! Error types returned by the SDK.

use vstd::prelude::*;

use crate::model::InvalidDocumentId;

verus! {

/// Why YAML front matter could not be decoded.
#[derive(Clone, Debug, PartialEq, Eq)]
pub enum FrontMatterProblem {
    /// `yaml_serde` rejected the text; its diagnostic.
    Syntax(String),
    /// The front matter is not a mapping.
    NotAMapping,
    /// A mapping key is not a scalar.
    InvalidKey,
    /// The named field holds a value of the wrong type.
    InvalidField(String),
    /// The named field occurs twice (`links` together with its alias `references`).
    DuplicateField(String),
    /// A detailed link has no `target`.
    MissingTarget,
    /// A link target is not a valid document identifier.
    InvalidTarget(InvalidDocumentId),
}

/// Errors produced while loading or constructing an OKF bundle.
#[derive(Debug)]
pub enum Error {
    /// A filesystem operation failed.
    Io {
        /// Path being accessed.
        path: String,
        /// Diagnostic of the underlying I/O error.
        message: String,
    },
    /// Walking a bundle directory failed.
    Walk {
        /// Best-effort path associated with the traversal error.
        path: Option<String>,
        /// Diagnostic of the underlying traversal error.
        message: String,
    },
    /// YAML front matter could not be decoded.
    FrontMatter {
        /// Source Markdown path.
        path: String,
        /// What went wrong.
        problem: FrontMatterProblem,
    },
    /// A front-matter opening delimiter had no closing delimiter.
    UnterminatedFrontMatter {
        /// Source Markdown path.
        path: String,
    },
    /// A document identifier is invalid.
    InvalidDocumentId(InvalidDocumentId),
    /// Two source files declared the same document identifier.
    DuplicateDocument {
        /// Conflicting identifier.
        id: String,
        /// Source path of the document already in the bundle.
        first_path: String,
        /// Source path of the document being inserted.
        second_path: String,
    },
    /// A requested root path is not a directory.
    NotDirectory {
        /// Invalid root path.
        path: String,
    },
}

/// Result alias used by fallible SDK operations.
pub type Result<T> = core::result::Result<T, Error>;

impl From<InvalidDocumentId> for Error {
    fn from(e: InvalidDocumentId) -> (r: Error) {
        Error::InvalidDocumentId(e)
    }
}

impl vstd::std_specs::convert::FromSpecImpl<InvalidDocumentId> for Error {
    open spec fn obeys_from_spec() -> bool {
        true
    }

    open spec fn from_spec(v: InvalidDocumentId) -> Error {
        Error::InvalidDocumentId(v)
    }
}

} // verus!
