//! Document identifiers and documents.

use vstd::prelude::*;

use crate::text::{chars_of, owned, string_from, slice_range, unicode_alphanumeric, is_alphanumeric};
use super::metadata::Metadata;

verus! {

/// Whether `c` may appear in a document identifier: Unicode alphanumerics, `-`, `_`, `.`,
/// and the `/` separator.
pub open spec fn id_char_allowed(c: char) -> bool {
    unicode_alphanumeric(c) || c == '-' || c == '_' || c == '.' || c == '/'
}

/// Whether position `i` starts a `/`-separated segment of `s`.
pub open spec fn starts_segment(s: Seq<char>, i: int) -> bool {
    i == 0 || s[i - 1] == '/'
}

/// Whether position `i` ends a segment of `s` (one past its last character).
pub open spec fn ends_segment(s: Seq<char>, i: int) -> bool {
    i == s.len() || (0 <= i < s.len() && s[i] == '/')
}

/// Whether the `/` at position `i` delimits an empty segment.
pub open spec fn bad_separator(s: Seq<char>, i: int) -> bool {
    s[i] == '/' && (i == 0 || i + 1 == s.len() || s[i + 1] == '/')
}

/// Whether a `.` or `..` segment starts at position `i`.
pub open spec fn dot_segment_at(s: Seq<char>, i: int) -> bool {
    &&& s[i] == '.'
    &&& starts_segment(s, i)
    &&& (ends_segment(s, i + 1) || (i + 1 < s.len() && s[i + 1] == '.' && ends_segment(s, i + 2)))
}

/// Why a candidate document identifier is rejected.
#[derive(Clone, Copy, Debug, PartialEq, Eq)]
pub enum IdProblem {
    /// The identifier is empty.
    Empty,
    /// A character other than an alphanumeric, `-`, `_`, `.` or `/` occurs.
    Character,
    /// A segment is empty (leading, trailing or doubled `/`).
    EmptySegment,
    /// A segment is `.` or `..`.
    DotSegment,
}

/// The first rule that `s` violates, checked in the order of [`IdProblem`].
pub open spec fn id_problem(s: Seq<char>) -> Option<IdProblem> {
    if s.len() == 0 {
        Some(IdProblem::Empty)
    } else if exists|i: int| 0 <= i < s.len() && !id_char_allowed(#[trigger] s[i]) {
        Some(IdProblem::Character)
    } else if exists|i: int| 0 <= i < s.len() && #[trigger] bad_separator(s, i) {
        Some(IdProblem::EmptySegment)
    } else if exists|i: int| 0 <= i < s.len() && #[trigger] dot_segment_at(s, i) {
        Some(IdProblem::DotSegment)
    } else {
        None
    }
}

/// Whether `s` is a valid document identifier.
pub open spec fn valid_document_id(s: Seq<char>) -> bool {
    id_problem(s) is None
}

/// Human-readable explanation of an identifier problem.
pub open spec fn problem_reason(p: IdProblem) -> Seq<char> {
    match p {
        IdProblem::Empty => "identifier is empty"@,
        IdProblem::Character => "identifier contains an unsupported character"@,
        IdProblem::EmptySegment => "identifier contains an empty segment"@,
        IdProblem::DotSegment => "identifier contains a '.' or '..' segment"@,
    }
}

/// Final segment of an identifier: everything after the last `/`.
pub open spec fn final_segment(s: Seq<char>) -> Seq<char>
    decreases s.len(),
{
    if s.len() == 0 {
        s
    } else if s.last() == '/' {
        Seq::empty()
    } else {
        final_segment(s.drop_last()).push(s.last())
    }
}

/// Finds the first identifier problem of a character sequence.
pub fn find_id_problem(s: &[char]) -> (r: Option<IdProblem>)
    ensures
        r == id_problem(s@),
{
    if s.len() == 0 {
        return Some(IdProblem::Empty);
    }
    let mut i: usize = 0;
    while i < s.len()
        invariant
            i <= s@.len(),
            forall|j: int| 0 <= j < i ==> id_char_allowed(#[trigger] s@[j]),
        decreases s@.len() - i,
    {
        let c = s[i];
        if !(is_alphanumeric(c) || c == '-' || c == '_' || c == '.' || c == '/') {
            assert(!id_char_allowed(s@[i as int]));
            return Some(IdProblem::Character);
        }
        i = i + 1;
    }
    let mut i: usize = 0;
    while i < s.len()
        invariant
            i <= s@.len(),
            s@.len() > 0,
            forall|j: int| 0 <= j < s@.len() ==> id_char_allowed(#[trigger] s@[j]),
            forall|j: int| 0 <= j < i ==> !#[trigger] bad_separator(s@, j),
        decreases s@.len() - i,
    {
        if s[i] == '/' && (i == 0 || i + 1 == s.len() || s[i + 1] == '/') {
            assert(bad_separator(s@, i as int));
            return Some(IdProblem::EmptySegment);
        }
        i = i + 1;
    }
    let mut i: usize = 0;
    while i < s.len()
        invariant
            i <= s@.len(),
            s@.len() > 0,
            forall|j: int| 0 <= j < s@.len() ==> id_char_allowed(#[trigger] s@[j]),
            forall|j: int| 0 <= j < s@.len() ==> !#[trigger] bad_separator(s@, j),
            forall|j: int| 0 <= j < i ==> !#[trigger] dot_segment_at(s@, j),
        decreases s@.len() - i,
    {
        let starts = i == 0 || s[i - 1] == '/';
        let single = i + 1 == s.len() || s[i + 1] == '/';
        let double = i + 1 < s.len() && s[i + 1] == '.' && (i + 2 == s.len() || s[i + 2] == '/');
        if s[i] == '.' && starts && (single || double) {
            assert(dot_segment_at(s@, i as int));
            return Some(IdProblem::DotSegment);
        }
        assert(!dot_segment_at(s@, i as int));
        i = i + 1;
    }
    None
}

/// Returns the final segment of an identifier.
pub fn final_segment_of(s: &[char]) -> (r: Vec<char>)
    ensures
        r@ == final_segment(s@),
{
    let mut k: usize = s.len();
    assert(s@.take(k as int) =~= s@);
    assert(final_segment(s@) + s@.skip(k as int) =~= final_segment(s@));
    while k > 0 && s[k - 1] != '/'
        invariant
            k <= s@.len(),
            final_segment(s@) == final_segment(s@.take(k as int)) + s@.skip(k as int),
        decreases k,
    {
        let ghost t = s@.take(k as int);
        assert(t.drop_last() =~= s@.take(k - 1));
        assert(s@.skip(k - 1) =~= seq![t.last()] + s@.skip(k as int));
        assert(final_segment(t) == final_segment(t.drop_last()).push(t.last()));
        assert(final_segment(t.drop_last()).push(t.last()) + s@.skip(k as int)
            =~= final_segment(t.drop_last()) + (seq![t.last()] + s@.skip(k as int)));
        k = k - 1;
    }
    proof {
        let t = s@.take(k as int);
        if k > 0 {
            assert(t.last() == '/');
        }
        assert(final_segment(t) =~= Seq::<char>::empty());
        assert(Seq::<char>::empty() + s@.skip(k as int) =~= s@.skip(k as int));
        assert(s@.take(s@.len() as int) =~= s@);
    }
    slice_range(s, k, s.len())
}

/// A validated, canonical document identifier such as `concepts/sidecar`.
#[derive(Debug)]
pub struct DocumentId {
    value: String,
}

/// A rejected document identifier and the reason for the rejection.
#[derive(Clone, Debug, PartialEq, Eq)]
pub struct InvalidDocumentId {
    value: String,
    problem: IdProblem,
}

impl View for DocumentId {
    type V = Seq<char>;

    closed spec fn view(&self) -> Seq<char> {
        self.value@
    }
}

impl DocumentId {
    #[verifier::type_invariant]
    spec fn well_formed(self) -> bool {
        valid_document_id(self.value@)
    }

    /// Validates and wraps an identifier.
    pub fn new(value: &str) -> (r: Result<DocumentId, InvalidDocumentId>)
        ensures
            match r {
                Ok(id) => id@ == value@ && valid_document_id(value@),
                Err(e) => e.spec_value() == value@ && id_problem(value@) == Some(e.spec_problem()),
            },
    {
        let chars = chars_of(value);
        match find_id_problem(&chars) {
            Some(problem) => Err(InvalidDocumentId { value: owned(value), problem }),
            None => Ok(DocumentId { value: owned(value) }),
        }
    }

    /// Validates and wraps an owned identifier.
    pub fn from_string(value: String) -> (r: Result<DocumentId, InvalidDocumentId>)
        ensures
            match r {
                Ok(id) => id@ == value@ && valid_document_id(value@),
                Err(e) => e.spec_value() == value@ && id_problem(value@) == Some(e.spec_problem()),
            },
    {
        let chars = chars_of(value.as_str());
        match find_id_problem(&chars) {
            Some(problem) => Err(InvalidDocumentId { value, problem }),
            None => Ok(DocumentId { value }),
        }
    }

    /// Returns the identifier text.
    pub fn as_str(&self) -> (r: &str)
        ensures
            r@ == self@,
            valid_document_id(r@),
    {
        proof {
            use_type_invariant(self);
        }
        self.value.as_str()
    }

    /// Returns the final path segment of the identifier.
    pub fn name(&self) -> (r: String)
        ensures
            r@ == final_segment(self@),
    {
        let chars = chars_of(self.value.as_str());
        string_from(&final_segment_of(&chars))
    }

    /// Returns the identifier as an owned string (the `Display` form).
    pub fn to_text(&self) -> (r: String)
        ensures
            r@ == self@,
    {
        self.value.clone()
    }

    /// Copies the identifier.
    pub fn copy(&self) -> (r: DocumentId)
        ensures
            r@ == self@,
    {
        proof {
            use_type_invariant(self);
        }
        DocumentId { value: self.value.clone() }
    }
}

impl Clone for DocumentId {
    fn clone(&self) -> (r: DocumentId)
        ensures
            r@ == self@,
    {
        self.copy()
    }
}

impl InvalidDocumentId {
    /// The rejected identifier text.
    pub fn value(&self) -> (r: &str)
        ensures
            r@ == self.spec_value(),
    {
        self.value.as_str()
    }

    /// The rule that was violated.
    pub fn problem(&self) -> (r: IdProblem)
        ensures
            r == self.spec_problem(),
    {
        self.problem
    }

    /// Human-readable explanation of the violated rule.
    pub fn reason(&self) -> (r: String)
        ensures
            r@ == problem_reason(self.spec_problem()),
    {
        match self.problem {
            IdProblem::Empty => owned("identifier is empty"),
            IdProblem::Character => owned("identifier contains an unsupported character"),
            IdProblem::EmptySegment => owned("identifier contains an empty segment"),
            IdProblem::DotSegment => owned("identifier contains a '.' or '..' segment"),
        }
    }

    /// Spec access to the rejected text.
    pub closed spec fn spec_value(&self) -> Seq<char> {
        self.value@
    }

    /// Spec access to the violated rule.
    pub closed spec fn spec_problem(&self) -> IdProblem {
        self.problem
    }
}

/// One Markdown knowledge document.
#[derive(Debug)]
pub struct Document {
    id: DocumentId,
    title: String,
    body: String,
    metadata: Metadata,
    source_path: Option<String>,
}

impl Document {
    /// Creates a document without a source path.
    pub fn new(id: DocumentId, title: &str, body: &str, metadata: Metadata) -> (r: Document)
        ensures
            r.spec_id() == id@,
            r.spec_title() == title@,
            r.spec_body() == body@,
            r.spec_metadata() == metadata,
            r.spec_source_path() is None,
    {
        Document { id, title: owned(title), body: owned(body), metadata, source_path: None }
    }

    /// Records the source path used to load the document.
    pub fn with_source_path(self, path: &str) -> (r: Document)
        ensures
            r.spec_id() == self.spec_id(),
            r.spec_title() == self.spec_title(),
            r.spec_body() == self.spec_body(),
            r.spec_metadata() == self.spec_metadata(),
            r.spec_source_path() == Some(path@),
    {
        Document { source_path: Some(owned(path)), ..self }
    }

    /// Identifier view.
    pub closed spec fn spec_id(&self) -> Seq<char> {
        self.id@
    }

    /// Title view.
    pub closed spec fn spec_title(&self) -> Seq<char> {
        self.title@
    }

    /// Body view.
    pub closed spec fn spec_body(&self) -> Seq<char> {
        self.body@
    }

    /// Metadata.
    pub closed spec fn spec_metadata(&self) -> Metadata {
        self.metadata
    }

    /// Source path view.
    pub closed spec fn spec_source_path(&self) -> Option<Seq<char>> {
        match self.source_path {
            Some(p) => Some(p@),
            None => None,
        }
    }

    /// Canonical identifier.
    pub fn id(&self) -> (r: &DocumentId)
        ensures
            r@ == self.spec_id(),
    {
        &self.id
    }

    /// Display title.
    pub fn title(&self) -> (r: &str)
        ensures
            r@ == self.spec_title(),
    {
        self.title.as_str()
    }

    /// Markdown body without front matter.
    pub fn body(&self) -> (r: &str)
        ensures
            r@ == self.spec_body(),
    {
        self.body.as_str()
    }

    /// Document metadata.
    pub fn metadata(&self) -> (r: &Metadata)
        ensures
            *r == self.spec_metadata(),
    {
        &self.metadata
    }

    /// Source path relative to the bundle root, when the document was loaded from a file.
    pub fn source_path(&self) -> (r: Option<&str>)
        ensures
            match r {
                Some(p) => self.spec_source_path() == Some(p@),
                None => self.spec_source_path() is None,
            },
    {
        match &self.source_path {
            Some(p) => Some(p.as_str()),
            None => None,
        }
    }
}

} // verus!
