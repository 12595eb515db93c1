//! Pluggable OKF Library domain model and runtime.
//!
//! The Library model is storage-independent. Concrete storage and transport technologies are
//! adapters that implement [`LibraryProvider`].

use vstd::prelude::*;

use crate::model::TextSet;
use std::sync::Arc;
use crate::text::{
    chars_of, compare_text, concat2, concat3, lemma_text_lt_irreflexive, lemma_text_lt_total,
    lemma_strip_idempotent, lemma_text_lt_transitive, owned, slice_range, split_chars, split_pieces, strictly_sorted,
    string_from, strip, strip_chars, text_eq, text_lt, trim, trim_chars, CharClass, Order,
};

verus! {

/// Runtime capability exposed by a Library provider.
#[derive(Clone, Copy, Debug, PartialEq, Eq, Structural, Hash, PartialOrd, Ord)]
pub enum LibraryCapability {
    /// Enumerate logical nodes.
    List,
    /// Read logical node content.
    Read,
    /// Provide a semantic catalog.
    Catalog,
    /// Execute a query.
    Query,
    /// Refresh derived provider state.
    Refresh,
    /// Mutate or maintain knowledge content.
    Maintain,
}

/// Stable Library runtime errors.
#[derive(Clone, Debug, PartialEq, Eq)]
pub enum LibraryError {
    /// A Library identifier is syntactically invalid.
    InvalidLibraryId(String),
    /// A knowledge URI is syntactically invalid.
    InvalidUri(String),
    /// The requested Library is unknown to the registry.
    UnknownLibrary(String),
    /// The requested Library is registered but not mounted.
    NotMounted(String),
    /// A provider does not implement the requested capability.
    UnsupportedCapability(LibraryCapability),
    /// A node could not be resolved.
    NodeNotFound(String),
    /// Registration conflicts with an existing Library identity.
    Conflict(String),
    /// Provider-specific failure represented without leaking a transport type into the domain.
    Provider(String),
}

/// Name of a capability in manifests and on the wire (its kebab-case serialized form).
pub open spec fn capability_wire_name(c: LibraryCapability) -> Seq<char> {
    match c {
        LibraryCapability::List => "list"@,
        LibraryCapability::Read => "read"@,
        LibraryCapability::Catalog => "catalog"@,
        LibraryCapability::Query => "query"@,
        LibraryCapability::Refresh => "refresh"@,
        LibraryCapability::Maintain => "maintain"@,
    }
}

/// Name of a capability as `Debug` formats it.
pub open spec fn capability_name(c: LibraryCapability) -> Seq<char> {
    match c {
        LibraryCapability::List => "List"@,
        LibraryCapability::Read => "Read"@,
        LibraryCapability::Catalog => "Catalog"@,
        LibraryCapability::Query => "Query"@,
        LibraryCapability::Refresh => "Refresh"@,
        LibraryCapability::Maintain => "Maintain"@,
    }
}

/// Human-readable text of an error (its `Display` form).
pub open spec fn library_error_text(e: LibraryError) -> Seq<char> {
    match e {
        LibraryError::InvalidLibraryId(s) => "invalid library id: "@ + s@,
        LibraryError::InvalidUri(s) => "invalid knowledge URI: "@ + s@,
        LibraryError::UnknownLibrary(s) => "unknown library: "@ + s@,
        LibraryError::NotMounted(s) => "library is not mounted: "@ + s@,
        LibraryError::UnsupportedCapability(c) => "unsupported capability: "@ + capability_name(c),
        LibraryError::NodeNotFound(s) => "knowledge node not found: "@ + s@,
        LibraryError::Conflict(s) => "library already registered: "@ + s@,
        LibraryError::Provider(s) => "provider failed: "@ + s@,
    }
}

impl LibraryError {
    /// Human-readable text of the error (its `Display` form).
    pub fn message(&self) -> (r: String)
        ensures
            r@ == library_error_text(*self),
    {
        match self {
            LibraryError::InvalidLibraryId(s) => concat2("invalid library id: ", s.as_str()),
            LibraryError::InvalidUri(s) => concat2("invalid knowledge URI: ", s.as_str()),
            LibraryError::UnknownLibrary(s) => concat2("unknown library: ", s.as_str()),
            LibraryError::NotMounted(s) => concat2("library is not mounted: ", s.as_str()),
            LibraryError::UnsupportedCapability(c) => {
                let name = match c {
                    LibraryCapability::List => "List",
                    LibraryCapability::Read => "Read",
                    LibraryCapability::Catalog => "Catalog",
                    LibraryCapability::Query => "Query",
                    LibraryCapability::Refresh => "Refresh",
                    LibraryCapability::Maintain => "Maintain",
                };
                concat2("unsupported capability: ", name)
            },
            LibraryError::NodeNotFound(s) => concat2("knowledge node not found: ", s.as_str()),
            LibraryError::Conflict(s) => concat2("library already registered: ", s.as_str()),
            LibraryError::Provider(s) => concat2("provider failed: ", s.as_str()),
        }
    }
}

/// Result type for Library operations.
pub type LibraryResult<T> = Result<T, LibraryError>;

/// Whether `c` may appear in a Library identifier: an ASCII letter or digit, `-`, `_` or `.`.
pub open spec fn library_id_char(c: char) -> bool {
    ('a' <= c && c <= 'z') || ('A' <= c && c <= 'Z') || ('0' <= c && c <= '9') || c == '-' || c
        == '_' || c == '.'
}

/// Whether `s` is a valid Library identifier: non-empty, made of [`library_id_char`]s.
pub open spec fn valid_library_id(s: Seq<char>) -> bool {
    s.len() > 0 && forall|i: int| 0 <= i < s.len() ==> library_id_char(#[trigger] s[i])
}

/// Stable identifier of an independently mountable knowledge Library.
#[derive(Debug, PartialEq, Eq, Hash, PartialOrd, Ord)]
pub struct LibraryId {
    value: String,
}

impl View for LibraryId {
    type V = Seq<char>;

    closed spec fn view(&self) -> Seq<char> {
        self.value@
    }
}

impl LibraryId {
    #[verifier::type_invariant]
    spec fn well_formed(self) -> bool {
        valid_library_id(self.value@)
    }

    /// Parses a portable Library identifier.
    pub fn parse(value: &str) -> (r: LibraryResult<LibraryId>)
        ensures
            valid_library_id(value@) ==> (r matches Ok(id) && id@ == value@),
            !valid_library_id(value@) ==> (r matches Err(LibraryError::InvalidLibraryId(s)) && s@
                == value@),
    {
        let chars = chars_of(value);
        if chars.len() == 0 {
            return Err(LibraryError::InvalidLibraryId(owned(value)));
        }
        let mut i: usize = 0;
        while i < chars.len()
            invariant
                i <= chars@.len(),
                chars@ == value@,
                forall|k: int| 0 <= k < i ==> library_id_char(#[trigger] chars@[k]),
            decreases chars@.len() - i,
        {
            let c = chars[i];
            let ok = ('a' <= c && c <= 'z') || ('A' <= c && c <= 'Z') || ('0' <= c && c <= '9') || c
                == '-' || c == '_' || c == '.';
            if !ok {
                return Err(LibraryError::InvalidLibraryId(owned(value)));
            }
            i = i + 1;
        }
        Ok(LibraryId { value: owned(value) })
    }

    /// Returns the identifier text.
    pub fn as_str(&self) -> (r: &str)
        ensures
            r@ == self@,
            valid_library_id(r@),
    {
        proof {
            use_type_invariant(self);
        }
        self.value.as_str()
    }

    /// Returns the identifier as an owned string (the `Display` form).
    pub fn to_text(&self) -> (r: String)
        ensures
            r@ == self@,
    {
        self.value.clone()
    }

    /// Copies the identifier.
    pub fn copy(&self) -> (r: LibraryId)
        ensures
            r@ == self@,
    {
        proof {
            use_type_invariant(self);
        }
        LibraryId { value: self.value.clone() }
    }

    /// Whether two identifiers are equal.
    pub fn same(&self, other: &LibraryId) -> (r: bool)
        ensures
            r == (self@ == other@),
    {
        crate::text::text_eq(self.value.as_str(), other.value.as_str())
    }
}

impl Clone for LibraryId {
    fn clone(&self) -> (r: LibraryId)
        ensures
            r@ == self@,
    {
        self.copy()
    }
}

/// Logical path of a URI as written: trimmed of white space, then of surrounding `/`.
pub open spec fn uri_path(value: Seq<char>) -> Seq<char> {
    strip(trim(value), CharClass::Exactly('/'))
}

/// Whether a logical path is acceptable: no `..` segment and no `\`.
pub open spec fn path_ok(p: Seq<char>) -> bool {
    !split_pieces(p, '/').contains(seq!['.', '.']) && !p.contains('\\')
}

/// The logical path of `value` as written: trimmed, then stripped of surrounding `/`.
pub fn normalized_text(value: &str) -> (r: String)
    ensures
        r@ == uri_path(value@),
{
    let chars = chars_of(value);
    let trimmed = trim_chars(&chars);
    string_from(&strip_chars(&trimmed, CharClass::Exactly('/')))
}

/// Normalizes a logical path, rejecting `..` segments and backslashes.
pub fn normalize_path(value: &str) -> (r: LibraryResult<String>)
    ensures
        path_ok(uri_path(value@)) ==> (r matches Ok(p) && p@ == uri_path(value@)),
        !path_ok(uri_path(value@)) ==> (r matches Err(LibraryError::InvalidUri(s)) && s@ == uri_path(
            value@,
        )),
{
    let chars = chars_of(value);
    let trimmed = trim_chars(&chars);
    let p = strip_chars(&trimmed, CharClass::Exactly('/'));
    let pieces = split_chars(&p, '/');
    let mut bad = false;
    let mut i: usize = 0;
    while i < pieces.len()
        invariant
            i <= pieces@.len(),
            pieces@.len() == split_pieces(p@, '/').len(),
            forall|k: int| 0 <= k < pieces@.len() ==> (#[trigger] pieces@[k])@ == split_pieces(p@, '/')[k],
            bad == exists|k: int| 0 <= k < i && split_pieces(p@, '/')[k] == seq!['.', '.'],
        decreases pieces@.len() - i,
    {
        let piece = &pieces[i];
        let dd = piece.len() == 2 && piece[0] == '.' && piece[1] == '.';
        proof {
            if dd {
                assert(piece@ =~= seq!['.', '.']);
            } else if piece@.len() == 2 {
                assert(piece@ != seq!['.', '.']);
            }
        }
        bad = bad || dd;
        i = i + 1;
    }
    let backslash = crate::text::chars_have(&p, '\\');
    let text = string_from(&p);
    proof {
        let sp = split_pieces(p@, '/');
        if sp.contains(seq!['.', '.']) {
            let k = choose|k: int| 0 <= k < sp.len() && sp[k] == seq!['.', '.'];
        }
    }
    if bad || backslash {
        Err(LibraryError::InvalidUri(text))
    } else {
        Ok(text)
    }
}

/// The text after the first `/` of `s` and the text before it; all of `s` and nothing when `s`
/// has no `/` (`str::split_once`).
pub open spec fn split_at_slash(s: Seq<char>) -> (Seq<char>, Seq<char>) {
    if exists|k: int| 0 <= k < s.len() && s[k] == '/' {
        let k = choose|k: int|
            0 <= k < s.len() && s[k] == '/' && forall|j: int| 0 <= j < k ==> s[j] != '/';
        (s.take(k), s.skip(k + 1))
    } else {
        (s, Seq::empty())
    }
}

/// The `okf://` scheme prefix.
pub open spec fn uri_scheme() -> Seq<char> {
    seq!['o', 'k', 'f', ':', '/', '/']
}

/// Canonical text of a URI: `okf://<library>/<path>`.
pub open spec fn uri_text(library: Seq<char>, path: Seq<char>) -> Seq<char> {
    uri_scheme() + library + seq!['/'] + path
}

/// Library and path parts of a URI text, when it starts with the `okf://` scheme.
pub open spec fn uri_parts(value: Seq<char>) -> Option<(Seq<char>, Seq<char>)> {
    if value.len() >= 6 && value.take(6) == uri_scheme() {
        Some(split_at_slash(value.skip(6)))
    } else {
        None
    }
}

/// Whether `r` is the outcome of parsing URI text `value`: an invalid-URI error without the
/// scheme, an invalid-identifier error for a bad Library part, an invalid-URI error for a bad
/// path, and otherwise the URI of that Library and normalized path.
pub open spec fn uri_parsed(value: Seq<char>, r: LibraryResult<KnowledgeUri>) -> bool {
    match uri_parts(value) {
        None => r matches Err(LibraryError::InvalidUri(s)) && s@ == value,
        Some((lib, path)) => if !valid_library_id(lib) {
            r matches Err(LibraryError::InvalidLibraryId(s)) && s@ == lib
        } else if !path_ok(uri_path(path)) {
            r matches Err(LibraryError::InvalidUri(s)) && s@ == uri_path(path)
        } else {
            r matches Ok(u) && u.spec_library() == lib && u.spec_path() == uri_path(path)
        },
    }
}

/// Whether URI text `value` parses.
pub open spec fn uri_valid(value: Seq<char>) -> bool {
    match uri_parts(value) {
        None => false,
        Some((lib, path)) => valid_library_id(lib) && path_ok(uri_path(path)),
    }
}

/// Canonical address of a logical knowledge node.
#[derive(Debug, PartialEq, Eq, Hash, PartialOrd, Ord)]
pub struct KnowledgeUri {
    library: LibraryId,
    path: String,
}

impl KnowledgeUri {
    /// Validity of a URI: a valid Library identifier, and a path that is acceptable and has no
    /// `/` at either end.
    #[verifier::type_invariant]
    pub closed spec fn well_formed(self) -> bool {
        &&& valid_library_id(self.library@)
        &&& path_ok(self.path@)
        &&& strip(self.path@, CharClass::Exactly('/')) == self.path@
    }

    /// Library identifier text.
    pub closed spec fn spec_library(&self) -> Seq<char> {
        self.library@
    }

    /// Logical path text.
    pub closed spec fn spec_path(&self) -> Seq<char> {
        self.path@
    }

    /// Creates a URI from a Library identity and logical path.
    pub fn new(library: LibraryId, path: &str) -> (r: LibraryResult<KnowledgeUri>)
        ensures
            path_ok(uri_path(path@)) ==> (r matches Ok(u) && u.spec_library() == library@
                && u.spec_path() == uri_path(path@)),
            !path_ok(uri_path(path@)) ==> (r matches Err(LibraryError::InvalidUri(s)) && s@
                == uri_path(path@)),
    {
        proof {
            use_type_invariant(&library);
            lemma_strip_idempotent(trim(path@), CharClass::Exactly('/'));
        }
        let path = normalize_path(path)?;
        Ok(KnowledgeUri { library, path })
    }

    /// Parses the canonical `okf://<library>/<path>` form.
    pub fn parse(value: &str) -> (r: LibraryResult<KnowledgeUri>)
        ensures
            uri_parsed(value@, r),
    {
        let chars = chars_of(value);
        let scheme: [char; 6] = ['o', 'k', 'f', ':', '/', '/'];
        let prefix = slice_range(&scheme, 0, 6);
        assert(prefix@ =~= uri_scheme());
        if !crate::text::chars_start_with(&chars, &prefix) {
            return Err(LibraryError::InvalidUri(owned(value)));
        }
        let rest = slice_range(&chars, 6, chars.len());
        assert(rest@ =~= value@.skip(6));
        let (lib, path) = match crate::text::find_char_from(&rest, '/', 0) {
            Some(k) => {
                proof {
                    let c = choose|c: int|
                        0 <= c < rest@.len() && rest@[c] == '/' && forall|j: int| 0 <= j < c ==> rest@[j] != '/';
                    assert(c == k);
                }
                let lib = slice_range(&rest, 0, k);
                let path = slice_range(&rest, k + 1, rest.len());
                assert(lib@ =~= rest@.take(k as int));
                assert(path@ =~= rest@.skip(k + 1));
                (lib, path)
            },
            None => {
                let lib = slice_range(&rest, 0, rest.len());
                assert(lib@ =~= rest@);
                (lib, Vec::new())
            },
        };
        let library = LibraryId::parse(string_from(&lib).as_str())?;
        KnowledgeUri::new(library, string_from(&path).as_str())
    }

    /// Owning Library.
    pub fn library(&self) -> (r: &LibraryId)
        ensures
            r@ == self.spec_library(),
    {
        &self.library
    }

    /// Logical path relative to the Library root.
    pub fn path(&self) -> (r: &str)
        ensures
            r@ == self.spec_path(),
            path_ok(r@),
    {
        proof {
            use_type_invariant(self);
        }
        self.path.as_str()
    }

    /// Canonical text `okf://<library>/<path>` (the `Display` form).
    pub fn to_text(&self) -> (r: String)
        ensures
            r@ == uri_text(self.spec_library(), self.spec_path()),
            self.well_formed(),
    {
        proof {
            use_type_invariant(self);
        }
        let r = concat3("okf://", self.library.as_str(), "/");
        let mut r = r;
        crate::text::push_all(&mut r, self.path.as_str());
        proof {
            reveal_strlit("okf://");
            reveal_strlit("/");
            assert(r@ =~= uri_text(self.spec_library(), self.spec_path()));
        }
        r
    }

    /// Copies the URI.
    pub fn copy(&self) -> (r: KnowledgeUri)
        ensures
            r.spec_library() == self.spec_library(),
            r.spec_path() == self.spec_path(),
    {
        proof {
            use_type_invariant(self);
        }
        KnowledgeUri { library: self.library.copy(), path: self.path.clone() }
    }
}

impl Clone for KnowledgeUri {
    fn clone(&self) -> (r: KnowledgeUri)
        ensures
            r.spec_library() == self.spec_library(),
            r.spec_path() == self.spec_path(),
    {
        self.copy()
    }
}

/// Parsing the canonical text of a URI gives back its Library and path, when the path is
/// already in normal form (as every path built from canonical text is).
pub proof fn lemma_uri_round_trip(library: Seq<char>, path: Seq<char>)
    requires
        valid_library_id(library),
        path_ok(path),
        uri_path(path) == path,
    ensures
        uri_parts(uri_text(library, path)) == Some((library, path)),
        valid_library_id(library) && path_ok(uri_path(path)) && uri_path(path) == path,
{
    let t = uri_text(library, path);
    assert(t.take(6) =~= uri_scheme());
    let rest = t.skip(6);
    assert(rest =~= library + seq!['/'] + path);
    let k = library.len() as int;
    assert(rest[k] == '/');
    assert forall|j: int| 0 <= j < k implies rest[j] != '/' by {
        assert(rest[j] == library[j]);
        assert(library_id_char(library[j]));
    }
    let c = choose|c: int| 0 <= c < rest.len() && rest[c] == '/' && forall|j: int| 0 <= j < c ==> rest[j] != '/';
    if c < k {
        assert(rest[c] == library[c]);
        assert(library_id_char(library[c]));
    }
    assert(c == k);
    assert(rest.take(k) =~= library);
    assert(rest.skip(k + 1) =~= path);
}

/// Parsing the text that `KnowledgeUri::to_text` gives for a URI whose path has no surrounding
/// white space succeeds with the same Library and path; text without the `okf://` scheme is
/// refused as an invalid URI carrying the text itself.
pub proof fn lemma_parse_to_text_round_trip(
    u: KnowledgeUri,
    text: Seq<char>,
    r: LibraryResult<KnowledgeUri>,
    other: Seq<char>,
    r_other: LibraryResult<KnowledgeUri>,
)
    requires
        u.well_formed(),
        trim(u.spec_path()) == u.spec_path(),
        text == uri_text(u.spec_library(), u.spec_path()),
        uri_parsed(text, r),
        !(other.len() >= 6 && other.take(6) == uri_scheme()),
        uri_parsed(other, r_other),
    ensures
        r matches Ok(v) && v.spec_library() == u.spec_library() && v.spec_path() == u.spec_path(),
        r_other matches Err(LibraryError::InvalidUri(s)) && s@ == other,
{
    lemma_uri_round_trip(u.spec_library(), u.spec_path());
}

/// A set of capabilities.
#[derive(Clone, Copy, Debug, PartialEq, Eq)]
pub struct CapabilitySet {
    list: bool,
    read: bool,
    catalog: bool,
    query: bool,
    refresh: bool,
    maintain: bool,
}

impl CapabilitySet {
    /// Whether `c` is a member.
    pub closed spec fn has(self, c: LibraryCapability) -> bool {
        match c {
            LibraryCapability::List => self.list,
            LibraryCapability::Read => self.read,
            LibraryCapability::Catalog => self.catalog,
            LibraryCapability::Query => self.query,
            LibraryCapability::Refresh => self.refresh,
            LibraryCapability::Maintain => self.maintain,
        }
    }

    /// The empty set.
    pub fn new() -> (r: CapabilitySet)
        ensures
            forall|c: LibraryCapability| !r.has(c),
    {
        CapabilitySet {
            list: false,
            read: false,
            catalog: false,
            query: false,
            refresh: false,
            maintain: false,
        }
    }

    /// Whether `c` is a member.
    pub fn contains(&self, c: &LibraryCapability) -> (r: bool)
        ensures
            r == self.has(*c),
    {
        match c {
            LibraryCapability::List => self.list,
            LibraryCapability::Read => self.read,
            LibraryCapability::Catalog => self.catalog,
            LibraryCapability::Query => self.query,
            LibraryCapability::Refresh => self.refresh,
            LibraryCapability::Maintain => self.maintain,
        }
    }

    /// Adds `c`.
    pub fn insert(&mut self, c: LibraryCapability)
        ensures
            forall|d: LibraryCapability| #[trigger] final(self).has(d) == (old(self).has(d) || d == c),
    {
        match c {
            LibraryCapability::List => self.list = true,
            LibraryCapability::Read => self.read = true,
            LibraryCapability::Catalog => self.catalog = true,
            LibraryCapability::Query => self.query = true,
            LibraryCapability::Refresh => self.refresh = true,
            LibraryCapability::Maintain => self.maintain = true,
        }
    }

    /// Adds `c` and returns the set.
    pub fn with(self, c: LibraryCapability) -> (r: CapabilitySet)
        ensures
            forall|d: LibraryCapability| #[trigger] r.has(d) == (self.has(d) || d == c),
    {
        let mut r = self;
        r.insert(c);
        r
    }

    /// The members of either set.
    pub fn union(&self, other: &CapabilitySet) -> (r: CapabilitySet)
        ensures
            forall|d: LibraryCapability| #[trigger] r.has(d) == (self.has(d) || other.has(d)),
    {
        CapabilitySet {
            list: self.list || other.list,
            read: self.read || other.read,
            catalog: self.catalog || other.catalog,
            query: self.query || other.query,
            refresh: self.refresh || other.refresh,
            maintain: self.maintain || other.maintain,
        }
    }
}

/// How a Library can be obtained or resolved.
#[derive(Clone, Debug, PartialEq, Eq)]
pub enum LibrarySource {
    /// Existing local directory.
    Local {
        /// Local source path.
        path: String,
    },
    /// Git repository source.
    Git {
        /// Repository URL.
        repository: String,
        /// Optional branch, tag, or commit reference.
        reference: Option<String>,
    },
    /// Provider-defined source descriptor.
    Custom {
        /// Stable source kind understood by an adapter.
        kind: String,
        /// Opaque source location.
        location: String,
    },
}

/// How `Debug` writes one character inside a quoted string: quote, backslash and the common
/// control characters escaped, everything else as it is.
pub open spec fn escaped_char(c: char) -> Seq<char> {
    if c == '"' {
        seq!['\\', '"']
    } else if c == '\\' {
        seq!['\\', '\\']
    } else if c == '\n' {
        seq!['\\', 'n']
    } else if c == '\r' {
        seq!['\\', 'r']
    } else if c == '\t' {
        seq!['\\', 't']
    } else if c == '\0' {
        seq!['\\', '0']
    } else {
        seq![c]
    }
}

/// The characters of a text as `Debug` writes them inside quotes.
pub open spec fn escaped_text(s: Seq<char>) -> Seq<char>
    decreases s.len(),
{
    if s.len() == 0 {
        Seq::empty()
    } else {
        escaped_text(s.drop_last()) + escaped_char(s.last())
    }
}

/// A text as `Debug` writes it: quoted and escaped.
pub open spec fn quoted(s: Seq<char>) -> Seq<char> {
    seq!['"'] + escaped_text(s) + seq!['"']
}

/// Appends `value` quoted and escaped to `out`.
fn push_quoted(out: &mut String, value: &str)
    ensures
        final(out)@ == old(out)@ + quoted(value@),
{
    let chars = chars_of(value);
    crate::text::push_char(out, '"');
    let ghost start = out@;
    let mut i: usize = 0;
    while i < chars.len()
        invariant
            i <= chars@.len(),
            chars@ == value@,
            out@ == start + escaped_text(chars@.take(i as int)),
        decreases chars@.len() - i,
    {
        let c = chars[i];
        let ghost before = out@;
        if c == '"' {
            crate::text::push_char(out, '\\');
            crate::text::push_char(out, '"');
        } else if c == '\\' {
            crate::text::push_char(out, '\\');
            crate::text::push_char(out, '\\');
        } else if c == '\n' {
            crate::text::push_char(out, '\\');
            crate::text::push_char(out, 'n');
        } else if c == '\r' {
            crate::text::push_char(out, '\\');
            crate::text::push_char(out, 'r');
        } else if c == '\t' {
            crate::text::push_char(out, '\\');
            crate::text::push_char(out, 't');
        } else if c == '\0' {
            crate::text::push_char(out, '\\');
            crate::text::push_char(out, '0');
        } else {
            crate::text::push_char(out, c);
        }
        proof {
            assert(out@ =~= before + escaped_char(c));
            assert(chars@.take(i + 1).drop_last() =~= chars@.take(i as int));
            assert(chars@.take(i + 1).last() == c);
        }
        i = i + 1;
    }
    crate::text::push_char(out, '"');
    proof {
        assert(chars@.take(chars@.len() as int) =~= chars@);
        assert(out@ =~= old(out)@ + quoted(value@));
    }
}

/// The `Debug` text of a source descriptor.
pub open spec fn source_text(s: LibrarySource) -> Seq<char> {
    match s {
        LibrarySource::Local { path } => "Local { path: "@ + quoted(path@) + " }"@,
        LibrarySource::Git { repository, reference } => "Git { repository: "@ + quoted(repository@)
            + ", reference: "@ + match reference {
            Some(r) => "Some("@ + quoted(r@) + ")"@,
            None => "None"@,
        } + " }"@,
        LibrarySource::Custom { kind, location } => "Custom { kind: "@ + quoted(kind@)
            + ", location: "@ + quoted(location@) + " }"@,
    }
}

impl LibrarySource {
    /// The descriptor as `Debug` writes it, such as `Local { path: "docs" }`.
    pub fn debug_text(&self) -> (r: String)
        ensures
            r@ == source_text(*self),
    {
        let mut out = String::new();
        match self {
            LibrarySource::Local { path } => {
                crate::text::push_all(&mut out, "Local { path: ");
                push_quoted(&mut out, path.as_str());
                crate::text::push_all(&mut out, " }");
            },
            LibrarySource::Git { repository, reference } => {
                crate::text::push_all(&mut out, "Git { repository: ");
                push_quoted(&mut out, repository.as_str());
                crate::text::push_all(&mut out, ", reference: ");
                match reference {
                    Some(r) => {
                        crate::text::push_all(&mut out, "Some(");
                        push_quoted(&mut out, r.as_str());
                        crate::text::push_all(&mut out, ")");
                    },
                    None => crate::text::push_all(&mut out, "None"),
                }
                crate::text::push_all(&mut out, " }");
            },
            LibrarySource::Custom { kind, location } => {
                crate::text::push_all(&mut out, "Custom { kind: ");
                push_quoted(&mut out, kind.as_str());
                crate::text::push_all(&mut out, ", location: ");
                push_quoted(&mut out, location.as_str());
                crate::text::push_all(&mut out, " }");
            },
        }
        proof {
            assert(Seq::<char>::empty() + source_text(*self) =~= source_text(*self));
        }
        out
    }
}

/// Portable declaration of a Library instance.
#[derive(Clone, Debug, PartialEq, Eq)]
pub struct LibraryManifest {
    /// Stable identity.
    pub id: LibraryId,
    /// Human-readable display name.
    pub name: String,
    /// Library content version when known.
    pub version: Option<String>,
    /// Acquisition source when known.
    pub source: Option<LibrarySource>,
    /// Optional source/provider revision used for freshness and caches.
    pub revision: Option<String>,
}

impl LibraryManifest {
    /// Creates a minimal manifest.
    pub fn new(id: LibraryId, name: &str) -> (r: LibraryManifest)
        ensures
            r.id@ == id@,
            r.name@ == name@,
            r.version is None,
            r.source is None,
            r.revision is None,
    {
        LibraryManifest { id, name: owned(name), version: None, source: None, revision: None }
    }
}

/// Type of a logical namespace node.
#[derive(Clone, Copy, Debug, PartialEq, Eq, Structural)]
pub enum KnowledgeNodeKind {
    /// Container node with children.
    Directory,
    /// Readable content node. It may be physical or virtual.
    Content,
}

/// Metadata for one logical knowledge node.
#[derive(Clone, Debug, PartialEq, Eq)]
pub struct KnowledgeNode {
    /// Canonical URI.
    pub uri: KnowledgeUri,
    /// Node kind.
    pub kind: KnowledgeNodeKind,
    /// Optional display title.
    pub title: Option<String>,
    /// Whether the node is generated dynamically.
    pub virtual_node: bool,
}

/// One semantic navigation entry contributed by a Library.
#[derive(Debug)]
pub struct CatalogEntry {
    /// Stable topic identifier within the Library.
    pub id: String,
    /// Display title.
    pub title: String,
    /// Optional explanation of the knowledge scope.
    pub description: Option<String>,
    /// Preferred knowledge URI for this topic.
    pub uri: KnowledgeUri,
    /// Search terms, aliases, or domain vocabulary useful for routing.
    pub terms: TextSet,
}

/// Semantic knowledge map produced by a Library.
#[derive(Debug)]
pub struct LibraryCatalog {
    /// Owning Library.
    pub library: LibraryId,
    /// Catalog entries in deterministic order.
    pub entries: Vec<CatalogEntry>,
}

impl LibraryCatalog {
    /// Creates an empty catalog for a Library.
    pub fn empty(library: LibraryId) -> (r: LibraryCatalog)
        ensures
            r.library@ == library@,
            r.entries@.len() == 0,
    {
        LibraryCatalog { library, entries: Vec::new() }
    }
}

/// Query strategy actually used by a provider.
#[derive(Clone, Debug, PartialEq, Eq)]
pub enum QueryStrategy {
    /// Exact or identifier-based lookup.
    Exact,
    /// Deterministic lexical retrieval.
    Lexical,
    /// Embedding or other semantic retrieval.
    Semantic,
    /// Graph traversal or graph-aware retrieval.
    Graph,
    /// Multi-step agent-backed retrieval.
    Agentic,
    /// Provider-specific strategy.
    Custom(String),
}

/// Portable query request.
#[derive(Clone, Debug, PartialEq, Eq)]
pub struct LibraryQuery {
    /// Natural-language or structured query text.
    pub text: String,
    /// Maximum number of evidence hits.
    pub limit: usize,
}

impl LibraryQuery {
    /// Creates a query with a default limit of 20.
    pub fn new(text: &str) -> (r: LibraryQuery)
        ensures
            r.text@ == text@,
            r.limit == 20,
    {
        LibraryQuery { text: owned(text), limit: 20 }
    }

    /// Sets the maximum number of evidence hits.
    pub fn limit(self, limit: usize) -> (r: LibraryQuery)
        ensures
            r.text@ == self.text@,
            r.limit == limit,
    {
        LibraryQuery { text: self.text, limit }
    }
}

/// One evidence item returned by a query provider.
#[derive(Clone, Debug, PartialEq, Eq)]
pub struct LibraryQueryHit {
    /// Evidence URI.
    pub uri: KnowledgeUri,
    /// Optional display title.
    pub title: Option<String>,
    /// Optional bounded excerpt.
    pub snippet: Option<String>,
    /// Provider-local relevance score, as the bits of an IEEE 754 double.
    pub score_bits: Option<u64>,
    /// Additional portable metadata, in key order.
    pub metadata: Vec<(String, String)>,
}

/// Portable query result envelope.
#[derive(Clone, Debug, PartialEq, Eq)]
pub struct LibraryQueryResult {
    /// Optional synthesized answer. Deterministic providers may omit this.
    pub answer: Option<String>,
    /// Evidence items.
    pub hits: Vec<LibraryQueryHit>,
    /// Provider identity useful for provenance and diagnostics.
    pub provider: String,
    /// Retrieval strategy actually used.
    pub strategy: QueryStrategy,
    /// Optional bounded execution provenance, in key order.
    pub provenance: Vec<(String, String)>,
}

/// Polymorphic access to Library knowledge.
///
/// Implementations may be local, Git-materialized, object-storage-backed, remote, generated,
/// database-backed, or agent-backed. Runtime routing depends only on this capability contract.
pub trait LibraryProvider: Send + Sync {
    /// Stable provider identity.
    fn provider_id(&self) -> &str;

    /// Whether this provider declares capability `c`.
    spec fn declares(&self, c: LibraryCapability) -> bool;

    /// Capabilities implemented by this provider: exactly those it declares.
    fn capabilities(&self) -> (r: CapabilitySet)
        ensures
            forall|c: LibraryCapability| #[trigger] r.has(c) == self.declares(c);

    /// Whether `r` is an answer this provider may give to a catalog request for the Library
    /// identified by `library`. Unless an implementation states more, every answer is allowed.
    open spec fn catalogs(&self, library: Seq<char>, r: LibraryResult<LibraryCatalog>) -> bool {
        true
    }

    /// Whether `r` is an answer this provider may give to listing `path` in `library`.
    open spec fn lists(&self, library: Seq<char>, path: Seq<char>, r: LibraryResult<Vec<KnowledgeNode>>) -> bool {
        true
    }

    /// Whether `r` is an answer this provider may give to reading `uri`.
    open spec fn reads(&self, uri: KnowledgeUri, r: LibraryResult<String>) -> bool {
        true
    }

    /// Whether `r` is an answer this provider may give to `query` on `library`.
    open spec fn answers(&self, library: Seq<char>, query: LibraryQuery, r: LibraryResult<LibraryQueryResult>) -> bool {
        true
    }

    /// Whether `r` is an outcome this provider may report for a refresh.
    open spec fn refreshes(&self, r: LibraryResult<()>) -> bool {
        true
    }

    /// Returns the semantic catalog. A provider without catalog support answers
    /// [`unsupported`]`(LibraryCapability::Catalog)`.
    fn catalog(&self, library: &LibraryId) -> (r: LibraryResult<LibraryCatalog>)
        ensures
            self.catalogs(library@, r);

    /// Lists direct children under a logical path.
    fn list(&self, library: &LibraryId, path: &str) -> (r: LibraryResult<Vec<KnowledgeNode>>)
        ensures
            self.lists(library@, path@, r);

    /// Reads a logical content node.
    fn read(&self, uri: &KnowledgeUri) -> (r: LibraryResult<String>)
        ensures
            self.reads(*uri, r);

    /// Executes a provider-defined query.
    fn query(&self, library: &LibraryId, query: &LibraryQuery) -> (r: LibraryResult<LibraryQueryResult>)
        ensures
            self.answers(library@, *query, r);

    /// Refreshes provider-derived state.
    fn refresh(&self) -> (r: LibraryResult<()>)
        ensures
            self.refreshes(r);
}

/// The answer of a provider that does not implement `capability`.
pub fn unsupported<T>(capability: LibraryCapability) -> (r: LibraryResult<T>)
    ensures
        r matches Err(LibraryError::UnsupportedCapability(c)) && c == capability,
{
    Err(LibraryError::UnsupportedCapability(capability))
}

/// Succeeds when `capabilities` includes `capability`; otherwise reports it as unsupported.
pub fn require_capability(capabilities: CapabilitySet, capability: LibraryCapability) -> (r:
    LibraryResult<()>)
    ensures
        capabilities.has(capability) ==> r is Ok,
        !capabilities.has(capability) ==> r == Err::<(), LibraryError>(
            LibraryError::UnsupportedCapability(capability),
        ),
{
    if capabilities.contains(&capability) {
        Ok(())
    } else {
        Err(LibraryError::UnsupportedCapability(capability))
    }
}

/// Resolved Library instance ready for registration and mounting.
pub struct LibraryInstance<P: ?Sized + LibraryProvider = dyn LibraryProvider> {
    manifest: LibraryManifest,
    provider: Arc<P>,
}

impl<P: ?Sized + LibraryProvider> LibraryInstance<P> {
    /// The instance's manifest.
    pub closed spec fn spec_manifest(&self) -> LibraryManifest {
        self.manifest
    }

    /// The provider serving the instance.
    pub closed spec fn spec_provider(&self) -> Arc<P> {
        self.provider
    }

    /// Creates a resolved Library backed by a provider.
    pub fn new(manifest: LibraryManifest, provider: Arc<P>) -> (r: LibraryInstance<P>)
        ensures
            r.spec_manifest() == manifest,
            r.spec_provider() == provider,
    {
        LibraryInstance { manifest, provider }
    }

    /// Manifest.
    pub fn manifest(&self) -> (r: &LibraryManifest)
        ensures
            *r == self.spec_manifest(),
    {
        &self.manifest
    }

    /// Provider.
    pub fn provider(&self) -> (r: &Arc<P>)
        ensures
            *r == self.spec_provider(),
    {
        &self.provider
    }
}

/// One registered Library and whether it is mounted.
struct Slot {
    instance: LibraryInstance,
    mounted: bool,
}

/// Identifiers of the registered Libraries, in order.
spec fn slot_ids(slots: Seq<Slot>) -> Seq<Seq<char>> {
    slots.map_values(|s: Slot| s.instance.manifest.id@)
}

/// Identifiers of a sequence of manifests.
pub open spec fn manifest_ids(ms: Seq<LibraryManifest>) -> Seq<Seq<char>> {
    ms.map_values(|m: LibraryManifest| m.id@)
}

/// The identifiers among the first `n` of `ids` whose flag is set.
pub open spec fn selected_ids(ids: Seq<Seq<char>>, flags: Seq<bool>, n: int) -> Seq<Seq<char>>
    decreases n,
{
    if n <= 0 {
        seq![]
    } else {
        selected_ids(ids, flags, n - 1) + if flags[n - 1] {
            seq![ids[n - 1]]
        } else {
            seq![]
        }
    }
}

/// Selecting among more identifiers never selects fewer.
pub proof fn lemma_selected_ids_grow(ids: Seq<Seq<char>>, flags: Seq<bool>, i: int, n: int)
    requires
        0 <= i <= n,
    ensures
        selected_ids(ids, flags, i).len() <= selected_ids(ids, flags, n).len(),
    decreases n - i,
{
    if i < n {
        lemma_selected_ids_grow(ids, flags, i, n - 1);
    }
}

/// Whether `x` is one of the first `n` of `ids`.
pub open spec fn among_first(ids: Seq<Seq<char>>, n: int, x: Seq<char>) -> bool {
    exists|j: int| 0 <= j < n && ids[j] == x
}

/// The identifiers selected among the first `n` come from there, in their order: when `ids` is
/// strictly increasing, so is the selection, and every selected identifier is one of the first
/// `n`.
pub proof fn lemma_selected_ids_sorted(ids: Seq<Seq<char>>, flags: Seq<bool>, n: int)
    requires
        strictly_sorted(ids),
        0 <= n <= ids.len(),
        n <= flags.len(),
    ensures
        strictly_sorted(selected_ids(ids, flags, n)),
        forall|k: int|
            0 <= k < selected_ids(ids, flags, n).len() ==> among_first(ids, n, #[trigger] selected_ids(ids, flags, n)[k]),
    decreases n,
{
    if n > 0 {
        lemma_selected_ids_sorted(ids, flags, n - 1);
        let prev = selected_ids(ids, flags, n - 1);
        let cur = selected_ids(ids, flags, n);
        assert forall|k: int| 0 <= k < prev.len() implies among_first(ids, n, #[trigger] prev[k]) by {
            assert(among_first(ids, n - 1, prev[k]));
            let j = choose|j: int| 0 <= j < n - 1 && ids[j] == prev[k];
            assert(ids[j] == prev[k]);
        }
        if flags[n - 1] {
            assert(cur =~= prev.push(ids[n - 1]));
            assert forall|a: int, b: int| 0 <= a < b < cur.len() implies text_lt(
                #[trigger] cur[a],
                #[trigger] cur[b],
            ) by {
                if b == cur.len() - 1 {
                    assert(among_first(ids, n - 1, prev[a]));
                    let j = choose|j: int| 0 <= j < n - 1 && ids[j] == prev[a];
                    assert(cur[a] == prev[a]);
                } else {
                    assert(cur[a] == prev[a] && cur[b] == prev[b]);
                }
            }
            assert forall|k: int| 0 <= k < cur.len() implies among_first(ids, n, #[trigger] cur[k]) by {
                if k < prev.len() {
                    assert(cur[k] == prev[k]);
                } else {
                    assert(cur[k] == ids[n - 1]);
                }
            }
        } else {
            assert(cur =~= prev);
        }
    } else {
        assert(selected_ids(ids, flags, n) =~= Seq::<Seq<char>>::empty());
    }
}

/// The Library identifiers that per-Library answers are given for, in order.
pub open spec fn answered_ids(r: Seq<(LibraryId, LibraryResult<LibraryQueryResult>)>) -> Seq<Seq<char>> {
    r.map_values(|p: (LibraryId, LibraryResult<LibraryQueryResult>)| p.0@)
}

/// Identifier texts of a sequence of Library identifiers.
pub open spec fn library_id_views(ids: Seq<LibraryId>) -> Seq<Seq<char>> {
    ids.map_values(|d: LibraryId| d@)
}

/// Dynamic runtime registry and mount table.
pub struct LibraryRegistry {
    slots: Vec<Slot>,
}

impl Default for LibraryRegistry {
    fn default() -> (r: LibraryRegistry)
        ensures
            r.manifests().len() == 0,
            r.mount_flags().len() == 0,
    {
        LibraryRegistry::new()
    }
}

impl LibraryRegistry {
    #[verifier::type_invariant]
    spec fn well_formed(self) -> bool {
        strictly_sorted(slot_ids(self.slots@))
    }

    /// Manifests of the registered Libraries, in identity order.
    pub closed spec fn manifests(&self) -> Seq<LibraryManifest> {
        self.slots@.map_values(|s: Slot| s.instance.manifest)
    }

    /// Whether each registered Library (in identity order) is mounted.
    pub closed spec fn mount_flags(&self) -> Seq<bool> {
        self.slots@.map_values(|s: Slot| s.mounted)
    }

    /// Providers of the registered Libraries, in identity order.
    pub closed spec fn providers(&self) -> Seq<Arc<dyn LibraryProvider>> {
        self.slots@.map_values(|s: Slot| s.instance.provider)
    }

    /// Whether the provider of the Library registered as `id` may answer a catalog request with
    /// `r`.
    pub open spec fn owner_catalogs(&self, id: Seq<char>, r: LibraryResult<LibraryCatalog>) -> bool {
        exists|i: int|
            0 <= i < self.registered_ids().len() && self.registered_ids()[i] == id
                && #[trigger] (*self.providers()[i]).catalogs(id, r)
    }

    /// Whether the provider of the Library registered as `id` may answer listing `path` with `r`.
    pub open spec fn owner_lists(&self, id: Seq<char>, path: Seq<char>, r: LibraryResult<Vec<KnowledgeNode>>) -> bool {
        exists|i: int|
            0 <= i < self.registered_ids().len() && self.registered_ids()[i] == id
                && #[trigger] (*self.providers()[i]).lists(id, path, r)
    }

    /// Whether the provider of the Library registered as `id` may answer reading `uri` with `r`.
    pub open spec fn owner_reads(&self, id: Seq<char>, uri: KnowledgeUri, r: LibraryResult<String>) -> bool {
        exists|i: int|
            0 <= i < self.registered_ids().len() && self.registered_ids()[i] == id
                && #[trigger] (*self.providers()[i]).reads(uri, r)
    }

    /// Whether the provider of the Library registered as `id` may answer `query` with `r`.
    pub open spec fn owner_answers(&self, id: Seq<char>, query: LibraryQuery, r: LibraryResult<LibraryQueryResult>) -> bool {
        exists|i: int|
            0 <= i < self.registered_ids().len() && self.registered_ids()[i] == id
                && #[trigger] (*self.providers()[i]).answers(id, query, r)
    }

    /// Whether the provider of each registered Library (in identity order) declares `c`.
    pub closed spec fn declared_flags(&self, c: LibraryCapability) -> Seq<bool> {
        self.slots@.map_values(|s: Slot| (*s.instance.provider).declares(c))
    }

    /// Whether each registered Library (in identity order) is mounted and its provider declares
    /// query support.
    pub open spec fn queryable_flags(&self) -> Seq<bool> {
        Seq::new(
            self.mount_flags().len(),
            |i: int| self.mount_flags()[i] && self.declared_flags(LibraryCapability::Query)[i],
        )
    }

    /// Whether the Library registered as `id` has a provider declaring `c`.
    pub open spec fn provider_declares(&self, id: Seq<char>, c: LibraryCapability) -> bool {
        exists|i: int|
            0 <= i < self.registered_ids().len() && self.registered_ids()[i] == id
                && #[trigger] self.declared_flags(c)[i]
    }

    /// Registered Library identifiers in identity order.
    pub open spec fn registered_ids(&self) -> Seq<Seq<char>> {
        manifest_ids(self.manifests())
    }

    /// Whether a Library with identifier `id` is registered.
    pub open spec fn is_registered(&self, id: Seq<char>) -> bool {
        self.registered_ids().contains(id)
    }

    /// Whether a Library with identifier `id` is registered and mounted.
    pub open spec fn is_mounted_spec(&self, id: Seq<char>) -> bool {
        exists|i: int|
            0 <= i < self.registered_ids().len() && self.registered_ids()[i] == id
                && #[trigger] self.mount_flags()[i]
    }

    /// Creates an empty registry.
    pub fn new() -> (r: LibraryRegistry)
        ensures
            r.manifests().len() == 0,
            r.mount_flags().len() == 0,
    {
        LibraryRegistry { slots: Vec::new() }
    }

    /// Position of the Library with identifier `id`.
    fn position(&self, id: &str) -> (r: Option<usize>)
        ensures
            self.manifests().len() == self.slots@.len(),
            self.mount_flags().len() == self.slots@.len(),
            self.registered_ids() == slot_ids(self.slots@),
            match r {
                Some(i) => i < self.slots@.len() && self.registered_ids()[i as int] == id@
                    && self.is_registered(id@),
                None => !self.is_registered(id@),
            },
    {
        proof {
            assert(self.registered_ids() =~= slot_ids(self.slots@));
        }
        let mut i: usize = 0;
        while i < self.slots.len()
            invariant
                i <= self.slots@.len(),
                forall|k: int| 0 <= k < i ==> slot_ids(self.slots@)[k] != id@,
            decreases self.slots@.len() - i,
        {
            if text_eq(self.slots[i].instance.manifest.id.as_str(), id) {
                return Some(i);
            }
            i = i + 1;
        }
        proof {
            if self.is_registered(id@) {
                let k = choose|k: int| 0 <= k < slot_ids(self.slots@).len() && slot_ids(self.slots@)[k] == id@;
            }
        }
        None
    }

    /// Registers a resolved Library without mounting it.
    pub fn register(&mut self, library: LibraryInstance) -> (r: LibraryResult<()>)
        ensures
            old(self).is_registered(library.spec_manifest().id@) ==> {
                &&& r matches Err(LibraryError::Conflict(s)) && s@ == library.spec_manifest().id@
                &&& final(self).manifests() == old(self).manifests()
                &&& final(self).mount_flags() == old(self).mount_flags()
            },
            !old(self).is_registered(library.spec_manifest().id@) ==> {
                &&& r is Ok
                &&& exists|k: int|
                    0 <= k <= old(self).manifests().len() && final(self).manifests() == old(self).manifests().insert(k, library.spec_manifest()) && final(self).mount_flags() == old(self).mount_flags().insert(k, false)
                &&& final(self).is_registered(library.spec_manifest().id@)
                &&& !final(self).is_mounted_spec(library.spec_manifest().id@)
            },
    {
        proof {
            use_type_invariant(&*self);
        }
        let ghost key = library.manifest.id@;
        match self.position(library.manifest.id.as_str()) {
            Some(_) => {
                return Err(LibraryError::Conflict(library.manifest.id.to_text()));
            },
            None => {},
        }
        let ghost old_slots = self.slots@;
        let ghost old_ids = slot_ids(old_slots);
        let mut i: usize = 0;
        while i < self.slots.len()
            invariant
                i <= self.slots@.len(),
                old_slots == self.slots@,
                old_ids == slot_ids(old_slots),
                strictly_sorted(old_ids),
                key == library.manifest.id@,
                forall|j: int| 0 <= j < i ==> text_lt(#[trigger] old_ids[j], key),
            ensures
                i <= old_slots.len(),
                forall|j: int| 0 <= j < i ==> text_lt(#[trigger] old_ids[j], key),
                i < old_slots.len() ==> !text_lt(old_ids[i as int], key),
            decreases self.slots@.len() - i,
        {
            match compare_text(self.slots[i].instance.manifest.id.as_str(), library.manifest.id.as_str()) {
                Order::Less => {
                    i = i + 1;
                },
                _ => {
                    break;
                },
            }
        }
        proof {
            if i < old_slots.len() {
                lemma_text_lt_total(old_ids[i as int], key);
                assert(old_ids[i as int] != key);
            }
        }
        let mut slots: Vec<Slot> = Vec::new();
        std::mem::swap(&mut slots, &mut self.slots);
        let ghost slot_manifest = library.manifest;
        slots.insert(i, Slot { instance: library, mounted: false });
        proof {
            let ns = slots@;
            let nids = slot_ids(ns);
            assert(nids =~= old_ids.insert(i as int, key));
            assert forall|a: int, b: int| 0 <= a < b < nids.len() implies text_lt(
                #[trigger] nids[a],
                #[trigger] nids[b],
            ) by {
                if b < i {
                } else if a < i && b == i {
                } else if a < i && b > i {
                    assert(nids[b] == old_ids[b - 1]);
                } else if a == i {
                    assert(nids[b] == old_ids[b - 1]);
                    if b - 1 > i {
                        lemma_text_lt_transitive(key, old_ids[i as int], old_ids[b - 1]);
                    }
                } else {
                    assert(nids[a] == old_ids[a - 1]);
                    assert(nids[b] == old_ids[b - 1]);
                }
            }
        }
        self.slots = slots;
        proof {
            assert(self.manifests() =~= old(self).manifests().insert(i as int, slot_manifest));
            assert(self.mount_flags() =~= old(self).mount_flags().insert(i as int, false));
            assert(self.registered_ids() =~= slot_ids(self.slots@));
            assert(self.registered_ids()[i as int] == key);
            assert forall|k: int|
                0 <= k < self.registered_ids().len() && self.registered_ids()[k] == key implies !#[trigger] self.mount_flags()[k] by {
                if k != i {
                    if k < i {
                        assert(text_lt(self.registered_ids()[k], self.registered_ids()[i as int]));
                    } else {
                        assert(text_lt(self.registered_ids()[i as int], self.registered_ids()[k]));
                    }
                    lemma_text_lt_irreflexive(key);
                }
            }
        }
        Ok(())
    }

    /// Replaces the mounted flag of the Library at position `i`.
    fn set_mounted(&mut self, i: usize, value: bool)
        requires
            i < old(self).slots@.len(),
        ensures
            final(self).manifests() == old(self).manifests(),
            final(self).mount_flags() == old(self).mount_flags().update(i as int, value),
    {
        proof {
            use_type_invariant(&*self);
        }
        let ghost old_slots = self.slots@;
        let mut slots: Vec<Slot> = Vec::new();
        std::mem::swap(&mut slots, &mut self.slots);
        let mut slot = slots.remove(i);
        slot.mounted = value;
        slots.insert(i, slot);
        proof {
            assert(slot_ids(slots@) =~= slot_ids(old_slots));
        }
        self.slots = slots;
        proof {
            assert(self.manifests() =~= old(self).manifests());
            assert(self.mount_flags() =~= old(self).mount_flags().update(i as int, value));
        }
    }

    /// Removes a Library from the registry. Mounted Libraries are unmounted first.
    pub fn unregister(&mut self, id: &LibraryId) -> (r: LibraryResult<LibraryInstance>)
        ensures
            !old(self).is_registered(id@) ==> {
                &&& r matches Err(LibraryError::UnknownLibrary(s)) && s@ == id@
                &&& final(self).manifests() == old(self).manifests()
                &&& final(self).mount_flags() == old(self).mount_flags()
            },
            old(self).is_registered(id@) ==> exists|i: int|
                0 <= i < old(self).manifests().len() && old(self).registered_ids()[i] == id@ && (
                r matches Ok(instance) && instance.spec_manifest() == old(self).manifests()[i])
                    && final(self).manifests() == old(self).manifests().remove(i) && final(self).mount_flags() == old(self).mount_flags().remove(i),
            !final(self).is_registered(id@),
    {
        proof {
            use_type_invariant(&*self);
        }
        match self.position(id.as_str()) {
            None => Err(LibraryError::UnknownLibrary(id.to_text())),
            Some(i) => {
                let ghost old_slots = self.slots@;
                let mut slots: Vec<Slot> = Vec::new();
                std::mem::swap(&mut slots, &mut self.slots);
                let slot = slots.remove(i);
                proof {
                    let ns = slots@;
                    assert(slot_ids(ns) =~= slot_ids(old_slots).remove(i as int));
                    assert forall|a: int, b: int| 0 <= a < b < slot_ids(ns).len() implies text_lt(
                        #[trigger] slot_ids(ns)[a],
                        #[trigger] slot_ids(ns)[b],
                    ) by {
                        let oa = if a < i { a } else { a + 1 };
                        let ob = if b < i { b } else { b + 1 };
                        assert(slot_ids(ns)[a] == slot_ids(old_slots)[oa]);
                        assert(slot_ids(ns)[b] == slot_ids(old_slots)[ob]);
                    }
                }
                self.slots = slots;
                proof {
                    assert(self.manifests() =~= old(self).manifests().remove(i as int));
                    assert(self.mount_flags() =~= old(self).mount_flags().remove(i as int));
                    assert(self.registered_ids() =~= slot_ids(old_slots).remove(i as int));
                    if self.is_registered(id@) {
                        let k = choose|k: int| 0 <= k < self.registered_ids().len() && self.registered_ids()[k] == id@;
                        let ok = if k < i { k } else { k + 1 };
                        assert(slot_ids(old_slots)[ok] == id@);
                        if ok < i {
                            assert(text_lt(slot_ids(old_slots)[ok], slot_ids(old_slots)[i as int]));
                        } else {
                            assert(text_lt(slot_ids(old_slots)[i as int], slot_ids(old_slots)[ok]));
                        }
                        lemma_text_lt_irreflexive(id@);
                    }
                }
                Ok(slot.instance)
            },
        }
    }

    /// Mounts a registered Library into the active knowledge space.
    pub fn mount(&mut self, id: &LibraryId) -> (r: LibraryResult<()>)
        ensures
            final(self).manifests() == old(self).manifests(),
            !old(self).is_registered(id@) ==> (r matches Err(LibraryError::UnknownLibrary(s)) && s@
                == id@) && final(self).mount_flags() == old(self).mount_flags(),
            old(self).is_registered(id@) ==> r is Ok && exists|i: int|
                0 <= i < old(self).manifests().len() && old(self).registered_ids()[i] == id@ && final(self).mount_flags() == old(self).mount_flags().update(i, true),
            old(self).is_registered(id@) ==> final(self).is_mounted_spec(id@),
    {
        match self.position(id.as_str()) {
            None => Err(LibraryError::UnknownLibrary(id.to_text())),
            Some(i) => {
                self.set_mounted(i, true);
                proof {
                    assert(self.registered_ids() == old(self).registered_ids());
                    assert(self.mount_flags()[i as int]);
                }
                Ok(())
            },
        }
    }

    /// Unmounts a Library without unregistering/materially deleting it.
    pub fn unmount(&mut self, id: &LibraryId) -> (r: LibraryResult<()>)
        ensures
            final(self).manifests() == old(self).manifests(),
            !old(self).is_registered(id@) ==> (r matches Err(LibraryError::UnknownLibrary(s)) && s@
                == id@) && final(self).mount_flags() == old(self).mount_flags(),
            old(self).is_registered(id@) ==> r is Ok && exists|i: int|
                0 <= i < old(self).manifests().len() && old(self).registered_ids()[i] == id@ && final(self).mount_flags() == old(self).mount_flags().update(i, false),
            !final(self).is_mounted_spec(id@),
    {
        proof {
            use_type_invariant(&*self);
        }
        match self.position(id.as_str()) {
            None => {
                proof {
                    if self.is_mounted_spec(id@) {
                        let k = choose|k: int|
                            0 <= k < self.registered_ids().len() && self.registered_ids()[k] == id@
                                && #[trigger] self.mount_flags()[k];
                    }
                }
                Err(LibraryError::UnknownLibrary(id.to_text()))
            },
            Some(i) => {
                self.set_mounted(i, false);
                proof {
                    assert(self.registered_ids() == old(self).registered_ids());
                    assert(strictly_sorted(self.registered_ids()));
                    assert forall|k: int|
                        0 <= k < self.registered_ids().len() && self.registered_ids()[k] == id@ implies !#[trigger] self.mount_flags()[k] by {
                        if k != i {
                            if k < i {
                                assert(text_lt(self.registered_ids()[k], self.registered_ids()[i as int]));
                            } else {
                                assert(text_lt(self.registered_ids()[i as int], self.registered_ids()[k]));
                            }
                            lemma_text_lt_irreflexive(id@);
                        }
                    }
                }
                Ok(())
            },
        }
    }

    /// Returns whether a Library is currently mounted.
    pub fn is_mounted(&self, id: &LibraryId) -> (r: bool)
        ensures
            r == self.is_mounted_spec(id@),
    {
        proof {
            use_type_invariant(self);
        }
        match self.position(id.as_str()) {
            None => {
                proof {
                    if self.is_mounted_spec(id@) {
                        let k = choose|k: int|
                            0 <= k < self.registered_ids().len() && self.registered_ids()[k] == id@
                                && #[trigger] self.mount_flags()[k];
                    }
                }
                false
            },
            Some(i) => {
                proof {
                    assert forall|k: int|
                        0 <= k < self.registered_ids().len() && self.registered_ids()[k] == id@ implies k == i by {
                        if k != i {
                            if k < i {
                                assert(text_lt(self.registered_ids()[k], self.registered_ids()[i as int]));
                            } else {
                                assert(text_lt(self.registered_ids()[i as int], self.registered_ids()[k]));
                            }
                            lemma_text_lt_irreflexive(id@);
                        }
                    }
                    assert(self.mount_flags()[i as int] == self.slots@[i as int].mounted);
                }
                self.slots[i].mounted
            },
        }
    }

    /// Returns all registered manifests in identity order.
    pub fn libraries(&self) -> (r: Vec<&LibraryManifest>)
        ensures
            r@.len() == self.manifests().len(),
            forall|k: int| 0 <= k < r@.len() ==> *r@[k] == self.manifests()[k],
            strictly_sorted(self.registered_ids()),
    {
        proof {
            use_type_invariant(self);
            assert(self.registered_ids() =~= slot_ids(self.slots@));
        }
        let mut out: Vec<&LibraryManifest> = Vec::new();
        let mut i: usize = 0;
        while i < self.slots.len()
            invariant
                i <= self.slots@.len(),
                out@.len() == i,
                forall|k: int| 0 <= k < i ==> *out@[k] == self.slots@[k].instance.manifest,
            decreases self.slots@.len() - i,
        {
            out.push(&self.slots[i].instance.manifest);
            i = i + 1;
        }
        out
    }

    /// The registered and mounted Library at `id`.
    fn mounted_library(&self, id: &LibraryId) -> (r: LibraryResult<&LibraryInstance>)
        ensures
            !self.is_registered(id@) ==> (r matches Err(LibraryError::UnknownLibrary(s)) && s@ == id@),
            self.is_registered(id@) && !self.is_mounted_spec(id@) ==> (r matches Err(
                LibraryError::NotMounted(s),
            ) && s@ == id@),
            self.is_mounted_spec(id@) ==> (r matches Ok(lib) && lib.spec_manifest().id@ == id@
                && (forall|c: LibraryCapability| #[trigger] (*lib.spec_provider()).declares(c)
                == self.provider_declares(id@, c)) && exists|i: int|
                0 <= i < self.registered_ids().len() && self.registered_ids()[i] == id@
                    && #[trigger] self.providers()[i] == lib.spec_provider()),
    {
        proof {
            use_type_invariant(self);
        }
        match self.position(id.as_str()) {
            None => {
                proof {
                    if self.is_mounted_spec(id@) {
                        let k = choose|k: int|
                            0 <= k < self.registered_ids().len() && self.registered_ids()[k] == id@
                                && #[trigger] self.mount_flags()[k];
                    }
                }
                Err(LibraryError::UnknownLibrary(id.to_text()))
            },
            Some(i) => {
                proof {
                    assert forall|k: int|
                        0 <= k < self.registered_ids().len() && self.registered_ids()[k] == id@ implies k == i by {
                        if k != i {
                            if k < i {
                                assert(text_lt(self.registered_ids()[k], self.registered_ids()[i as int]));
                            } else {
                                assert(text_lt(self.registered_ids()[i as int], self.registered_ids()[k]));
                            }
                            lemma_text_lt_irreflexive(id@);
                        }
                    }
                    assert(self.mount_flags()[i as int] == self.slots@[i as int].mounted);
                    assert(self.registered_ids()[i as int] == self.slots@[i as int].instance.manifest.id@);
                    assert(self.providers()[i as int] == self.slots@[i as int].instance.spec_provider());
                    assert forall|c: LibraryCapability| #[trigger] (*self.slots@[i as int].instance.spec_provider()).declares(c)
                        == self.provider_declares(id@, c) by {
                        assert(self.declared_flags(c)[i as int] == (*self.slots@[i as int].instance.provider).declares(c));
                        if self.provider_declares(id@, c) {
                            let j = choose|j: int|
                                0 <= j < self.registered_ids().len() && self.registered_ids()[j] == id@
                                    && #[trigger] self.declared_flags(c)[j];
                            assert(j == i);
                        }
                    }
                }
                if !self.slots[i].mounted {
                    return Err(LibraryError::NotMounted(id.to_text()));
                }
                Ok(&self.slots[i].instance)
            },
        }
    }

    /// Returns one mounted Library's semantic catalog.
    pub fn catalog(&self, id: &LibraryId) -> (r: LibraryResult<LibraryCatalog>)
        ensures
            !self.is_registered(id@) ==> (r matches Err(LibraryError::UnknownLibrary(s)) && s@ == id@),
            self.is_registered(id@) && !self.is_mounted_spec(id@) ==> (r matches Err(
                LibraryError::NotMounted(s),
            ) && s@ == id@),
            self.is_mounted_spec(id@) && !self.provider_declares(id@, LibraryCapability::Catalog) ==> r
                == Err::<LibraryCatalog, LibraryError>(LibraryError::UnsupportedCapability(LibraryCapability::Catalog)),
            self.is_mounted_spec(id@) && self.provider_declares(id@, LibraryCapability::Catalog) ==> self.owner_catalogs(id@, r),
    {
        let library = self.mounted_library(id)?;
        let caps = library.provider.capabilities();
        proof {
            assert(caps.has(LibraryCapability::Catalog) == (*library.spec_provider()).declares(LibraryCapability::Catalog));
            assert((*library.spec_provider()).declares(LibraryCapability::Catalog) == self.provider_declares(id@, LibraryCapability::Catalog));
        }
        match require_capability(caps, LibraryCapability::Catalog) {
            Ok(()) => {},
            Err(e) => {
                return Err(e);
            },
        }
        let r = library.provider.catalog(id);
        proof {
            let i = choose|i: int|
                0 <= i < self.registered_ids().len() && self.registered_ids()[i] == id@
                    && #[trigger] self.providers()[i] == library.spec_provider();
            assert(self.providers()[i] == library.spec_provider());
        }
        r
    }

    /// Lists logical children within a mounted Library.
    pub fn list(&self, id: &LibraryId, path: &str) -> (r: LibraryResult<Vec<KnowledgeNode>>)
        ensures
            !self.is_registered(id@) ==> (r matches Err(LibraryError::UnknownLibrary(s)) && s@ == id@),
            self.is_registered(id@) && !self.is_mounted_spec(id@) ==> (r matches Err(
                LibraryError::NotMounted(s),
            ) && s@ == id@),
            self.is_mounted_spec(id@) && !self.provider_declares(id@, LibraryCapability::List) ==> r
                == Err::<Vec<KnowledgeNode>, LibraryError>(LibraryError::UnsupportedCapability(LibraryCapability::List)),
            self.is_mounted_spec(id@) && self.provider_declares(id@, LibraryCapability::List) ==> self.owner_lists(id@, path@, r),
    {
        let library = self.mounted_library(id)?;
        let caps = library.provider.capabilities();
        proof {
            assert(caps.has(LibraryCapability::List) == (*library.spec_provider()).declares(LibraryCapability::List));
            assert((*library.spec_provider()).declares(LibraryCapability::List) == self.provider_declares(id@, LibraryCapability::List));
        }
        match require_capability(caps, LibraryCapability::List) {
            Ok(()) => {},
            Err(e) => {
                return Err(e);
            },
        }
        let r = library.provider.list(id, path);
        proof {
            let i = choose|i: int|
                0 <= i < self.registered_ids().len() && self.registered_ids()[i] == id@
                    && #[trigger] self.providers()[i] == library.spec_provider();
            assert(self.providers()[i] == library.spec_provider());
        }
        r
    }

    /// Reads a canonical knowledge URI from the owning mounted Library.
    pub fn read(&self, uri: &KnowledgeUri) -> (r: LibraryResult<String>)
        ensures
            !self.is_registered(uri.spec_library()) ==> (r matches Err(LibraryError::UnknownLibrary(s))
                && s@ == uri.spec_library()),
            self.is_registered(uri.spec_library()) && !self.is_mounted_spec(uri.spec_library()) ==> (r matches Err(
                LibraryError::NotMounted(s),
            ) && s@ == uri.spec_library()),
            self.is_mounted_spec(uri.spec_library()) && !self.provider_declares(uri.spec_library(), LibraryCapability::Read) ==> r
                == Err::<String, LibraryError>(LibraryError::UnsupportedCapability(LibraryCapability::Read)),
            self.is_mounted_spec(uri.spec_library()) && self.provider_declares(uri.spec_library(), LibraryCapability::Read) ==> self.owner_reads(uri.spec_library(), *uri, r),
    {
        let library = self.mounted_library(uri.library())?;
        let caps = library.provider.capabilities();
        proof {
            assert(caps.has(LibraryCapability::Read) == (*library.spec_provider()).declares(LibraryCapability::Read));
            assert((*library.spec_provider()).declares(LibraryCapability::Read) == self.provider_declares(uri.spec_library(), LibraryCapability::Read));
        }
        match require_capability(caps, LibraryCapability::Read) {
            Ok(()) => {},
            Err(e) => {
                return Err(e);
            },
        }
        let r = library.provider.read(uri);
        proof {
            let i = choose|i: int|
                0 <= i < self.registered_ids().len() && self.registered_ids()[i] == uri.spec_library()
                    && #[trigger] self.providers()[i] == library.spec_provider();
            assert(self.providers()[i] == library.spec_provider());
        }
        r
    }

    /// Queries one mounted Library using that Library's own provider strategy.
    pub fn query(&self, id: &LibraryId, query: &LibraryQuery) -> (r: LibraryResult<LibraryQueryResult>)
        ensures
            !self.is_registered(id@) ==> (r matches Err(LibraryError::UnknownLibrary(s)) && s@ == id@),
            self.is_registered(id@) && !self.is_mounted_spec(id@) ==> (r matches Err(
                LibraryError::NotMounted(s),
            ) && s@ == id@),
            self.is_mounted_spec(id@) && !self.provider_declares(id@, LibraryCapability::Query) ==> r
                == Err::<LibraryQueryResult, LibraryError>(LibraryError::UnsupportedCapability(LibraryCapability::Query)),
            self.is_mounted_spec(id@) && self.provider_declares(id@, LibraryCapability::Query) ==> self.owner_answers(id@, *query, r),
    {
        let library = self.mounted_library(id)?;
        let caps = library.provider.capabilities();
        proof {
            assert(caps.has(LibraryCapability::Query) == (*library.spec_provider()).declares(LibraryCapability::Query));
            assert((*library.spec_provider()).declares(LibraryCapability::Query) == self.provider_declares(id@, LibraryCapability::Query));
        }
        match require_capability(caps, LibraryCapability::Query) {
            Ok(()) => {},
            Err(e) => {
                return Err(e);
            },
        }
        let r = library.provider.query(id, query);
        proof {
            let i = choose|i: int|
                0 <= i < self.registered_ids().len() && self.registered_ids()[i] == id@
                    && #[trigger] self.providers()[i] == library.spec_provider();
            assert(self.providers()[i] == library.spec_provider());
        }
        r
    }

    /// Identifiers of the mounted Libraries, in identity order.
    pub open spec fn mounted_ids(&self) -> Seq<Seq<char>> {
        selected_ids(self.registered_ids(), self.mount_flags(), self.registered_ids().len() as int)
    }

    /// Returns mounted Library identities in deterministic order.
    pub fn mounted(&self) -> (r: Vec<LibraryId>)
        ensures
            library_id_views(r@) == self.mounted_ids(),
            strictly_sorted(library_id_views(r@)),
    {
        proof {
            use_type_invariant(self);
            assert(self.registered_ids() =~= slot_ids(self.slots@));
            lemma_selected_ids_sorted(self.registered_ids(), self.mount_flags(), self.registered_ids().len() as int);
        }
        let mut out: Vec<LibraryId> = Vec::new();
        let mut i: usize = 0;
        proof {
            assert(library_id_views(out@) =~= Seq::<Seq<char>>::empty());
        }
        while i < self.slots.len()
            invariant
                i <= self.slots@.len(),
                self.registered_ids().len() == self.slots@.len(),
                self.mount_flags().len() == self.slots@.len(),
                library_id_views(out@) == selected_ids(self.registered_ids(), self.mount_flags(), i as int),
            decreases self.slots@.len() - i,
        {
            proof {
                assert(self.mount_flags()[i as int] == self.slots@[i as int].mounted);
                assert(self.registered_ids()[i as int] == self.slots@[i as int].instance.manifest.id@);
            }
            if self.slots[i].mounted {
                let ghost before = out@;
                out.push(self.slots[i].instance.manifest.id.copy());
                proof {
                    assert(library_id_views(out@) =~= library_id_views(before).push(self.registered_ids()[i as int]));
                }
            }
            i = i + 1;
        }
        out
    }

    /// Aggregates all mounted Library catalogs, one per mounted Library in identity order, while
    /// preserving Library boundaries; the first failure is returned.
    pub fn global_catalog(&self) -> (r: LibraryResult<Vec<LibraryCatalog>>)
        ensures
            r matches Ok(catalogs) ==> catalogs@.len() == self.mounted_ids().len(),
            self.mounted_ids().len() == 0 ==> (r matches Ok(catalogs) && catalogs@.len() == 0),
            r matches Ok(catalogs) ==> forall|k: int|
                0 <= k < catalogs@.len() ==> #[trigger] self.owner_catalogs(
                    self.mounted_ids()[k],
                    Ok::<LibraryCatalog, LibraryError>(catalogs@[k]),
                ),
    {
        let mut out: Vec<LibraryCatalog> = Vec::new();
        let mut i: usize = 0;
        while i < self.slots.len()
            invariant
                i <= self.slots@.len(),
                self.registered_ids().len() == self.slots@.len(),
                self.mount_flags().len() == self.slots@.len(),
                out@.len() == selected_ids(self.registered_ids(), self.mount_flags(), i as int).len(),
                forall|k: int|
                    0 <= k < out@.len() ==> #[trigger] self.owner_catalogs(
                        selected_ids(self.registered_ids(), self.mount_flags(), i as int)[k],
                        Ok::<LibraryCatalog, LibraryError>(out@[k]),
                    ),
            decreases self.slots@.len() - i,
        {
            proof {
                assert(self.mount_flags()[i as int] == self.slots@[i as int].mounted);
                assert(self.registered_ids()[i as int] == self.slots@[i as int].instance.manifest.id@);
                assert(self.providers()[i as int] == self.slots@[i as int].instance.provider);
            }
            let ghost sel = selected_ids(self.registered_ids(), self.mount_flags(), i as int);
            let slot = &self.slots[i];
            if slot.mounted {
                proof {
                    lemma_selected_ids_grow(
                        self.registered_ids(),
                        self.mount_flags(),
                        i + 1,
                        self.registered_ids().len() as int,
                    );
                    assert(self.mounted_ids().len() > 0);
                }
                let id = &slot.instance.manifest.id;
                require_capability(slot.instance.provider.capabilities(), LibraryCapability::Catalog)?;
                let catalog = slot.instance.provider.catalog(id)?;
                let ghost before = out@;
                out.push(catalog);
                proof {
                    let sel2 = selected_ids(self.registered_ids(), self.mount_flags(), i + 1);
                    assert(sel2 == sel.push(self.registered_ids()[i as int]));
                    assert forall|k: int| 0 <= k < out@.len() implies #[trigger] self.owner_catalogs(
                        sel2[k],
                        Ok::<LibraryCatalog, LibraryError>(out@[k]),
                    ) by {
                        if k < before.len() {
                            assert(out@[k] == before[k] && sel2[k] == sel[k]);
                        } else {
                            assert(sel2[k] == id@);
                            assert((*self.providers()[i as int]).catalogs(id@, Ok::<LibraryCatalog, LibraryError>(out@[k])));
                        }
                    }
                }
            } else {
                proof {
                    assert(selected_ids(self.registered_ids(), self.mount_flags(), i + 1) =~= sel);
                }
            }
            i = i + 1;
        }
        Ok(out)
    }

    /// Queries every mounted Library that declares query support, in identity order.
    pub fn query_all(&self, query: &LibraryQuery) -> (r: Vec<(LibraryId, LibraryResult<LibraryQueryResult>)>)
        ensures
            answered_ids(r@) == selected_ids(
                self.registered_ids(),
                self.queryable_flags(),
                self.registered_ids().len() as int,
            ),
            forall|k: int| 0 <= k < r@.len() ==> self.is_mounted_spec(#[trigger] r@[k].0@),
            forall|a: int, b: int| 0 <= a < b < r@.len() ==> text_lt(#[trigger] r@[a].0@, #[trigger] r@[b].0@),
            forall|k: int| 0 <= k < r@.len() ==> #[trigger] self.owner_answers(r@[k].0@, *query, r@[k].1),
    {
        proof {
            use_type_invariant(self);
            assert(self.registered_ids() =~= slot_ids(self.slots@));
        }
        let mut out: Vec<(LibraryId, LibraryResult<LibraryQueryResult>)> = Vec::new();
        let mut i: usize = 0;
        while i < self.slots.len()
            invariant
                i <= self.slots@.len(),
                strictly_sorted(self.registered_ids()),
                self.registered_ids().len() == self.slots@.len(),
                self.mount_flags().len() == self.slots@.len(),
                answered_ids(out@) == selected_ids(self.registered_ids(), self.queryable_flags(), i as int),
                forall|k: int| 0 <= k < out@.len() ==> self.is_mounted_spec(#[trigger] out@[k].0@),
                forall|k: int|
                    0 <= k < out@.len() ==> exists|j: int| 0 <= j < i && self.registered_ids()[j] == #[trigger] out@[k].0@,
                forall|a: int, b: int| 0 <= a < b < out@.len() ==> text_lt(#[trigger] out@[a].0@, #[trigger] out@[b].0@),
                forall|k: int| 0 <= k < out@.len() ==> #[trigger] self.owner_answers(out@[k].0@, *query, out@[k].1),
            decreases self.slots@.len() - i,
        {
            proof {
                assert(self.mount_flags()[i as int] == self.slots@[i as int].mounted);
                assert(self.registered_ids()[i as int] == self.slots@[i as int].instance.manifest.id@);
            }
            let slot = &self.slots[i];
            proof {
                assert(self.declared_flags(LibraryCapability::Query)[i as int] == (*slot.instance.provider).declares(
                    LibraryCapability::Query,
                ));
                assert(self.queryable_flags()[i as int] == (slot.mounted && self.declared_flags(
                    LibraryCapability::Query,
                )[i as int]));
            }
            let queryable = slot.mounted && slot.instance.provider.capabilities().contains(&LibraryCapability::Query);
            assert(queryable == self.queryable_flags()[i as int]);
            if queryable {
                let id = &slot.instance.manifest.id;
                let result = slot.instance.provider.query(id, query);
                let ghost before = out@;
                out.push((id.copy(), result));
                proof {
                    assert(answered_ids(out@) =~= answered_ids(before).push(id@));
                    assert(self.is_mounted_spec(id@));
                    assert forall|a: int, b: int| 0 <= a < b < out@.len() implies text_lt(#[trigger] out@[a].0@, #[trigger] out@[b].0@) by {
                        if b == before.len() {
                            let j = choose|j: int| 0 <= j < i && self.registered_ids()[j] == before[a].0@;
                            assert(out@[a] == before[a]);
                        } else {
                            assert(out@[a] == before[a] && out@[b] == before[b]);
                        }
                    }
                    assert forall|k: int|
                        0 <= k < out@.len() implies exists|j: int| 0 <= j < i + 1 && self.registered_ids()[j] == #[trigger] out@[k].0@ by {
                        if k < before.len() {
                            assert(out@[k] == before[k]);
                            let j = choose|j: int| 0 <= j < i && self.registered_ids()[j] == before[k].0@;
                        } else {
                            assert(self.registered_ids()[i as int] == out@[k].0@);
                        }
                    }
                    assert forall|k: int| 0 <= k < out@.len() implies self.is_mounted_spec(#[trigger] out@[k].0@) by {
                        if k < before.len() {
                            assert(out@[k] == before[k]);
                        }
                    }
                    assert(self.providers()[i as int] == slot.instance.provider);
                    assert forall|k: int| 0 <= k < out@.len() implies #[trigger] self.owner_answers(out@[k].0@, *query, out@[k].1) by {
                        if k < before.len() {
                            assert(out@[k] == before[k]);
                        } else {
                            assert((*self.providers()[i as int]).answers(id@, *query, result));
                        }
                    }
                }
            } else {
                proof {
                    assert(selected_ids(self.registered_ids(), self.queryable_flags(), i + 1) =~= selected_ids(
                        self.registered_ids(),
                        self.queryable_flags(),
                        i as int,
                    ));
                }
            }
            i = i + 1;
        }
        out
    }
}

} // verus!
