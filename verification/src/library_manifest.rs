//! Portable `okf-library.yaml` package manifest.
//!
//! Reading the file and decoding its YAML happen at the edge; the library validates the decoded
//! declaration and turns it into runtime values.

use vstd::prelude::*;

use crate::library::{
    capability_wire_name, path_ok, uri_path, valid_library_id, CatalogEntry, LibraryCapability, KnowledgeUri, LibraryCatalog,
    LibraryId, LibraryManifest, LibrarySource,
};
use crate::model::TextSet;
use crate::text::{chars_of, concat2, concat3, concat5, owned, text_eq, trim, trim_chars};

verus! {

/// The canonical manifest file name, `okf-library.yaml`.
pub open spec fn manifest_filename() -> Seq<char> {
    "okf-library.yaml"@
}

/// Returns the canonical Library package manifest file name.
pub fn library_manifest_filename() -> (r: String)
    ensures
        r@ == manifest_filename(),
{
    owned("okf-library.yaml")
}

/// Errors produced while loading a Library package manifest.
#[derive(Debug, PartialEq, Eq)]
pub enum LibraryManifestError {
    /// Manifest file could not be read.
    Io {
        /// Manifest path.
        path: String,
        /// Diagnostic of the underlying I/O error.
        message: String,
    },
    /// Manifest YAML is invalid.
    Parse {
        /// Manifest path.
        path: String,
        /// Parser diagnostic.
        message: String,
    },
    /// Manifest declares an unsupported schema version.
    UnsupportedSchema(String),
    /// Manifest contains an invalid Library identity or knowledge path.
    Invalid(String),
}

impl LibraryManifestError {
    /// Human-readable text of the error (its `Display` form).
    pub fn message(&self) -> (r: String)
        ensures
            r@ == match *self {
                LibraryManifestError::Io { path, message } => "failed to read Library manifest "@
                    + path@ + ": "@ + message@,
                LibraryManifestError::Parse { path, message } => "failed to parse Library manifest "@
                    + path@ + ": "@ + message@,
                LibraryManifestError::UnsupportedSchema(s) => "unsupported Library manifest schema version: "@
                    + s@,
                LibraryManifestError::Invalid(s) => "invalid Library manifest: "@ + s@,
            },
    {
        match self {
            LibraryManifestError::Io { path, message } => {
                let head = concat3("failed to read Library manifest ", path.as_str(), ": ");
                concat2(head.as_str(), message.as_str())
            },
            LibraryManifestError::Parse { path, message } => {
                let head = concat3("failed to parse Library manifest ", path.as_str(), ": ");
                concat2(head.as_str(), message.as_str())
            },
            LibraryManifestError::UnsupportedSchema(s) => concat2(
                "unsupported Library manifest schema version: ",
                s.as_str(),
            ),
            LibraryManifestError::Invalid(s) => concat2("invalid Library manifest: ", s.as_str()),
        }
    }
}

/// One semantic topic declaration inside a package manifest.
#[derive(Debug, PartialEq, Eq)]
pub struct LibraryCatalogDeclaration {
    /// Stable topic identifier.
    pub id: String,
    /// Display title.
    pub title: String,
    /// Optional explanation of the topic scope.
    pub description: Option<String>,
    /// Logical path within the Library namespace.
    pub path: String,
    /// Aliases, vocabulary, and routing terms.
    pub terms: TextSet,
}

/// Retrieval guidance declared by a Library package.
///
/// This declaration does not execute code. It tells the host and registered query providers which
/// retrieval modes the Library expects to support and which mode should be preferred.
#[derive(Debug, PartialEq, Eq)]
pub struct LibraryQueryDeclaration {
    /// Preferred query mode, such as `lexical`, `semantic`, `graph`, or `agentic`.
    pub preferred: Option<String>,
    /// Query modes supported by the Library deployment when corresponding providers are present.
    pub capabilities: TextSet,
    /// Domain-specific routing/search hints for a query provider.
    pub hints: Vec<String>,
}

impl Default for LibraryQueryDeclaration {
    fn default() -> (r: LibraryQueryDeclaration)
        ensures
            r.preferred is None,
            r.capabilities@.len() == 0,
            r.hints@.len() == 0,
    {
        LibraryQueryDeclaration { preferred: None, capabilities: TextSet::new(), hints: Vec::new() }
    }
}

/// One concrete provider deployment declared by a Library package.
///
/// The declaration is inert data. Runtime policy decides whether a provider kind may execute,
/// access the network, or receive credentials.
#[derive(Debug, PartialEq)]
pub struct LibraryProviderDeclaration {
    /// Stable deployment-local provider identity.
    pub id: String,
    /// Adapter kind resolved by the host, such as `process`, `http`, `s3`, or `sqlite`.
    pub kind: String,
    /// Library capabilities expected from the resolved adapter.
    pub capabilities: TextSet,
    /// Adapter-specific non-secret configuration, in key order.
    pub config: Vec<(String, serde_json::Value)>,
}

/// Portable package declaration read from `okf-library.yaml`.
#[derive(Debug, PartialEq)]
pub struct LibraryPackageManifest {
    /// Manifest schema version. The current interoperable profile is `1`.
    pub schema_version: String,
    /// Stable Library identifier.
    pub id: String,
    /// Human-readable Library name.
    pub name: String,
    /// Optional knowledge-package version.
    pub version: Option<String>,
    /// Semantic navigation entries owned by this Library.
    pub catalog: Vec<LibraryCatalogDeclaration>,
    /// Optional retrieval guidance for hosts and query providers.
    pub query: LibraryQueryDeclaration,
    /// Optional concrete provider deployments resolved and authorized by the host.
    pub providers: Vec<LibraryProviderDeclaration>,
}

/// Whether a text is empty after trimming.
pub open spec fn blank(s: Seq<char>) -> bool {
    trim(s).len() == 0
}

/// Whether `c` names a Library capability.
pub open spec fn known_capability(c: Seq<char>) -> bool {
    c == "list"@ || c == "read"@ || c == "catalog"@ || c == "query"@ || c == "refresh"@ || c
        == "maintain"@
}

/// The capability names a manifest accepts are exactly the names of the capabilities: every
/// capability's name is accepted, and every accepted name is some capability's.
pub proof fn lemma_known_capabilities(c: LibraryCapability, name: Seq<char>)
    ensures
        known_capability(capability_wire_name(c)),
        known_capability(name) ==> exists|d: LibraryCapability| #[trigger] capability_wire_name(d) == name,
{
    if known_capability(name) {
        if name == "list"@ {
            assert(capability_wire_name(LibraryCapability::List) == name);
        } else if name == "read"@ {
            assert(capability_wire_name(LibraryCapability::Read) == name);
        } else if name == "catalog"@ {
            assert(capability_wire_name(LibraryCapability::Catalog) == name);
        } else if name == "query"@ {
            assert(capability_wire_name(LibraryCapability::Query) == name);
        } else if name == "refresh"@ {
            assert(capability_wire_name(LibraryCapability::Refresh) == name);
        } else {
            assert(capability_wire_name(LibraryCapability::Maintain) == name);
        }
    }
}

/// A capability list made of capability names has no unknown entry, so validation does not
/// refuse the provider for it.
pub proof fn lemma_capability_names_accepted(caps: Seq<Seq<char>>)
    requires
        forall|i: int|
            #![trigger caps[i]]
            0 <= i < caps.len() ==> exists|d: LibraryCapability| #[trigger] capability_wire_name(d) == caps[i],
    ensures
        first_unknown(caps) is None,
    decreases caps.len(),
{
    if caps.len() > 0 {
        let d = choose|d: LibraryCapability| #[trigger] capability_wire_name(d) == caps[0];
        lemma_known_capabilities(d, caps[0]);
        assert forall|i: int|
            #![trigger caps.drop_first()[i]]
            0 <= i < caps.drop_first().len() implies exists|d: LibraryCapability|
            #[trigger] capability_wire_name(d) == caps.drop_first()[i] by {
            assert(caps.drop_first()[i] == caps[i + 1]);
        }
        lemma_capability_names_accepted(caps.drop_first());
    }
}

/// The first entry of `caps` that names no capability.
pub open spec fn first_unknown(caps: Seq<Seq<char>>) -> Option<Seq<char>>
    decreases caps.len(),
{
    if caps.len() == 0 {
        None
    } else if !known_capability(caps[0]) {
        Some(caps[0])
    } else {
        first_unknown(caps.drop_first())
    }
}

/// What is wrong with a catalog declaration, if anything.
pub open spec fn entry_fault(e: LibraryCatalogDeclaration) -> Option<Seq<char>> {
    if !path_ok(uri_path(e.path@)) {
        Some("invalid knowledge URI: "@ + uri_path(e.path@))
    } else if blank(e.id@) || blank(e.title@) {
        Some("catalog entry id and title must be non-empty"@)
    } else {
        None
    }
}

/// The first fault among the first `n` catalog declarations.
pub open spec fn catalog_fault(entries: Seq<LibraryCatalogDeclaration>, n: int) -> Option<Seq<char>>
    decreases n,
{
    if n <= 0 {
        None
    } else {
        match catalog_fault(entries, n - 1) {
            Some(f) => Some(f),
            None => entry_fault(entries[n - 1]),
        }
    }
}

/// What is wrong with provider declaration `i`, given that the earlier ones are sound.
pub open spec fn provider_fault(ps: Seq<LibraryProviderDeclaration>, i: int) -> Option<Seq<char>> {
    let p = ps[i];
    if blank(p.id@) {
        Some("provider id must be non-empty"@)
    } else if blank(p.kind@) {
        Some("provider '"@ + p.id@ + "' kind must be non-empty"@)
    } else if exists|j: int| 0 <= j < i && ps[j].id@ == p.id@ {
        Some("duplicate provider id '"@ + p.id@ + "'"@)
    } else if p.capabilities@.len() == 0 {
        Some("provider '"@ + p.id@ + "' must declare at least one capability"@)
    } else {
        match first_unknown(p.capabilities@) {
            Some(c) => Some("provider '"@ + p.id@ + "' declares unknown capability '"@ + c + "'"@),
            None => None,
        }
    }
}

/// A provider declaration with a non-blank identity and kind, an identity no earlier
/// declaration uses, and at least one capability, all of them capability names, is sound.
pub proof fn lemma_sound_provider(ps: Seq<LibraryProviderDeclaration>, i: int)
    requires
        0 <= i < ps.len(),
        !blank(ps[i].id@),
        !blank(ps[i].kind@),
        forall|j: int| 0 <= j < i ==> ps[j].id@ != ps[i].id@,
        ps[i].capabilities@.len() > 0,
        forall|k: int|
            #![trigger ps[i].capabilities@[k]]
            0 <= k < ps[i].capabilities@.len() ==> exists|d: LibraryCapability| #[trigger] capability_wire_name(d)
                == ps[i].capabilities@[k],
    ensures
        provider_fault(ps, i) is None,
{
    lemma_capability_names_accepted(ps[i].capabilities@);
}

/// The first fault among the first `n` provider declarations.
pub open spec fn providers_fault(ps: Seq<LibraryProviderDeclaration>, n: int) -> Option<Seq<char>>
    decreases n,
{
    if n <= 0 {
        None
    } else {
        match providers_fault(ps, n - 1) {
            Some(f) => Some(f),
            None => provider_fault(ps, n - 1),
        }
    }
}

/// The first reason a schema-1 manifest is invalid: its identifier, then its catalog, then its
/// providers.
pub open spec fn manifest_fault(m: LibraryPackageManifest) -> Option<Seq<char>> {
    if !valid_library_id(m.id@) {
        Some("invalid library id: "@ + m.id@)
    } else {
        match catalog_fault(m.catalog@, m.catalog@.len() as int) {
            Some(f) => Some(f),
            None => providers_fault(m.providers@, m.providers@.len() as int),
        }
    }
}

proof fn lemma_catalog_fault_none(entries: Seq<LibraryCatalogDeclaration>, n: int)
    requires
        0 <= n <= entries.len(),
        catalog_fault(entries, n) is None,
    ensures
        forall|k: int| 0 <= k < n ==> path_ok(uri_path(#[trigger] entries[k].path@)),
    decreases n,
{
    if n > 0 {
        lemma_catalog_fault_none(entries, n - 1);
        assert(entry_fault(entries[n - 1]) is None);
    }
}

/// A schema-1 manifest that validates also resolves: its identifier is a valid Library
/// identifier and every catalog declaration names an acceptable knowledge path, so
/// [`LibraryPackageManifest::runtime_manifest`] and [`LibraryPackageManifest::runtime_catalog`]
/// succeed on it.
pub proof fn lemma_valid_manifest_resolves(m: LibraryPackageManifest)
    requires
        manifest_fault(m) is None,
    ensures
        valid_library_id(m.id@),
        forall|k: int| 0 <= k < m.catalog@.len() ==> path_ok(uri_path(#[trigger] m.catalog@[k].path@)),
{
    lemma_catalog_fault_none(m.catalog@, m.catalog@.len() as int);
}

proof fn lemma_catalog_fault_stable(entries: Seq<LibraryCatalogDeclaration>, k: int, m: int)
    requires
        0 <= k <= m,
        catalog_fault(entries, k) is Some,
    ensures
        catalog_fault(entries, m) == catalog_fault(entries, k),
    decreases m - k,
{
    if m > k {
        lemma_catalog_fault_stable(entries, k, m - 1);
    }
}

proof fn lemma_providers_fault_stable(ps: Seq<LibraryProviderDeclaration>, k: int, m: int)
    requires
        0 <= k <= m,
        providers_fault(ps, k) is Some,
    ensures
        providers_fault(ps, m) == providers_fault(ps, k),
    decreases m - k,
{
    if m > k {
        lemma_providers_fault_stable(ps, k, m - 1);
    }
}

fn is_blank(s: &str) -> (r: bool)
    ensures
        r == blank(s@),
{
    let chars = chars_of(s);
    trim_chars(&chars).len() == 0
}

fn is_known_capability(c: &str) -> (r: bool)
    ensures
        r == known_capability(c@),
{
    text_eq(c, "list") || text_eq(c, "read") || text_eq(c, "catalog") || text_eq(c, "query")
        || text_eq(c, "refresh") || text_eq(c, "maintain")
}

/// The fault of one provider declaration, given the ones before it.
fn check_provider(ps: &Vec<LibraryProviderDeclaration>, i: usize) -> (r: Option<String>)
    requires
        i < ps@.len(),
    ensures
        match r {
            Some(t) => provider_fault(ps@, i as int) == Some(t@),
            None => provider_fault(ps@, i as int) is None,
        },
{
    let p = &ps[i];
    if is_blank(p.id.as_str()) {
        return Some(owned("provider id must be non-empty"));
    }
    if is_blank(p.kind.as_str()) {
        return Some(concat3("provider '", p.id.as_str(), "' kind must be non-empty"));
    }
    let mut j: usize = 0;
    while j < i
        invariant
            j <= i < ps@.len(),
            *p == ps@[i as int],
            !blank(p.id@),
            !blank(p.kind@),
            forall|k: int| 0 <= k < j ==> ps@[k].id@ != ps@[i as int].id@,
        decreases i - j,
    {
        if text_eq(ps[j].id.as_str(), p.id.as_str()) {
            proof {
                assert(ps@[j as int].id@ == ps@[i as int].id@);
            }
            return Some(concat3("duplicate provider id '", p.id.as_str(), "'"));
        }
        j = j + 1;
    }
    let n = p.capabilities.len();
    if n == 0 {
        return Some(concat3("provider '", p.id.as_str(), "' must declare at least one capability"));
    }
    let ghost caps = p.capabilities@;
    let mut k: usize = 0;
    assert(caps.skip(0) =~= caps);
    while k < n
        invariant
            i < ps@.len(),
            *p == ps@[i as int],
            n == caps.len(),
            caps == ps@[i as int].capabilities@,
            !blank(p.id@),
            !blank(p.kind@),
            !(exists|x: int| 0 <= x < i && ps@[x].id@ == p.id@),
            n > 0,
            k <= n,
            first_unknown(caps) == first_unknown(caps.skip(k as int)),
        decreases n - k,
    {
        assert(caps.skip(k as int).drop_first() =~= caps.skip(k + 1));
        assert(caps.skip(k as int)[0] == caps[k as int]);
        let c = p.capabilities.get(k);
        if !is_known_capability(c.as_str()) {
            return Some(
                concat5("provider '", p.id.as_str(), "' declares unknown capability '", c.as_str(), "'"),
            );
        }
        k = k + 1;
    }
    None
}

impl LibraryPackageManifest {
    /// Validates portable fields without activating provider code or network access.
    pub fn validate(&self) -> (r: Result<(), LibraryManifestError>)
        ensures
            self.schema_version@ != "1"@ ==> (r matches Err(LibraryManifestError::UnsupportedSchema(s))
                && s@ == self.schema_version@),
            self.schema_version@ == "1"@ ==> match manifest_fault(*self) {
                Some(f) => r matches Err(LibraryManifestError::Invalid(s)) && s@ == f,
                None => r is Ok,
            },
    {
        if !text_eq(self.schema_version.as_str(), "1") {
            return Err(LibraryManifestError::UnsupportedSchema(self.schema_version.clone()));
        }
        match LibraryId::parse(self.id.as_str()) {
            Ok(_) => {},
            Err(_) => {
                return Err(LibraryManifestError::Invalid(concat2("invalid library id: ", self.id.as_str())));
            },
        }
        let mut k: usize = 0;
        while k < self.catalog.len()
            invariant
                k <= self.catalog@.len(),
                self.schema_version@ == "1"@,
                valid_library_id(self.id@),
                catalog_fault(self.catalog@, k as int) is None,
            decreases self.catalog@.len() - k,
        {
            let entry = &self.catalog[k];
            match crate::library::normalize_path(entry.path.as_str()) {
                Ok(_) => {},
                Err(_) => {
                    let text = crate::library::normalized_text(entry.path.as_str());
                    proof {
                        lemma_catalog_fault_stable(self.catalog@, k + 1, self.catalog@.len() as int);
                    }
                    return Err(LibraryManifestError::Invalid(concat2("invalid knowledge URI: ", text.as_str())));
                },
            }
            if is_blank(entry.id.as_str()) || is_blank(entry.title.as_str()) {
                proof {
                    lemma_catalog_fault_stable(self.catalog@, k + 1, self.catalog@.len() as int);
                }
                return Err(
                    LibraryManifestError::Invalid(owned("catalog entry id and title must be non-empty")),
                );
            }
            k = k + 1;
        }
        let mut i: usize = 0;
        while i < self.providers.len()
            invariant
                i <= self.providers@.len(),
                self.schema_version@ == "1"@,
                catalog_fault(self.catalog@, self.catalog@.len() as int) is None,
                valid_library_id(self.id@),
                providers_fault(self.providers@, i as int) is None,
            decreases self.providers@.len() - i,
        {
            match check_provider(&self.providers, i) {
                Some(t) => {
                    proof {
                        lemma_providers_fault_stable(self.providers@, i + 1, self.providers@.len() as int);
                    }
                    return Err(LibraryManifestError::Invalid(t));
                },
                None => {},
            }
            i = i + 1;
        }
        Ok(())
    }

    /// Converts package identity fields into a resolved runtime manifest.
    pub fn runtime_manifest(&self, source: Option<LibrarySource>) -> (r: Result<LibraryManifest, LibraryManifestError>)
        ensures
            !valid_library_id(self.id@) ==> (r matches Err(LibraryManifestError::Invalid(s)) && s@
                == "invalid library id: "@ + self.id@),
            valid_library_id(self.id@) ==> (r matches Ok(m) && m.id@ == self.id@ && m.name@
                == self.name@ && m.version == self.version && m.source == source && m.revision is None),
    {
        let id = match LibraryId::parse(self.id.as_str()) {
            Ok(id) => id,
            Err(_) => {
                return Err(LibraryManifestError::Invalid(concat2("invalid library id: ", self.id.as_str())));
            },
        };
        let mut manifest = LibraryManifest::new(id, self.name.as_str());
        manifest.version = match &self.version {
            Some(v) => Some(v.clone()),
            None => None,
        };
        manifest.source = source;
        Ok(manifest)
    }

    /// Resolves semantic catalog declarations into canonical knowledge URIs.
    pub fn runtime_catalog(&self) -> (r: Result<LibraryCatalog, LibraryManifestError>)
        ensures
            !valid_library_id(self.id@) ==> (r matches Err(LibraryManifestError::Invalid(s)) && s@
                == "invalid library id: "@ + self.id@),
            valid_library_id(self.id@) ==> (r is Ok <==> forall|k: int|
                0 <= k < self.catalog@.len() ==> path_ok(uri_path(#[trigger] self.catalog@[k].path@))),
            valid_library_id(self.id@) && r is Err ==> exists|k: int|
                0 <= k < self.catalog@.len() && (forall|j: int|
                    0 <= j < k ==> path_ok(uri_path(#[trigger] self.catalog@[j].path@))) && !path_ok(
                    uri_path(self.catalog@[k].path@),
                ) && (r matches Err(LibraryManifestError::Invalid(s)) && s@ == "invalid knowledge URI: "@
                    + uri_path(self.catalog@[k].path@)),
            r matches Ok(c) ==> c.library@ == self.id@ && c.entries@.len() == self.catalog@.len()
                && forall|k: int|
                0 <= k < c.entries@.len() ==> (#[trigger] c.entries@[k]).id@ == self.catalog@[k].id@
                    && c.entries@[k].title@ == self.catalog@[k].title@ && c.entries@[k].description
                    == self.catalog@[k].description && c.entries@[k].terms@ == self.catalog@[k].terms@
                    && c.entries@[k].uri.spec_library() == self.id@ && c.entries@[k].uri.spec_path()
                    == uri_path(self.catalog@[k].path@),
    {
        let id = match LibraryId::parse(self.id.as_str()) {
            Ok(id) => id,
            Err(_) => {
                return Err(LibraryManifestError::Invalid(concat2("invalid library id: ", self.id.as_str())));
            },
        };
        let mut entries: Vec<CatalogEntry> = Vec::new();
        let mut k: usize = 0;
        while k < self.catalog.len()
            invariant
                k <= self.catalog@.len(),
                id@ == self.id@,
                valid_library_id(self.id@),
                entries@.len() == k,
                forall|j: int| 0 <= j < k ==> path_ok(uri_path(#[trigger] self.catalog@[j].path@)),
                forall|j: int|
                    0 <= j < k ==> (#[trigger] entries@[j]).id@ == self.catalog@[j].id@ && entries@[j].title@
                        == self.catalog@[j].title@ && entries@[j].description == self.catalog@[j].description
                        && entries@[j].terms@ == self.catalog@[j].terms@ && entries@[j].uri.spec_library()
                        == self.id@ && entries@[j].uri.spec_path() == uri_path(self.catalog@[j].path@),
            decreases self.catalog@.len() - k,
        {
            let entry = &self.catalog[k];
            let uri = match KnowledgeUri::new(id.copy(), entry.path.as_str()) {
                Ok(u) => u,
                Err(_) => {
                    let text = crate::library::normalized_text(entry.path.as_str());
                    return Err(LibraryManifestError::Invalid(concat2("invalid knowledge URI: ", text.as_str())));
                },
            };
            entries.push(
                CatalogEntry {
                    id: entry.id.clone(),
                    title: entry.title.clone(),
                    description: match &entry.description {
                        Some(d) => Some(d.clone()),
                        None => None,
                    },
                    uri,
                    terms: entry.terms.clone(),
                },
            );
            k = k + 1;
        }
        Ok(LibraryCatalog { library: id, entries })
    }
}

} // verus!
