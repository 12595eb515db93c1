//! Capability-specific provider contracts and composition helpers.
//!
//! These roles let a Library compose catalog, content, query, and refresh implementations from
//! different infrastructure adapters while still presenting one [`LibraryProvider`] to the Runtime.

use vstd::prelude::*;

use std::sync::Arc;

use crate::library::{
    CapabilitySet, KnowledgeNode, KnowledgeUri, LibraryCapability, LibraryCatalog, LibraryError,
    LibraryId, LibraryProvider, LibraryQuery, LibraryQueryResult, LibraryResult,
};
use crate::text::owned;

verus! {

/// Provides hierarchical knowledge content independent of physical storage.
pub trait ContentProvider: Send + Sync {
    /// Stable provider identity for provenance and diagnostics.
    fn provider_id(&self) -> &str;

    /// Whether `r` is an answer this provider may give to listing `path` in `library`. Unless an
    /// implementation states more, every answer is allowed.
    open spec fn lists(&self, library: Seq<char>, path: Seq<char>, r: LibraryResult<Vec<KnowledgeNode>>) -> bool {
        true
    }

    /// Whether `r` is an answer this provider may give to reading `uri`.
    open spec fn reads(&self, uri: KnowledgeUri, r: LibraryResult<String>) -> bool {
        true
    }

    /// Lists direct children under a logical path.
    fn list(&self, library: &LibraryId, path: &str) -> (r: LibraryResult<Vec<KnowledgeNode>>)
        ensures
            self.lists(library@, path@, r);

    /// Reads a canonical logical knowledge node.
    fn read(&self, uri: &KnowledgeUri) -> (r: LibraryResult<String>)
        ensures
            self.reads(*uri, r);
}

/// Provides Library-owned semantic navigation.
pub trait CatalogProvider: Send + Sync {
    /// Stable provider identity for provenance and diagnostics.
    fn provider_id(&self) -> &str;

    /// Whether `r` is an answer this provider may give for the catalog of `library`. Unless an
    /// implementation states more, every answer is allowed.
    open spec fn catalogs(&self, library: Seq<char>, r: LibraryResult<LibraryCatalog>) -> bool {
        true
    }

    /// Returns the current semantic catalog for the Library.
    fn catalog(&self, library: &LibraryId) -> (r: LibraryResult<LibraryCatalog>)
        ensures
            self.catalogs(library@, r);
}

/// Provides retrieval/query behavior for a Library.
pub trait QueryProvider: Send + Sync {
    /// Stable provider identity for provenance and diagnostics.
    fn provider_id(&self) -> &str;

    /// Whether `r` is an answer this provider may give to `query` on `library`. Unless an
    /// implementation states more, every answer is allowed.
    open spec fn answers(&self, library: Seq<char>, query: LibraryQuery, r: LibraryResult<LibraryQueryResult>) -> bool {
        true
    }

    /// Executes a query using provider-specific retrieval intelligence.
    fn query(&self, library: &LibraryId, query: &LibraryQuery) -> (r: LibraryResult<LibraryQueryResult>)
        ensures
            self.answers(library@, *query, r);
}

/// Refreshes provider-derived state such as caches, remote metadata, or indexes.
pub trait RefreshProvider: Send + Sync {
    /// Stable provider identity for diagnostics.
    fn provider_id(&self) -> &str;

    /// Whether `r` is an outcome this provider may report for a refresh. Unless an
    /// implementation states more, every outcome is allowed.
    open spec fn refreshes(&self, r: LibraryResult<()>) -> bool {
        true
    }

    /// Refreshes provider state.
    fn refresh(&self) -> (r: LibraryResult<()>)
        ensures
            self.refreshes(r);
}

/// Composes capability-specific providers into one Runtime-facing Library provider.
///
/// For example a Library may use a generated catalog, an object-storage content provider, and an
/// agent-backed query provider without changing Runtime routing or Library identity. An
/// operation whose role is not filled is answered as an unsupported capability.
pub struct CompositeLibraryProvider<
    C: ?Sized + CatalogProvider = dyn CatalogProvider,
    T: ?Sized + ContentProvider = dyn ContentProvider,
    Q: ?Sized + QueryProvider = dyn QueryProvider,
    R: ?Sized + RefreshProvider = dyn RefreshProvider,
> {
    id: String,
    catalog: Option<Arc<C>>,
    content: Option<Arc<T>>,
    query: Option<Arc<Q>>,
    refresh: Option<Arc<R>>,
}

impl<
    C: ?Sized + CatalogProvider,
    T: ?Sized + ContentProvider,
    Q: ?Sized + QueryProvider,
    R: ?Sized + RefreshProvider,
> CompositeLibraryProvider<C, T, Q, R> {
    /// The Runtime-facing provider identity.
    pub closed spec fn spec_id(&self) -> Seq<char> {
        self.id@
    }

    /// The catalog role.
    pub closed spec fn catalog_role(&self) -> Option<Arc<C>> {
        self.catalog
    }

    /// The content role.
    pub closed spec fn content_role(&self) -> Option<Arc<T>> {
        self.content
    }

    /// The query role.
    pub closed spec fn query_role(&self) -> Option<Arc<Q>> {
        self.query
    }

    /// The refresh role.
    pub closed spec fn refresh_role(&self) -> Option<Arc<R>> {
        self.refresh
    }

    /// Which roles are filled: catalog, content, query, refresh.
    pub closed spec fn roles(&self) -> (bool, bool, bool, bool) {
        (self.catalog is Some, self.content is Some, self.query is Some, self.refresh is Some)
    }

    /// Creates an empty composition with a stable Runtime-facing provider identity.
    pub fn new(id: &str) -> (r: Self)
        ensures
            r.spec_id() == id@,
            r.roles() == (false, false, false, false),
            r.catalog_role() is None,
            r.content_role() is None,
            r.query_role() is None,
            r.refresh_role() is None,
    {
        CompositeLibraryProvider { id: owned(id), catalog: None, content: None, query: None, refresh: None }
    }

    /// Sets the semantic catalog provider.
    pub fn with_catalog(self, provider: Arc<C>) -> (r: Self)
        ensures
            r.spec_id() == self.spec_id(),
            r.roles() == (true, self.roles().1, self.roles().2, self.roles().3),
            r.catalog_role() == Some(provider),
            r.content_role() == self.content_role(),
            r.query_role() == self.query_role(),
            r.refresh_role() == self.refresh_role(),
    {
        let CompositeLibraryProvider { id, catalog: _, content, query, refresh } = self;
        CompositeLibraryProvider { id, catalog: Some(provider), content, query, refresh }
    }

    /// Sets the content provider.
    pub fn with_content(self, provider: Arc<T>) -> (r: Self)
        ensures
            r.spec_id() == self.spec_id(),
            r.roles() == (self.roles().0, true, self.roles().2, self.roles().3),
            r.catalog_role() == self.catalog_role(),
            r.content_role() == Some(provider),
            r.query_role() == self.query_role(),
            r.refresh_role() == self.refresh_role(),
    {
        let CompositeLibraryProvider { id, catalog, content: _, query, refresh } = self;
        CompositeLibraryProvider { id, catalog, content: Some(provider), query, refresh }
    }

    /// Sets the query provider.
    pub fn with_query(self, provider: Arc<Q>) -> (r: Self)
        ensures
            r.spec_id() == self.spec_id(),
            r.roles() == (self.roles().0, self.roles().1, true, self.roles().3),
            r.catalog_role() == self.catalog_role(),
            r.content_role() == self.content_role(),
            r.query_role() == Some(provider),
            r.refresh_role() == self.refresh_role(),
    {
        let CompositeLibraryProvider { id, catalog, content, query: _, refresh } = self;
        CompositeLibraryProvider { id, catalog, content, query: Some(provider), refresh }
    }

    /// Sets the refresh provider.
    pub fn with_refresh(self, provider: Arc<R>) -> (r: Self)
        ensures
            r.spec_id() == self.spec_id(),
            r.roles() == (self.roles().0, self.roles().1, self.roles().2, true),
            r.catalog_role() == self.catalog_role(),
            r.content_role() == self.content_role(),
            r.query_role() == self.query_role(),
            r.refresh_role() == Some(provider),
    {
        let CompositeLibraryProvider { id, catalog, content, query, refresh: _ } = self;
        CompositeLibraryProvider { id, catalog, content, query, refresh: Some(provider) }
    }

    /// Capabilities of the filled roles: catalog; list and read for content; query; refresh.
    pub fn declared_capabilities(&self) -> (r: CapabilitySet)
        ensures
            forall|c: LibraryCapability| #[trigger]
                r.has(c) == match c {
                    LibraryCapability::Catalog => self.roles().0,
                    LibraryCapability::List => self.roles().1,
                    LibraryCapability::Read => self.roles().1,
                    LibraryCapability::Query => self.roles().2,
                    LibraryCapability::Refresh => self.roles().3,
                    LibraryCapability::Maintain => false,
                },
    {
        let mut capabilities = CapabilitySet::new();
        if self.catalog.is_some() {
            capabilities.insert(LibraryCapability::Catalog);
        }
        if self.content.is_some() {
            capabilities.insert(LibraryCapability::List);
            capabilities.insert(LibraryCapability::Read);
        }
        if self.query.is_some() {
            capabilities.insert(LibraryCapability::Query);
        }
        if self.refresh.is_some() {
            capabilities.insert(LibraryCapability::Refresh);
        }
        capabilities
    }
}

impl<
    C: ?Sized + CatalogProvider,
    T: ?Sized + ContentProvider,
    Q: ?Sized + QueryProvider,
    R: ?Sized + RefreshProvider,
> LibraryProvider for CompositeLibraryProvider<C, T, Q, R> {
    fn provider_id(&self) -> (r: &str)
        ensures
            r@ == self.spec_id(),
    {
        self.id.as_str()
    }

    open spec fn declares(&self, c: LibraryCapability) -> bool {
        match c {
            LibraryCapability::Catalog => self.roles().0,
            LibraryCapability::List => self.roles().1,
            LibraryCapability::Read => self.roles().1,
            LibraryCapability::Query => self.roles().2,
            LibraryCapability::Refresh => self.roles().3,
            LibraryCapability::Maintain => false,
        }
    }

    /// The catalog role's answer, or unsupported without one.
    open spec fn catalogs(&self, library: Seq<char>, r: LibraryResult<LibraryCatalog>) -> bool {
        match self.catalog_role() {
            Some(p) => (*p).catalogs(library, r),
            None => r == Err::<LibraryCatalog, LibraryError>(LibraryError::UnsupportedCapability(LibraryCapability::Catalog)),
        }
    }

    /// The content role's answer, or unsupported without one.
    open spec fn lists(&self, library: Seq<char>, path: Seq<char>, r: LibraryResult<Vec<KnowledgeNode>>) -> bool {
        match self.content_role() {
            Some(p) => (*p).lists(library, path, r),
            None => r == Err::<Vec<KnowledgeNode>, LibraryError>(LibraryError::UnsupportedCapability(LibraryCapability::List)),
        }
    }

    /// The content role's answer, or unsupported without one.
    open spec fn reads(&self, uri: KnowledgeUri, r: LibraryResult<String>) -> bool {
        match self.content_role() {
            Some(p) => (*p).reads(uri, r),
            None => r == Err::<String, LibraryError>(LibraryError::UnsupportedCapability(LibraryCapability::Read)),
        }
    }

    /// The query role's answer, or unsupported without one.
    open spec fn answers(&self, library: Seq<char>, query: LibraryQuery, r: LibraryResult<LibraryQueryResult>) -> bool {
        match self.query_role() {
            Some(p) => (*p).answers(library, query, r),
            None => r == Err::<LibraryQueryResult, LibraryError>(LibraryError::UnsupportedCapability(LibraryCapability::Query)),
        }
    }

    /// The refresh role's outcome, or unsupported without one.
    open spec fn refreshes(&self, r: LibraryResult<()>) -> bool {
        match self.refresh_role() {
            Some(p) => (*p).refreshes(r),
            None => r == Err::<(), LibraryError>(LibraryError::UnsupportedCapability(LibraryCapability::Refresh)),
        }
    }

    fn capabilities(&self) -> (r: CapabilitySet)
        ensures
            forall|c: LibraryCapability| #[trigger]
                r.has(c) == match c {
                    LibraryCapability::Catalog => self.roles().0,
                    LibraryCapability::List => self.roles().1,
                    LibraryCapability::Read => self.roles().1,
                    LibraryCapability::Query => self.roles().2,
                    LibraryCapability::Refresh => self.roles().3,
                    LibraryCapability::Maintain => false,
                },
    {
        self.declared_capabilities()
    }

    fn catalog(&self, library: &LibraryId) -> (r: LibraryResult<LibraryCatalog>)
    {
        match &self.catalog {
            Some(provider) => provider.catalog(library),
            None => Err(LibraryError::UnsupportedCapability(LibraryCapability::Catalog)),
        }
    }

    fn list(&self, library: &LibraryId, path: &str) -> (r: LibraryResult<Vec<KnowledgeNode>>)
    {
        match &self.content {
            Some(provider) => provider.list(library, path),
            None => Err(LibraryError::UnsupportedCapability(LibraryCapability::List)),
        }
    }

    fn read(&self, uri: &KnowledgeUri) -> (r: LibraryResult<String>)
    {
        match &self.content {
            Some(provider) => provider.read(uri),
            None => Err(LibraryError::UnsupportedCapability(LibraryCapability::Read)),
        }
    }

    fn query(&self, library: &LibraryId, query: &LibraryQuery) -> (r: LibraryResult<LibraryQueryResult>)
    {
        match &self.query {
            Some(provider) => provider.query(library, query),
            None => Err(LibraryError::UnsupportedCapability(LibraryCapability::Query)),
        }
    }

    fn refresh(&self) -> (r: LibraryResult<()>)
    {
        match &self.refresh {
            Some(provider) => provider.refresh(),
            None => Err(LibraryError::UnsupportedCapability(LibraryCapability::Refresh)),
        }
    }
}

} // verus!
