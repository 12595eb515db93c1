use okf::library::{
    KnowledgeUri, LibraryError, LibraryId, LibraryInstance, LibraryManifest, LibraryProvider,
    LibraryRegistry, CapabilitySet, LibraryCapability,
};
use okf::library::LibrarySource;
use std::sync::Arc;

#[test]
fn canonical_uri_round_trips() {
    let uri = KnowledgeUri::parse("okf://mcx/interfaces/xcap").unwrap();
    assert_eq!(uri.library().as_str(), "mcx");
    assert_eq!(uri.path(), "interfaces/xcap");
    assert_eq!(uri.to_text(), "okf://mcx/interfaces/xcap");
}

#[test]
fn uri_parsing_reports_each_error() {
    assert!(matches!(KnowledgeUri::parse("http://x/y"), Err(LibraryError::InvalidUri(s)) if s == "http://x/y"));
    assert!(matches!(KnowledgeUri::parse("okf://bad id/y"), Err(LibraryError::InvalidLibraryId(s)) if s == "bad id"));
    assert!(matches!(KnowledgeUri::parse("okf://lib/a/../b"), Err(LibraryError::InvalidUri(s)) if s == "a/../b"));
    let root = KnowledgeUri::parse("okf://lib").unwrap();
    assert_eq!(root.path(), "");
    assert_eq!(root.to_text(), "okf://lib/");
    let trimmed = KnowledgeUri::new(LibraryId::parse("lib").unwrap(), " /docs/a/ ").unwrap();
    assert_eq!(trimmed.path(), "docs/a");
    assert!(KnowledgeUri::new(LibraryId::parse("lib").unwrap(), "a\\b").is_err());
}

#[test]
fn library_ids_are_portable() {
    assert!(LibraryId::parse("project-context_1.0").is_ok());
    assert!(matches!(LibraryId::parse(""), Err(LibraryError::InvalidLibraryId(_))));
    assert!(matches!(LibraryId::parse("a/b"), Err(LibraryError::InvalidLibraryId(_))));
    assert!(matches!(LibraryId::parse("é"), Err(LibraryError::InvalidLibraryId(_))));
}

struct Fixed;

impl LibraryProvider for Fixed {
    fn declares(&self, c: LibraryCapability) -> bool {
        self.capabilities().contains(&c)
    }

    fn provider_id(&self) -> &str {
        "fixed"
    }

    fn capabilities(&self) -> CapabilitySet {
        CapabilitySet::new().with(LibraryCapability::Read)
    }

    fn read(&self, uri: &KnowledgeUri) -> okf::library::LibraryResult<String> {
        Ok(format!("content of {}", uri.path()))
    }

    fn catalog(&self, _library: &okf::library::LibraryId) -> okf::library::LibraryResult<okf::library::LibraryCatalog> {
        okf::library::unsupported(okf::library::LibraryCapability::Catalog)
    }

    fn list(&self, _library: &okf::library::LibraryId, _path: &str) -> okf::library::LibraryResult<Vec<okf::library::KnowledgeNode>> {
        okf::library::unsupported(okf::library::LibraryCapability::List)
    }

    fn query(&self, _library: &okf::library::LibraryId, _query: &okf::library::LibraryQuery) -> okf::library::LibraryResult<okf::library::LibraryQueryResult> {
        okf::library::unsupported(okf::library::LibraryCapability::Query)
    }

    fn refresh(&self) -> okf::library::LibraryResult<()> {
        okf::library::unsupported(okf::library::LibraryCapability::Refresh)
    }
}

fn instance(id: &str) -> LibraryInstance {
    LibraryInstance::new(
        LibraryManifest::new(LibraryId::parse(id).unwrap(), id),
        Arc::new(Fixed),
    )
}

#[test]
fn registry_lifecycle_refuses_unknown_and_unmounted_libraries() {
    let id = LibraryId::parse("demo").unwrap();
    let uri = KnowledgeUri::new(id.clone(), "a").unwrap();
    let mut registry = LibraryRegistry::new();
    assert!(matches!(registry.read(&uri), Err(LibraryError::UnknownLibrary(s)) if s == "demo"));
    assert!(matches!(registry.mount(&id), Err(LibraryError::UnknownLibrary(_))));

    registry.register(instance("demo")).unwrap();
    assert!(matches!(registry.register(instance("demo")), Err(LibraryError::Conflict(s)) if s == "demo"));
    assert!(!registry.is_mounted(&id));
    assert!(matches!(registry.read(&uri), Err(LibraryError::NotMounted(s)) if s == "demo"));

    registry.mount(&id).unwrap();
    assert!(registry.is_mounted(&id));
    assert_eq!(registry.read(&uri).unwrap(), "content of a");
    assert!(matches!(
        registry.catalog(&id),
        Err(LibraryError::UnsupportedCapability(LibraryCapability::Catalog))
    ));
    assert_eq!(registry.mounted().len(), 1);

    registry.unmount(&id).unwrap();
    assert!(matches!(registry.read(&uri), Err(LibraryError::NotMounted(_))));
    assert_eq!(registry.libraries().len(), 1);

    registry.mount(&id).unwrap();
    let removed = registry.unregister(&id).unwrap();
    assert_eq!(removed.manifest().id.as_str(), "demo");
    assert!(!registry.is_mounted(&id));
    assert!(matches!(registry.read(&uri), Err(LibraryError::UnknownLibrary(_))));
    assert!(matches!(registry.unregister(&id), Err(LibraryError::UnknownLibrary(_))));
}

#[test]
fn registry_lists_libraries_in_identity_order() {
    let mut registry = LibraryRegistry::new();
    registry.register(instance("b")).unwrap();
    registry.register(instance("a")).unwrap();
    registry.register(instance("c")).unwrap();
    registry.mount(&LibraryId::parse("c").unwrap()).unwrap();
    registry.mount(&LibraryId::parse("a").unwrap()).unwrap();
    let names = registry.libraries().iter().map(|m| m.id.as_str().to_owned()).collect::<Vec<_>>();
    assert_eq!(names, vec!["a", "b", "c"]);
    let mounted = registry.mounted().iter().map(|id| id.as_str().to_owned()).collect::<Vec<_>>();
    assert_eq!(mounted, vec!["a", "c"]);
    assert!(registry.query_all(&okf::library::LibraryQuery::new("x")).is_empty());
    assert!(registry.global_catalog().is_err());
}

struct Topics {
    id: String,
}

impl LibraryProvider for Topics {
    fn declares(&self, c: LibraryCapability) -> bool {
        self.capabilities().contains(&c)
    }

    fn provider_id(&self) -> &str {
        &self.id
    }

    fn capabilities(&self) -> CapabilitySet {
        CapabilitySet::new().with(LibraryCapability::Catalog).with(LibraryCapability::Read)
    }

    fn catalog(&self, library: &LibraryId) -> okf::library::LibraryResult<okf::library::LibraryCatalog> {
        let mut terms = okf::TextSet::new();
        terms.insert(library.as_str().to_owned());
        let mut catalog = okf::library::LibraryCatalog::empty(library.clone());
        catalog.entries.push(okf::library::CatalogEntry {
            id: "topic".to_owned(),
            title: "Topic".to_owned(),
            description: None,
            uri: KnowledgeUri::new(library.clone(), "topic")?,
            terms,
        });
        Ok(catalog)
    }

    fn read(&self, uri: &KnowledgeUri) -> okf::library::LibraryResult<String> {
        Ok(format!("knowledge from {}", uri.library().as_str()))
    }

    fn list(&self, _library: &okf::library::LibraryId, _path: &str) -> okf::library::LibraryResult<Vec<okf::library::KnowledgeNode>> {
        okf::library::unsupported(okf::library::LibraryCapability::List)
    }

    fn query(&self, _library: &okf::library::LibraryId, _query: &okf::library::LibraryQuery) -> okf::library::LibraryResult<okf::library::LibraryQueryResult> {
        okf::library::unsupported(okf::library::LibraryCapability::Query)
    }

    fn refresh(&self) -> okf::library::LibraryResult<()> {
        okf::library::unsupported(okf::library::LibraryCapability::Refresh)
    }
}

#[test]
fn global_catalog_preserves_library_boundaries() {
    let first = LibraryId::parse("first").unwrap();
    let second = LibraryId::parse("second").unwrap();
    let mut registry = LibraryRegistry::new();

    for id in [&first, &second] {
        let provider = Topics { id: format!("provider-{}", id.as_str()) };
        registry
            .register(LibraryInstance::new(
                LibraryManifest::new(id.clone(), &format!("Library {}", id.as_str())),
                Arc::new(provider),
            ))
            .unwrap();
        registry.mount(id).unwrap();
    }

    let catalogs = registry.global_catalog().unwrap();
    assert_eq!(catalogs.len(), 2);
    assert_ne!(catalogs[0].library, catalogs[1].library);
    assert_eq!(catalogs[0].library.as_str(), "first");
    assert_eq!(catalogs[1].entries[0].uri.to_text(), "okf://second/topic");
    registry.unmount(&first).unwrap();
    assert_eq!(registry.global_catalog().unwrap().len(), 1);
    assert_eq!(registry.libraries().len(), 2);
}

struct Answers {
    name: &'static str,
}

impl LibraryProvider for Answers {
    fn declares(&self, c: LibraryCapability) -> bool {
        self.capabilities().contains(&c)
    }

    fn provider_id(&self) -> &str {
        self.name
    }

    fn capabilities(&self) -> CapabilitySet {
        CapabilitySet::new().with(LibraryCapability::Query)
    }

    fn query(
        &self,
        _library: &LibraryId,
        _query: &okf::library::LibraryQuery,
    ) -> okf::library::LibraryResult<okf::library::LibraryQueryResult> {
        Err(LibraryError::Provider(self.name.to_owned()))
    }

    fn catalog(&self, _library: &okf::library::LibraryId) -> okf::library::LibraryResult<okf::library::LibraryCatalog> {
        okf::library::unsupported(okf::library::LibraryCapability::Catalog)
    }

    fn list(&self, _library: &okf::library::LibraryId, _path: &str) -> okf::library::LibraryResult<Vec<okf::library::KnowledgeNode>> {
        okf::library::unsupported(okf::library::LibraryCapability::List)
    }

    fn read(&self, _uri: &okf::library::KnowledgeUri) -> okf::library::LibraryResult<String> {
        okf::library::unsupported(okf::library::LibraryCapability::Read)
    }

    fn refresh(&self) -> okf::library::LibraryResult<()> {
        okf::library::unsupported(okf::library::LibraryCapability::Refresh)
    }
}

#[test]
fn query_all_asks_every_mounted_library_declaring_query() {
    let mut registry = LibraryRegistry::new();
    for (id, queryable) in [("c", true), ("a", true), ("b", false), ("d", true)] {
        let library = LibraryId::parse(id).unwrap();
        let provider: Arc<dyn LibraryProvider> =
            if queryable { Arc::new(Answers { name: "answers" }) } else { Arc::new(Fixed) };
        registry.register(LibraryInstance::new(LibraryManifest::new(library.clone(), id), provider)).unwrap();
        if id != "d" {
            registry.mount(&library).unwrap();
        }
    }
    let results = registry.query_all(&okf::library::LibraryQuery::new("x"));
    let ids: Vec<&str> = results.iter().map(|(id, _)| id.as_str()).collect();
    assert_eq!(ids, vec!["a", "c"]);
    assert!(matches!(&results[0].1, Err(LibraryError::Provider(m)) if m == "answers"));
    let b = LibraryId::parse("b").unwrap();
    assert!(matches!(
        registry.query(&b, &okf::library::LibraryQuery::new("x")),
        Err(LibraryError::UnsupportedCapability(LibraryCapability::Query))
    ));
    let a = LibraryId::parse("a").unwrap();
    assert!(matches!(
        registry.read(&KnowledgeUri::new(a, "x").unwrap()),
        Err(LibraryError::UnsupportedCapability(LibraryCapability::Read))
    ));
}

struct GitOnly;

impl okf::library_sources::LibrarySourceResolver for GitOnly {
    fn accepts(&self, source: okf::library::LibrarySource) -> bool {
        matches!(source, okf::library::LibrarySource::Git { .. })
    }

    fn resolver_id(&self) -> &str {
        "git"
    }

    fn supports(&self, source: &okf::library::LibrarySource) -> bool {
        matches!(source, okf::library::LibrarySource::Git { .. })
    }

    fn resolve(&self, _source: &okf::library::LibrarySource) -> okf::library::LibraryResult<LibraryInstance> {
        Ok(instance("resolved"))
    }
}

#[test]
fn sources_resolve_through_the_first_supporting_resolver() {
    let git = LibrarySource::Git { repository: "https://example.com/a.git".to_owned(), reference: Some("v1".to_owned()) };
    assert_eq!(git.debug_text(), format!("{git:?}"));
    let local = LibrarySource::Local { path: "docs/\"x\"\\y\n".to_owned() };
    assert_eq!(local.debug_text(), format!("{local:?}"));
    let custom = LibrarySource::Custom { kind: "s3".to_owned(), location: "bucket".to_owned() };
    assert_eq!(custom.debug_text(), format!("{custom:?}"));

    let mut resolvers: okf::library_sources::LibrarySourceResolvers = okf::library_sources::LibrarySourceResolvers::new();
    resolvers.register(Arc::new(GitOnly));
    assert_eq!(resolvers.resolve(&git).unwrap().manifest().id.as_str(), "resolved");
    match resolvers.resolve(&local) {
        Err(LibraryError::Provider(m)) => assert_eq!(m, format!("no source resolver supports {local:?}")),
        _ => panic!("no resolver supports a local source"),
    }
}

struct AcceptsAll;

impl okf::library_sources::LibrarySourceResolver for AcceptsAll {
    fn resolver_id(&self) -> &str {
        "all"
    }

    fn accepts(&self, _source: LibrarySource) -> bool {
        true
    }

    fn supports(&self, _source: &LibrarySource) -> bool {
        true
    }

    fn resolve(&self, _source: &LibrarySource) -> okf::library::LibraryResult<LibraryInstance> {
        Ok(instance("second"))
    }
}

#[test]
fn earlier_resolvers_take_priority() {
    let git = LibrarySource::Git { repository: "https://example.com/a.git".to_owned(), reference: None };
    let local = LibrarySource::Local { path: "docs".to_owned() };

    let mut resolvers: okf::library_sources::LibrarySourceResolvers = okf::library_sources::LibrarySourceResolvers::new();
    resolvers.register(Arc::new(GitOnly));
    resolvers.register(Arc::new(AcceptsAll));
    assert_eq!(resolvers.resolve(&git).unwrap().manifest().id.as_str(), "resolved");
    assert_eq!(resolvers.resolve(&local).unwrap().manifest().id.as_str(), "second");

    let mut reversed: okf::library_sources::LibrarySourceResolvers = okf::library_sources::LibrarySourceResolvers::new();
    reversed.register(Arc::new(AcceptsAll));
    reversed.register(Arc::new(GitOnly));
    assert_eq!(reversed.resolve(&git).unwrap().manifest().id.as_str(), "second");
}
