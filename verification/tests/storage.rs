use okf::library::{KnowledgeNode, KnowledgeNodeKind, KnowledgeUri, LibraryCapability, LibraryError, LibraryId, LibraryQuery, QueryStrategy};
use okf::library_manifest::{
    LibraryCatalogDeclaration, LibraryManifestError, LibraryPackageManifest, LibraryProviderDeclaration, LibraryQueryDeclaration,
};
use okf::model::TextSet;
use okf::provider_protocol::{
    catalog_from_wire, check_request_protocol, ProviderOperation, ProviderRequest, ProviderResponse,
    WireCatalogEntry, WireLibraryCatalog,
};
use okf::s3_provider::{not_utf8_error, s3_error, S3ContentProvider};
use okf::sqlite_provider::{
    lock_error, sqlite_capabilities, sqlite_child_prefix, sqlite_children, sqlite_curated_catalog,
    sqlite_derived_catalog, sqlite_ensure_library, sqlite_error, sqlite_like_pattern,
    sqlite_query_plan, sqlite_query_result, sqlite_read_result, sqlite_schema_check,
    SqliteCatalogRow,
};

fn id(text: &str) -> LibraryId {
    LibraryId::parse(text).unwrap()
}

fn terms(items: &[&str]) -> TextSet {
    let mut set = TextSet::new();
    for item in items {
        set.insert((*item).to_owned());
    }
    set
}

fn summary(nodes: &[KnowledgeNode]) -> Vec<(String, KnowledgeNodeKind)> {
    nodes.iter().map(|n| (n.uri.path().to_owned(), n.kind)).collect()
}

#[test]
fn request_uses_canonical_uri_strings() {
    let id = LibraryId::parse("demo").expect("id");
    let uri = KnowledgeUri::new(id, "docs/a").expect("uri");
    let request = ProviderRequest::read(uri);
    assert_eq!(request.uri.as_deref(), Some("okf://demo/docs/a"));
    assert_eq!(request.operation, ProviderOperation::Read);
    assert_eq!(request.protocol, "okf-provider/1");
    assert_eq!(request.library.as_str(), "demo");
}

#[test]
fn language_neutral_catalog_decodes() {
    let wire = WireLibraryCatalog {
        library: "demo".to_owned(),
        entries: vec![WireCatalogEntry {
            id: "a".to_owned(),
            title: "A".to_owned(),
            description: None,
            uri: "okf://demo/a".to_owned(),
            terms: terms(&["alpha"]),
        }],
    };
    let catalog = catalog_from_wire(&wire).expect("catalog");
    assert_eq!(catalog.entries[0].uri.to_text(), "okf://demo/a");
}

#[test]
fn foreign_catalog_uris_and_protocols_are_refused() {
    let wire = WireLibraryCatalog {
        library: "demo".to_owned(),
        entries: vec![WireCatalogEntry {
            id: "a".to_owned(),
            title: "A".to_owned(),
            description: None,
            uri: "okf://other/a".to_owned(),
            terms: TextSet::new(),
        }],
    };
    assert!(matches!(
        catalog_from_wire(&wire),
        Err(LibraryError::Provider(m)) if m == "catalog URI 'okf://other/a' does not belong to Library 'demo'"
    ));
    let mut request = ProviderRequest::catalog(id("demo"));
    request.protocol = "okf-provider/0".to_owned();
    assert!(matches!(
        check_request_protocol(request),
        Err(LibraryError::Provider(m)) if m == "unsupported provider protocol 'okf-provider/0'"
    ));
    let failed = ProviderResponse::failure("not-found", "no such node").success_data();
    assert!(matches!(failed, Err(LibraryError::Provider(m)) if m == "not-found: no such node"));
}

fn manifest(providers: Vec<LibraryProviderDeclaration>) -> LibraryPackageManifest {
    LibraryPackageManifest {
        schema_version: "1".to_owned(),
        id: "demo".to_owned(),
        name: "Demo".to_owned(),
        version: None,
        catalog: Vec::new(),
        query: LibraryQueryDeclaration::default(),
        providers,
    }
}

fn declaration(id: &str, kind: &str, capabilities: &[&str]) -> LibraryProviderDeclaration {
    LibraryProviderDeclaration {
        id: id.to_owned(),
        kind: kind.to_owned(),
        capabilities: terms(capabilities),
        config: Vec::new(),
    }
}

#[test]
fn rejects_duplicate_provider_ids() {
    let error = manifest(vec![declaration("p", "process", &["read"]), declaration("p", "http", &["query"])])
        .validate()
        .expect_err("duplicate ids");
    assert!(error.message().contains("duplicate provider id"));
}

#[test]
fn schema_one_accepts_provider_deployments_without_breaking_old_manifests() {
    let old = manifest(Vec::new());
    assert!(old.validate().is_ok());
    assert!(old.providers.is_empty());
    let deployed = manifest(vec![declaration("dynamic", "process", &["read", "query"])]);
    assert!(deployed.validate().is_ok());
    assert_eq!(deployed.providers[0].kind, "process");
    let mut future = manifest(Vec::new());
    future.schema_version = "2".to_owned();
    assert_eq!(future.validate(), Err(LibraryManifestError::UnsupportedSchema("2".to_owned())));
}

fn bucket() -> Box<s3::Bucket> {
    s3::Bucket::new(
        "knowledge",
        s3::Region::Custom { region: "local".to_owned(), endpoint: "http://127.0.0.1:9000".to_owned() },
        s3::creds::Credentials::anonymous().unwrap(),
    )
    .unwrap()
}

#[test]
fn s3_keys_follow_the_storage_prefix() {
    let provider = S3ContentProvider::new("s3", bucket(), "/libraries/demo/");
    assert_eq!(provider.provider_id(), "s3");
    assert_eq!(provider.key("/docs/a.md"), "libraries/demo/docs/a.md");
    assert_eq!(provider.key("/"), "libraries/demo");
    assert_eq!(provider.list_prefix(""), "libraries/demo/");
    assert_eq!(provider.list_prefix("docs"), "libraries/demo/docs/");
    let bare = S3ContentProvider::new("s3", bucket(), "//");
    assert_eq!(bare.key("docs/a"), "docs/a");
    assert_eq!(bare.list_prefix(""), "");
    assert_eq!(bare.list_prefix("docs/"), "docs/");
}

#[test]
fn s3_listing_shows_direct_children_in_path_order() {
    let provider = S3ContentProvider::new("s3", bucket(), "libraries/demo");
    let commons = vec!["libraries/demo/docs/guides/".to_owned(), "libraries/demo/docs/".to_owned()];
    let keys = vec![
        "libraries/demo/docs/b.md".to_owned(),
        "libraries/demo/docs/a.md".to_owned(),
        "libraries/demo/docs/".to_owned(),
        "libraries/demo/docs/guides".to_owned(),
        "libraries/demo/other/c.md".to_owned(),
        "libraries/demo/docs/deep/x.md".to_owned(),
    ];
    let nodes = provider.list_children(&id("demo"), "/docs/", &commons, &keys).unwrap();
    assert_eq!(
        summary(&nodes),
        vec![
            ("docs/a.md".to_owned(), KnowledgeNodeKind::Content),
            ("docs/b.md".to_owned(), KnowledgeNodeKind::Content),
            ("docs/guides".to_owned(), KnowledgeNodeKind::Directory),
        ]
    );
    assert!(nodes.iter().all(|n| n.virtual_node && n.title.is_none() && n.uri.library().as_str() == "demo"));
    let root = provider
        .list_children(&id("demo"), "", &vec!["libraries/demo/docs/".to_owned()], &vec!["libraries/demo/readme.md".to_owned()])
        .unwrap();
    assert_eq!(
        summary(&root),
        vec![
            ("docs".to_owned(), KnowledgeNodeKind::Directory),
            ("readme.md".to_owned(), KnowledgeNodeKind::Content),
        ]
    );
    let bad = provider.list_children(&id("demo"), "", &vec![], &vec!["libraries/demo/a\\b".to_owned()]);
    assert!(matches!(bad, Err(LibraryError::InvalidUri(s)) if s == "a\\b"));
    assert_eq!(s3_error("denied"), LibraryError::Provider("S3 provider error: denied".to_owned()));
    let uri = KnowledgeUri::new(id("demo"), "docs/a.md").unwrap();
    assert_eq!(
        not_utf8_error(&uri, "invalid utf-8"),
        LibraryError::Provider("S3 object 'okf://demo/docs/a.md' is not UTF-8 knowledge content: invalid utf-8".to_owned())
    );
}

#[test]
fn sqlite_children_mark_nested_paths_as_directories() {
    assert_eq!(sqlite_child_prefix("/docs/"), "docs/");
    assert_eq!(sqlite_child_prefix(""), "");
    assert_eq!(sqlite_like_pattern("docs"), "docs/%");
    assert_eq!(sqlite_like_pattern("/"), "%");
    let stored = vec![
        "docs/a".to_owned(),
        "docs/guides/intro".to_owned(),
        "docs/guides".to_owned(),
        "docs/".to_owned(),
        "Docs/x".to_owned(),
        "docs/z/y/w".to_owned(),
    ];
    let nodes = sqlite_children(&id("demo"), "docs", &stored).unwrap();
    assert_eq!(
        summary(&nodes),
        vec![
            ("docs/a".to_owned(), KnowledgeNodeKind::Content),
            ("docs/guides".to_owned(), KnowledgeNodeKind::Directory),
            ("docs/z".to_owned(), KnowledgeNodeKind::Directory),
        ]
    );
    let root = sqlite_children(&id("demo"), "", &vec!["a".to_owned(), "b/c".to_owned()]).unwrap();
    assert_eq!(
        summary(&root),
        vec![("a".to_owned(), KnowledgeNodeKind::Content), ("b".to_owned(), KnowledgeNodeKind::Directory)]
    );
}

#[test]
fn sqlite_queries_become_lexical_results() {
    assert_eq!(sqlite_query_plan(&LibraryQuery::new("  run time ").limit(0)), None);
    assert_eq!(
        sqlite_query_plan(&LibraryQuery::new("  run time ").limit(3)),
        Some(("%run time%".to_owned(), 3))
    );
    assert_eq!(
        sqlite_query_plan(&LibraryQuery::new("x").limit(usize::MAX)),
        Some(("%x%".to_owned(), i64::MAX))
    );
    let long = "x".repeat(200);
    let result = sqlite_query_result(
        "db",
        &id("demo"),
        vec![("a".to_owned(), Some("A".to_owned()), "short".to_owned()), ("b".to_owned(), None, long)],
    )
    .unwrap();
    assert_eq!(result.provider, "db");
    assert_eq!(result.strategy, QueryStrategy::Lexical);
    assert!(result.answer.is_none() && result.provenance.is_empty());
    assert_eq!(result.hits.len(), 2);
    assert_eq!(result.hits[0].title.as_deref(), Some("A"));
    assert_eq!(result.hits[0].snippet.as_deref(), Some("short"));
    let cut = result.hits[1].snippet.clone().unwrap();
    assert_eq!(cut.chars().count(), 181);
    assert!(cut.ends_with('…'));
    assert_eq!(result.hits[1].uri.to_text(), "okf://demo/b");
    let empty = sqlite_query_result("db", &id("demo"), Vec::new()).unwrap();
    assert!(empty.hits.is_empty());
}

#[test]
fn sqlite_catalogs_come_from_curated_or_node_rows() {
    let rows = vec![SqliteCatalogRow {
        id: "xcap".to_owned(),
        title: "XCAP".to_owned(),
        description: Some("XCAP documents".to_owned()),
        path: "interfaces/xcap".to_owned(),
        terms_json: "[\"xcap\", \"auid\", \"xcap\"]".to_owned(),
    }];
    let catalog = sqlite_curated_catalog(&id("mcx"), &rows).unwrap();
    assert_eq!(catalog.library.as_str(), "mcx");
    assert_eq!(catalog.entries[0].uri.to_text(), "okf://mcx/interfaces/xcap");
    assert_eq!(catalog.entries[0].terms.to_vec(), vec!["auid".to_owned(), "xcap".to_owned()]);
    let mut broken = rows.clone();
    broken[0].terms_json = "{not json".to_owned();
    match sqlite_curated_catalog(&id("mcx"), &broken) {
        Err(LibraryError::Provider(m)) => assert!(m.starts_with("invalid catalog terms_json: ")),
        _ => panic!("invalid terms must fail"),
    }
    let derived = sqlite_derived_catalog(&id("mcx"), &vec![("a/b".to_owned(), "Title".to_owned())]).unwrap();
    assert_eq!(derived.entries[0].id, "a/b");
    assert_eq!(derived.entries[0].title, "Title");
    assert!(derived.entries[0].description.is_none() && derived.entries[0].terms.is_empty());
    assert!(matches!(
        sqlite_derived_catalog(&id("mcx"), &vec![("../x".to_owned(), "X".to_owned())]),
        Err(LibraryError::InvalidUri(s)) if s == "../x"
    ));
}

#[test]
fn sqlite_reads_schema_and_library_checks() {
    let uri = KnowledgeUri::new(id("demo"), "a").unwrap();
    assert_eq!(sqlite_read_result(&uri, Some("body".to_owned())), Ok("body".to_owned()));
    assert_eq!(
        sqlite_read_result(&uri, None),
        Err(LibraryError::NodeNotFound("okf://demo/a".to_owned()))
    );
    assert!(sqlite_schema_check(true).is_ok());
    assert_eq!(
        sqlite_schema_check(false),
        Err(LibraryError::Provider("SQLite provider requires an okf_nodes table".to_owned()))
    );
    assert_eq!(
        sqlite_ensure_library("db", &id("demo"), &id("x")),
        Err(LibraryError::Provider("SQLite provider 'db' belongs to Library 'demo' but was called for 'x'".to_owned()))
    );
    let caps = sqlite_capabilities();
    assert!(caps.contains(&LibraryCapability::Catalog) && caps.contains(&LibraryCapability::Query));
    assert!(!caps.contains(&LibraryCapability::Refresh));
    assert_eq!(sqlite_error("busy"), LibraryError::Provider("SQLite provider error: busy".to_owned()));
    assert_eq!(lock_error("poisoned"), LibraryError::Provider("SQLite provider lock poisoned: poisoned".to_owned()));
}

#[test]
fn valid_manifest_resolves_its_catalog() {
    let mut m = manifest(vec![declaration("dynamic", "process", &["read"])]);
    m.catalog.push(LibraryCatalogDeclaration {
        id: "xcap".to_owned(),
        title: "XCAP".to_owned(),
        description: None,
        path: "/interfaces/xcap/".to_owned(),
        terms: terms(&["xcap"]),
    });
    assert!(m.validate().is_ok());
    let catalog = m.runtime_catalog().unwrap();
    assert_eq!(catalog.entries[0].uri.to_text(), "okf://demo/interfaces/xcap");
    let runtime = m.runtime_manifest(None).unwrap();
    assert_eq!(runtime.id.as_str(), "demo");
    m.catalog[0].path = "a/../b".to_owned();
    assert_eq!(
        m.validate(),
        Err(LibraryManifestError::Invalid("invalid knowledge URI: a/../b".to_owned()))
    );
    assert!(m.runtime_catalog().is_err());
}

#[test]
fn package_manifest_provides_semantic_catalog_and_query_hints() {
    let mut m = manifest(Vec::new());
    m.id = "mcx".to_owned();
    m.name = "Mission Critical Services".to_owned();
    m.version = Some("2026.1".to_owned());
    m.catalog.push(LibraryCatalogDeclaration {
        id: "xcap".to_owned(),
        title: "XCAP interfaces".to_owned(),
        description: Some("XCAP documents, selectors, AUIDs, and procedures.".to_owned()),
        path: "interfaces/xcap".to_owned(),
        terms: terms(&["xcap", "auid", "document-selector"]),
    });
    m.query = LibraryQueryDeclaration {
        preferred: Some("semantic".to_owned()),
        capabilities: terms(&["lexical", "semantic", "agentic"]),
        hints: vec!["Prefer interfaces/xcap for XCAP terminology.".to_owned()],
    };
    assert!(m.validate().is_ok());
    let catalog = m.runtime_catalog().unwrap();
    assert_eq!(catalog.entries.len(), 1);
    assert_eq!(catalog.entries[0].uri.to_text(), "okf://mcx/interfaces/xcap");
    assert_eq!(m.query.preferred.as_deref(), Some("semantic"));
    assert!(m.query.capabilities.contains("agentic"));
}
