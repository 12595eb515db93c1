use std::sync::Arc;
use std::time::Duration;

use okf::agent_provider::{agent_result, AgentQueryExecutor, AgentQueryProvider};
use okf::entries::set_entry;
use okf::http_provider::{http_error, HttpLibraryProvider};
use okf::library::{
    CapabilitySet, KnowledgeNodeKind, KnowledgeUri, LibraryCapability, LibraryError, LibraryId,
    LibraryProvider, LibraryQuery, LibraryQueryHit, LibraryQueryResult, LibraryResult,
    QueryStrategy,
};
use okf::library_providers::QueryProvider;
use okf::process_provider::{ProcessLibraryProvider, ProcessOutcome, ProcessStream};
use okf::provider_stack::ProviderStack;
use okf::semantic_provider::{check_index_library, check_query_vector, check_semantic_index, semantic_order, semantic_query_skipped, semantic_result, FnEmbeddingProvider};
use okf::text::decimal_text;

fn id(text: &str) -> LibraryId {
    LibraryId::parse(text).unwrap()
}

fn hit(library: &str, path: &str) -> LibraryQueryHit {
    LibraryQueryHit {
        uri: KnowledgeUri::new(id(library), path).unwrap(),
        title: None,
        snippet: None,
        score_bits: None,
        metadata: Vec::new(),
    }
}

fn result(hits: Vec<LibraryQueryHit>) -> LibraryQueryResult {
    LibraryQueryResult {
        answer: Some("answer".to_owned()),
        hits,
        provider: "executor".to_owned(),
        strategy: QueryStrategy::Lexical,
        provenance: vec![("model".to_owned(), "m1".to_owned()), ("turns".to_owned(), "2".to_owned())],
    }
}

struct Executor {
    library: &'static str,
}

impl AgentQueryExecutor for Executor {
    fn executor_id(&self) -> &str {
        "exec"
    }

    fn execute(&self, _library: &LibraryId, query: &LibraryQuery) -> LibraryResult<LibraryQueryResult> {
        if query.text == "fail" {
            return Err(LibraryError::Provider("model unavailable".to_owned()));
        }
        Ok(result(vec![hit(self.library, "a"), hit(self.library, "b")]))
    }
}

#[test]
fn agent_results_are_attributed_and_scoped_to_the_library() {
    let provider = AgentQueryProvider::new("agent", Arc::new(Executor { library: "demo" }));
    let out = provider.query(&id("demo"), &LibraryQuery::new("runtime")).unwrap();
    assert_eq!(out.provider, "agent");
    assert_eq!(out.strategy, QueryStrategy::Agentic);
    assert_eq!(out.answer.as_deref(), Some("answer"));
    assert_eq!(out.hits.len(), 2);
    assert_eq!(
        out.provenance,
        vec![
            ("agent_executor".to_owned(), "exec".to_owned()),
            ("model".to_owned(), "m1".to_owned()),
            ("turns".to_owned(), "2".to_owned()),
        ]
    );
    assert_eq!(provider.provider_id(), "agent");
}

#[test]
fn agent_evidence_from_another_library_is_refused() {
    let provider = AgentQueryProvider::new("agent", Arc::new(Executor { library: "other" }));
    let error = provider.query(&id("demo"), &LibraryQuery::new("runtime")).unwrap_err();
    assert_eq!(
        error,
        LibraryError::Provider("agent executor 'exec' returned evidence outside Library 'demo'".to_owned())
    );
    let failed = provider.query(&id("other"), &LibraryQuery::new("fail")).unwrap_err();
    assert_eq!(failed, LibraryError::Provider("model unavailable".to_owned()));
}

#[test]
fn agent_executor_provenance_replaces_an_earlier_value() {
    let mut earlier = result(vec![]);
    earlier.provenance.insert(0, ("agent_executor".to_owned(), "old".to_owned()));
    let out = agent_result("agent", "exec", &id("demo"), earlier).unwrap();
    assert_eq!(out.provenance[0], ("agent_executor".to_owned(), "exec".to_owned()));
    assert_eq!(out.provenance.len(), 3);
}

#[test]
fn entries_stay_in_key_order() {
    let mut entries: Vec<(String, String)> = Vec::new();
    set_entry(&mut entries, "b".to_owned(), "2".to_owned());
    set_entry(&mut entries, "a".to_owned(), "1".to_owned());
    set_entry(&mut entries, "c".to_owned(), "3".to_owned());
    set_entry(&mut entries, "b".to_owned(), "two".to_owned());
    let keys: Vec<&str> = entries.iter().map(|(k, _)| k.as_str()).collect();
    assert_eq!(keys, vec!["a", "b", "c"]);
    assert_eq!(entries[1].1, "two");
}

fn process() -> ProcessLibraryProvider {
    ProcessLibraryProvider::new(
        "proc",
        id("demo"),
        "./provider",
        CapabilitySet::new().with(LibraryCapability::Read),
    )
}

#[test]
fn process_provider_builders_configure_the_invocation() {
    let provider = process()
        .args(vec!["--serve".to_owned()])
        .cwd("/srv")
        .env("TOKEN_FILE", "/run/token")
        .env("MODE", "ro")
        .env("MODE", "rw")
        .timeout(Duration::from_secs(5));
    assert_eq!(provider.provider_id(), "proc");
    assert_eq!(provider.command(), "./provider");
    assert_eq!(provider.arguments(), &vec!["--serve".to_owned()]);
    assert_eq!(provider.working_dir(), Some("/srv"));
    assert_eq!(provider.timeout_limit(), Duration::from_secs(5));
    assert!(provider.capabilities().contains(&LibraryCapability::Read));
    assert!(!provider.capabilities().contains(&LibraryCapability::Query));
    let env = provider.environment();
    let pairs: Vec<(&str, &str)> = env.iter().map(|(k, v)| (k.as_str(), v.as_str())).collect();
    assert_eq!(
        pairs,
        vec![
            ("OKF_LIBRARY_ID", "demo"),
            ("OKF_PROVIDER_ID", "proc"),
            ("MODE", "rw"),
            ("TOKEN_FILE", "/run/token"),
        ]
    );
    assert_eq!(process().timeout_limit(), Duration::from_secs(30));
    assert_eq!(process().working_dir(), None);
}

#[test]
fn process_provider_refuses_other_libraries() {
    assert!(process().ensure_library(&id("demo")).is_ok());
    assert_eq!(
        process().ensure_library(&id("other")),
        Err(LibraryError::Provider(
            "process provider 'proc' belongs to Library 'demo' but was called for 'other'".to_owned()
        ))
    );
}

fn failure(outcome: ProcessOutcome) -> String {
    match process().finish_invocation(outcome) {
        Err(LibraryError::Provider(message)) => message,
        other => panic!("unexpected {other:?}"),
    }
}

#[test]
fn process_outcomes_decide_the_invocation() {
    let ok = process().finish_invocation(ProcessOutcome::Exited {
        success: true,
        status: "exit status: 0".to_owned(),
        stdout: b"{\"ok\":true}".to_vec(),
        stderr: String::new(),
    });
    assert_eq!(ok, Ok(b"{\"ok\":true}".to_vec()));
    assert_eq!(
        failure(ProcessOutcome::Exited {
            success: false,
            status: "exit status: 2".to_owned(),
            stdout: Vec::new(),
            stderr: "  boom\n".to_owned(),
        }),
        "process provider 'proc' exited with exit status: 2: boom"
    );
    assert_eq!(
        failure(ProcessOutcome::StartFailed("No such file".to_owned())),
        "failed to start process provider 'proc': No such file"
    );
    assert_eq!(failure(ProcessOutcome::NotPiped(ProcessStream::Stdout)), "process stdout was not piped");
    assert_eq!(failure(ProcessOutcome::NotPiped(ProcessStream::Stderr)), "process stderr was not piped");
    assert_eq!(failure(ProcessOutcome::EncodeFailed("x".to_owned())), "failed to encode request: x");
    assert_eq!(
        failure(ProcessOutcome::WriteFailed("pipe".to_owned())),
        "failed to write process provider request: pipe"
    );
    assert_eq!(
        failure(ProcessOutcome::FinishFailed("pipe".to_owned())),
        "failed to finish process provider request: pipe"
    );
    assert_eq!(failure(ProcessOutcome::WaitFailed("w".to_owned())), "failed waiting for provider: w");
    assert_eq!(failure(ProcessOutcome::ReadFailed("r".to_owned())), "failed reading provider output: r");
    assert_eq!(
        failure(ProcessOutcome::ReaderPanicked(ProcessStream::Stdout)),
        "provider stdout reader panicked"
    );
    assert_eq!(
        failure(ProcessOutcome::ReaderPanicked(ProcessStream::Stderr)),
        "provider stderr reader panicked"
    );
    assert_eq!(failure(ProcessOutcome::TimedOut), "process provider 'proc' timed out after 30s");
}

#[test]
fn http_provider_validates_its_base_url() {
    let capabilities = CapabilitySet::new().with(LibraryCapability::Query);
    match HttpLibraryProvider::new("remote", id("demo"), "ftp://example.com", capabilities) {
        Err(LibraryError::Provider(message)) => {
            assert_eq!(message, "HTTP provider base URL must use http:// or https://")
        }
        _ => panic!("ftp must be refused"),
    }
    let provider = HttpLibraryProvider::new("remote", id("demo"), "https://example.com/api///", capabilities)
        .unwrap()
        .bearer_token("secret-token");
    assert_eq!(provider.endpoint(), "https://example.com/api/v1/execute");
    assert_eq!(provider.token(), Some("secret-token"));
    assert_eq!(provider.provider_id(), "remote");
    assert!(provider.capabilities().contains(&LibraryCapability::Query));
    assert_eq!(
        provider.ensure_library(&id("x")),
        Err(LibraryError::Provider(
            "HTTP provider 'remote' belongs to Library 'demo' but was called for 'x'".to_owned()
        ))
    );
    let plain = HttpLibraryProvider::new("remote", id("demo"), "http://localhost:8080", capabilities).unwrap();
    assert_eq!(plain.endpoint(), "http://localhost:8080/v1/execute");
    assert_eq!(plain.token(), None);
    assert_eq!(
        http_error("timeout"),
        LibraryError::Provider("HTTP provider error: timeout".to_owned())
    );
}

struct Layer {
    name: &'static str,
    capabilities: CapabilitySet,
}

impl LibraryProvider for Layer {
    fn declares(&self, c: LibraryCapability) -> bool {
        self.capabilities().contains(&c)
    }

    fn provider_id(&self) -> &str {
        self.name
    }

    fn capabilities(&self) -> CapabilitySet {
        self.capabilities
    }

    fn read(&self, _uri: &KnowledgeUri) -> LibraryResult<String> {
        Ok(self.name.to_owned())
    }

    fn catalog(&self, _library: &okf::library::LibraryId) -> okf::library::LibraryResult<okf::library::LibraryCatalog> {
        okf::library::unsupported(okf::library::LibraryCapability::Catalog)
    }

    fn list(&self, _library: &okf::library::LibraryId, _path: &str) -> okf::library::LibraryResult<Vec<okf::library::KnowledgeNode>> {
        okf::library::unsupported(okf::library::LibraryCapability::List)
    }

    fn query(&self, _library: &okf::library::LibraryId, _query: &okf::library::LibraryQuery) -> okf::library::LibraryResult<okf::library::LibraryQueryResult> {
        okf::library::unsupported(okf::library::LibraryCapability::Query)
    }

    fn refresh(&self) -> okf::library::LibraryResult<()> {
        okf::library::unsupported(okf::library::LibraryCapability::Refresh)
    }
}

#[test]
fn unions_capabilities_and_uses_declared_order() {
    let first: Arc<dyn LibraryProvider> = Arc::new(Layer {
        name: "first",
        capabilities: CapabilitySet::new().with(LibraryCapability::Read).with(LibraryCapability::Catalog),
    });
    let second: Arc<dyn LibraryProvider> = Arc::new(Layer {
        name: "second",
        capabilities: CapabilitySet::new().with(LibraryCapability::Read).with(LibraryCapability::Query),
    });
    let stack: ProviderStack = ProviderStack::new("stack").with_provider(first).with_provider(second);
    let library = LibraryId::parse("demo").expect("library");
    let uri = KnowledgeUri::new(library, "a").expect("uri");
    assert_eq!(stack.read(&uri).expect("read"), "first");
    assert!(stack.capabilities().contains(&LibraryCapability::Query));
    assert_eq!(stack.provider_ids(), vec!["first", "second"]);
    assert!(matches!(
        stack.list(&LibraryId::parse("demo").unwrap(), ""),
        Err(LibraryError::UnsupportedCapability(LibraryCapability::List))
    ));
    assert_eq!(KnowledgeNodeKind::Directory, KnowledgeNodeKind::Directory);
}

#[test]
fn semantic_index_checks_run_in_order() {
    assert!(check_semantic_index(&vec![], false).is_err());
    assert!(check_semantic_index(&vec![], true).is_ok());
    assert_eq!(
        check_semantic_index(&vec![0, 3], true),
        Err(LibraryError::Provider("semantic index vectors must not be empty".to_owned()))
    );
    assert_eq!(
        check_semantic_index(&vec![3, 2], false),
        Err(LibraryError::Provider("semantic index contains inconsistent vector dimensions".to_owned()))
    );
    assert_eq!(
        check_semantic_index(&vec![3, 3], false),
        Err(LibraryError::Provider("semantic index contains non-finite vector values".to_owned()))
    );
    assert!(check_semantic_index(&vec![3, 3], true).is_ok());
    assert_eq!(
        check_index_library("idx", &id("demo"), &vec![id("demo"), id("other")]),
        Err(LibraryError::Provider("semantic index 'idx' contains entries for another Library".to_owned()))
    );
    assert!(check_index_library("idx", &id("demo"), &vec![id("demo")]).is_ok());
    assert_eq!(
        check_query_vector(2, 128, true),
        Err(LibraryError::Provider("embedding provider returned dimension 2, expected 128".to_owned()))
    );
    assert_eq!(
        check_query_vector(3, 3, false),
        Err(LibraryError::Provider("embedding provider returned non-finite values".to_owned()))
    );
    assert!(check_query_vector(3, 3, true).is_ok());
    let embedder = FnEmbeddingProvider::new("fn", |text: &str| text.len());
    assert_eq!(embedder.id(), "fn");
    assert_eq!((embedder.embedder())("abc"), 3);
}

#[test]
fn decimal_text_has_no_leading_zeros() {
    assert_eq!(decimal_text(0), "0");
    assert_eq!(decimal_text(7), "7");
    assert_eq!(decimal_text(10), "10");
    assert_eq!(decimal_text(1205), "1205");
    assert_eq!(decimal_text(usize::MAX), usize::MAX.to_string());
}

#[test]
fn semantic_order_ranks_by_key_then_uri_then_position() {
    let uri = |path: &str| KnowledgeUri::new(id("demo"), path).unwrap();
    let scored = vec![
        (5u64, uri("b")),
        (9u64, uri("z")),
        (5u64, uri("a")),
        (5u64, uri("a")),
        (1u64, uri("c")),
    ];
    assert_eq!(semantic_order(&scored, 10), vec![1, 2, 3, 0, 4]);
    assert_eq!(semantic_order(&scored, 2), vec![1, 2]);
    assert_eq!(semantic_order(&scored, 0), Vec::<usize>::new());
    assert_eq!(semantic_order(&Vec::new(), 3), Vec::<usize>::new());
}

#[test]
fn http_client_build_failures_are_provider_errors() {
    let capabilities = CapabilitySet::new().with(LibraryCapability::Read);
    match HttpLibraryProvider::from_client_result(
        "remote",
        id("demo"),
        "https://example.com",
        capabilities,
        Err("no TLS backend".to_owned()),
    ) {
        Err(LibraryError::Provider(message)) => assert_eq!(message, "HTTP provider error: no TLS backend"),
        _ => panic!("a failed client build must fail"),
    }
    match HttpLibraryProvider::from_client_result("remote", id("demo"), "localhost", capabilities, Err("x".to_owned())) {
        Err(LibraryError::Provider(message)) => {
            assert_eq!(message, "HTTP provider base URL must use http:// or https://")
        }
        _ => panic!("the base URL is checked first"),
    }
}

#[test]
fn semantic_results_carry_the_embedding_provenance() {
    assert!(semantic_query_skipped(0, 3));
    assert!(semantic_query_skipped(5, 0));
    assert!(!semantic_query_skipped(5, 3));
    let empty = semantic_result("vec", "embedder", Vec::new(), false);
    assert_eq!(empty.strategy, QueryStrategy::Semantic);
    assert_eq!(empty.provider, "vec");
    assert_eq!(empty.provenance, vec![("embedding_provider".to_owned(), "embedder".to_owned())]);
    let ranked = semantic_result("vec", "embedder", vec![hit("demo", "a")], true);
    assert_eq!(ranked.hits.len(), 1);
    assert_eq!(ranked.provenance[1], ("similarity".to_owned(), "cosine".to_owned()));
}
