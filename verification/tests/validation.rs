use okf::{
    Bundle, Document, DocumentId, KnowledgeGraph, Metadata, Reference, Severity,
    ValidationOptions, Validator,
};

fn document(id: &str, title: &str, metadata: Metadata) -> Document {
    Document::new(
        DocumentId::new(id).expect("valid test identifier"),
        title,
        &format!("Body for {id}"),
        metadata,
    )
}

#[test]
fn validates_references_aliases_and_orphans() -> okf::Result<()> {
    let mut source_metadata = Metadata::default();
    source_metadata.links.push(Reference::related(DocumentId::new("missing")?));
    source_metadata.aliases.insert("shared".to_owned());

    let mut target_metadata = Metadata::default();
    target_metadata.aliases.insert("shared".to_owned());

    let mut bundle = Bundle::default();
    bundle.insert(document("source", "Source", source_metadata))?;
    bundle.insert(document("target", "Target", target_metadata))?;

    let report = Validator::default().validate(&bundle);
    let codes = report.issues().iter().map(|issue| issue.code.as_str()).collect::<Vec<_>>();

    assert!(!report.is_valid());
    assert!(codes.contains(&"OKF104"));
    assert!(codes.contains(&"OKF203"));
    assert!(codes.contains(&"OKF301"));
    assert!(report.errors().iter().all(|issue| issue.severity == Severity::Error));
    Ok(())
}

#[test]
fn resolves_aliases_in_graph_and_finds_shortest_path() -> okf::Result<()> {
    let mut a_metadata = Metadata::default();
    a_metadata.links.push(Reference::new(DocumentId::new("middle")?, "next"));

    let mut b_metadata = Metadata::default();
    b_metadata.aliases.insert("middle".to_owned());
    b_metadata.links.push(Reference::new(DocumentId::new("c")?, "next"));

    let mut bundle = Bundle::default();
    bundle.insert(document("a", "A", a_metadata))?;
    bundle.insert(document("b", "B", b_metadata))?;
    bundle.insert(document("c", "C", Metadata::default()))?;

    let graph = KnowledgeGraph::from_bundle(&bundle);
    let path = graph
        .shortest_path(&DocumentId::new("a")?, &DocumentId::new("c")?)
        .expect("path should exist");
    let path = path.iter().map(DocumentId::as_str).collect::<Vec<_>>();

    assert_eq!(path, vec!["a", "b", "c"]);
    assert_eq!(graph.edge_count(), 2);
    assert_eq!(
        graph.relations(&DocumentId::new("a")?, &DocumentId::new("b")?),
        vec!["next".to_owned()]
    );
    Ok(())
}

#[test]
fn empty_bundle_yields_one_warning() {
    let report = Validator::default().validate(&Bundle::default());
    assert_eq!(report.issues().len(), 1);
    assert_eq!(report.issues()[0].code, "OKF001");
    assert_eq!(report.issues()[0].severity, Severity::Warning);
    assert!(report.is_valid());
}

#[test]
fn reports_messages_in_validation_order() -> okf::Result<()> {
    let mut one = Metadata::default();
    one.aliases.insert("bad//alias".to_owned());
    one.aliases.insert("two".to_owned());
    one.links.push(Reference::new(DocumentId::new("one")?, " "));
    let mut bundle = Bundle::default();
    bundle.insert(document("one", " ", one))?;
    bundle.insert(document("two", "Two", Metadata::default()))?;

    let report = Validator::default().validate(&bundle);
    let messages = report
        .issues()
        .iter()
        .map(|issue| (issue.code.as_str(), issue.message.as_str()))
        .collect::<Vec<_>>();
    assert_eq!(
        messages,
        vec![
            ("OKF101", "document title is empty"),
            ("OKF102", "invalid alias 'bad//alias': identifier contains an empty segment"),
            ("OKF103", "alias 'two' conflicts with a canonical document id"),
            ("OKF201", "reference to 'one' has an empty relation"),
            ("OKF202", "document references itself through ' '"),
            ("OKF301", "document is disconnected from the resolved knowledge graph"),
        ]
    );
    assert_eq!(report.errors().len(), 4);
    assert_eq!(report.warnings().len(), 2);
    Ok(())
}

#[test]
fn options_control_severity_and_optional_checks() -> okf::Result<()> {
    let mut metadata = Metadata::default();
    metadata.links.push(Reference::related(DocumentId::new("missing")?));
    let mut bundle = Bundle::default();
    bundle.insert(document("a", "A", metadata))?;
    bundle.insert(document("b", "B", Metadata::default()))?;
    let options = ValidationOptions {
        unresolved_references_are_errors: false,
        warn_on_self_references: false,
        warn_on_orphans: false,
    };
    let report = Validator::new(options).validate(&bundle);
    assert_eq!(report.issues().len(), 1);
    assert_eq!(report.issues()[0].code, "OKF203");
    assert_eq!(report.issues()[0].severity, Severity::Warning);
    assert_eq!(report.issues()[0].message, "unresolved reference to 'missing'");
    assert!(report.is_valid());
    Ok(())
}

#[test]
fn graph_queries_follow_resolved_links() -> okf::Result<()> {
    let mut a = Metadata::default();
    a.links.push(Reference::new(DocumentId::new("b")?, "uses"));
    a.links.push(Reference::new(DocumentId::new("b")?, "cites"));
    let mut b = Metadata::default();
    b.links.push(Reference::related(DocumentId::new("c")?));
    let mut bundle = Bundle::default();
    bundle.insert(document("a", "A", a))?;
    bundle.insert(document("b", "B", b))?;
    bundle.insert(document("c", "C", Metadata::default()))?;
    bundle.insert(document("d", "D", Metadata::default()))?;

    let graph = KnowledgeGraph::from_bundle(&bundle);
    let id = |s: &str| DocumentId::new(s).unwrap();
    let names = |v: Vec<DocumentId>| v.iter().map(|d| d.as_str().to_owned()).collect::<Vec<_>>();
    assert_eq!(graph.node_count(), 4);
    assert_eq!(graph.edge_count(), 2);
    assert_eq!(graph.relations(&id("a"), &id("b")), vec!["cites".to_owned(), "uses".to_owned()]);
    assert_eq!(names(graph.outgoing(&id("a"))), vec!["b"]);
    assert_eq!(names(graph.incoming(&id("c"))), vec!["b"]);
    assert_eq!(names(graph.roots()), vec!["a", "d"]);
    assert_eq!(names(graph.leaves()), vec!["c", "d"]);
    assert_eq!(names(graph.reachable_from(&id("a"))), vec!["a", "b", "c"]);
    assert_eq!(names(graph.reachable_from(&id("d"))), vec!["d"]);
    assert!(graph.shortest_path(&id("c"), &id("a")).is_none());
    assert_eq!(graph.shortest_path(&id("d"), &id("d")).map(names), Some(vec!["d".to_owned()]));
    assert!(graph.contains(&id("d")));
    assert!(!graph.contains(&id("e")));
    Ok(())
}

#[test]
fn inserted_documents_resolve_to_themselves() -> okf::Result<()> {
    let mut bundle = Bundle::new("memory");
    bundle.insert(document("b", "B", Metadata::default()))?;
    bundle.insert(document("a", "A", Metadata::default()))?;
    bundle.insert(document("c", "C", Metadata::default()))?;
    assert_eq!(bundle.resolve("a").map(|d| d.title()), Some("A"));
    assert_eq!(bundle.get_by_id("c").map(|d| d.title()), Some("C"));
    let ids: Vec<&str> = bundle.documents().iter().map(|d| d.id().as_str()).collect();
    assert_eq!(ids, vec!["a", "b", "c"]);
    assert!(bundle.insert(document("a", "Again", Metadata::default())).is_err());
    assert_eq!(bundle.resolve("a").map(|d| d.title()), Some("A"));
    Ok(())
}

#[test]
fn a_single_unlinked_document_is_an_orphan() {
    let mut bundle = Bundle::new("memory");
    bundle.insert(document("only", "Only", Metadata::default())).unwrap();
    let report = Validator::default().validate(&bundle);
    let codes: Vec<&str> = report.issues().iter().map(|issue| issue.code.as_str()).collect();
    assert_eq!(codes, vec!["OKF301"]);
}

#[test]
fn shortest_path_prefers_the_least_identifiers() -> okf::Result<()> {
    let mut s_metadata = Metadata::default();
    s_metadata.links.push(Reference::new(DocumentId::new("z")?, "next"));
    s_metadata.links.push(Reference::new(DocumentId::new("m")?, "next"));
    s_metadata.links.push(Reference::new(DocumentId::new("b")?, "next"));
    let mut z_metadata = Metadata::default();
    z_metadata.links.push(Reference::new(DocumentId::new("goal")?, "next"));
    let mut m_metadata = Metadata::default();
    m_metadata.links.push(Reference::new(DocumentId::new("goal")?, "next"));
    let mut b_metadata = Metadata::default();
    b_metadata.links.push(Reference::new(DocumentId::new("y")?, "next"));
    let mut y_metadata = Metadata::default();
    y_metadata.links.push(Reference::new(DocumentId::new("goal")?, "next"));

    let mut bundle = Bundle::default();
    bundle.insert(document("s", "S", s_metadata))?;
    bundle.insert(document("z", "Z", z_metadata))?;
    bundle.insert(document("m", "M", m_metadata))?;
    bundle.insert(document("b", "B", b_metadata))?;
    bundle.insert(document("y", "Y", y_metadata))?;
    bundle.insert(document("goal", "Goal", Metadata::default()))?;

    let graph = KnowledgeGraph::from_bundle(&bundle);
    let path = graph
        .shortest_path(&DocumentId::new("s")?, &DocumentId::new("goal")?)
        .expect("path should exist");
    let path = path.iter().map(DocumentId::as_str).collect::<Vec<_>>();
    assert_eq!(path, vec!["s", "m", "goal"]);
    Ok(())
}

#[test]
fn report_lists_naming_then_reference_then_orphan_issues() -> okf::Result<()> {
    let mut a_metadata = Metadata::default();
    a_metadata.links.push(Reference::related(DocumentId::new("missing")?));
    a_metadata.aliases.insert("b".to_owned());
    let mut bundle = Bundle::default();
    bundle.insert(document("a", "", a_metadata))?;
    bundle.insert(document("b", "B", Metadata::default()))?;
    bundle.insert(document("c", "", Metadata::default()))?;

    let validator = Validator::default();
    let report = validator.validate(&bundle);
    let entries = report
        .issues()
        .iter()
        .map(|issue| (issue.code.clone(), issue.document.as_ref().map(|d| d.as_str().to_owned())))
        .collect::<Vec<_>>();
    let blocks = entries.iter().map(|(code, _)| &code[..4]).collect::<Vec<_>>();
    let mut sorted_blocks = blocks.clone();
    sorted_blocks.sort();
    assert_eq!(blocks, sorted_blocks);
    assert!(entries.iter().all(|(_, d)| d.is_some()));
    assert_eq!(entries[0], ("OKF101".to_owned(), Some("a".to_owned())));
    assert!(entries.iter().any(|(code, d)| code == "OKF203" && d.as_deref() == Some("a")));
    assert!(entries.iter().any(|(code, d)| code == "OKF301" && d.as_deref() == Some("c")));
    let again = validator.validate(&bundle);
    assert_eq!(again.issues().len(), report.issues().len());
    for (x, y) in report.issues().iter().zip(again.issues().iter()) {
        assert_eq!(x.code, y.code);
        assert_eq!(x.message, y.message);
    }
    Ok(())
}
