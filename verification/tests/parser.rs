use okf::{parse_document, Bundle, BundleParser, Error, YamlNode};

#[test]
fn derives_nested_identifier_and_title() {
    let document = parse_document("# Sidecar runtime\n\nBody", "concepts/sidecar.md")
        .expect("document should parse");

    assert_eq!(document.id().as_str(), "concepts/sidecar");
    assert_eq!(document.title(), "Sidecar runtime");
}

#[test]
fn maps_nested_index_to_directory_identifier() {
    let document = parse_document("Body", "architecture/index.md").expect("document should parse");

    assert_eq!(document.id().as_str(), "architecture");
}

#[test]
fn supports_reference_shorthand() -> okf::Result<()> {
    let document = parse_document(
        r#"---
id: source
links: [target]
---
Body
"#,
        "source.md",
    )?;

    assert_eq!(document.metadata().links[0].target().as_str(), "target");
    assert_eq!(document.metadata().links[0].relation(), "related");
    Ok(())
}

#[test]
fn reports_unterminated_front_matter() {
    let error = parse_document("---\ntitle: Broken\n", "broken.md")
        .expect_err("unterminated front matter should fail");

    assert!(matches!(error, Error::UnterminatedFrontMatter { .. }));
}

#[test]
fn reports_duplicate_explicit_ids() {
    let parser = BundleParser::default();
    let mut bundle = Bundle::new("bundle");
    parser
        .add_source(&mut bundle, "---\nid: duplicate\n---\nOne", "one.md")
        .expect("first document should be added");
    let error = parser
        .add_source(&mut bundle, "---\nid: duplicate\n---\nTwo", "two.md")
        .expect_err("duplicate ids should fail");

    assert!(matches!(error, Error::DuplicateDocument { .. }));
    assert_eq!(bundle.len(), 1);
}

#[test]
fn parses_front_matter_fields_and_path_ids() {
    let parser = BundleParser::default();
    let mut bundle = Bundle::new("bundle");
    parser
        .add_source(
            &mut bundle,
            r#"---
title: Sidecar
tags: [architecture, ai]
aliases: [sidecar]
owner: platform
links:
  - target: runtime
    relation: used-by
---

A sidecar supplies tools to an AI runtime.
"#,
            "concepts/sidecar.md",
        )
        .expect("sidecar should parse");
    parser
        .add_source(&mut bundle, "# Runtime\n\nThe runtime executes workflows.\n", "runtime.md")
        .expect("runtime should parse");

    assert_eq!(bundle.len(), 2);
    let sidecar = bundle.get_by_id("concepts/sidecar").expect("sidecar document");
    assert_eq!(sidecar.title(), "Sidecar");
    assert!(sidecar.metadata().tags.contains("architecture"));
    assert!(matches!(sidecar.metadata().extra_field("owner"), Some(YamlNode::Text(s)) if s == "platform"));
    assert_eq!(sidecar.metadata().links[0].relation(), "used-by");
    assert_eq!(sidecar.source_path(), Some("concepts/sidecar.md"));
    assert_eq!(sidecar.body(), "A sidecar supplies tools to an AI runtime.\n");
    let runtime = bundle.get_by_id("runtime").expect("runtime document");
    assert_eq!(runtime.title(), "Runtime");
}

#[test]
fn recognizes_document_extensions_case_insensitively() {
    let parser = BundleParser::default();
    assert!(parser.is_document_path("notes/a.md"));
    assert!(parser.is_document_path("notes/A.MARKDOWN"));
    assert!(!parser.is_document_path("ignored.txt"));
    assert!(!parser.is_document_path(".md"));
    assert!(!parser.is_document_path("notes/readme"));
}

#[test]
fn skips_hidden_entries_unless_included() {
    let parser = BundleParser::default();
    assert!(!parser.should_visit(".git", false));
    assert!(parser.should_visit(".git", true));
    assert!(parser.should_visit("docs", false));
}

#[test]
fn rejects_invalid_yaml_front_matter() {
    let error = parse_document("---\ntitle: [unclosed\n---\nBody", "bad.md")
        .expect_err("invalid YAML should fail");
    assert!(matches!(error, Error::FrontMatter { .. }));
}

#[test]
fn rejects_invalid_identifier() {
    let error = parse_document("---\nid: a//b\n---\nBody", "bad.md").expect_err("invalid id");
    assert!(matches!(error, Error::InvalidDocumentId(_)));
}

#[test]
fn infers_title_from_identifier_segment() {
    let document = parse_document("no heading here", "guides/getting-started_now.md").expect("parse");
    assert_eq!(document.title(), "getting-started_now");
}

#[test]
fn rejects_explicit_identifier_with_parent_segment() {
    let error = parse_document("---\nid: a/../b\n---\nBody", "x.md").expect_err("invalid id");
    assert!(matches!(error, Error::InvalidDocumentId(_)));
    let error = parse_document("---\nid: a//b\n---\nBody", "x.md").expect_err("invalid id");
    assert!(matches!(error, Error::InvalidDocumentId(_)));
}

#[test]
fn unicode_white_space_is_trimmed_and_others_kept() {
    assert!(okf::text::is_whitespace('\u{3000}'));
    assert!(okf::text::is_whitespace('\u{85}'));
    assert!(okf::text::is_whitespace('\t'));
    assert!(!okf::text::is_whitespace('\u{200B}'));
    assert!(!okf::text::is_whitespace('x'));
    for code in 0u32..=0x3000 {
        if let Some(c) = char::from_u32(code) {
            assert_eq!(okf::text::is_whitespace(c), c.is_whitespace(), "{code:#x}");
        }
    }
    let id = okf::DocumentId::new("notes/x").unwrap();
    assert_eq!(okf::parser::infer_title("\u{3000}# Heading\u{2003}\n", &id), "Heading");
}

#[test]
fn ascii_lowercase_keeps_other_characters() {
    assert_eq!(okf::text::to_ascii_lowercase("MD.Ä-Zz"), "md.Ä-zz");
}

#[test]
fn string_fields_take_only_string_scalars() {
    for source in [
        "---\nid: 0x1F\n---\nBody",
        "---\ntitle: True\n---\nBody",
        "---\ntags: ~\n---\nBody",
        "---\naliases: null\n---\nBody",
        "---\nlinks: ~\n---\nBody",
        "---\ntags: [1, 2]\n---\nBody",
    ] {
        let error = parse_document(source, "x.md").expect_err(source);
        assert!(matches!(error, Error::FrontMatter { .. }), "{source}");
    }
    let document = parse_document("---\nid: '0x1F'\ntitle: 'True'\nsummary: ~\n---\nBody", "x.md").expect("quoted");
    assert_eq!(document.id().as_str(), "0x1F");
    assert_eq!(document.title(), "True");
}
