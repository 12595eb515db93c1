use okf::{Bundle, Document, DocumentId, MatchField, Metadata, SearchQuery};

fn insert(bundle: &mut Bundle, id: &str, title: &str, body: &str, tags: &[&str]) -> okf::Result<()> {
    let mut metadata = Metadata::default();
    for tag in tags {
        metadata.tags.insert((*tag).to_owned());
    }
    bundle.insert(Document::new(DocumentId::new(id)?, title, body, metadata))
}

#[test]
fn ranks_titles_above_body_matches() -> okf::Result<()> {
    let mut bundle = Bundle::default();
    insert(
        &mut bundle,
        "architecture/runtime",
        "Runtime architecture",
        "Coordinates execution.",
        &["runtime"],
    )?;
    insert(
        &mut bundle,
        "notes/execution",
        "Execution notes",
        "A note mentioning runtime architecture in the body.",
        &["notes"],
    )?;

    let hits = bundle.search(&SearchQuery::new("runtime architecture"));

    assert_eq!(hits.len(), 2);
    assert_eq!(hits[0].document.id().as_str(), "architecture/runtime");
    assert!(hits[0].matched_fields.contains(&MatchField::Title));
    assert!(hits[0].score > hits[1].score);
    Ok(())
}

#[test]
fn applies_tag_filters_with_and_semantics() -> okf::Result<()> {
    let mut bundle = Bundle::default();
    insert(&mut bundle, "one", "One", "", &["ai", "architecture"])?;
    insert(&mut bundle, "two", "Two", "", &["ai"])?;

    let query = SearchQuery::new("").with_tag("AI").with_tag("architecture").limit(10);
    let hits = bundle.search(&query);

    assert_eq!(hits.len(), 1);
    assert_eq!(hits[0].document.id().as_str(), "one");
    Ok(())
}

#[test]
fn uses_identifier_order_to_break_score_ties() -> okf::Result<()> {
    let mut bundle = Bundle::default();
    insert(&mut bundle, "b", "Same", "", &[])?;
    insert(&mut bundle, "a", "Same", "", &[])?;

    let hits = bundle.search(&SearchQuery::new("same"));
    let ids = hits.iter().map(|hit| hit.document.id().as_str()).collect::<Vec<_>>();

    assert_eq!(ids, vec!["a", "b"]);
    Ok(())
}

#[test]
fn scores_each_field_by_its_weight() -> okf::Result<()> {
    let mut bundle = Bundle::default();
    insert(&mut bundle, "alpha", "Alpha", "alpha beta\nsecond line", &["alpha"])?;
    let hits = bundle.search(&SearchQuery::new("alpha"));
    assert_eq!(hits.len(), 1);
    // exact title 100 + identifier 16 + title 24 + tag 12 + body 2
    assert_eq!(hits[0].score, 154);
    assert!(hits[0].matched_fields.contains(&MatchField::Id));
    assert!(hits[0].matched_fields.contains(&MatchField::Tag));
    assert!(hits[0].matched_fields.contains(&MatchField::Body));
    assert!(!hits[0].matched_fields.contains(&MatchField::Summary));
    assert_eq!(hits[0].snippet, "alpha beta");
    Ok(())
}

#[test]
fn zero_limit_and_unmatched_terms_return_nothing() -> okf::Result<()> {
    let mut bundle = Bundle::default();
    insert(&mut bundle, "alpha", "Alpha", "", &[])?;
    assert!(bundle.search(&SearchQuery::new("alpha").limit(0)).is_empty());
    assert!(bundle.search(&SearchQuery::new("gamma")).is_empty());
    assert_eq!(bundle.search(&SearchQuery::new("")).len(), 1);
    Ok(())
}

#[test]
fn limit_keeps_the_best_ranked_hits() -> okf::Result<()> {
    let mut bundle = Bundle::default();
    insert(&mut bundle, "a", "x", "term", &[])?;
    insert(&mut bundle, "b", "term", "", &[])?;
    insert(&mut bundle, "c", "x", "", &["term"])?;
    let hits = bundle.search(&SearchQuery::new("term").limit(2));
    let ids = hits.iter().map(|hit| hit.document.id().as_str()).collect::<Vec<_>>();
    assert_eq!(ids, vec!["b", "c"]);
    Ok(())
}

#[test]
fn long_snippets_are_cut_with_an_ellipsis() -> okf::Result<()> {
    let mut bundle = Bundle::default();
    let body = "word ".repeat(50);
    insert(&mut bundle, "long", "Long", &body, &[])?;
    let hits = bundle.search(&SearchQuery::new("word"));
    assert_eq!(hits[0].snippet.chars().count(), 181);
    assert!(hits[0].snippet.ends_with('…'));
    Ok(())
}

#[test]
fn query_accessors_report_normalized_tags() {
    let query = SearchQuery::new(" Text ").with_tag("  AI ").limit(5);
    assert_eq!(query.text(), " Text ");
    assert_eq!(query.max_results(), 5);
    assert!(query.tags().contains("ai"));
    assert_eq!(query.tags().len(), 1);
}

#[test]
fn bundle_search_and_free_search_agree() -> okf::Result<()> {
    let mut bundle = Bundle::default();
    insert(&mut bundle, "b", "Runtime", "runtime body", &[])?;
    insert(&mut bundle, "a", "Runtime", "runtime body", &[])?;
    insert(&mut bundle, "c", "Other", "mentions runtime once", &[])?;
    let query = SearchQuery::new("runtime");
    let first = bundle.search(&query);
    let second = okf::search(&bundle, &query);
    let third = bundle.search(&query);
    assert_eq!(first.len(), 3);
    for hits in [&second, &third] {
        assert_eq!(hits.len(), first.len());
        for (x, y) in first.iter().zip(hits.iter()) {
            assert_eq!(x.document.id().as_str(), y.document.id().as_str());
            assert_eq!(x.score, y.score);
            assert_eq!(x.snippet, y.snippet);
        }
    }
    assert_eq!(first[0].document.id().as_str(), "a");
    assert_eq!(first[1].document.id().as_str(), "b");
    Ok(())
}
