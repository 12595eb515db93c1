//! SQLite-backed Library provider: the read model's queries and how their rows become
//! Library values. Running the statements against a database is the host application's part.
//!
//! The read model is `okf_nodes(path TEXT PRIMARY KEY, title TEXT, content TEXT NOT NULL)`, with
//! an optional `okf_catalog(id, title, description, path, terms_json)` table that supplies
//! curated semantic navigation.

use vstd::prelude::*;

use crate::library::{
    path_ok, uri_path, uri_text, CapabilitySet, CatalogEntry, KnowledgeNode, KnowledgeUri,
    LibraryCapability, LibraryCatalog, LibraryError, LibraryId, LibraryQuery, LibraryQueryHit,
    LibraryQueryResult, LibraryResult, QueryStrategy,
};
use crate::listing::{child_names, child_nodes, child_views, has_child, has_dir, mark_child, nodes_from_children};
use crate::model::TextSet;
use crate::process_provider::{check_library, foreign_library_message};
use crate::retrieval::{truncate_chars, truncated};
use crate::text::{
    chars_of, chars_start_with, concat2, find_char_from, has_prefix, owned,
    slice_range, strictly_sorted, string_from, strip, strip_chars, trim, trim_chars, views,
    CharClass,
};

verus! {

/// What `serde_json` reads from text holding a JSON array of strings, as a set: its members
/// in ascending order, or `None` when the text is not such an array.
pub uninterp spec fn json_text_set(text: Seq<char>) -> Option<Seq<Seq<char>>>;

/// Reads a JSON array of strings as a set of strings (`serde_json::from_str::<BTreeSet<String>>`),
/// giving the set's members in its ascending iteration order, or the parse error's display text.
/// The members are those [`json_text_set`] names; the error text is not stated.
#[verifier::external_body]
fn parse_json_text_set(text: &str) -> (r: Result<Vec<String>, String>)
    ensures
        r matches Ok(v) ==> json_text_set(text@) == Some(views(v@)) && strictly_sorted(views(v@)),
        r is Err ==> json_text_set(text@) is None,
{
    match serde_json::from_str::<std::collections::BTreeSet<String>>(text) {
        Ok(set) => Ok(set.into_iter().collect()),
        Err(error) => Err(error.to_string()),
    }
}

/// The key prefix of the children of logical path `path`: empty at the root, otherwise the path
/// without surrounding `/`, followed by `/`.
pub open spec fn sqlite_prefix(path: Seq<char>) -> Seq<char> {
    let base = strip(path, CharClass::Exactly('/'));
    if base.len() == 0 {
        Seq::empty()
    } else {
        base + seq!['/']
    }
}

/// Text up to (not including) its first `/`.
pub open spec fn first_segment(s: Seq<char>) -> Seq<char>
    decreases s.len(),
{
    if s.len() == 0 {
        s
    } else if s[0] == '/' {
        Seq::empty()
    } else {
        seq![s[0]] + first_segment(s.drop_first())
    }
}

proof fn lemma_first_segment(s: Seq<char>, k: int)
    requires
        0 <= k <= s.len(),
        forall|j: int| 0 <= j < k ==> s[j] != '/',
        k == s.len() || s[k] == '/',
    ensures
        first_segment(s) == s.take(k),
    decreases s.len(),
{
    if s.len() == 0 {
        assert(s.take(k) =~= s);
    } else if s[0] == '/' {
        assert(s.take(k) =~= Seq::<char>::empty());
    } else {
        lemma_first_segment(s.drop_first(), k - 1);
        assert(s.take(k) =~= seq![s[0]] + s.drop_first().take(k - 1));
    }
}

/// Whether a stored node path shows a child below `prefix`.
pub open spec fn row_listed(stored: Seq<char>, prefix: Seq<char>) -> bool {
    has_prefix(stored, prefix) && stored.len() > prefix.len()
}

/// The child below `prefix` that a stored node path shows.
pub open spec fn row_child(stored: Seq<char>, prefix: Seq<char>) -> Seq<char> {
    prefix + first_segment(stored.skip(prefix.len() as int))
}

/// Whether that child has children of its own.
pub open spec fn row_nested(stored: Seq<char>, prefix: Seq<char>) -> bool {
    stored.skip(prefix.len() as int).contains('/')
}

/// Whether `k` is the child shown by one of the first `n` stored paths.
pub open spec fn row_child_among(rows: Seq<Seq<char>>, n: int, prefix: Seq<char>, k: Seq<char>) -> bool {
    exists|i: int| 0 <= i < n && row_listed(#[trigger] rows[i], prefix) && row_child(rows[i], prefix) == k
}

/// Whether `k` is a child with children of its own shown by one of the first `n` stored paths.
pub open spec fn row_dir_among(rows: Seq<Seq<char>>, n: int, prefix: Seq<char>, k: Seq<char>) -> bool {
    exists|i: int|
        0 <= i < n && row_listed(#[trigger] rows[i], prefix) && row_nested(rows[i], prefix) && row_child(
            rows[i],
            prefix,
        ) == k
}

/// `c` holds exactly the children the stored paths show, in path order, directories marked.
pub open spec fn sqlite_children_of(c: Seq<(Seq<char>, bool)>, rows: Seq<Seq<char>>, prefix: Seq<char>) -> bool {
    &&& strictly_sorted(child_names(c))
    &&& forall|k: Seq<char>| #[trigger] has_child(c, k) == row_child_among(rows, rows.len() as int, prefix, k)
    &&& forall|k: Seq<char>| #[trigger] has_dir(c, k) == row_dir_among(rows, rows.len() as int, prefix, k)
}

/// The key prefix of the children of a logical path.
pub fn sqlite_child_prefix(path: &str) -> (r: String)
    ensures
        r@ == sqlite_prefix(path@),
{
    let base = strip_chars(&chars_of(path), CharClass::Exactly('/'));
    if base.len() == 0 {
        String::new()
    } else {
        let mut s = string_from(&base);
        crate::text::push_char(&mut s, '/');
        s
    }
}

/// The `LIKE` pattern selecting the stored paths below a logical path.
pub fn sqlite_like_pattern(path: &str) -> (r: String)
    ensures
        r@ == sqlite_prefix(path@).push('%'),
{
    let mut p = sqlite_child_prefix(path);
    crate::text::push_char(&mut p, '%');
    p
}

/// The direct children of logical path `path` shown by stored node paths: a stored path below
/// the path's prefix shows the child named by its next segment, a directory when more segments
/// follow. Children come in path order.
pub fn sqlite_children(library: &LibraryId, path: &str, stored: &Vec<String>) -> (r: LibraryResult<
    Vec<KnowledgeNode>,
>)
    ensures
        exists|c: Seq<(Seq<char>, bool)>|
            sqlite_children_of(c, views(stored@), sqlite_prefix(path@)) && #[trigger] child_nodes(
                library@,
                c,
                r,
            ),
{
    let ghost rows = views(stored@);
    let prefix_text = sqlite_child_prefix(path);
    let prefix = chars_of(prefix_text.as_str());
    let ghost pre = prefix@;
    let mut children: Vec<(String, bool)> = Vec::new();
    assert(child_names(child_views(children@)) =~= Seq::<Seq<char>>::empty());
    let mut i: usize = 0;
    while i < stored.len()
        invariant
            i <= stored@.len(),
            rows == views(stored@),
            rows.len() == stored@.len(),
            pre == prefix@,
            prefix_text@ == pre,
            strictly_sorted(child_names(child_views(children@))),
            forall|k: Seq<char>| #[trigger] has_child(child_views(children@), k) == row_child_among(rows, i as int, pre, k),
            forall|k: Seq<char>| #[trigger] has_dir(child_views(children@), k) == row_dir_among(rows, i as int, pre, k),
        decreases stored@.len() - i,
    {
        let s = chars_of(stored[i].as_str());
        assert(s@ == rows[i as int]);
        let listed = chars_start_with(&s, &prefix) && s.len() > prefix.len();
        assert(listed == row_listed(rows[i as int], pre));
        let ghost before = child_views(children@);
        let mut nested = false;
        let mut child_text = String::new();
        if listed {
            let rem = slice_range(&s, prefix.len(), s.len());
            assert(rem@ =~= s@.skip(pre.len() as int));
            let cut = match find_char_from(&rem, '/', 0) {
                Some(k) => {
                    nested = true;
                    k
                },
                None => rem.len(),
            };
            proof {
                lemma_first_segment(rem@, cut as int);
                if nested {
                    assert(rem@[cut as int] == '/');
                } else {
                    assert(!rem@.contains('/'));
                }
            }
            let name = slice_range(&rem, 0, cut);
            assert(name@ =~= rem@.take(cut as int));
            child_text = concat2(prefix_text.as_str(), string_from(&name).as_str());
            assert(child_text@ == row_child(rows[i as int], pre));
            assert(nested == row_nested(rows[i as int], pre));
            mark_child(&mut children, child_text, nested);
        }
        assert(!listed ==> child_views(children@) == before);
        proof {
            assert forall|k: Seq<char>| row_child_among(rows, i + 1, pre, k) == (row_child_among(rows, i as int, pre, k)
                || (listed && k == row_child(rows[i as int], pre))) by {
                if row_child_among(rows, i + 1, pre, k) {
                    let x = choose|x: int| 0 <= x < i + 1 && row_listed(#[trigger] rows[x], pre) && row_child(rows[x], pre) == k;
                    if x < i {
                        assert(row_child_among(rows, i as int, pre, k));
                    }
                }
                if row_child_among(rows, i as int, pre, k) {
                    let x = choose|x: int| 0 <= x < i && row_listed(#[trigger] rows[x], pre) && row_child(rows[x], pre) == k;
                    assert(row_child_among(rows, i + 1, pre, k));
                }
                if listed && k == row_child(rows[i as int], pre) {
                    assert(row_child_among(rows, i + 1, pre, k));
                }
            }
            assert forall|k: Seq<char>| row_dir_among(rows, i + 1, pre, k) == (row_dir_among(rows, i as int, pre, k)
                || (listed && nested && k == row_child(rows[i as int], pre))) by {
                if row_dir_among(rows, i + 1, pre, k) {
                    let x = choose|x: int| 0 <= x < i + 1 && row_listed(#[trigger] rows[x], pre) && row_nested(rows[x], pre) && row_child(rows[x], pre) == k;
                    if x < i {
                        assert(row_dir_among(rows, i as int, pre, k));
                    }
                }
                if row_dir_among(rows, i as int, pre, k) {
                    let x = choose|x: int| 0 <= x < i && row_listed(#[trigger] rows[x], pre) && row_nested(rows[x], pre) && row_child(rows[x], pre) == k;
                    assert(row_dir_among(rows, i + 1, pre, k));
                }
                if listed && nested && k == row_child(rows[i as int], pre) {
                    assert(row_dir_among(rows, i + 1, pre, k));
                }
            }
        }
        i = i + 1;
    }
    let r = nodes_from_children(library, &children);
    assert(sqlite_children_of(child_views(children@), rows, pre));
    r
}

/// Capabilities of the SQLite provider: catalog, list, read and query.
pub fn sqlite_capabilities() -> (r: CapabilitySet)
    ensures
        forall|c: LibraryCapability| #[trigger] r.has(c) == (c == LibraryCapability::Catalog || c
            == LibraryCapability::List || c == LibraryCapability::Read || c == LibraryCapability::Query),
{
    CapabilitySet::new().with(LibraryCapability::Catalog).with(LibraryCapability::List).with(
        LibraryCapability::Read,
    ).with(LibraryCapability::Query)
}

/// Accepts a database only when it has the `okf_nodes` table.
pub fn sqlite_schema_check(has_nodes_table: bool) -> (r: LibraryResult<()>)
    ensures
        has_nodes_table ==> r is Ok,
        !has_nodes_table ==> (r matches Err(LibraryError::Provider(m)) && m@
            == "SQLite provider requires an okf_nodes table"@),
{
    if has_nodes_table {
        Ok(())
    } else {
        Err(LibraryError::Provider(owned("SQLite provider requires an okf_nodes table")))
    }
}

/// Checks that a SQLite provider is called for its own Library.
pub fn sqlite_ensure_library(id: &str, own: &LibraryId, called: &LibraryId) -> (r: LibraryResult<()>)
    ensures
        own@ == called@ ==> r is Ok,
        own@ != called@ ==> (r matches Err(LibraryError::Provider(m)) && m@
            == foreign_library_message("SQLite"@, id@, own@, called@)),
{
    check_library("SQLite", id, own, called)
}

/// The content read for a node, or node-not-found with the URI's text when no row matched.
pub fn sqlite_read_result(uri: &KnowledgeUri, content: Option<String>) -> (r: LibraryResult<String>)
    ensures
        content matches Some(c) ==> r == Ok::<String, LibraryError>(c),
        content is None ==> (r matches Err(LibraryError::NodeNotFound(s)) && s@ == uri_text(
            uri.spec_library(),
            uri.spec_path(),
        )),
{
    match content {
        Some(c) => Ok(c),
        None => Err(LibraryError::NodeNotFound(uri.to_text())),
    }
}

/// The `LIKE` pattern and row limit of a query, or `None` when the query asks for no hits and
/// needs no rows.
pub fn sqlite_query_plan(query: &LibraryQuery) -> (r: Option<(String, i64)>)
    ensures
        query.limit == 0 ==> r is None,
        query.limit > 0 ==> (r matches Some((p, l)) && p@ == seq!['%'] + trim(query.text@) + seq![
            '%',
        ] && l == (if query.limit <= i64::MAX {
            query.limit as int
        } else {
            i64::MAX as int
        })),
{
    if query.limit == 0 {
        return None;
    }
    let t = trim_chars(&chars_of(query.text.as_str()));
    let mut p = String::new();
    crate::text::push_char(&mut p, '%');
    crate::text::push_all(&mut p, string_from(&t).as_str());
    crate::text::push_char(&mut p, '%');
    assert(p@ =~= seq!['%'] + trim(query.text@) + seq!['%']);
    let limit: i64 = if query.limit as u64 <= 0x7fff_ffff_ffff_ffffu64 {
        query.limit as i64
    } else {
        0x7fff_ffff_ffff_ffffi64
    };
    Some((p, limit))
}

/// `h` is the evidence for a matching node row: its URI in `library`, its title, and its
/// content cut to 180 characters as the snippet, with no score and no metadata.
pub open spec fn row_hit(h: LibraryQueryHit, library: Seq<char>, row: (String, Option<String>, String)) -> bool {
    &&& h.uri.spec_library() == library
    &&& h.uri.spec_path() == uri_path(row.0@)
    &&& h.title == row.1
    &&& h.snippet matches Some(s) && s@ == truncated(row.2@, 180)
    &&& h.score_bits is None
    &&& h.metadata@.len() == 0
}

/// A lexical query result from matching node rows `(path, title, content)`, in row order;
/// the first row whose path is not acceptable decides the error.
pub fn sqlite_query_result(
    provider_id: &str,
    library: &LibraryId,
    rows: Vec<(String, Option<String>, String)>,
) -> (r: LibraryResult<LibraryQueryResult>)
    ensures
        (forall|k: int| 0 <= k < rows@.len() ==> path_ok(uri_path(#[trigger] rows@[k].0@))) ==> (r matches Ok(
            res,
        ) && res.answer is None && res.provider@ == provider_id@ && res.strategy
            == QueryStrategy::Lexical && res.provenance@.len() == 0 && res.hits@.len() == rows@.len()
            && forall|k: int| 0 <= k < rows@.len() ==> row_hit(#[trigger] res.hits@[k], library@, rows@[k])),
        !(forall|k: int| 0 <= k < rows@.len() ==> path_ok(uri_path(#[trigger] rows@[k].0@))) ==> (r matches Err(
            LibraryError::InvalidUri(s),
        ) && exists|k: int|
            0 <= k < rows@.len() && !path_ok(uri_path(#[trigger] rows@[k].0@)) && s@ == uri_path(rows@[k].0@)
                && forall|j: int| 0 <= j < k ==> path_ok(uri_path(#[trigger] rows@[j].0@))),
{
    let mut hits: Vec<LibraryQueryHit> = Vec::new();
    let mut k: usize = 0;
    while k < rows.len()
        invariant
            k <= rows@.len(),
            hits@.len() == k,
            forall|j: int| 0 <= j < k ==> path_ok(uri_path(#[trigger] rows@[j].0@)),
            forall|j: int| 0 <= j < k ==> row_hit(#[trigger] hits@[j], library@, rows@[j]),
        decreases rows@.len() - k,
    {
        let row = &rows[k];
        let uri = match KnowledgeUri::new(library.copy(), row.0.as_str()) {
            Ok(u) => u,
            Err(e) => {
                return Err(e);
            },
        };
        let title = match &row.1 {
            Some(t) => Some(t.clone()),
            None => None,
        };
        let snippet = truncate_chars(&chars_of(row.2.as_str()), 180);
        hits.push(LibraryQueryHit { uri, title, snippet: Some(snippet), score_bits: None, metadata: Vec::new() });
        k = k + 1;
    }
    Ok(LibraryQueryResult {
        answer: None,
        hits,
        provider: owned(provider_id),
        strategy: QueryStrategy::Lexical,
        provenance: Vec::new(),
    })
}

/// One row of the curated `okf_catalog` table.
#[derive(Clone, Debug, PartialEq, Eq)]
pub struct SqliteCatalogRow {
    /// Topic identifier.
    pub id: String,
    /// Display title.
    pub title: String,
    /// Optional description.
    pub description: Option<String>,
    /// Logical path of the topic's node.
    pub path: String,
    /// Routing terms as a JSON array of strings.
    pub terms_json: String,
}

/// Whether a curated catalog row converts: its terms parse and its path is acceptable.
pub open spec fn catalog_row_ok(row: SqliteCatalogRow) -> bool {
    json_text_set(row.terms_json@) is Some && path_ok(uri_path(row.path@))
}

/// Whether `err` is what converting an unconvertible curated row fails with: the terms are
/// checked first, then the path.
pub open spec fn catalog_row_error(row: SqliteCatalogRow, err: LibraryError) -> bool {
    if json_text_set(row.terms_json@) is None {
        err matches LibraryError::Provider(m) && exists|t: Seq<char>| m@ == "invalid catalog terms_json: "@ + t
    } else {
        err matches LibraryError::InvalidUri(s) && s@ == uri_path(row.path@)
    }
}

/// `e` is the catalog entry for curated row `row` of Library `library`.
pub open spec fn catalog_row_entry(e: CatalogEntry, library: Seq<char>, row: SqliteCatalogRow) -> bool {
    &&& e.id@ == row.id@
    &&& e.title@ == row.title@
    &&& e.description == row.description
    &&& e.uri.spec_library() == library
    &&& e.uri.spec_path() == uri_path(row.path@)
    &&& json_text_set(row.terms_json@) == Some(e.terms@)
}

/// The catalog of Library `library` from its curated `okf_catalog` rows, in row order; the
/// first row that does not convert decides the error.
pub fn sqlite_curated_catalog(library: &LibraryId, rows: &Vec<SqliteCatalogRow>) -> (r: LibraryResult<
    LibraryCatalog,
>)
    ensures
        (forall|k: int| 0 <= k < rows@.len() ==> catalog_row_ok(#[trigger] rows@[k])) ==> (r matches Ok(c)
            && c.library@ == library@ && c.entries@.len() == rows@.len() && forall|k: int|
            0 <= k < rows@.len() ==> catalog_row_entry(#[trigger] c.entries@[k], library@, rows@[k])),
        !(forall|k: int| 0 <= k < rows@.len() ==> catalog_row_ok(#[trigger] rows@[k])) ==> (r matches Err(e)
            && exists|k: int|
            0 <= k < rows@.len() && !catalog_row_ok(#[trigger] rows@[k]) && catalog_row_error(rows@[k], e)
                && forall|j: int| 0 <= j < k ==> catalog_row_ok(#[trigger] rows@[j])),
{
    let mut entries: Vec<CatalogEntry> = Vec::new();
    let mut k: usize = 0;
    while k < rows.len()
        invariant
            k <= rows@.len(),
            entries@.len() == k,
            forall|j: int| 0 <= j < k ==> catalog_row_ok(#[trigger] rows@[j]),
            forall|j: int| 0 <= j < k ==> catalog_row_entry(#[trigger] entries@[j], library@, rows@[j]),
        decreases rows@.len() - k,
    {
        let row = &rows[k];
        let terms = match parse_json_text_set(row.terms_json.as_str()) {
            Ok(v) => TextSet::from_sorted(v),
            Err(e) => {
                let err = LibraryError::Provider(concat2("invalid catalog terms_json: ", e.as_str()));
                assert(catalog_row_error(rows@[k as int], err));
                return Err(err);
            },
        };
        let uri = match KnowledgeUri::new(library.copy(), row.path.as_str()) {
            Ok(u) => u,
            Err(e) => {
                return Err(e);
            },
        };
        let description = match &row.description {
            Some(d) => Some(d.clone()),
            None => None,
        };
        entries.push(CatalogEntry { id: row.id.clone(), title: row.title.clone(), description, uri, terms });
        k = k + 1;
    }
    Ok(LibraryCatalog { library: library.copy(), entries })
}

/// `e` is the derived catalog entry for node row `(path, title)`: the path is the identifier,
/// with no description and no terms.
pub open spec fn node_row_entry(e: CatalogEntry, library: Seq<char>, row: (String, String)) -> bool {
    &&& e.id@ == row.0@
    &&& e.title@ == row.1@
    &&& e.description is None
    &&& e.uri.spec_library() == library
    &&& e.uri.spec_path() == uri_path(row.0@)
    &&& e.terms@.len() == 0
}

/// The catalog of Library `library` derived from node rows `(path, title or path)`, in row
/// order; the first row whose path is not acceptable decides the error.
pub fn sqlite_derived_catalog(library: &LibraryId, rows: &Vec<(String, String)>) -> (r: LibraryResult<
    LibraryCatalog,
>)
    ensures
        (forall|k: int| 0 <= k < rows@.len() ==> path_ok(uri_path(#[trigger] rows@[k].0@))) ==> (r matches Ok(c)
            && c.library@ == library@ && c.entries@.len() == rows@.len() && forall|k: int|
            0 <= k < rows@.len() ==> node_row_entry(#[trigger] c.entries@[k], library@, rows@[k])),
        !(forall|k: int| 0 <= k < rows@.len() ==> path_ok(uri_path(#[trigger] rows@[k].0@))) ==> (r matches Err(
            LibraryError::InvalidUri(s),
        ) && exists|k: int|
            0 <= k < rows@.len() && !path_ok(uri_path(#[trigger] rows@[k].0@)) && s@ == uri_path(rows@[k].0@)
                && forall|j: int| 0 <= j < k ==> path_ok(uri_path(#[trigger] rows@[j].0@))),
{
    let mut entries: Vec<CatalogEntry> = Vec::new();
    let mut k: usize = 0;
    while k < rows.len()
        invariant
            k <= rows@.len(),
            entries@.len() == k,
            forall|j: int| 0 <= j < k ==> path_ok(uri_path(#[trigger] rows@[j].0@)),
            forall|j: int| 0 <= j < k ==> node_row_entry(#[trigger] entries@[j], library@, rows@[j]),
        decreases rows@.len() - k,
    {
        let row = &rows[k];
        let uri = match KnowledgeUri::new(library.copy(), row.0.as_str()) {
            Ok(u) => u,
            Err(e) => {
                return Err(e);
            },
        };
        entries.push(
            CatalogEntry {
                id: row.0.clone(),
                title: row.1.clone(),
                description: None,
                uri,
                terms: TextSet::new(),
            },
        );
        k = k + 1;
    }
    Ok(LibraryCatalog { library: library.copy(), entries })
}

/// The diagnostic for a failed database call: `SQLite provider error: <detail>`.
pub fn sqlite_error(detail: &str) -> (r: LibraryError)
    ensures
        r matches LibraryError::Provider(m) && m@ == "SQLite provider error: "@ + detail@,
{
    LibraryError::Provider(concat2("SQLite provider error: ", detail))
}

/// The diagnostic for a poisoned connection lock: `SQLite provider lock poisoned: <detail>`.
pub fn lock_error(detail: &str) -> (r: LibraryError)
    ensures
        r matches LibraryError::Provider(m) && m@ == "SQLite provider lock poisoned: "@ + detail@,
{
    LibraryError::Provider(concat2("SQLite provider lock poisoned: ", detail))
}

} // verus!
