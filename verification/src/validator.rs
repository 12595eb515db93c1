//! Deterministic structural validation for OKF bundles.
//!
//! The report lists, in this order: for each document (identifier order) an empty-title issue
//! and, per alias (ascending), invalid, conflicting and shared alias issues; then for each
//! document and each of its links, empty-relation, self-reference and unresolved-reference
//! issues; then, when enabled, one issue per document with no resolved incoming or outgoing
//! link. An empty bundle yields one warning.

use vstd::prelude::*;

use crate::graph::{links_to, KnowledgeGraph};
use crate::model::bundle::{docs_sorted, has_id, lemma_sorted_unique, resolve_index};
use crate::model::document::{id_problem, problem_reason};
use crate::model::{Bundle, Document, DocumentId, Reference};
use crate::text::{chars_of, concat3, concat4, concat5, owned, text_eq, text_lt, trim, trim_chars};

verus! {

/// Diagnostic severity.
#[derive(Clone, Copy, Debug, PartialEq, Eq, Structural, Hash, PartialOrd, Ord)]
pub enum Severity {
    /// The bundle remains usable, but the diagnostic should be reviewed.
    Warning,
    /// The bundle violates a structural rule.
    Error,
}

/// One machine-readable validation diagnostic.
#[derive(Debug)]
pub struct ValidationIssue {
    /// Severity of the diagnostic.
    pub severity: Severity,
    /// Stable issue code for integrations.
    pub code: String,
    /// Human-readable explanation.
    pub message: String,
    /// Canonical document identifier when the issue belongs to a document.
    pub document: Option<DocumentId>,
}

/// An issue as plain values: severity, code, message and document identifier.
pub type IssueView = (Severity, Seq<char>, Seq<char>, Option<Seq<char>>);

/// Plain-value view of an issue.
pub open spec fn issue_view(i: ValidationIssue) -> IssueView {
    (
        i.severity,
        i.code@,
        i.message@,
        match i.document {
            Some(d) => Some(d@),
            None => None,
        },
    )
}

/// Plain-value views of a sequence of issues.
pub open spec fn issue_views(s: Seq<ValidationIssue>) -> Seq<IssueView> {
    s.map_values(|i: ValidationIssue| issue_view(i))
}

impl ValidationIssue {
    fn new(severity: Severity, code: &str, message: String, document: &DocumentId) -> (r:
        ValidationIssue)
        ensures
            issue_view(r) == (severity, code@, message@, Some(document@)),
    {
        ValidationIssue { severity, code: owned(code), message, document: Some(document.copy()) }
    }

    /// Copies the issue.
    pub fn copy(&self) -> (r: ValidationIssue)
        ensures
            issue_view(r) == issue_view(*self),
    {
        ValidationIssue {
            severity: self.severity,
            code: self.code.clone(),
            message: self.message.clone(),
            document: match &self.document {
                Some(d) => Some(d.copy()),
                None => None,
            },
        }
    }
}

/// Validation behavior controls.
#[derive(Clone, Copy, Debug, PartialEq, Eq, Structural)]
pub struct ValidationOptions {
    /// Treat unresolved references as errors instead of warnings.
    pub unresolved_references_are_errors: bool,
    /// Emit warnings for self-references.
    pub warn_on_self_references: bool,
    /// Emit warnings for documents with no resolved incoming or outgoing links.
    pub warn_on_orphans: bool,
}

impl Default for ValidationOptions {
    fn default() -> (r: ValidationOptions)
        ensures
            r.unresolved_references_are_errors,
            r.warn_on_self_references,
            r.warn_on_orphans,
    {
        ValidationOptions {
            unresolved_references_are_errors: true,
            warn_on_self_references: true,
            warn_on_orphans: true,
        }
    }
}

/// An issue for document identifier `id`.
pub open spec fn doc_issue(severity: Severity, code: Seq<char>, message: Seq<char>, id: Seq<char>) -> IssueView {
    (severity, code, message, Some(id))
}

/// The empty-title issue of a document, if any.
pub open spec fn title_issues(d: Document) -> Seq<IssueView> {
    if trim(d.spec_title()).len() == 0 {
        seq![doc_issue(Severity::Error, "OKF101"@, "document title is empty"@, d.spec_id())]
    } else {
        seq![]
    }
}

/// Identifier of the last document before position `i` that declares alias `a`.
pub open spec fn last_declarer(docs: Seq<Document>, i: int, a: Seq<char>) -> Option<Seq<char>>
    decreases i,
{
    if i <= 0 {
        None
    } else if docs[i - 1].spec_metadata().aliases@.contains(a) {
        Some(docs[i - 1].spec_id())
    } else {
        last_declarer(docs, i - 1, a)
    }
}

/// Issues about alias `a` of document `i`: an invalid alias; otherwise an alias that is another
/// document's identifier, and an alias an earlier document also declares (naming the latest).
pub open spec fn alias_issues(docs: Seq<Document>, i: int, a: Seq<char>) -> Seq<IssueView> {
    let id = docs[i].spec_id();
    match id_problem(a) {
        Some(p) => seq![
            doc_issue(
                Severity::Error,
                "OKF102"@,
                "invalid alias '"@ + a + "': "@ + problem_reason(p),
                id,
            ),
        ],
        None => (if has_id(docs, a) && a != id {
            seq![
                doc_issue(
                    Severity::Error,
                    "OKF103"@,
                    "alias '"@ + a + "' conflicts with a canonical document id"@,
                    id,
                ),
            ]
        } else {
            seq![]
        }) + match last_declarer(docs, i, a) {
            Some(prev) => if prev != id {
                seq![
                    doc_issue(
                        Severity::Error,
                        "OKF104"@,
                        "alias '"@ + a + "' is also declared by '"@ + prev + "'"@,
                        id,
                    ),
                ]
            } else {
                seq![]
            },
            None => seq![],
        },
    }
}

/// Issues about the first `k` aliases of document `i`.
pub open spec fn aliases_issues(docs: Seq<Document>, i: int, k: int) -> Seq<IssueView>
    decreases k,
{
    if k <= 0 {
        seq![]
    } else {
        aliases_issues(docs, i, k - 1) + alias_issues(docs, i, docs[i].spec_metadata().aliases@[k - 1])
    }
}

/// Title and alias issues of the first `n` documents.
pub open spec fn naming_issues(docs: Seq<Document>, n: int) -> Seq<IssueView>
    decreases n,
{
    if n <= 0 {
        seq![]
    } else {
        naming_issues(docs, n - 1) + title_issues(docs[n - 1]) + aliases_issues(
            docs,
            n - 1,
            docs[n - 1].spec_metadata().aliases@.len() as int,
        )
    }
}

/// Issues about link `l` of document `i`: an empty relation name, then a link resolving to the
/// document itself (when enabled) or not resolving at all.
pub open spec fn link_issues(docs: Seq<Document>, i: int, l: Reference, opts: ValidationOptions) -> Seq<
    IssueView,
> {
    let id = docs[i].spec_id();
    (if trim(l.spec_relation()).len() == 0 {
        seq![
            doc_issue(
                Severity::Error,
                "OKF201"@,
                "reference to '"@ + l.spec_target() + "' has an empty relation"@,
                id,
            ),
        ]
    } else {
        seq![]
    }) + match resolve_index(docs, l.spec_target()) {
        Some(j) => if docs[j].spec_id() == id && opts.warn_on_self_references {
            seq![
                doc_issue(
                    Severity::Warning,
                    "OKF202"@,
                    "document references itself through '"@ + l.spec_relation() + "'"@,
                    id,
                ),
            ]
        } else {
            seq![]
        },
        None => seq![
            doc_issue(
                if opts.unresolved_references_are_errors {
                    Severity::Error
                } else {
                    Severity::Warning
                },
                "OKF203"@,
                "unresolved reference to '"@ + l.spec_target() + "'"@,
                id,
            ),
        ],
    }
}

/// Issues about the first `k` links of document `i`.
pub open spec fn links_issues(docs: Seq<Document>, i: int, k: int, opts: ValidationOptions) -> Seq<
    IssueView,
>
    decreases k,
{
    if k <= 0 {
        seq![]
    } else {
        links_issues(docs, i, k - 1, opts) + link_issues(
            docs,
            i,
            docs[i].spec_metadata().links@[k - 1],
            opts,
        )
    }
}

/// Link issues of the first `n` documents.
pub open spec fn reference_issues(docs: Seq<Document>, n: int, opts: ValidationOptions) -> Seq<
    IssueView,
>
    decreases n,
{
    if n <= 0 {
        seq![]
    } else {
        reference_issues(docs, n - 1, opts) + links_issues(
            docs,
            n - 1,
            docs[n - 1].spec_metadata().links@.len() as int,
            opts,
        )
    }
}

/// Whether document `i` has no resolved incoming or outgoing link.
pub open spec fn is_orphan(docs: Seq<Document>, i: int) -> bool {
    !(exists|j: int| #[trigger] links_to(docs, j, i)) && !(exists|j: int| #[trigger] links_to(docs, i, j))
}

/// Orphan issues of the first `n` documents.
pub open spec fn orphan_issues(docs: Seq<Document>, n: int) -> Seq<IssueView>
    decreases n,
{
    if n <= 0 {
        seq![]
    } else {
        orphan_issues(docs, n - 1) + if is_orphan(docs, n - 1) {
            seq![
                doc_issue(
                    Severity::Warning,
                    "OKF301"@,
                    "document is disconnected from the resolved knowledge graph"@,
                    docs[n - 1].spec_id(),
                ),
            ]
        } else {
            seq![]
        }
    }
}

/// The issues validation reports for documents `docs` under `opts`.
pub open spec fn expected_issues(docs: Seq<Document>, opts: ValidationOptions) -> Seq<IssueView> {
    if docs.len() == 0 {
        seq![(Severity::Warning, "OKF001"@, "bundle contains no Markdown documents"@, None)]
    } else {
        naming_issues(docs, docs.len() as int) + reference_issues(docs, docs.len() as int, opts) + if opts.warn_on_orphans
            {
            orphan_issues(docs, docs.len() as int)
        } else {
            seq![]
        }
    }
}

/// Codes of title and alias issues.
pub open spec fn naming_codes() -> Set<Seq<char>> {
    set!["OKF101"@, "OKF102"@, "OKF103"@, "OKF104"@]
}

/// Codes of link issues.
pub open spec fn reference_codes() -> Set<Seq<char>> {
    set!["OKF201"@, "OKF202"@, "OKF203"@]
}

/// Code of orphan issues.
pub open spec fn orphan_codes() -> Set<Seq<char>> {
    set!["OKF301"@]
}

/// Whether identifier `a` comes no later than `b`.
pub open spec fn id_le(a: Seq<char>, b: Seq<char>) -> bool {
    a == b || text_lt(a, b)
}

/// The document an issue names, or the empty text for a bundle-level issue.
pub open spec fn issue_doc(v: IssueView) -> Seq<char> {
    match v.3 {
        Some(id) => id,
        None => seq![],
    }
}

/// Whether every issue of `s` is about document `id` and carries one of `codes`.
pub open spec fn all_about(s: Seq<IssueView>, codes: Set<Seq<char>>, id: Seq<char>) -> bool {
    forall|p: int| 0 <= p < s.len() ==> codes.contains((#[trigger] s[p]).1) && s[p].3 == Some(id)
}

/// Whether every issue of `s` carries one of `codes` and names a document no later than
/// `last`, and the documents named never go back in identifier order.
pub open spec fn ordered_block(s: Seq<IssueView>, codes: Set<Seq<char>>, last: Seq<char>) -> bool {
    &&& forall|p: int|
        0 <= p < s.len() ==> codes.contains((#[trigger] s[p]).1) && s[p].3 is Some && id_le(issue_doc(s[p]), last)
    &&& forall|p: int, q: int| 0 <= p < q < s.len() ==> id_le(issue_doc(#[trigger] s[p]), issue_doc(#[trigger] s[q]))
}

/// Issues of documents `0..n`, each document's issues given by `f`, in document order.
pub open spec fn issues_upto(f: spec_fn(int) -> Seq<IssueView>, n: int) -> Seq<IssueView>
    decreases n,
{
    if n <= 0 {
        seq![]
    } else {
        issues_upto(f, n - 1) + f(n - 1)
    }
}

/// Issues listed document by document, in identifier order, form an ordered block.
proof fn lemma_ordered_upto(docs: Seq<Document>, f: spec_fn(int) -> Seq<IssueView>, codes: Set<Seq<char>>, n: int)
    requires
        docs_sorted(docs),
        1 <= n <= docs.len(),
        forall|i: int| 0 <= i < n ==> #[trigger] all_about(f(i), codes, docs[i].spec_id()),
    ensures
        ordered_block(issues_upto(f, n), codes, docs[n - 1].spec_id()),
    decreases n,
{
    let s = issues_upto(f, n);
    let pre = issues_upto(f, n - 1);
    let g = f(n - 1);
    let last = docs[n - 1].spec_id();
    assert(s == pre + g);
    assert(all_about(g, codes, last));
    if n == 1 {
        assert(pre.len() == 0);
        assert forall|p: int| 0 <= p < s.len() implies codes.contains((#[trigger] s[p]).1) && s[p].3 is Some
            && id_le(issue_doc(s[p]), last) by {
            assert(s[p] == g[p]);
        }
        assert forall|p: int, q: int| 0 <= p < q < s.len() implies id_le(issue_doc(#[trigger] s[p]), issue_doc(
            #[trigger] s[q],
        )) by {
            assert(s[p] == g[p] && s[q] == g[q]);
        }
    } else {
        lemma_ordered_upto(docs, f, codes, n - 1);
        let before = docs[n - 2].spec_id();
        assert(text_lt(docs[n - 2].spec_id(), docs[n - 1].spec_id()));
        assert forall|p: int| 0 <= p < pre.len() implies text_lt(issue_doc(#[trigger] pre[p]), last) by {
            if issue_doc(pre[p]) != before {
                crate::text::lemma_text_lt_transitive(issue_doc(pre[p]), before, last);
            }
        }
        assert forall|p: int| 0 <= p < s.len() implies codes.contains((#[trigger] s[p]).1) && s[p].3 is Some
            && id_le(issue_doc(s[p]), last) by {
            if p < pre.len() {
                assert(s[p] == pre[p]);
            } else {
                assert(s[p] == g[p - pre.len()]);
            }
        }
        assert forall|p: int, q: int| 0 <= p < q < s.len() implies id_le(issue_doc(#[trigger] s[p]), issue_doc(
            #[trigger] s[q],
        )) by {
            if q < pre.len() {
                assert(s[p] == pre[p] && s[q] == pre[q]);
            } else if p < pre.len() {
                assert(s[p] == pre[p] && s[q] == g[q - pre.len()]);
            } else {
                assert(s[p] == g[p - pre.len()] && s[q] == g[q - pre.len()]);
            }
        }
    }
}

/// Concatenations of issues about one document are about that document.
proof fn lemma_all_about_concat(a: Seq<IssueView>, b: Seq<IssueView>, codes: Set<Seq<char>>, id: Seq<char>)
    requires
        all_about(a, codes, id),
        all_about(b, codes, id),
    ensures
        all_about(a + b, codes, id),
{
    let s = a + b;
    assert forall|p: int| 0 <= p < s.len() implies codes.contains((#[trigger] s[p]).1) && s[p].3 == Some(id) by {
        if p < a.len() {
            assert(s[p] == a[p]);
        } else {
            assert(s[p] == b[p - a.len()]);
        }
    }
}

/// Alias issues of document `i` are naming issues about that document.
proof fn lemma_aliases_about(docs: Seq<Document>, i: int, k: int)
    ensures
        all_about(aliases_issues(docs, i, k), naming_codes(), docs[i].spec_id()),
    decreases k,
{
    if k > 0 {
        lemma_aliases_about(docs, i, k - 1);
        let a = docs[i].spec_metadata().aliases@[k - 1];
        let id = docs[i].spec_id();
        let s = alias_issues(docs, i, a);
        assert(naming_codes().contains("OKF102"@));
        assert(naming_codes().contains("OKF103"@));
        assert(naming_codes().contains("OKF104"@));
        match id_problem(a) {
            Some(_) => {},
            None => {
                let x: Seq<IssueView> = if has_id(docs, a) && a != id {
                    seq![
                        doc_issue(
                            Severity::Error,
                            "OKF103"@,
                            "alias '"@ + a + "' conflicts with a canonical document id"@,
                            id,
                        ),
                    ]
                } else {
                    seq![]
                };
                let y: Seq<IssueView> = match last_declarer(docs, i, a) {
                    Some(prev) => if prev != id {
                        seq![
                            doc_issue(
                                Severity::Error,
                                "OKF104"@,
                                "alias '"@ + a + "' is also declared by '"@ + prev + "'"@,
                                id,
                            ),
                        ]
                    } else {
                        seq![]
                    },
                    None => seq![],
                };
                assert(s == x + y);
                lemma_all_about_concat(x, y, naming_codes(), id);
            },
        }
        lemma_all_about_concat(aliases_issues(docs, i, k - 1), s, naming_codes(), id);
    }
}

/// Link issues of document `i` are reference issues about that document.
proof fn lemma_links_about(docs: Seq<Document>, i: int, k: int, opts: ValidationOptions)
    ensures
        all_about(links_issues(docs, i, k, opts), reference_codes(), docs[i].spec_id()),
    decreases k,
{
    if k > 0 {
        lemma_links_about(docs, i, k - 1, opts);
        let l = docs[i].spec_metadata().links@[k - 1];
        let id = docs[i].spec_id();
        assert(reference_codes().contains("OKF201"@));
        assert(reference_codes().contains("OKF202"@));
        assert(reference_codes().contains("OKF203"@));
        let x: Seq<IssueView> = if trim(l.spec_relation()).len() == 0 {
            seq![
                doc_issue(
                    Severity::Error,
                    "OKF201"@,
                    "reference to '"@ + l.spec_target() + "' has an empty relation"@,
                    id,
                ),
            ]
        } else {
            seq![]
        };
        let y: Seq<IssueView> = match resolve_index(docs, l.spec_target()) {
            Some(j) => if docs[j].spec_id() == id && opts.warn_on_self_references {
                seq![
                    doc_issue(
                        Severity::Warning,
                        "OKF202"@,
                        "document references itself through '"@ + l.spec_relation() + "'"@,
                        id,
                    ),
                ]
            } else {
                seq![]
            },
            None => seq![
                doc_issue(
                    if opts.unresolved_references_are_errors {
                        Severity::Error
                    } else {
                        Severity::Warning
                    },
                    "OKF203"@,
                    "unresolved reference to '"@ + l.spec_target() + "'"@,
                    id,
                ),
            ],
        };
        assert(link_issues(docs, i, l, opts) == x + y);
        lemma_all_about_concat(x, y, reference_codes(), id);
        lemma_all_about_concat(links_issues(docs, i, k - 1, opts), x + y, reference_codes(), id);
    }
}

/// Each group of issues equals its document-by-document listing.
proof fn lemma_groups_upto(docs: Seq<Document>, opts: ValidationOptions, n: int)
    requires
        0 <= n <= docs.len(),
    ensures
        naming_issues(docs, n) == issues_upto(
            |i: int| title_issues(docs[i]) + aliases_issues(docs, i, docs[i].spec_metadata().aliases@.len() as int),
            n,
        ),
        reference_issues(docs, n, opts) == issues_upto(
            |i: int| links_issues(docs, i, docs[i].spec_metadata().links@.len() as int, opts),
            n,
        ),
        orphan_issues(docs, n) == issues_upto(|i: int| orphan_issue(docs, i), n),
    decreases n,
{
    if n > 0 {
        lemma_groups_upto(docs, opts, n - 1);
        assert(naming_issues(docs, n) =~= naming_issues(docs, n - 1) + (title_issues(docs[n - 1]) + aliases_issues(
            docs,
            n - 1,
            docs[n - 1].spec_metadata().aliases@.len() as int,
        )));
    }
}

/// The orphan issue of document `i`, if it is one.
pub open spec fn orphan_issue(docs: Seq<Document>, i: int) -> Seq<IssueView> {
    if is_orphan(docs, i) {
        seq![
            doc_issue(
                Severity::Warning,
                "OKF301"@,
                "document is disconnected from the resolved knowledge graph"@,
                docs[i].spec_id(),
            ),
        ]
    } else {
        seq![]
    }
}

/// The report of a non-empty bundle is three blocks in turn: title and alias issues
/// (OKF101 to OKF104), then link issues (OKF201 to OKF203), then orphan warnings (OKF301). Every
/// issue names a document, and within each block the documents named never go back in
/// identifier order. Since `Validator::validate` gives exactly these issues, validating the same
/// bundle twice gives the same report.
pub proof fn lemma_report_blocks(docs: Seq<Document>, opts: ValidationOptions)
    requires
        docs_sorted(docs),
        docs.len() > 0,
    ensures
        exists|n1: int, n2: int|
            0 <= n1 <= n2 <= expected_issues(docs, opts).len() && ordered_block(
                expected_issues(docs, opts).subrange(0, n1),
                naming_codes(),
                docs.last().spec_id(),
            ) && ordered_block(
                #[trigger] expected_issues(docs, opts).subrange(n1, n2),
                reference_codes(),
                docs.last().spec_id(),
            ) && ordered_block(
                expected_issues(docs, opts).subrange(n2, expected_issues(docs, opts).len() as int),
                orphan_codes(),
                docs.last().spec_id(),
            ),
{
    let n = docs.len() as int;
    let fa = |i: int| title_issues(docs[i]) + aliases_issues(docs, i, docs[i].spec_metadata().aliases@.len() as int);
    let fb = |i: int| links_issues(docs, i, docs[i].spec_metadata().links@.len() as int, opts);
    let fc = |i: int| orphan_issue(docs, i);
    lemma_groups_upto(docs, opts, n);
    assert forall|i: int| 0 <= i < n implies #[trigger] all_about(fa(i), naming_codes(), docs[i].spec_id()) by {
        lemma_aliases_about(docs, i, docs[i].spec_metadata().aliases@.len() as int);
        assert(naming_codes().contains("OKF101"@));
        lemma_all_about_concat(
            title_issues(docs[i]),
            aliases_issues(docs, i, docs[i].spec_metadata().aliases@.len() as int),
            naming_codes(),
            docs[i].spec_id(),
        );
    }
    assert forall|i: int| 0 <= i < n implies #[trigger] all_about(fb(i), reference_codes(), docs[i].spec_id()) by {
        lemma_links_about(docs, i, docs[i].spec_metadata().links@.len() as int, opts);
    }
    assert forall|i: int| 0 <= i < n implies #[trigger] all_about(fc(i), orphan_codes(), docs[i].spec_id()) by {
        assert(orphan_codes().contains("OKF301"@));
        let s = fc(i);
        assert forall|p: int| 0 <= p < s.len() implies orphan_codes().contains((#[trigger] s[p]).1) && s[p].3 == Some(
            docs[i].spec_id(),
        ) by {}
    }
    lemma_ordered_upto(docs, fa, naming_codes(), n);
    lemma_ordered_upto(docs, fb, reference_codes(), n);
    lemma_ordered_upto(docs, fc, orphan_codes(), n);
    let a = naming_issues(docs, n);
    let b = reference_issues(docs, n, opts);
    let c: Seq<IssueView> = if opts.warn_on_orphans { orphan_issues(docs, n) } else { seq![] };
    let e = expected_issues(docs, opts);
    assert(e == a + b + c);
    let n1 = a.len() as int;
    let n2 = (a.len() + b.len()) as int;
    assert(e.subrange(0, n1) =~= a);
    assert(e.subrange(n1, n2) =~= b);
    assert(e.subrange(n2, e.len() as int) =~= c);
    assert(ordered_block(e.subrange(0, n1), naming_codes(), docs.last().spec_id()));
}

/// Codes of the issues that are always errors: empty titles, invalid, conflicting and shared
/// aliases, and links with an empty relation.
pub open spec fn error_codes() -> Set<Seq<char>> {
    set!["OKF101"@, "OKF102"@, "OKF103"@, "OKF104"@, "OKF201"@]
}

/// Whether every issue of `s` whose code is one of [`error_codes`] is an error.
pub open spec fn errors_marked(s: Seq<IssueView>) -> bool {
    forall|p: int| 0 <= p < s.len() && error_codes().contains((#[trigger] s[p]).1) ==> s[p].0 == Severity::Error
}

/// The other codes are not among the error codes.
proof fn lemma_other_codes()
    ensures
        !error_codes().contains("OKF001"@),
        !error_codes().contains("OKF202"@),
        !error_codes().contains("OKF203"@),
        !error_codes().contains("OKF301"@),
{
    reveal_strlit("OKF001");
    reveal_strlit("OKF101");
    reveal_strlit("OKF102");
    reveal_strlit("OKF103");
    reveal_strlit("OKF104");
    reveal_strlit("OKF201");
    reveal_strlit("OKF202");
    reveal_strlit("OKF203");
    reveal_strlit("OKF301");
    assert("OKF001"@[3] != "OKF101"@[3]);
    assert("OKF001"@[3] != "OKF201"@[3]);
    assert("OKF202"@[5] != "OKF201"@[5]);
    assert("OKF202"@[3] != "OKF101"@[3]);
    assert("OKF203"@[5] != "OKF201"@[5]);
    assert("OKF203"@[3] != "OKF101"@[3]);
    assert("OKF301"@[3] != "OKF101"@[3]);
    assert("OKF301"@[3] != "OKF201"@[3]);
}

/// Concatenation keeps error codes marked as errors.
proof fn lemma_errors_marked_concat(a: Seq<IssueView>, b: Seq<IssueView>)
    requires
        errors_marked(a),
        errors_marked(b),
    ensures
        errors_marked(a + b),
{
    let s = a + b;
    assert forall|p: int| 0 <= p < s.len() && error_codes().contains((#[trigger] s[p]).1) implies s[p].0
        == Severity::Error by {
        if p < a.len() {
            assert(s[p] == a[p]);
        } else {
            assert(s[p] == b[p - a.len()]);
        }
    }
}

/// Alias issues are errors.
proof fn lemma_alias_issues_errors(docs: Seq<Document>, i: int, k: int)
    ensures
        forall|p: int| 0 <= p < aliases_issues(docs, i, k).len() ==> (#[trigger] aliases_issues(docs, i, k)[p]).0
            == Severity::Error,
    decreases k,
{
    if k > 0 {
        lemma_alias_issues_errors(docs, i, k - 1);
        let pre = aliases_issues(docs, i, k - 1);
        let s = alias_issues(docs, i, docs[i].spec_metadata().aliases@[k - 1]);
        let all = aliases_issues(docs, i, k);
        assert(all == pre + s);
        assert forall|p: int| 0 <= p < all.len() implies (#[trigger] all[p]).0 == Severity::Error by {
            if p < pre.len() {
                assert(all[p] == pre[p]);
            } else {
                assert(all[p] == s[p - pre.len()]);
            }
        }
    }
}

/// Title and alias issues are errors.
proof fn lemma_naming_errors(docs: Seq<Document>, n: int)
    ensures
        errors_marked(naming_issues(docs, n)),
    decreases n,
{
    if n > 0 {
        lemma_naming_errors(docs, n - 1);
        let t = title_issues(docs[n - 1]);
        let a = aliases_issues(docs, n - 1, docs[n - 1].spec_metadata().aliases@.len() as int);
        lemma_alias_issues_errors(docs, n - 1, docs[n - 1].spec_metadata().aliases@.len() as int);
        assert(errors_marked(t));
        assert(errors_marked(a));
        lemma_errors_marked_concat(t, a);
        lemma_errors_marked_concat(naming_issues(docs, n - 1), t + a);
        assert(naming_issues(docs, n) == naming_issues(docs, n - 1) + (t + a));
    }
}

/// An empty relation is an error; self and unresolved references carry other codes.
proof fn lemma_link_errors(docs: Seq<Document>, i: int, k: int, opts: ValidationOptions)
    ensures
        errors_marked(links_issues(docs, i, k, opts)),
    decreases k,
{
    if k > 0 {
        lemma_link_errors(docs, i, k - 1, opts);
        lemma_other_codes();
        let l = docs[i].spec_metadata().links@[k - 1];
        let s = link_issues(docs, i, l, opts);
        assert forall|p: int| 0 <= p < s.len() && error_codes().contains((#[trigger] s[p]).1) implies s[p].0
            == Severity::Error by {
            lemma_links_about(docs, i, k, opts);
        }
        lemma_errors_marked_concat(links_issues(docs, i, k - 1, opts), s);
    }
}

/// Link issues keep error codes marked as errors.
proof fn lemma_reference_errors(docs: Seq<Document>, n: int, opts: ValidationOptions)
    ensures
        errors_marked(reference_issues(docs, n, opts)),
    decreases n,
{
    if n > 0 {
        lemma_reference_errors(docs, n - 1, opts);
        lemma_link_errors(docs, n - 1, docs[n - 1].spec_metadata().links@.len() as int, opts);
        lemma_errors_marked_concat(
            reference_issues(docs, n - 1, opts),
            links_issues(docs, n - 1, docs[n - 1].spec_metadata().links@.len() as int, opts),
        );
    }
}

/// Orphan warnings carry no error code.
proof fn lemma_orphan_errors(docs: Seq<Document>, n: int)
    ensures
        errors_marked(orphan_issues(docs, n)),
    decreases n,
{
    if n > 0 {
        lemma_orphan_errors(docs, n - 1);
        lemma_other_codes();
        let s: Seq<IssueView> = if is_orphan(docs, n - 1) {
            seq![
                doc_issue(
                    Severity::Warning,
                    "OKF301"@,
                    "document is disconnected from the resolved knowledge graph"@,
                    docs[n - 1].spec_id(),
                ),
            ]
        } else {
            seq![]
        };
        assert(errors_marked(s));
        lemma_errors_marked_concat(orphan_issues(docs, n - 1), s);
        assert(orphan_issues(docs, n) == orphan_issues(docs, n - 1) + s);
    }
}

/// Every issue with code OKF101, OKF102, OKF103, OKF104 or OKF201 that validation reports is an
/// error, so a report holding one is not valid.
pub proof fn lemma_error_codes_are_errors(docs: Seq<Document>, opts: ValidationOptions)
    ensures
        errors_marked(expected_issues(docs, opts)),
{
    lemma_other_codes();
    if docs.len() > 0 {
        let n = docs.len() as int;
        lemma_naming_errors(docs, n);
        lemma_reference_errors(docs, n, opts);
        lemma_orphan_errors(docs, n);
        lemma_errors_marked_concat(naming_issues(docs, n), reference_issues(docs, n, opts));
        let c: Seq<IssueView> = if opts.warn_on_orphans { orphan_issues(docs, n) } else { seq![] };
        lemma_errors_marked_concat(naming_issues(docs, n) + reference_issues(docs, n, opts), c);
    } else {
        let e = expected_issues(docs, opts);
        assert forall|p: int| 0 <= p < e.len() && error_codes().contains((#[trigger] e[p]).1) implies e[p].0
            == Severity::Error by {
            assert(e[p].1 == "OKF001"@);
        }
    }
}

/// Whether `s` holds a shared-alias error about document `id`.
pub open spec fn has_shared_alias_error(s: Seq<IssueView>, id: Seq<char>) -> bool {
    exists|p: int|
        0 <= p < s.len() && (#[trigger] s[p]).0 == Severity::Error && s[p].1 == "OKF104"@ && s[p].3 == Some(id)
}

proof fn lemma_shared_alias_error_concat(a: Seq<IssueView>, b: Seq<IssueView>, id: Seq<char>)
    ensures
        has_shared_alias_error(a, id) ==> has_shared_alias_error(a + b, id),
        has_shared_alias_error(b, id) ==> has_shared_alias_error(a + b, id),
{
    let s = a + b;
    if has_shared_alias_error(a, id) {
        let p = choose|p: int|
            0 <= p < a.len() && (#[trigger] a[p]).0 == Severity::Error && a[p].1 == "OKF104"@ && a[p].3 == Some(id);
        assert(s[p] == a[p]);
    }
    if has_shared_alias_error(b, id) {
        let p = choose|p: int|
            0 <= p < b.len() && (#[trigger] b[p]).0 == Severity::Error && b[p].1 == "OKF104"@ && b[p].3 == Some(id);
        assert(s[p + a.len()] == b[p]);
    }
}

/// An earlier document declaring alias `a` makes the latest earlier declarer known.
proof fn lemma_last_declarer_found(docs: Seq<Document>, j: int, a: Seq<char>, i: int)
    requires
        0 <= i < j <= docs.len(),
        docs[i].spec_metadata().aliases@.contains(a),
    ensures
        exists|m: int| i <= m < j && last_declarer(docs, j, a) == Some(#[trigger] docs[m].spec_id()),
    decreases j,
{
    if docs[j - 1].spec_metadata().aliases@.contains(a) {
        assert(last_declarer(docs, j, a) == Some(docs[j - 1].spec_id()));
    } else {
        lemma_last_declarer_found(docs, j - 1, a, i);
        let m = choose|m: int| i <= m < j - 1 && last_declarer(docs, j - 1, a) == Some(#[trigger] docs[m].spec_id());
        assert(last_declarer(docs, j, a) == Some(docs[m].spec_id()));
    }
}

/// The alias issues of document `j` up to alias `k` report a shared alias declared earlier.
proof fn lemma_aliases_report_shared(docs: Seq<Document>, i: int, j: int, t: int, k: int)
    requires
        docs_sorted(docs),
        0 <= i < j < docs.len(),
        0 <= t < k <= docs[j].spec_metadata().aliases@.len(),
        docs[i].spec_metadata().aliases@.contains(docs[j].spec_metadata().aliases@[t]),
        id_problem(docs[j].spec_metadata().aliases@[t]) is None,
    ensures
        has_shared_alias_error(aliases_issues(docs, j, k), docs[j].spec_id()),
    decreases k,
{
    let id = docs[j].spec_id();
    if k - 1 > t {
        lemma_aliases_report_shared(docs, i, j, t, k - 1);
    } else {
        let a = docs[j].spec_metadata().aliases@[t];
        lemma_last_declarer_found(docs, j, a, i);
        let m = choose|m: int| i <= m < j && last_declarer(docs, j, a) == Some(#[trigger] docs[m].spec_id());
        assert(text_lt(docs[m].spec_id(), docs[j].spec_id()));
        crate::text::lemma_text_lt_irreflexive(docs[j].spec_id());
        let x: Seq<IssueView> = if has_id(docs, a) && a != id {
            seq![
                doc_issue(
                    Severity::Error,
                    "OKF103"@,
                    "alias '"@ + a + "' conflicts with a canonical document id"@,
                    id,
                ),
            ]
        } else {
            seq![]
        };
        let y: Seq<IssueView> = seq![
            doc_issue(
                Severity::Error,
                "OKF104"@,
                "alias '"@ + a + "' is also declared by '"@ + docs[m].spec_id() + "'"@,
                id,
            ),
        ];
        assert(alias_issues(docs, j, a) == x + y);
        assert(y[0].1 == "OKF104"@);
        assert(has_shared_alias_error(y, id));
        lemma_shared_alias_error_concat(x, y, id);
    }
    lemma_shared_alias_error_concat(aliases_issues(docs, j, k - 1), alias_issues(
        docs,
        j,
        docs[j].spec_metadata().aliases@[k - 1],
    ), id);
}

/// Naming issues of the first `n` documents report the shared alias of document `j < n`.
proof fn lemma_naming_report_shared(docs: Seq<Document>, i: int, j: int, t: int, n: int)
    requires
        docs_sorted(docs),
        0 <= i < j < n <= docs.len(),
        0 <= t < docs[j].spec_metadata().aliases@.len(),
        docs[i].spec_metadata().aliases@.contains(docs[j].spec_metadata().aliases@[t]),
        id_problem(docs[j].spec_metadata().aliases@[t]) is None,
    ensures
        has_shared_alias_error(naming_issues(docs, n), docs[j].spec_id()),
    decreases n,
{
    let id = docs[j].spec_id();
    let t_issues = title_issues(docs[n - 1]);
    let a_issues = aliases_issues(docs, n - 1, docs[n - 1].spec_metadata().aliases@.len() as int);
    assert(naming_issues(docs, n) == naming_issues(docs, n - 1) + (t_issues + a_issues));
    if n - 1 > j {
        lemma_naming_report_shared(docs, i, j, t, n - 1);
    } else {
        lemma_aliases_report_shared(docs, i, j, t, docs[j].spec_metadata().aliases@.len() as int);
        lemma_shared_alias_error_concat(t_issues, a_issues, id);
    }
    lemma_shared_alias_error_concat(naming_issues(docs, n - 1), t_issues + a_issues, id);
}

/// Two documents declaring the same valid alias make validation report a shared-alias error
/// for the later one, so the report is not valid.
pub proof fn lemma_shared_alias_is_error(
    docs: Seq<Document>,
    opts: ValidationOptions,
    i: int,
    j: int,
    alias: Seq<char>,
)
    requires
        docs_sorted(docs),
        0 <= i < j < docs.len(),
        docs[i].spec_metadata().aliases@.contains(alias),
        docs[j].spec_metadata().aliases@.contains(alias),
        id_problem(alias) is None,
    ensures
        has_shared_alias_error(expected_issues(docs, opts), docs[j].spec_id()),
        exists|p: int|
            0 <= p < expected_issues(docs, opts).len() && (#[trigger] expected_issues(docs, opts)[p]).0
                == Severity::Error,
{
    let n = docs.len() as int;
    let t = choose|t: int| 0 <= t < docs[j].spec_metadata().aliases@.len() && docs[j].spec_metadata().aliases@[t] == alias;
    lemma_naming_report_shared(docs, i, j, t, n);
    let c: Seq<IssueView> = if opts.warn_on_orphans { orphan_issues(docs, n) } else { seq![] };
    lemma_shared_alias_error_concat(naming_issues(docs, n), reference_issues(docs, n, opts), docs[j].spec_id());
    lemma_shared_alias_error_concat(naming_issues(docs, n) + reference_issues(docs, n, opts), c, docs[j].spec_id());
    assert(expected_issues(docs, opts) == naming_issues(docs, n) + reference_issues(docs, n, opts) + c);
    let e = expected_issues(docs, opts);
    let p = choose|p: int|
        0 <= p < e.len() && (#[trigger] e[p]).0 == Severity::Error && e[p].1 == "OKF104"@ && e[p].3 == Some(docs[j].spec_id());
    assert(e[p].0 == Severity::Error);
}

/// A report that `Validator::validate` gives for a bundle in which two documents declare the
/// same valid alias is not valid.
pub proof fn lemma_shared_alias_report_invalid(
    report: ValidationReport,
    docs: Seq<Document>,
    opts: ValidationOptions,
    i: int,
    j: int,
    alias: Seq<char>,
)
    requires
        docs_sorted(docs),
        issue_views(report.spec_issues()) == expected_issues(docs, opts),
        0 <= i < j < docs.len(),
        docs[i].spec_metadata().aliases@.contains(alias),
        docs[j].spec_metadata().aliases@.contains(alias),
        id_problem(alias) is None,
    ensures
        exists|k: int| 0 <= k < report.spec_issues().len() && (#[trigger] report.spec_issues()[k]).severity
            == Severity::Error,
{
    lemma_shared_alias_is_error(docs, opts, i, j, alias);
    let e = expected_issues(docs, opts);
    let p = choose|p: int| 0 <= p < e.len() && (#[trigger] e[p]).0 == Severity::Error;
    assert(issue_views(report.spec_issues())[p] == issue_view(report.spec_issues()[p]));
    assert(report.spec_issues()[p].severity == Severity::Error);
}

/// Whether the issues of `s` with codes OKF202, OKF203 and OKF301 follow the options: a
/// self-reference warning only when self references are warned about, an unresolved reference
/// that is an error exactly when unresolved references are errors, and an orphan warning only
/// when orphans are warned about.
pub open spec fn options_followed(s: Seq<IssueView>, opts: ValidationOptions) -> bool {
    forall|p: int|
        0 <= p < s.len() ==> {
            &&& (#[trigger] s[p]).1 == "OKF202"@ ==> s[p].0 == Severity::Warning && opts.warn_on_self_references
            &&& s[p].1 == "OKF203"@ ==> s[p].0 == (if opts.unresolved_references_are_errors {
                Severity::Error
            } else {
                Severity::Warning
            })
            &&& s[p].1 == "OKF301"@ ==> s[p].0 == Severity::Warning && opts.warn_on_orphans
        }
}

proof fn lemma_options_followed_concat(a: Seq<IssueView>, b: Seq<IssueView>, opts: ValidationOptions)
    requires
        options_followed(a, opts),
        options_followed(b, opts),
    ensures
        options_followed(a + b, opts),
{
    let s = a + b;
    assert forall|p: int| 0 <= p < s.len() implies {
        &&& (#[trigger] s[p]).1 == "OKF202"@ ==> s[p].0 == Severity::Warning && opts.warn_on_self_references
        &&& s[p].1 == "OKF203"@ ==> s[p].0 == (if opts.unresolved_references_are_errors {
            Severity::Error
        } else {
            Severity::Warning
        })
        &&& s[p].1 == "OKF301"@ ==> s[p].0 == Severity::Warning && opts.warn_on_orphans
    } by {
        if p < a.len() {
            assert(s[p] == a[p]);
        } else {
            assert(s[p] == b[p - a.len()]);
        }
    }
}

/// Codes of naming and link issues differ from the orphan code, and OKF20x codes from naming codes.
proof fn lemma_code_literals()
    ensures
        !naming_codes().contains("OKF202"@),
        !naming_codes().contains("OKF203"@),
        !naming_codes().contains("OKF301"@),
        "OKF201"@ != "OKF202"@,
        "OKF201"@ != "OKF203"@,
        "OKF201"@ != "OKF301"@,
        "OKF202"@ != "OKF203"@,
        "OKF202"@ != "OKF301"@,
        "OKF203"@ != "OKF301"@,
{
    reveal_strlit("OKF101");
    reveal_strlit("OKF102");
    reveal_strlit("OKF103");
    reveal_strlit("OKF104");
    reveal_strlit("OKF201");
    reveal_strlit("OKF202");
    reveal_strlit("OKF203");
    reveal_strlit("OKF301");
    assert("OKF202"@[3] != "OKF101"@[3]);
    assert("OKF203"@[3] != "OKF101"@[3]);
    assert("OKF301"@[3] != "OKF101"@[3]);
    assert("OKF201"@[5] != "OKF202"@[5]);
    assert("OKF201"@[5] != "OKF203"@[5]);
    assert("OKF201"@[3] != "OKF301"@[3]);
    assert("OKF202"@[5] != "OKF203"@[5]);
    assert("OKF202"@[3] != "OKF301"@[3]);
    assert("OKF203"@[3] != "OKF301"@[3]);
}

/// Issues whose codes are all naming codes follow the options trivially.
proof fn lemma_naming_follow(s: Seq<IssueView>, id: Seq<char>, opts: ValidationOptions)
    requires
        all_about(s, naming_codes(), id),
    ensures
        options_followed(s, opts),
{
    lemma_code_literals();
    assert forall|p: int| 0 <= p < s.len() implies {
        &&& (#[trigger] s[p]).1 == "OKF202"@ ==> s[p].0 == Severity::Warning && opts.warn_on_self_references
        &&& s[p].1 == "OKF203"@ ==> s[p].0 == (if opts.unresolved_references_are_errors {
            Severity::Error
        } else {
            Severity::Warning
        })
        &&& s[p].1 == "OKF301"@ ==> s[p].0 == Severity::Warning && opts.warn_on_orphans
    } by {
        assert(naming_codes().contains(s[p].1));
    }
}

proof fn lemma_links_follow(docs: Seq<Document>, i: int, k: int, opts: ValidationOptions)
    ensures
        options_followed(links_issues(docs, i, k, opts), opts),
    decreases k,
{
    if k > 0 {
        lemma_links_follow(docs, i, k - 1, opts);
        lemma_code_literals();
        let l = docs[i].spec_metadata().links@[k - 1];
        let s = link_issues(docs, i, l, opts);
        assert(options_followed(s, opts));
        lemma_options_followed_concat(links_issues(docs, i, k - 1, opts), s, opts);
    }
}

proof fn lemma_groups_follow(docs: Seq<Document>, n: int, opts: ValidationOptions)
    requires
        0 <= n <= docs.len(),
    ensures
        options_followed(naming_issues(docs, n), opts),
        options_followed(reference_issues(docs, n, opts), opts),
        opts.warn_on_orphans ==> options_followed(orphan_issues(docs, n), opts),
    decreases n,
{
    if n > 0 {
        lemma_groups_follow(docs, n - 1, opts);
        let t = title_issues(docs[n - 1]);
        let a = aliases_issues(docs, n - 1, docs[n - 1].spec_metadata().aliases@.len() as int);
        lemma_aliases_about(docs, n - 1, docs[n - 1].spec_metadata().aliases@.len() as int);
        assert(naming_codes().contains("OKF101"@));
        lemma_all_about_concat(t, a, naming_codes(), docs[n - 1].spec_id());
        lemma_naming_follow(t + a, docs[n - 1].spec_id(), opts);
        lemma_options_followed_concat(naming_issues(docs, n - 1), t + a, opts);
        assert(naming_issues(docs, n) == naming_issues(docs, n - 1) + (t + a));
        lemma_links_follow(docs, n - 1, docs[n - 1].spec_metadata().links@.len() as int, opts);
        lemma_options_followed_concat(
            reference_issues(docs, n - 1, opts),
            links_issues(docs, n - 1, docs[n - 1].spec_metadata().links@.len() as int, opts),
            opts,
        );
        if opts.warn_on_orphans {
            lemma_code_literals();
            let o = orphan_issue(docs, n - 1);
            assert(options_followed(o, opts));
            lemma_options_followed_concat(orphan_issues(docs, n - 1), o, opts);
            assert(orphan_issues(docs, n) == orphan_issues(docs, n - 1) + o);
        }
    }
}

/// Validation follows its options: self-reference warnings appear only when enabled, an
/// unresolved reference is an error exactly when unresolved references are errors (and a
/// warning otherwise), and orphan warnings appear only when enabled.
pub proof fn lemma_options_followed(docs: Seq<Document>, opts: ValidationOptions)
    ensures
        options_followed(expected_issues(docs, opts), opts),
{
    lemma_code_literals();
    if docs.len() > 0 {
        let n = docs.len() as int;
        lemma_groups_follow(docs, n, opts);
        lemma_options_followed_concat(naming_issues(docs, n), reference_issues(docs, n, opts), opts);
        let c: Seq<IssueView> = if opts.warn_on_orphans { orphan_issues(docs, n) } else { seq![] };
        assert(options_followed(c, opts));
        lemma_options_followed_concat(naming_issues(docs, n) + reference_issues(docs, n, opts), c, opts);
    } else {
        reveal_strlit("OKF001");
        reveal_strlit("OKF202");
        reveal_strlit("OKF203");
        reveal_strlit("OKF301");
        assert("OKF001"@[3] != "OKF202"@[3]);
        assert("OKF001"@[3] != "OKF301"@[3]);
    }
}

/// Ordered validation results.
#[derive(Debug)]
pub struct ValidationReport {
    issues: Vec<ValidationIssue>,
}

impl ValidationReport {
    /// The issues in validation order.
    pub closed spec fn spec_issues(&self) -> Seq<ValidationIssue> {
        self.issues@
    }

    /// An empty report.
    pub fn new() -> (r: ValidationReport)
        ensures
            r.spec_issues().len() == 0,
    {
        ValidationReport { issues: Vec::new() }
    }

    /// Returns all diagnostics in deterministic validation order.
    pub fn issues(&self) -> (r: &[ValidationIssue])
        ensures
            r@ == self.spec_issues(),
    {
        self.issues.as_slice()
    }

    fn with_severity(&self, severity: Severity) -> (r: Vec<ValidationIssue>)
        ensures
            issue_views(r@) == issue_views(self.spec_issues()).filter(|v: IssueView| v.0 == severity),
    {
        let ghost all = issue_views(self.issues@);
        let mut out: Vec<ValidationIssue> = Vec::new();
        let mut i: usize = 0;
        while i < self.issues.len()
            invariant
                i <= self.issues@.len(),
                all == issue_views(self.issues@),
                issue_views(out@) == all.take(i as int).filter(|v: IssueView| v.0 == severity),
            decreases self.issues@.len() - i,
        {
            proof {
                reveal_with_fuel(Seq::<IssueView>::filter, 1);
                assert(all.take(i + 1).drop_last() =~= all.take(i as int));
                assert(all.take(i + 1).last() == issue_view(self.issues@[i as int]));
            }
            if self.issues[i].severity == severity {
                let ghost before = out@;
                out.push(self.issues[i].copy());
                proof {
                    assert(issue_views(out@) =~= issue_views(before).push(issue_view(self.issues@[i as int])));
                }
            }
            i = i + 1;
        }
        assert(all.take(self.issues@.len() as int) =~= all);
        out
    }

    /// Error diagnostics in validation order.
    pub fn errors(&self) -> (r: Vec<ValidationIssue>)
        ensures
            issue_views(r@) == issue_views(self.spec_issues()).filter(|v: IssueView| v.0 == Severity::Error),
    {
        self.with_severity(Severity::Error)
    }

    /// Warning diagnostics in validation order.
    pub fn warnings(&self) -> (r: Vec<ValidationIssue>)
        ensures
            issue_views(r@) == issue_views(self.spec_issues()).filter(
                |v: IssueView| v.0 == Severity::Warning,
            ),
    {
        self.with_severity(Severity::Warning)
    }

    /// Returns whether no error diagnostics were produced.
    pub fn is_valid(&self) -> (r: bool)
        ensures
            r == forall|k: int| 0 <= k < self.spec_issues().len() ==> (#[trigger] self.spec_issues()[k]).severity
                != Severity::Error,
    {
        let mut i: usize = 0;
        while i < self.issues.len()
            invariant
                i <= self.issues@.len(),
                forall|k: int| 0 <= k < i ==> (#[trigger] self.issues@[k]).severity != Severity::Error,
            decreases self.issues@.len() - i,
        {
            if self.issues[i].severity == Severity::Error {
                return false;
            }
            i = i + 1;
        }
        true
    }

    fn push(&mut self, issue: ValidationIssue)
        ensures
            final(self).spec_issues() == old(self).spec_issues().push(issue),
    {
        self.issues.push(issue);
    }
}

impl Default for ValidationReport {
    fn default() -> (r: ValidationReport)
        ensures
            r.spec_issues().len() == 0,
    {
        ValidationReport::new()
    }
}

/// Validates bundle structure and references.
#[derive(Debug)]
pub struct Validator {
    options: ValidationOptions,
}

impl Validator {
    /// The active options.
    pub closed spec fn spec_options(&self) -> ValidationOptions {
        self.options
    }

    /// Creates a validator with explicit options.
    pub fn new(options: ValidationOptions) -> (r: Validator)
        ensures
            r.spec_options() == options,
    {
        Validator { options }
    }

    /// Returns the active validation options.
    pub fn options(&self) -> (r: &ValidationOptions)
        ensures
            *r == self.spec_options(),
    {
        &self.options
    }
}

/// Whether a text is empty after trimming.
fn blank(s: &str) -> (r: bool)
    ensures
        r == (trim(s@).len() == 0),
{
    let chars = chars_of(s);
    trim_chars(&chars).len() == 0
}

/// Position of the last document before `i` declaring alias `a`.
fn find_last_declarer(docs: &Vec<Document>, i: usize, a: &str) -> (r: Option<usize>)
    requires
        i <= docs@.len(),
    ensures
        match r {
            Some(j) => j < i && last_declarer(docs@, i as int, a@) == Some(docs@[j as int].spec_id()),
            None => last_declarer(docs@, i as int, a@) is None,
        },
{
    let mut j: usize = i;
    while j > 0
        invariant
            j <= i <= docs@.len(),
            last_declarer(docs@, i as int, a@) == last_declarer(docs@, j as int, a@),
        decreases j,
    {
        if docs[j - 1].metadata().aliases.contains(a) {
            return Some(j - 1);
        }
        j = j - 1;
    }
    None
}

/// Appends the issues about alias `a` of document `i`.
fn check_alias(bundle: &Bundle, i: usize, a: &str, report: &mut ValidationReport)
    requires
        i < bundle.docs().len(),
    ensures
        issue_views(final(report).spec_issues()) == issue_views(old(report).spec_issues()) + alias_issues(
            bundle.docs(),
            i as int,
            a@,
        ),
{
    let docs = bundle.documents();
    let id = docs[i].id();
    let ghost base = issue_views(report.spec_issues());
    match DocumentId::new(a) {
        Err(e) => {
            let reason = e.reason();
            let message = concat4("invalid alias '", a, "': ", reason.as_str());
            report.push(ValidationIssue::new(Severity::Error, "OKF102", message, id));
            proof {
                assert(issue_views(report.spec_issues()) =~= base + alias_issues(docs@, i as int, a@));
            }
        },
        Ok(_) => {
            let ghost mid = base + if has_id(docs@, a@) && a@ != id@ {
                seq![
                    doc_issue(
                        Severity::Error,
                        "OKF103"@,
                        "alias '"@ + a@ + "' conflicts with a canonical document id"@,
                        id@,
                    ),
                ]
            } else {
                seq![]
            };
            match bundle.get_by_id(a) {
                Some(canonical) => {
                    if !text_eq(canonical.id().as_str(), id.as_str()) {
                        let message = concat3("alias '", a, "' conflicts with a canonical document id");
                        report.push(ValidationIssue::new(Severity::Error, "OKF103", message, id));
                        proof {
                            assert(issue_views(report.spec_issues()) =~= mid);
                        }
                    } else {
                        proof {
                            assert(issue_views(report.spec_issues()) =~= mid);
                        }
                    }
                },
                None => {
                    proof {
                        assert(issue_views(report.spec_issues()) =~= mid);
                    }
                },
            }
            match find_last_declarer(docs, i, a) {
                Some(j) => {
                    let previous = docs[j].id();
                    if !text_eq(previous.as_str(), id.as_str()) {
                        let message = concat5("alias '", a, "' is also declared by '", previous.as_str(), "'");
                        report.push(ValidationIssue::new(Severity::Error, "OKF104", message, id));
                        proof {
                            assert(issue_views(report.spec_issues()) =~= base + alias_issues(docs@, i as int, a@));
                        }
                    } else {
                        proof {
                            assert(issue_views(report.spec_issues()) =~= base + alias_issues(docs@, i as int, a@));
                        }
                    }
                },
                None => {
                    proof {
                        assert(issue_views(report.spec_issues()) =~= base + alias_issues(docs@, i as int, a@));
                    }
                },
            }
        },
    }
}

/// Appends the title and alias issues of document `i`.
fn check_naming(bundle: &Bundle, i: usize, report: &mut ValidationReport)
    requires
        i < bundle.docs().len(),
    ensures
        issue_views(final(report).spec_issues()) == issue_views(old(report).spec_issues()) + title_issues(
            bundle.docs()[i as int],
        ) + aliases_issues(
            bundle.docs(),
            i as int,
            bundle.docs()[i as int].spec_metadata().aliases@.len() as int,
        ),
{
    let docs = bundle.documents();
    let document = &docs[i];
    let ghost base = issue_views(report.spec_issues());
    if blank(document.title()) {
        report.push(
            ValidationIssue::new(Severity::Error, "OKF101", owned("document title is empty"), document.id()),
        );
    }
    let ghost with_title = base + title_issues(docs@[i as int]);
    assert(issue_views(report.spec_issues()) =~= with_title);
    let aliases = &document.metadata().aliases;
    let n = aliases.len();
    let mut k: usize = 0;
    while k < n
        invariant
            docs@ == bundle.docs(),
            i < docs@.len(),
            aliases@ == docs@[i as int].spec_metadata().aliases@,
            n == aliases@.len(),
            k <= n,
            issue_views(report.spec_issues()) == with_title + aliases_issues(docs@, i as int, k as int),
        decreases n - k,
    {
        let ghost before = issue_views(report.spec_issues());
        check_alias(bundle, i, aliases.get(k).as_str(), report);
        proof {
            assert(issue_views(report.spec_issues()) =~= with_title + aliases_issues(docs@, i as int, k + 1));
        }
        k = k + 1;
    }
}

/// Appends the issues about link `k` of document `i`.
fn check_link(bundle: &Bundle, i: usize, k: usize, opts: &ValidationOptions, report: &mut ValidationReport)
    requires
        i < bundle.docs().len(),
        k < bundle.docs()[i as int].spec_metadata().links@.len(),
    ensures
        issue_views(final(report).spec_issues()) == issue_views(old(report).spec_issues()) + link_issues(
            bundle.docs(),
            i as int,
            bundle.docs()[i as int].spec_metadata().links@[k as int],
            *opts,
        ),
{
    let docs = bundle.documents();
    let document = &docs[i];
    let id = document.id();
    let link = &document.metadata().links[k];
    let target = link.target().as_str();
    let relation = link.relation();
    let ghost base = issue_views(report.spec_issues());
    if blank(relation) {
        let message = concat3("reference to '", target, "' has an empty relation");
        report.push(ValidationIssue::new(Severity::Error, "OKF201", message, id));
    }
    let ghost mid = base + if trim(relation@).len() == 0 {
        seq![
            doc_issue(
                Severity::Error,
                "OKF201"@,
                "reference to '"@ + target@ + "' has an empty relation"@,
                id@,
            ),
        ]
    } else {
        seq![]
    };
    assert(issue_views(report.spec_issues()) =~= mid);
    match bundle.resolve_position(target) {
        Some(j) => {
            if opts.warn_on_self_references && text_eq(docs[j].id().as_str(), id.as_str()) {
                let message = concat3("document references itself through '", relation, "'");
                report.push(ValidationIssue::new(Severity::Warning, "OKF202", message, id));
            }
        },
        None => {
            let severity = if opts.unresolved_references_are_errors {
                Severity::Error
            } else {
                Severity::Warning
            };
            let message = concat3("unresolved reference to '", target, "'");
            report.push(ValidationIssue::new(severity, "OKF203", message, id));
        },
    }
    proof {
        assert(issue_views(report.spec_issues()) =~= base + link_issues(docs@, i as int, docs@[i as int].spec_metadata().links@[k as int], *opts));
    }
}

/// Appends the orphan issues of a bundle with at least one document.
fn check_orphans(bundle: &Bundle, report: &mut ValidationReport)
    ensures
        issue_views(final(report).spec_issues()) == issue_views(old(report).spec_issues()) + orphan_issues(
            bundle.docs(),
            bundle.docs().len() as int,
        ),
{
    let docs = bundle.documents();
    let graph = KnowledgeGraph::from_bundle(bundle);
    let ghost base = issue_views(report.spec_issues());
    let ghost ds = docs@;
    let mut i: usize = 0;
    while i < docs.len()
        invariant
            ds == docs@,
            ds == bundle.docs(),
            docs_sorted(ds),
            graph.spec_nodes() == crate::model::bundle::doc_ids(ds),
            forall|a: int, b: int| #[trigger] graph.has_edge(a, b) <==> links_to(ds, a, b),
            i <= ds.len(),
            issue_views(report.spec_issues()) == base + orphan_issues(ds, i as int),
        decreases ds.len() - i,
    {
        let id = docs[i].id();
        let incoming = graph.incoming(id);
        let outgoing = graph.outgoing(id);
        let orphan = incoming.len() == 0 && outgoing.len() == 0;
        proof {
            let nv = graph.spec_nodes();
            assert(nv[i as int] == id@);
            if incoming@.len() == 0 {
                assert forall|j: int| !#[trigger] links_to(ds, j, i as int) by {
                    if links_to(ds, j, i as int) {
                        assert(graph.has_edge(j, i as int));
                        assert(crate::graph::id_views(incoming@).contains(nv[j]));
                    }
                }
            } else {
                let x = crate::graph::id_views(incoming@)[0];
                assert(crate::graph::id_views(incoming@).contains(x));
                let (a, b) = choose|a: int, b: int|
                    0 <= a < nv.len() && 0 <= b < nv.len() && nv[b] == id@ && #[trigger] graph.has_edge(a, b)
                        && nv[a] == x;
                lemma_sorted_unique(ds, b, i as int);
                assert(links_to(ds, a, i as int));
            }
            if outgoing@.len() == 0 {
                assert forall|j: int| !#[trigger] links_to(ds, i as int, j) by {
                    if links_to(ds, i as int, j) {
                        let k = choose|k: int|
                            0 <= k < crate::graph::doc_links(ds, i as int).len()
                                && #[trigger] crate::graph::link_resolves(ds, i as int, k, j);
                        crate::model::bundle::lemma_resolve_index_bounds(
                            ds,
                            crate::graph::doc_links(ds, i as int)[k].spec_target(),
                        );
                        assert(graph.has_edge(i as int, j));
                        assert(crate::graph::id_views(outgoing@).contains(nv[j]));
                    }
                }
            } else {
                let x = crate::graph::id_views(outgoing@)[0];
                assert(crate::graph::id_views(outgoing@).contains(x));
                let (a, b) = choose|a: int, b: int|
                    0 <= a < nv.len() && 0 <= b < nv.len() && nv[a] == id@ && #[trigger] graph.has_edge(a, b)
                        && nv[b] == x;
                lemma_sorted_unique(ds, a, i as int);
                assert(links_to(ds, i as int, b));
            }
            assert(orphan == is_orphan(ds, i as int));
        }
        let ghost before = issue_views(report.spec_issues());
        if orphan {
            let issue = ValidationIssue::new(
                Severity::Warning,
                "OKF301",
                owned("document is disconnected from the resolved knowledge graph"),
                id,
            );
            report.push(issue);
            proof {
                assert(issue_views(report.spec_issues()) =~= before.push(issue_view(issue)));
            }
        }
        proof {
            assert(id@ == ds[i as int].spec_id());
            assert(orphan_issues(ds, i + 1) == orphan_issues(ds, i as int) + if is_orphan(ds, i as int) {
                seq![
                    doc_issue(
                        Severity::Warning,
                        "OKF301"@,
                        "document is disconnected from the resolved knowledge graph"@,
                        ds[i as int].spec_id(),
                    ),
                ]
            } else {
                seq![]
            });
            assert(issue_views(report.spec_issues()) =~= base + orphan_issues(ds, i + 1));
        }
        i = i + 1;
    }
}

impl Validator {
    /// Validates a bundle without mutating it.
    pub fn validate(&self, bundle: &Bundle) -> (r: ValidationReport)
        ensures
            issue_views(r.spec_issues()) == expected_issues(bundle.docs(), self.spec_options()),
    {
        let mut report = ValidationReport::new();
        if bundle.is_empty() {
            report.push(
                ValidationIssue {
                    severity: Severity::Warning,
                    code: owned("OKF001"),
                    message: owned("bundle contains no Markdown documents"),
                    document: None,
                },
            );
            proof {
                assert(issue_views(report.spec_issues()) =~= expected_issues(bundle.docs(), self.spec_options()));
            }
            return report;
        }
        let docs = bundle.documents();
        let ghost ds = docs@;
        assert(issue_views(report.spec_issues()) =~= naming_issues(ds, 0));
        let mut i: usize = 0;
        while i < docs.len()
            invariant
                ds == docs@,
                ds == bundle.docs(),
                i <= ds.len(),
                issue_views(report.spec_issues()) == naming_issues(ds, i as int),
            decreases ds.len() - i,
        {
            check_naming(bundle, i, &mut report);
            i = i + 1;
        }
        let ghost named = issue_views(report.spec_issues());
        let opts = self.options;
        assert(named + reference_issues(ds, 0, opts) =~= named);
        let mut i: usize = 0;
        while i < docs.len()
            invariant
                ds == docs@,
                ds == bundle.docs(),
                opts == self.spec_options(),
                i <= ds.len(),
                issue_views(report.spec_issues()) == named + reference_issues(ds, i as int, opts),
            decreases ds.len() - i,
        {
            let n = docs[i].metadata().links.len();
            let ghost start = issue_views(report.spec_issues());
            assert(start + links_issues(ds, i as int, 0, opts) =~= start);
            let mut k: usize = 0;
            while k < n
                invariant
                    ds == docs@,
                    ds == bundle.docs(),
                    i < ds.len(),
                    n == ds[i as int].spec_metadata().links@.len(),
                    k <= n,
                    issue_views(report.spec_issues()) == start + links_issues(ds, i as int, k as int, opts),
                decreases n - k,
            {
                check_link(bundle, i, k, &opts, &mut report);
                proof {
                    assert(issue_views(report.spec_issues()) =~= start + links_issues(ds, i as int, k + 1, opts));
                }
                k = k + 1;
            }
            proof {
                assert(issue_views(report.spec_issues()) =~= named + reference_issues(ds, i + 1, opts));
            }
            i = i + 1;
        }
        if opts.warn_on_orphans {
            check_orphans(bundle, &mut report);
        }
        proof {
            assert(issue_views(report.spec_issues()) =~= expected_issues(ds, opts));
        }
        report
    }
}

impl Default for Validator {
    fn default() -> (r: Validator)
        ensures
            r.spec_options().unresolved_references_are_errors,
            r.spec_options().warn_on_self_references,
            r.spec_options().warn_on_orphans,
    {
        Validator { options: ValidationOptions::default() }
    }
}

} // verus!
