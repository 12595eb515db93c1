//! The checks of vector semantic retrieval that do not depend on the vectors' values, and the
//! closure-backed embedding adapter. Embedding values and cosine ranking are floating point and
//! stay with the host.

use vstd::prelude::*;

use crate::entries::pair_views;
use crate::library::{KnowledgeUri, LibraryError, LibraryId, LibraryQueryHit, LibraryQueryResult, LibraryResult, QueryStrategy};
use crate::text::{
    compare_text, concat3, decimal_digits, decimal_text, lemma_text_lt_asymmetric,
    lemma_text_lt_irreflexive, lemma_text_lt_total, lemma_text_lt_transitive, owned, text_lt, Order,
};

verus! {

/// Adapts a thread-safe closure into an embedding provider.
pub struct FnEmbeddingProvider<F> {
    id: String,
    embed: F,
}

impl<F> FnEmbeddingProvider<F> {
    /// Embedding-provider identity.
    pub closed spec fn spec_id(&self) -> Seq<char> {
        self.id@
    }

    /// The closure that embeds text.
    pub closed spec fn spec_embed(&self) -> F {
        self.embed
    }

    /// Creates a closure-backed embedding adapter.
    pub fn new(id: &str, embed: F) -> (r: FnEmbeddingProvider<F>)
        ensures
            r.spec_id() == id@,
            r.spec_embed() == embed,
    {
        FnEmbeddingProvider { id: owned(id), embed }
    }

    /// Embedding-provider identity.
    pub fn id(&self) -> (r: &str)
        ensures
            r@ == self.spec_id(),
    {
        self.id.as_str()
    }

    /// The closure that embeds text.
    pub fn embedder(&self) -> (r: &F)
        ensures
            *r == self.spec_embed(),
    {
        &self.embed
    }
}

/// Whether all dimensions equal the first.
pub open spec fn uniform(dims: Seq<usize>) -> bool {
    forall|i: int| 0 <= i < dims.len() ==> #[trigger] dims[i] == dims[0]
}

/// Validates a vector index from the dimension of each entry's vector and whether all values
/// are finite: vectors must not be empty, must share one dimension, and must be finite, checked
/// in that order.
pub fn check_semantic_index(dims: &Vec<usize>, all_finite: bool) -> (r: LibraryResult<()>)
    ensures
        dims@.len() > 0 && dims@[0] == 0 ==> (r matches Err(LibraryError::Provider(m)) && m@
            == "semantic index vectors must not be empty"@),
        dims@.len() > 0 && dims@[0] != 0 && !uniform(dims@) ==> (r matches Err(
            LibraryError::Provider(m),
        ) && m@ == "semantic index contains inconsistent vector dimensions"@),
        (dims@.len() == 0 || (dims@[0] != 0 && uniform(dims@))) && !all_finite ==> (r matches Err(
            LibraryError::Provider(m),
        ) && m@ == "semantic index contains non-finite vector values"@),
        (dims@.len() == 0 || (dims@[0] != 0 && uniform(dims@))) && all_finite ==> r is Ok,
{
    if dims.len() > 0 {
        if dims[0] == 0 {
            return Err(LibraryError::Provider(owned("semantic index vectors must not be empty")));
        }
        let mut i: usize = 0;
        while i < dims.len()
            invariant
                i <= dims@.len(),
                dims@.len() > 0,
                dims@[0] != 0,
                forall|j: int| 0 <= j < i ==> #[trigger] dims@[j] == dims@[0],
            decreases dims@.len() - i,
        {
            if dims[i] != dims[0] {
                return Err(LibraryError::Provider(owned("semantic index contains inconsistent vector dimensions")));
            }
            i = i + 1;
        }
    }
    if !all_finite {
        return Err(LibraryError::Provider(owned("semantic index contains non-finite vector values")));
    }
    Ok(())
}

/// Whether some indexed entry belongs to a Library other than `library`.
pub open spec fn index_outside(entry_libraries: Seq<LibraryId>, library: Seq<char>) -> bool {
    exists|i: int| 0 <= i < entry_libraries.len() && (#[trigger] entry_libraries[i])@ != library
}

/// Checks that every indexed entry belongs to the queried Library.
pub fn check_index_library(index_id: &str, library: &LibraryId, entry_libraries: &Vec<LibraryId>) -> (r: LibraryResult<()>)
    ensures
        !index_outside(entry_libraries@, library@) ==> r is Ok,
        index_outside(entry_libraries@, library@) ==> (r matches Err(LibraryError::Provider(m)) && m@
            == "semantic index '"@ + index_id@ + "' contains entries for another Library"@),
{
    let mut i: usize = 0;
    while i < entry_libraries.len()
        invariant
            i <= entry_libraries@.len(),
            forall|j: int| 0 <= j < i ==> (#[trigger] entry_libraries@[j])@ == library@,
        decreases entry_libraries@.len() - i,
    {
        if !entry_libraries[i].same(library) {
            return Err(LibraryError::Provider(concat3("semantic index '", index_id, "' contains entries for another Library")));
        }
        i = i + 1;
    }
    Ok(())
}

/// Checks a query embedding against the index: `dimension` must equal `expected` and all values
/// must be finite, checked in that order. The dimension diagnostic names both numbers in
/// decimal.
pub fn check_query_vector(dimension: usize, expected: usize, all_finite: bool) -> (r: LibraryResult<()>)
    ensures
        dimension != expected ==> (r matches Err(LibraryError::Provider(m)) && m@
            == "embedding provider returned dimension "@ + decimal_digits(dimension as nat)
            + ", expected "@ + decimal_digits(expected as nat)),
        dimension == expected && !all_finite ==> (r matches Err(LibraryError::Provider(m)) && m@
            == "embedding provider returned non-finite values"@),
        dimension == expected && all_finite ==> r is Ok,
{
    if dimension != expected {
        let a = decimal_text(dimension);
        let b = decimal_text(expected);
        let mut m = concat3("embedding provider returned dimension ", a.as_str(), ", expected ");
        crate::text::push_all(&mut m, b.as_str());
        return Err(LibraryError::Provider(m));
    }
    if !all_finite {
        return Err(LibraryError::Provider(owned("embedding provider returned non-finite values")));
    }
    Ok(())
}

/// The order of knowledge URIs: by Library identifier, then by path.
pub open spec fn uri_before(a: KnowledgeUri, b: KnowledgeUri) -> bool {
    text_lt(a.spec_library(), b.spec_library()) || (a.spec_library() == b.spec_library() && text_lt(
        a.spec_path(),
        b.spec_path(),
    ))
}

/// Whether two knowledge URIs are the same address.
pub open spec fn same_uri(a: KnowledgeUri, b: KnowledgeUri) -> bool {
    a.spec_library() == b.spec_library() && a.spec_path() == b.spec_path()
}

/// Whether scored entry `i` ranks before entry `j`: a higher score key first, then the smaller
/// URI, then the earlier entry.
pub open spec fn ranked_before(scored: Seq<(u64, KnowledgeUri)>, i: int, j: int) -> bool {
    scored[i].0 > scored[j].0 || (scored[i].0 == scored[j].0 && (uri_before(scored[i].1, scored[j].1)
        || (same_uri(scored[i].1, scored[j].1) && i < j)))
}

/// `order` lists positions of `scored` in rank order.
pub open spec fn in_rank_order(scored: Seq<(u64, KnowledgeUri)>, order: Seq<usize>) -> bool {
    &&& forall|k: int| 0 <= k < order.len() ==> #[trigger] order[k] < scored.len()
    &&& forall|a: int, b: int|
        #![trigger order[a], order[b]]
        0 <= a < b < order.len() ==> ranked_before(scored, order[a] as int, order[b] as int)
}

proof fn lemma_ranked_total(scored: Seq<(u64, KnowledgeUri)>, i: int, j: int)
    requires
        i != j,
    ensures
        ranked_before(scored, i, j) || ranked_before(scored, j, i),
{
    lemma_text_lt_total(scored[i].1.spec_library(), scored[j].1.spec_library());
    lemma_text_lt_total(scored[i].1.spec_path(), scored[j].1.spec_path());
}

proof fn lemma_ranked_transitive(scored: Seq<(u64, KnowledgeUri)>, i: int, j: int, k: int)
    requires
        ranked_before(scored, i, j),
        ranked_before(scored, j, k),
    ensures
        ranked_before(scored, i, k),
{
    let (a, b, c) = (scored[i].1, scored[j].1, scored[k].1);
    if scored[i].0 == scored[j].0 && scored[j].0 == scored[k].0 {
        if text_lt(a.spec_library(), b.spec_library()) && text_lt(b.spec_library(), c.spec_library()) {
            lemma_text_lt_transitive(a.spec_library(), b.spec_library(), c.spec_library());
        }
        if a.spec_library() == b.spec_library() && b.spec_library() == c.spec_library() && text_lt(
            a.spec_path(),
            b.spec_path(),
        ) && text_lt(b.spec_path(), c.spec_path()) {
            lemma_text_lt_transitive(a.spec_path(), b.spec_path(), c.spec_path());
        }
    }
}

/// Whether entry `a`'s URI sorts before entry `b`'s.
fn uri_first(a: &KnowledgeUri, b: &KnowledgeUri) -> (r: bool)
    ensures
        r == uri_before(*a, *b),
{
    proof {
        lemma_text_lt_asymmetric(a.spec_library(), b.spec_library());
    }
    match compare_text(a.library().as_str(), b.library().as_str()) {
        Order::Less => true,
        Order::Greater => false,
        Order::Equal => match compare_text(a.path(), b.path()) {
            Order::Less => true,
            _ => false,
        },
    }
}

/// Whether entry `i` ranks before entry `j`.
fn ranks_first(scored: &Vec<(u64, KnowledgeUri)>, i: usize, j: usize) -> (r: bool)
    requires
        i < scored@.len(),
        j < scored@.len(),
    ensures
        r == ranked_before(scored@, i as int, j as int),
{
    let (ki, ui) = (scored[i].0, &scored[i].1);
    let (kj, uj) = (scored[j].0, &scored[j].1);
    if ki != kj {
        return ki > kj;
    }
    if uri_first(ui, uj) {
        return true;
    }
    let same = crate::text::text_eq(ui.library().as_str(), uj.library().as_str()) && crate::text::text_eq(
        ui.path(),
        uj.path(),
    );
    same && i < j
}

/// The positions of the best `limit` scored entries, best first. Entries rank by score key
/// (higher first), then by URI, then by position; the host derives each key from an entry's
/// similarity so that keys order as the similarities do.
pub fn semantic_order(scored: &Vec<(u64, KnowledgeUri)>, limit: usize) -> (r: Vec<usize>)
    ensures
        exists|order: Seq<usize>|
            order.len() == scored@.len() && #[trigger] in_rank_order(scored@, order) && r@ == order.take(
                if limit < scored@.len() {
                    limit as int
                } else {
                    scored@.len() as int
                },
            ),
{
    let mut order: Vec<usize> = Vec::new();
    let mut i: usize = 0;
    while i < scored.len()
        invariant
            i <= scored@.len(),
            order@.len() == i,
            in_rank_order(scored@, order@),
            forall|k: int| 0 <= k < order@.len() ==> #[trigger] order@[k] < i,
        decreases scored@.len() - i,
    {
        let mut p: usize = 0;
        while p < order.len() && ranks_first(scored, order[p], i)
            invariant
                p <= order@.len(),
                i < scored@.len(),
                in_rank_order(scored@, order@),
                forall|k: int| 0 <= k < order@.len() ==> #[trigger] order@[k] < i,
                forall|q: int| 0 <= q < p ==> ranked_before(scored@, #[trigger] order@[q] as int, i as int),
            decreases order@.len() - p,
        {
            p = p + 1;
        }
        let ghost old_order = order@;
        proof {
            assert forall|q: int| p <= q < old_order.len() implies ranked_before(
                scored@,
                i as int,
                #[trigger] old_order[q] as int,
            ) by {
                let at = old_order[p as int] as int;
                assert(at < i);
                lemma_ranked_total(scored@, at, i as int);
                if q > p {
                    assert(ranked_before(scored@, at, old_order[q] as int));
                    lemma_ranked_transitive(scored@, i as int, at, old_order[q] as int);
                }
            }
        }
        order.insert(p, i);
        proof {
            let no = order@;
            assert(no == old_order.insert(p as int, i));
            assert forall|a: int, b: int|
                #![trigger no[a], no[b]]
                0 <= a < b < no.len() implies ranked_before(scored@, no[a] as int, no[b] as int) by {
                if b < p {
                    assert(no[a] == old_order[a] && no[b] == old_order[b]);
                } else if a < p && b == p {
                    assert(no[a] == old_order[a]);
                } else if a < p && b > p {
                    assert(no[a] == old_order[a] && no[b] == old_order[b - 1]);
                    assert(ranked_before(scored@, old_order[a] as int, i as int));
                    assert(ranked_before(scored@, i as int, old_order[b - 1] as int));
                    lemma_ranked_transitive(scored@, old_order[a] as int, i as int, old_order[b - 1] as int);
                } else if a == p {
                    assert(no[b] == old_order[b - 1]);
                } else {
                    assert(no[a] == old_order[a - 1] && no[b] == old_order[b - 1]);
                }
            }
            assert forall|k: int| 0 <= k < no.len() implies #[trigger] no[k] < i + 1 by {
                if k < p {
                    assert(no[k] == old_order[k]);
                } else if k > p {
                    assert(no[k] == old_order[k - 1]);
                }
            }
            assert forall|k: int| 0 <= k < no.len() implies #[trigger] no[k] < scored@.len() by {
                assert(no[k] < i + 1);
            }
        }
        i = i + 1;
    }
    let m: usize = if limit < scored.len() {
        limit
    } else {
        scored.len()
    };
    let mut out: Vec<usize> = Vec::new();
    let mut k: usize = 0;
    while k < m
        invariant
            k <= m,
            m <= order@.len(),
            out@ == order@.take(k as int),
        decreases m - k,
    {
        out.push(order[k]);
        assert(order@.take(k + 1) =~= order@.take(k as int).push(order@[k as int]));
        k = k + 1;
    }
    assert(in_rank_order(scored@, order@));
    out
}

/// Whether a semantic query is answered without embedding anything: it asks for no hits, or
/// the index is empty.
pub fn semantic_query_skipped(limit: usize, entry_count: usize) -> (r: bool)
    ensures
        r == (limit == 0 || entry_count == 0),
{
    limit == 0 || entry_count == 0
}

/// The semantic query result carrying `hits`: attributed to `provider_id`, with the embedding
/// provider in its provenance, and the similarity measure too when the index was ranked.
pub fn semantic_result(provider_id: &str, embedder_id: &str, hits: Vec<LibraryQueryHit>, ranked: bool) -> (r:
    LibraryQueryResult)
    ensures
        r.answer is None,
        r.hits@ == hits@,
        r.provider@ == provider_id@,
        r.strategy == QueryStrategy::Semantic,
        pair_views(r.provenance@) == if ranked {
            seq![("embedding_provider"@, embedder_id@), ("similarity"@, "cosine"@)]
        } else {
            seq![("embedding_provider"@, embedder_id@)]
        },
{
    let mut provenance: Vec<(String, String)> = Vec::new();
    provenance.push((owned("embedding_provider"), owned(embedder_id)));
    if ranked {
        provenance.push((owned("similarity"), owned("cosine")));
    }
    proof {
        if ranked {
            assert(pair_views(provenance@) =~= seq![("embedding_provider"@, embedder_id@), ("similarity"@, "cosine"@)]);
        } else {
            assert(pair_views(provenance@) =~= seq![("embedding_provider"@, embedder_id@)]);
        }
    }
    LibraryQueryResult { answer: None, hits, provider: owned(provider_id), strategy: QueryStrategy::Semantic, provenance }
}

} // verus!
