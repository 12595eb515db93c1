//! Directed graph views over document references.
//!
//! Nodes are the bundle's documents in identifier order and are addressed in contracts by
//! their position in that order. An edge joins a document to each document that one of its
//! links resolves to (by identifier first, then by alias); it carries the set of relation names
//! of those links.

use vstd::prelude::*;

use crate::model::bundle::{doc_ids, resolve_index};
use crate::model::{Bundle, Document, DocumentId, Reference, TextSet};
use crate::text::{owned, strictly_sorted, text_eq, text_lt, views};

verus! {

/// Identifier texts of a sequence of identifiers.
pub open spec fn id_views(ids: Seq<DocumentId>) -> Seq<Seq<char>> {
    ids.map_values(|d: DocumentId| d@)
}

/// Links of document `i`.
pub open spec fn doc_links(docs: Seq<Document>, i: int) -> Seq<Reference> {
    docs[i].spec_metadata().links@
}

/// Whether link `k` of document `i` resolves to document `j`.
pub open spec fn link_resolves(docs: Seq<Document>, i: int, k: int, j: int) -> bool {
    0 <= k < doc_links(docs, i).len() && resolve_index(docs, doc_links(docs, i)[k].spec_target())
        == Some(j)
}

/// Whether one of the first `n` links of document `i` resolves to document `j`.
pub open spec fn links_to_upto(docs: Seq<Document>, i: int, j: int, n: int) -> bool {
    exists|k: int| 0 <= k < n && #[trigger] link_resolves(docs, i, k, j)
}

/// Whether some link of document `i` resolves to document `j`.
pub open spec fn links_to(docs: Seq<Document>, i: int, j: int) -> bool {
    0 <= i < docs.len() && links_to_upto(docs, i, j, doc_links(docs, i).len() as int)
}

/// Relation names of the first `n` links of document `i` that resolve to document `j`.
pub open spec fn relations_upto(docs: Seq<Document>, i: int, j: int, n: int) -> Set<Seq<char>> {
    Set::new(
        |r: Seq<char>|
            exists|k: int|
                0 <= k < n && #[trigger] link_resolves(docs, i, k, j) && doc_links(docs, i)[k].spec_relation()
                    == r,
    )
}

/// Relation names of the links of document `i` that resolve to document `j`.
pub open spec fn link_relations(docs: Seq<Document>, i: int, j: int) -> Set<Seq<char>> {
    relations_upto(docs, i, j, doc_links(docs, i).len() as int)
}

/// One directed source-target pair, by node position, with its relation names.
#[derive(Debug)]
struct Edge {
    source: usize,
    target: usize,
    relations: TextSet,
}

/// Whether edges are strictly ordered by source, then target.
spec fn edges_sorted(es: Seq<Edge>) -> bool {
    forall|p: int, q: int|
        #![trigger es[p], es[q]]
        0 <= p < q < es.len() ==> es[p].source < es[q].source || (es[p].source == es[q].source
            && es[p].target < es[q].target)
}

/// Whether some edge joins `a` to `b`.
spec fn has_pair(es: Seq<Edge>, a: int, b: int) -> bool {
    exists|p: int| #![trigger es[p]] 0 <= p < es.len() && es[p].source == a && es[p].target == b
}

/// Relation names on the edges joining `a` to `b`.
spec fn pair_relations(es: Seq<Edge>, a: int, b: int) -> Set<Seq<char>> {
    Set::new(
        |r: Seq<char>|
            exists|p: int|
                #![trigger es[p]]
                0 <= p < es.len() && es[p].source == a && es[p].target == b
                    && es[p].relations@.contains(r),
    )
}

/// Whether `ne` is `old` with relation `rel` added on the edge from `i` to `j`.
spec fn edge_added(old: Seq<Edge>, ne: Seq<Edge>, i: int, j: int, rel: Seq<char>) -> bool {
    &&& edges_sorted(ne)
    &&& forall|p: int|
        0 <= p < ne.len() ==> (#[trigger] ne[p].source == i && ne[p].target == j) || has_pair(
            old,
            ne[p].source as int,
            ne[p].target as int,
        )
    &&& forall|a: int, b: int| #[trigger] has_pair(ne, a, b) == (has_pair(old, a, b) || (a == i && b == j))
    &&& forall|a: int, b: int|
        #[trigger] pair_relations(ne, a, b) == if a == i && b == j {
            pair_relations(old, a, b).insert(rel)
        } else {
            pair_relations(old, a, b)
        }
}

/// Adding a relation to the existing edge at position `w`.
proof fn lemma_edge_updated(old: Seq<Edge>, ne: Seq<Edge>, w: int, rel: Seq<char>)
    requires
        edges_sorted(old),
        0 <= w < old.len(),
        ne.len() == old.len(),
        forall|q: int| 0 <= q < old.len() && q != w ==> #[trigger] ne[q] == old[q],
        ne[w].source == old[w].source,
        ne[w].target == old[w].target,
        ne[w].relations@.to_set() == old[w].relations@.to_set().insert(rel),
    ensures
        edge_added(old, ne, old[w].source as int, old[w].target as int, rel),
{
    let i = old[w].source as int;
    let j = old[w].target as int;
    assert forall|q: int, s: int| #![trigger ne[q], ne[s]] 0 <= q < s < ne.len() implies ne[q].source
        < ne[s].source || (ne[q].source == ne[s].source && ne[q].target < ne[s].target) by {
        assert(old[q].source < old[s].source || (old[q].source == old[s].source && old[q].target
            < old[s].target));
    }
    assert forall|q: int|
        0 <= q < ne.len() implies (#[trigger] ne[q].source == i && ne[q].target == j) || has_pair(
        old,
        ne[q].source as int,
        ne[q].target as int,
    ) by {
        assert(old[q].source == ne[q].source);
    }
    assert forall|a: int, b: int| #[trigger] has_pair(ne, a, b) == (has_pair(old, a, b) || (a == i
        && b == j)) by {
        if has_pair(ne, a, b) {
            let x = choose|x: int| #![trigger ne[x]] 0 <= x < ne.len() && ne[x].source == a && ne[x].target == b;
            assert(old[x].source == ne[x].source);
        }
        if has_pair(old, a, b) {
            let x = choose|x: int| #![trigger old[x]] 0 <= x < old.len() && old[x].source == a && old[x].target == b;
            assert(ne[x].source == old[x].source);
        }
        if a == i && b == j {
            assert(ne[w].source == i);
        }
    }
    assert forall|a: int, b: int| #[trigger] pair_relations(ne, a, b) == if a == i && b == j {
        pair_relations(old, a, b).insert(rel)
    } else {
        pair_relations(old, a, b)
    } by {
        let target = if a == i && b == j {
            pair_relations(old, a, b).insert(rel)
        } else {
            pair_relations(old, a, b)
        };
        assert forall|r: Seq<char>| pair_relations(ne, a, b).contains(r) <==> target.contains(r) by {
            if pair_relations(ne, a, b).contains(r) {
                let x = choose|x: int|
                    #![trigger ne[x]]
                    0 <= x < ne.len() && ne[x].source == a && ne[x].target == b
                        && ne[x].relations@.contains(r);
                if x != w {
                    assert(old[x] == ne[x]);
                } else if r != rel {
                    assert(ne[w].relations@.to_set().contains(r));
                    assert(old[w].relations@.contains(r));
                }
            }
            if target.contains(r) {
                if a == i && b == j && r == rel {
                    assert(ne[w].relations@.to_set().contains(r));
                    assert(ne[w].relations@.contains(r));
                } else {
                    let x = choose|x: int|
                        #![trigger old[x]]
                        0 <= x < old.len() && old[x].source == a && old[x].target == b
                            && old[x].relations@.contains(r);
                    if x != w {
                        assert(ne[x] == old[x]);
                    } else {
                        assert(old[w].relations@.to_set().contains(r));
                        assert(ne[w].relations@.to_set().contains(r));
                    }
                }
            }
        }
        assert(pair_relations(ne, a, b) =~= target);
    }
}

/// Inserting a new edge from `i` to `j` at position `p`.
proof fn lemma_edge_inserted(old: Seq<Edge>, ne: Seq<Edge>, p: int, e: Edge, rel: Seq<char>)
    requires
        edges_sorted(old),
        0 <= p <= old.len(),
        p > 0 ==> old[p - 1].source < e.source || (old[p - 1].source == e.source && old[p
            - 1].target < e.target),
        forall|q: int| p <= q < old.len() ==> (#[trigger] old[q]).source == e.source && old[q].target > e.target,
        ne == old.insert(p, e),
        e.relations@.to_set() == Set::<Seq<char>>::empty().insert(rel),
    ensures
        edge_added(old, ne, e.source as int, e.target as int, rel),
{
    let i = e.source as int;
    let j = e.target as int;
    assert(!has_pair(old, i, j)) by {
        if has_pair(old, i, j) {
            let w = choose|w: int| #![trigger old[w]] 0 <= w < old.len() && old[w].source == i && old[w].target == j;
            if w < p - 1 {
                assert(old[w].source < old[p - 1].source || (old[w].source == old[p - 1].source
                    && old[w].target < old[p - 1].target));
            }
        }
    }
    assert forall|q: int, s: int| #![trigger ne[q], ne[s]] 0 <= q < s < ne.len() implies ne[q].source
        < ne[s].source || (ne[q].source == ne[s].source && ne[q].target < ne[s].target) by {
        if s < p {
        } else if q < p && s == p {
            if q < p - 1 {
                assert(old[q].source < old[p - 1].source || (old[q].source == old[p - 1].source
                    && old[q].target < old[p - 1].target));
            }
        } else if q < p && s > p {
            assert(ne[s] == old[s - 1]);
            if q < p - 1 {
                assert(old[q].source < old[p - 1].source || (old[q].source == old[p - 1].source
                    && old[q].target < old[p - 1].target));
            }
        } else if q == p {
            assert(ne[s] == old[s - 1]);
        } else {
            assert(ne[q] == old[q - 1]);
            assert(ne[s] == old[s - 1]);
        }
    }
    assert forall|q: int|
        0 <= q < ne.len() implies (#[trigger] ne[q].source == i && ne[q].target == j) || has_pair(
        old,
        ne[q].source as int,
        ne[q].target as int,
    ) by {
        if q < p {
            assert(old[q] == ne[q]);
        } else if q > p {
            assert(old[q - 1] == ne[q]);
        }
    }
    assert forall|a: int, b: int| #[trigger] has_pair(ne, a, b) == (has_pair(old, a, b) || (a == i
        && b == j)) by {
        if has_pair(ne, a, b) {
            let x = choose|x: int| #![trigger ne[x]] 0 <= x < ne.len() && ne[x].source == a && ne[x].target == b;
            if x < p {
                assert(old[x] == ne[x]);
            } else if x > p {
                assert(old[x - 1] == ne[x]);
            }
        }
        if has_pair(old, a, b) {
            let x = choose|x: int| #![trigger old[x]] 0 <= x < old.len() && old[x].source == a && old[x].target == b;
            if x < p {
                assert(ne[x] == old[x]);
            } else {
                assert(ne[x + 1] == old[x]);
            }
        }
        if a == i && b == j {
            assert(ne[p].source == i);
        }
    }
    assert forall|a: int, b: int| #[trigger] pair_relations(ne, a, b) == if a == i && b == j {
        pair_relations(old, a, b).insert(rel)
    } else {
        pair_relations(old, a, b)
    } by {
        let target = if a == i && b == j {
            pair_relations(old, a, b).insert(rel)
        } else {
            pair_relations(old, a, b)
        };
        assert forall|r: Seq<char>| pair_relations(ne, a, b).contains(r) <==> target.contains(r) by {
            if pair_relations(ne, a, b).contains(r) {
                let x = choose|x: int|
                    #![trigger ne[x]]
                    0 <= x < ne.len() && ne[x].source == a && ne[x].target == b
                        && ne[x].relations@.contains(r);
                if x < p {
                    assert(old[x] == ne[x]);
                } else if x > p {
                    assert(old[x - 1] == ne[x]);
                } else {
                    assert(e.relations@.to_set().contains(r));
                }
            }
            if target.contains(r) {
                if a == i && b == j && r == rel {
                    assert(e.relations@.to_set().contains(r));
                    assert(ne[p].relations@.contains(r));
                } else {
                    let x = choose|x: int|
                        #![trigger old[x]]
                        0 <= x < old.len() && old[x].source == a && old[x].target == b
                            && old[x].relations@.contains(r);
                    if x < p {
                        assert(ne[x] == old[x]);
                    } else {
                        assert(ne[x + 1] == old[x]);
                    }
                }
            }
        }
        assert(pair_relations(ne, a, b) =~= target);
    }
}

/// Adds relation `relation` on the edge from `i` to `j`, where no edge leaves a node after `i`.
fn add_edge(edges: &mut Vec<Edge>, i: usize, j: usize, relation: &str)
    requires
        edges_sorted(old(edges)@),
        forall|p: int| 0 <= p < old(edges)@.len() ==> #[trigger] old(edges)@[p].source <= i,
    ensures
        edge_added(old(edges)@, final(edges)@, i as int, j as int, relation@),
{
    let ghost old_es = edges@;
    let mut p: usize = edges.len();
    while p > 0 && edges[p - 1].source == i && edges[p - 1].target > j
        invariant
            p <= edges@.len(),
            edges@ == old_es,
            forall|q: int| p <= q < old_es.len() ==> (#[trigger] old_es[q]).source == i && old_es[q].target > j,
        decreases p,
    {
        p = p - 1;
    }
    if p > 0 && edges[p - 1].source == i && edges[p - 1].target == j {
        let mut e = edges.remove(p - 1);
        e.relations.insert(owned(relation));
        edges.insert(p - 1, e);
        proof {
            assert(edges@ =~= old_es.update(p - 1, e));
            lemma_edge_updated(old_es, edges@, p - 1, relation@);
        }
    } else {
        let mut relations = TextSet::new();
        relations.insert(owned(relation));
        let e = Edge { source: i, target: j, relations };
        proof {
            assert(Seq::<Seq<char>>::empty().to_set() =~= Set::<Seq<char>>::empty());
        }
        edges.insert(p, e);
        proof {
            lemma_edge_inserted(old_es, edges@, p as int, e, relation@);
        }
    }
}

/// Number of `true` entries.
spec fn count_true(s: Seq<bool>) -> nat
    decreases s.len(),
{
    if s.len() == 0 {
        0
    } else {
        count_true(s.drop_last()) + if s.last() {
            1nat
        } else {
            0nat
        }
    }
}

proof fn lemma_count_true_bound(s: Seq<bool>)
    ensures
        count_true(s) <= s.len(),
    decreases s.len(),
{
    if s.len() > 0 {
        lemma_count_true_bound(s.drop_last());
    }
}

proof fn lemma_count_true_none(s: Seq<bool>)
    requires
        forall|i: int| 0 <= i < s.len() ==> !s[i],
    ensures
        count_true(s) == 0,
    decreases s.len(),
{
    if s.len() > 0 {
        lemma_count_true_none(s.drop_last());
    }
}

proof fn lemma_count_true_set(s: Seq<bool>, i: int)
    requires
        0 <= i < s.len(),
        !s[i],
    ensures
        count_true(s.update(i, true)) == count_true(s) + 1,
    decreases s.len(),
{
    let u = s.update(i, true);
    if i == s.len() - 1 {
        assert(u.drop_last() =~= s.drop_last());
    } else {
        assert(u.drop_last() =~= s.drop_last().update(i, true));
        lemma_count_true_set(s.drop_last(), i);
    }
}

/// A deterministic directed graph derived from resolved document references.
#[derive(Debug)]
pub struct KnowledgeGraph {
    nodes: Vec<DocumentId>,
    edges: Vec<Edge>,
}

impl KnowledgeGraph {
    #[verifier::type_invariant]
    spec fn well_formed(self) -> bool {
        &&& strictly_sorted(id_views(self.nodes@))
        &&& edges_sorted(self.edges@)
        &&& forall|p: int|
            0 <= p < self.edges@.len() ==> (#[trigger] self.edges@[p]).source < self.nodes@.len()
                && self.edges@[p].target < self.nodes@.len()
    }

    /// Node identifiers in ascending order.
    pub closed spec fn spec_nodes(&self) -> Seq<Seq<char>> {
        id_views(self.nodes@)
    }

    /// Whether an edge leads from node `i` to node `j`.
    pub closed spec fn has_edge(&self, i: int, j: int) -> bool {
        has_pair(self.edges@, i, j)
    }

    /// Relation names on the edge from node `i` to node `j`.
    pub closed spec fn edge_relations(&self, i: int, j: int) -> Set<Seq<char>> {
        pair_relations(self.edges@, i, j)
    }

    /// Builds a graph from references that resolve to documents in `bundle`.
    pub fn from_bundle(bundle: &Bundle) -> (r: KnowledgeGraph)
        ensures
            r.spec_nodes() == doc_ids(bundle.docs()),
            forall|i: int, j: int| #[trigger] r.has_edge(i, j) <==> links_to(bundle.docs(), i, j),
            forall|i: int, j: int|
                #[trigger] r.edge_relations(i, j) == if links_to(bundle.docs(), i, j) {
                    link_relations(bundle.docs(), i, j)
                } else {
                    Set::<Seq<char>>::empty()
                },
    {
        let docs = bundle.documents();
        let nodes = bundle.ids();
        let ghost ds = docs@;
        let mut edges: Vec<Edge> = Vec::new();
        let mut d: usize = 0;
        while d < docs.len()
            invariant
                ds == docs@,
                ds == bundle.docs(),
                d <= ds.len(),
                edges_sorted(edges@),
                forall|p: int|
                    0 <= p < edges@.len() ==> (#[trigger] edges@[p]).source < d && edges@[p].target
                        < ds.len(),
                forall|a: int, b: int| #[trigger]
                    has_pair(edges@, a, b) <==> (0 <= a < d && links_to(ds, a, b)),
                forall|a: int, b: int| #[trigger]
                    pair_relations(edges@, a, b) == if 0 <= a < d && links_to(ds, a, b) {
                        link_relations(ds, a, b)
                    } else {
                        Set::<Seq<char>>::empty()
                    },
            decreases ds.len() - d,
        {
            let links = &docs[d].metadata().links;
            let mut k: usize = 0;
            while k < links.len()
                invariant
                    ds == docs@,
                    ds == bundle.docs(),
                    d < ds.len(),
                    links@ == doc_links(ds, d as int),
                    k <= links@.len(),
                    edges_sorted(edges@),
                    forall|p: int|
                        0 <= p < edges@.len() ==> (#[trigger] edges@[p]).source <= d && edges@[p].target
                            < ds.len(),
                    forall|a: int, b: int| #[trigger]
                        has_pair(edges@, a, b) <==> ((0 <= a < d && links_to(ds, a, b)) || (a == d
                            && links_to_upto(ds, d as int, b, k as int))),
                    forall|a: int, b: int| #[trigger]
                        pair_relations(edges@, a, b) == if 0 <= a < d && links_to(ds, a, b) {
                            link_relations(ds, a, b)
                        } else if a == d && links_to_upto(ds, d as int, b, k as int) {
                            relations_upto(ds, d as int, b, k as int)
                        } else {
                            Set::<Seq<char>>::empty()
                        },
                decreases links@.len() - k,
            {
                let resolved = bundle.resolve_position(links[k].target().as_str());
                let ghost old_edges = edges@;
                let ghost rj: Option<int> = match resolved {
                    Some(j) => Some(j as int),
                    None => None,
                };
                match resolved {
                    Some(j) => {
                        add_edge(&mut edges, d, j, links[k].relation());
                    },
                    None => {},
                }
                proof {
                    assert forall|b: int| #[trigger]
                        links_to_upto(ds, d as int, b, k + 1) == (links_to_upto(ds, d as int, b, k as int)
                            || rj == Some(b)) by {
                        if links_to_upto(ds, d as int, b, k + 1) {
                            let w = choose|w: int| 0 <= w < k + 1 && #[trigger] link_resolves(ds, d as int, w, b);
                            if w == k {
                                assert(resolve_index(ds, links@[k as int].spec_target()) == Some(b));
                            }
                        }
                        if rj == Some(b) {
                            assert(link_resolves(ds, d as int, k as int, b));
                        }
                    }
                    assert forall|b: int|
                        #[trigger] relations_upto(ds, d as int, b, k + 1) == if rj == Some(b) {
                            relations_upto(ds, d as int, b, k as int).insert(links@[k as int].spec_relation())
                        } else {
                            relations_upto(ds, d as int, b, k as int)
                        } by {
                        let target = if rj == Some(b) {
                            relations_upto(ds, d as int, b, k as int).insert(links@[k as int].spec_relation())
                        } else {
                            relations_upto(ds, d as int, b, k as int)
                        };
                        assert forall|r: Seq<char>| relations_upto(ds, d as int, b, k + 1).contains(r)
                            <==> target.contains(r) by {
                            if relations_upto(ds, d as int, b, k + 1).contains(r) {
                                let w = choose|w: int|
                                    0 <= w < k + 1 && #[trigger] link_resolves(ds, d as int, w, b)
                                        && doc_links(ds, d as int)[w].spec_relation() == r;
                                if w == k {
                                    assert(resolve_index(ds, links@[k as int].spec_target()) == Some(b));
                                }
                            }
                            if target.contains(r) && rj == Some(b) && r
                                == links@[k as int].spec_relation() {
                                assert(link_resolves(ds, d as int, k as int, b));
                            }
                        }
                        assert(relations_upto(ds, d as int, b, k + 1) =~= target);
                    }
                    assert forall|a: int, b: int| #[trigger]
                        has_pair(edges@, a, b) <==> ((0 <= a < d && links_to(ds, a, b)) || (a == d
                            && links_to_upto(ds, d as int, b, k + 1))) by {
                        assert(links_to_upto(ds, d as int, b, k + 1) == (links_to_upto(ds, d as int, b, k as int)
                            || rj == Some(b)));
                    }
                    assert forall|a: int, b: int| #[trigger]
                        pair_relations(edges@, a, b) == if 0 <= a < d && links_to(ds, a, b) {
                            link_relations(ds, a, b)
                        } else if a == d && links_to_upto(ds, d as int, b, k + 1) {
                            relations_upto(ds, d as int, b, k + 1)
                        } else {
                            Set::<Seq<char>>::empty()
                        } by {
                        assert(links_to_upto(ds, d as int, b, k + 1) == (links_to_upto(ds, d as int, b, k as int)
                            || rj == Some(b)));
                        assert(pair_relations(old_edges, a, b) == if 0 <= a < d && links_to(ds, a, b) {
                            link_relations(ds, a, b)
                        } else if a == d && links_to_upto(ds, d as int, b, k as int) {
                            relations_upto(ds, d as int, b, k as int)
                        } else {
                            Set::<Seq<char>>::empty()
                        });
                        if a == d && rj == Some(b) && !links_to_upto(ds, d as int, b, k as int) {
                            assert(relations_upto(ds, d as int, b, k as int) =~= Set::<Seq<char>>::empty());
                        }
                        if a == d && b >= 0 {
                            assert(relations_upto(ds, d as int, b, k + 1) == if rj == Some(b) {
                                relations_upto(ds, d as int, b, k as int).insert(links@[k as int].spec_relation())
                            } else {
                                relations_upto(ds, d as int, b, k as int)
                            });
                        }
                    }
                }
                k = k + 1;
            }
            proof {
                assert forall|a: int, b: int| #[trigger]
                    has_pair(edges@, a, b) <==> (0 <= a < d + 1 && links_to(ds, a, b)) by {
                }
            }
            d = d + 1;
        }
        proof {
            let nv = id_views(nodes@);
            assert(nv =~= doc_ids(ds));
        }
        KnowledgeGraph { nodes, edges }
    }

    /// The directed node pairs joined by an edge.
    pub open spec fn edge_pairs(&self) -> Set<(int, int)> {
        Set::new(|e: (int, int)| self.has_edge(e.0, e.1))
    }

    /// Returns the number of documents represented by the graph.
    pub fn node_count(&self) -> (r: usize)
        ensures
            r == self.spec_nodes().len(),
    {
        self.nodes.len()
    }

    /// Returns the number of unique directed source-target pairs.
    pub fn edge_count(&self) -> (r: usize)
        ensures
            r == self.edge_pairs().len(),
            self.edge_pairs().finite(),
    {
        proof {
            use_type_invariant(self);
            let es = self.edges@;
            let pairs = es.map_values(|e: Edge| (e.source as int, e.target as int));
            assert forall|x: int, y: int| 0 <= x < pairs.len() && 0 <= y < pairs.len() && x != y implies
                pairs[x] != pairs[y] by {
                if x < y {
                    assert(es[x].source < es[y].source || (es[x].source == es[y].source && es[x].target
                        < es[y].target));
                } else {
                    assert(es[y].source < es[x].source || (es[y].source == es[x].source && es[y].target
                        < es[x].target));
                }
            }
            assert(pairs.no_duplicates());
            pairs.unique_seq_to_set();
            assert forall|e: (int, int)| pairs.to_set().contains(e) <==> self.edge_pairs().contains(e) by {
                if pairs.to_set().contains(e) {
                    let x = choose|x: int| 0 <= x < pairs.len() && pairs[x] == e;
                    assert(es[x].source == e.0 && es[x].target == e.1);
                }
                if self.edge_pairs().contains(e) {
                    let x = choose|x: int| #![trigger es[x]] 0 <= x < es.len() && es[x].source == e.0 && es[x].target == e.1;
                    assert(pairs[x] == e);
                }
            }
            assert(pairs.to_set() =~= self.edge_pairs());
        }
        self.edges.len()
    }

    /// Position of node `id`.
    fn index_of(&self, id: &str) -> (r: Option<usize>)
        ensures
            match r {
                Some(i) => i < self.spec_nodes().len() && self.spec_nodes()[i as int] == id@,
                None => !self.spec_nodes().contains(id@),
            },
    {
        let mut i: usize = 0;
        while i < self.nodes.len()
            invariant
                i <= self.nodes@.len(),
                forall|k: int| 0 <= k < i ==> self.nodes@[k]@ != id@,
            decreases self.nodes@.len() - i,
        {
            if text_eq(self.nodes[i].as_str(), id) {
                return Some(i);
            }
            i = i + 1;
        }
        None
    }

    /// Returns whether the graph contains a document identifier.
    pub fn contains(&self, id: &DocumentId) -> (r: bool)
        ensures
            r == self.spec_nodes().contains(id@),
    {
        self.index_of(id.as_str()).is_some()
    }

    /// Graph nodes in identifier order.
    pub fn nodes(&self) -> (r: &Vec<DocumentId>)
        ensures
            id_views(r@) == self.spec_nodes(),
    {
        &self.nodes
    }

    /// Positions of the direct successors of node `i`, ascending.
    fn out_positions(&self, i: usize) -> (r: Vec<usize>)
        ensures
            forall|x: int, y: int| 0 <= x < y < r@.len() ==> r@[x] < r@[y],
            forall|t: usize| #[trigger] r@.contains(t) <==> self.has_edge(i as int, t as int),
            forall|x: int| 0 <= x < r@.len() ==> (#[trigger] r@[x]) < self.spec_nodes().len(),
    {
        proof {
            use_type_invariant(self);
        }
        let ghost es = self.edges@;
        let mut out: Vec<usize> = Vec::new();
        let mut p: usize = 0;
        while p < self.edges.len()
            invariant
                es == self.edges@,
                edges_sorted(es),
                forall|q: int| 0 <= q < es.len() ==> (#[trigger] es[q]).target < self.nodes@.len(),
                p <= es.len(),
                forall|x: int, y: int| 0 <= x < y < out@.len() ==> out@[x] < out@[y],
                forall|x: int| 0 <= x < out@.len() ==> (#[trigger] out@[x]) < self.nodes@.len(),
                out@.len() > 0 ==> exists|q: int| 0 <= q < p && es[q].source == i && es[q].target == out@.last(),
                forall|t: usize|
                    #[trigger] out@.contains(t) <==> exists|q: int|
                        #![trigger es[q]]
                        0 <= q < p && es[q].source == i && es[q].target == t,
            decreases es.len() - p,
        {
            let e = &self.edges[p];
            if e.source == i {
                proof {
                    if out@.len() > 0 {
                        let q = choose|q: int| 0 <= q < p && es[q].source == i && es[q].target == out@.last();
                        assert(es[q].source < es[p as int].source || (es[q].source == es[p as int].source
                            && es[q].target < es[p as int].target));
                    }
                }
                let ghost before = out@;
                out.push(e.target);
                proof {
                    assert forall|t: usize|
                        #[trigger] out@.contains(t) <==> exists|q: int|
                            #![trigger es[q]]
                            0 <= q < p + 1 && es[q].source == i && es[q].target == t by {
                        if out@.contains(t) {
                            let x = choose|x: int| 0 <= x < out@.len() && out@[x] == t;
                            if x < before.len() {
                                assert(before.contains(t));
                            }
                        }
                        if exists|q: int| #![trigger es[q]] 0 <= q < p + 1 && es[q].source == i && es[q].target == t {
                            let q = choose|q: int| #![trigger es[q]] 0 <= q < p + 1 && es[q].source == i && es[q].target == t;
                            if q < p {
                                assert(before.contains(t));
                                let x = choose|x: int| 0 <= x < before.len() && before[x] == t;
                                assert(out@[x] == t);
                            } else {
                                assert(out@[before.len() as int] == t);
                            }
                        }
                    }
                }
            }
            p = p + 1;
        }
        out
    }

    /// Positions of the direct predecessors of node `j`, ascending.
    fn in_positions(&self, j: usize) -> (r: Vec<usize>)
        ensures
            forall|x: int, y: int| 0 <= x < y < r@.len() ==> r@[x] < r@[y],
            forall|t: usize| #[trigger] r@.contains(t) <==> self.has_edge(t as int, j as int),
            forall|x: int| 0 <= x < r@.len() ==> (#[trigger] r@[x]) < self.spec_nodes().len(),
    {
        proof {
            use_type_invariant(self);
        }
        let ghost es = self.edges@;
        let mut out: Vec<usize> = Vec::new();
        let mut p: usize = 0;
        while p < self.edges.len()
            invariant
                es == self.edges@,
                edges_sorted(es),
                forall|q: int| 0 <= q < es.len() ==> (#[trigger] es[q]).source < self.nodes@.len(),
                p <= es.len(),
                forall|x: int, y: int| 0 <= x < y < out@.len() ==> out@[x] < out@[y],
                forall|x: int| 0 <= x < out@.len() ==> (#[trigger] out@[x]) < self.nodes@.len(),
                out@.len() > 0 ==> exists|q: int| 0 <= q < p && es[q].target == j && es[q].source == out@.last(),
                forall|t: usize|
                    #[trigger] out@.contains(t) <==> exists|q: int|
                        #![trigger es[q]]
                        0 <= q < p && es[q].target == j && es[q].source == t,
            decreases es.len() - p,
        {
            let e = &self.edges[p];
            if e.target == j {
                proof {
                    if out@.len() > 0 {
                        let q = choose|q: int| 0 <= q < p && es[q].target == j && es[q].source == out@.last();
                        assert(es[q].source < es[p as int].source || (es[q].source == es[p as int].source
                            && es[q].target < es[p as int].target));
                    }
                }
                let ghost before = out@;
                out.push(e.source);
                proof {
                    assert forall|t: usize|
                        #[trigger] out@.contains(t) <==> exists|q: int|
                            #![trigger es[q]]
                            0 <= q < p + 1 && es[q].target == j && es[q].source == t by {
                        if out@.contains(t) {
                            let x = choose|x: int| 0 <= x < out@.len() && out@[x] == t;
                            if x < before.len() {
                                assert(before.contains(t));
                            }
                        }
                        if exists|q: int| #![trigger es[q]] 0 <= q < p + 1 && es[q].target == j && es[q].source == t {
                            let q = choose|q: int| #![trigger es[q]] 0 <= q < p + 1 && es[q].target == j && es[q].source == t;
                            if q < p {
                                assert(before.contains(t));
                                let x = choose|x: int| 0 <= x < before.len() && before[x] == t;
                                assert(out@[x] == t);
                            } else {
                                assert(out@[before.len() as int] == t);
                            }
                        }
                    }
                }
            }
            p = p + 1;
        }
        out
    }

    /// Identifiers of the nodes at ascending positions `ps`.
    fn ids_at(&self, ps: &Vec<usize>) -> (r: Vec<DocumentId>)
        requires
            forall|x: int, y: int| 0 <= x < y < ps@.len() ==> ps@[x] < ps@[y],
            forall|x: int| 0 <= x < ps@.len() ==> (#[trigger] ps@[x]) < self.spec_nodes().len(),
        ensures
            r@.len() == ps@.len(),
            forall|x: int| 0 <= x < r@.len() ==> (#[trigger] r@[x])@ == self.spec_nodes()[ps@[x] as int],
            strictly_sorted(id_views(r@)),
    {
        proof {
            use_type_invariant(self);
        }
        let mut out: Vec<DocumentId> = Vec::new();
        let mut k: usize = 0;
        while k < ps.len()
            invariant
                k <= ps@.len(),
                out@.len() == k,
                forall|x: int| 0 <= x < ps@.len() ==> (#[trigger] ps@[x]) < self.nodes@.len(),
                forall|x: int| 0 <= x < k ==> (#[trigger] out@[x])@ == self.nodes@[ps@[x] as int]@,
            decreases ps@.len() - k,
        {
            out.push(self.nodes[ps[k]].copy());
            k = k + 1;
        }
        proof {
            let nv = id_views(self.nodes@);
            let ov = id_views(out@);
            assert forall|x: int, y: int| 0 <= x < y < ov.len() implies text_lt(
                #[trigger] ov[x],
                #[trigger] ov[y],
            ) by {
                assert(nv[ps@[x] as int] == ov[x]);
                assert(nv[ps@[y] as int] == ov[y]);
            }
        }
        out
    }

    /// Direct successors of `id` in identifier order; empty when `id` is not a node.
    pub fn outgoing(&self, id: &DocumentId) -> (r: Vec<DocumentId>)
        ensures
            strictly_sorted(id_views(r@)),
            forall|x: Seq<char>|
                #[trigger] id_views(r@).contains(x) <==> exists|i: int, j: int|
                    0 <= i < self.spec_nodes().len() && 0 <= j < self.spec_nodes().len()
                        && self.spec_nodes()[i] == id@ && #[trigger] self.has_edge(i, j)
                        && self.spec_nodes()[j] == x,
    {
        proof {
            use_type_invariant(self);
        }
        match self.index_of(id.as_str()) {
            None => {
                let r: Vec<DocumentId> = Vec::new();
                proof {
                    assert(id_views(r@) =~= Seq::<Seq<char>>::empty());
                }
                r
            },
            Some(i) => {
                let ps = self.out_positions(i);
                let r = self.ids_at(&ps);
                proof {
                    let nv = self.spec_nodes();
                    let rv = id_views(r@);
                    assert forall|x: Seq<char>| #[trigger] rv.contains(x) <==> exists|a: int, b: int|
                        0 <= a < nv.len() && 0 <= b < nv.len() && nv[a] == id@ && #[trigger] self.has_edge(
                            a,
                            b,
                        ) && nv[b] == x by {
                        if rv.contains(x) {
                            let y = choose|y: int| 0 <= y < rv.len() && rv[y] == x;
                            assert(r@[y]@ == nv[ps@[y] as int]);
                            assert(ps@.contains(ps@[y]));
                            assert(self.has_edge(i as int, ps@[y] as int));
                        }
                        if exists|a: int, b: int|
                            0 <= a < nv.len() && 0 <= b < nv.len() && nv[a] == id@ && #[trigger] self.has_edge(
                                a,
                                b,
                            ) && nv[b] == x {
                            let (a, b) = choose|a: int, b: int|
                                0 <= a < nv.len() && 0 <= b < nv.len() && nv[a] == id@ && #[trigger] self.has_edge(
                                    a,
                                    b,
                                ) && nv[b] == x;
                            if a != i {
                                if a < i {
                                    assert(text_lt(nv[a], nv[i as int]));
                                } else {
                                    assert(text_lt(nv[i as int], nv[a]));
                                }
                                crate::text::lemma_text_lt_irreflexive(id@);
                            }
                            let q = choose|q: int| #![trigger self.edges@[q]] 0 <= q < self.edges@.len() && self.edges@[q].source == a && self.edges@[q].target == b;
                            let bu = self.edges@[q].target;
                            assert(ps@.contains(bu));
                            let y = choose|y: int| 0 <= y < ps@.len() && ps@[y] == bu;
                            assert(rv[y] == x);
                        }
                    }
                }
                r
            },
        }
    }

    /// Direct predecessors of `id` in identifier order; empty when `id` is not a node.
    pub fn incoming(&self, id: &DocumentId) -> (r: Vec<DocumentId>)
        ensures
            strictly_sorted(id_views(r@)),
            forall|x: Seq<char>|
                #[trigger] id_views(r@).contains(x) <==> exists|i: int, j: int|
                    0 <= i < self.spec_nodes().len() && 0 <= j < self.spec_nodes().len()
                        && self.spec_nodes()[j] == id@ && #[trigger] self.has_edge(i, j)
                        && self.spec_nodes()[i] == x,
    {
        proof {
            use_type_invariant(self);
        }
        match self.index_of(id.as_str()) {
            None => {
                let r: Vec<DocumentId> = Vec::new();
                proof {
                    assert(id_views(r@) =~= Seq::<Seq<char>>::empty());
                }
                r
            },
            Some(j) => {
                let ps = self.in_positions(j);
                let r = self.ids_at(&ps);
                proof {
                    let nv = self.spec_nodes();
                    let rv = id_views(r@);
                    assert forall|x: Seq<char>| #[trigger] rv.contains(x) <==> exists|a: int, b: int|
                        0 <= a < nv.len() && 0 <= b < nv.len() && nv[b] == id@ && #[trigger] self.has_edge(
                            a,
                            b,
                        ) && nv[a] == x by {
                        if rv.contains(x) {
                            let y = choose|y: int| 0 <= y < rv.len() && rv[y] == x;
                            assert(r@[y]@ == nv[ps@[y] as int]);
                            assert(ps@.contains(ps@[y]));
                            assert(self.has_edge(ps@[y] as int, j as int));
                        }
                        if exists|a: int, b: int|
                            0 <= a < nv.len() && 0 <= b < nv.len() && nv[b] == id@ && #[trigger] self.has_edge(
                                a,
                                b,
                            ) && nv[a] == x {
                            let (a, b) = choose|a: int, b: int|
                                0 <= a < nv.len() && 0 <= b < nv.len() && nv[b] == id@ && #[trigger] self.has_edge(
                                    a,
                                    b,
                                ) && nv[a] == x;
                            if b != j {
                                if b < j {
                                    assert(text_lt(nv[b], nv[j as int]));
                                } else {
                                    assert(text_lt(nv[j as int], nv[b]));
                                }
                                crate::text::lemma_text_lt_irreflexive(id@);
                            }
                            let q = choose|q: int| #![trigger self.edges@[q]] 0 <= q < self.edges@.len() && self.edges@[q].source == a && self.edges@[q].target == b;
                            let au = self.edges@[q].source;
                            assert(ps@.contains(au));
                            let y = choose|y: int| 0 <= y < ps@.len() && ps@[y] == au;
                            assert(rv[y] == x);
                        }
                    }
                }
                r
            },
        }
    }

    /// Relation names on the edge from `source` to `target` in ascending order; empty when no
    /// such edge exists.
    pub fn relations(&self, source: &DocumentId, target: &DocumentId) -> (r: Vec<String>)
        ensures
            strictly_sorted(views(r@)),
            forall|i: int, j: int|
                0 <= i < self.spec_nodes().len() && 0 <= j < self.spec_nodes().len()
                    && self.spec_nodes()[i] == source@ && self.spec_nodes()[j] == target@
                    ==> views(r@).to_set() == #[trigger] self.edge_relations(i, j),
            !self.spec_nodes().contains(source@) || !self.spec_nodes().contains(target@) ==> r@.len()
                == 0,
    {
        proof {
            use_type_invariant(self);
        }
        let ghost nv = self.spec_nodes();
        let ghost es = self.edges@;
        let si = self.index_of(source.as_str());
        let ti = self.index_of(target.as_str());
        match (si, ti) {
            (Some(i), Some(j)) => {
                proof {
                    assert forall|a: int, b: int|
                        0 <= a < nv.len() && 0 <= b < nv.len() && nv[a] == source@ && nv[b] == target@
                            implies a == i && b == j by {
                        if a != i {
                            if a < i {
                                assert(text_lt(nv[a], nv[i as int]));
                            } else {
                                assert(text_lt(nv[i as int], nv[a]));
                            }
                            crate::text::lemma_text_lt_irreflexive(source@);
                        }
                        if b != j {
                            if b < j {
                                assert(text_lt(nv[b], nv[j as int]));
                            } else {
                                assert(text_lt(nv[j as int], nv[b]));
                            }
                            crate::text::lemma_text_lt_irreflexive(target@);
                        }
                    }
                }
                let mut p: usize = 0;
                while p < self.edges.len()
                    invariant
                        es == self.edges@,
                        nv == self.spec_nodes(),
                        edges_sorted(es),
                        i < nv.len(),
                        j < nv.len(),
                        forall|a: int, b: int|
                            0 <= a < nv.len() && 0 <= b < nv.len() && nv[a] == source@ && nv[b]
                                == target@ ==> a == i && b == j,
                        nv[i as int] == source@,
                        nv[j as int] == target@,
                        p <= es.len(),
                        forall|q: int| 0 <= q < p ==> !((#[trigger] es[q]).source == i && es[q].target == j),
                    decreases es.len() - p,
                {
                    if self.edges[p].source == i && self.edges[p].target == j {
                        let r = self.edges[p].relations.to_vec();
                        proof {
                            assert forall|x: Seq<char>| pair_relations(es, i as int, j as int).contains(x)
                                <==> es[p as int].relations@.contains(x) by {
                                if pair_relations(es, i as int, j as int).contains(x) {
                                    let w = choose|w: int|
                                        #![trigger es[w]]
                                        0 <= w < es.len() && es[w].source == i && es[w].target == j
                                            && es[w].relations@.contains(x);
                                    if w != p {
                                        if w < p {
                                            assert(es[w].source < es[p as int].source || (es[w].source
                                                == es[p as int].source && es[w].target < es[p as int].target));
                                        } else {
                                            assert(es[p as int].source < es[w].source || (es[p as int].source
                                                == es[w].source && es[p as int].target < es[w].target));
                                        }
                                    }
                                }
                            }
                            assert(views(r@).to_set() =~= pair_relations(es, i as int, j as int));
                        }
                        return r;
                    }
                    p = p + 1;
                }
                proof {
                    assert(pair_relations(es, i as int, j as int) =~= Set::<Seq<char>>::empty());
                    assert(views(Seq::<String>::empty()).to_set() =~= Set::<Seq<char>>::empty());
                }
                Vec::new()
            },
            _ => {
                proof {
                    assert(views(Seq::<String>::empty()).to_set() =~= Set::<Seq<char>>::empty());
                }
                Vec::new()
            },
        }
    }

    /// Positions whose flag equals `want`, ascending.
    fn positions_where(flags: &Vec<bool>, want: bool) -> (r: Vec<usize>)
        ensures
            forall|x: int, y: int| 0 <= x < y < r@.len() ==> r@[x] < r@[y],
            forall|x: int| 0 <= x < r@.len() ==> (#[trigger] r@[x]) < flags@.len(),
            forall|t: usize| #[trigger] r@.contains(t) <==> t < flags@.len() && flags@[t as int] == want,
    {
        let mut out: Vec<usize> = Vec::new();
        let mut k: usize = 0;
        while k < flags.len()
            invariant
                k <= flags@.len(),
                forall|x: int, y: int| 0 <= x < y < out@.len() ==> out@[x] < out@[y],
                forall|x: int| 0 <= x < out@.len() ==> (#[trigger] out@[x]) < k,
                forall|t: usize| #[trigger] out@.contains(t) <==> t < k && flags@[t as int] == want,
            decreases flags@.len() - k,
        {
            if flags[k] == want {
                let ghost before = out@;
                out.push(k);
                proof {
                    assert forall|t: usize| #[trigger] out@.contains(t) <==> t < k + 1 && flags@[t as int] == want by {
                        if out@.contains(t) {
                            let x = choose|x: int| 0 <= x < out@.len() && out@[x] == t;
                            if x < before.len() {
                                assert(before.contains(t));
                            }
                        }
                        if t < k + 1 && flags@[t as int] == want {
                            if t < k {
                                assert(before.contains(t));
                                let x = choose|x: int| 0 <= x < before.len() && before[x] == t;
                                assert(out@[x] == t);
                            } else {
                                assert(out@[before.len() as int] == t);
                            }
                        }
                    }
                }
            }
            k = k + 1;
        }
        out
    }

    /// For each node, whether some edge ends there (`by_target`) or starts there.
    fn endpoint_flags(&self, by_target: bool) -> (r: Vec<bool>)
        ensures
            r@.len() == self.spec_nodes().len(),
            forall|t: int|
                0 <= t < r@.len() ==> (#[trigger] r@[t] <==> exists|u: int|
                    if by_target {
                        self.has_edge(u, t)
                    } else {
                        self.has_edge(t, u)
                    }),
    {
        proof {
            use_type_invariant(self);
        }
        let ghost es = self.edges@;
        let mut flags: Vec<bool> = Vec::new();
        let mut k: usize = 0;
        while k < self.nodes.len()
            invariant
                k <= self.nodes@.len(),
                flags@.len() == k,
                forall|t: int| 0 <= t < k ==> !(#[trigger] flags@[t]),
            decreases self.nodes@.len() - k,
        {
            flags.push(false);
            k = k + 1;
        }
        let mut p: usize = 0;
        while p < self.edges.len()
            invariant
                es == self.edges@,
                p <= es.len(),
                flags@.len() == self.nodes@.len(),
                forall|q: int|
                    0 <= q < es.len() ==> (#[trigger] es[q]).source < self.nodes@.len() && es[q].target
                        < self.nodes@.len(),
                forall|t: int|
                    0 <= t < flags@.len() ==> (#[trigger] flags@[t] <==> exists|q: int|
                        #![trigger es[q]]
                        0 <= q < p && (if by_target {
                            es[q].target == t
                        } else {
                            es[q].source == t
                        })),
            decreases es.len() - p,
        {
            let end = if by_target {
                self.edges[p].target
            } else {
                self.edges[p].source
            };
            flags.set(end, true);
            p = p + 1;
        }
        proof {
            assert forall|t: int|
                0 <= t < flags@.len() implies (#[trigger] flags@[t] <==> exists|u: int|
                    if by_target {
                        self.has_edge(u, t)
                    } else {
                        self.has_edge(t, u)
                    }) by {
                if flags@[t] {
                    let q = choose|q: int|
                        #![trigger es[q]]
                        0 <= q < es.len() && (if by_target {
                            es[q].target == t
                        } else {
                            es[q].source == t
                        });
                    if by_target {
                        assert(self.has_edge(es[q].source as int, t));
                    } else {
                        assert(self.has_edge(t, es[q].target as int));
                    }
                }
                if exists|u: int|
                    if by_target {
                        self.has_edge(u, t)
                    } else {
                        self.has_edge(t, u)
                    } {
                    let u = choose|u: int|
                        if by_target {
                            self.has_edge(u, t)
                        } else {
                            self.has_edge(t, u)
                        };
                    if by_target {
                        let q = choose|q: int| #![trigger es[q]] 0 <= q < es.len() && es[q].source == u && es[q].target == t;
                    } else {
                        let q = choose|q: int| #![trigger es[q]] 0 <= q < es.len() && es[q].source == t && es[q].target == u;
                    }
                }
            }
        }
        flags
    }

    /// Returns documents with no resolved incoming references, in identifier order.
    pub fn roots(&self) -> (r: Vec<DocumentId>)
        ensures
            strictly_sorted(id_views(r@)),
            forall|x: Seq<char>|
                #[trigger] id_views(r@).contains(x) <==> exists|i: int|
                    0 <= i < self.spec_nodes().len() && self.spec_nodes()[i] == x && forall|j: int|
                        !(#[trigger] self.has_edge(j, i)),
    {
        proof {
            use_type_invariant(self);
        }
        let flags = self.endpoint_flags(true);
        let n = flags.len();
        let ps = Self::positions_where(&flags, false);
        let r = self.ids_at(&ps);
        proof {
            self.lemma_ids_at_members(ps@, r@, flags@, true);
        }
        r
    }

    /// Returns documents with no resolved outgoing references, in identifier order.
    pub fn leaves(&self) -> (r: Vec<DocumentId>)
        ensures
            strictly_sorted(id_views(r@)),
            forall|x: Seq<char>|
                #[trigger] id_views(r@).contains(x) <==> exists|i: int|
                    0 <= i < self.spec_nodes().len() && self.spec_nodes()[i] == x && forall|j: int|
                        !(#[trigger] self.has_edge(i, j)),
    {
        proof {
            use_type_invariant(self);
        }
        let flags = self.endpoint_flags(false);
        let n = flags.len();
        let ps = Self::positions_where(&flags, false);
        let r = self.ids_at(&ps);
        proof {
            self.lemma_ids_at_members(ps@, r@, flags@, false);
        }
        r
    }

    /// Members of the identifiers picked at the unflagged positions.
    proof fn lemma_ids_at_members(&self, ps: Seq<usize>, r: Seq<DocumentId>, flags: Seq<bool>, by_target: bool)
        requires
            flags.len() <= usize::MAX,
            flags.len() == self.spec_nodes().len(),
            forall|t: int|
                0 <= t < flags.len() ==> (#[trigger] flags[t] <==> exists|u: int|
                    if by_target {
                        self.has_edge(u, t)
                    } else {
                        self.has_edge(t, u)
                    }),
            forall|t: usize| #[trigger] ps.contains(t) <==> t < flags.len() && flags[t as int] == false,
            r.len() == ps.len(),
            forall|x: int| 0 <= x < r.len() ==> (#[trigger] r[x])@ == self.spec_nodes()[ps[x] as int],
            forall|x: int| 0 <= x < ps.len() ==> (#[trigger] ps[x]) < flags.len(),
        ensures
            forall|x: Seq<char>|
                #[trigger] id_views(r).contains(x) <==> exists|i: int|
                    0 <= i < self.spec_nodes().len() && self.spec_nodes()[i] == x && forall|j: int|
                        !(if by_target {
                            self.has_edge(j, i)
                        } else {
                            self.has_edge(i, j)
                        }),
    {
        let nv = self.spec_nodes();
        assert forall|x: Seq<char>|
            #[trigger] id_views(r).contains(x) <==> exists|i: int|
                0 <= i < nv.len() && nv[i] == x && forall|j: int|
                    !(if by_target {
                        self.has_edge(j, i)
                    } else {
                        self.has_edge(i, j)
                    }) by {
            if id_views(r).contains(x) {
                let y = choose|y: int| 0 <= y < id_views(r).len() && id_views(r)[y] == x;
                assert(ps.contains(ps[y]));
                let i = ps[y] as int;
                assert(!flags[i]);
                assert(nv[i] == x);
            }
            if exists|i: int|
                0 <= i < nv.len() && nv[i] == x && forall|j: int|
                    !(if by_target {
                        self.has_edge(j, i)
                    } else {
                        self.has_edge(i, j)
                    }) {
                let i = choose|i: int|
                    0 <= i < nv.len() && nv[i] == x && forall|j: int|
                        !(if by_target {
                            self.has_edge(j, i)
                        } else {
                            self.has_edge(i, j)
                        });
                assert(!flags[i]);
                let iu = i as usize;
                assert(iu as int == i);
                assert(ps.contains(iu));
                let y = choose|y: int| 0 <= y < ps.len() && ps[y] == iu;
                assert(r[y]@ == nv[i]);
                assert(id_views(r)[y] == x);
            }
        }
    }

    /// Whether position `k` of `p` is joined to position `k + 1` by an edge.
    pub open spec fn walk_step(&self, p: Seq<int>, k: int) -> bool {
        self.has_edge(p[k], p[k + 1])
    }

    /// Whether `p` is a walk: a non-empty sequence of node positions, each joined to the next by
    /// an edge.
    pub open spec fn is_walk(&self, p: Seq<int>) -> bool {
        &&& p.len() >= 1
        &&& forall|k: int| 0 <= k < p.len() ==> 0 <= #[trigger] p[k] < self.spec_nodes().len()
        &&& forall|k: int| 0 <= k < p.len() - 1 ==> #[trigger] self.walk_step(p, k)
    }

    /// Whether node `t` can be reached from node `s` (every node reaches itself).
    pub open spec fn reachable(&self, s: int, t: int) -> bool {
        exists|p: Seq<int>| #[trigger] self.is_walk(p) && p[0] == s && p.last() == t
    }

    /// Whether `p` is a walk from `s` to `t` with no shorter such walk.
    pub open spec fn is_shortest_walk(&self, p: Seq<int>, s: int, t: int) -> bool {
        &&& self.is_walk(p)
        &&& p[0] == s
        &&& p.last() == t
        &&& forall|q: Seq<int>| #[trigger] self.is_walk(q) && q[0] == s && q.last() == t ==> p.len() <= q.len()
    }

    /// Extending a walk by an edge out of its last node.
    pub proof fn lemma_walk_push(&self, p: Seq<int>, w: int)
        requires
            self.is_walk(p),
            self.has_edge(p.last(), w),
            0 <= w < self.spec_nodes().len(),
        ensures
            self.is_walk(p.push(w)),
            p.push(w)[0] == p[0],
            p.push(w).last() == w,
    {
        let q = p.push(w);
        assert forall|k: int| 0 <= k < q.len() - 1 implies #[trigger] self.walk_step(q, k) by {
            if k < p.len() - 1 {
                assert(self.walk_step(p, k));
                assert(q[k] == p[k] && q[k + 1] == p[k + 1]);
            } else {
                assert(q[k] == p.last());
            }
        }
        assert forall|k: int| 0 <= k < q.len() implies 0 <= #[trigger] q[k] < self.spec_nodes().len() by {
            if k < p.len() {
                assert(q[k] == p[k]);
            }
        }
    }

    /// A non-empty prefix of a walk is a walk.
    pub proof fn lemma_walk_take(&self, p: Seq<int>, m: int)
        requires
            self.is_walk(p),
            1 <= m <= p.len(),
        ensures
            self.is_walk(p.take(m)),
    {
        let q = p.take(m);
        assert forall|k: int| 0 <= k < q.len() - 1 implies #[trigger] self.walk_step(q, k) by {
            assert(self.walk_step(p, k));
        }
        assert forall|k: int| 0 <= k < q.len() implies 0 <= #[trigger] q[k] < self.spec_nodes().len() by {
            assert(q[k] == p[k]);
        }
    }

    /// A set of nodes closed under edges holds every node of a walk that starts in it.
    proof fn lemma_closed_walk(&self, p: Seq<int>, vis: Seq<bool>)
        requires
            self.is_walk(p),
            vis.len() == self.spec_nodes().len(),
            vis[p[0]],
            forall|v: int, w: int|
                0 <= v < vis.len() && vis[v] && #[trigger] self.has_edge(v, w) ==> 0 <= w < vis.len()
                    && vis[w],
        ensures
            vis[p.last()],
        decreases p.len(),
    {
        if p.len() > 1 {
            let q = p.take(p.len() - 1);
            self.lemma_walk_take(p, p.len() - 1);
            self.lemma_closed_walk(q, vis);
            assert(self.walk_step(p, p.len() - 2));
            assert(q.last() == p[p.len() - 2]);
        }
    }

    /// For each node, whether it is reachable from node `s`.
    fn reach_flags(&self, s: usize) -> (r: Vec<bool>)
        requires
            s < self.spec_nodes().len(),
        ensures
            r@.len() == self.spec_nodes().len(),
            forall|t: int| 0 <= t < r@.len() ==> (#[trigger] r@[t] <==> self.reachable(s as int, t)),
    {
        proof {
            use_type_invariant(self);
        }
        let n = self.nodes.len();
        let ghost es = self.edges@;
        proof {
            assert forall|v: int, w: int| #[trigger] self.has_edge(v, w) implies 0 <= v < n && 0 <= w < n by {
                let q = choose|q: int| #![trigger es[q]] 0 <= q < es.len() && es[q].source == v && es[q].target == w;
            }
        }
        let mut visited: Vec<bool> = Vec::new();
        let mut k: usize = 0;
        while k < n
            invariant
                k <= n,
                visited@.len() == k,
                forall|t: int| 0 <= t < k ==> !(#[trigger] visited@[t]),
            decreases n - k,
        {
            visited.push(false);
            k = k + 1;
        }
        proof {
            lemma_count_true_none(visited@);
            lemma_count_true_set(visited@, s as int);
        }
        visited.set(s, true);
        let mut queue: Vec<usize> = Vec::new();
        queue.push(s);
        proof {
            let p = seq![s as int];
            assert(self.is_walk(p));
            assert(self.reachable(s as int, s as int));
            assert forall|t: usize| t < n implies (visited@[t as int] <==> #[trigger] queue@.contains(t)) by {
                if t == s {
                    assert(queue@[0] == s);
                }
            }
        }
        let mut head: usize = 0;
        while head < queue.len()
            invariant
                n == self.spec_nodes().len(),
                s < n,
                visited@.len() == n,
                forall|x: int| 0 <= x < queue@.len() ==> (#[trigger] queue@[x]) < n,
                queue@.len() == count_true(visited@),
                head <= queue@.len(),
                forall|t: usize| t < n ==> (visited@[t as int] <==> #[trigger] queue@.contains(t)),
                visited@[s as int],
                forall|t: int| 0 <= t < n && #[trigger] visited@[t] ==> self.reachable(s as int, t),
                forall|x: int, w: int|
                    0 <= x < head && #[trigger] self.has_edge(queue@[x] as int, w) ==> 0 <= w < n
                        && visited@[w],
                forall|v: int, w: int| #[trigger] self.has_edge(v, w) ==> 0 <= v < n && 0 <= w < n,
            decreases n - head,
        {
            proof {
                lemma_count_true_bound(visited@);
            }
            let v = queue[head];
            let ns = self.out_positions(v);
            let mut m: usize = 0;
            while m < ns.len()
                invariant
                    n == self.spec_nodes().len(),
                    s < n,
                    v < n,
                    head < queue@.len(),
                    queue@[head as int] == v,
                    visited@.len() == n,
                    forall|x: int| 0 <= x < queue@.len() ==> (#[trigger] queue@[x]) < n,
                    queue@.len() == count_true(visited@),
                    forall|t: usize| t < n ==> (visited@[t as int] <==> #[trigger] queue@.contains(t)),
                    visited@[s as int],
                    forall|t: int| 0 <= t < n && #[trigger] visited@[t] ==> self.reachable(s as int, t),
                    forall|x: int, w: int|
                        0 <= x < head && #[trigger] self.has_edge(queue@[x] as int, w) ==> 0 <= w < n
                            && visited@[w],
                    forall|v: int, w: int| #[trigger] self.has_edge(v, w) ==> 0 <= v < n && 0 <= w < n,
                    forall|t: usize| #[trigger] ns@.contains(t) <==> self.has_edge(v as int, t as int),
                    m <= ns@.len(),
                    forall|x: int| 0 <= x < ns@.len() ==> (#[trigger] ns@[x]) < n,
                    forall|x: int| 0 <= x < m ==> visited@[(#[trigger] ns@[x]) as int],
                decreases ns@.len() - m,
            {
                let w = ns[m];
                proof {
                    assert(ns@.contains(w));
                }
                if !visited[w] {
                    proof {
                        lemma_count_true_set(visited@, w as int);
                        assert(queue@.contains(v));
                        assert(visited@[v as int]);
                        let p = choose|p: Seq<int>| #[trigger] self.is_walk(p) && p[0] == s as int && p.last() == v as int;
                        self.lemma_walk_push(p, w as int);
                        assert(self.reachable(s as int, w as int));
                    }
                    let ghost old_q = queue@;
                    visited.set(w, true);
                    queue.push(w);
                    proof {
                        assert forall|t: usize| t < n implies (visited@[t as int] <==> #[trigger] queue@.contains(t)) by {
                            if t == w {
                                assert(queue@[old_q.len() as int] == w);
                            } else {
                                if old_q.contains(t) {
                                    let y = choose|y: int| 0 <= y < old_q.len() && old_q[y] == t;
                                    assert(queue@[y] == t);
                                }
                                if queue@.contains(t) {
                                    let y = choose|y: int| 0 <= y < queue@.len() && queue@[y] == t;
                                    assert(old_q[y] == t);
                                }
                            }
                        }
                        assert forall|x: int, u: int|
                            0 <= x < head && #[trigger] self.has_edge(queue@[x] as int, u) implies 0 <= u < n
                                && visited@[u] by {
                            assert(queue@[x] == old_q[x]);
                        }
                    }
                }
                m = m + 1;
            }
            proof {
                assert forall|x: int, w: int|
                    0 <= x < head + 1 && #[trigger] self.has_edge(queue@[x] as int, w) implies 0 <= w < n
                        && visited@[w] by {
                    if x == head {
                        let q = choose|q: int| #![trigger self.edges@[q]] 0 <= q < self.edges@.len() && self.edges@[q].source == v && self.edges@[q].target == w;
                        let wu = self.edges@[q].target;
                        assert(ns@.contains(wu));
                        let y = choose|y: int| 0 <= y < ns@.len() && ns@[y] == wu;
                    }
                }
            }
            head = head + 1;
        }
        proof {
            assert forall|t: int| 0 <= t < n implies (#[trigger] visited@[t] <==> self.reachable(s as int, t)) by {
                if self.reachable(s as int, t) {
                    let p = choose|p: Seq<int>| #[trigger] self.is_walk(p) && p[0] == s as int && p.last() == t;
                    assert forall|v: int, w: int|
                        0 <= v < visited@.len() && visited@[v] && #[trigger] self.has_edge(v, w) implies 0 <= w
                            < visited@.len() && visited@[w] by {
                        let vu = v as usize;
                        assert(queue@.contains(vu));
                        let y = choose|y: int| 0 <= y < queue@.len() && queue@[y] == vu;
                        assert(self.has_edge(queue@[y] as int, w));
                    }
                    self.lemma_closed_walk(p, visited@);
                }
            }
        }
        visited
    }

    /// Returns the start node and every node reachable from it, in identifier order; empty when
    /// `start` is not a node.
    pub fn reachable_from(&self, start: &DocumentId) -> (r: Vec<DocumentId>)
        ensures
            strictly_sorted(id_views(r@)),
            forall|x: Seq<char>|
                #[trigger] id_views(r@).contains(x) <==> exists|i: int, j: int|
                    0 <= i < self.spec_nodes().len() && 0 <= j < self.spec_nodes().len()
                        && self.spec_nodes()[i] == start@ && #[trigger] self.reachable(i, j)
                        && self.spec_nodes()[j] == x,
    {
        proof {
            use_type_invariant(self);
        }
        match self.index_of(start.as_str()) {
            None => {
                let r: Vec<DocumentId> = Vec::new();
                proof {
                    assert(id_views(r@) =~= Seq::<Seq<char>>::empty());
                }
                r
            },
            Some(i) => {
                let flags = self.reach_flags(i);
                let n = flags.len();
                let ps = Self::positions_where(&flags, true);
                let r = self.ids_at(&ps);
                proof {
                    let nv = self.spec_nodes();
                    assert forall|x: Seq<char>|
                        #[trigger] id_views(r@).contains(x) <==> exists|a: int, b: int|
                            0 <= a < nv.len() && 0 <= b < nv.len() && nv[a] == start@
                                && #[trigger] self.reachable(a, b) && nv[b] == x by {
                        if id_views(r@).contains(x) {
                            let y = choose|y: int| 0 <= y < id_views(r@).len() && id_views(r@)[y] == x;
                            assert(ps@.contains(ps@[y]));
                            let b = ps@[y] as int;
                            assert(flags@[b]);
                            assert(self.reachable(i as int, b));
                            assert(nv[b] == x);
                        }
                        if exists|a: int, b: int|
                            0 <= a < nv.len() && 0 <= b < nv.len() && nv[a] == start@
                                && #[trigger] self.reachable(a, b) && nv[b] == x {
                            let (a, b) = choose|a: int, b: int|
                                0 <= a < nv.len() && 0 <= b < nv.len() && nv[a] == start@
                                    && #[trigger] self.reachable(a, b) && nv[b] == x;
                            if a != i {
                                if a < i {
                                    assert(text_lt(nv[a], nv[i as int]));
                                } else {
                                    assert(text_lt(nv[i as int], nv[a]));
                                }
                                crate::text::lemma_text_lt_irreflexive(start@);
                            }
                            assert(flags@[b]);
                            let bu = b as usize;
                            assert(bu as int == b);
                            assert(ps@.contains(bu));
                            let y = choose|y: int| 0 <= y < ps@.len() && ps@[y] == bu;
                            assert(r@[y]@ == nv[b]);
                            assert(id_views(r@)[y] == x);
                        }
                    }
                }
                r
            },
        }
    }

    /// State of the breadth-first search from node `s`: `vis` marks discovered nodes, `par`
    /// and `dist` give each discovered node its predecessor and its distance, `queue` lists
    /// discovered nodes in discovery order and its first `head` entries have been expanded.
    spec fn bfs_ok(
        &self,
        s: int,
        vis: Seq<bool>,
        par: Seq<usize>,
        dist: Seq<int>,
        queue: Seq<usize>,
        head: int,
    ) -> bool {
        let n = self.spec_nodes().len();
        &&& 0 <= s < n
        &&& vis.len() == n
        &&& par.len() == n
        &&& dist.len() == n
        &&& forall|x: int| 0 <= x < queue.len() ==> (#[trigger] queue[x]) < n
        &&& queue.len() == count_true(vis)
        &&& queue.len() >= 1
        &&& queue[0] == s
        &&& 0 <= head <= queue.len()
        &&& forall|t: usize| t < n ==> (vis[t as int] <==> #[trigger] queue.contains(t))
        &&& vis[s]
        &&& dist[s] == 0
        &&& forall|t: int|
            0 <= t < n && #[trigger] vis[t] && t != s ==> par[t] < n && vis[par[t] as int]
                && self.has_edge(par[t] as int, t) && dist[t] == dist[par[t] as int] + 1
        &&& forall|t: int| 0 <= t < n && #[trigger] vis[t] ==> dist[t] >= 0
        &&& forall|q: Seq<int>|
            #[trigger] self.is_walk(q) && q[0] == s && vis[q.last()] ==> q.len() - 1 >= dist[q.last()]
        &&& forall|x: int, w: int|
            0 <= x < head && #[trigger] self.has_edge(queue[x] as int, w) ==> 0 <= w < n && vis[w]
                && dist[w] <= dist[queue[x] as int] + 1
        &&& forall|a: int, b: int|
            #![trigger queue[a], queue[b]]
            0 <= a <= b < queue.len() ==> dist[queue[a] as int] <= dist[queue[b] as int]
        &&& head < queue.len() ==> forall|b: int|
            head <= b < queue.len() ==> dist[(#[trigger] queue[b]) as int] <= dist[queue[head] as int]
                + 1
        &&& head < queue.len() ==> forall|q: Seq<int>|
            #[trigger] self.is_walk(q) && q[0] == s && q.len() - 1 < dist[queue[head] as int]
                ==> exists|x: int| 0 <= x < head && queue[x] == q.last()
        &&& forall|v: int, w: int| #[trigger] self.has_edge(v, w) ==> 0 <= v < n && 0 <= w < n
    }

    /// Discovering the unvisited successor `w` of the node being expanded.
    proof fn lemma_bfs_discover(
        &self,
        s: int,
        vis: Seq<bool>,
        par: Seq<usize>,
        dist: Seq<int>,
        queue: Seq<usize>,
        head: int,
        w: usize,
    )
        requires
            self.bfs_ok(s, vis, par, dist, queue, head),
            head < queue.len(),
            self.has_edge(queue[head] as int, w as int),
            !vis[w as int],
        ensures
            self.bfs_ok(
                s,
                vis.update(w as int, true),
                par.update(w as int, queue[head]),
                dist.update(w as int, dist[queue[head] as int] + 1),
                queue.push(w),
                head,
            ),
    {
        let n = self.spec_nodes().len();
        let v = queue[head];
        let d = dist[v as int];
        let vis2 = vis.update(w as int, true);
        let par2 = par.update(w as int, v);
        let dist2 = dist.update(w as int, d + 1);
        let q2 = queue.push(w);
        assert(0 <= w < n);
        lemma_count_true_set(vis, w as int);
        assert(queue.contains(v));
        assert(vis[v as int]);
        assert(v != w);
        assert forall|t: usize| t < n implies (vis2[t as int] <==> #[trigger] q2.contains(t)) by {
            if t == w {
                assert(q2[queue.len() as int] == w);
            } else {
                if queue.contains(t) {
                    let y = choose|y: int| 0 <= y < queue.len() && queue[y] == t;
                    assert(q2[y] == t);
                }
                if q2.contains(t) {
                    let y = choose|y: int| 0 <= y < q2.len() && q2[y] == t;
                    assert(queue[y] == t);
                }
            }
        }
        assert forall|x: int| 0 <= x < q2.len() implies (#[trigger] q2[x]) < n by {
            if x < queue.len() {
                assert(q2[x] == queue[x]);
            }
        }
        assert forall|t: int|
            0 <= t < n && #[trigger] vis2[t] && t != s implies par2[t] < n && vis2[par2[t] as int]
                && self.has_edge(par2[t] as int, t) && dist2[t] == dist2[par2[t] as int] + 1 by {
            if t != w {
                assert(vis[t]);
                assert(vis[par[t] as int]);
                assert(par[t] as int != w);
            }
        }
        assert forall|t: int| 0 <= t < n && #[trigger] vis2[t] implies dist2[t] >= 0 by {
            if t != w {
                assert(vis[t]);
            }
        }
        assert forall|q: Seq<int>|
            #[trigger] self.is_walk(q) && q[0] == s && vis2[q.last()] implies q.len() - 1 >= dist2[q.last()] by {
            if q.last() != w {
                assert(vis[q.last()]);
            } else {
                if q.len() - 1 < d + 1 {
                    if q.len() == 1 {
                        assert(q.last() == s);
                    } else {
                        let m = q.len() - 1;
                        let pre = q.take(m);
                        self.lemma_walk_take(q, m);
                        assert(pre[0] == s);
                        assert(pre.len() - 1 < d);
                        let x = choose|x: int| 0 <= x < head && queue[x] == pre.last();
                        assert(self.walk_step(q, m - 1));
                        assert(pre.last() == q[m - 1]);
                        assert(self.has_edge(queue[x] as int, w as int));
                    }
                }
            }
        }
        assert forall|x: int, u: int|
            0 <= x < head && #[trigger] self.has_edge(q2[x] as int, u) implies 0 <= u < n && vis2[u]
                && dist2[u] <= dist2[q2[x] as int] + 1 by {
            assert(q2[x] == queue[x]);
            assert(self.has_edge(queue[x] as int, u));
            assert(vis[u]);
            assert(queue.contains(queue[x]));
        }
        assert forall|a: int, b: int|
            #![trigger q2[a], q2[b]]
            0 <= a <= b < q2.len() implies dist2[q2[a] as int] <= dist2[q2[b] as int] by {
            if b < queue.len() {
                assert(q2[a] == queue[a] && q2[b] == queue[b]);
                assert(queue.contains(queue[a]) && queue.contains(queue[b]));
                assert(dist[queue[a] as int] <= dist[queue[b] as int]);
            } else if a < queue.len() {
                assert(q2[a] == queue[a]);
                assert(queue.contains(queue[a]));
                if a < head {
                    assert(dist[queue[a] as int] <= dist[queue[head] as int]);
                } else {
                    assert(dist[(queue[a]) as int] <= dist[queue[head] as int] + 1);
                }
            }
        }
        assert forall|b: int| head <= b < q2.len() implies dist2[(#[trigger] q2[b]) as int] <= dist2[q2[head]
            as int] + 1 by {
            assert(q2[head] == v);
            if b < queue.len() {
                assert(q2[b] == queue[b]);
                assert(queue.contains(queue[b]));
                assert(dist[(queue[b]) as int] <= dist[queue[head] as int] + 1);
            }
        }
        assert forall|q: Seq<int>|
            #[trigger] self.is_walk(q) && q[0] == s && q.len() - 1 < dist2[q2[head] as int] implies exists|
            x: int,
        | 0 <= x < head && q2[x] == q.last() by {
            assert(q2[head] == v);
            let x = choose|x: int| 0 <= x < head && queue[x] == q.last();
            assert(q2[x] == queue[x]);
        }
    }

    /// Finishing the expansion of `queue[head]`, all of whose successors are discovered.
    proof fn lemma_bfs_advance(
        &self,
        s: int,
        vis: Seq<bool>,
        par: Seq<usize>,
        dist: Seq<int>,
        queue: Seq<usize>,
        head: int,
    )
        requires
            self.bfs_ok(s, vis, par, dist, queue, head),
            head < queue.len(),
            forall|w: int| #[trigger] self.has_edge(queue[head] as int, w) ==> vis[w],
        ensures
            self.bfs_ok(s, vis, par, dist, queue, head + 1),
    {
        let n = self.spec_nodes().len();
        let v = queue[head];
        let d = dist[v as int];
        assert forall|x: int, w: int|
            0 <= x < head + 1 && #[trigger] self.has_edge(queue[x] as int, w) implies 0 <= w < n && vis[w]
                && dist[w] <= dist[queue[x] as int] + 1 by {
            if x == head {
                assert(vis[w]);
                let wu = w as usize;
                assert(queue.contains(wu));
                let y = choose|y: int| 0 <= y < queue.len() && queue[y] == wu;
                if y < head {
                    assert(dist[queue[y] as int] <= dist[queue[head] as int]);
                } else {
                    assert(dist[(queue[y]) as int] <= dist[queue[head] as int] + 1);
                }
            }
        }
        if head + 1 < queue.len() {
            let h = head + 1;
            let d2 = dist[queue[h] as int];
            assert(d <= d2);
            assert(d2 <= d + 1);
            assert forall|b: int| h <= b < queue.len() implies dist[(#[trigger] queue[b]) as int] <= dist[queue[h]
                as int] + 1 by {
                assert(dist[(queue[b]) as int] <= d + 1);
            }
            assert forall|q: Seq<int>|
                #[trigger] self.is_walk(q) && q[0] == s && q.len() - 1 < dist[queue[h] as int] implies exists|
                x: int,
            | 0 <= x < h && queue[x] == q.last() by {
                if q.len() - 1 < d {
                    let x = choose|x: int| 0 <= x < head && queue[x] == q.last();
                } else if q.len() == 1 {
                    assert(queue[0] == q.last());
                } else {
                    let m = q.len() - 1;
                    let pre = q.take(m);
                    self.lemma_walk_take(q, m);
                    assert(pre[0] == s);
                    let x = choose|x: int| 0 <= x < head && queue[x] == pre.last();
                    assert(self.walk_step(q, m - 1));
                    assert(pre.last() == q[m - 1]);
                    let u = q.last();
                    assert(self.has_edge(queue[x] as int, u));
                    assert(vis[u]);
                    assert(dist[u] <= dist[queue[x] as int] + 1);
                    assert(queue.contains(queue[x]));
                    assert(vis[queue[x] as int]);
                    assert(dist[queue[x] as int] <= pre.len() - 1);
                    let uu = u as usize;
                    assert(queue.contains(uu));
                    let y = choose|y: int| 0 <= y < queue.len() && queue[y] == uu;
                    if y >= h {
                        assert(dist[queue[h] as int] <= dist[queue[y] as int]);
                    }
                }
            }
        }
    }

    /// Follows predecessors from `g` back to `s`, giving the walk from `s` to `g`.
    fn walk_back(
        &self,
        s: usize,
        g: usize,
        par: &Vec<usize>,
        Ghost(vis): Ghost<Seq<bool>>,
        Ghost(dist): Ghost<Seq<int>>,
        Ghost(queue): Ghost<Seq<usize>>,
        Ghost(head): Ghost<int>,
    ) -> (r: Vec<usize>)
        requires
            self.bfs_ok(s as int, vis, par@, dist, queue, head),
            g < self.spec_nodes().len(),
            vis[g as int],
        ensures
            self.is_walk(r@.map_values(|x: usize| x as int)),
            r@.len() == dist[g as int] + 1,
            r@[0] == s,
            r@.last() == g,
    {
        let ghost n = self.spec_nodes().len();
        let mut back: Vec<usize> = Vec::new();
        back.push(g);
        let mut cur = g;
        while cur != s
            invariant
                self.bfs_ok(s as int, vis, par@, dist, queue, head),
                n == self.spec_nodes().len(),
                cur < n,
                vis[cur as int],
                back@.len() >= 1,
                back@.len() == dist[g as int] - dist[cur as int] + 1,
                back@[0] == g,
                back@.last() == cur,
                forall|k: int| 0 <= k < back@.len() ==> (#[trigger] back@[k]) < n,
                forall|k: int|
                    0 <= k < back@.len() - 1 ==> #[trigger] self.has_edge(back@[k + 1] as int, back@[k] as int),
            decreases dist[cur as int],
        {
            let ghost before = back@;
            let next = par[cur];
            proof {
                assert(vis[cur as int] && cur as int != s);
            }
            back.push(next);
            proof {
                assert(back@[0] == before[0]);
                assert forall|k: int|
                    0 <= k < back@.len() - 1 implies #[trigger] self.has_edge(back@[k + 1] as int, back@[k] as int) by {
                    if k < before.len() - 1 {
                        assert(back@[k] == before[k] && back@[k + 1] == before[k + 1]);
                    } else {
                        assert(back@[k] == cur);
                    }
                }
            }
            cur = next;
        }
        let len = back.len();
        let mut out: Vec<usize> = Vec::new();
        let mut k: usize = 0;
        while k < len
            invariant
                len == back@.len(),
                k <= len,
                out@.len() == k,
                forall|x: int| 0 <= x < k ==> #[trigger] out@[x] == back@[len - 1 - x],
            decreases len - k,
        {
            out.push(back[len - 1 - k]);
            k = k + 1;
        }
        proof {
            let p = out@.map_values(|x: usize| x as int);
            assert forall|x: int| 0 <= x < p.len() implies 0 <= #[trigger] p[x] < n by {
                assert(out@[x] == back@[len - 1 - x]);
            }
            assert forall|x: int| 0 <= x < p.len() - 1 implies #[trigger] self.walk_step(p, x) by {
                assert(out@[x] == back@[len - 1 - x]);
                assert(out@[x + 1] == back@[len - 1 - (x + 1)]);
                assert(self.has_edge(back@[(len - 1 - (x + 1)) + 1] as int, back@[len - 1 - (x + 1)] as int));
            }
            assert(out@[0] == back@[len - 1]);
            assert(out@.last() == back@[0]);
        }
        out
    }

    /// Breadth-first search from `s` for `g`: a shortest walk, or none when `g` is unreachable.
    fn bfs_path(&self, s: usize, g: usize) -> (r: Option<Vec<usize>>)
        requires
            s < self.spec_nodes().len(),
            g < self.spec_nodes().len(),
            s != g,
        ensures
            match r {
                Some(p) => self.is_shortest_walk(p@.map_values(|x: usize| x as int), s as int, g as int),
                None => !self.reachable(s as int, g as int),
            },
    {
        proof {
            use_type_invariant(self);
        }
        let n = self.nodes.len();
        let ghost es = self.edges@;
        proof {
            assert forall|v: int, w: int| #[trigger] self.has_edge(v, w) implies 0 <= v < n && 0 <= w < n by {
                let q = choose|q: int| #![trigger es[q]] 0 <= q < es.len() && es[q].source == v && es[q].target == w;
            }
        }
        let mut vis: Vec<bool> = Vec::new();
        let mut par: Vec<usize> = Vec::new();
        let mut k: usize = 0;
        while k < n
            invariant
                k <= n,
                vis@.len() == k,
                par@.len() == k,
                forall|t: int| 0 <= t < k ==> !(#[trigger] vis@[t]),
            decreases n - k,
        {
            vis.push(false);
            par.push(0);
            k = k + 1;
        }
        let ghost mut dist: Seq<int> = Seq::new(n as nat, |i: int| 0int);
        proof {
            lemma_count_true_none(vis@);
            lemma_count_true_set(vis@, s as int);
        }
        vis.set(s, true);
        let mut queue: Vec<usize> = Vec::new();
        queue.push(s);
        let mut head: usize = 0;
        proof {
            assert forall|t: usize| t < n implies (vis@[t as int] <==> #[trigger] queue@.contains(t)) by {
                if t == s {
                    assert(queue@[0] == s);
                }
            }
            assert forall|t: int| 0 <= t < n && #[trigger] vis@[t] && t != s implies false by {
            }
            assert forall|q: Seq<int>|
                #[trigger] self.is_walk(q) && q[0] == s && vis@[q.last()] implies q.len() - 1 >= dist[q.last()] by {
            }
            assert(self.bfs_ok(s as int, vis@, par@, dist, queue@, head as int));
        }
        while head < queue.len()
            invariant
                self.bfs_ok(s as int, vis@, par@, dist, queue@, head as int),
                n == self.spec_nodes().len(),
                g < n,
                s != g,
                !vis@[g as int],
            decreases n - head,
        {
            proof {
                lemma_count_true_bound(vis@);
            }
            let v = queue[head];
            let ns = self.out_positions(v);
            let mut m: usize = 0;
            while m < ns.len()
                invariant
                    self.bfs_ok(s as int, vis@, par@, dist, queue@, head as int),
                    n == self.spec_nodes().len(),
                    g < n,
                    s != g,
                    !vis@[g as int],
                    head < queue@.len(),
                    queue@[head as int] == v,
                    forall|t: usize| #[trigger] ns@.contains(t) <==> self.has_edge(v as int, t as int),
                    forall|x: int| 0 <= x < ns@.len() ==> (#[trigger] ns@[x]) < n,
                    m <= ns@.len(),
                    forall|x: int| 0 <= x < m ==> vis@[(#[trigger] ns@[x]) as int],
                decreases ns@.len() - m,
            {
                let w = ns[m];
                proof {
                    assert(ns@.contains(w));
                }
                if !vis[w] {
                    proof {
                        self.lemma_bfs_discover(s as int, vis@, par@, dist, queue@, head as int, w);
                        dist = dist.update(w as int, dist[v as int] + 1);
                    }
                    vis.set(w, true);
                    par.set(w, v);
                    queue.push(w);
                    if w == g {
                        let path = self.walk_back(s, g, &par, Ghost(vis@), Ghost(dist), Ghost(queue@), Ghost(head as int));
                        proof {
                            let p = path@.map_values(|x: usize| x as int);
                            assert forall|q: Seq<int>| #[trigger] self.is_walk(q) && q[0] == s && q.last() == g implies p.len() <= q.len() by {
                                assert(vis@[q.last()]);
                            }
                        }
                        return Some(path);
                    }
                }
                m = m + 1;
            }
            proof {
                assert forall|w: int| #[trigger] self.has_edge(queue@[head as int] as int, w) implies vis@[w] by {
                    let q = choose|q: int| #![trigger self.edges@[q]] 0 <= q < self.edges@.len() && self.edges@[q].source == v && self.edges@[q].target == w;
                    let wu = self.edges@[q].target;
                    assert(ns@.contains(wu));
                    let y = choose|y: int| 0 <= y < ns@.len() && ns@[y] == wu;
                }
                self.lemma_bfs_advance(s as int, vis@, par@, dist, queue@, head as int);
            }
            head = head + 1;
        }
        proof {
            if self.reachable(s as int, g as int) {
                let p = choose|p: Seq<int>| #[trigger] self.is_walk(p) && p[0] == s as int && p.last() == g as int;
                assert forall|v: int, w: int|
                    0 <= v < vis@.len() && vis@[v] && #[trigger] self.has_edge(v, w) implies 0 <= w
                        < vis@.len() && vis@[w] by {
                    let vu = v as usize;
                    assert(queue@.contains(vu));
                    let y = choose|y: int| 0 <= y < queue@.len() && queue@[y] == vu;
                    assert(self.has_edge(queue@[y] as int, w));
                }
                self.lemma_closed_walk(p, vis@);
            }
        }
        None
    }

    /// Whether a walk of at most `k` edges leads from node `u` to node `g`.
    pub open spec fn within(&self, u: int, g: int, k: int) -> bool {
        exists|q: Seq<int>| #[trigger] self.is_walk(q) && q[0] == u && q.last() == g && q.len() <= k + 1
    }

    /// A non-empty suffix of a walk is a walk.
    proof fn lemma_walk_skip(&self, p: Seq<int>, m: int)
        requires
            self.is_walk(p),
            0 <= m < p.len(),
        ensures
            self.is_walk(p.skip(m)),
            p.skip(m)[0] == p[m],
            p.skip(m).last() == p.last(),
    {
        let q = p.skip(m);
        assert forall|k: int| 0 <= k < q.len() - 1 implies #[trigger] self.walk_step(q, k) by {
            assert(self.walk_step(p, k + m));
            assert(q[k] == p[k + m] && q[k + 1] == p[k + 1 + m]);
        }
        assert forall|k: int| 0 <= k < q.len() implies 0 <= #[trigger] q[k] < self.spec_nodes().len() by {
            assert(q[k] == p[k + m]);
        }
    }

    /// A walk preceded by an edge into its first node is a walk.
    proof fn lemma_walk_prepend(&self, u: int, q: Seq<int>)
        requires
            self.is_walk(q),
            0 <= u < self.spec_nodes().len(),
            self.has_edge(u, q[0]),
        ensures
            self.is_walk(seq![u] + q),
            (seq![u] + q)[0] == u,
            (seq![u] + q).last() == q.last(),
    {
        let p = seq![u] + q;
        assert forall|k: int| 0 <= k < p.len() - 1 implies #[trigger] self.walk_step(p, k) by {
            if k > 0 {
                assert(self.walk_step(q, k - 1));
                assert(p[k] == q[k - 1] && p[k + 1] == q[k]);
            }
        }
        assert forall|k: int| 0 <= k < p.len() implies 0 <= #[trigger] p[k] < self.spec_nodes().len() by {
            if k > 0 {
                assert(p[k] == q[k - 1]);
            }
        }
    }

    /// Widens the set of nodes that reach `g` within `k` edges to those within `k + 1`.
    fn widen(&self, g: usize, prev: &Vec<bool>, Ghost(k): Ghost<int>) -> (r: Vec<bool>)
        requires
            0 <= k,
            g < self.spec_nodes().len(),
            prev@.len() == self.spec_nodes().len(),
            forall|u: int| 0 <= u < prev@.len() ==> (prev@[u] <==> #[trigger] self.within(u, g as int, k)),
        ensures
            r@.len() == self.spec_nodes().len(),
            forall|u: int| 0 <= u < r@.len() ==> (r@[u] <==> #[trigger] self.within(u, g as int, k + 1)),
    {
        proof {
            use_type_invariant(self);
        }
        let n = self.nodes.len();
        let mut out: Vec<bool> = Vec::new();
        let mut u: usize = 0;
        while u < n
            invariant
                n == self.spec_nodes().len(),
                prev@.len() == n,
                g < n,
                0 <= k,
                forall|t: int| 0 <= t < n ==> (prev@[t] <==> #[trigger] self.within(t, g as int, k)),
                u <= n,
                out@.len() == u,
                forall|t: int| 0 <= t < u ==> (out@[t] <==> #[trigger] self.within(t, g as int, k + 1)),
            decreases n - u,
        {
            let ns = self.out_positions(u);
            let mut found = prev[u];
            let mut m: usize = 0;
            while m < ns.len()
                invariant
                    n == self.spec_nodes().len(),
                    prev@.len() == n,
                    u < n,
                    forall|x: int| 0 <= x < ns@.len() ==> (#[trigger] ns@[x]) < n,
                    m <= ns@.len(),
                    found <==> (prev@[u as int] || exists|x: int| 0 <= x < m && prev@[(#[trigger] ns@[x]) as int]),
                decreases ns@.len() - m,
            {
                if prev[ns[m]] {
                    found = true;
                }
                m = m + 1;
            }
            proof {
                let ui = u as int;
                if found {
                    if prev@[ui] {
                        assert(self.within(ui, g as int, k));
                        let q = choose|q: Seq<int>| #[trigger] self.is_walk(q) && q[0] == ui && q.last() == g && q.len() <= k + 1;
                        assert(self.is_walk(q) && q[0] == ui && q.last() == g && q.len() <= k + 2);
                    } else {
                        let x = choose|x: int| 0 <= x < m && prev@[(#[trigger] ns@[x]) as int];
                        let w = ns@[x] as int;
                        assert(ns@.contains(ns@[x]));
                        assert(self.within(w, g as int, k));
                        let q = choose|q: Seq<int>| #[trigger] self.is_walk(q) && q[0] == w && q.last() == g && q.len() <= k + 1;
                        self.lemma_walk_prepend(ui, q);
                        let p = seq![ui] + q;
                        assert(self.is_walk(p) && p[0] == ui && p.last() == g && p.len() <= k + 2);
                    }
                    assert(self.within(ui, g as int, k + 1));
                } else {
                    if self.within(ui, g as int, k + 1) {
                        let q = choose|q: Seq<int>| #[trigger] self.is_walk(q) && q[0] == ui && q.last() == g && q.len() <= k + 2;
                        if q.len() <= k + 1 {
                            assert(self.within(ui, g as int, k));
                        } else {
                            let w = q[1];
                            assert(self.walk_step(q, 0));
                            self.lemma_walk_skip(q, 1);
                            let rest = q.skip(1);
                            assert(self.is_walk(rest) && rest[0] == w && rest.last() == g && rest.len() <= k + 1);
                            assert(self.within(w, g as int, k));
                            assert(0 <= w < n);
                            let wu = w as usize;
                            assert(self.has_edge(ui, wu as int));
                            assert(ns@.contains(wu));
                            let y = choose|y: int| 0 <= y < ns@.len() && ns@[y] == wu;
                            assert(prev@[(ns@[y]) as int]);
                        }
                    }
                }
            }
            out.push(found);
            u = u + 1;
        }
        out
    }

    /// For each `k` below `len`, the nodes from which a walk of at most `k` edges leads to `g`.
    fn reach_layers(&self, g: usize, len: usize) -> (r: Vec<Vec<bool>>)
        requires
            g < self.spec_nodes().len(),
        ensures
            r@.len() == len,
            forall|k: int| 0 <= k < len ==> (#[trigger] r@[k])@.len() == self.spec_nodes().len(),
            forall|k: int, u: int|
                0 <= k < len && 0 <= u < self.spec_nodes().len() ==> (#[trigger] r@[k]@[u] <==> self.within(
                    u,
                    g as int,
                    k,
                )),
    {
        proof {
            use_type_invariant(self);
        }
        let n = self.nodes.len();
        let mut cur: Vec<bool> = Vec::new();
        let mut u: usize = 0;
        while u < n
            invariant
                n == self.spec_nodes().len(),
                g < n,
                u <= n,
                cur@.len() == u,
                forall|t: int| 0 <= t < u ==> (cur@[t] <==> #[trigger] self.within(t, g as int, 0)),
            decreases n - u,
        {
            proof {
                let ui = u as int;
                if ui == g {
                    let q = seq![ui];
                    assert(self.is_walk(q));
                    assert(q[0] == ui && q.last() == g as int && q.len() <= 1);
                }
                if self.within(ui, g as int, 0) {
                    let q = choose|q: Seq<int>| #[trigger] self.is_walk(q) && q[0] == ui && q.last() == g && q.len() <= 1;
                    assert(q.last() == q[0]);
                }
            }
            cur.push(u == g);
            u = u + 1;
        }
        let mut out: Vec<Vec<bool>> = Vec::new();
        let mut k: usize = 0;
        while k < len
            invariant
                n == self.spec_nodes().len(),
                g < n,
                k <= len,
                out@.len() == k,
                cur@.len() == n,
                forall|t: int| 0 <= t < n ==> (cur@[t] <==> #[trigger] self.within(t, g as int, k as int)),
                forall|j: int| 0 <= j < k ==> (#[trigger] out@[j])@.len() == n,
                forall|j: int, t: int|
                    0 <= j < k && 0 <= t < n ==> (#[trigger] out@[j]@[t] <==> self.within(t, g as int, j)),
            decreases len - k,
        {
            let next = self.widen(g, &cur, Ghost(k as int));
            let ghost before = out@;
            out.push(cur);
            proof {
                assert forall|j: int, t: int|
                    0 <= j < k + 1 && 0 <= t < n implies (#[trigger] out@[j]@[t] <==> self.within(t, g as int, j)) by {
                    if j < k {
                        assert(out@[j] == before[j]);
                    }
                }
                assert forall|j: int| 0 <= j < k + 1 implies (#[trigger] out@[j])@.len() == n by {
                    if j < k {
                        assert(out@[j] == before[j]);
                    }
                }
            }
            cur = next;
            k = k + 1;
        }
        out
    }

    /// Whether position `j` of `p` holds the least successor of position `j - 1` from which `g`
    /// is reached within the `len - 1 - j` edges that remain.
    pub open spec fn least_step(&self, p: Seq<int>, g: int, len: int, j: int) -> bool {
        forall|u: int|
            0 <= u < self.spec_nodes().len() && #[trigger] self.has_edge(p[j - 1], u) && self.within(u, g, len - 1 - j)
                ==> p[j] <= u
    }

    /// Among the shortest walks from `s` to `g`, of which `ps` is one, the least in position order.
    fn least_shortest_walk(&self, s: usize, g: usize, ps: &Vec<usize>) -> (r: Vec<usize>)
        requires
            s < self.spec_nodes().len(),
            g < self.spec_nodes().len(),
            self.is_shortest_walk(ps@.map_values(|x: usize| x as int), s as int, g as int),
        ensures
            self.is_shortest_walk(r@.map_values(|x: usize| x as int), s as int, g as int),
            forall|q: Seq<int>|
                #[trigger] self.is_shortest_walk(q, s as int, g as int) ==> lex_le(
                    r@.map_values(|x: usize| x as int),
                    q,
                ),
    {
        let ghost n = self.spec_nodes().len();
        let ghost pw = ps@.map_values(|x: usize| x as int);
        let len = ps.len();
        let lay = self.reach_layers(g, len);
        let mut path: Vec<usize> = Vec::new();
        path.push(s);
        proof {
            let ip = path@.map_values(|x: usize| x as int);
            assert(self.is_walk(ip));
            assert(pw.len() <= len + 1 - 1 + 1);
            assert(self.is_walk(pw) && pw[0] == s && pw.last() == g && pw.len() <= (len - 1) + 1);
            assert(self.within(s as int, g as int, len - 1));
        }
        let mut cur = s;
        while path.len() < len
            invariant
                n == self.spec_nodes().len(),
                s < n,
                g < n,
                len == pw.len(),
                self.is_shortest_walk(pw, s as int, g as int),
                lay@.len() == len,
                forall|k: int| 0 <= k < len ==> (#[trigger] lay@[k])@.len() == n,
                forall|k: int, u: int|
                    0 <= k < len && 0 <= u < n ==> (#[trigger] lay@[k]@[u] <==> self.within(u, g as int, k)),
                1 <= path@.len() <= len,
                self.is_walk(path@.map_values(|x: usize| x as int)),
                path@[0] == s,
                cur == path@.last(),
                self.within(cur as int, g as int, len - path@.len()),
                forall|j: int|
                    1 <= j < path@.len() ==> #[trigger] self.least_step(
                        positions(path@),
                        g as int,
                        len as int,
                        j,
                    ),
            decreases len - path@.len(),
        {
            let ghost ip = positions(path@);
            let i = path.len();
            let k = len - 1 - i;
            proof {
                if cur == g {
                    assert(ip.last() == g);
                    assert(ip[0] == s);
                    assert(pw.len() <= ip.len());
                }
                let q = choose|q: Seq<int>| #[trigger] self.is_walk(q) && q[0] == cur && q.last() == g && q.len() <= len - i + 1;
                assert(q.len() >= 2);
                assert(self.walk_step(q, 0));
                self.lemma_walk_skip(q, 1);
                let rest = q.skip(1);
                assert(self.is_walk(rest) && rest[0] == q[1] && rest.last() == g && rest.len() <= k + 1);
                assert(self.within(q[1], g as int, k as int));
            }
            let layer = &lay[k];
            let ns = self.out_positions(cur);
            proof {
                let q = choose|q: Seq<int>| #[trigger] self.is_walk(q) && q[0] == cur && q.last() == g && q.len() <= len - i + 1;
                let w = q[1];
                assert(self.walk_step(q, 0));
                assert(0 <= w < n);
                let wu = w as usize;
                assert(ns@.contains(wu));
                let y = choose|y: int| 0 <= y < ns@.len() && ns@[y] == wu;
                self.lemma_walk_skip(q, 1);
                assert(q.skip(1)[0] == w);
                assert(self.within(w, g as int, k as int));
                assert(layer@[(ns@[y]) as int]);
            }
            let nlen = ns.len();
            let mut m: usize = 0;
            while !layer[ns[m]]
                invariant
                    nlen == ns@.len(),
                    n == self.spec_nodes().len(),
                    layer@.len() == n,
                    forall|x: int| 0 <= x < ns@.len() ==> (#[trigger] ns@[x]) < n,
                    m <= ns@.len(),
                    forall|x: int| 0 <= x < m ==> !layer@[(#[trigger] ns@[x]) as int],
                    exists|x: int| m <= x < ns@.len() && layer@[(#[trigger] ns@[x]) as int],
                decreases ns@.len() - m,
            {
                proof {
                    let x = choose|x: int| m <= x < ns@.len() && layer@[(#[trigger] ns@[x]) as int];
                    assert(x > m);
                }
                m = m + 1;
            }
            let next = ns[m];
            proof {
                assert(ns@.contains(next));
                assert(self.has_edge(cur as int, next as int));
            }
            let ghost before = path@;
            path.push(next);
            proof {
                let ip2 = positions(path@);
                assert(ip2 =~= ip.push(next as int));
                self.lemma_walk_push(ip, next as int);
                assert(self.within(next as int, g as int, len - path@.len()));
                assert forall|j: int| 1 <= j < path@.len() implies #[trigger] self.least_step(ip2, g as int, len as int, j) by {
                    if j < i {
                        assert(self.least_step(ip, g as int, len as int, j));
                        assert(ip2[j] == ip[j] && ip2[j - 1] == ip[j - 1]);
                    } else {
                        assert(ip2[j] == next && ip2[j - 1] == cur);
                        assert forall|u: int|
                            0 <= u < n && #[trigger] self.has_edge(ip2[j - 1], u) && self.within(u, g as int, len - 1 - j)
                                implies ip2[j] <= u by {
                            let uu = u as usize;
                            assert(ns@.contains(uu));
                            let y = choose|y: int| 0 <= y < ns@.len() && ns@[y] == uu;
                            assert(layer@[(ns@[y]) as int]);
                            if y < m {
                                assert(!layer@[(ns@[y]) as int]);
                            }
                            if y > m {
                                assert(ns@[m as int] < ns@[y]);
                            }
                        }
                    }
                }
            }
            cur = next;
        }
        proof {
            let ip = positions(path@);
            let q = choose|q: Seq<int>| #[trigger] self.is_walk(q) && q[0] == cur && q.last() == g && q.len() <= 1;
            assert(q.last() == q[0]);
            assert(ip.last() == g);
            assert forall|q: Seq<int>| #[trigger] self.is_walk(q) && q[0] == s && q.last() == g implies ip.len() <= q.len() by {
                assert(pw.len() <= q.len());
            }
            assert(self.is_shortest_walk(ip, s as int, g as int));
            assert forall|q: Seq<int>| #[trigger] self.is_shortest_walk(q, s as int, g as int) implies lex_le(ip, q) by {
                assert(q.len() <= ip.len());
                assert(pw.len() <= q.len());
                if !(ip =~= q) {
                    lemma_first_difference(ip, q);
                    let j = choose|j: int| 0 <= j < ip.len() && (forall|t: int| 0 <= t < j ==> ip[t] == q[t]) && #[trigger] ip[j] != q[j];
                    assert(j >= 1);
                    assert(self.walk_step(q, j - 1));
                    assert(ip[j - 1] == q[j - 1]);
                    self.lemma_walk_skip(q, j);
                    let rest = q.skip(j);
                    assert(self.is_walk(rest) && rest[0] == q[j] && rest.last() == g && rest.len() <= (len - 1 - j) + 1);
                    assert(self.within(q[j], g as int, len - 1 - j));
                    assert(self.least_step(ip, g as int, len as int, j));
                    assert(0 <= q[j] < n);
                    assert(ip[j] <= q[j]);
                    assert(lex_first_below(ip, q, j));
                }
            }
        }
        path
    }

    /// Finds a shortest directed path from `start` to `goal`, both endpoints included; none when
    /// either is not a node or `goal` cannot be reached. Of several shortest paths it gives the
    /// least in identifier order, compared position by position from `start` (node positions
    /// ascend with identifiers).
    pub fn shortest_path(&self, start: &DocumentId, goal: &DocumentId) -> (r: Option<Vec<DocumentId>>)
        ensures
            strictly_sorted(self.spec_nodes()),
            match r {
                Some(path) => exists|p: Seq<int>|
                    #[trigger] self.is_shortest_walk(p, p[0], p.last()) && self.spec_nodes()[p[0]]
                        == start@ && self.spec_nodes()[p.last()] == goal@ && id_views(path@)
                        == p.map_values(|k: int| self.spec_nodes()[k]) && (forall|q: Seq<int>|
                        #[trigger] self.is_shortest_walk(q, p[0], p.last()) ==> lex_le(p, q)),
                None => !exists|i: int, j: int|
                    0 <= i < self.spec_nodes().len() && 0 <= j < self.spec_nodes().len()
                        && self.spec_nodes()[i] == start@ && self.spec_nodes()[j] == goal@
                        && #[trigger] self.reachable(i, j),
            },
    {
        proof {
            use_type_invariant(self);
        }
        let ghost nv = self.spec_nodes();
        let si = self.index_of(start.as_str());
        let gi = self.index_of(goal.as_str());
        let (s, g) = match (si, gi) {
            (Some(s), Some(g)) => (s, g),
            _ => {
                return None;
            },
        };
        proof {
            assert forall|a: int, b: int|
                0 <= a < nv.len() && 0 <= b < nv.len() && nv[a] == start@ && nv[b] == goal@ implies a
                    == s && b == g by {
                if a != s {
                    if a < s {
                        assert(text_lt(nv[a], nv[s as int]));
                    } else {
                        assert(text_lt(nv[s as int], nv[a]));
                    }
                    crate::text::lemma_text_lt_irreflexive(start@);
                }
                if b != g {
                    if b < g {
                        assert(text_lt(nv[b], nv[g as int]));
                    } else {
                        assert(text_lt(nv[g as int], nv[b]));
                    }
                    crate::text::lemma_text_lt_irreflexive(goal@);
                }
            }
        }
        if s == g {
            let mut path: Vec<DocumentId> = Vec::new();
            path.push(self.nodes[s].copy());
            proof {
                let p = seq![s as int];
                assert(self.is_walk(p));
                assert(self.is_shortest_walk(p, p[0], p.last()));
                assert(id_views(path@) =~= p.map_values(|k: int| nv[k]));
                assert forall|q: Seq<int>| #[trigger] self.is_shortest_walk(q, p[0], p.last()) implies lex_le(p, q) by {
                    assert(self.is_walk(p) && p[0] == s && p.last() == s);
                    assert(q.len() <= 1);
                    assert(q =~= p);
                }
            }
            return Some(path);
        }
        match self.bfs_path(s, g) {
            None => None,
            Some(found) => {
                let ps = self.least_shortest_walk(s, g, &found);
                let ghost p = ps@.map_values(|x: usize| x as int);
                let mut path: Vec<DocumentId> = Vec::new();
                let mut k: usize = 0;
                while k < ps.len()
                    invariant
                        p == ps@.map_values(|x: usize| x as int),
                        self.is_walk(p),
                        nv == self.spec_nodes(),
                        nv.len() == self.nodes@.len(),
                        k <= ps@.len(),
                        path@.len() == k,
                        forall|x: int| 0 <= x < k ==> (#[trigger] path@[x])@ == nv[p[x]],
                    decreases ps@.len() - k,
                {
                    proof {
                        assert(0 <= p[k as int] < nv.len());
                    }
                    path.push(self.nodes[ps[k]].copy());
                    k = k + 1;
                }
                proof {
                    assert(id_views(path@) =~= p.map_values(|k: int| nv[k]));
                }
                Some(path)
            },
        }
    }
}

/// Node positions held in a `usize` sequence, as integers.
pub open spec fn positions(s: Seq<usize>) -> Seq<int> {
    s.map_values(|x: usize| x as int)
}

/// Whether `j` is the first position at which `p` and `q` differ, and `p` holds the smaller
/// value there.
pub open spec fn lex_first_below(p: Seq<int>, q: Seq<int>, j: int) -> bool {
    &&& 0 <= j < p.len()
    &&& j < q.len()
    &&& forall|k: int| 0 <= k < j ==> p[k] == q[k]
    &&& p[j] < q[j]
}

/// Lexicographic order on sequences of positions: `p` equals `q` or is smaller at the first
/// position where they differ.
pub open spec fn lex_le(p: Seq<int>, q: Seq<int>) -> bool {
    p == q || exists|j: int| #[trigger] lex_first_below(p, q, j)
}

/// Two different sequences of one length differ first at some position.
proof fn lemma_first_difference(p: Seq<int>, q: Seq<int>)
    requires
        p.len() == q.len(),
        !(p =~= q),
    ensures
        exists|j: int| 0 <= j < p.len() && (forall|t: int| 0 <= t < j ==> p[t] == q[t]) && #[trigger] p[j] != q[j],
{
    let k = choose|k: int| 0 <= k < p.len() && p[k] != q[k];
    lemma_difference_at_or_before(p, q, k);
}

/// A difference at `k` implies a first difference at `k` or before.
proof fn lemma_difference_at_or_before(p: Seq<int>, q: Seq<int>, k: int)
    requires
        p.len() == q.len(),
        0 <= k < p.len(),
        p[k] != q[k],
    ensures
        exists|j: int| 0 <= j < p.len() && (forall|t: int| 0 <= t < j ==> p[t] == q[t]) && #[trigger] p[j] != q[j],
    decreases k,
{
    if forall|t: int| 0 <= t < k ==> p[t] == q[t] {
        assert(p[k] != q[k]);
    } else {
        let t = choose|t: int| 0 <= t < k && p[t] != q[t];
        lemma_difference_at_or_before(p, q, t);
    }
}

impl Default for KnowledgeGraph {
    fn default() -> (r: KnowledgeGraph)
        ensures
            r.spec_nodes().len() == 0,
            r.edge_pairs().len() == 0,
    {
        let r = KnowledgeGraph { nodes: Vec::new(), edges: Vec::new() };
        proof {
            assert(r.edge_pairs() =~= Set::<(int, int)>::empty());
        }
        r
    }
}

} // verus!
