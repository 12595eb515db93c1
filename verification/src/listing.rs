//! Direct children of a logical path, collected from storage keys: each child is a directory when
//! some key shows it has children of its own, and content otherwise.

use vstd::prelude::*;

use crate::library::{path_ok, uri_path, KnowledgeNode, KnowledgeNodeKind, KnowledgeUri, LibraryError, LibraryId, LibraryResult};
use crate::text::{compare_text, lemma_text_lt_irreflexive, lemma_text_lt_transitive, strictly_sorted, text_eq, text_lt, Order};

verus! {

/// Views of collected children: each logical path with whether it is a directory.
pub open spec fn child_views(v: Seq<(String, bool)>) -> Seq<(Seq<char>, bool)> {
    v.map_values(|p: (String, bool)| (p.0@, p.1))
}

/// The logical paths of collected children, in order.
pub open spec fn child_names(v: Seq<(Seq<char>, bool)>) -> Seq<Seq<char>> {
    v.map_values(|p: (Seq<char>, bool)| p.0)
}

/// Whether `k` has been collected.
pub open spec fn has_child(v: Seq<(Seq<char>, bool)>, k: Seq<char>) -> bool {
    exists|j: int| 0 <= j < v.len() && (#[trigger] v[j]).0 == k
}

/// Whether `k` has been collected as a directory.
pub open spec fn has_dir(v: Seq<(Seq<char>, bool)>, k: Seq<char>) -> bool {
    exists|j: int| 0 <= j < v.len() && (#[trigger] v[j]).0 == k && v[j].1
}

/// Records child `name`; `dir` marks it as a directory. A child once marked a directory stays
/// one.
pub fn mark_child(children: &mut Vec<(String, bool)>, name: String, dir: bool)
    requires
        strictly_sorted(child_names(child_views(old(children)@))),
    ensures
        strictly_sorted(child_names(child_views(final(children)@))),
        forall|k: Seq<char>| #[trigger] has_child(child_views(final(children)@), k) == (has_child(
            child_views(old(children)@),
            k,
        ) || k == name@),
        forall|k: Seq<char>| #[trigger] has_dir(child_views(final(children)@), k) == (has_dir(
            child_views(old(children)@),
            k,
        ) || (dir && k == name@)),
{
    let ghost old_v = child_views(children@);
    let ghost old_k = child_names(old_v);
    let ghost n = name@;
    let mut i: usize = 0;
    while i < children.len()
        invariant
            i <= children@.len(),
            old_v == child_views(children@),
            old_k == child_names(old_v),
            old_k.len() == children@.len(),
            n == name@,
            forall|j: int| 0 <= j < i ==> text_lt(#[trigger] old_k[j], n),
        ensures
            i <= old_k.len(),
            forall|j: int| 0 <= j < i ==> text_lt(#[trigger] old_k[j], n),
            i < old_k.len() ==> !text_lt(old_k[i as int], n),
        decreases children@.len() - i,
    {
        let o = compare_text(children[i].0.as_str(), name.as_str());
        match o {
            Order::Less => {
                assert(old_k[i as int] == children@[i as int].0@);
                i = i + 1;
            },
            _ => {
                assert(old_k[i as int] == children@[i as int].0@);
                proof {
                    if text_lt(old_k[i as int], n) {
                        crate::text::lemma_text_lt_asymmetric(old_k[i as int], n);
                    }
                }
                break ;
            },
        }
    }
    let ghost pos = i as int;
    proof {
        lemma_text_lt_irreflexive(n);
        assert forall|j: int| 0 <= j < pos implies old_v[j].0 != n by {
            assert(old_k[j] == old_v[j].0);
        }
    }
    if i < children.len() && text_eq(children[i].0.as_str(), name.as_str()) {
        if dir {
            let mut tmp: Vec<(String, bool)> = Vec::new();
            std::mem::swap(&mut tmp, children);
            tmp.set(i, (name, true));
            proof {
                let nv = child_views(tmp@);
                assert(nv =~= old_v.update(pos, (n, true)));
                assert(child_names(nv) =~= old_k);
                assert forall|k: Seq<char>| #[trigger] has_child(nv, k) == (has_child(old_v, k) || k == n) by {
                    if has_child(old_v, k) {
                        let j = choose|j: int| 0 <= j < old_v.len() && (#[trigger] old_v[j]).0 == k;
                        assert(nv[j].0 == k);
                    }
                    if has_child(nv, k) {
                        let j = choose|j: int| 0 <= j < nv.len() && (#[trigger] nv[j]).0 == k;
                        assert(old_v[j].0 == k);
                    }
                    if k == n {
                        assert(nv[pos].0 == k);
                    }
                }
                assert forall|k: Seq<char>| #[trigger] has_dir(nv, k) == (has_dir(old_v, k) || k == n) by {
                    if has_dir(old_v, k) {
                        let j = choose|j: int| 0 <= j < old_v.len() && (#[trigger] old_v[j]).0 == k && old_v[j].1;
                        assert(nv[j].0 == k && nv[j].1);
                    }
                    if has_dir(nv, k) {
                        let j = choose|j: int| 0 <= j < nv.len() && (#[trigger] nv[j]).0 == k && nv[j].1;
                        if j != pos {
                            assert(old_v[j].0 == k && old_v[j].1);
                        }
                    }
                    if k == n {
                        assert(nv[pos].0 == k && nv[pos].1);
                    }
                }
            }
            *children = tmp;
        } else {
            proof {
                assert(old_v[pos].0 == n);
                assert forall|k: Seq<char>| #[trigger] has_child(old_v, k) == (has_child(old_v, k) || k == n) by {
                    if k == n {
                        assert(old_v[pos].0 == k);
                    }
                }
            }
        }
    } else {
        let mut tmp: Vec<(String, bool)> = Vec::new();
        std::mem::swap(&mut tmp, children);
        tmp.insert(i, (name, dir));
        proof {
            let nv = child_views(tmp@);
            assert(nv =~= old_v.insert(pos, (n, dir)));
            assert(pos < old_v.len() ==> old_v[pos].0 != n);
            let nk = child_names(nv);
            assert(nk =~= old_k.insert(pos, n));
            if pos < old_k.len() {
                crate::text::lemma_text_lt_total(old_k[pos], n);
                assert(text_lt(n, old_k[pos]));
            }
            assert forall|a: int, b: int| 0 <= a < b < nk.len() implies text_lt(
                #[trigger] nk[a],
                #[trigger] nk[b],
            ) by {
                if b < pos {
                } else if a < pos && b == pos {
                } else if a < pos && b > pos {
                    assert(nk[a] == old_k[a]);
                    assert(nk[b] == old_k[b - 1]);
                } else if a == pos {
                    assert(nk[b] == old_k[b - 1]);
                    if b - 1 > pos {
                        lemma_text_lt_transitive(n, old_k[pos], old_k[b - 1]);
                    }
                } else {
                    assert(nk[a] == old_k[a - 1]);
                    assert(nk[b] == old_k[b - 1]);
                }
            }
            assert forall|k: Seq<char>| #[trigger] has_child(nv, k) == (has_child(old_v, k) || k == n) by {
                if has_child(old_v, k) {
                    let j = choose|j: int| 0 <= j < old_v.len() && (#[trigger] old_v[j]).0 == k;
                    if j < pos {
                        assert(nv[j].0 == k);
                    } else {
                        assert(nv[j + 1].0 == k);
                    }
                }
                if has_child(nv, k) {
                    let j = choose|j: int| 0 <= j < nv.len() && (#[trigger] nv[j]).0 == k;
                    if j < pos {
                        assert(old_v[j].0 == k);
                    } else if j > pos {
                        assert(old_v[j - 1].0 == k);
                    }
                }
                if k == n {
                    assert(nv[pos].0 == k);
                }
            }
            assert forall|k: Seq<char>| #[trigger] has_dir(nv, k) == (has_dir(old_v, k) || (dir && k == n)) by {
                if has_dir(old_v, k) {
                    let j = choose|j: int| 0 <= j < old_v.len() && (#[trigger] old_v[j]).0 == k && old_v[j].1;
                    if j < pos {
                        assert(nv[j].0 == k && nv[j].1);
                    } else {
                        assert(nv[j + 1].0 == k && nv[j + 1].1);
                    }
                }
                if has_dir(nv, k) {
                    let j = choose|j: int| 0 <= j < nv.len() && (#[trigger] nv[j]).0 == k && nv[j].1;
                    if j < pos {
                        assert(old_v[j].0 == k && old_v[j].1);
                    } else if j > pos {
                        assert(old_v[j - 1].0 == k && old_v[j - 1].1);
                    }
                }
                if dir && k == n {
                    assert(nv[pos].0 == k && nv[pos].1);
                }
            }
        }
        *children = tmp;
    }
}

/// `n` is the virtual, untitled node in `library` for collected child `c`.
pub open spec fn child_node(n: KnowledgeNode, library: Seq<char>, c: (Seq<char>, bool)) -> bool {
    &&& n.uri.spec_library() == library
    &&& n.uri.spec_path() == uri_path(c.0)
    &&& n.kind == (if c.1 {
        KnowledgeNodeKind::Directory
    } else {
        KnowledgeNodeKind::Content
    })
    &&& n.title is None
    &&& n.virtual_node
}

/// The nodes for collected children, in order; the first child whose path is not acceptable
/// decides the error.
pub open spec fn child_nodes(
    library: Seq<char>,
    c: Seq<(Seq<char>, bool)>,
    r: LibraryResult<Vec<KnowledgeNode>>,
) -> bool {
    &&& (forall|k: int| 0 <= k < c.len() ==> path_ok(uri_path(#[trigger] c[k].0))) ==> (r matches Ok(
        nodes,
    ) && nodes@.len() == c.len() && forall|k: int|
        0 <= k < c.len() ==> child_node(#[trigger] nodes@[k], library, c[k]))
    &&& !(forall|k: int| 0 <= k < c.len() ==> path_ok(uri_path(#[trigger] c[k].0))) ==> (r matches Err(
        LibraryError::InvalidUri(s),
    ) && exists|k: int|
        0 <= k < c.len() && !path_ok(uri_path(#[trigger] c[k].0)) && s@ == uri_path(c[k].0) && forall|
            j: int,
        | 0 <= j < k ==> path_ok(uri_path(#[trigger] c[j].0)))
}

/// Turns collected children into virtual nodes of `library`.
pub fn nodes_from_children(library: &LibraryId, children: &Vec<(String, bool)>) -> (r: LibraryResult<
    Vec<KnowledgeNode>,
>)
    ensures
        child_nodes(library@, child_views(children@), r),
{
    let ghost c = child_views(children@);
    let mut nodes: Vec<KnowledgeNode> = Vec::new();
    let mut k: usize = 0;
    while k < children.len()
        invariant
            k <= children@.len(),
            c == child_views(children@),
            c.len() == children@.len(),
            nodes@.len() == k,
            forall|j: int| 0 <= j < k ==> path_ok(uri_path(#[trigger] c[j].0)),
            forall|j: int| 0 <= j < k ==> child_node(#[trigger] nodes@[j], library@, c[j]),
        decreases children@.len() - k,
    {
        assert(c[k as int] == (children@[k as int].0@, children@[k as int].1));
        let uri = match KnowledgeUri::new(library.copy(), children[k].0.as_str()) {
            Ok(u) => u,
            Err(e) => {
                assert(!path_ok(uri_path(c[k as int].0)));
                return Err(e);
            },
        };
        let kind = if children[k].1 {
            KnowledgeNodeKind::Directory
        } else {
            KnowledgeNodeKind::Content
        };
        nodes.push(KnowledgeNode { uri, kind, title: None, virtual_node: true });
        k = k + 1;
    }
    Ok(nodes)
}

} // verus!
