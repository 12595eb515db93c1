//! Key-value entries kept in ascending key order, the portable form of provenance, metadata and
//! environment maps.

use vstd::prelude::*;

use crate::text::{compare_text, lemma_text_lt_irreflexive, lemma_text_lt_transitive, text_lt, strictly_sorted, Order};

verus! {

/// Views of key-value pairs.
pub open spec fn pair_views(v: Seq<(String, String)>) -> Seq<(Seq<char>, Seq<char>)> {
    v.map_values(|p: (String, String)| (p.0@, p.1@))
}

/// The keys of viewed entries, in order.
pub open spec fn keys_of(v: Seq<(Seq<char>, Seq<char>)>) -> Seq<Seq<char>> {
    v.map_values(|p: (Seq<char>, Seq<char>)| p.0)
}

/// `i` is where `k` belongs: every key before it sorts before `k`, and the key at `i` (if any)
/// does not.
pub open spec fn insertion_point(keys: Seq<Seq<char>>, k: Seq<char>, i: int) -> bool {
    &&& 0 <= i <= keys.len()
    &&& forall|j: int| 0 <= j < i ==> text_lt(#[trigger] keys[j], k)
    &&& i < keys.len() ==> !text_lt(keys[i], k)
}

/// `new` is `old` with `k` mapped to `v`: the entry for `k` at its place is replaced, or a new
/// entry is inserted there.
pub open spec fn entry_written(
    old: Seq<(Seq<char>, Seq<char>)>,
    k: Seq<char>,
    v: Seq<char>,
    new: Seq<(Seq<char>, Seq<char>)>,
) -> bool {
    exists|i: int|
        #[trigger] insertion_point(keys_of(old), k, i) && if i < old.len() && old[i].0 == k {
            new == old.update(i, (k, v))
        } else {
            new == old.insert(i, (k, v))
        }
}

/// Maps `key` to `value` in entries kept in ascending key order: an existing entry for the key
/// has its value replaced, otherwise a new entry is inserted where the key belongs.
pub fn set_entry(entries: &mut Vec<(String, String)>, key: String, value: String)
    ensures
        entry_written(pair_views(old(entries)@), key@, value@, pair_views(final(entries)@)),
        strictly_sorted(keys_of(pair_views(old(entries)@))) ==> strictly_sorted(
            keys_of(pair_views(final(entries)@)),
        ),
{
    let ghost old_v = pair_views(entries@);
    let ghost old_k = keys_of(old_v);
    let ghost k = key@;
    let ghost v = value@;
    let mut i: usize = 0;
    while i < entries.len()
        invariant
            i <= entries@.len(),
            old_v == pair_views(entries@),
            old_k == keys_of(old_v),
            old_k.len() == entries@.len(),
            k == key@,
            forall|j: int| 0 <= j < i ==> text_lt(#[trigger] old_k[j], k),
        ensures
            i <= old_k.len(),
            forall|j: int| 0 <= j < i ==> text_lt(#[trigger] old_k[j], k),
            i < old_k.len() ==> !text_lt(old_k[i as int], k),
        decreases entries@.len() - i,
    {
        let o = compare_text(entries[i].0.as_str(), key.as_str());
        match o {
            Order::Less => {
                assert(old_k[i as int] == entries@[i as int].0@);
                i = i + 1;
            },
            _ => {
                assert(old_k[i as int] == entries@[i as int].0@);
                proof {
                    lemma_text_lt_irreflexive(k);
                    if text_lt(old_k[i as int], k) {
                        crate::text::lemma_text_lt_asymmetric(old_k[i as int], k);
                    }
                }
                break ;
            },
        }
    }
    assert(insertion_point(old_k, k, i as int));
    if i < entries.len() && crate::text::text_eq(entries[i].0.as_str(), key.as_str()) {
        let ghost pos = i as int;
        let mut tmp: Vec<(String, String)> = Vec::new();
        std::mem::swap(&mut tmp, entries);
        tmp.set(i, (key, value));
        proof {
            assert(pair_views(tmp@) =~= old_v.update(pos, (k, v)));
            assert(old_v[pos].0 == k);
            assert(keys_of(pair_views(tmp@)) =~= old_k);
        }
        *entries = tmp;
    } else {
        let ghost pos = i as int;
        let mut tmp: Vec<(String, String)> = Vec::new();
        std::mem::swap(&mut tmp, entries);
        tmp.insert(i, (key, value));
        proof {
            let nv = pair_views(tmp@);
            assert(nv =~= old_v.insert(pos, (k, v)));
            assert(pos < old_v.len() ==> old_v[pos].0 != k);
            let nk = keys_of(nv);
            assert(nk =~= old_k.insert(pos, k));
            if strictly_sorted(old_k) {
                if pos < old_k.len() {
                    crate::text::lemma_text_lt_total(old_k[pos], k);
                    assert(text_lt(k, old_k[pos]));
                }
                assert forall|a: int, b: int| 0 <= a < b < nk.len() implies text_lt(
                    #[trigger] nk[a],
                    #[trigger] nk[b],
                ) by {
                    if b < pos {
                    } else if a < pos && b == pos {
                    } else if a < pos && b > pos {
                        assert(nk[a] == old_k[a]);
                        assert(nk[b] == old_k[b - 1]);
                    } else if a == pos {
                        assert(nk[b] == old_k[b - 1]);
                        if b - 1 > pos {
                            lemma_text_lt_transitive(k, old_k[pos], old_k[b - 1]);
                        }
                    } else {
                        assert(nk[a] == old_k[a - 1]);
                        assert(nk[b] == old_k[b - 1]);
                    }
                }
            }
        }
        *entries = tmp;
    }
}

/// Writing a key twice is writing it once with the later value: a later value for the same key
/// replaces the earlier one, wherever the key stands.
pub proof fn lemma_entry_rewrite(
    old: Seq<(Seq<char>, Seq<char>)>,
    k: Seq<char>,
    v1: Seq<char>,
    mid: Seq<(Seq<char>, Seq<char>)>,
    v2: Seq<char>,
    new: Seq<(Seq<char>, Seq<char>)>,
)
    requires
        entry_written(old, k, v1, mid),
        entry_written(mid, k, v2, new),
    ensures
        entry_written(old, k, v2, new),
{
    let i = choose|i: int|
        #[trigger] insertion_point(keys_of(old), k, i) && if i < old.len() && old[i].0 == k {
            mid == old.update(i, (k, v1))
        } else {
            mid == old.insert(i, (k, v1))
        };
    let j = choose|j: int|
        #[trigger] insertion_point(keys_of(mid), k, j) && if j < mid.len() && mid[j].0 == k {
            new == mid.update(j, (k, v2))
        } else {
            new == mid.insert(j, (k, v2))
        };
    lemma_text_lt_irreflexive(k);
    assert(mid[i].0 == k);
    assert(keys_of(mid)[i] == k);
    assert forall|x: int| 0 <= x < i implies keys_of(mid)[x] == keys_of(old)[x] by {
        assert(mid[x] == old[x]);
    }
    if j < i {
        assert(keys_of(old)[j] == keys_of(mid)[j]);
        assert(text_lt(keys_of(old)[j], k));
    } else if j > i {
        assert(text_lt(keys_of(mid)[i], k));
    }
    assert(j == i);
    if i < old.len() && old[i].0 == k {
        assert(new =~= old.update(i, (k, v2)));
    } else {
        assert(new =~= old.insert(i, (k, v2)));
    }
    assert(insertion_point(keys_of(old), k, i));
}

} // verus!
