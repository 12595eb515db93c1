//! Extensible document metadata and directed references.

use vstd::prelude::*;

use crate::text::{owned, text_eq, compare_text, Order, text_lt, lemma_text_lt_irreflexive, lemma_text_lt_transitive, strictly_sorted, views};
use crate::yaml::YamlNode;
use super::document::DocumentId;

verus! {

/// A deterministic set of texts kept in ascending order without duplicates.
#[derive(Debug, PartialEq, Eq, Hash)]
pub struct TextSet {
    items: Vec<String>,
}

impl View for TextSet {
    type V = Seq<Seq<char>>;

    /// The members in ascending order.
    closed spec fn view(&self) -> Seq<Seq<char>> {
        views(self.items@)
    }
}

impl TextSet {
    #[verifier::type_invariant]
    spec fn sorted(self) -> bool {
        strictly_sorted(views(self.items@))
    }

    /// Creates an empty set.
    pub fn new() -> (r: TextSet)
        ensures
            r@ == Seq::<Seq<char>>::empty(),
    {
        let r = TextSet { items: Vec::new() };
        assert(views(r.items@) =~= Seq::<Seq<char>>::empty());
        r
    }

    /// Number of members.
    pub fn len(&self) -> (r: usize)
        ensures
            r == self@.len(),
            strictly_sorted(self@),
    {
        proof {
            use_type_invariant(self);
        }
        self.items.len()
    }

    /// Whether the set is empty.
    pub fn is_empty(&self) -> (r: bool)
        ensures
            r == (self@.len() == 0),
    {
        self.items.len() == 0
    }

    /// The `i`-th member in ascending order.
    pub fn get(&self, i: usize) -> (r: &String)
        requires
            i < self@.len(),
        ensures
            r@ == self@[i as int],
    {
        &self.items[i]
    }

    /// Whether `value` is a member.
    pub fn contains(&self, value: &str) -> (r: bool)
        ensures
            r == self@.contains(value@),
    {
        let mut i: usize = 0;
        while i < self.items.len()
            invariant
                i <= self.items@.len(),
                views(self.items@).len() == self.items@.len(),
                forall|j: int| 0 <= j < i ==> views(self.items@)[j] != value@,
            decreases self.items@.len() - i,
        {
            if text_eq(self.items[i].as_str(), value) {
                assert(views(self.items@)[i as int] == value@);
                return true;
            }
            i = i + 1;
        }
        false
    }

    /// Inserts `value`; returns whether it was newly added.
    pub fn insert(&mut self, value: String) -> (r: bool)
        ensures
            r == !old(self)@.contains(value@),
            final(self)@.to_set() == old(self)@.to_set().insert(value@),
            r ==> final(self)@.len() == old(self)@.len() + 1,
            !r ==> final(self)@ == old(self)@,
    {
        proof {
            use_type_invariant(&*self);
        }
        let ghost old_items = views(self.items@);
        let mut i: usize = 0;
        while i < self.items.len()
            invariant
                i <= self.items@.len(),
                old_items == views(self.items@),
                old_items.len() == self.items@.len(),
                strictly_sorted(old_items),
                forall|j: int| 0 <= j < i ==> text_lt(#[trigger] old_items[j], value@),
            ensures
                i <= old_items.len(),
                forall|j: int| 0 <= j < i ==> text_lt(#[trigger] old_items[j], value@),
                i < old_items.len() ==> text_lt(value@, old_items[i as int]),
            decreases self.items@.len() - i,
        {
            let o = compare_text(self.items[i].as_str(), value.as_str());
            match o {
                Order::Less => {
                    i = i + 1;
                },
                Order::Equal => {
                    assert(old_items[i as int] == value@);
                    assert(old_items.contains(value@));
                    return false;
                },
                Order::Greater => {
                    break ;
                },
            }
        }
        proof {
            assert forall|j: int| 0 <= j < old_items.len() implies old_items[j] != value@ by {
                if j < i {
                    lemma_text_lt_irreflexive(value@);
                } else {
                    if i < old_items.len() {
                        if j > i {
                            lemma_text_lt_transitive(value@, old_items[i as int], old_items[j]);
                        }
                        lemma_text_lt_irreflexive(value@);
                    }
                }
            }
        }
        let ghost v = value@;
        let mut items: Vec<String> = Vec::new();
        std::mem::swap(&mut items, &mut self.items);
        items.insert(i, value);
        proof {
            let new_items = views(items@);
            assert(new_items =~= old_items.insert(i as int, v));
            assert forall|a: int, b: int| 0 <= a < b < new_items.len() implies text_lt(
                #[trigger] new_items[a],
                #[trigger] new_items[b],
            ) by {
                if b < i {
                } else if a < i && b == i {
                } else if a < i && b > i {
                    assert(new_items[a] == old_items[a]);
                    assert(new_items[b] == old_items[b - 1]);
                } else if a == i {
                    assert(new_items[b] == old_items[b - 1]);
                    if b - 1 > i {
                        lemma_text_lt_transitive(v, old_items[i as int], old_items[b - 1]);
                    }
                } else {
                    assert(new_items[a] == old_items[a - 1]);
                    assert(new_items[b] == old_items[b - 1]);
                }
            }
            assert(new_items.to_set() =~= old_items.to_set().insert(v)) by {
                assert forall|x: Seq<char>| new_items.to_set().contains(x) implies old_items.to_set().insert(v).contains(x) by {
                    let k = choose|k: int| 0 <= k < new_items.len() && new_items[k] == x;
                    if k < i {
                        assert(old_items[k] == x);
                    } else if k > i {
                        assert(old_items[k - 1] == x);
                    }
                }
                assert forall|x: Seq<char>| old_items.to_set().insert(v).contains(x) implies new_items.to_set().contains(x) by {
                    if x == v {
                        assert(new_items[i as int] == v);
                    } else {
                        let k = choose|k: int| 0 <= k < old_items.len() && old_items[k] == x;
                        if k < i {
                            assert(new_items[k] == x);
                        } else {
                            assert(new_items[k + 1] == x);
                        }
                    }
                }
            }
        }
        self.items = items;
        true
    }
}

impl TextSet {
    /// The set of texts already in strictly ascending order.
    pub fn from_sorted(items: Vec<String>) -> (r: TextSet)
        requires
            strictly_sorted(views(items@)),
        ensures
            r@ == views(items@),
    {
        TextSet { items }
    }

    /// The members in ascending order, as owned strings.
    pub fn to_vec(&self) -> (r: Vec<String>)
        ensures
            views(r@) == self@,
            strictly_sorted(views(r@)),
    {
        proof {
            use_type_invariant(self);
        }
        let items = self.items.clone();
        assert(items@ =~= self.items@);
        items
    }
}

impl Clone for TextSet {
    fn clone(&self) -> (r: TextSet)
        ensures
            r@ == self@,
    {
        proof {
            use_type_invariant(self);
        }
        let items = self.items.clone();
        assert(items@ =~= self.items@);
        TextSet { items }
    }
}

/// A directed relation from one document to another.
#[derive(Clone, Debug)]
pub struct Reference {
    target: DocumentId,
    relation: String,
}

impl Reference {
    /// Target identifier or alias view.
    pub closed spec fn spec_target(&self) -> Seq<char> {
        self.target@
    }

    /// Relation name view.
    pub closed spec fn spec_relation(&self) -> Seq<char> {
        self.relation@
    }

    /// Creates a reference with the supplied relation name.
    pub fn new(target: DocumentId, relation: &str) -> (r: Reference)
        ensures
            r.spec_target() == target@,
            r.spec_relation() == relation@,
    {
        Reference { target, relation: owned(relation) }
    }

    /// Creates a `related` reference.
    pub fn related(target: DocumentId) -> (r: Reference)
        ensures
            r.spec_target() == target@,
            r.spec_relation() == "related"@,
    {
        Self::new(target, "related")
    }

    /// Returns the referenced identifier or alias.
    pub fn target(&self) -> (r: &DocumentId)
        ensures
            r@ == self.spec_target(),
    {
        &self.target
    }

    /// Returns the relation name.
    pub fn relation(&self) -> (r: &str)
        ensures
            r@ == self.spec_relation(),
    {
        self.relation.as_str()
    }

    /// Copies the reference.
    pub fn copy(&self) -> (r: Reference)
        ensures
            r.spec_target() == self.spec_target(),
            r.spec_relation() == self.spec_relation(),
    {
        Reference { target: self.target.copy(), relation: self.relation.clone() }
    }
}

/// Extensible metadata attached to a document.
#[derive(Debug)]
pub struct Metadata {
    /// Short human-readable description.
    pub summary: Option<String>,
    /// Deterministic set of labels.
    pub tags: TextSet,
    /// Alternative identifier-like names.
    pub aliases: TextSet,
    /// Directed links to other documents.
    pub links: Vec<Reference>,
    /// Unrecognized front-matter fields, in front-matter order.
    pub extra: Vec<(String, YamlNode)>,
}

impl Metadata {
    /// Empty metadata.
    pub fn new() -> (r: Metadata)
        ensures
            r.summary is None,
            r.tags@.len() == 0,
            r.aliases@.len() == 0,
            r.links@.len() == 0,
            r.extra@.len() == 0,
    {
        Metadata {
            summary: None,
            tags: TextSet::new(),
            aliases: TextSet::new(),
            links: Vec::new(),
            extra: Vec::new(),
        }
    }

    /// Returns the value of an unrecognized front-matter field.
    pub fn extra_field(&self, key: &str) -> (r: Option<&YamlNode>)
        ensures
            match r {
                Some(v) => exists|i: int|
                    0 <= i < self.extra@.len() && self.extra@[i].0@ == key@ && self.extra@[i].1
                        == *v,
                None => forall|i: int| 0 <= i < self.extra@.len() ==> self.extra@[i].0@ != key@,
            },
    {
        let mut i: usize = 0;
        while i < self.extra.len()
            invariant
                i <= self.extra@.len(),
                forall|j: int| 0 <= j < i ==> self.extra@[j].0@ != key@,
            decreases self.extra@.len() - i,
        {
            if text_eq(self.extra[i].0.as_str(), key) {
                return Some(&self.extra[i].1);
            }
            i = i + 1;
        }
        None
    }
}

impl Default for Metadata {
    fn default() -> (r: Metadata)
        ensures
            r.summary is None,
            r.tags@.len() == 0,
            r.aliases@.len() == 0,
            r.links@.len() == 0,
            r.extra@.len() == 0,
    {
        Metadata::new()
    }
}

} // verus!
