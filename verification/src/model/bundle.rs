//! Bundle storage and lookup APIs.

use vstd::prelude::*;

use crate::error::Error;
use crate::text::{owned, text_eq, compare_text, Order, text_lt, lemma_text_lt_irreflexive, lemma_text_lt_transitive, lemma_text_lt_total};
use super::document::{Document, DocumentId};

verus! {

/// Identifiers of a document sequence.
pub open spec fn doc_ids(docs: Seq<Document>) -> Seq<Seq<char>> {
    docs.map_values(|d: Document| d.spec_id())
}

/// Whether a document sequence is strictly ordered by identifier.
pub open spec fn docs_sorted(docs: Seq<Document>) -> bool {
    forall|i: int, j: int|
        0 <= i < j < docs.len() ==> text_lt(#[trigger] docs[i].spec_id(), #[trigger] docs[j].spec_id())
}

/// Whether some document carries identifier `key`.
pub open spec fn has_id(docs: Seq<Document>, key: Seq<char>) -> bool {
    exists|i: int| 0 <= i < docs.len() && #[trigger] docs[i].spec_id() == key
}

/// Whether document `i` declares alias `key` while no earlier document does.
pub open spec fn first_alias_at(docs: Seq<Document>, key: Seq<char>, i: int) -> bool {
    &&& 0 <= i < docs.len()
    &&& docs[i].spec_metadata().aliases@.contains(key)
    &&& forall|j: int| 0 <= j < i ==> !(#[trigger] docs[j].spec_metadata().aliases@.contains(key))
}

/// Whether some document declares alias `key`.
pub open spec fn has_alias(docs: Seq<Document>, key: Seq<char>) -> bool {
    exists|i: int| 0 <= i < docs.len() && (#[trigger] docs[i].spec_metadata()).aliases@.contains(key)
}

/// Index of the document that `key` resolves to: the document with that identifier, else the
/// first document (in identifier order) declaring it as an alias.
pub open spec fn resolve_index(docs: Seq<Document>, key: Seq<char>) -> Option<int> {
    if has_id(docs, key) {
        Some(choose|i: int| 0 <= i < docs.len() && #[trigger] docs[i].spec_id() == key)
    } else if has_alias(docs, key) {
        Some(choose|i: int| first_alias_at(docs, key, i))
    } else {
        None
    }
}

/// In a sorted sequence, an identifier occurs at most once.
pub proof fn lemma_sorted_unique(docs: Seq<Document>, i: int, j: int)
    requires
        docs_sorted(docs),
        0 <= i < docs.len(),
        0 <= j < docs.len(),
        docs[i].spec_id() == docs[j].spec_id(),
    ensures
        i == j,
{
    if i < j {
        lemma_text_lt_irreflexive(docs[i].spec_id());
    } else if j < i {
        lemma_text_lt_irreflexive(docs[i].spec_id());
    }
}

/// The first alias holder exists whenever some document declares the alias.
pub proof fn lemma_first_alias_exists(docs: Seq<Document>, key: Seq<char>)
    requires
        has_alias(docs, key),
    ensures
        exists|i: int| first_alias_at(docs, key, i),
    decreases docs.len(),
{
    let k = choose|i: int| 0 <= i < docs.len() && (#[trigger] docs[i].spec_metadata()).aliases@.contains(key);
    if exists|j: int| 0 <= j < k && (#[trigger] docs[j].spec_metadata()).aliases@.contains(key) {
        let w = choose|j: int| 0 <= j < k && (#[trigger] docs[j].spec_metadata()).aliases@.contains(key);
        assert(docs.take(k)[w] == docs[w]);
        lemma_first_alias_exists(docs.take(k), key);
        let i = choose|i: int| first_alias_at(docs.take(k), key, i);
        assert(first_alias_at(docs, key, i)) by {
            assert forall|j: int| 0 <= j < i implies !(#[trigger] docs[j].spec_metadata().aliases@.contains(key)) by {
                assert(docs.take(k)[j] == docs[j]);
            }
        }
    } else {
        assert(first_alias_at(docs, key, k));
    }
}

/// The first alias holder is unique.
pub proof fn lemma_first_alias_unique(docs: Seq<Document>, key: Seq<char>, i: int, j: int)
    requires
        first_alias_at(docs, key, i),
        first_alias_at(docs, key, j),
    ensures
        i == j,
{
}

/// A resolved position lies within the sequence.
pub proof fn lemma_resolve_index_bounds(docs: Seq<Document>, key: Seq<char>)
    ensures
        resolve_index(docs, key) matches Some(j) ==> 0 <= j < docs.len(),
{
    if !has_id(docs, key) && has_alias(docs, key) {
        lemma_first_alias_exists(docs, key);
    }
}

/// Reading back a write: once a document has been inserted into a bundle, its identifier
/// resolves to exactly that document.
pub proof fn lemma_inserted_document_resolves(old: Seq<Document>, d: Document, k: int, new: Seq<Document>)
    requires
        0 <= k <= old.len(),
        new == old.insert(k, d),
        docs_sorted(new),
    ensures
        has_id(new, d.spec_id()),
        resolve_index(new, d.spec_id()) == Some(k),
{
    assert(new[k] == d);
    assert(has_id(new, d.spec_id()));
    let i = choose|i: int| 0 <= i < new.len() && #[trigger] new[i].spec_id() == d.spec_id();
    lemma_sorted_unique(new, i, k);
}

/// An in-memory OKF bundle with deterministic document ordering.
#[derive(Debug)]
pub struct Bundle {
    root: String,
    documents: Vec<Document>,
}

impl Bundle {
    #[verifier::type_invariant]
    spec fn sorted(self) -> bool {
        docs_sorted(self.documents@)
    }

    /// Documents in identifier order.
    pub closed spec fn docs(&self) -> Seq<Document> {
        self.documents@
    }

    /// Root path view.
    pub closed spec fn spec_root(&self) -> Seq<char> {
        self.root@
    }

    /// Creates an empty bundle rooted at `root`.
    pub fn new(root: &str) -> (r: Bundle)
        ensures
            r.docs().len() == 0,
            r.spec_root() == root@,
    {
        Bundle { root: owned(root), documents: Vec::new() }
    }

    /// Returns the bundle root.
    pub fn root(&self) -> (r: &str)
        ensures
            r@ == self.spec_root(),
    {
        self.root.as_str()
    }

    /// Returns the number of documents.
    pub fn len(&self) -> (r: usize)
        ensures
            r == self.docs().len(),
    {
        self.documents.len()
    }

    /// Returns whether the bundle has no documents.
    pub fn is_empty(&self) -> (r: bool)
        ensures
            r == (self.docs().len() == 0),
    {
        self.documents.len() == 0
    }

    /// Documents in identifier order.
    pub fn documents(&self) -> (r: &Vec<Document>)
        ensures
            r@ == self.docs(),
            docs_sorted(r@),
    {
        proof {
            use_type_invariant(self);
        }
        &self.documents
    }

    /// Canonical identifiers in sorted order.
    pub fn ids(&self) -> (r: Vec<DocumentId>)
        ensures
            r@.len() == self.docs().len(),
            forall|i: int| 0 <= i < r@.len() ==> (#[trigger] r@[i])@ == self.docs()[i].spec_id(),
    {
        let mut out: Vec<DocumentId> = Vec::new();
        let mut i: usize = 0;
        while i < self.documents.len()
            invariant
                i <= self.documents@.len(),
                out@.len() == i,
                forall|k: int| 0 <= k < i ==> (#[trigger] out@[k])@ == self.documents@[k].spec_id(),
            decreases self.documents@.len() - i,
        {
            out.push(self.documents[i].id().copy());
            i = i + 1;
        }
        out
    }

    /// Position of the document with identifier `key`.
    fn position(&self, key: &str) -> (r: Option<usize>)
        ensures
            match r {
                Some(i) => i < self.docs().len() && self.docs()[i as int].spec_id() == key@,
                None => !has_id(self.docs(), key@),
            },
    {
        let mut i: usize = 0;
        while i < self.documents.len()
            invariant
                i <= self.documents@.len(),
                forall|k: int| 0 <= k < i ==> self.documents@[k].spec_id() != key@,
            decreases self.documents@.len() - i,
        {
            if text_eq(self.documents[i].id().as_str(), key) {
                return Some(i);
            }
            i = i + 1;
        }
        None
    }

    /// Inserts a document and rejects duplicate identifiers.
    pub fn insert(&mut self, document: Document) -> (r: Result<(), Error>)
        ensures
            has_id(old(self).docs(), document.spec_id()) ==> {
                &&& final(self).docs() == old(self).docs()
                &&& r matches Err(Error::DuplicateDocument { id, first_path, second_path })
                &&& id@ == document.spec_id()
                &&& second_path@ == path_or_memory(document.spec_source_path())
                &&& exists|i: int|
                    0 <= i < old(self).docs().len() && old(self).docs()[i].spec_id()
                        == document.spec_id() && first_path@ == path_or_memory(
                        old(self).docs()[i].spec_source_path(),
                    )
            },
            !has_id(old(self).docs(), document.spec_id()) ==> {
                &&& r is Ok
                &&& exists|k: int|
                    0 <= k <= old(self).docs().len() && final(self).docs() == old(self).docs().insert(
                        k,
                        document,
                    )
            },
            final(self).spec_root() == old(self).spec_root(),
    {
        proof {
            use_type_invariant(&*self);
        }
        match self.position(document.id().as_str()) {
            Some(i) => {
                let first = path_text(self.documents[i].source_path());
                let second = path_text(document.source_path());
                return Err(
                    Error::DuplicateDocument {
                        id: document.id().to_text(),
                        first_path: first,
                        second_path: second,
                    },
                );
            },
            None => {},
        }
        let ghost old_docs = self.documents@;
        let ghost key = document.spec_id();
        let mut i: usize = 0;
        while i < self.documents.len()
            invariant
                i <= self.documents@.len(),
                old_docs == self.documents@,
                docs_sorted(old_docs),
                key == document.spec_id(),
                forall|j: int| 0 <= j < i ==> text_lt(#[trigger] old_docs[j].spec_id(), key),
            ensures
                i <= old_docs.len(),
                forall|j: int| 0 <= j < i ==> text_lt(#[trigger] old_docs[j].spec_id(), key),
                i < old_docs.len() ==> !text_lt(old_docs[i as int].spec_id(), key),
            decreases self.documents@.len() - i,
        {
            let o = compare_text(self.documents[i].id().as_str(), document.id().as_str());
            match o {
                Order::Less => {
                    i = i + 1;
                },
                _ => {
                    break ;
                },
            }
        }
        proof {
            if i < old_docs.len() {
                lemma_text_lt_total(old_docs[i as int].spec_id(), key);
                assert(!has_id(old_docs, key));
                assert(old_docs[i as int].spec_id() != key);
                assert(text_lt(key, old_docs[i as int].spec_id()));
            }
        }
        let mut documents: Vec<Document> = Vec::new();
        std::mem::swap(&mut documents, &mut self.documents);
        documents.insert(i, document);
        proof {
            let nd = documents@;
            assert(nd == old_docs.insert(i as int, document));
            assert forall|a: int, b: int| 0 <= a < b < nd.len() implies text_lt(
                #[trigger] nd[a].spec_id(),
                #[trigger] nd[b].spec_id(),
            ) by {
                if b < i {
                } else if a < i && b == i {
                } else if a < i && b > i {
                    assert(nd[a] == old_docs[a]);
                    assert(nd[b] == old_docs[b - 1]);
                } else if a == i {
                    assert(nd[b] == old_docs[b - 1]);
                    if b - 1 > i {
                        lemma_text_lt_transitive(
                            key,
                            old_docs[i as int].spec_id(),
                            old_docs[b - 1].spec_id(),
                        );
                    }
                } else {
                    assert(nd[a] == old_docs[a - 1]);
                    assert(nd[b] == old_docs[b - 1]);
                }
            }
        }
        self.documents = documents;
        Ok(())
    }

    /// Returns a document by canonical identifier.
    pub fn get(&self, id: &DocumentId) -> (r: Option<&Document>)
        ensures
            match r {
                Some(d) => has_id(self.docs(), id@) && d.spec_id() == id@ && self.docs().contains(
                    *d,
                ),
                None => !has_id(self.docs(), id@),
            },
    {
        self.get_by_id(id.as_str())
    }

    /// Returns a document by canonical identifier string.
    pub fn get_by_id(&self, id: &str) -> (r: Option<&Document>)
        ensures
            match r {
                Some(d) => has_id(self.docs(), id@) && d.spec_id() == id@ && self.docs().contains(
                    *d,
                ),
                None => !has_id(self.docs(), id@),
            },
    {
        match self.position(id) {
            Some(i) => {
                assert(self.docs()[i as int] == self.documents@[i as int]);
                Some(&self.documents[i])
            },
            None => None,
        }
    }

    /// Resolves a canonical identifier first, then an alias.
    pub fn resolve(&self, id_or_alias: &str) -> (r: Option<&Document>)
        ensures
            match resolve_index(self.docs(), id_or_alias@) {
                Some(i) => r == Some(&self.docs()[i]),
                None => r is None,
            },
    {
        let i = self.resolve_position(id_or_alias);
        match i {
            Some(i) => {
                Some(&self.documents[i])
            },
            None => None,
        }
    }

    /// Index form of [`Bundle::resolve`].
    pub fn resolve_position(&self, id_or_alias: &str) -> (r: Option<usize>)
        ensures
            match r {
                Some(i) => resolve_index(self.docs(), id_or_alias@) == Some(i as int) && i
                    < self.docs().len(),
                None => resolve_index(self.docs(), id_or_alias@) is None,
            },
    {
        proof {
            use_type_invariant(self);
        }
        match self.position(id_or_alias) {
            Some(i) => {
                proof {
                    let c = choose|k: int|
                        0 <= k < self.docs().len() && #[trigger] self.docs()[k].spec_id()
                            == id_or_alias@;
                    lemma_sorted_unique(self.docs(), c, i as int);
                }
                return Some(i);
            },
            None => {},
        }
        let mut i: usize = 0;
        while i < self.documents.len()
            invariant
                i <= self.documents@.len(),
                !has_id(self.documents@, id_or_alias@),
                forall|k: int|
                    0 <= k < i ==> !(#[trigger] self.documents@[k].spec_metadata().aliases@.contains(
                        id_or_alias@,
                    )),
            decreases self.documents@.len() - i,
        {
            if self.documents[i].metadata().aliases.contains(id_or_alias) {
                proof {
                    assert(first_alias_at(self.docs(), id_or_alias@, i as int));
                    assert(has_alias(self.docs(), id_or_alias@));
                    let c = choose|k: int| first_alias_at(self.docs(), id_or_alias@, k);
                    lemma_first_alias_exists(self.docs(), id_or_alias@);
                    lemma_first_alias_unique(self.docs(), id_or_alias@, c, i as int);
                }
                return Some(i);
            }
            i = i + 1;
        }
        None
    }
}

/// Path shown in duplicate-document errors: the source path, or `<memory>`.
pub open spec fn path_or_memory(p: Option<Seq<char>>) -> Seq<char> {
    match p {
        Some(p) => p,
        None => "<memory>"@,
    }
}

fn path_text(p: Option<&str>) -> (r: String)
    ensures
        r@ == path_or_memory(
            match p {
                Some(s) => Some(s@),
                None => None,
            },
        ),
{
    match p {
        Some(s) => owned(s),
        None => owned("<memory>"),
    }
}

impl Default for Bundle {
    fn default() -> (r: Bundle)
        ensures
            r.docs().len() == 0,
            r.spec_root() == "."@,
    {
        Bundle::new(".")
    }
}

} // verus!
