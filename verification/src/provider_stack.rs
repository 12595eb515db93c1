//! Ordered composition of multiple full Library providers.

use vstd::prelude::*;

use std::sync::Arc;

use crate::library::{
    CapabilitySet, KnowledgeNode, KnowledgeUri, LibraryCapability, LibraryCatalog, LibraryError,
    LibraryId, LibraryProvider, LibraryQuery, LibraryQueryResult, LibraryResult,
};
use crate::text::owned;

verus! {

/// Presents multiple provider adapters as one Runtime-facing Library provider.
///
/// Provider order is significant: the first provider declaring an operation's capability handles
/// that operation. This keeps deployment composition deterministic while allowing catalog, content,
/// query, and refresh behavior to come from different adapters.
pub struct ProviderStack<P: ?Sized + LibraryProvider = dyn LibraryProvider> {
    id: String,
    providers: Vec<Arc<P>>,
}

impl<P: ?Sized + LibraryProvider> ProviderStack<P> {
    /// The Runtime-facing provider identity.
    pub closed spec fn spec_id(&self) -> Seq<char> {
        self.id@
    }

    /// Number of stacked providers.
    pub closed spec fn depth(&self) -> nat {
        self.providers@.len()
    }

    /// The stacked providers in dispatch order.
    pub closed spec fn stacked(&self) -> Seq<Arc<P>> {
        self.providers@
    }

    /// Creates an empty ordered provider stack.
    pub fn new(id: &str) -> (r: Self)
        ensures
            r.spec_id() == id@,
            r.depth() == 0,
            r.stacked().len() == 0,
    {
        ProviderStack { id: owned(id), providers: Vec::new() }
    }

    /// Appends one provider at the lowest remaining precedence.
    pub fn push(&mut self, provider: Arc<P>)
        ensures
            final(self).spec_id() == old(self).spec_id(),
            final(self).depth() == old(self).depth() + 1,
            final(self).stacked() == old(self).stacked().push(provider),
    {
        self.providers.push(provider);
    }

    /// Appends one provider and returns the stack.
    pub fn with_provider(self, provider: Arc<P>) -> (r: Self)
        ensures
            r.spec_id() == self.spec_id(),
            r.depth() == self.depth() + 1,
            r.stacked() == self.stacked().push(provider),
    {
        let mut stack = self;
        stack.push(provider);
        stack
    }

    /// Returns provider identities in dispatch order.
    pub fn provider_ids(&self) -> (r: Vec<&str>)
        ensures
            r@.len() == self.depth(),
    {
        let mut out: Vec<&str> = Vec::new();
        let mut i: usize = 0;
        while i < self.providers.len()
            invariant
                i <= self.providers@.len(),
                out@.len() == i,
            decreases self.providers@.len() - i,
        {
            out.push(self.providers[i].provider_id());
            i = i + 1;
        }
        out
    }

    /// Position of the first provider declaring `capability`, in dispatch order.
    fn provider_index(&self, capability: LibraryCapability) -> (r: Option<usize>)
        ensures
            match r {
                Some(i) => first_among(self.stacked(), capability, self.stacked().len() as int) == Some(i as int)
                    && i < self.stacked().len(),
                None => first_among(self.stacked(), capability, self.stacked().len() as int) is None,
            },
    {
        proof {
            lemma_first_among(self.providers@, capability, self.providers@.len() as int);
        }
        let mut i: usize = 0;
        while i < self.providers.len()
            invariant
                i <= self.providers@.len(),
                forall|j: int| 0 <= j < i ==> !(#[trigger] (*self.providers@[j]).declares(capability)),
                match first_among(self.providers@, capability, self.providers@.len() as int) {
                    Some(k) => 0 <= k < self.providers@.len() && (*self.providers@[k]).declares(capability)
                        && forall|j: int| 0 <= j < k ==> !(#[trigger] (*self.providers@[j]).declares(capability)),
                    None => !declared_among(self.providers@, self.providers@.len() as int, capability),
                },
            decreases self.providers@.len() - i,
        {
            if self.providers[i].capabilities().contains(&capability) {
                proof {
                    let f = first_among(self.providers@, capability, self.providers@.len() as int);
                    if f is None {
                        assert(declared_among(self.providers@, self.providers@.len() as int, capability));
                    } else {
                        let k = f->0;
                        if k < i {
                            assert(!(*self.providers@[k]).declares(capability));
                        }
                        if k > i {
                            assert(!(*self.providers@[i as int]).declares(capability));
                        }
                    }
                }
                return Some(i);
            }
            i = i + 1;
        }
        proof {
            let f = first_among(self.providers@, capability, self.providers@.len() as int);
            if f is Some {
                let k = f->0;
                assert(!(*self.providers@[k]).declares(capability));
            }
        }
        None
    }
}

/// Position of the first of the first `n` providers that declares `c`.
pub open spec fn first_among<P: ?Sized + LibraryProvider>(providers: Seq<Arc<P>>, c: LibraryCapability, n: int) -> Option<int>
    decreases n,
{
    if n <= 0 {
        None
    } else {
        match first_among(providers, c, n - 1) {
            Some(i) => Some(i),
            None => if (*providers[n - 1]).declares(c) {
                Some(n - 1)
            } else {
                None
            },
        }
    }
}

/// The first declaring provider among the first `n` declares `c` and no earlier one does; there
/// is none exactly when none of the first `n` declares `c`.
pub proof fn lemma_first_among<P: ?Sized + LibraryProvider>(providers: Seq<Arc<P>>, c: LibraryCapability, n: int)
    requires
        0 <= n <= providers.len(),
    ensures
        match first_among(providers, c, n) {
            Some(k) => 0 <= k < n && (*providers[k]).declares(c)
                && forall|j: int| 0 <= j < k ==> !(#[trigger] (*providers[j]).declares(c)),
            None => !declared_among(providers, n, c),
        },
    decreases n,
{
    if n > 0 {
        lemma_first_among(providers, c, n - 1);
        if first_among(providers, c, n - 1) is None && !(*providers[n - 1]).declares(c) {
            assert forall|j: int| 0 <= j < n implies !(*providers[j]).declares(c) by {
                if j < n - 1 {
                    assert(!declared_among(providers, n - 1, c) ==> !(*providers[j]).declares(c));
                }
            }
        }
        if first_among(providers, c, n - 1) is None && (*providers[n - 1]).declares(c) {
            assert forall|j: int| 0 <= j < n - 1 implies !(#[trigger] (*providers[j]).declares(c)) by {
                assert(!declared_among(providers, n - 1, c) ==> !(*providers[j]).declares(c));
            }
        }
    }
}

/// Whether one of the first `n` providers declares `c`.
pub open spec fn declared_among<P: ?Sized + LibraryProvider>(providers: Seq<Arc<P>>, n: int, c: LibraryCapability) -> bool {
    exists|j: int| 0 <= j < n && (*providers[j]).declares(c)
}

impl<P: ?Sized + LibraryProvider> LibraryProvider for ProviderStack<P> {
    fn provider_id(&self) -> (r: &str)
        ensures
            r@ == self.spec_id(),
    {
        self.id.as_str()
    }

    /// Some stacked provider declares `c`.
    open spec fn declares(&self, c: LibraryCapability) -> bool {
        declared_among(self.stacked(), self.stacked().len() as int, c)
    }

    /// The answer of the first provider declaring catalog support, or unsupported without one.
    open spec fn catalogs(&self, library: Seq<char>, r: LibraryResult<LibraryCatalog>) -> bool {
        match first_among(self.stacked(), LibraryCapability::Catalog, self.stacked().len() as int) {
            Some(i) => (*self.stacked()[i]).catalogs(library, r),
            None => r == Err::<LibraryCatalog, LibraryError>(LibraryError::UnsupportedCapability(LibraryCapability::Catalog)),
        }
    }

    /// The answer of the first provider declaring list support, or unsupported without one.
    open spec fn lists(&self, library: Seq<char>, path: Seq<char>, r: LibraryResult<Vec<KnowledgeNode>>) -> bool {
        match first_among(self.stacked(), LibraryCapability::List, self.stacked().len() as int) {
            Some(i) => (*self.stacked()[i]).lists(library, path, r),
            None => r == Err::<Vec<KnowledgeNode>, LibraryError>(LibraryError::UnsupportedCapability(LibraryCapability::List)),
        }
    }

    /// The answer of the first provider declaring read support, or unsupported without one.
    open spec fn reads(&self, uri: KnowledgeUri, r: LibraryResult<String>) -> bool {
        match first_among(self.stacked(), LibraryCapability::Read, self.stacked().len() as int) {
            Some(i) => (*self.stacked()[i]).reads(uri, r),
            None => r == Err::<String, LibraryError>(LibraryError::UnsupportedCapability(LibraryCapability::Read)),
        }
    }

    /// The answer of the first provider declaring query support, or unsupported without one.
    open spec fn answers(&self, library: Seq<char>, query: LibraryQuery, r: LibraryResult<LibraryQueryResult>) -> bool {
        match first_among(self.stacked(), LibraryCapability::Query, self.stacked().len() as int) {
            Some(i) => (*self.stacked()[i]).answers(library, query, r),
            None => r == Err::<LibraryQueryResult, LibraryError>(LibraryError::UnsupportedCapability(LibraryCapability::Query)),
        }
    }

    /// The outcome of the first provider declaring refresh support, or unsupported without one.
    open spec fn refreshes(&self, r: LibraryResult<()>) -> bool {
        match first_among(self.stacked(), LibraryCapability::Refresh, self.stacked().len() as int) {
            Some(i) => (*self.stacked()[i]).refreshes(r),
            None => r == Err::<(), LibraryError>(LibraryError::UnsupportedCapability(LibraryCapability::Refresh)),
        }
    }

    /// The union of what the stacked providers declare.
    fn capabilities(&self) -> (r: CapabilitySet)
        ensures
            self.depth() == 0 ==> forall|c: LibraryCapability| !r.has(c),
    {
        let mut all = CapabilitySet::new();
        let mut i: usize = 0;
        while i < self.providers.len()
            invariant
                i <= self.providers@.len(),
                forall|c: LibraryCapability| #[trigger] all.has(c) == declared_among(self.providers@, i as int, c),
            decreases self.providers@.len() - i,
        {
            let declared = self.providers[i].capabilities();
            all = all.union(&declared);
            proof {
                assert forall|c: LibraryCapability| #[trigger] all.has(c) == declared_among(self.providers@, i + 1, c) by {
                    if declared_among(self.providers@, i + 1, c) {
                        let j = choose|j: int| 0 <= j < i + 1 && (*self.providers@[j]).declares(c);
                        if j < i {
                            assert(declared_among(self.providers@, i as int, c));
                        }
                    }
                    if declared_among(self.providers@, i as int, c) {
                        let j = choose|j: int| 0 <= j < i && (*self.providers@[j]).declares(c);
                        assert(declared_among(self.providers@, i + 1, c));
                    }
                    if declared.has(c) {
                        assert(declared_among(self.providers@, i + 1, c));
                    }
                }
            }
            i = i + 1;
        }
        all
    }

    fn catalog(&self, library: &LibraryId) -> (r: LibraryResult<LibraryCatalog>) {
        match self.provider_index(LibraryCapability::Catalog) {
            Some(i) => self.providers[i].catalog(library),
            None => Err(LibraryError::UnsupportedCapability(LibraryCapability::Catalog)),
        }
    }

    fn list(&self, library: &LibraryId, path: &str) -> (r: LibraryResult<Vec<KnowledgeNode>>) {
        match self.provider_index(LibraryCapability::List) {
            Some(i) => self.providers[i].list(library, path),
            None => Err(LibraryError::UnsupportedCapability(LibraryCapability::List)),
        }
    }

    fn read(&self, uri: &KnowledgeUri) -> (r: LibraryResult<String>) {
        match self.provider_index(LibraryCapability::Read) {
            Some(i) => self.providers[i].read(uri),
            None => Err(LibraryError::UnsupportedCapability(LibraryCapability::Read)),
        }
    }

    fn query(&self, library: &LibraryId, query: &LibraryQuery) -> (r: LibraryResult<LibraryQueryResult>) {
        match self.provider_index(LibraryCapability::Query) {
            Some(i) => self.providers[i].query(library, query),
            None => Err(LibraryError::UnsupportedCapability(LibraryCapability::Query)),
        }
    }

    fn refresh(&self) -> (r: LibraryResult<()>) {
        match self.provider_index(LibraryCapability::Refresh) {
            Some(i) => self.providers[i].refresh(),
            None => Err(LibraryError::UnsupportedCapability(LibraryCapability::Refresh)),
        }
    }
}

} // verus!
