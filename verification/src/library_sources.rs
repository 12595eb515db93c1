//! Pluggable Library source acquisition contracts.

use vstd::prelude::*;

use std::sync::Arc;

use crate::library::{source_text, LibraryError, LibraryInstance, LibraryResult, LibrarySource};
use crate::text::concat2;

verus! {

/// Resolves one class of [`LibrarySource`] into a Runtime-ready Library instance.
///
/// Source resolution is deliberately separate from content/query provider behavior. A resolver may
/// materialize a Git repository, attach to object storage, or return a fully remote/virtual provider.
pub trait LibrarySourceResolver: Send + Sync {
    /// Stable resolver identity.
    fn resolver_id(&self) -> &str;

    /// Whether this resolver understands `source`.
    spec fn accepts(&self, source: LibrarySource) -> bool;

    /// Whether this resolver understands the supplied source descriptor.
    fn supports(&self, source: &LibrarySource) -> (r: bool)
        ensures
            r == self.accepts(*source);

    /// Whether `r` is an outcome this resolver may give for `source`. Unless an implementation
    /// states more, every outcome is allowed.
    open spec fn resolves(&self, source: LibrarySource, r: LibraryResult<LibraryInstance>) -> bool {
        true
    }

    /// Resolves the source into a Runtime-ready Library instance.
    fn resolve(&self, source: &LibrarySource) -> (r: LibraryResult<LibraryInstance>)
        ensures
            self.resolves(*source, r);
}

/// Position of the first of the first `n` resolvers that accepts `source`.
pub open spec fn first_accepting<R: ?Sized + LibrarySourceResolver>(
    resolvers: Seq<Arc<R>>,
    source: LibrarySource,
    n: int,
) -> Option<int>
    decreases n,
{
    if n <= 0 {
        None
    } else {
        match first_accepting(resolvers, source, n - 1) {
            Some(i) => Some(i),
            None => if (*resolvers[n - 1]).accepts(source) {
                Some(n - 1)
            } else {
                None
            },
        }
    }
}

/// The first accepting resolver among the first `n` accepts `source` and no earlier one does;
/// there is none exactly when none of the first `n` accepts it.
pub proof fn lemma_first_accepting<R: ?Sized + LibrarySourceResolver>(
    resolvers: Seq<Arc<R>>,
    source: LibrarySource,
    n: int,
)
    requires
        0 <= n <= resolvers.len(),
    ensures
        match first_accepting(resolvers, source, n) {
            Some(k) => 0 <= k < n && (*resolvers[k]).accepts(source)
                && forall|j: int| 0 <= j < k ==> !(#[trigger] (*resolvers[j]).accepts(source)),
            None => forall|j: int| 0 <= j < n ==> !(#[trigger] (*resolvers[j]).accepts(source)),
        },
    decreases n,
{
    if n > 0 {
        lemma_first_accepting(resolvers, source, n - 1);
    }
}

/// Ordered registry of source resolvers used by an application/runtime adapter.
pub struct LibrarySourceResolvers<R: ?Sized + LibrarySourceResolver = dyn LibrarySourceResolver> {
    resolvers: Vec<Arc<R>>,
}

impl<R: ?Sized + LibrarySourceResolver> LibrarySourceResolvers<R> {
    /// Number of registered resolvers.
    pub closed spec fn count(&self) -> nat {
        self.resolvers@.len()
    }

    /// The registered resolvers in priority order.
    pub closed spec fn resolvers(&self) -> Seq<Arc<R>> {
        self.resolvers@
    }

    /// Whether some registered resolver understands `source`.
    pub open spec fn some_accepts(&self, source: LibrarySource) -> bool {
        first_accepting(self.resolvers(), source, self.count() as int) is Some
    }

    /// Creates an empty resolver registry.
    pub fn new() -> (r: Self)
        ensures
            r.count() == 0,
            r.resolvers().len() == 0,
    {
        LibrarySourceResolvers { resolvers: Vec::new() }
    }

    /// Registers a resolver. Earlier resolvers have higher priority when multiple support a source.
    pub fn register(&mut self, resolver: Arc<R>)
        ensures
            final(self).count() == old(self).count() + 1,
            final(self).resolvers() == old(self).resolvers().push(resolver),
    {
        self.resolvers.push(resolver);
    }

    /// Resolves a source through the first compatible resolver; without one it reports that no
    /// resolver supports the source.
    pub fn resolve(&self, source: &LibrarySource) -> (r: LibraryResult<LibraryInstance>)
        ensures
            self.count() == self.resolvers().len(),
            match first_accepting(self.resolvers(), *source, self.count() as int) {
                Some(i) => (*self.resolvers()[i]).resolves(*source, r),
                None => r matches Err(LibraryError::Provider(m)) && m@ == "no source resolver supports "@
                    + source_text(*source),
            },
    {
        proof {
            lemma_first_accepting(self.resolvers@, *source, self.resolvers@.len() as int);
        }
        let mut i: usize = 0;
        while i < self.resolvers.len()
            invariant
                i <= self.resolvers@.len(),
                forall|j: int| 0 <= j < i ==> !(#[trigger] (*self.resolvers@[j]).accepts(*source)),
                match first_accepting(self.resolvers@, *source, self.resolvers@.len() as int) {
                    Some(k) => 0 <= k < self.resolvers@.len() && (*self.resolvers@[k]).accepts(*source)
                        && forall|j: int| 0 <= j < k ==> !(#[trigger] (*self.resolvers@[j]).accepts(*source)),
                    None => forall|j: int|
                        0 <= j < self.resolvers@.len() ==> !(#[trigger] (*self.resolvers@[j]).accepts(*source)),
                },
            decreases self.resolvers@.len() - i,
        {
            if self.resolvers[i].supports(source) {
                proof {
                    let f = first_accepting(self.resolvers@, *source, self.resolvers@.len() as int);
                    if f is Some {
                        let k = f->0;
                        if k < i {
                            assert(!(*self.resolvers@[k]).accepts(*source));
                        }
                        if k > i {
                            assert(!(*self.resolvers@[i as int]).accepts(*source));
                        }
                    } else {
                        assert(!(*self.resolvers@[i as int]).accepts(*source));
                    }
                }
                return self.resolvers[i].resolve(source);
            }
            i = i + 1;
        }
        proof {
            let f = first_accepting(self.resolvers@, *source, self.resolvers@.len() as int);
            if f is Some {
                let k = f->0;
                assert(!(*self.resolvers@[k]).accepts(*source));
            }
        }
        let text = source.debug_text();
        Err(LibraryError::Provider(concat2("no source resolver supports ", text.as_str())))
    }
}

} // verus!
