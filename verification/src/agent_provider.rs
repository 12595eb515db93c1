//! Agent-backed semantic query adapter.

use vstd::prelude::*;

use std::sync::Arc;

use crate::entries::{entry_written, pair_views, set_entry};
use crate::library::{
    LibraryError, LibraryId, LibraryQuery, LibraryQueryHit, LibraryQueryResult,
    LibraryResult, QueryStrategy,
};
use crate::library_providers::QueryProvider;
use crate::text::{concat5, owned};

verus! {

/// Executes a bounded agentic retrieval turn for one Library.
///
/// Implementations own model/provider credentials, tool policy, recursion limits, and prompt
/// construction. The OKF SDK only requires a deterministic request/result boundary with evidence.
pub trait AgentQueryExecutor: Send + Sync {
    /// Stable executor identity for provenance.
    fn executor_id(&self) -> &str;

    /// Executes one Library-scoped retrieval request.
    fn execute(&self, library: &LibraryId, query: &LibraryQuery) -> LibraryResult<LibraryQueryResult>;
}

/// Whether some evidence item points into a Library other than `library`.
pub open spec fn evidence_outside(hits: Seq<LibraryQueryHit>, library: Seq<char>) -> bool {
    exists|i: int| 0 <= i < hits.len() && (#[trigger] hits[i]).uri.spec_library() != library
}

/// The diagnostic for an executor that returned evidence outside its Library.
pub open spec fn outside_evidence_message(executor: Seq<char>, library: Seq<char>) -> Seq<char> {
    "agent executor '"@ + executor + "' returned evidence outside Library '"@ + library + "'"@
}

/// Accepts an executor's result for `library`: evidence from another Library is refused;
/// otherwise the result is attributed to `provider_id`, marked agentic, and records the executor
/// under the `agent_executor` provenance key.
pub fn agent_result(
    provider_id: &str,
    executor_id: &str,
    library: &LibraryId,
    result: LibraryQueryResult,
) -> (r: LibraryResult<LibraryQueryResult>)
    ensures
        evidence_outside(result.hits@, library@) ==> (r matches Err(LibraryError::Provider(m))
            && m@ == outside_evidence_message(executor_id@, library@)),
        !evidence_outside(result.hits@, library@) ==> (r matches Ok(out) && out.answer
            == result.answer && out.hits@ == result.hits@ && out.provider@ == provider_id@
            && out.strategy == QueryStrategy::Agentic && entry_written(
            pair_views(result.provenance@),
            "agent_executor"@,
            executor_id@,
            pair_views(out.provenance@),
        )),
{
    let mut i: usize = 0;
    while i < result.hits.len()
        invariant
            i <= result.hits@.len(),
            forall|j: int| 0 <= j < i ==> (#[trigger] result.hits@[j]).uri.spec_library() == library@,
        decreases result.hits@.len() - i,
    {
        if !result.hits[i].uri.library().same(library) {
            let m = concat5(
                "agent executor '",
                executor_id,
                "' returned evidence outside Library '",
                library.as_str(),
                "'",
            );
            return Err(LibraryError::Provider(m));
        }
        i = i + 1;
    }
    let LibraryQueryResult { answer, hits, provider: _, strategy: _, provenance } = result;
    let mut provenance = provenance;
    set_entry(&mut provenance, owned("agent_executor"), owned(executor_id));
    Ok(LibraryQueryResult {
        answer,
        hits,
        provider: owned(provider_id),
        strategy: QueryStrategy::Agentic,
        provenance,
    })
}

/// Adapts an [`AgentQueryExecutor`] to the generic [`QueryProvider`] contract.
pub struct AgentQueryProvider<E: ?Sized + AgentQueryExecutor = dyn AgentQueryExecutor> {
    id: String,
    executor: Arc<E>,
}

impl<E: ?Sized + AgentQueryExecutor> AgentQueryProvider<E> {
    /// Provider identity.
    pub closed spec fn spec_id(&self) -> Seq<char> {
        self.id@
    }

    /// The executor this provider delegates to.
    pub closed spec fn spec_executor(&self) -> Arc<E> {
        self.executor
    }

    /// Creates an agent-backed query provider.
    pub fn new(id: &str, executor: Arc<E>) -> (r: AgentQueryProvider<E>)
        ensures
            r.spec_id() == id@,
            r.spec_executor() == executor,
    {
        AgentQueryProvider { id: owned(id), executor }
    }

    /// The executor this provider delegates to.
    pub fn executor(&self) -> (r: &Arc<E>)
        ensures
            *r == self.spec_executor(),
    {
        &self.executor
    }
}

impl<E: ?Sized + AgentQueryExecutor> QueryProvider for AgentQueryProvider<E> {
    fn provider_id(&self) -> (r: &str)
        ensures
            r@ == self.spec_id(),
    {
        self.id.as_str()
    }

    /// Runs the executor and accepts its result through [`agent_result`]: an accepted result
    /// is attributed to this provider, marked agentic, holds evidence of `library` only, and
    /// records the executor under `agent_executor`.
    fn query(&self, library: &LibraryId, query: &LibraryQuery) -> (r: LibraryResult<LibraryQueryResult>)
        ensures
            r matches Ok(out) ==> out.provider@ == self.spec_id() && out.strategy
                == QueryStrategy::Agentic && !evidence_outside(out.hits@, library@) && exists|
                before: Seq<(Seq<char>, Seq<char>)>,
                executor: Seq<char>,
            | entry_written(before, "agent_executor"@, executor, pair_views(out.provenance@)),
    {
        let result = match self.executor.execute(library, query) {
            Ok(result) => result,
            Err(e) => {
                return Err(e);
            },
        };
        let ghost hits = result.hits@;
        let ghost before = pair_views(result.provenance@);
        let executor = self.executor.executor_id();
        let r = agent_result(self.id.as_str(), executor, library, result);
        proof {
            if r is Ok {
                assert(entry_written(before, "agent_executor"@, executor@, pair_views(r->Ok_0.provenance@)));
            }
        }
        r
    }
}

} // verus!
