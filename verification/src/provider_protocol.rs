//! Language-neutral request/response model for external Library providers.
//!
//! Canonical knowledge URIs cross process and HTTP boundaries as `okf://...` strings. JSON
//! encoding and decoding happen at the transport edge; the library builds requests, interprets
//! responses, and turns the decoded wire records into domain values.

use vstd::prelude::*;

use crate::library::{
    uri_parsed, uri_parts, uri_path, uri_text, uri_valid, valid_library_id, CatalogEntry,
    KnowledgeNode, KnowledgeNodeKind, KnowledgeUri, LibraryCatalog, LibraryError, LibraryId,
    LibraryQuery, LibraryQueryHit, LibraryQueryResult, LibraryResult, QueryStrategy,
};
use crate::entries::pair_views;
use crate::model::TextSet;
use crate::text::{concat2, concat3, concat5, owned, text_eq};

verus! {

#[verifier::external_type_specification]
#[verifier::external_body]
pub struct ExJsonValue(serde_json::Value);

/// The stable provider protocol identifier.
pub open spec fn protocol_v1() -> Seq<char> {
    "okf-provider/1"@
}

/// Returns the stable provider protocol identifier, `okf-provider/1`.
pub fn provider_protocol_v1() -> (r: String)
    ensures
        r@ == protocol_v1(),
{
    owned("okf-provider/1")
}

/// Provider operation transported over process or remote boundaries.
#[derive(Clone, Copy, Debug, PartialEq, Eq, Structural)]
pub enum ProviderOperation {
    /// Return the Library semantic catalog.
    Catalog,
    /// List direct children below a logical path.
    List,
    /// Read one canonical knowledge URI.
    Read,
    /// Execute a Library query.
    Query,
    /// Refresh provider-derived state.
    Refresh,
}

/// Portable request envelope used by external provider transports.
#[derive(Clone, Debug, PartialEq, Eq)]
pub struct ProviderRequest {
    /// Protocol identifier; [`provider_protocol_v1`] for requests built here.
    pub protocol: String,
    /// Requested capability operation.
    pub operation: ProviderOperation,
    /// Active Library identity.
    pub library: LibraryId,
    /// Logical path for `list`.
    pub path: Option<String>,
    /// Canonical `okf://...` URI string for `read`.
    pub uri: Option<String>,
    /// Query payload for `query`.
    pub query: Option<LibraryQuery>,
}

impl ProviderRequest {
    fn new(library: LibraryId, operation: ProviderOperation) -> (r: ProviderRequest)
        ensures
            r.protocol@ == protocol_v1(),
            r.operation == operation,
            r.library@ == library@,
            r.path is None,
            r.uri is None,
            r.query is None,
    {
        ProviderRequest {
            protocol: provider_protocol_v1(),
            operation,
            library,
            path: None,
            uri: None,
            query: None,
        }
    }

    /// Creates a catalog request.
    pub fn catalog(library: LibraryId) -> (r: ProviderRequest)
        ensures
            r.protocol@ == protocol_v1(),
            r.operation == ProviderOperation::Catalog,
            r.library@ == library@,
            r.path is None && r.uri is None && r.query is None,
    {
        Self::new(library, ProviderOperation::Catalog)
    }

    /// Creates a list request.
    pub fn list(library: LibraryId, path: &str) -> (r: ProviderRequest)
        ensures
            r.protocol@ == protocol_v1(),
            r.operation == ProviderOperation::List,
            r.library@ == library@,
            r.path matches Some(p) && p@ == path@,
            r.uri is None && r.query is None,
    {
        let mut request = Self::new(library, ProviderOperation::List);
        request.path = Some(owned(path));
        request
    }

    /// Creates a read request carrying the canonical URI text.
    pub fn read(uri: KnowledgeUri) -> (r: ProviderRequest)
        ensures
            r.protocol@ == protocol_v1(),
            r.operation == ProviderOperation::Read,
            r.library@ == uri.spec_library(),
            r.uri matches Some(u) && u@ == uri_text(uri.spec_library(), uri.spec_path()),
            r.path is None && r.query is None,
    {
        let mut request = Self::new(uri.library().copy(), ProviderOperation::Read);
        request.uri = Some(uri.to_text());
        request
    }

    /// Creates a query request.
    pub fn query(library: LibraryId, query: LibraryQuery) -> (r: ProviderRequest)
        ensures
            r.protocol@ == protocol_v1(),
            r.operation == ProviderOperation::Query,
            r.library@ == library@,
            r.query == Some(query),
            r.path is None && r.uri is None,
    {
        let mut request = Self::new(library, ProviderOperation::Query);
        request.query = Some(query);
        request
    }

    /// Creates a refresh request.
    pub fn refresh(library: LibraryId) -> (r: ProviderRequest)
        ensures
            r.protocol@ == protocol_v1(),
            r.operation == ProviderOperation::Refresh,
            r.library@ == library@,
            r.path is None && r.uri is None && r.query is None,
    {
        Self::new(library, ProviderOperation::Refresh)
    }
}

/// The message of a protocol failure: `provider protocol error: <detail>`.
pub open spec fn protocol_failure(detail: Seq<char>) -> Seq<char> {
    "provider protocol error: "@ + detail
}

/// Reports a transport encoding failure as a provider error.
pub fn protocol_error(detail: &str) -> (r: LibraryError)
    ensures
        r matches LibraryError::Provider(m) && m@ == protocol_failure(detail@),
{
    LibraryError::Provider(concat2("provider protocol error: ", detail))
}

/// Accepts a decoded request only when it speaks protocol `okf-provider/1`.
pub fn check_request_protocol(request: ProviderRequest) -> (r: LibraryResult<ProviderRequest>)
    ensures
        request.protocol@ == protocol_v1() ==> r == Ok::<ProviderRequest, LibraryError>(request),
        request.protocol@ != protocol_v1() ==> (r matches Err(LibraryError::Provider(m)) && m@
            == "unsupported provider protocol '"@ + request.protocol@ + "'"@),
{
    if text_eq(request.protocol.as_str(), "okf-provider/1") {
        Ok(request)
    } else {
        Err(
            LibraryError::Provider(
                concat3("unsupported provider protocol '", request.protocol.as_str(), "'"),
            ),
        )
    }
}

/// Portable provider error returned across an external transport.
#[derive(Clone, Debug, PartialEq, Eq)]
pub struct ProviderProtocolError {
    /// Stable machine-readable error code.
    pub code: String,
    /// Human-readable diagnostic.
    pub message: String,
}

/// Portable response envelope used by process and HTTP provider transports.
#[derive(Clone, Debug, PartialEq)]
pub struct ProviderResponse {
    /// Whether the provider operation succeeded.
    pub ok: bool,
    /// Successful operation payload.
    pub data: Option<serde_json::Value>,
    /// Failure diagnostic.
    pub error: Option<ProviderProtocolError>,
}

/// Produces `serde_json::Value::Null`, the payload of a success without data.
#[verifier::external_body]
fn json_null() -> (r: serde_json::Value) {
    serde_json::Value::Null
}

/// The error a failed response is reported as: its code and message, or a generic diagnostic
/// when the provider gave none.
pub open spec fn failure_message(error: Option<ProviderProtocolError>) -> Seq<char> {
    match error {
        Some(e) => e.code@ + ": "@ + e.message@,
        None => "provider-error: external provider failed without a diagnostic"@,
    }
}

impl ProviderResponse {
    /// Creates a failed response.
    pub fn failure(code: &str, message: &str) -> (r: ProviderResponse)
        ensures
            !r.ok,
            r.data is None,
            r.error matches Some(e) && e.code@ == code@ && e.message@ == message@,
    {
        ProviderResponse {
            ok: false,
            data: None,
            error: Some(ProviderProtocolError { code: owned(code), message: owned(message) }),
        }
    }

    /// Creates a successful response carrying a payload.
    pub fn success(data: serde_json::Value) -> (r: ProviderResponse)
        ensures
            r.ok,
            r.data == Some(data),
            r.error is None,
    {
        ProviderResponse { ok: true, data: Some(data), error: None }
    }

    /// The payload of a successful response (`null` when absent); a failed response is reported
    /// as a provider error.
    pub fn success_data(self) -> (r: LibraryResult<serde_json::Value>)
        ensures
            self.ok ==> (r matches Ok(v) && (self.data matches Some(d) ==> v == d)),
            !self.ok ==> (r matches Err(LibraryError::Provider(m)) && m@ == failure_message(self.error)),
    {
        if !self.ok {
            let message = match &self.error {
                Some(e) => concat3(e.code.as_str(), ": ", e.message.as_str()),
                None => owned("provider-error: external provider failed without a diagnostic"),
            };
            return Err(LibraryError::Provider(message));
        }
        match self.data {
            Some(d) => Ok(d),
            None => Ok(json_null()),
        }
    }
}

/// One catalog entry as a provider sends it.
#[derive(Clone, Debug, PartialEq, Eq)]
pub struct WireCatalogEntry {
    /// Stable topic identifier.
    pub id: String,
    /// Display title.
    pub title: String,
    /// Optional explanation of the topic scope.
    pub description: Option<String>,
    /// Canonical URI text.
    pub uri: String,
    /// Routing terms.
    pub terms: TextSet,
}

/// A catalog as a provider sends it.
#[derive(Clone, Debug, PartialEq, Eq)]
pub struct WireLibraryCatalog {
    /// Library identifier text.
    pub library: String,
    /// Entries in provider order.
    pub entries: Vec<WireCatalogEntry>,
}

/// A knowledge node as a provider sends it.
#[derive(Clone, Debug, PartialEq, Eq)]
pub struct WireKnowledgeNode {
    /// Canonical URI text.
    pub uri: String,
    /// Node kind.
    pub kind: KnowledgeNodeKind,
    /// Optional display title.
    pub title: Option<String>,
    /// Whether the node is generated dynamically.
    pub virtual_node: bool,
}

/// A query hit as a provider sends it.
#[derive(Clone, Debug, PartialEq, Eq)]
pub struct WireQueryHit {
    /// Canonical URI text.
    pub uri: String,
    /// Optional display title.
    pub title: Option<String>,
    /// Optional excerpt.
    pub snippet: Option<String>,
    /// Relevance score as the bits of an IEEE 754 double.
    pub score_bits: Option<u64>,
    /// Portable metadata, in key order.
    pub metadata: Vec<(String, String)>,
}

/// A query result as a provider sends it.
#[derive(Clone, Debug, PartialEq, Eq)]
pub struct WireQueryResult {
    /// Optional synthesized answer.
    pub answer: Option<String>,
    /// Evidence items.
    pub hits: Vec<WireQueryHit>,
    /// Provider identity.
    pub provider: String,
    /// Strategy used.
    pub strategy: QueryStrategy,
    /// Execution provenance, in key order.
    pub provenance: Vec<(String, String)>,
}

/// Library part of a URI text that parses.
pub open spec fn uri_library_of(value: Seq<char>) -> Seq<char> {
    match uri_parts(value) {
        Some((lib, _)) => lib,
        None => Seq::empty(),
    }
}

/// Normalized path part of a URI text that parses.
pub open spec fn uri_path_of(value: Seq<char>) -> Seq<char> {
    match uri_parts(value) {
        Some((_, path)) => uri_path(path),
        None => Seq::empty(),
    }
}

/// Whether a wire entry's URI parses and names Library `lib`.
pub open spec fn entry_belongs(e: WireCatalogEntry, lib: Seq<char>) -> bool {
    uri_valid(e.uri@) && uri_library_of(e.uri@) == lib
}

/// Whether `err` is what converting entry `e` of Library `lib` fails with.
pub open spec fn entry_error(e: WireCatalogEntry, lib: Seq<char>, err: LibraryError) -> bool {
    if !uri_valid(e.uri@) {
        uri_parsed(e.uri@, Err(err))
    } else {
        err matches LibraryError::Provider(m) && m@ == "catalog URI '"@ + uri_text(
            uri_library_of(e.uri@),
            uri_path_of(e.uri@),
        ) + "' does not belong to Library '"@ + lib + "'"@
    }
}

/// Whether domain entry `c` carries wire entry `e`.
pub open spec fn entry_from(c: CatalogEntry, e: WireCatalogEntry) -> bool {
    &&& c.id@ == e.id@
    &&& c.title@ == e.title@
    &&& c.description == e.description
    &&& c.terms@ == e.terms@
    &&& c.uri.spec_library() == uri_library_of(e.uri@)
    &&& c.uri.spec_path() == uri_path_of(e.uri@)
}

fn copy_text(o: &Option<String>) -> (r: Option<String>)
    ensures
        r == *o,
{
    match o {
        Some(s) => Some(s.clone()),
        None => None,
    }
}

/// Parses a URI text, relating the outcome to [`uri_valid`] and the URI's parts.
fn parse_uri(value: &str) -> (r: LibraryResult<KnowledgeUri>)
    ensures
        uri_parsed(value@, r),
        r is Ok <==> uri_valid(value@),
        r matches Ok(u) ==> u.spec_library() == uri_library_of(value@) && u.spec_path() == uri_path_of(
            value@,
        ),
{
    KnowledgeUri::parse(value)
}

/// Converts a provider catalog into domain values, rejecting entries whose URI does not parse
/// or belongs to another Library; the first such entry decides the error.
pub fn catalog_from_wire(wire: &WireLibraryCatalog) -> (r: LibraryResult<LibraryCatalog>)
    ensures
        !valid_library_id(wire.library@) ==> (r matches Err(LibraryError::InvalidLibraryId(s)) && s@
            == wire.library@),
        valid_library_id(wire.library@) ==> (r is Ok <==> forall|k: int|
            0 <= k < wire.entries@.len() ==> entry_belongs(#[trigger] wire.entries@[k], wire.library@)),
        r matches Ok(c) ==> c.library@ == wire.library@ && c.entries@.len() == wire.entries@.len()
            && forall|k: int| 0 <= k < c.entries@.len() ==> entry_from(#[trigger] c.entries@[k], wire.entries@[k]),
        valid_library_id(wire.library@) && r is Err ==> exists|k: int|
            0 <= k < wire.entries@.len() && (forall|j: int| 0 <= j < k ==> entry_belongs(#[trigger] wire.entries@[j], wire.library@))
                && !entry_belongs(wire.entries@[k], wire.library@) && (r matches Err(e) && entry_error(wire.entries@[k], wire.library@, e)),
{
    let library = LibraryId::parse(wire.library.as_str())?;
    let ghost lib = wire.library@;
    let mut entries: Vec<CatalogEntry> = Vec::new();
    let mut k: usize = 0;
    while k < wire.entries.len()
        invariant
            k <= wire.entries@.len(),
            library@ == lib,
            lib == wire.library@,
            valid_library_id(lib),
            entries@.len() == k,
            forall|j: int| 0 <= j < k ==> entry_belongs(#[trigger] wire.entries@[j], lib),
            forall|j: int| 0 <= j < k ==> entry_from(#[trigger] entries@[j], wire.entries@[j]),
        decreases wire.entries@.len() - k,
    {
        let e = &wire.entries[k];
        let uri = match parse_uri(e.uri.as_str()) {
            Ok(u) => u,
            Err(err) => {
                return Err(err);
            },
        };
        if !uri.library().same(&library) {
            let text = uri.to_text();
            return Err(
                LibraryError::Provider(
                    concat5(
                        "catalog URI '",
                        text.as_str(),
                        "' does not belong to Library '",
                        library.as_str(),
                        "'",
                    ),
                ),
            );
        }
        entries.push(
            CatalogEntry {
                id: e.id.clone(),
                title: e.title.clone(),
                description: copy_text(&e.description),
                uri,
                terms: e.terms.clone(),
            },
        );
        k = k + 1;
    }
    Ok(LibraryCatalog { library, entries })
}

/// Converts a provider node; fails when its URI does not parse.
pub fn node_from_wire(wire: &WireKnowledgeNode) -> (r: LibraryResult<KnowledgeNode>)
    ensures
        r is Ok <==> uri_valid(wire.uri@),
        r matches Err(e) ==> uri_parsed(wire.uri@, Err(e)),
        r matches Ok(n) ==> n.uri.spec_library() == uri_library_of(wire.uri@) && n.uri.spec_path()
            == uri_path_of(wire.uri@) && n.kind == wire.kind && n.title == wire.title && n.virtual_node
            == wire.virtual_node,
{
    match parse_uri(wire.uri.as_str()) {
        Ok(uri) => Ok(
            KnowledgeNode {
                uri,
                kind: wire.kind,
                title: copy_text(&wire.title),
                virtual_node: wire.virtual_node,
            },
        ),
        Err(e) => Err(e),
    }
}

/// Converts provider nodes in order; the first node whose URI does not parse decides the error.
pub fn nodes_from_wire(wire: &Vec<WireKnowledgeNode>) -> (r: LibraryResult<Vec<KnowledgeNode>>)
    ensures
        r is Ok <==> forall|k: int| 0 <= k < wire@.len() ==> uri_valid(#[trigger] wire@[k].uri@),
        r matches Ok(nodes) ==> nodes@.len() == wire@.len() && forall|k: int|
            0 <= k < nodes@.len() ==> (#[trigger] nodes@[k]).uri.spec_library() == uri_library_of(wire@[k].uri@)
                && nodes@[k].uri.spec_path() == uri_path_of(wire@[k].uri@) && nodes@[k].kind == wire@[k].kind
                && nodes@[k].title == wire@[k].title && nodes@[k].virtual_node == wire@[k].virtual_node,
{
    let mut nodes: Vec<KnowledgeNode> = Vec::new();
    let mut k: usize = 0;
    while k < wire.len()
        invariant
            k <= wire@.len(),
            nodes@.len() == k,
            forall|j: int| 0 <= j < k ==> uri_valid(#[trigger] wire@[j].uri@),
            forall|j: int|
                0 <= j < k ==> (#[trigger] nodes@[j]).uri.spec_library() == uri_library_of(wire@[j].uri@)
                    && nodes@[j].uri.spec_path() == uri_path_of(wire@[j].uri@) && nodes@[j].kind == wire@[j].kind
                    && nodes@[j].title == wire@[j].title && nodes@[j].virtual_node == wire@[j].virtual_node,
        decreases wire@.len() - k,
    {
        match node_from_wire(&wire[k]) {
            Ok(n) => nodes.push(n),
            Err(e) => {
                return Err(e);
            },
        }
        k = k + 1;
    }
    Ok(nodes)
}

/// Converts a provider query result; the first hit whose URI does not parse decides the error.
pub fn query_result_from_wire(wire: &WireQueryResult) -> (r: LibraryResult<LibraryQueryResult>)
    ensures
        r is Ok <==> forall|k: int| 0 <= k < wire.hits@.len() ==> uri_valid(#[trigger] wire.hits@[k].uri@),
        r matches Ok(q) ==> q.answer == wire.answer && q.provider@ == wire.provider@ && q.strategy
            == wire.strategy && pair_views(q.provenance@) == pair_views(wire.provenance@) && q.hits@.len() == wire.hits@.len()
            && forall|k: int|
            0 <= k < q.hits@.len() ==> (#[trigger] q.hits@[k]).uri.spec_library() == uri_library_of(
                wire.hits@[k].uri@,
            ) && q.hits@[k].uri.spec_path() == uri_path_of(wire.hits@[k].uri@) && q.hits@[k].title
                == wire.hits@[k].title && q.hits@[k].snippet == wire.hits@[k].snippet
                && q.hits@[k].score_bits == wire.hits@[k].score_bits && pair_views(q.hits@[k].metadata@)
                == pair_views(wire.hits@[k].metadata@),
{
    let mut hits: Vec<LibraryQueryHit> = Vec::new();
    let mut k: usize = 0;
    while k < wire.hits.len()
        invariant
            k <= wire.hits@.len(),
            hits@.len() == k,
            forall|j: int| 0 <= j < k ==> uri_valid(#[trigger] wire.hits@[j].uri@),
            forall|j: int|
                0 <= j < k ==> (#[trigger] hits@[j]).uri.spec_library() == uri_library_of(wire.hits@[j].uri@)
                    && hits@[j].uri.spec_path() == uri_path_of(wire.hits@[j].uri@) && hits@[j].title
                    == wire.hits@[j].title && hits@[j].snippet == wire.hits@[j].snippet
                    && hits@[j].score_bits == wire.hits@[j].score_bits && pair_views(hits@[j].metadata@)
                    == pair_views(wire.hits@[j].metadata@),
        decreases wire.hits@.len() - k,
    {
        let h = &wire.hits[k];
        let uri = match parse_uri(h.uri.as_str()) {
            Ok(u) => u,
            Err(e) => {
                return Err(e);
            },
        };
        hits.push(
            LibraryQueryHit {
                uri,
                title: copy_text(&h.title),
                snippet: copy_text(&h.snippet),
                score_bits: h.score_bits,
                metadata: copy_pairs(&h.metadata),
            },
        );
        k = k + 1;
    }
    Ok(
        LibraryQueryResult {
            answer: copy_text(&wire.answer),
            hits,
            provider: wire.provider.clone(),
            strategy: copy_strategy(&wire.strategy),
            provenance: copy_pairs(&wire.provenance),
        },
    )
}

fn copy_pairs(v: &Vec<(String, String)>) -> (r: Vec<(String, String)>)
    ensures
        pair_views(r@) == pair_views(v@),
{
    let mut out: Vec<(String, String)> = Vec::new();
    let mut k: usize = 0;
    while k < v.len()
        invariant
            k <= v@.len(),
            pair_views(out@) == pair_views(v@).take(k as int),
        decreases v@.len() - k,
    {
        let ghost before = out@;
        out.push((v[k].0.clone(), v[k].1.clone()));
        assert(pair_views(out@) =~= pair_views(before).push((v@[k as int].0@, v@[k as int].1@)));
        assert(pair_views(v@).take(k + 1) =~= pair_views(v@).take(k as int).push(pair_views(v@)[k as int]));
        k = k + 1;
    }
    assert(pair_views(v@).take(v@.len() as int) =~= pair_views(v@));
    out
}

fn copy_strategy(s: &QueryStrategy) -> (r: QueryStrategy)
    ensures
        r == *s,
{
    match s {
        QueryStrategy::Exact => QueryStrategy::Exact,
        QueryStrategy::Lexical => QueryStrategy::Lexical,
        QueryStrategy::Semantic => QueryStrategy::Semantic,
        QueryStrategy::Graph => QueryStrategy::Graph,
        QueryStrategy::Agentic => QueryStrategy::Agentic,
        QueryStrategy::Custom(c) => QueryStrategy::Custom(c.clone()),
    }
}

} // verus!
