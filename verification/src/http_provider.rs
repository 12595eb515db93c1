//! HTTP-backed Library provider: endpoint validation, configuration and the client it sends
//! requests with. Sending a request is the host application's part.

use vstd::prelude::*;

use reqwest::blocking::Client;
use std::time::Duration;

use crate::library::{CapabilitySet, LibraryError, LibraryId, LibraryResult};
use crate::process_provider::{check_library, foreign_library_message, seconds};
use crate::text::{
    chars_of, chars_start_with, concat2, has_prefix, owned, string_from, strip_end, strip_end_chars,
    CharClass,
};

verus! {

/// A blocking `reqwest` HTTP client.
#[verifier::external_type_specification]
#[verifier::external_body]
pub struct ExHttpClient(reqwest::blocking::Client);

/// Seconds an HTTP provider waits for a response.
pub const HTTP_TIMEOUT_SECS: u64 = 30;

/// Builds a blocking `reqwest` client with request timeout `timeout`
/// (`Client::builder().timeout(..).build()`), giving the display text of the error when the
/// build fails. Whether it fails depends on the machine (TLS backend, resolver configuration),
/// so nothing is stated of the outcome.
#[verifier::external_body]
fn http_client(timeout: Duration) -> (r: Result<Client, String>) {
    match Client::builder().timeout(timeout).build() {
        Ok(client) => Ok(client),
        Err(error) => Err(error.to_string()),
    }
}

/// Whether a base URL names an HTTP or HTTPS endpoint.
fn scheme_ok(base_url: &str) -> (r: bool)
    ensures
        r == http_scheme_ok(base_url@),
{
    let base = strip_end_chars(&chars_of(base_url), CharClass::Exactly('/'));
    let http = chars_of("http://");
    let https = chars_of("https://");
    chars_start_with(&base, &http) || chars_start_with(&base, &https)
}

/// The base URL without its trailing slashes.
pub open spec fn http_base(base_url: Seq<char>) -> Seq<char> {
    strip_end(base_url, CharClass::Exactly('/'))
}

/// Whether a base URL names an HTTP or HTTPS endpoint.
pub open spec fn http_scheme_ok(base_url: Seq<char>) -> bool {
    has_prefix(http_base(base_url), "http://"@) || has_prefix(http_base(base_url), "https://"@)
}

/// The execution endpoint below a base URL.
pub open spec fn http_endpoint(base_url: Seq<char>) -> Seq<char> {
    http_base(base_url) + "/v1/execute"@
}

/// Executes Library capabilities against an `okf-provider/1` HTTP endpoint.
pub struct HttpLibraryProvider {
    id: String,
    library: LibraryId,
    endpoint: String,
    bearer_token: Option<String>,
    capabilities: CapabilitySet,
    client: Client,
}

impl HttpLibraryProvider {
    /// Provider identity.
    pub closed spec fn spec_id(&self) -> Seq<char> {
        self.id@
    }

    /// The Library this provider serves.
    pub closed spec fn spec_library(&self) -> Seq<char> {
        self.library@
    }

    /// The URL requests are posted to.
    pub closed spec fn spec_endpoint(&self) -> Seq<char> {
        self.endpoint@
    }

    /// Bearer token, when configured.
    pub closed spec fn spec_token(&self) -> Option<Seq<char>> {
        match self.bearer_token {
            Some(t) => Some(t@),
            None => None,
        }
    }

    /// Declared capabilities.
    pub closed spec fn spec_capabilities(&self) -> CapabilitySet {
        self.capabilities
    }

    /// The client requests are sent with.
    pub closed spec fn spec_client(&self) -> Client {
        self.client
    }

    /// Creates a remote provider pointing at a base URL. Trailing slashes of the base URL are
    /// dropped; it must then start with `http://` or `https://`. Requests go to
    /// `<base>/v1/execute` through a client with a 30-second timeout, which is built only for a
    /// base URL that passes the check.
    pub fn new(id: &str, library: LibraryId, base_url: &str, capabilities: CapabilitySet) -> (r:
        LibraryResult<HttpLibraryProvider>)
        ensures
            !http_scheme_ok(base_url@) ==> (r matches Err(LibraryError::Provider(m)) && m@
                == "HTTP provider base URL must use http:// or https://"@),
            r is Ok ==> http_scheme_ok(base_url@),
            r matches Ok(p) ==> p.spec_id() == id@ && p.spec_library() == library@
                && p.spec_endpoint() == http_endpoint(base_url@) && p.spec_token() == None::<
                Seq<char>>
                && p.spec_capabilities() == capabilities,
            http_scheme_ok(base_url@) && r is Err ==> (r matches Err(LibraryError::Provider(m))
                && exists|t: Seq<char>| m@ == "HTTP provider error: "@ + t),
    {
        if !scheme_ok(base_url) {
            return Err(LibraryError::Provider(owned("HTTP provider base URL must use http:// or https://")));
        }
        HttpLibraryProvider::from_client_result(id, library, base_url, capabilities, http_client(seconds(HTTP_TIMEOUT_SECS)))
    }

    /// Creates a remote provider from the outcome of building its client: the base URL is
    /// checked first, then a client build failure (given by its display text) is reported as an
    /// HTTP provider error.
    pub fn from_client_result(
        id: &str,
        library: LibraryId,
        base_url: &str,
        capabilities: CapabilitySet,
        client: Result<Client, String>,
    ) -> (r: LibraryResult<HttpLibraryProvider>)
        ensures
            !http_scheme_ok(base_url@) ==> (r matches Err(LibraryError::Provider(m)) && m@
                == "HTTP provider base URL must use http:// or https://"@),
            http_scheme_ok(base_url@) ==> match client {
                Ok(c) => r matches Ok(p) && p.spec_id() == id@ && p.spec_library() == library@
                    && p.spec_endpoint() == http_endpoint(base_url@) && p.spec_token() == None::<
                    Seq<char>>
                    && p.spec_capabilities() == capabilities && p.spec_client() == c,
                Err(e) => r matches Err(LibraryError::Provider(m)) && m@ == "HTTP provider error: "@
                    + e@,
            },
    {
        if !scheme_ok(base_url) {
            return Err(LibraryError::Provider(owned("HTTP provider base URL must use http:// or https://")));
        }
        let client = match client {
            Ok(c) => c,
            Err(e) => {
                return Err(LibraryError::Provider(concat2("HTTP provider error: ", e.as_str())));
            },
        };
        let base = strip_end_chars(&chars_of(base_url), CharClass::Exactly('/'));
        let endpoint = concat2(string_from(&base).as_str(), "/v1/execute");
        Ok(HttpLibraryProvider {
            id: owned(id),
            library,
            endpoint,
            bearer_token: None,
            capabilities,
            client,
        })
    }

    /// Configures bearer authentication with a deployment-resolved token.
    pub fn bearer_token(self, token: &str) -> (r: HttpLibraryProvider)
        ensures
            r.spec_token() == Some(token@),
            r.spec_id() == self.spec_id() && r.spec_library() == self.spec_library(),
            r.spec_endpoint() == self.spec_endpoint(),
            r.spec_capabilities() == self.spec_capabilities(),
            r.spec_client() == self.spec_client(),
    {
        let mut r = self;
        r.bearer_token = Some(owned(token));
        r
    }

    /// Replaces the HTTP client, allowing deployment-specific timeout/TLS policy.
    pub fn client(self, client: Client) -> (r: HttpLibraryProvider)
        ensures
            r.spec_client() == client,
            r.spec_id() == self.spec_id() && r.spec_library() == self.spec_library(),
            r.spec_endpoint() == self.spec_endpoint() && r.spec_token() == self.spec_token(),
            r.spec_capabilities() == self.spec_capabilities(),
    {
        let mut r = self;
        r.client = client;
        r
    }

    /// Provider identity.
    pub fn provider_id(&self) -> (r: &str)
        ensures
            r@ == self.spec_id(),
    {
        self.id.as_str()
    }

    /// Declared capabilities.
    pub fn capabilities(&self) -> (r: CapabilitySet)
        ensures
            r == self.spec_capabilities(),
    {
        self.capabilities
    }

    /// The Library this provider serves.
    pub fn library(&self) -> (r: &LibraryId)
        ensures
            r@ == self.spec_library(),
    {
        &self.library
    }

    /// The URL requests are posted to.
    pub fn endpoint(&self) -> (r: &str)
        ensures
            r@ == self.spec_endpoint(),
    {
        self.endpoint.as_str()
    }

    /// Bearer token, when configured.
    pub fn token(&self) -> (r: Option<&str>)
        ensures
            match r {
                Some(t) => self.spec_token() == Some(t@),
                None => self.spec_token() == None::<Seq<char>>,
            },
    {
        match &self.bearer_token {
            Some(t) => Some(t.as_str()),
            None => None,
        }
    }

    /// The client requests are sent with.
    pub fn http_client(&self) -> (r: &Client)
        ensures
            *r == self.spec_client(),
    {
        &self.client
    }

    /// Checks that the provider is called for its own Library.
    pub fn ensure_library(&self, library: &LibraryId) -> (r: LibraryResult<()>)
        ensures
            self.spec_library() == library@ ==> r is Ok,
            self.spec_library() != library@ ==> (r matches Err(LibraryError::Provider(m)) && m@
                == foreign_library_message("HTTP"@, self.spec_id(), self.spec_library(), library@)),
    {
        check_library("HTTP", self.id.as_str(), &self.library, library)
    }
}

/// The diagnostic for a failed HTTP exchange: `HTTP provider error: <detail>`.
pub fn http_error(detail: &str) -> (r: LibraryError)
    ensures
        r matches LibraryError::Provider(m) && m@ == "HTTP provider error: "@ + detail@,
{
    LibraryError::Provider(concat2("HTTP provider error: ", detail))
}

} // verus!
