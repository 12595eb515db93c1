//! External process-backed Library provider: its configuration and the decisions around one
//! invocation of the `okf-provider/1` process protocol.
//!
//! Spawning the process, piping bytes and waiting belong to the host application; it reports
//! what happened as a [`ProcessOutcome`] and this module decides the result.

use vstd::prelude::*;

use std::time::Duration;

use crate::entries::{entry_written, keys_of, pair_views, set_entry};
use crate::library::{CapabilitySet, LibraryError, LibraryId, LibraryResult};
use crate::text::{concat2, concat3, concat5, owned, strictly_sorted, trim, trim_chars, chars_of, string_from};

verus! {

/// Seconds a provider process may run before it is stopped, unless configured otherwise.
pub const PROCESS_TIMEOUT_SECS: u64 = 30;

/// `Duration::from_secs`. Nothing is stated of the value.
#[verifier::external_body]
pub(crate) fn seconds(secs: u64) -> (r: Duration) {
    Duration::from_secs(secs)
}

/// The `Debug` text of a duration (such as `30s`). Nothing is stated of the text.
#[verifier::external_body]
fn duration_debug_text(d: &Duration) -> (r: String) {
    format!("{d:?}")
}

/// One of the two output streams of a provider process.
#[derive(Clone, Copy, Debug, PartialEq, Eq)]
pub enum ProcessStream {
    /// Standard output.
    Stdout,
    /// Standard error.
    Stderr,
}

/// What happened when the host ran a provider process for one request.
#[derive(Clone, Debug, PartialEq, Eq)]
pub enum ProcessOutcome {
    /// The process could not be started; the system's diagnostic.
    StartFailed(String),
    /// A stream was not piped to the host.
    NotPiped(ProcessStream),
    /// The request could not be encoded.
    EncodeFailed(String),
    /// Writing the request failed.
    WriteFailed(String),
    /// Writing the request terminator failed.
    FinishFailed(String),
    /// Waiting for the process failed.
    WaitFailed(String),
    /// The process did not finish within the timeout and was killed.
    TimedOut,
    /// Reading an output stream failed.
    ReadFailed(String),
    /// The thread reading an output stream panicked.
    ReaderPanicked(ProcessStream),
    /// The process exited.
    Exited {
        /// Whether the exit status reports success.
        success: bool,
        /// The exit status's display text.
        status: String,
        /// Everything written to standard output.
        stdout: Vec<u8>,
        /// Standard error, decoded as UTF-8 with replacement characters.
        stderr: String,
    },
}

/// The diagnostic for every failed outcome but a timeout.
pub open spec fn outcome_message(id: Seq<char>, outcome: ProcessOutcome) -> Seq<char> {
    match outcome {
        ProcessOutcome::StartFailed(e) => "failed to start process provider '"@ + id + "': "@ + e@,
        ProcessOutcome::NotPiped(ProcessStream::Stdout) => "process stdout was not piped"@,
        ProcessOutcome::NotPiped(ProcessStream::Stderr) => "process stderr was not piped"@,
        ProcessOutcome::EncodeFailed(e) => "failed to encode request: "@ + e@,
        ProcessOutcome::WriteFailed(e) => "failed to write process provider request: "@ + e@,
        ProcessOutcome::FinishFailed(e) => "failed to finish process provider request: "@ + e@,
        ProcessOutcome::WaitFailed(e) => "failed waiting for provider: "@ + e@,
        ProcessOutcome::ReadFailed(e) => "failed reading provider output: "@ + e@,
        ProcessOutcome::ReaderPanicked(ProcessStream::Stdout) => "provider stdout reader panicked"@,
        ProcessOutcome::ReaderPanicked(ProcessStream::Stderr) => "provider stderr reader panicked"@,
        ProcessOutcome::Exited { status, stderr, .. } => "process provider '"@ + id
            + "' exited with "@ + status@ + ": "@ + trim(stderr@),
        ProcessOutcome::TimedOut => "process provider '"@ + id + "' timed out after "@,
    }
}

/// The diagnostic for a provider called for a Library it does not belong to.
pub open spec fn foreign_library_message(
    kind: Seq<char>,
    id: Seq<char>,
    own: Seq<char>,
    called: Seq<char>,
) -> Seq<char> {
    kind + " provider '"@ + id + "' belongs to Library '"@ + own + "' but was called for '"@
        + called + "'"@
}

/// Checks that a provider of `kind` with identity `id`, bound to Library `own`, is called for
/// its own Library.
pub fn check_library(kind: &str, id: &str, own: &LibraryId, called: &LibraryId) -> (r: LibraryResult<()>)
    ensures
        own@ == called@ ==> r is Ok,
        own@ != called@ ==> (r matches Err(LibraryError::Provider(m)) && m@
            == foreign_library_message(kind@, id@, own@, called@)),
{
    if own.same(called) {
        Ok(())
    } else {
        let mut m = concat5(kind, " provider '", id, "' belongs to Library '", own.as_str());
        crate::text::push_all(&mut m, "' but was called for '");
        crate::text::push_all(&mut m, called.as_str());
        crate::text::push_all(&mut m, "'");
        Err(LibraryError::Provider(m))
    }
}

/// Executes Library capabilities through the `okf-provider/1` process protocol.
pub struct ProcessLibraryProvider {
    id: String,
    library: LibraryId,
    command: String,
    args: Vec<String>,
    cwd: Option<String>,
    env: Vec<(String, String)>,
    capabilities: CapabilitySet,
    timeout: Duration,
}

impl ProcessLibraryProvider {
    #[verifier::type_invariant]
    spec fn env_sorted(self) -> bool {
        strictly_sorted(keys_of(pair_views(self.env@)))
    }

    /// Provider identity.
    pub closed spec fn spec_id(&self) -> Seq<char> {
        self.id@
    }

    /// The Library this provider serves.
    pub closed spec fn spec_library(&self) -> Seq<char> {
        self.library@
    }

    /// Program to run.
    pub closed spec fn spec_command(&self) -> Seq<char> {
        self.command@
    }

    /// Program arguments.
    pub closed spec fn spec_args(&self) -> Seq<Seq<char>> {
        crate::text::views(self.args@)
    }

    /// Working directory, when set.
    pub closed spec fn spec_cwd(&self) -> Option<Seq<char>> {
        match self.cwd {
            Some(c) => Some(c@),
            None => None,
        }
    }

    /// Explicitly authorized environment variables, in name order.
    pub closed spec fn spec_env(&self) -> Seq<(Seq<char>, Seq<char>)> {
        pair_views(self.env@)
    }

    /// Declared capabilities.
    pub closed spec fn spec_capabilities(&self) -> CapabilitySet {
        self.capabilities
    }

    /// Request timeout.
    pub closed spec fn spec_timeout(&self) -> Duration {
        self.timeout
    }

    /// Creates a process-backed provider with a default 30 second request timeout.
    pub fn new(id: &str, library: LibraryId, command: &str, capabilities: CapabilitySet) -> (r:
        ProcessLibraryProvider)
        ensures
            r.spec_id() == id@,
            r.spec_library() == library@,
            r.spec_command() == command@,
            r.spec_args() == Seq::<Seq<char>>::empty(),
            r.spec_cwd() == None::<Seq<char>>,
            r.spec_env() == Seq::<(Seq<char>, Seq<char>)>::empty(),
            r.spec_capabilities() == capabilities,
    {
        let r = ProcessLibraryProvider {
            id: owned(id),
            library,
            command: owned(command),
            args: Vec::new(),
            cwd: None,
            env: Vec::new(),
            capabilities,
            timeout: seconds(PROCESS_TIMEOUT_SECS),
        };
        assert(crate::text::views(r.args@) =~= Seq::<Seq<char>>::empty());
        assert(pair_views(r.env@) =~= Seq::<(Seq<char>, Seq<char>)>::empty());
        r
    }

    /// Sets process arguments.
    pub fn args(self, args: Vec<String>) -> (r: ProcessLibraryProvider)
        ensures
            r.spec_args() == crate::text::views(args@),
            r.spec_id() == self.spec_id() && r.spec_library() == self.spec_library(),
            r.spec_command() == self.spec_command() && r.spec_cwd() == self.spec_cwd(),
            r.spec_env() == self.spec_env() && r.spec_capabilities() == self.spec_capabilities(),
            r.spec_timeout() == self.spec_timeout(),
    {
        proof {
            use_type_invariant(&self);
        }
        let mut r = self;
        r.args = args;
        r
    }

    /// Sets the process working directory.
    pub fn cwd(self, path: &str) -> (r: ProcessLibraryProvider)
        ensures
            r.spec_cwd() == Some(path@),
            r.spec_id() == self.spec_id() && r.spec_library() == self.spec_library(),
            r.spec_command() == self.spec_command() && r.spec_args() == self.spec_args(),
            r.spec_env() == self.spec_env() && r.spec_capabilities() == self.spec_capabilities(),
            r.spec_timeout() == self.spec_timeout(),
    {
        proof {
            use_type_invariant(&self);
        }
        let mut r = self;
        r.cwd = Some(owned(path));
        r
    }

    /// Adds one explicitly authorized environment variable; a later value for the same name
    /// replaces the earlier one.
    pub fn env(self, name: &str, value: &str) -> (r: ProcessLibraryProvider)
        ensures
            entry_written(self.spec_env(), name@, value@, r.spec_env()),
            r.spec_id() == self.spec_id() && r.spec_library() == self.spec_library(),
            r.spec_command() == self.spec_command() && r.spec_args() == self.spec_args(),
            r.spec_cwd() == self.spec_cwd() && r.spec_capabilities() == self.spec_capabilities(),
            r.spec_timeout() == self.spec_timeout(),
    {
        proof {
            use_type_invariant(&self);
        }
        let ProcessLibraryProvider { id, library, command, args, cwd, env, capabilities, timeout } =
            self;
        let mut env = env;
        set_entry(&mut env, owned(name), owned(value));
        ProcessLibraryProvider { id, library, command, args, cwd, env, capabilities, timeout }
    }

    /// Sets the request timeout.
    pub fn timeout(self, timeout: Duration) -> (r: ProcessLibraryProvider)
        ensures
            r.spec_timeout() == timeout,
            r.spec_id() == self.spec_id() && r.spec_library() == self.spec_library(),
            r.spec_command() == self.spec_command() && r.spec_args() == self.spec_args(),
            r.spec_cwd() == self.spec_cwd() && r.spec_env() == self.spec_env(),
            r.spec_capabilities() == self.spec_capabilities(),
    {
        proof {
            use_type_invariant(&self);
        }
        let mut r = self;
        r.timeout = timeout;
        r
    }

    /// Provider identity.
    pub fn provider_id(&self) -> (r: &str)
        ensures
            r@ == self.spec_id(),
    {
        self.id.as_str()
    }

    /// Declared capabilities.
    pub fn capabilities(&self) -> (r: CapabilitySet)
        ensures
            r == self.spec_capabilities(),
    {
        self.capabilities
    }

    /// The Library this provider serves.
    pub fn library(&self) -> (r: &LibraryId)
        ensures
            r@ == self.spec_library(),
    {
        &self.library
    }

    /// Program to run.
    pub fn command(&self) -> (r: &str)
        ensures
            r@ == self.spec_command(),
    {
        self.command.as_str()
    }

    /// Program arguments.
    pub fn arguments(&self) -> (r: &Vec<String>)
        ensures
            crate::text::views(r@) == self.spec_args(),
    {
        &self.args
    }

    /// Working directory, when set.
    pub fn working_dir(&self) -> (r: Option<&str>)
        ensures
            match r {
                Some(p) => self.spec_cwd() == Some(p@),
                None => self.spec_cwd() == None::<Seq<char>>,
            },
    {
        match &self.cwd {
            Some(c) => Some(c.as_str()),
            None => None,
        }
    }

    /// Request timeout.
    pub fn timeout_limit(&self) -> (r: Duration)
        ensures
            r == self.spec_timeout(),
    {
        self.timeout
    }

    /// Environment of the provider process, applied in order: the Library and provider
    /// identities, then the explicitly authorized variables (which may override them).
    pub fn environment(&self) -> (r: Vec<(String, String)>)
        ensures
            pair_views(r@) == seq![
                ("OKF_LIBRARY_ID"@, self.spec_library()),
                ("OKF_PROVIDER_ID"@, self.spec_id()),
            ] + self.spec_env(),
    {
        let mut r: Vec<(String, String)> = Vec::new();
        r.push((owned("OKF_LIBRARY_ID"), self.library.to_text()));
        r.push((owned("OKF_PROVIDER_ID"), self.id.clone()));
        let ghost head = pair_views(r@);
        let mut k: usize = 0;
        while k < self.env.len()
            invariant
                k <= self.env@.len(),
                head == seq![("OKF_LIBRARY_ID"@, self.library@), ("OKF_PROVIDER_ID"@, self.id@)],
                pair_views(r@) == head + pair_views(self.env@).take(k as int),
            decreases self.env@.len() - k,
        {
            let ghost before = r@;
            r.push((self.env[k].0.clone(), self.env[k].1.clone()));
            assert(pair_views(r@) =~= pair_views(before).push(pair_views(self.env@)[k as int]));
            assert(pair_views(self.env@).take(k + 1) =~= pair_views(self.env@).take(k as int).push(
                pair_views(self.env@)[k as int],
            ));
            k = k + 1;
        }
        assert(pair_views(self.env@).take(self.env@.len() as int) =~= pair_views(self.env@));
        r
    }

    /// Checks that the provider is called for its own Library.
    pub fn ensure_library(&self, library: &LibraryId) -> (r: LibraryResult<()>)
        ensures
            self.spec_library() == library@ ==> r is Ok,
            self.spec_library() != library@ ==> (r matches Err(LibraryError::Provider(m)) && m@
                == foreign_library_message("process"@, self.spec_id(), self.spec_library(), library@)),
    {
        check_library("process", self.id.as_str(), &self.library, library)
    }

    /// Decides one invocation from what happened to the process: the response bytes written to
    /// standard output when it exited successfully, otherwise the matching diagnostic.
    pub fn finish_invocation(&self, outcome: ProcessOutcome) -> (r: LibraryResult<Vec<u8>>)
        ensures
            (outcome is Exited && outcome->success) ==> r == Ok::<Vec<u8>, LibraryError>(
                outcome->stdout,
            ),
            outcome is TimedOut ==> (r matches Err(LibraryError::Provider(m)) && exists|
                t: Seq<char>,
            | m@ == outcome_message(self.spec_id(), outcome) + t),
            !(outcome is TimedOut) && !(outcome is Exited && outcome->success) ==> (r matches Err(
                LibraryError::Provider(m),
            ) && m@ == outcome_message(self.spec_id(), outcome)),
    {
        let ghost o = outcome;
        let id = self.id.as_str();
        let m = match outcome {
            ProcessOutcome::StartFailed(e) => {
                let mut m = concat3("failed to start process provider '", id, "': ");
                crate::text::push_all(&mut m, e.as_str());
                m
            },
            ProcessOutcome::NotPiped(ProcessStream::Stdout) => owned("process stdout was not piped"),
            ProcessOutcome::NotPiped(ProcessStream::Stderr) => owned("process stderr was not piped"),
            ProcessOutcome::EncodeFailed(e) => concat2("failed to encode request: ", e.as_str()),
            ProcessOutcome::WriteFailed(e) => concat2(
                "failed to write process provider request: ",
                e.as_str(),
            ),
            ProcessOutcome::FinishFailed(e) => concat2(
                "failed to finish process provider request: ",
                e.as_str(),
            ),
            ProcessOutcome::WaitFailed(e) => concat2("failed waiting for provider: ", e.as_str()),
            ProcessOutcome::ReadFailed(e) => concat2("failed reading provider output: ", e.as_str()),
            ProcessOutcome::ReaderPanicked(ProcessStream::Stdout) => owned(
                "provider stdout reader panicked",
            ),
            ProcessOutcome::ReaderPanicked(ProcessStream::Stderr) => owned(
                "provider stderr reader panicked",
            ),
            ProcessOutcome::TimedOut => {
                let mut m = concat3("process provider '", id, "' timed out after ");
                let ghost head = m@;
                let t = duration_debug_text(&self.timeout);
                crate::text::push_all(&mut m, t.as_str());
                assert(m@ == head + t@);
                assert(m@ == outcome_message(self.spec_id(), o) + t@);
                m
            },
            ProcessOutcome::Exited { success, status, stdout, stderr } => {
                if success {
                    return Ok(stdout);
                }
                let err = trim_chars(&chars_of(stderr.as_str()));
                let mut m = concat5("process provider '", id, "' exited with ", status.as_str(), ": ");
                crate::text::push_all(&mut m, string_from(&err).as_str());
                m
            },
        };
        Err(LibraryError::Provider(m))
    }
}

} // verus!
