//! The decisions of one sign-in flow: the authorization URL it opens, how
//! long it waits for the listener, and how it ends.

use vstd::prelude::*;
use crate::listener::{delivery_of, state_key, ServerState, StartError};
use crate::query::url_param;
use crate::registry::{index_of, keys_of, lemma_index_of, lemma_without_unique, without, ProviderRegistry, RegistryView};

verus! {

/// The port the loopback listener binds.
pub const LISTENER_PORT: u16 = 8080;

/// How many times a flow polls the listener's readiness before giving up.
pub const MAX_READY_POLLS: u32 = 50;

/// The pause between two readiness polls, in milliseconds.
pub const READY_POLL_MILLIS: u64 = 100;

/// How long a flow waits for its credential, in seconds.
pub const FLOW_TIMEOUT_SECS: u64 = 120;

/// The credential a sign-in flow obtained.
pub struct OAuthResult {
    pub access_token: String,
}

/// The credential a Google sign-in flow obtained.
pub struct GoogleOAuthResult {
    pub access_token: String,
}

/// What a flow needs to know of a provider.
#[derive(Clone, Debug)]
pub struct GoogleOAuthConfig {
    pub client_id: String,
    pub scope: String,
    /// The provider's authorization endpoint.
    pub auth_url: String,
}

impl GoogleOAuthConfig {
    /// Google's configuration for `client_id` and `scope`, with Google's
    /// authorization endpoint.
    pub fn google(client_id: String, scope: String) -> (r: GoogleOAuthConfig)
        ensures
            r.client_id@ == client_id@,
            r.scope@ == scope@,
            r.auth_url@ == "https://accounts.google.com/o/oauth2/v2/auth"@,
    {
        GoogleOAuthConfig {
            client_id,
            scope,
            auth_url: String::from_str("https://accounts.google.com/o/oauth2/v2/auth"),
        }
    }
}

/// Why a flow ended without a credential.
#[derive(Clone, Copy, Debug, PartialEq, Eq, Structural)]
pub enum FlowError {
    /// The port could not be bound, or the listener was not ready in time.
    ServerUnavailable,
    /// The authorization URL could not be used.
    InvalidRequest,
    /// The view was closed, the completion cell abandoned, or the wait timed out.
    Cancelled,
}

/// The message a caller shows for `e`.
pub open spec fn message_of(e: FlowError) -> Seq<char> {
    match e {
        FlowError::ServerUnavailable => "Shared OAuth server failed to start. Please try again."@,
        FlowError::InvalidRequest => "Invalid authorization URL"@,
        FlowError::Cancelled => "Authentication cancelled"@,
    }
}

impl FlowError {
    pub fn message(&self) -> (r: String)
        ensures
            r@ == message_of(*self),
    {
        match self {
            FlowError::ServerUnavailable => String::from_str(
                "Shared OAuth server failed to start. Please try again.",
            ),
            FlowError::InvalidRequest => String::from_str("Invalid authorization URL"),
            FlowError::Cancelled => String::from_str("Authentication cancelled"),
        }
    }
}

/// What `urlencoding::encode` makes of a text: every byte of its UTF-8 form
/// but alphanumerics and `-`, `_`, `.`, `~` percent-encoded.
pub uninterp spec fn percent_encoded(s: Seq<char>) -> Seq<char>;

/// The characters `urlencoding::encode` leaves as they are.
pub open spec fn is_unreserved(c: char) -> bool {
    ('a' <= c && c <= 'z') || ('A' <= c && c <= 'Z') || ('0' <= c && c <= '9') || c == '-' || c == '_'
        || c == '.' || c == '~'
}

/// Relies on `urlencoding::encode`: percent-encodes `s`, as a function of `s`
/// alone. Its output holds only unreserved characters, `%` and hex digits, so
/// no `&`, `=`, `?` or `#`; a text of unreserved characters comes out as it is.
#[verifier::external_body]
fn encode(s: &str) -> (r: String)
    ensures
        r@ == percent_encoded(s@),
        forall|i: int| 0 <= i < r@.len() ==> r@[i] != '&' && r@[i] != '=' && r@[i] != '?' && r@[i] != '#',
        (forall|i: int| 0 <= i < s@.len() ==> is_unreserved(s@[i])) ==> r@ == s@,
{
    urlencoding::encode(s).into_owned()
}

/// The address the provider redirects to: the listener's origin and `callback_path`.
pub open spec fn redirect_uri_of(callback_path: Seq<char>) -> Seq<char> {
    "http://localhost:8080"@ + callback_path
}

/// The authorization URL a flow opens: the endpoint, then the client id,
/// redirect address, scope and state (the flow's id, which the provider
/// echoes back), each percent-encoded, asking for a token.
pub open spec fn auth_url_of(
    endpoint: Seq<char>,
    client_id: Seq<char>,
    callback_path: Seq<char>,
    scope: Seq<char>,
    state: Seq<char>,
) -> Seq<char> {
    endpoint + "?client_id="@ + percent_encoded(client_id) + "&redirect_uri="@
        + percent_encoded(redirect_uri_of(callback_path)) + "&response_type=token&scope="@
        + percent_encoded(scope) + "&state="@ + percent_encoded(state)
}

/// The address the provider redirects to for `callback_path` (which starts with `/`).
pub fn redirect_uri(callback_path: &str) -> (r: String)
    ensures
        r@ == redirect_uri_of(callback_path@),
{
    let mut r = String::from_str("http://localhost:8080");
    r.append(callback_path);
    r
}

/// The authorization URL for `config`, redirecting to `callback_path`, with
/// `state` as the state the provider echoes back. A state of unreserved
/// characters ends the URL as it is.
pub fn build_auth_url(config: &GoogleOAuthConfig, callback_path: &str, state: &str) -> (r: String)
    ensures
        r@ == auth_url_of(config.auth_url@, config.client_id@, callback_path@, config.scope@, state@),
        (forall|i: int| 0 <= i < state@.len() ==> is_unreserved(state@[i])) ==> r@.subrange(
            r@.len() - state@.len() - 7,
            r@.len() as int,
        ) == "&state="@ + state@,
{
    let redirect = redirect_uri(callback_path);
    let mut r = config.auth_url.clone();
    r.append("?client_id=");
    r.append(encode(config.client_id.as_str()).as_str());
    r.append("&redirect_uri=");
    r.append(encode(redirect.as_str()).as_str());
    r.append("&response_type=token&scope=");
    r.append(encode(config.scope.as_str()).as_str());
    let ghost before = r@;
    r.append("&state=");
    r.append(encode(state).as_str());
    proof {
        reveal_strlit("&state=");
        if forall|i: int| 0 <= i < state@.len() ==> is_unreserved(state@[i]) {
            assert(r@ == before + ("&state="@ + state@));
            assert(r@.subrange(r@.len() - state@.len() - 7, r@.len() as int) =~= "&state="@ + state@);
        }
    }
    r
}

/// The error a flow reports when the listener could not be started.
pub fn start_failure(e: StartError) -> (r: FlowError)
    ensures
        r == FlowError::ServerUnavailable,
{
    match e {
        StartError::BindFailed => FlowError::ServerUnavailable,
    }
}

/// What a flow does after a readiness poll.
#[derive(Clone, Copy, Debug, PartialEq, Eq, Structural)]
pub enum ReadyStep {
    /// The listener is ready: go on.
    Proceed,
    /// Poll again after a pause.
    Wait,
    /// The listener did not become ready in time.
    GiveUp,
}

/// The decision after poll number `polls` (counting from 1) saw the listener
/// in phase `state`: go on when it is ready, give up when its bind failed or
/// after the last poll, and wait otherwise.
pub fn readiness_step(polls: u32, state: ServerState) -> (r: ReadyStep)
    ensures
        r == (if state == ServerState::Ready {
            ReadyStep::Proceed
        } else if state == ServerState::Stopped || polls >= MAX_READY_POLLS {
            ReadyStep::GiveUp
        } else {
            ReadyStep::Wait
        }),
{
    match state {
        ServerState::Ready => ReadyStep::Proceed,
        ServerState::Stopped => ReadyStep::GiveUp,
        _ => if polls >= MAX_READY_POLLS {
            ReadyStep::GiveUp
        } else {
            ReadyStep::Wait
        },
    }
}

/// How the wait on a flow's completion cell ended.
pub enum WaitOutcome {
    /// The listener delivered this credential.
    Received(String),
    /// The sending half went away without a value.
    Abandoned,
    /// The wait's time ran out.
    TimedOut,
}

/// How a flow ends: its result, and whether the view must still be closed.
pub struct FlowEnd {
    pub result: Result<GoogleOAuthResult, FlowError>,
    pub close_view: bool,
}

/// Ends a flow whose wait ended with `outcome`. The flow leaves the registry
/// in every case; a received credential is the result, and every other
/// outcome is `Cancelled`. The view is closed unless the wait timed out after
/// the user had closed it.
pub fn finish_flow(
    registry: &mut ProviderRegistry,
    flow_id: &str,
    callback_path: &str,
    outcome: WaitOutcome,
    closed_by_user: bool,
) -> (r: FlowEnd)
    requires
        old(registry)@.wf(),
    ensures
        final(registry)@ == old(registry)@.unregistered(flow_id@, callback_path@),
        final(registry)@.wf(),
        !keys_of(final(registry)@.handlers).contains(callback_path@),
        !final(registry)@.pending.contains(flow_id@),
        match outcome {
            WaitOutcome::Received(c) => r.result matches Ok(t) && t.access_token@ == c@ && r.close_view,
            WaitOutcome::Abandoned => r.result == Err::<GoogleOAuthResult, FlowError>(
                FlowError::Cancelled,
            ) && r.close_view,
            WaitOutcome::TimedOut => r.result == Err::<GoogleOAuthResult, FlowError>(
                FlowError::Cancelled,
            ) && r.close_view == !closed_by_user,
        },
{
    registry.unregister(flow_id, callback_path);
    match outcome {
        WaitOutcome::Received(c) => FlowEnd {
            result: Ok(GoogleOAuthResult { access_token: c }),
            close_view: true,
        },
        WaitOutcome::Abandoned => FlowEnd { result: Err(FlowError::Cancelled), close_view: true },
        WaitOutcome::TimedOut => FlowEnd {
            result: Err(FlowError::Cancelled),
            close_view: !closed_by_user,
        },
    }
}

/// Ends a registered flow that failed before its wait began (the view could
/// not be opened): the flow leaves the registry and `error` is the result.
pub fn abort_flow(registry: &mut ProviderRegistry, flow_id: &str, callback_path: &str, error: FlowError) -> (r: FlowError)
    requires
        old(registry)@.wf(),
    ensures
        r == error,
        final(registry)@ == old(registry)@.unregistered(flow_id@, callback_path@),
        final(registry)@.wf(),
        !keys_of(final(registry)@.handlers).contains(callback_path@),
        !final(registry)@.pending.contains(flow_id@),
{
    registry.unregister(flow_id, callback_path);
    error
}

/// Whatever way a flow ends, it leaves no residue: no handler entry for its
/// path, no pending entry for its id, and no later request can deliver to it.
pub proof fn lemma_cleanup_on_every_path(v: RegistryView, flow_id: Seq<char>, path: Seq<char>, url: Seq<char>)
    requires
        v.wf(),
    ensures
        !keys_of(v.unregistered(flow_id, path).handlers).contains(path),
        !v.unregistered(flow_id, path).pending.contains(flow_id),
        v.unregistered(flow_id, path).wf(),
        delivery_of(v.unregistered(flow_id, path), url) matches Some((i, _))
            ==> v.unregistered(flow_id, path).pending[i] != flow_id,
{
    let hs = v.handlers;
    lemma_without_unique(keys_of(hs), path);
    lemma_without_unique(v.pending, flow_id);
    let w = v.unregistered(flow_id, path);
    assert(keys_of(w.handlers) =~= without(keys_of(hs), index_of(keys_of(hs), path)));
    if let Some(id) = url_param(url, state_key(), state_key()) {
        lemma_index_of(w.pending, id);
    }
    if let Some((i, _)) = delivery_of(w, url) {
        assert(w.pending.contains(w.pending[i]));
    }
}

} // verus!
