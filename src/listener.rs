//! The loopback listener: its start-up states, and what it answers to each
//! request and which pending flow a delivered credential goes to.

use vstd::prelude::*;
use tokio::sync::oneshot::Sender;
use crate::query::{find_query_param, has_prefix, is_prefix, url_param};
use crate::registry::{index_of, lemma_index_of, lemma_index_unique, lemma_without_unique, match_index, ProviderRegistry, RegistryView};

verus! {

/// The kind of body a reply carries.
#[derive(Clone, Copy, Debug, PartialEq, Eq, Structural)]
pub enum ContentKind {
    Html,
    Plain,
}

/// What the listener answers to one request.
pub struct Reply {
    pub status: u16,
    pub content_type: ContentKind,
    pub body: String,
}

/// A credential for a pending flow, which has left the registry, with the
/// sending half of that flow's completion cell, on which the caller sends it.
pub struct Delivery {
    pub flow_id: String,
    pub credential: String,
    pub sender: Sender<String>,
}

/// The outcome of serving one request.
pub struct Served {
    pub reply: Reply,
    pub delivered: Option<Delivery>,
}

pub open spec fn token_key() -> Seq<char> {
    seq!['t', 'o', 'k', 'e', 'n']
}

pub open spec fn code_key() -> Seq<char> {
    seq!['c', 'o', 'd', 'e']
}

pub open spec fn state_key() -> Seq<char> {
    seq!['s', 't', 'a', 't', 'e']
}

/// Paths on which a provider's page delivers the credential.
pub open spec fn is_delivery_path(url: Seq<char>) -> bool {
    is_prefix(seq!['/', 't', 'o', 'k', 'e', 'n'], url) || is_prefix(seq!['/', 'c', 'o', 'd', 'e'], url)
}

pub open spec fn is_favicon_path(url: Seq<char>) -> bool {
    is_prefix(seq!['/', 'f', 'a', 'v', 'i', 'c', 'o', 'n', '.', 'i', 'c', 'o'], url)
}

/// The credential a request carries: its first `token` or `code` parameter.
pub open spec fn credential_of(url: Seq<char>) -> Option<Seq<char>> {
    url_param(url, token_key(), code_key())
}

/// The pending flow a credential goes to: the one named by the request's
/// `state` parameter if it has one, otherwise the oldest.
pub open spec fn target_of(pending: Seq<Seq<char>>, url: Seq<char>) -> Option<int> {
    match url_param(url, state_key(), state_key()) {
        Some(id) => if pending.contains(id) {
            Some(index_of(pending, id))
        } else {
            None
        },
        None => if pending.len() > 0 {
            Some(0)
        } else {
            None
        },
    }
}

/// The index of the flow that receives a credential from `url`, and the credential.
pub open spec fn delivery_of(v: RegistryView, url: Seq<char>) -> Option<(int, Seq<char>)> {
    if match_index(v.handlers, url) is None && is_delivery_path(url) {
        match (credential_of(url), target_of(v.pending, url)) {
            (Some(c), Some(i)) => Some((i, c)),
            _ => None,
        }
    } else {
        None
    }
}

pub open spec fn ok_body() -> Seq<char> {
    seq!['O', 'K']
}

pub open spec fn not_found_body() -> Seq<char> {
    seq!['N', 'o', 't', ' ', 'f', 'o', 'u', 'n', 'd']
}

/// Status, content kind and body of the reply to `url`.
pub open spec fn reply_for(v: RegistryView, url: Seq<char>) -> (u16, ContentKind, Seq<char>) {
    match match_index(v.handlers, url) {
        Some(i) => (200, ContentKind::Html, v.handlers[i].1),
        None => if delivery_of(v, url) is Some {
            (200, ContentKind::Plain, ok_body())
        } else if !is_delivery_path(url) && is_favicon_path(url) {
            (404, ContentKind::Plain, Seq::empty())
        } else {
            (404, ContentKind::Plain, not_found_body())
        },
    }
}

/// The registry after serving `url`.
pub open spec fn after_request(v: RegistryView, url: Seq<char>) -> RegistryView {
    match delivery_of(v, url) {
        Some((i, _)) => v.taken(i),
        None => v,
    }
}

fn plain(status: u16, body: &str) -> (r: Reply)
    ensures
        r.status == status,
        r.content_type == ContentKind::Plain,
        r.body@ == body@,
{
    Reply { status, content_type: ContentKind::Plain, body: String::from_str(body) }
}

/// Serves one request for `url`. A registered callback path (the first
/// registered whose path is a prefix) gets its page; `/token` and `/code`
/// take the target flow out of the registry and return its sender with the
/// request's credential, and answer `OK`, or 404 when there is no credential
/// or no target; `/favicon.ico` and anything else get 404.
pub fn handle_request(registry: &mut ProviderRegistry, url: &str) -> (r: Served)
    requires
        old(registry)@.wf(),
    ensures
        (r.reply.status, r.reply.content_type, r.reply.body@) == reply_for(old(registry)@, url@),
        final(registry)@ == after_request(old(registry)@, url@),
        final(registry)@.wf(),
        match delivery_of(old(registry)@, url@) {
            Some((i, c)) => r.delivered matches Some(d) && d.flow_id@ == old(registry)@.pending[i]
                && d.credential@ == c && d.sender == old(registry)@.senders[i],
            None => r.delivered is None,
        },
{
    proof {
        reveal_strlit("token");
        reveal_strlit("code");
        reveal_strlit("state");
        reveal_strlit("/token");
        reveal_strlit("/code");
        reveal_strlit("/favicon.ico");
        reveal_strlit("OK");
        reveal_strlit("Not found");
        reveal_strlit("");
        assert("token"@ =~= token_key());
        assert("code"@ =~= code_key());
        assert("state"@ =~= state_key());
        assert("OK"@ =~= ok_body());
        assert("Not found"@ =~= not_found_body());
        assert(""@ =~= Seq::<char>::empty());
        assert("/token"@ =~= seq!['/', 't', 'o', 'k', 'e', 'n']);
        assert("/code"@ =~= seq!['/', 'c', 'o', 'd', 'e']);
        assert("/favicon.ico"@ =~= seq!['/', 'f', 'a', 'v', 'i', 'c', 'o', 'n', '.', 'i', 'c', 'o']);
    }
    if let Some(page) = registry.match_path(url) {
        return Served {
            reply: Reply { status: 200, content_type: ContentKind::Html, body: page },
            delivered: None,
        };
    }
    if has_prefix(url, "/token") || has_prefix(url, "/code") {
        let credential = find_query_param(url, "token", "code");
        let target = match find_query_param(url, "state", "state") {
            Some(id) => {
                proof {
                    crate::registry::lemma_index_of(registry@.pending, id@);
                }
                let i = registry.flow_index(id.as_str());
                if i < registry.pending_count() {
                    Some(i)
                } else {
                    None
                }
            },
            None => if registry.pending_count() > 0 {
                Some(0)
            } else {
                None
            },
        };
        match (credential, target) {
            (Some(c), Some(i)) => {
                let flow = registry.take_at(i);
                return Served {
                    reply: plain(200, "OK"),
                    delivered: Some(Delivery { flow_id: flow.flow_id, credential: c, sender: flow.sender }),
                };
            },
            _ => {
                return Served { reply: plain(404, "Not found"), delivered: None };
            },
        }
    }
    if has_prefix(url, "/favicon.ico") {
        Served { reply: plain(404, ""), delivered: None }
    } else {
        Served { reply: plain(404, "Not found"), delivered: None }
    }
}

/// The phases of the one listener of a process.
#[derive(Clone, Copy, Debug, PartialEq, Eq, Structural)]
pub enum ServerState {
    NotStarted,
    /// A bind of the port is under way.
    Starting,
    /// The port is bound and requests are served.
    Ready,
    /// The bind failed or the serving loop ended; a later start may bind again.
    Stopped,
}

/// The phase after a start request, and whether that request must bind the port.
pub open spec fn start_step(s: ServerState) -> (ServerState, bool) {
    match s {
        ServerState::NotStarted | ServerState::Stopped => (ServerState::Starting, true),
        _ => (s, false),
    }
}

/// How many of `n` start requests in a row, from phase `s`, bind the port.
pub open spec fn binds_in(s: ServerState, n: nat) -> nat
    decreases n,
{
    if n == 0 {
        0
    } else {
        let (t, b) = start_step(s);
        (if b { 1nat } else { 0nat }) + binds_in(t, (n - 1) as nat)
    }
}

/// Asks for the listener: returns whether the caller must bind the port and
/// run the serving loop. Only a listener that is not started, or has stopped,
/// is started again; one that is starting or ready is left as it is.
pub fn start_shared_oauth_server(state: &mut ServerState) -> (bind: bool)
    ensures
        (*final(state), bind) == start_step(*old(state)),
{
    match *state {
        ServerState::NotStarted | ServerState::Stopped => {
            *state = ServerState::Starting;
            true
        },
        _ => false,
    }
}

/// Why the listener could not be started.
#[derive(Clone, Copy, Debug, PartialEq, Eq, Structural)]
pub enum StartError {
    /// The port could not be bound (another process holds it).
    BindFailed,
}

/// Records the outcome of the bind that a start asked for, and reports it:
/// a failed bind is `BindFailed`.
pub fn bind_finished(state: &mut ServerState, bound: bool) -> (r: Result<(), StartError>)
    ensures
        r == (if bound {
            Ok::<(), StartError>(())
        } else {
            Err(StartError::BindFailed)
        }),
        *old(state) == ServerState::Starting ==> *final(state) == (if bound {
            ServerState::Ready
        } else {
            ServerState::Stopped
        }),
        *old(state) != ServerState::Starting ==> *final(state) == *old(state),
{
    if *state == ServerState::Starting {
        *state = if bound {
            ServerState::Ready
        } else {
            ServerState::Stopped
        };
    }
    if bound {
        Ok(())
    } else {
        Err(StartError::BindFailed)
    }
}

/// Records that the serving loop has ended.
pub fn serving_ended(state: &mut ServerState)
    ensures
        *final(state) == ServerState::Stopped,
{
    *state = ServerState::Stopped;
}

/// Whether the port is bound and requests are served.
pub fn is_shared_server_ready(state: &ServerState) -> (r: bool)
    ensures
        r == (*state == ServerState::Ready),
{
    *state == ServerState::Ready
}

/// One start while the phase is held under a lock: `start_shared_oauth_server`,
/// then, when it asks for a bind, `bind_finished` with whether the port was
/// free. The phase after it and what the caller gets.
pub open spec fn locked_start(s: ServerState, free: bool) -> (ServerState, Result<(), StartError>) {
    if start_step(s).1 {
        if free {
            (ServerState::Ready, Ok(()))
        } else {
            (ServerState::Stopped, Err(StartError::BindFailed))
        }
    } else {
        (s, Ok(()))
    }
}

/// What `n` locked starts in a row get, from phase `s`, while another process
/// holds the port.
pub open spec fn starts_on_held_port(s: ServerState, n: nat) -> Seq<Result<(), StartError>>
    decreases n,
{
    if n == 0 {
        Seq::empty()
    } else {
        seq![locked_start(s, false).1] + starts_on_held_port(locked_start(s, false).0, (n - 1) as nat)
    }
}

/// While another process holds the port, every one of `n` starts from a
/// listener not started (or stopped) fails with `BindFailed`, and the
/// listener is left stopped, never ready.
pub proof fn lemma_held_port_fails_every_start(s: ServerState, n: nat)
    requires
        s == ServerState::NotStarted || s == ServerState::Stopped,
    ensures
        starts_on_held_port(s, n).len() == n,
        forall|k: int| 0 <= k < n ==> starts_on_held_port(s, n)[k] == Err::<(), StartError>(StartError::BindFailed),
        locked_start(s, false).0 == ServerState::Stopped,
    decreases n,
{
    if n > 0 {
        lemma_held_port_fails_every_start(ServerState::Stopped, (n - 1) as nat);
        let rest = starts_on_held_port(ServerState::Stopped, (n - 1) as nat);
        assert forall|k: int| 0 <= k < n implies starts_on_held_port(s, n)[k] == Err::<(), StartError>(
            StartError::BindFailed,
        ) by {
            if k > 0 {
                assert(starts_on_held_port(s, n)[k] == rest[k - 1]);
            }
        }
    }
}

/// What the serving loop saw when it looked for a request.
#[derive(Clone, Copy, Debug, PartialEq, Eq, Structural)]
pub enum Poll {
    Request,
    Idle,
    Failed,
}

/// What the serving loop does next.
#[derive(Clone, Copy, Debug, PartialEq, Eq, Structural)]
pub enum LoopAction {
    Serve,
    Sleep,
    Stop,
}

/// One turn of the serving loop: a shutdown request or a failure to receive
/// stops it; otherwise a request is served, and with none it sleeps.
pub fn next_action(shutdown: bool, poll: Poll) -> (r: LoopAction)
    ensures
        r == (if shutdown || poll == Poll::Failed {
            LoopAction::Stop
        } else if poll == Poll::Request {
            LoopAction::Serve
        } else {
            LoopAction::Sleep
        }),
{
    if shutdown {
        LoopAction::Stop
    } else {
        match poll {
            Poll::Request => LoopAction::Serve,
            Poll::Idle => LoopAction::Sleep,
            Poll::Failed => LoopAction::Stop,
        }
    }
}

/// However many start requests come in a row, at most one of them binds the
/// port; from a listener not yet started, exactly one does, and from one
/// starting or ready, none does.
pub proof fn lemma_at_most_one_start(s: ServerState, n: nat)
    ensures
        binds_in(s, n) <= 1,
        (s == ServerState::NotStarted || s == ServerState::Stopped) && n > 0 ==> binds_in(s, n) == 1,
        (s == ServerState::Starting || s == ServerState::Ready) ==> binds_in(s, n) == 0,
    decreases n,
{
    if n > 0 {
        let (t, b) = start_step(s);
        lemma_at_most_one_start(t, (n - 1) as nat);
    }
}

/// The index a flow id holds in a sequence without duplicates is the one
/// `index_of` finds, and taking it out leaves no other copy.
proof fn lemma_taken_unique(v: RegistryView, i: int)
    requires
        v.wf(),
        0 <= i < v.pending.len(),
    ensures
        index_of(v.pending, v.pending[i]) == i,
        !v.taken(i).pending.contains(v.pending[i]),
        v.taken(i).wf(),
{
    let k = v.pending[i];
    lemma_index_of(v.pending, k);
    lemma_without_unique(v.pending, k);
}

/// Every other pending flow stays pending, with its own sender, when the
/// flow at index `i` is taken out.
proof fn lemma_others_kept(v: RegistryView, i: int)
    requires
        v.wf(),
        0 <= i < v.pending.len(),
    ensures
        forall|b: Seq<char>|
            v.pending.contains(b) && b != v.pending[i] ==> #[trigger] kept(v, v.taken(i), b),
{
    assert forall|b: Seq<char>| v.pending.contains(b) && b != v.pending[i] implies #[trigger] kept(v, v.taken(i), b) by {
        lemma_other_kept(v, i, b);
    }
}

/// Flow `b` is pending in `w` with the sender it had in `v`.
pub open spec fn kept(v: RegistryView, w: RegistryView, b: Seq<char>) -> bool {
    w.pending.contains(b) && w.sender_of(b) == v.sender_of(b)
}

/// Another flow `b` keeps its sender when the flow at index `i` is taken out.
proof fn lemma_other_kept(v: RegistryView, i: int, b: Seq<char>)
    requires
        v.wf(),
        0 <= i < v.pending.len(),
        v.pending.contains(b),
        b != v.pending[i],
    ensures
        v.taken(i).pending.contains(b),
        v.taken(i).sender_of(b) == v.sender_of(b),
{
    let t = v.taken(i);
    let j = index_of(v.pending, b);
    lemma_index_of(v.pending, b);
    lemma_without_unique(v.pending, v.pending[i]);
    lemma_index_unique(v.pending, v.pending[i], i);
    let j2 = if j < i { j } else { j - 1 };
    assert(t.pending[j2] == b);
    lemma_index_unique(t.pending, b, j2);
    assert(t.senders[j2] == v.senders[j]);
}

/// A credential request reaches its flow exactly once: the flow it targets
/// receives the request's credential and leaves the registry, so the same
/// request again never reaches that flow; when the request names its flow
/// by `state`, or no other flow is pending, it then gets 404.
pub proof fn lemma_exactly_once(v: RegistryView, url: Seq<char>, c: Seq<char>)
    requires
        v.wf(),
        match_index(v.handlers, url) is None,
        is_delivery_path(url),
        credential_of(url) == Some(c),
        target_of(v.pending, url) is Some,
    ensures
        delivery_of(v, url) matches Some((i, d)) && d == c && {
            let w = after_request(v, url);
            &&& w == v.taken(i)
            &&& !w.pending.contains(v.pending[i])
            &&& (delivery_of(w, url) matches Some((j, _)) ==> w.pending[j] != v.pending[i])
            &&& (url_param(url, state_key(), state_key()) is Some || v.pending.len() == 1)
                ==> delivery_of(w, url) is None && reply_for(w, url).0 == 404
        },
{
    let i = target_of(v.pending, url)->Some_0;
    match url_param(url, state_key(), state_key()) {
        Some(id) => {
            lemma_index_of(v.pending, id);
        },
        None => {},
    }
    lemma_taken_unique(v, i);
    let w = v.taken(i);
    match url_param(url, state_key(), state_key()) {
        Some(id) => {
            assert(v.pending[i] == id);
            assert(target_of(w.pending, url) is None);
        },
        None => {},
    }
}

/// A credential request that names its flow by `state` reaches that flow and
/// no other: whatever it delivers goes to flow `a`, it delivers when `a` is
/// pending, and every other pending flow stays pending with its own sender.
pub proof fn lemma_no_cross_delivery(v: RegistryView, url: Seq<char>, a: Seq<char>)
    requires
        v.wf(),
        url_param(url, state_key(), state_key()) == Some(a),
    ensures
        delivery_of(v, url) matches Some((i, _)) ==> v.pending[i] == a && i == index_of(v.pending, a)
            && v.senders[i] == v.sender_of(a),
        match_index(v.handlers, url) is None && is_delivery_path(url) && credential_of(url) is Some
            && v.pending.contains(a) ==> delivery_of(v, url) is Some,
        forall|b: Seq<char>| v.pending.contains(b) && b != a ==> #[trigger] kept(v, after_request(v, url), b),
{
    lemma_index_of(v.pending, a);
    if delivery_of(v, url) is Some {
        lemma_taken_unique(v, index_of(v.pending, a));
        lemma_others_kept(v, index_of(v.pending, a));
    } else {
        assert forall|b: Seq<char>| v.pending.contains(b) && b != a implies #[trigger] kept(v, after_request(v, url), b) by {}
    }
}

} // verus!
