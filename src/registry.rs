//! The registry of pending sign-in flows: which callback paths are served,
//! and which flows wait for a credential.

use vstd::prelude::*;
use tokio::sync::oneshot::Sender;
use crate::query::{is_prefix, span_is};

verus! {

/// tokio's `oneshot::Sender`, carried through the registry unopened.
#[verifier::external_type_specification]
#[verifier::external_body]
#[verifier::reject_recursive_types(T)]
pub struct ExSender<T>(tokio::sync::oneshot::Sender<T>);

/// A callback path and the page served when a redirect lands on it.
pub struct CallbackHandler {
    pub path: String,
    pub html: String,
}

/// A flow that waits for a credential, with the sending half of its
/// completion cell.
pub struct PendingFlow {
    pub flow_id: String,
    pub sender: Sender<String>,
}

/// The registry as values: served `(path, page)` pairs in registration order,
/// the ids of pending flows, oldest first, and beside each id the sending
/// half of that flow's completion cell.
pub ghost struct RegistryView {
    pub handlers: Seq<(Seq<char>, Seq<char>)>,
    pub pending: Seq<Seq<char>>,
    pub senders: Seq<Sender<String>>,
}

pub struct ProviderRegistry {
    handlers: Vec<CallbackHandler>,
    pending: Vec<PendingFlow>,
}

/// The keys of a sequence of pairs.
pub open spec fn keys_of(s: Seq<(Seq<char>, Seq<char>)>) -> Seq<Seq<char>> {
    s.map_values(|e: (Seq<char>, Seq<char>)| e.0)
}

/// Index of the first `k` in `keys` at or after `i`, or `keys.len()`.
pub open spec fn index_from(keys: Seq<Seq<char>>, k: Seq<char>, i: int) -> int
    decreases keys.len() - i,
{
    if i < 0 || i >= keys.len() {
        keys.len() as int
    } else if keys[i] == k {
        i
    } else {
        index_from(keys, k, i + 1)
    }
}

/// Index of the first `k` in `keys`, or `keys.len()` when it is absent.
pub open spec fn index_of(keys: Seq<Seq<char>>, k: Seq<char>) -> int {
    index_from(keys, k, 0)
}

/// `s` without the entry at index `i`, if there is one.
pub open spec fn without<T>(s: Seq<T>, i: int) -> Seq<T> {
    if 0 <= i < s.len() {
        s.remove(i)
    } else {
        s
    }
}

/// The handlers after serving `page` on `path`: an existing entry for the path
/// keeps its place and takes the new page; otherwise the entry comes last.
pub open spec fn put_handler(
    hs: Seq<(Seq<char>, Seq<char>)>,
    path: Seq<char>,
    page: Seq<char>,
) -> Seq<(Seq<char>, Seq<char>)> {
    let i = index_of(keys_of(hs), path);
    if i < hs.len() {
        hs.update(i, (path, page))
    } else {
        hs.push((path, page))
    }
}

/// The pending flows after registering `id`: a flow already pending keeps its
/// place (its new completion cell replaces the old one); otherwise it comes last.
pub open spec fn put_flow(ids: Seq<Seq<char>>, id: Seq<char>) -> Seq<Seq<char>> {
    if ids.contains(id) {
        ids
    } else {
        ids.push(id)
    }
}

/// The senders after registering `id` with `sender`: a flow already pending
/// has its sender replaced in place; otherwise the new sender comes last.
pub open spec fn put_sender(
    ids: Seq<Seq<char>>,
    senders: Seq<Sender<String>>,
    id: Seq<char>,
    sender: Sender<String>,
) -> Seq<Sender<String>> {
    if ids.contains(id) {
        senders.update(index_of(ids, id), sender)
    } else {
        senders.push(sender)
    }
}

/// Index of the first handler whose path is a prefix of `url`, from `i` on.
pub open spec fn match_from(hs: Seq<(Seq<char>, Seq<char>)>, url: Seq<char>, i: int) -> Option<int>
    decreases hs.len() - i,
{
    if i < 0 || i >= hs.len() {
        None
    } else if is_prefix(hs[i].0, url) {
        Some(i)
    } else {
        match_from(hs, url, i + 1)
    }
}

/// The first registered handler whose path is a prefix of `url`.
pub open spec fn match_index(hs: Seq<(Seq<char>, Seq<char>)>, url: Seq<char>) -> Option<int> {
    match_from(hs, url, 0)
}

impl RegistryView {
    /// Paths served and flows pending are each listed once.
    pub open spec fn wf(self) -> bool {
        &&& keys_of(self.handlers).no_duplicates()
        &&& self.pending.no_duplicates()
        &&& self.senders.len() == self.pending.len()
    }

    /// The sender of the pending flow `flow_id`.
    pub open spec fn sender_of(self, flow_id: Seq<char>) -> Sender<String> {
        self.senders[index_of(self.pending, flow_id)]
    }

    pub open spec fn registered(
        self,
        flow_id: Seq<char>,
        path: Seq<char>,
        page: Seq<char>,
        sender: Sender<String>,
    ) -> RegistryView {
        RegistryView {
            handlers: put_handler(self.handlers, path, page),
            pending: put_flow(self.pending, flow_id),
            senders: put_sender(self.pending, self.senders, flow_id, sender),
        }
    }

    pub open spec fn unregistered(self, flow_id: Seq<char>, path: Seq<char>) -> RegistryView {
        RegistryView {
            handlers: without(self.handlers, index_of(keys_of(self.handlers), path)),
            pending: without(self.pending, index_of(self.pending, flow_id)),
            senders: without(self.senders, index_of(self.pending, flow_id)),
        }
    }

    /// The view once the pending flow at index `i` has been handed its credential.
    pub open spec fn taken(self, i: int) -> RegistryView {
        RegistryView {
            handlers: self.handlers,
            pending: without(self.pending, i),
            senders: without(self.senders, i),
        }
    }
}

impl View for ProviderRegistry {
    type V = RegistryView;

    closed spec fn view(&self) -> RegistryView {
        RegistryView {
            handlers: self.handlers@.map_values(|h: CallbackHandler| (h.path@, h.html@)),
            pending: self.pending@.map_values(|p: PendingFlow| p.flow_id@),
            senders: self.pending@.map_values(|p: PendingFlow| p.sender),
        }
    }
}

pub proof fn lemma_index_from(keys: Seq<Seq<char>>, k: Seq<char>, i: int)
    requires
        0 <= i <= keys.len(),
    ensures
        i <= index_from(keys, k, i) <= keys.len(),
        index_from(keys, k, i) < keys.len() ==> keys[index_from(keys, k, i)] == k,
        forall|j: int| i <= j < index_from(keys, k, i) ==> keys[j] != k,
    decreases keys.len() - i,
{
    if i < keys.len() && keys[i] != k {
        lemma_index_from(keys, k, i + 1);
    }
}

/// `index_of` finds `k` exactly when `k` is there.
pub proof fn lemma_index_of(keys: Seq<Seq<char>>, k: Seq<char>)
    ensures
        0 <= index_of(keys, k) <= keys.len(),
        index_of(keys, k) < keys.len() <==> keys.contains(k),
        index_of(keys, k) < keys.len() ==> keys[index_of(keys, k)] == k,
{
    lemma_index_from(keys, k, 0);
    if keys.contains(k) {
        let j = choose|j: int| 0 <= j < keys.len() && keys[j] == k;
        assert(index_of(keys, k) <= j);
    }
}

/// In a sequence without duplicates, the one place that holds `k` is the
/// place `index_of` finds.
pub proof fn lemma_index_unique(keys: Seq<Seq<char>>, k: Seq<char>, j: int)
    requires
        keys.no_duplicates(),
        0 <= j < keys.len(),
        keys[j] == k,
    ensures
        index_of(keys, k) == j,
{
    lemma_index_of(keys, k);
    assert(keys.contains(k));
}

/// Removing the one place that holds `k` from a sequence without duplicates
/// leaves no `k`, and keeps the sequence free of duplicates.
pub proof fn lemma_without_unique(keys: Seq<Seq<char>>, k: Seq<char>)
    requires
        keys.no_duplicates(),
    ensures
        !without(keys, index_of(keys, k)).contains(k),
        without(keys, index_of(keys, k)).no_duplicates(),
{
    lemma_index_of(keys, k);
    let i = index_of(keys, k);
    let r = without(keys, i);
    if i < keys.len() {
        assert forall|j: int| 0 <= j < r.len() implies r[j] != k by {
            if j < i {
                assert(r[j] == keys[j]);
            } else {
                assert(r[j] == keys[j + 1]);
            }
        }
        assert forall|a: int, b: int| 0 <= a < r.len() && 0 <= b < r.len() && a != b implies r[a] != r[b] by {
            let a2 = if a < i { a } else { a + 1 };
            let b2 = if b < i { b } else { b + 1 };
            assert(r[a] == keys[a2]);
            assert(r[b] == keys[b2]);
        }
    }
}

/// Whether two texts are equal.
fn same_text(a: &str, b: &str) -> (r: bool)
    ensures
        r == (a@ == b@),
{
    let n = a.unicode_len();
    assert(a@.subrange(0, n as int) =~= a@);
    span_is(a, 0, n, b)
}

impl ProviderRegistry {
    /// An empty registry: no path served, no flow pending.
    pub fn new() -> (r: ProviderRegistry)
        ensures
            r@.handlers.len() == 0,
            r@.pending.len() == 0,
            r@.wf(),
    {
        let r = ProviderRegistry { handlers: Vec::new(), pending: Vec::new() };
        assert(r@.handlers =~= Seq::empty());
        assert(r@.pending =~= Seq::empty());
        assert(r@.senders =~= Seq::empty());
        r
    }

    /// Index of the handler for `path` (the number of handlers when none).
    fn handler_index(&self, path: &str) -> (r: usize)
        ensures
            r == index_of(keys_of(self@.handlers), path@),
    {
        let ghost keys = keys_of(self@.handlers);
        let mut i: usize = 0;
        while i < self.handlers.len()
            invariant
                i <= self.handlers@.len(),
                keys.len() == self.handlers@.len(),
                keys == keys_of(self@.handlers),
                forall|j: int| 0 <= j < self.handlers@.len() ==> keys[j] == #[trigger] self.handlers@[j].path@,
                index_of(keys, path@) == index_from(keys, path@, i as int),
            decreases self.handlers@.len() - i,
        {
            if same_text(self.handlers[i].path.as_str(), path) {
                return i;
            }
            i = i + 1;
        }
        i
    }

    /// Index of the pending flow `flow_id` (the number of pending flows when none).
    pub(crate) fn flow_index(&self, flow_id: &str) -> (r: usize)
        ensures
            r == index_of(self@.pending, flow_id@),
    {
        let ghost ids = self@.pending;
        let mut i: usize = 0;
        while i < self.pending.len()
            invariant
                i <= self.pending@.len(),
                ids.len() == self.pending@.len(),
                ids == self@.pending,
                forall|j: int| 0 <= j < self.pending@.len() ==> ids[j] == #[trigger] self.pending@[j].flow_id@,
                index_of(ids, flow_id@) == index_from(ids, flow_id@, i as int),
            decreases self.pending@.len() - i,
        {
            if same_text(self.pending[i].flow_id.as_str(), flow_id) {
                return i;
            }
            i = i + 1;
        }
        i
    }

    /// Serves `html` on `callback_path` and records `flow_id` as pending with
    /// `sender` as its completion cell. Both entries are in place when this
    /// returns; a path or flow already present keeps its place.
    pub fn register(&mut self, flow_id: String, callback_path: String, sender: Sender<String>, html: String)
        requires
            old(self)@.wf(),
        ensures
            final(self)@ == old(self)@.registered(flow_id@, callback_path@, html@, sender),
            final(self)@.wf(),
            final(self)@.pending.contains(flow_id@),
            final(self)@.sender_of(flow_id@) == sender,
            keys_of(final(self)@.handlers).contains(callback_path@),
            forall|j: int|
                0 <= j < old(self)@.pending.len() && old(self)@.pending[j] != flow_id@ ==> {
                    &&& final(self)@.pending[j] == old(self)@.pending[j]
                    &&& final(self)@.senders[j] == old(self)@.senders[j]
                },
    {
        let ghost pre = self@;
        proof {
            lemma_index_of(keys_of(pre.handlers), callback_path@);
            lemma_index_of(pre.pending, flow_id@);
        }
        let hi = self.handler_index(callback_path.as_str());
        let ghost path = callback_path@;
        let ghost page = html@;
        let entry = CallbackHandler { path: callback_path, html };
        if hi < self.handlers.len() {
            let _ = self.handlers.remove(hi);
            self.handlers.insert(hi, entry);
        } else {
            self.handlers.push(entry);
        }
        assert(self@.handlers =~= put_handler(pre.handlers, path, page));
        let fi = self.flow_index(flow_id.as_str());
        let ghost id = flow_id@;
        let ghost tx = sender;
        if fi < self.pending.len() {
            let _ = self.pending.remove(fi);
            self.pending.insert(fi, PendingFlow { flow_id, sender });
            assert(self@.pending =~= pre.pending);
            assert(self@.senders =~= pre.senders.update(fi as int, tx));
        } else {
            self.pending.push(PendingFlow { flow_id, sender });
            assert(self@.pending =~= pre.pending.push(id));
            assert(self@.senders =~= pre.senders.push(tx));
        }
        proof {
            lemma_index_of(self@.pending, id);
            if index_of(self@.pending, id) != fi {
                assert(self@.pending[fi as int] == id);
            }
        }
        proof {
            let ks = keys_of(self@.handlers);
            let k0 = keys_of(pre.handlers);
            if hi < pre.handlers.len() {
                assert(ks =~= k0);
            } else {
                assert(ks =~= k0.push(path));
            }
            assert(ks.contains(path)) by {
                if hi < pre.handlers.len() {
                    assert(ks[hi as int] == path);
                } else {
                    assert(ks[k0.len() as int] == path);
                }
            }
            assert(self@.pending.contains(id)) by {
                if fi < pre.pending.len() {
                    assert(self@.pending[fi as int] == id);
                } else {
                    assert(self@.pending[pre.pending.len() as int] == id);
                }
            }
        }
    }

    /// Removes the page served on `callback_path` and the pending flow
    /// `flow_id`, where they are present; an absent entry is left alone.
    pub fn unregister(&mut self, flow_id: &str, callback_path: &str)
        requires
            old(self)@.wf(),
        ensures
            final(self)@ == old(self)@.unregistered(flow_id@, callback_path@),
            final(self)@.wf(),
            !keys_of(final(self)@.handlers).contains(callback_path@),
            !final(self)@.pending.contains(flow_id@),
    {
        let ghost pre = self@;
        proof {
            lemma_index_of(keys_of(pre.handlers), callback_path@);
            lemma_index_of(pre.pending, flow_id@);
            lemma_without_unique(keys_of(pre.handlers), callback_path@);
            lemma_without_unique(pre.pending, flow_id@);
        }
        let hi = self.handler_index(callback_path);
        if hi < self.handlers.len() {
            let _ = self.handlers.remove(hi);
        }
        let fi = self.flow_index(flow_id);
        if fi < self.pending.len() {
            let _ = self.pending.remove(fi);
        }
        assert(self@.handlers =~= without(pre.handlers, hi as int));
        assert(self@.pending =~= without(pre.pending, fi as int));
        assert(self@.senders =~= without(pre.senders, fi as int));
        assert(keys_of(self@.handlers) =~= without(keys_of(pre.handlers), hi as int));
    }

    /// The page of the first registered handler whose path is a prefix of `url`.
    pub fn match_path(&self, url: &str) -> (r: Option<String>)
        ensures
            match match_index(self@.handlers, url@) {
                Some(i) => r matches Some(page) && page@ == self@.handlers[i].1,
                None => r is None,
            },
    {
        let mut i: usize = 0;
        while i < self.handlers.len()
            invariant
                i <= self.handlers@.len(),
                match_index(self@.handlers, url@) == match_from(self@.handlers, url@, i as int),
            decreases self.handlers@.len() - i,
        {
            if crate::query::has_prefix(url, self.handlers[i].path.as_str()) {
                return Some(self.handlers[i].html.clone());
            }
            i = i + 1;
        }
        None
    }

    /// How many flows are pending.
    pub fn pending_count(&self) -> (r: usize)
        ensures
            r == self@.pending.len(),
    {
        self.pending.len()
    }

    /// Takes out the pending flow at index `i`.
    pub(crate) fn take_at(&mut self, i: usize) -> (r: PendingFlow)
        requires
            i < old(self)@.pending.len(),
            old(self)@.wf(),
        ensures
            final(self)@ == old(self)@.taken(i as int),
            r.flow_id@ == old(self)@.pending[i as int],
            r.sender == old(self)@.senders[i as int],
            final(self)@.wf(),
            !final(self)@.pending.contains(r.flow_id@),
    {
        let ghost pre = self@;
        let r = self.pending.remove(i);
        assert(self@.pending =~= pre.pending.remove(i as int));
        assert(self@.senders =~= pre.senders.remove(i as int));
        proof {
            lemma_index_of(pre.pending, r.flow_id@);
            if index_of(pre.pending, r.flow_id@) != i {
                assert(pre.pending[index_of(pre.pending, r.flow_id@)] == pre.pending[i as int]);
            }
            lemma_without_unique(pre.pending, r.flow_id@);
        }
        r
    }

    /// Takes out the completion cell of the pending flow `flow_id`, if it is pending.
    pub fn take_sender(&mut self, flow_id: &str) -> (r: Option<Sender<String>>)
        requires
            old(self)@.wf(),
        ensures
            r is Some <==> old(self)@.pending.contains(flow_id@),
            r matches Some(tx) ==> tx == old(self)@.sender_of(flow_id@),
            final(self)@ == old(self)@.taken(index_of(old(self)@.pending, flow_id@)),
            final(self)@.wf(),
            !final(self)@.pending.contains(flow_id@),
    {
        proof {
            lemma_index_of(self@.pending, flow_id@);
            lemma_without_unique(self@.pending, flow_id@);
        }
        let i = self.flow_index(flow_id);
        if i < self.pending.len() {
            Some(self.take_at(i).sender)
        } else {
            None
        }
    }

    /// Takes out the completion cell of the oldest pending flow, if any.
    pub fn take_oldest(&mut self) -> (r: Option<Sender<String>>)
        requires
            old(self)@.wf(),
        ensures
            r is Some <==> old(self)@.pending.len() > 0,
            r matches Some(tx) ==> tx == old(self)@.senders[0],
            final(self)@ == old(self)@.taken(0),
            final(self)@.wf(),
    {
        if self.pending.len() > 0 {
            Some(self.take_at(0).sender)
        } else {
            None
        }
    }
}

/// Registers a flow of `provider_id`: its page `callback_html` is served on
/// `callback_path`, and `auth_channel` receives its credential.
pub fn register_oauth_provider(
    registry: &mut ProviderRegistry,
    provider_id: String,
    callback_path: String,
    auth_channel: Sender<String>,
    callback_html: String,
)
    requires
        old(registry)@.wf(),
    ensures
        final(registry)@ == old(registry)@.registered(provider_id@, callback_path@, callback_html@, auth_channel),
        final(registry)@.wf(),
        final(registry)@.sender_of(provider_id@) == auth_channel,
        forall|j: int|
            0 <= j < old(registry)@.pending.len() && old(registry)@.pending[j] != provider_id@ ==> {
                &&& final(registry)@.pending[j] == old(registry)@.pending[j]
                &&& final(registry)@.senders[j] == old(registry)@.senders[j]
            },
{
    registry.register(provider_id, callback_path, auth_channel, callback_html);
}

/// Removes the flow of `provider_id` and the page on `callback_path`; what is
/// absent is left alone.
pub fn unregister_oauth_provider(registry: &mut ProviderRegistry, provider_id: &str, callback_path: &str)
    requires
        old(registry)@.wf(),
    ensures
        final(registry)@ == old(registry)@.unregistered(provider_id@, callback_path@),
        final(registry)@.wf(),
        !keys_of(final(registry)@.handlers).contains(callback_path@),
        !final(registry)@.pending.contains(provider_id@),
{
    registry.unregister(provider_id, callback_path);
}

/// Unregistering is idempotent: a second unregistering of the same flow
/// changes nothing, nor does unregistering a flow and path that are absent.
pub proof fn lemma_unregister_idempotent(v: RegistryView, flow_id: Seq<char>, path: Seq<char>)
    requires
        v.wf(),
    ensures
        v.unregistered(flow_id, path).unregistered(flow_id, path) == v.unregistered(flow_id, path),
        !keys_of(v.handlers).contains(path) && !v.pending.contains(flow_id) ==> v.unregistered(flow_id, path) == v,
{
    let hs = v.handlers;
    let hi = index_of(keys_of(hs), path);
    lemma_index_of(keys_of(hs), path);
    lemma_index_of(v.pending, flow_id);
    lemma_without_unique(keys_of(hs), path);
    lemma_without_unique(v.pending, flow_id);
    let w = v.unregistered(flow_id, path);
    assert(keys_of(w.handlers) =~= without(keys_of(hs), hi));
    lemma_index_of(keys_of(w.handlers), path);
    lemma_index_of(w.pending, flow_id);
    assert(w.unregistered(flow_id, path) =~= w);
}

} // verus!
