//! The session's shared state: negotiated parameters, identity fields, the
//! two handle generators, the outbound request queue, the in-flight
//! registry, the response correlator and the subscription-acknowledgement
//! accumulator.
//!
//! Every operation here is non-blocking and none of them fails: absence is
//! reported structurally (an empty option or sequence), and timeout
//! detection belongs to the calling dispatch layer. Callers that share a
//! session between a sender and a receiver path must serialize whole
//! logical operations on it behind one exclusive-access guard.

use vstd::prelude::*;
use std::collections::VecDeque;
use crate::basic_types::NodeId;
use crate::basic_types::UAString;
use crate::basic_types::ExtensionObject;
use crate::basic_types::DateTime;
use crate::handle::Handle;
use crate::message::RequestHeader;
use crate::message::SubscriptionAcknowledgement;
use crate::message::SupportedMessage;

verus! {

pub const DEFAULT_SESSION_TIMEOUT: u32 = 60 * 1000;

pub const DEFAULT_REQUEST_TIMEOUT: u32 = 10 * 1000;

pub const SEND_BUFFER_SIZE: usize = 65536;

pub const RECEIVE_BUFFER_SIZE: usize = 65536;

pub const MAX_BUFFER_SIZE: usize = 65536;

/// A request waiting to be transmitted, with its dispatch flag: `true`
/// means the caller is notified later through the asynchronous drain,
/// `false` means the caller polls for this specific response.
pub type PendingRequest = (SupportedMessage, bool);

/// An arrived response held until claimed, with its dispatch flag.
pub type ResolvedResponse = (SupportedMessage, bool);

/// The request handle a held response is keyed by: the one embedded in the
/// response message itself.
pub open spec fn entry_handle(e: ResolvedResponse) -> u32 {
    e.0.spec_request_handle()
}

/// No two held responses share a request handle.
pub open spec fn unique_handles(s: Seq<ResolvedResponse>) -> bool {
    forall|i: int, j: int|
        0 <= i < j < s.len() ==> entry_handle(s[i]) != entry_handle(s[j])
}

/// Some held response is keyed by `h`.
pub open spec fn has_handle(s: Seq<ResolvedResponse>, h: u32) -> bool {
    exists|i: int| 0 <= i < s.len() && entry_handle(s[i]) == h
}

/// The position of the response keyed by `h`.
pub open spec fn index_of_handle(s: Seq<ResolvedResponse>, h: u32) -> int {
    choose|i: int| 0 <= i < s.len() && entry_handle(s[i]) == h
}

/// The held responses read as a mapping from request handle to response.
pub open spec fn map_of_responses(s: Seq<ResolvedResponse>) -> Map<u32, ResolvedResponse> {
    Map::new(|h: u32| has_handle(s, h), |h: u32| s[index_of_handle(s, h)])
}

proof fn lemma_map_at(s: Seq<ResolvedResponse>, i: int)
    requires
        unique_handles(s),
        0 <= i < s.len(),
    ensures
        map_of_responses(s).contains_key(entry_handle(s[i])),
        map_of_responses(s)[entry_handle(s[i])] == s[i],
{
    let h = entry_handle(s[i]);
    assert(has_handle(s, h));
    let j = index_of_handle(s, h);
    assert(0 <= j < s.len() && entry_handle(s[j]) == h);
    if i != j {
        assert(false);
    }
}

proof fn lemma_map_of_update(s: Seq<ResolvedResponse>, i: int, e: ResolvedResponse)
    requires
        unique_handles(s),
        0 <= i < s.len(),
        entry_handle(e) == entry_handle(s[i]),
    ensures
        unique_handles(s.update(i, e)),
        map_of_responses(s.update(i, e)) == map_of_responses(s).insert(entry_handle(e), e),
{
    let h = entry_handle(e);
    let s2 = s.update(i, e);
    assert forall|k: u32| has_handle(s2, k) implies has_handle(s, k) by {
        let j = choose|j: int| 0 <= j < s2.len() && entry_handle(s2[j]) == k;
        if j == i {
            assert(entry_handle(s[i]) == k);
        } else {
            assert(entry_handle(s[j]) == k);
        }
    }
    assert forall|k: u32| has_handle(s, k) implies has_handle(s2, k) by {
        let j = choose|j: int| 0 <= j < s.len() && entry_handle(s[j]) == k;
        if j == i {
            assert(entry_handle(s2[i]) == k);
        } else {
            assert(entry_handle(s2[j]) == k);
        }
    }
    assert forall|k: u32| #[trigger] map_of_responses(s2).contains_key(k) implies
        map_of_responses(s2)[k] == map_of_responses(s).insert(h, e)[k] by {
        if k == h {
            lemma_map_at(s2, i);
        } else {
            let j = choose|j: int| 0 <= j < s.len() && entry_handle(s[j]) == k;
            assert(entry_handle(s2[j]) == k);
            lemma_map_at(s, j);
            lemma_map_at(s2, j);
        }
    }
    assert(map_of_responses(s2) =~= map_of_responses(s).insert(h, e));
}

proof fn lemma_map_of_push(s: Seq<ResolvedResponse>, e: ResolvedResponse)
    requires
        unique_handles(s),
        !has_handle(s, entry_handle(e)),
    ensures
        unique_handles(s.push(e)),
        map_of_responses(s.push(e)) == map_of_responses(s).insert(entry_handle(e), e),
{
    let h = entry_handle(e);
    let s2 = s.push(e);
    assert forall|i: int, j: int| 0 <= i < j < s2.len() implies
        entry_handle(s2[i]) != entry_handle(s2[j]) by {
        if j == s.len() {
            assert(entry_handle(s2[i]) == entry_handle(s[i]));
            if entry_handle(s[i]) == h {
                assert(has_handle(s, h));
            }
        }
    }
    assert forall|k: u32| #[trigger] map_of_responses(s2).contains_key(k) implies
        map_of_responses(s2)[k] == map_of_responses(s).insert(h, e)[k] by {
        if k == h {
            assert(entry_handle(s2[s.len() as int]) == h);
            lemma_map_at(s2, s.len() as int);
        } else {
            let j = choose|j: int| 0 <= j < s2.len() && entry_handle(s2[j]) == k;
            assert(j < s.len());
            assert(entry_handle(s[j]) == k);
            lemma_map_at(s, j);
            lemma_map_at(s2, j);
        }
    }
    assert forall|k: u32| map_of_responses(s).insert(h, e).contains_key(k) implies
        #[trigger] map_of_responses(s2).contains_key(k) by {
        if k == h {
            assert(entry_handle(s2[s.len() as int]) == h);
        } else {
            let j = choose|j: int| 0 <= j < s.len() && entry_handle(s[j]) == k;
            assert(entry_handle(s2[j]) == k);
        }
    }
    assert(map_of_responses(s2) =~= map_of_responses(s).insert(h, e));
}

proof fn lemma_map_of_remove(s: Seq<ResolvedResponse>, i: int)
    requires
        unique_handles(s),
        0 <= i < s.len(),
    ensures
        unique_handles(s.remove(i)),
        map_of_responses(s.remove(i)) == map_of_responses(s).remove(entry_handle(s[i])),
{
    let h = entry_handle(s[i]);
    let s2 = s.remove(i);
    assert(s2.len() == s.len() - 1);
    assert forall|j: int| 0 <= j < s2.len() implies s2[j] == (if j < i {
        s[j]
    } else {
        s[j + 1]
    }) by {}
    assert forall|p: int, q: int| 0 <= p < q < s2.len() implies
        entry_handle(s2[p]) != entry_handle(s2[q]) by {}
    assert forall|k: u32| #[trigger] map_of_responses(s2).contains_key(k) implies
        map_of_responses(s).remove(h).contains_key(k)
            && map_of_responses(s2)[k] == map_of_responses(s).remove(h)[k] by {
        let j = choose|j: int| 0 <= j < s2.len() && entry_handle(s2[j]) == k;
        let j0 = if j < i { j } else { j + 1 };
        assert(entry_handle(s[j0]) == k);
        if k == h {
            assert(j0 != i);
            assert(entry_handle(s[j0]) == entry_handle(s[i]));
            assert(false);
        }
        lemma_map_at(s, j0);
        lemma_map_at(s2, j);
    }
    assert forall|k: u32| #[trigger] map_of_responses(s).remove(h).contains_key(k) implies
        map_of_responses(s2).contains_key(k) by {
        let j0 = choose|j: int| 0 <= j < s.len() && entry_handle(s[j]) == k;
        assert(j0 != i);
        let j = if j0 < i { j0 } else { j0 - 1 };
        assert(entry_handle(s2[j]) == k);
    }
    assert(map_of_responses(s2) =~= map_of_responses(s).remove(h));
}

proof fn lemma_to_set_remove(s: Seq<(u32, bool)>, i: int)
    requires
        0 <= i < s.len(),
        s.no_duplicates(),
    ensures
        s.remove(i).no_duplicates(),
        s.remove(i).to_set() == s.to_set().remove(s[i]),
{
    let s2 = s.remove(i);
    assert(s2.len() == s.len() - 1);
    assert forall|j: int| 0 <= j < s2.len() implies s2[j] == (if j < i {
        s[j]
    } else {
        s[j + 1]
    }) by {}
    assert forall|p: int, q: int| 0 <= p < q < s2.len() implies s2[p] != s2[q] by {}
    assert forall|x: (u32, bool)| #[trigger] s2.to_set().contains(x) implies
        s.to_set().remove(s[i]).contains(x) by {
        let j = choose|j: int| 0 <= j < s2.len() && s2[j] == x;
        let j0 = if j < i { j } else { j + 1 };
        assert(s[j0] == x);
        assert(s.contains(x));
        assert(x != s[i]);
    }
    assert forall|x: (u32, bool)| #[trigger] s.to_set().remove(s[i]).contains(x) implies
        s2.to_set().contains(x) by {
        let j0 = choose|j: int| 0 <= j < s.len() && s[j] == x;
        assert(j0 != i);
        let j = if j0 < i { j0 } else { j0 - 1 };
        assert(s2[j] == x);
        assert(s2.contains(x));
    }
    assert(s2.to_set() =~= s.to_set().remove(s[i]));
}

/// The session state read abstractly: the registry as the set it is, the
/// held responses as the mapping they form, and the queue in dequeue order
/// from the back.
pub struct SessionView {
    pub request_timeout: u32,
    pub session_timeout: u32,
    pub send_buffer_size: usize,
    pub receive_buffer_size: usize,
    pub max_message_size: usize,
    pub session_id: NodeId,
    pub authentication_token: NodeId,
    pub request_handle: Handle,
    pub monitored_item_handle: Handle,
    pub subscription_acknowledgements: Seq<SubscriptionAcknowledgement>,
    pub wait_for_publish_response: bool,
    /// Queued requests, newest first; dequeued from the back.
    pub requests: Seq<PendingRequest>,
    /// The (handle, dispatch flag) pairs sent but not resolved.
    pub inflight: Set<(u32, bool)>,
    /// Held responses keyed by their embedded request handle.
    pub responses: Map<u32, ResolvedResponse>,
}

/// The session's state: connection parameters, identity, and the four
/// sub-components of the request lifecycle, composed so that the sender and
/// receiver paths observe them as one unit.
pub struct SessionState {
    /// How long a caller waits for a response to a sent request before
    /// giving up on it; consumed as the timeout hint in request headers.
    pub request_timeout: u32,
    /// Session timeout in milliseconds, as negotiated with the server.
    pub session_timeout: u32,
    /// Size of the send buffer.
    pub send_buffer_size: usize,
    /// Size of the receive buffer.
    pub receive_buffer_size: usize,
    /// Maximum message size.
    pub max_message_size: usize,
    /// The session's id, server-assigned; null until the session is created.
    session_id: NodeId,
    /// The session authentication token; null until activation, required on
    /// every subsequent request header.
    pub authentication_token: NodeId,
    /// The generator for request handles.
    request_handle: Handle,
    /// The generator for client-side monitored-item handles; offset so its
    /// values never alias request handles in practice.
    monitored_item_handle: Handle,
    /// Acknowledgements accumulated for the next publish request.
    pub subscription_acknowledgements: Vec<SubscriptionAcknowledgement>,
    /// Tells the client to wait for a publish response before issuing a new
    /// publish request.
    pub wait_for_publish_response: bool,
    /// Requests not yet sent, newest first; dequeued oldest first.
    requests: VecDeque<PendingRequest>,
    /// The (handle, dispatch flag) pairs of requests sent but not resolved.
    inflight_requests: Vec<(u32, bool)>,
    /// Arrived responses waiting to be claimed, keyed by request handle.
    responses: Vec<ResolvedResponse>,
}

impl View for SessionState {
    type V = SessionView;

    closed spec fn view(&self) -> SessionView {
        SessionView {
            request_timeout: self.request_timeout,
            session_timeout: self.session_timeout,
            send_buffer_size: self.send_buffer_size,
            receive_buffer_size: self.receive_buffer_size,
            max_message_size: self.max_message_size,
            session_id: self.session_id,
            authentication_token: self.authentication_token,
            request_handle: self.request_handle,
            monitored_item_handle: self.monitored_item_handle,
            subscription_acknowledgements: self.subscription_acknowledgements@,
            wait_for_publish_response: self.wait_for_publish_response,
            requests: self.requests@,
            inflight: self.inflight_requests@.to_set(),
            responses: map_of_responses(self.responses@),
        }
    }
}

impl SessionState {
    /// The held responses in storage order, behind the map the view shows.
    pub closed spec fn responses_seq(self) -> Seq<ResolvedResponse> {
        self.responses@
    }

    /// The in-flight entries in storage order, behind the set the view shows.
    pub closed spec fn inflight_seq(self) -> Seq<(u32, bool)> {
        self.inflight_requests@
    }

    /// Internal consistency: both generators are well formed, no two held
    /// responses share a handle, and the in-flight registry holds no
    /// duplicate entry.
    pub open spec fn wf(self) -> bool {
        &&& self@.request_handle.wf()
        &&& self@.monitored_item_handle.wf()
        &&& unique_handles(self.responses_seq())
        &&& self.inflight_seq().no_duplicates()
    }

    /// A fresh session with default parameters, null identity, a request
    /// handle generator starting at 1 and a monitored-item handle generator
    /// starting at 1000, and nothing queued, in flight, held or pending.
    pub fn new() -> (r: SessionState)
        ensures
            r.wf(),
            r@.session_timeout == DEFAULT_SESSION_TIMEOUT,
            r@.request_timeout == DEFAULT_REQUEST_TIMEOUT,
            r@.send_buffer_size == SEND_BUFFER_SIZE,
            r@.receive_buffer_size == RECEIVE_BUFFER_SIZE,
            r@.max_message_size == MAX_BUFFER_SIZE,
            r@.session_id.spec_is_null(),
            r@.authentication_token.spec_is_null(),
            r@.request_handle.counter() == 1,
            r@.request_handle.wrap_boundary() == u32::MAX,
            r@.monitored_item_handle.counter() == 1000,
            r@.monitored_item_handle.wrap_boundary() == u32::MAX,
            r@.requests == Seq::<PendingRequest>::empty(),
            r@.inflight == Set::<(u32, bool)>::empty(),
            r@.responses == Map::<u32, ResolvedResponse>::empty(),
            r@.subscription_acknowledgements == Seq::<SubscriptionAcknowledgement>::empty(),
            !r@.wait_for_publish_response,
    {
        let r = SessionState {
            session_timeout: DEFAULT_SESSION_TIMEOUT,
            request_timeout: DEFAULT_REQUEST_TIMEOUT,
            send_buffer_size: SEND_BUFFER_SIZE,
            receive_buffer_size: RECEIVE_BUFFER_SIZE,
            max_message_size: MAX_BUFFER_SIZE,
            request_handle: Handle::new(1),
            session_id: NodeId::null(),
            authentication_token: NodeId::null(),
            monitored_item_handle: Handle::new(1000),
            requests: VecDeque::new(),
            inflight_requests: Vec::new(),
            responses: Vec::new(),
            subscription_acknowledgements: Vec::new(),
            wait_for_publish_response: false,
        };
        proof {
            assert(r@.inflight =~= Set::<(u32, bool)>::empty());
            assert(r@.responses =~= Map::<u32, ResolvedResponse>::empty());
        }
        r
    }

    /// Records the server-assigned session id.
    pub fn set_session_id(&mut self, session_id: NodeId)
        ensures
            final(self)@ == (SessionView { session_id, ..old(self)@ }),
    {
        self.session_id = session_id
    }

    /// The session's id, used for diagnostics.
    pub fn session_id(&self) -> (r: NodeId)
        ensures
            r == self@.session_id,
    {
        self.session_id.clone()
    }

    /// Appends one pending acknowledgement, preserving call order;
    /// duplicates are kept as recorded, never deduplicated here.
    pub fn record_ack(&mut self, subscription_id: u32, sequence_number: u32)
        ensures
            final(self)@ == (SessionView {
                subscription_acknowledgements: old(self)@.subscription_acknowledgements.push(
                    SubscriptionAcknowledgement { subscription_id, sequence_number },
                ),
                ..old(self)@
            }),
    {
        self.subscription_acknowledgements.push(
            SubscriptionAcknowledgement { subscription_id, sequence_number },
        );
    }

    /// Atomically empties the accumulator and returns everything recorded,
    /// in insertion order; a drain with nothing recorded returns nothing.
    pub fn subscription_acknowledgements(&mut self) -> (r: Vec<SubscriptionAcknowledgement>)
        ensures
            r@ == old(self)@.subscription_acknowledgements,
            final(self)@ == (SessionView {
                subscription_acknowledgements: Seq::<SubscriptionAcknowledgement>::empty(),
                ..old(self)@
            }),
    {
        let mut drained: Vec<SubscriptionAcknowledgement> = Vec::new();
        std::mem::swap(&mut drained, &mut self.subscription_acknowledgements);
        drained
    }

    /// Stamps a request header: the current authentication token, the clock
    /// reading now, a freshly issued request handle, zero diagnostics, a
    /// null audit id and the negotiated timeout hint. Every outgoing
    /// request obtains its handle here and nowhere else.
    pub fn make_request_header(&mut self) -> (r: RequestHeader)
        requires
            old(self).wf(),
        ensures
            final(self).wf(),
            r.request_handle == old(self)@.request_handle.next_value(),
            r.request_handle != 0,
            r.authentication_token == old(self)@.authentication_token,
            r.return_diagnostics == 0,
            r.audit_entry_id.spec_is_null(),
            r.timeout_hint == old(self)@.request_timeout,
            r.additional_header.spec_is_null(),
            final(self)@.request_handle.counter() == r.request_handle,
            final(self)@.request_handle.wrap_boundary()
                == old(self)@.request_handle.wrap_boundary(),
            final(self)@ == (SessionView {
                request_handle: final(self)@.request_handle,
                ..old(self)@
            }),
    {
        let request_handle = self.request_handle.next();
        RequestHeader {
            authentication_token: self.authentication_token.clone(),
            timestamp: DateTime::now(),
            request_handle,
            return_diagnostics: 0,
            audit_entry_id: UAString::null(),
            timeout_hint: self.request_timeout,
            additional_header: ExtensionObject::null(),
        }
    }

    /// Issues the next client-side monitored-item handle, from the
    /// generator kept separate from request handles.
    pub fn next_monitored_item_handle(&mut self) -> (r: u32)
        requires
            old(self).wf(),
        ensures
            final(self).wf(),
            r == old(self)@.monitored_item_handle.next_value(),
            r != 0,
            final(self)@.monitored_item_handle.counter() == r,
            final(self)@.monitored_item_handle.wrap_boundary()
                == old(self)@.monitored_item_handle.wrap_boundary(),
            final(self)@ == (SessionView {
                monitored_item_handle: final(self)@.monitored_item_handle,
                ..old(self)@
            }),
    {
        self.monitored_item_handle.next()
    }

    /// Enqueues a request for transmission. No request is duplicated or
    /// dropped between this call and the dequeue that returns it.
    pub fn add_request(&mut self, request: SupportedMessage, is_async: bool)
        ensures
            final(self)@ == (SessionView {
                requests: seq![(request, is_async)] + old(self)@.requests,
                ..old(self)@
            }),
    {
        self.requests.push_front((request, is_async));
    }

    /// Removes and returns the oldest queued request, or reports the queue
    /// empty. Together with `add_request` this is first-in, first-out.
    pub fn next_request(&mut self) -> (r: Option<PendingRequest>)
        ensures
            match r {
                Some(x) => {
                    &&& old(self)@.requests.len() > 0
                    &&& x == old(self)@.requests.last()
                    &&& final(self)@ == (SessionView {
                        requests: old(self)@.requests.drop_last(),
                        ..old(self)@
                    })
                },
                None => {
                    &&& old(self)@.requests.len() == 0
                    &&& final(self)@ == old(self)@
                },
            },
    {
        self.requests.pop_back()
    }

    fn inflight_contains(&self, value: (u32, bool)) -> (r: bool)
        ensures
            r == self.inflight_seq().contains(value),
    {
        let n = self.inflight_requests.len();
        let mut i: usize = 0;
        while i < n
            invariant
                n == self.inflight_seq().len(),
                i <= n,
                forall|k: int| 0 <= k < i ==> self.inflight_seq()[k] != value,
            decreases n - i,
        {
            let e = self.inflight_requests[i];
            if e.0 == value.0 && e.1 == value.1 {
                assert(self.inflight_seq()[i as int] == value);
                return true;
            }
            i = i + 1;
        }
        proof {
            if self.inflight_seq().contains(value) {
                let j = choose|j: int|
                    0 <= j < self.inflight_seq().len() && self.inflight_seq()[j] == value;
                assert(false);
            }
        }
        false
    }

    /// Records that the request with this handle has been transmitted and
    /// awaits resolution. The registry is a set: recording a pair already
    /// present changes nothing.
    pub fn add_pending_request(&mut self, request_handle: u32, is_async: bool)
        requires
            old(self).wf(),
        ensures
            final(self).wf(),
            final(self)@ == (SessionView {
                inflight: old(self)@.inflight.insert((request_handle, is_async)),
                ..old(self)@
            }),
    {
        let value = (request_handle, is_async);
        if !self.inflight_contains(value) {
            let ghost s = self.inflight_seq();
            self.inflight_requests.push(value);
            proof {
                let s2 = self.inflight_seq();
                assert forall|x: (u32, bool)| #[trigger] s2.to_set().contains(x) implies
                    s.to_set().insert(value).contains(x) by {
                    let j = choose|j: int| 0 <= j < s2.len() && s2[j] == x;
                    if j < s.len() {
                        assert(s[j] == x);
                        assert(s.contains(x));
                    }
                }
                assert forall|x: (u32, bool)| #[trigger] s.to_set().insert(value).contains(x)
                    implies s2.to_set().contains(x) by {
                    if x == value {
                        assert(s2[s.len() as int] == x);
                    } else {
                        let j = choose|j: int| 0 <= j < s.len() && s[j] == x;
                        assert(s2[j] == x);
                    }
                    assert(s2.contains(x));
                }
                assert(s2.to_set() =~= s.to_set().insert(value));
                assert forall|p: int, q: int| 0 <= p < q < s2.len() implies s2[p] != s2[q] by {
                    if q == s.len() {
                        assert(s2[p] == s[p]);
                        assert(s.contains(s[p]));
                    }
                }
            }
        } else {
            proof {
                let s = self.inflight_seq();
                assert(s.to_set().contains(value));
                assert(s.to_set() =~= s.to_set().insert(value));
            }
        }
    }

    /// Resolves an in-flight entry, on response arrival or on timeout
    /// expiry. Idempotent: resolving an entry already absent is a no-op,
    /// never an error, so late responses and late timeout sweeps are safe.
    pub fn remove_pending_request_timeout(&mut self, request_handle: u32, is_async: bool)
        requires
            old(self).wf(),
        ensures
            final(self).wf(),
            final(self)@ == (SessionView {
                inflight: old(self)@.inflight.remove((request_handle, is_async)),
                ..old(self)@
            }),
    {
        let value = (request_handle, is_async);
        let n = self.inflight_requests.len();
        let mut i: usize = 0;
        while i < n
            invariant
                old(self).wf(),
                *self == *old(self),
                value == (request_handle, is_async),
                n == self.inflight_seq().len(),
                i <= n,
                forall|k: int| 0 <= k < i ==> self.inflight_seq()[k] != value,
            decreases n - i,
        {
            let e = self.inflight_requests[i];
            if e.0 == request_handle && e.1 == is_async {
                proof {
                    let se = self.inflight_seq()[i as int];
                    assert(se == (se.0, se.1));
                    assert(se == value);
                    lemma_to_set_remove(self.inflight_seq(), i as int);
                }
                self.inflight_requests.remove(i);
                return ;
            }
            proof {
                let se = self.inflight_seq()[i as int];
                assert(se == (se.0, se.1));
                assert(se != value);
            }
            i = i + 1;
        }
        proof {
            let s = self.inflight_seq();
            if s.to_set().contains(value) {
                let j = choose|j: int| 0 <= j < s.len() && s[j] == value;
                assert(false);
            }
            assert(s.to_set() =~= s.to_set().remove(value));
        }
    }

    fn find_response_index(&self, request_handle: u32) -> (r: Option<usize>)
        ensures
            match r {
                Some(i) => i < self.responses_seq().len()
                    && entry_handle(self.responses_seq()[i as int]) == request_handle,
                None => !has_handle(self.responses_seq(), request_handle),
            },
    {
        let n = self.responses.len();
        let mut i: usize = 0;
        while i < n
            invariant
                n == self.responses_seq().len(),
                i <= n,
                forall|k: int| 0 <= k < i ==> entry_handle(self.responses_seq()[k])
                    != request_handle,
            decreases n - i,
        {
            if self.responses[i].0.request_handle() == request_handle {
                return Some(i);
            }
            i = i + 1;
        }
        proof {
            if has_handle(self.responses_seq(), request_handle) {
                let j = choose|j: int|
                    0 <= j < self.responses_seq().len()
                        && entry_handle(self.responses_seq()[j]) == request_handle;
                assert(false);
            }
        }
        None
    }

    /// Stores an arrived response keyed by its embedded request handle,
    /// with its dispatch flag. Unconditional: a stray response whose handle
    /// matches nothing in flight is stored all the same, and a response for
    /// a handle already held replaces it (last write wins).
    pub fn add_response(&mut self, response: SupportedMessage, is_async: bool)
        requires
            old(self).wf(),
        ensures
            final(self).wf(),
            final(self)@ == (SessionView {
                responses: old(self)@.responses.insert(
                    response.spec_request_handle(),
                    (response, is_async),
                ),
                ..old(self)@
            }),
    {
        let request_handle = response.request_handle();
        match self.find_response_index(request_handle) {
            Some(i) => {
                proof {
                    lemma_map_of_update(self.responses_seq(), i as int, (response, is_async));
                }
                self.responses[i] = (response, is_async);
            },
            None => {
                proof {
                    lemma_map_of_push(self.responses_seq(), (response, is_async));
                }
                self.responses.push((response, is_async));
            },
        }
    }

    /// Removes and returns the held response for this handle, or reports
    /// that none has arrived yet. Responses are keyed by handle alone —
    /// handles are unique per session — so the dispatch flag takes no part
    /// in the lookup.
    pub fn remove_response(&mut self, request_handle: u32, is_async: bool) -> (r: Option<
        SupportedMessage,
    >)
        requires
            old(self).wf(),
        ensures
            final(self).wf(),
            final(self)@ == (SessionView {
                responses: old(self)@.responses.remove(request_handle),
                ..old(self)@
            }),
            match r {
                Some(msg) => old(self)@.responses.contains_key(request_handle)
                    && msg == old(self)@.responses[request_handle].0,
                None => !old(self)@.responses.contains_key(request_handle),
            },
    {
        match self.find_response_index(request_handle) {
            Some(i) => {
                proof {
                    lemma_map_at(self.responses_seq(), i as int);
                    lemma_map_of_remove(self.responses_seq(), i as int);
                }
                let e = self.responses.remove(i);
                Some(e.0)
            },
            None => {
                proof {
                    let m = map_of_responses(self.responses_seq());
                    assert(m =~= m.remove(request_handle));
                }
                None
            },
        }
    }

    fn find_min_async(&self) -> (r: Option<usize>)
        ensures
            match r {
                Some(i) => {
                    &&& i < self.responses_seq().len()
                    &&& self.responses_seq()[i as int].1
                    &&& forall|j: int|
                        0 <= j < self.responses_seq().len() && self.responses_seq()[j].1
                            ==> entry_handle(self.responses_seq()[i as int])
                            <= entry_handle(self.responses_seq()[j])
                },
                None => forall|j: int|
                    0 <= j < self.responses_seq().len() ==> !self.responses_seq()[j].1,
            },
    {
        let n = self.responses.len();
        let mut best: Option<usize> = None;
        let mut best_handle: u32 = 0;
        let mut i: usize = 0;
        while i < n
            invariant
                n == self.responses_seq().len(),
                i <= n,
                match best {
                    Some(b) => {
                        &&& b < i
                        &&& self.responses_seq()[b as int].1
                        &&& best_handle == entry_handle(self.responses_seq()[b as int])
                        &&& forall|j: int|
                            0 <= j < i && self.responses_seq()[j].1 ==> best_handle
                                <= entry_handle(self.responses_seq()[j])
                    },
                    None => forall|j: int| 0 <= j < i ==> !self.responses_seq()[j].1,
                },
            decreases n - i,
        {
            if self.responses[i].1 {
                let h = self.responses[i].0.request_handle();
                match best {
                    Some(_) => {
                        if h < best_handle {
                            best = Some(i);
                            best_handle = h;
                        }
                    },
                    None => {
                        best = Some(i);
                        best_handle = h;
                    },
                }
            }
            i = i + 1;
        }
        best
    }

    /// Removes and returns all held responses flagged asynchronous, in
    /// ascending request-handle order — oldest issued first, approximating
    /// send order under monotonically increasing handles. Responses flagged
    /// synchronous stay held, untouched. Extracting the smallest remaining
    /// handle each time restores at drain time the order the unordered
    /// store does not keep.
    pub fn async_responses(&mut self) -> (r: Vec<SupportedMessage>)
        requires
            old(self).wf(),
        ensures
            final(self).wf(),
            // the synchronous responses, and only they, stay held, unchanged
            forall|h: u32| #[trigger] final(self)@.responses.contains_key(h)
                <==> (old(self)@.responses.contains_key(h) && !old(self)@.responses[h].1),
            forall|h: u32| #[trigger] final(self)@.responses.contains_key(h)
                ==> final(self)@.responses[h] == old(self)@.responses[h],
            // each drained response was held, flagged asynchronous
            forall|t: int| #![trigger r@[t]] 0 <= t < r@.len() ==> {
                &&& old(self)@.responses.contains_key(r@[t].spec_request_handle())
                &&& old(self)@.responses[r@[t].spec_request_handle()] == (r@[t], true)
            },
            // in strictly ascending handle order
            forall|t1: int, t2: int| 0 <= t1 < t2 < r@.len()
                ==> r@[t1].spec_request_handle() < r@[t2].spec_request_handle(),
            // and every held asynchronous response is drained
            forall|h: u32| old(self)@.responses.contains_key(h)
                && old(self)@.responses[h].1 ==> exists|t: int|
                0 <= t < r@.len() && #[trigger] r@[t].spec_request_handle() == h,
            final(self)@ == (SessionView {
                responses: final(self)@.responses,
                ..old(self)@
            }),
    {
        let ghost m0 = old(self)@.responses;
        let mut out: Vec<SupportedMessage> = Vec::new();
        loop
            invariant
                self.wf(),
                self@ == (SessionView { responses: self@.responses, ..old(self)@ }),
                m0 == old(self)@.responses,
                // what is still held is what was held, minus what was drained
                forall|h: u32| #[trigger] self@.responses.contains_key(h) ==> (
                    m0.contains_key(h) && self@.responses[h] == m0[h]
                ),
                forall|h: u32| m0.contains_key(h) ==> (#[trigger] self@.responses.contains_key(h)
                    <==> !exists|t: int|
                        0 <= t < out@.len() && #[trigger] out@[t].spec_request_handle() == h),
                // what was drained was held, flagged asynchronous
                forall|t: int| #![trigger out@[t]] 0 <= t < out@.len() ==> {
                    &&& m0.contains_key(out@[t].spec_request_handle())
                    &&& m0[out@[t].spec_request_handle()] == (out@[t], true)
                },
                // drained in strictly ascending handle order
                forall|t1: int, t2: int| 0 <= t1 < t2 < out@.len()
                    ==> out@[t1].spec_request_handle() < out@[t2].spec_request_handle(),
                // every handle still held and asynchronous lies above them all
                forall|t: int, h: u32| 0 <= t < out@.len()
                    && #[trigger] self@.responses.contains_key(h) && self@.responses[h].1
                    ==> #[trigger] out@[t].spec_request_handle() < h,
            ensures
                self.wf(),
                self@ == (SessionView { responses: self@.responses, ..old(self)@ }),
                forall|h: u32| #[trigger] self@.responses.contains_key(h) ==> (
                    m0.contains_key(h) && self@.responses[h] == m0[h]
                ),
                forall|h: u32| m0.contains_key(h) ==> (#[trigger] self@.responses.contains_key(h)
                    <==> !exists|t: int|
                        0 <= t < out@.len() && #[trigger] out@[t].spec_request_handle() == h),
                forall|t: int| #![trigger out@[t]] 0 <= t < out@.len() ==> {
                    &&& m0.contains_key(out@[t].spec_request_handle())
                    &&& m0[out@[t].spec_request_handle()] == (out@[t], true)
                },
                forall|t1: int, t2: int| 0 <= t1 < t2 < out@.len()
                    ==> out@[t1].spec_request_handle() < out@[t2].spec_request_handle(),
                forall|h: u32| #[trigger] self@.responses.contains_key(h)
                    ==> !self@.responses[h].1,
            decreases self.responses_seq().len(),
        {
            match self.find_min_async() {
                None => {
                    proof {
                        assert forall|h: u32| #[trigger] self@.responses.contains_key(h) implies
                            !self@.responses[h].1 by {
                            let s = self.responses_seq();
                            let j = index_of_handle(s, h);
                            assert(has_handle(s, h));
                            assert(0 <= j < s.len() && entry_handle(s[j]) == h);
                        }
                    }
                    break ;
                },
                Some(i) => {
                    let ghost s = self.responses_seq();
                    let ghost e = s[i as int];
                    let ghost h = entry_handle(e);
                    proof {
                        lemma_map_at(s, i as int);
                        lemma_map_of_remove(s, i as int);
                    }
                    let entry = self.responses.remove(i);
                    proof {
                        // everything drained so far lies below the minimal
                        // asynchronous handle just extracted
                        assert forall|t: int| 0 <= t < out@.len() implies
                            #[trigger] out@[t].spec_request_handle() < h by {
                            assert(map_of_responses(s).contains_key(h));
                            assert(map_of_responses(s)[h].1);
                        }
                        assert forall|t: int, hh: u32| 0 <= t < out@.len() + 1
                            && #[trigger] self@.responses.contains_key(hh)
                            && self@.responses[hh].1
                            implies #[trigger] out@.push(entry.0)[t].spec_request_handle() < hh
                        by {
                            let s2 = self.responses_seq();
                            assert(has_handle(s2, hh));
                            let j2 = index_of_handle(s2, hh);
                            assert(0 <= j2 < s2.len() && entry_handle(s2[j2]) == hh);
                            lemma_map_at(s2, j2);
                            let j0 = if j2 < i as int { j2 } else { j2 + 1 };
                            assert(s[j0] == s2[j2]);
                            assert(entry_handle(s[j0]) == hh);
                            assert(s[j0].1);
                            assert(h <= hh);
                            assert(hh != h);
                            if t < out@.len() {
                                assert(out@.push(entry.0)[t] == out@[t]);
                            } else {
                                assert(out@.push(entry.0)[t] == entry.0);
                                assert(entry.0.spec_request_handle() == h);
                            }
                        }
                        // a handle stays held exactly until its response is
                        // drained
                        let out2 = out@.push(entry.0);
                        assert(entry.0 == e.0);
                        assert(out2[out@.len() as int] == entry.0);
                        assert(out2[out@.len() as int].spec_request_handle() == h);
                        assert forall|hh: u32| m0.contains_key(hh) implies (
                            #[trigger] self@.responses.contains_key(hh) <==> !exists|t: int|
                                0 <= t < out2.len()
                                    && #[trigger] out2[t].spec_request_handle() == hh) by {
                            let prev = map_of_responses(s);
                            if hh == h {
                                assert(!self@.responses.contains_key(h));
                                assert(out2[out@.len() as int].spec_request_handle() == h);
                            } else {
                                assert(self@.responses.contains_key(hh)
                                    == prev.contains_key(hh));
                                if exists|t: int| 0 <= t < out@.len()
                                    && #[trigger] out@[t].spec_request_handle() == hh {
                                    let t = choose|t: int| 0 <= t < out@.len()
                                        && #[trigger] out@[t].spec_request_handle() == hh;
                                    assert(out2[t].spec_request_handle() == hh);
                                }
                                if exists|t: int| 0 <= t < out2.len()
                                    && #[trigger] out2[t].spec_request_handle() == hh {
                                    let t = choose|t: int| 0 <= t < out2.len()
                                        && #[trigger] out2[t].spec_request_handle() == hh;
                                    assert(t < out@.len());
                                    assert(out@[t].spec_request_handle() == hh);
                                }
                            }
                        }
                    }
                    out.push(entry.0);
                },
            }
        }
        proof {
            // the held map now consists of exactly the synchronous entries
            assert forall|h: u32| m0.contains_key(h) && !m0[h].1 implies
                self@.responses.contains_key(h) by {
                if exists|t: int| 0 <= t < out@.len()
                    && #[trigger] out@[t].spec_request_handle() == h {
                    let t = choose|t: int| 0 <= t < out@.len()
                        && #[trigger] out@[t].spec_request_handle() == h;
                    assert(m0[out@[t].spec_request_handle()] == (out@[t], true));
                    assert(false);
                }
            }
            // every asynchronous entry was drained
            assert forall|h: u32| m0.contains_key(h) && m0[h].1 implies exists|t: int|
                0 <= t < out@.len() && #[trigger] out@[t].spec_request_handle() == h by {
                if self@.responses.contains_key(h) {
                    assert(self@.responses[h] == m0[h]);
                    assert(false);
                }
            }
        }
        out
    }

    /// Releases every held response, claimed or not; used on fatal session
    /// failure to tear pending state down deterministically.
    pub fn discard_all(&mut self)
        requires
            old(self).wf(),
        ensures
            final(self).wf(),
            final(self)@ == (SessionView {
                responses: Map::<u32, ResolvedResponse>::empty(),
                ..old(self)@
            }),
    {
        self.responses.clear();
        proof {
            assert(map_of_responses(self.responses_seq())
                =~= Map::<u32, ResolvedResponse>::empty());
        }
    }
}

/// Requests pass through the outbound queue first-in, first-out: enqueuing
/// r1, r2, r3 in that order onto an empty queue and dequeuing three times
/// returns r1, then r2, then r3, over the queue model that `add_request`
/// and `next_request` are specified by.
pub proof fn lemma_requests_fifo(r1: PendingRequest, r2: PendingRequest, r3: PendingRequest)
    ensures
        ({
            let q3 = seq![r3] + (seq![r2] + (seq![r1] + Seq::<PendingRequest>::empty()));
            &&& q3.last() == r1
            &&& q3.drop_last().last() == r2
            &&& q3.drop_last().drop_last().last() == r3
            &&& q3.drop_last().drop_last().drop_last() == Seq::<PendingRequest>::empty()
        }),
{
    let q3 = seq![r3] + (seq![r2] + (seq![r1] + Seq::<PendingRequest>::empty()));
    assert(q3.len() == 3);
    assert(q3[0] == r3);
    assert(q3[1] == r2);
    assert(q3[2] == r1);
    assert(q3.drop_last().drop_last().drop_last() =~= Seq::<PendingRequest>::empty());
}

/// Resolving an in-flight entry twice in a row leaves the registry exactly
/// as resolving it once does: either way the entry is gone, and the second
/// resolution is a harmless no-op.
pub proof fn lemma_resolve_idempotent(s: Set<(u32, bool)>, request_handle: u32, is_async: bool)
    ensures
        s.remove((request_handle, is_async)).remove((request_handle, is_async))
            == s.remove((request_handle, is_async)),
{
    assert(s.remove((request_handle, is_async)).remove((request_handle, is_async))
        =~= s.remove((request_handle, is_async)));
}

/// A deposited response is claimed exactly once: depositing a response
/// keyed by its handle makes that handle present with that very response,
/// and one removal leaves the handle absent, so a second lookup finds
/// nothing.
pub proof fn lemma_response_claimed_once(
    m: Map<u32, ResolvedResponse>,
    response: SupportedMessage,
    is_async: bool,
)
    ensures
        ({
            let h = response.spec_request_handle();
            let deposited = m.insert(h, (response, is_async));
            &&& deposited.contains_key(h)
            &&& deposited[h].0 == response
            &&& !deposited.remove(h).contains_key(h)
        }),
{
}

} // verus!
