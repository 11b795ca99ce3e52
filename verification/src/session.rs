//! Control-plane pieces of a MoQ session: the control-message set and its
//! role classification, SETUP version negotiation, request-id generation,
//! and the session error kinds.

use vstd::prelude::*;

use crate::namespace::TrackNamespace;

verus! {

/// MoQ Transport version for draft 13.
pub const DRAFT_13: u64 = 0xFF00_000D;

/// MoQ Transport version for draft 14, the one this relay implements.
pub const DRAFT_14: u64 = 0xFF00_000E;

/// How long a data stream or datagram waits for SUBSCRIBE_OK to populate
/// the alias map, in milliseconds.
pub const DEFAULT_ALIAS_WAIT_TIME_MS: u64 = 1000;

/// Failures scoped to one subscription or announce; they never end the
/// session.
#[derive(Debug)]
pub enum ServeError {
    /// The requested track or namespace is not served here; carries context.
    NotFound(String),
    /// The receiving side is gone, so the request is cancelled.
    Cancel,
    /// The peer closed the subscription with this status code.
    Closed(u64),
    /// The namespace is already announced or registered.
    Duplicate,
    /// An internal serving failure; carries context.
    Internal(String),
}

/// Session failures. Protocol violations close the session; `Serve`
/// failures stay scoped to the offending request.
#[derive(Debug)]
pub enum SessionError {
    /// SETUP found no mutually supported version: the client's offer and
    /// the server's support.
    Version(Vec<u64>, Vec<u64>),
    /// A message arrived that the negotiated role cannot service.
    RoleViolation,
    /// A namespace was announced twice.
    Duplicate,
    /// A subscription- or announce-scoped failure.
    Serve(ServeError),
    /// A media stream ended inside an object's payload.
    WrongSize,
    /// A recognized but unhandled message type; carries its name.
    Unimplemented(String),
    /// A wrapped I/O, codec or external failure.
    Other(String),
}

/// A control message, as routed by the session engine. Fields the routing
/// and the role handlers read are carried; the rest stays with the codec.
#[derive(Debug)]
pub enum Message {
    Subscribe { id: u64, track_namespace: TrackNamespace, track_name: String },
    SubscribeOk { id: u64, track_alias: u64 },
    SubscribeError { id: u64, error_code: u64 },
    Unsubscribe { id: u64 },
    PublishNamespace { id: u64, track_namespace: TrackNamespace },
    PublishNamespaceOk { id: u64 },
    PublishNamespaceError { id: u64, error_code: u64 },
    PublishNamespaceDone { track_namespace: TrackNamespace },
    PublishNamespaceCancel { track_namespace: TrackNamespace },
    TrackStatus { id: u64, track_namespace: TrackNamespace, track_name: String },
    TrackStatusOk { id: u64 },
    TrackStatusError { id: u64 },
    PublishDone { id: u64, status_code: u64 },
    Publish { id: u64 },
    GoAway { new_session_uri: String },
    Fetch { id: u64 },
    FetchOk { id: u64 },
    FetchError { id: u64 },
    SubscribeNamespace { id: u64 },
    SubscribeNamespaceOk { id: u64 },
    SubscribeNamespaceError { id: u64 },
}

/// The outbound control-message queue one session's halves share. The
/// sender task drains it in push order, so control messages go out in
/// strict FIFO order; once closed it takes no more.
pub struct MessageQueue {
    items: Vec<Message>,
    closed: bool,
}

impl MessageQueue {
    /// The queued messages, oldest first.
    pub closed spec fn spec_items(&self) -> Seq<Message> {
        self.items@
    }

    /// Whether the queue still accepts messages.
    pub closed spec fn spec_open(&self) -> bool {
        !self.closed
    }

    /// An empty, open queue.
    pub fn new() -> (r: Self)
        ensures
            r.spec_items() == Seq::<Message>::empty(),
            r.spec_open(),
    {
        MessageQueue { items: Vec::new(), closed: false }
    }

    /// Queue one message behind every earlier one; a closed queue takes
    /// none and reports it.
    pub fn push(&mut self, msg: Message) -> (r: bool)
        ensures
            final(self).spec_open() == old(self).spec_open(),
            r == old(self).spec_open(),
            if r {
                final(self).spec_items() == old(self).spec_items().push(msg)
            } else {
                final(self).spec_items() == old(self).spec_items()
            },
    {
        if self.closed {
            return false;
        }
        self.items.push(msg);
        true
    }

    /// The sender task takes the oldest message; messages leave in exactly
    /// the order they were pushed.
    pub fn pop(&mut self) -> (r: Option<Message>)
        ensures
            final(self).spec_open() == old(self).spec_open(),
            match r {
                Some(m) => {
                    &&& old(self).spec_items().len() > 0
                    &&& m == old(self).spec_items()[0]
                    &&& final(self).spec_items() == old(self).spec_items().drop_first()
                },
                None => {
                    &&& old(self).spec_items().len() == 0
                    &&& final(self).spec_items() == old(self).spec_items()
                },
            },
    {
        if self.items.len() == 0 {
            return None;
        }
        let m = self.items.remove(0);
        proof {
            assert(self.items@ =~= old(self).spec_items().drop_first());
        }
        Some(m)
    }

    /// Close the queue; later pushes are refused.
    pub fn close(&mut self)
        ensures
            final(self).spec_items() == old(self).spec_items(),
            !final(self).spec_open(),
    {
        self.closed = true;
    }
}

/// Which half of the session a received control message is addressed to.
#[derive(Debug, PartialEq, Eq, Structural)]
pub enum MessageRole {
    /// Sent by the peer's publisher half; serviced by our subscriber half.
    ForSubscriber,
    /// Sent by the peer's subscriber half; serviced by our publisher half.
    ForPublisher,
    /// Routed by neither half; the session fails with `Unimplemented`.
    Unhandled,
}

/// The half of the session each message kind is addressed to.
pub open spec fn spec_classify(msg: Message) -> MessageRole {
    match msg {
        Message::PublishNamespace { .. } => MessageRole::ForSubscriber,
        Message::PublishNamespaceDone { .. } => MessageRole::ForSubscriber,
        Message::Publish { .. } => MessageRole::ForSubscriber,
        Message::PublishDone { .. } => MessageRole::ForSubscriber,
        Message::SubscribeOk { .. } => MessageRole::ForSubscriber,
        Message::SubscribeError { .. } => MessageRole::ForSubscriber,
        Message::TrackStatusOk { .. } => MessageRole::ForSubscriber,
        Message::TrackStatusError { .. } => MessageRole::ForSubscriber,
        Message::FetchOk { .. } => MessageRole::ForSubscriber,
        Message::FetchError { .. } => MessageRole::ForSubscriber,
        Message::SubscribeNamespaceOk { .. } => MessageRole::ForSubscriber,
        Message::SubscribeNamespaceError { .. } => MessageRole::ForSubscriber,
        Message::Subscribe { .. } => MessageRole::ForPublisher,
        Message::Unsubscribe { .. } => MessageRole::ForPublisher,
        Message::PublishNamespaceOk { .. } => MessageRole::ForPublisher,
        Message::PublishNamespaceError { .. } => MessageRole::ForPublisher,
        Message::PublishNamespaceCancel { .. } => MessageRole::ForPublisher,
        Message::TrackStatus { .. } => MessageRole::ForPublisher,
        Message::Fetch { .. } => MessageRole::ForPublisher,
        Message::SubscribeNamespace { .. } => MessageRole::ForPublisher,
        Message::GoAway { .. } => MessageRole::Unhandled,
    }
}

/// Classify a received control message by the half that services it.
pub fn classify(msg: &Message) -> (r: MessageRole)
    ensures
        r == spec_classify(*msg),
{
    match msg {
        Message::PublishNamespace { .. } => MessageRole::ForSubscriber,
        Message::PublishNamespaceDone { .. } => MessageRole::ForSubscriber,
        Message::Publish { .. } => MessageRole::ForSubscriber,
        Message::PublishDone { .. } => MessageRole::ForSubscriber,
        Message::SubscribeOk { .. } => MessageRole::ForSubscriber,
        Message::SubscribeError { .. } => MessageRole::ForSubscriber,
        Message::TrackStatusOk { .. } => MessageRole::ForSubscriber,
        Message::TrackStatusError { .. } => MessageRole::ForSubscriber,
        Message::FetchOk { .. } => MessageRole::ForSubscriber,
        Message::FetchError { .. } => MessageRole::ForSubscriber,
        Message::SubscribeNamespaceOk { .. } => MessageRole::ForSubscriber,
        Message::SubscribeNamespaceError { .. } => MessageRole::ForSubscriber,
        Message::Subscribe { .. } => MessageRole::ForPublisher,
        Message::Unsubscribe { .. } => MessageRole::ForPublisher,
        Message::PublishNamespaceOk { .. } => MessageRole::ForPublisher,
        Message::PublishNamespaceError { .. } => MessageRole::ForPublisher,
        Message::PublishNamespaceCancel { .. } => MessageRole::ForPublisher,
        Message::TrackStatus { .. } => MessageRole::ForPublisher,
        Message::Fetch { .. } => MessageRole::ForPublisher,
        Message::SubscribeNamespace { .. } => MessageRole::ForPublisher,
        Message::GoAway { .. } => MessageRole::Unhandled,
    }
}

/// What the receive loop does with one received message.
#[derive(Debug, PartialEq, Eq, Structural)]
pub enum RecvAction {
    /// Hand the message to the subscriber half.
    DeliverToSubscriber,
    /// Hand the message to the publisher half.
    DeliverToPublisher,
    /// End the session: the message needs a half this session lacks.
    FailRoleViolation,
    /// End the session: the message kind is recognized but unhandled.
    FailUnimplemented,
}

/// Route one received control message: to the half it addresses, a
/// `RoleViolation` when that half is absent, `Unimplemented` when neither
/// half handles the kind.
pub fn route_message(msg: &Message, has_publisher: bool, has_subscriber: bool) -> (r: RecvAction)
    ensures
        r == (match spec_classify(*msg) {
            MessageRole::ForSubscriber => if has_subscriber {
                RecvAction::DeliverToSubscriber
            } else {
                RecvAction::FailRoleViolation
            },
            MessageRole::ForPublisher => if has_publisher {
                RecvAction::DeliverToPublisher
            } else {
                RecvAction::FailRoleViolation
            },
            MessageRole::Unhandled => RecvAction::FailUnimplemented,
        }),
{
    match classify(msg) {
        MessageRole::ForSubscriber => if has_subscriber {
            RecvAction::DeliverToSubscriber
        } else {
            RecvAction::FailRoleViolation
        },
        MessageRole::ForPublisher => if has_publisher {
            RecvAction::DeliverToPublisher
        } else {
            RecvAction::FailRoleViolation
        },
        MessageRole::Unhandled => RecvAction::FailUnimplemented,
    }
}

/// The numerically largest version present in both lists, or `None` when
/// they share none.
pub fn largest_common(a: &Vec<u64>, b: &Vec<u64>) -> (r: Option<u64>)
    ensures
        match r {
            Some(v) => {
                &&& a@.contains(v)
                &&& b@.contains(v)
                &&& forall|x: u64| a@.contains(x) && b@.contains(x) ==> x <= v
            },
            None => forall|x: u64| !(a@.contains(x) && b@.contains(x)),
        },
{
    let mut best: Option<u64> = None;
    let mut i: usize = 0;
    while i < a.len()
        invariant
            i <= a@.len(),
            match best {
                Some(v) => {
                    &&& a@.contains(v)
                    &&& b@.contains(v)
                    &&& forall|j: int| 0 <= j < i && b@.contains(#[trigger] a@[j]) ==> a@[j] <= v
                },
                None => forall|j: int| 0 <= j < i ==> !b@.contains(#[trigger] a@[j]),
            },
        decreases a.len() - i,
    {
        let x = a[i];
        let mut found = false;
        let mut k: usize = 0;
        while k < b.len()
            invariant
                k <= b@.len(),
                found <==> exists|l: int| 0 <= l < k && b@[l] == x,
            decreases b.len() - k,
        {
            if b[k] == x {
                found = true;
            }
            k += 1;
        }
        if found {
            proof {
                assert(b@.contains(x));
            }
            let replace = match best {
                None => true,
                Some(v) => x > v,
            };
            if replace {
                best = Some(x);
            }
            proof {
                assert(a@.contains(x)) by {
                    assert(a@[i as int] == x);
                }
            }
        }
        i += 1;
    }
    proof {
        match best {
            Some(v) => {
                assert forall|x: u64| a@.contains(x) && b@.contains(x) implies x <= v by {
                    let j = choose|j: int| 0 <= j < a@.len() && a@[j] == x;
                }
            },
            None => {
                assert forall|x: u64| !(a@.contains(x) && b@.contains(x)) by {
                    if a@.contains(x) {
                        let j = choose|j: int| 0 <= j < a@.len() && a@[j] == x;
                    }
                }
            },
        }
    }
    best
}

/// The server side of the SETUP exchange: pick the numerically largest
/// version common to what we support and what the client offered, or fail
/// the session with a `Version` error carrying both lists.
pub fn negotiate_version(supported: &Vec<u64>, client_versions: &Vec<u64>) -> (r: Result<
    u64,
    SessionError,
>)
    ensures
        match r {
            Ok(v) => {
                &&& supported@.contains(v)
                &&& client_versions@.contains(v)
                &&& forall|x: u64| supported@.contains(x) && client_versions@.contains(x) ==> x <= v
            },
            Err(e) => {
                &&& e matches SessionError::Version(c, s) && c@ == client_versions@ && s@
                    == supported@
                &&& forall|x: u64| !(supported@.contains(x) && client_versions@.contains(x))
            },
        },
{
    match largest_common(supported, client_versions) {
        Some(v) => Ok(v),
        None => {
            let c = client_versions.clone();
            let s = supported.clone();
            proof {
                assert(c@ =~= client_versions@);
                assert(s@ =~= supported@);
            }
            Err(SessionError::Version(c, s))
        },
    }
}

/// The first request id of a session: 0 where we initiated the connection,
/// 1 where we accepted it.
pub fn first_request_id(is_client: bool) -> (r: u64)
    ensures
        r == (if is_client {
            0u64
        } else {
            1u64
        }),
{
    if is_client {
        0
    } else {
        1
    }
}

/// Source of this session's request ids: starts at 0 (client) or 1
/// (server) and steps by 2, so one side's ids are all even and the other's
/// all odd, strictly increasing.
#[derive(Debug)]
pub struct RequestIdGenerator {
    /// The id the next request will get.
    pub next_id: u64,
    /// The parity every id of this generator keeps: 0 or 1.
    pub parity: u64,
}

impl RequestIdGenerator {
    /// A generator is tied to its parity: ids never leave it.
    pub open spec fn wf(&self) -> bool {
        &&& self.parity == self.next_id % 2
        &&& self.parity <= 1
    }

    /// A generator whose first id is 0 on the client side, 1 on the server
    /// side.
    pub fn new(first: u64) -> (r: Self)
        requires
            first == 0 || first == 1,
        ensures
            r.wf(),
            r.next_id == first,
            r.parity == first,
    {
        RequestIdGenerator { next_id: first, parity: first }
    }

    /// Hand out the next request id and step past it. Ids are strictly
    /// increasing and keep the generator's parity.
    pub fn next(&mut self) -> (r: u64)
        requires
            old(self).wf(),
            old(self).next_id <= u64::MAX - 2,
        ensures
            final(self).wf(),
            r == old(self).next_id,
            final(self).next_id == old(self).next_id + 2,
            final(self).parity == old(self).parity,
            r % 2 == old(self).parity,
    {
        let id = self.next_id;
        self.next_id = self.next_id + 2;
        proof {
            assert((old(self).next_id + 2) % 2 == old(self).next_id % 2) by {
                vstd::arithmetic::div_mod::lemma_mod_add_multiples_vanish(
                    old(self).next_id as int,
                    2,
                );
            }
        }
        id
    }
}

/// Law (request-id parity): after any number of draws, the id a generator
/// hands out still has its first id's parity — all even on the client
/// side, all odd on the server side.
pub proof fn lemma_request_id_parity(first: u64, k: nat)
    requires
        first == 0 || first == 1,
        first + 2 * k <= u64::MAX,
    ensures
        (first + 2 * k) % 2 == first % 2,
    decreases k,
{
    if k > 0 {
        lemma_request_id_parity(first, (k - 1) as nat);
        assert((first + 2 * (k - 1) + 2) % 2 == (first + 2 * (k - 1)) % 2) by {
            vstd::arithmetic::div_mod::lemma_mod_add_multiples_vanish(
                first + 2 * (k - 1) as int,
                2,
            );
        }
        assert(first + 2 * k == first + 2 * (k - 1) + 2);
    }
}

} // verus!
