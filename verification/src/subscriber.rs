//! Subscriber half of a session: inbound announces and the state of our
//! outbound subscriptions.
//!
//! The state keeps the announced-namespace map, the queue of announces
//! waiting for the application, and the active subscriptions with their
//! track aliases. Distinct live subscriptions never share an alias.

use vstd::prelude::*;

use crate::namespace::TrackNamespace;
use crate::session::{Message, MessageQueue, MessageRole, RequestIdGenerator, SessionError, spec_classify};
use vstd::string::StringExecFns;

verus! {

/// One announced namespace: its fields and the announcing request id.
pub type AnnEntry = (Seq<Seq<u8>>, u64);

/// One subscription: its request id and its track alias once SUBSCRIBE_OK
/// assigned one.
pub type SubEntry = (u64, Option<u64>);

/// The whole subscriber state: announced namespaces, whether the announce
/// queue still accepts entries, the queued announces, and the
/// subscriptions.
pub type SubView = (Seq<AnnEntry>, bool, Seq<Seq<Seq<u8>>>, Seq<SubEntry>);

/// Whether a namespace is in the announced map.
pub open spec fn ann_contains(anns: Seq<AnnEntry>, ns: Seq<Seq<u8>>) -> bool {
    exists|i: int| 0 <= i < anns.len() && (#[trigger] anns[i]).0 == ns
}

/// Whether a request id has an active subscription.
pub open spec fn sub_contains(subs: Seq<SubEntry>, id: u64) -> bool {
    exists|i: int| 0 <= i < subs.len() && (#[trigger] subs[i]).0 == id
}

/// The request id the alias resolves to, if any subscription holds it.
pub open spec fn spec_id_of_alias(subs: Seq<SubEntry>, alias: u64) -> Option<u64>
    decreases subs.len(),
{
    if subs.len() == 0 {
        None
    } else if subs[0].1 == Some(alias) {
        Some(subs[0].0)
    } else {
        spec_id_of_alias(subs.drop_first(), alias)
    }
}

/// What became of an inbound PUBLISH_NAMESPACE.
#[derive(Debug, PartialEq, Eq, Structural)]
pub enum AnnounceOutcome {
    /// Accepted: recorded and queued for the application.
    Queued,
    /// The application stopped taking announces; reply with a cancel.
    Cancelled,
}

/// What the application must do after one received control message.
#[derive(Debug, PartialEq, Eq, Structural)]
pub enum SubscriberEffect {
    /// Nothing; the message was absorbed by the state.
    Idle,
    /// A new announce waits on the queue.
    AnnounceQueued,
    /// Reply PUBLISH_NAMESPACE_CANCEL: the announce queue is closed.
    AnnounceCancelled,
    /// The announce ended; release the application's handle for it.
    AnnounceClosed,
    /// The subscription with this id now has this track alias.
    SubscriptionActivated(u64, u64),
    /// Fail the subscription with this id with this status code.
    SubscriptionFailed(u64, u64),
}

/// Subscriber-half state of one session.
#[derive(Debug)]
pub struct Subscriber {
    announced: Vec<(TrackNamespace, u64)>,
    queue_open: bool,
    queue: Vec<TrackNamespace>,
    subscribes: Vec<(u64, Option<u64>)>,
}

impl Subscriber {
    /// The announced-namespace map.
    pub closed spec fn spec_announced(&self) -> Seq<AnnEntry> {
        Seq::new(self.announced@.len(), |i: int| (self.announced@[i].0@, self.announced@[i].1))
    }

    /// Whether the announce queue still accepts entries.
    pub closed spec fn spec_queue_open(&self) -> bool {
        self.queue_open
    }

    /// The announces waiting for the application, oldest first.
    pub closed spec fn spec_queue(&self) -> Seq<Seq<Seq<u8>>> {
        Seq::new(self.queue@.len(), |i: int| self.queue@[i]@)
    }

    /// The active subscriptions.
    pub closed spec fn spec_subscribes(&self) -> Seq<SubEntry> {
        Seq::new(self.subscribes@.len(), |i: int| (self.subscribes@[i].0, self.subscribes@[i].1))
    }

    /// The whole state, for saying what a step leaves untouched.
    pub open spec fn spec_state(&self) -> SubView {
        (self.spec_announced(), self.spec_queue_open(), self.spec_queue(), self.spec_subscribes())
    }

    /// Announced namespaces are unique; subscription ids are unique; no two
    /// subscriptions hold the same track alias.
    pub open spec fn wf(&self) -> bool {
        &&& forall|i: int, j: int|
            0 <= i < j < self.spec_announced().len() ==> (#[trigger] self.spec_announced()[i]).0
                != (#[trigger] self.spec_announced()[j]).0
        &&& forall|i: int, j: int|
            0 <= i < j < self.spec_subscribes().len() ==> (#[trigger] self.spec_subscribes()[i]).0
                != (#[trigger] self.spec_subscribes()[j]).0
        &&& forall|i: int, j: int|
            0 <= i < j < self.spec_subscribes().len() && (#[trigger] self.spec_subscribes()[i]).1
                is Some && (#[trigger] self.spec_subscribes()[j]).1 is Some
                ==> self.spec_subscribes()[i].1 != self.spec_subscribes()[j].1
    }

    /// A fresh subscriber half with an open announce queue.
    pub fn new() -> (r: Self)
        ensures
            r.wf(),
            r.spec_announced() == Seq::<AnnEntry>::empty(),
            r.spec_queue_open(),
            r.spec_queue() == Seq::<Seq<Seq<u8>>>::empty(),
            r.spec_subscribes() == Seq::<SubEntry>::empty(),
    {
        let r = Subscriber {
            announced: Vec::new(),
            queue_open: true,
            queue: Vec::new(),
            subscribes: Vec::new(),
        };
        proof {
            assert(r.spec_announced() =~= Seq::<AnnEntry>::empty());
            assert(r.spec_queue() =~= Seq::<Seq<Seq<u8>>>::empty());
            assert(r.spec_subscribes() =~= Seq::<SubEntry>::empty());
        }
        r
    }

    /// Record a new outbound subscription under a fresh request id, before
    /// SUBSCRIBE_OK assigns it an alias.
    pub fn add_subscribe(&mut self, id: u64) -> (r: bool)
        requires
            old(self).wf(),
        ensures
            final(self).wf(),
            r == !sub_contains(old(self).spec_subscribes(), id),
            if r {
                &&& final(self).spec_subscribes() == old(self).spec_subscribes().push(
                    (id, None::<u64>),
                )
                &&& final(self).spec_announced() == old(self).spec_announced()
                &&& final(self).spec_queue() == old(self).spec_queue()
                &&& final(self).spec_queue_open() == old(self).spec_queue_open()
            } else {
                final(self).spec_state() == old(self).spec_state()
            },
    {
        let mut i: usize = 0;
        while i < self.subscribes.len()
            invariant
                self.spec_state() == old(self).spec_state(),
                old(self).wf(),
                i <= self.spec_subscribes().len(),
                forall|j: int| 0 <= j < i ==> (#[trigger] self.spec_subscribes()[j]).0 != id,
            decreases self.subscribes.len() - i,
        {
            if self.subscribes[i].0 == id {
                proof {
                    assert((old(self).spec_subscribes()[i as int]).0 == id);
                }
                return false;
            }
            i += 1;
        }
        let ghost pre = self.spec_subscribes();
        self.subscribes.push((id, None));
        proof {
            assert(self.spec_subscribes() =~= pre.push((id, None::<u64>)));
        }
        true
    }

    /// SUBSCRIBE_OK arrived: bind the alias to the subscription with this
    /// id. A stale binding of the same alias to another subscription is
    /// displaced, as a map insert would displace it. Returns whether the
    /// subscription exists.
    pub fn recv_subscribe_ok(&mut self, id: u64, track_alias: u64) -> (found: bool)
        requires
            old(self).wf(),
        ensures
            final(self).wf(),
            found == sub_contains(old(self).spec_subscribes(), id),
            final(self).spec_announced() == old(self).spec_announced(),
            final(self).spec_queue() == old(self).spec_queue(),
            final(self).spec_queue_open() == old(self).spec_queue_open(),
            if found {
                &&& final(self).spec_subscribes().len() == old(self).spec_subscribes().len()
                &&& forall|k: int|
                    0 <= k < old(self).spec_subscribes().len()
                        ==> #[trigger] final(self).spec_subscribes()[k] == (
                    if old(self).spec_subscribes()[k].0 == id {
                        (id, Some(track_alias))
                    } else if old(self).spec_subscribes()[k].1 == Some(track_alias) {
                        (old(self).spec_subscribes()[k].0, None::<u64>)
                    } else {
                        old(self).spec_subscribes()[k]
                    })
            } else {
                final(self).spec_state() == old(self).spec_state()
            },
    {
        let mut found = false;
        let mut i: usize = 0;
        while i < self.subscribes.len()
            invariant
                self.spec_state() == old(self).spec_state(),
                i <= self.spec_subscribes().len(),
                found <==> exists|j: int|
                    0 <= j < i && (#[trigger] self.spec_subscribes()[j]).0 == id,
            decreases self.subscribes.len() - i,
        {
            if self.subscribes[i].0 == id {
                found = true;
                proof {
                    assert((self.spec_subscribes()[i as int]).0 == id);
                }
            }
            i += 1;
        }
        if !found {
            return false;
        }
        let ghost pre = self.spec_subscribes();
        let mut k: usize = 0;
        while k < self.subscribes.len()
            invariant
                old(self).wf(),
                pre == old(self).spec_subscribes(),
                sub_contains(pre, id),
                self.spec_announced() == old(self).spec_announced(),
                self.spec_queue() == old(self).spec_queue(),
                self.spec_queue_open() == old(self).spec_queue_open(),
                self.spec_subscribes().len() == pre.len(),
                k <= pre.len(),
                forall|j: int|
                    0 <= j < k ==> #[trigger] self.spec_subscribes()[j] == (if pre[j].0 == id {
                        (id, Some(track_alias))
                    } else if pre[j].1 == Some(track_alias) {
                        (pre[j].0, None::<u64>)
                    } else {
                        pre[j]
                    }),
                forall|j: int| k <= j < pre.len() ==> #[trigger] self.spec_subscribes()[j] == pre[j],
            decreases self.subscribes.len() - k,
        {
            let ghost before = self.spec_subscribes();
            let entry_id = self.subscribes[k].0;
            let entry_alias = self.subscribes[k].1;
            proof {
                assert(before[k as int] == (entry_id, entry_alias));
                assert(before[k as int] == pre[k as int]);
            }
            if entry_id == id {
                self.subscribes[k] = (id, Some(track_alias));
            } else {
                let clear = match entry_alias {
                    Some(a) => a == track_alias,
                    None => false,
                };
                if clear {
                    self.subscribes[k] = (entry_id, None);
                }
            }
            proof {
                assert(self.spec_subscribes().len() == before.len());
                assert forall|j: int| 0 <= j < before.len() && j != k implies
                    #[trigger] self.spec_subscribes()[j] == before[j] by {}
                assert(self.spec_subscribes()[k as int] == (if pre[k as int].0 == id {
                    (id, Some(track_alias))
                } else if pre[k as int].1 == Some(track_alias) {
                    (pre[k as int].0, None::<u64>)
                } else {
                    pre[k as int]
                }));
            }
            k += 1;
        }
        proof {
            let post = self.spec_subscribes();
            assert forall|i2: int, j2: int|
                0 <= i2 < j2 < post.len() implies (#[trigger] post[i2]).0 != (
            #[trigger] post[j2]).0 by {
                assert(pre[i2].0 != pre[j2].0);
            }
            assert forall|i2: int, j2: int|
                0 <= i2 < j2 < post.len() && (#[trigger] post[i2]).1 is Some && (
            #[trigger] post[j2]).1 is Some implies post[i2].1 != post[j2].1 by {
                assert(pre[i2].0 != pre[j2].0);
            }
        }
        true
    }

    /// The request id the track alias currently resolves to, if any.
    pub fn get_subscribe_id_by_alias(&self, track_alias: u64) -> (r: Option<u64>)
        ensures
            r == spec_id_of_alias(self.spec_subscribes(), track_alias),
    {
        let ghost subs = self.spec_subscribes();
        let mut i: usize = 0;
        proof {
            assert(subs.skip(0) =~= subs);
        }
        while i < self.subscribes.len()
            invariant
                subs == self.spec_subscribes(),
                i <= subs.len(),
                spec_id_of_alias(subs, track_alias) == spec_id_of_alias(
                    subs.skip(i as int),
                    track_alias,
                ),
            decreases self.subscribes.len() - i,
        {
            proof {
                assert(subs.skip(i as int)[0] == subs[i as int]);
                assert(subs.skip(i as int).drop_first() =~= subs.skip(i + 1));
            }
            let hit = match self.subscribes[i].1 {
                Some(a) => a == track_alias,
                None => false,
            };
            if hit {
                proof {
                    assert((subs[i as int]).1 == Some(track_alias));
                }
                return Some(self.subscribes[i].0);
            }
            proof {
                assert((subs[i as int]).1 != Some(track_alias));
            }
            i += 1;
        }
        proof {
            assert(subs.skip(subs.len() as int) =~= Seq::<SubEntry>::empty());
        }
        None
    }

    /// Remove the subscription with this id, alias binding included;
    /// returns its alias, or `None` for an id without a subscription.
    pub fn remove_subscribe(&mut self, id: u64) -> (r: Option<Option<u64>>)
        requires
            old(self).wf(),
        ensures
            final(self).wf(),
            final(self).spec_announced() == old(self).spec_announced(),
            final(self).spec_queue() == old(self).spec_queue(),
            final(self).spec_queue_open() == old(self).spec_queue_open(),
            !sub_contains(final(self).spec_subscribes(), id),
            match r {
                Some(alias) => {
                    &&& sub_contains(old(self).spec_subscribes(), id)
                    &&& old(self).spec_subscribes().contains((id, alias))
                    &&& forall|e: SubEntry|
                        #![auto]
                        final(self).spec_subscribes().contains(e) <==> old(
                            self,
                        ).spec_subscribes().contains(e) && e.0 != id
                },
                None => {
                    &&& !sub_contains(old(self).spec_subscribes(), id)
                    &&& final(self).spec_state() == old(self).spec_state()
                },
            },
    {
        let mut i: usize = 0;
        while i < self.subscribes.len()
            invariant
                self.spec_state() == old(self).spec_state(),
                old(self).wf(),
                i <= self.spec_subscribes().len(),
                forall|j: int| 0 <= j < i ==> (#[trigger] self.spec_subscribes()[j]).0 != id,
            decreases self.subscribes.len() - i,
        {
            if self.subscribes[i].0 == id {
                proof {
                    assert((self.spec_subscribes()[i as int]).0 == id);
                }
                let alias = self.subscribes[i].1;
                let ghost pre = self.spec_subscribes();
                self.subscribes.remove(i);
                proof {
                    assert(self.spec_subscribes() =~= pre.remove(i as int));
                    assert(pre[i as int] == (id, alias));
                    assert(pre.contains((id, alias)));
                    lemma_subs_remove(pre, i as int, id);
                }
                return Some(alias);
            }
            i += 1;
        }
        None
    }

    /// An inbound PUBLISH_NAMESPACE: a namespace announced twice fails the
    /// session with `Duplicate`; with the announce queue closed the
    /// announce is not recorded and the application replies with a cancel;
    /// otherwise it is recorded and queued.
    pub fn recv_publish_namespace(&mut self, id: u64, track_namespace: &TrackNamespace) -> (r:
        Result<AnnounceOutcome, SessionError>)
        requires
            old(self).wf(),
        ensures
            final(self).wf(),
            final(self).spec_subscribes() == old(self).spec_subscribes(),
            final(self).spec_queue_open() == old(self).spec_queue_open(),
            match r {
                Err(e) => {
                    &&& e is Duplicate
                    &&& ann_contains(old(self).spec_announced(), track_namespace@)
                    &&& final(self).spec_state() == old(self).spec_state()
                },
                Ok(AnnounceOutcome::Cancelled) => {
                    &&& !ann_contains(old(self).spec_announced(), track_namespace@)
                    &&& !old(self).spec_queue_open()
                    &&& final(self).spec_state() == old(self).spec_state()
                },
                Ok(AnnounceOutcome::Queued) => {
                    &&& !ann_contains(old(self).spec_announced(), track_namespace@)
                    &&& old(self).spec_queue_open()
                    &&& final(self).spec_announced() == old(self).spec_announced().push(
                        (track_namespace@, id),
                    )
                    &&& final(self).spec_queue() == old(self).spec_queue().push(track_namespace@)
                },
            },
    {
        let mut i: usize = 0;
        while i < self.announced.len()
            invariant
                self.spec_state() == old(self).spec_state(),
                old(self).wf(),
                i <= self.spec_announced().len(),
                forall|j: int|
                    0 <= j < i ==> (#[trigger] self.spec_announced()[j]).0 != track_namespace@,
            decreases self.announced.len() - i,
        {
            if self.announced[i].0 == *track_namespace {
                proof {
                    assert((self.spec_announced()[i as int]).0 == track_namespace@);
                }
                return Err(SessionError::Duplicate);
            }
            i += 1;
        }
        if !self.queue_open {
            return Ok(AnnounceOutcome::Cancelled);
        }
        let ghost pre_ann = self.spec_announced();
        let ghost pre_queue = self.spec_queue();
        self.announced.push((track_namespace.clone(), id));
        self.queue.push(track_namespace.clone());
        proof {
            assert(self.spec_announced() =~= pre_ann.push((track_namespace@, id)));
            assert(self.spec_queue() =~= pre_queue.push(track_namespace@));
        }
        Ok(AnnounceOutcome::Queued)
    }

    /// An inbound PUBLISH_NAMESPACE_DONE: the announce ends and leaves the
    /// map; returns whether it was present.
    pub fn recv_publish_namespace_done(&mut self, track_namespace: &TrackNamespace) -> (found:
        bool)
        requires
            old(self).wf(),
        ensures
            final(self).wf(),
            final(self).spec_subscribes() == old(self).spec_subscribes(),
            final(self).spec_queue() == old(self).spec_queue(),
            final(self).spec_queue_open() == old(self).spec_queue_open(),
            found == ann_contains(old(self).spec_announced(), track_namespace@),
            !found ==> final(self).spec_state() == old(self).spec_state(),
            !ann_contains(final(self).spec_announced(), track_namespace@),
            forall|e: AnnEntry|
                #![auto]
                final(self).spec_announced().contains(e) <==> old(self).spec_announced().contains(
                    e,
                ) && e.0 != track_namespace@,
    {
        self.drop_announce(track_namespace)
    }

    /// Forget an announced namespace, as when replying with a cancel.
    pub fn drop_publish_namespace(&mut self, track_namespace: &TrackNamespace)
        requires
            old(self).wf(),
        ensures
            final(self).wf(),
            final(self).spec_subscribes() == old(self).spec_subscribes(),
            final(self).spec_queue() == old(self).spec_queue(),
            final(self).spec_queue_open() == old(self).spec_queue_open(),
            !ann_contains(final(self).spec_announced(), track_namespace@),
            forall|e: AnnEntry|
                #![auto]
                final(self).spec_announced().contains(e) <==> old(self).spec_announced().contains(
                    e,
                ) && e.0 != track_namespace@,
    {
        self.drop_announce(track_namespace);
    }

    /// Remove one announced namespace; returns whether it was present.
    fn drop_announce(&mut self, track_namespace: &TrackNamespace) -> (found: bool)
        requires
            old(self).wf(),
        ensures
            final(self).wf(),
            final(self).spec_subscribes() == old(self).spec_subscribes(),
            final(self).spec_queue() == old(self).spec_queue(),
            final(self).spec_queue_open() == old(self).spec_queue_open(),
            found == ann_contains(old(self).spec_announced(), track_namespace@),
            !found ==> final(self).spec_state() == old(self).spec_state(),
            !ann_contains(final(self).spec_announced(), track_namespace@),
            forall|e: AnnEntry|
                #![auto]
                final(self).spec_announced().contains(e) <==> old(self).spec_announced().contains(
                    e,
                ) && e.0 != track_namespace@,
    {
        let mut i: usize = 0;
        while i < self.announced.len()
            invariant
                self.spec_state() == old(self).spec_state(),
                old(self).wf(),
                i <= self.spec_announced().len(),
                forall|j: int|
                    0 <= j < i ==> (#[trigger] self.spec_announced()[j]).0 != track_namespace@,
            decreases self.announced.len() - i,
        {
            if self.announced[i].0 == *track_namespace {
                proof {
                    assert((self.spec_announced()[i as int]).0 == track_namespace@);
                }
                let ghost pre = self.spec_announced();
                self.announced.remove(i);
                proof {
                    assert(self.spec_announced() =~= pre.remove(i as int));
                    lemma_anns_remove(pre, i as int, track_namespace@);
                }
                return true;
            }
            i += 1;
        }
        false
    }

    /// Hand the application the next queued announce, oldest first.
    pub fn pop_announced(&mut self) -> (r: Option<TrackNamespace>)
        ensures
            final(self).spec_announced() == old(self).spec_announced(),
            final(self).spec_subscribes() == old(self).spec_subscribes(),
            final(self).spec_queue_open() == old(self).spec_queue_open(),
            match r {
                Some(ns) => {
                    &&& old(self).spec_queue().len() > 0
                    &&& ns@ == old(self).spec_queue()[0]
                    &&& final(self).spec_queue() == old(self).spec_queue().drop_first()
                },
                None => {
                    &&& old(self).spec_queue().len() == 0
                    &&& final(self).spec_state() == old(self).spec_state()
                },
            },
    {
        if self.queue.len() == 0 {
            return None;
        }
        let ns = self.queue.remove(0);
        proof {
            assert(self.spec_queue() =~= old(self).spec_queue().drop_first());
        }
        Some(ns)
    }

    /// The application stops taking announces; later announces are
    /// answered with a cancel.
    pub fn close_queue(&mut self)
        ensures
            final(self).spec_announced() == old(self).spec_announced(),
            final(self).spec_queue() == old(self).spec_queue(),
            final(self).spec_subscribes() == old(self).spec_subscribes(),
            !final(self).spec_queue_open(),
    {
        self.queue_open = false;
    }

    /// Start one outbound subscription: draw the next request id from this
    /// session's generator and record the subscription under it. Ids of one
    /// generator never repeat, so the record is fresh whenever every
    /// earlier subscription also drew from it.
    pub fn subscribe(&mut self, ids: &mut RequestIdGenerator) -> (r: (u64, bool))
        requires
            old(self).wf(),
            old(ids).wf(),
            old(ids).next_id <= u64::MAX - 2,
        ensures
            final(self).wf(),
            final(ids).wf(),
            r.0 == old(ids).next_id,
            final(ids).next_id == old(ids).next_id + 2,
            r.1 == !sub_contains(old(self).spec_subscribes(), r.0),
            if r.1 {
                &&& final(self).spec_subscribes() == old(self).spec_subscribes().push(
                    (r.0, None::<u64>),
                )
                &&& final(self).spec_announced() == old(self).spec_announced()
                &&& final(self).spec_queue() == old(self).spec_queue()
                &&& final(self).spec_queue_open() == old(self).spec_queue_open()
            } else {
                final(self).spec_state() == old(self).spec_state()
            },
    {
        let id = ids.next();
        let added = self.add_subscribe(id);
        (id, added)
    }

    /// Build a TRACK_STATUS request for a track under a fresh request id.
    pub fn track_status(
        ids: &mut RequestIdGenerator,
        track_namespace: &TrackNamespace,
        track_name: &String,
    ) -> (m: Message)
        requires
            old(ids).wf(),
            old(ids).next_id <= u64::MAX - 2,
        ensures
            final(ids).wf(),
            final(ids).next_id == old(ids).next_id + 2,
            m matches Message::TrackStatus { id, track_namespace: ns, track_name: name } && id
                == old(ids).next_id && ns@ == track_namespace@ && name@ == track_name@,
    {
        let id = ids.next();
        Message::TrackStatus {
            id,
            track_namespace: track_namespace.clone(),
            track_name: track_name.clone(),
        }
    }

    /// Queue one subscriber-originated control message for the sender
    /// task; messages leave in queue order. A namespace cancel also forgets
    /// the announce it answers, its terminal state.
    pub fn send_message(&mut self, outgoing: &mut MessageQueue, msg: Message) -> (r: bool)
        requires
            old(self).wf(),
            spec_classify(msg) == MessageRole::ForPublisher,
        ensures
            final(self).wf(),
            r == old(outgoing).spec_open(),
            final(outgoing).spec_open() == old(outgoing).spec_open(),
            if r {
                final(outgoing).spec_items() == old(outgoing).spec_items().push(msg)
            } else {
                final(outgoing).spec_items() == old(outgoing).spec_items()
            },
            match msg {
                Message::PublishNamespaceCancel { track_namespace } => {
                    &&& !ann_contains(final(self).spec_announced(), track_namespace@)
                    &&& forall|e: AnnEntry|
                        #![auto]
                        final(self).spec_announced().contains(e) <==> old(
                            self,
                        ).spec_announced().contains(e) && e.0 != track_namespace@
                    &&& final(self).spec_subscribes() == old(self).spec_subscribes()
                    &&& final(self).spec_queue() == old(self).spec_queue()
                    &&& final(self).spec_queue_open() == old(self).spec_queue_open()
                },
                _ => final(self).spec_state() == old(self).spec_state(),
            },
    {
        match &msg {
            Message::PublishNamespaceCancel { track_namespace } => {
                self.drop_publish_namespace(track_namespace);
            },
            _ => {},
        }
        outgoing.push(msg)
    }

    /// Route one publisher-originated control message through the state:
    /// what changed and what the application must now do. Message kinds the
    /// relay does not implement fail the session with `Unimplemented`; a
    /// duplicate announce fails it with `Duplicate`.
    pub fn recv_message(&mut self, msg: Message) -> (r: Result<SubscriberEffect, SessionError>)
        requires
            old(self).wf(),
            spec_classify(msg) == MessageRole::ForSubscriber,
        ensures
            final(self).wf(),
            match msg {
                Message::PublishNamespace { id, track_namespace } => {
                    match r {
                        Err(e) => {
                            &&& e is Duplicate
                            &&& ann_contains(old(self).spec_announced(), track_namespace@)
                            &&& final(self).spec_state() == old(self).spec_state()
                        },
                        Ok(SubscriberEffect::AnnounceCancelled) => {
                            &&& !ann_contains(old(self).spec_announced(), track_namespace@)
                            &&& !old(self).spec_queue_open()
                            &&& final(self).spec_state() == old(self).spec_state()
                        },
                        Ok(SubscriberEffect::AnnounceQueued) => {
                            &&& !ann_contains(old(self).spec_announced(), track_namespace@)
                            &&& old(self).spec_queue_open()
                            &&& final(self).spec_announced() == old(self).spec_announced().push(
                                (track_namespace@, id),
                            )
                            &&& final(self).spec_queue() == old(self).spec_queue().push(
                                track_namespace@,
                            )
                            &&& final(self).spec_subscribes() == old(self).spec_subscribes()
                            &&& final(self).spec_queue_open()
                        },
                        _ => false,
                    }
                },
                Message::PublishNamespaceDone { track_namespace } => {
                    match r {
                        Ok(SubscriberEffect::AnnounceClosed) => {
                            &&& ann_contains(old(self).spec_announced(), track_namespace@)
                            &&& !ann_contains(final(self).spec_announced(), track_namespace@)
                            &&& forall|e: AnnEntry|
                                #![auto]
                                final(self).spec_announced().contains(e) <==> old(
                                    self,
                                ).spec_announced().contains(e) && e.0 != track_namespace@
                            &&& final(self).spec_subscribes() == old(self).spec_subscribes()
                            &&& final(self).spec_queue() == old(self).spec_queue()
                            &&& final(self).spec_queue_open() == old(self).spec_queue_open()
                        },
                        Ok(SubscriberEffect::Idle) => {
                            &&& !ann_contains(old(self).spec_announced(), track_namespace@)
                            &&& final(self).spec_state() == old(self).spec_state()
                        },
                        _ => false,
                    }
                },
                Message::SubscribeOk { id, track_alias } => {
                    match r {
                        Ok(SubscriberEffect::SubscriptionActivated(rid, ralias)) => {
                            &&& rid == id && ralias == track_alias
                            &&& sub_contains(old(self).spec_subscribes(), id)
                            &&& final(self).spec_subscribes().contains((id, Some(track_alias)))
                            &&& final(self).spec_subscribes().len() == old(
                                self,
                            ).spec_subscribes().len()
                            &&& forall|k: int|
                                0 <= k < old(self).spec_subscribes().len()
                                    ==> #[trigger] final(self).spec_subscribes()[k] == (
                                if old(self).spec_subscribes()[k].0 == id {
                                    (id, Some(track_alias))
                                } else if old(self).spec_subscribes()[k].1 == Some(track_alias) {
                                    (old(self).spec_subscribes()[k].0, None::<u64>)
                                } else {
                                    old(self).spec_subscribes()[k]
                                })
                            &&& final(self).spec_announced() == old(self).spec_announced()
                            &&& final(self).spec_queue() == old(self).spec_queue()
                            &&& final(self).spec_queue_open() == old(self).spec_queue_open()
                        },
                        Ok(SubscriberEffect::Idle) => {
                            &&& !sub_contains(old(self).spec_subscribes(), id)
                            &&& final(self).spec_state() == old(self).spec_state()
                        },
                        _ => false,
                    }
                },
                Message::SubscribeError { id, error_code } => {
                    match r {
                        Ok(SubscriberEffect::SubscriptionFailed(rid, rcode)) => {
                            &&& rid == id && rcode == error_code
                            &&& sub_contains(old(self).spec_subscribes(), id)
                            &&& !sub_contains(final(self).spec_subscribes(), id)
                            &&& forall|e: SubEntry|
                                #![auto]
                                final(self).spec_subscribes().contains(e) <==> old(
                                    self,
                                ).spec_subscribes().contains(e) && e.0 != id
                            &&& final(self).spec_announced() == old(self).spec_announced()
                            &&& final(self).spec_queue() == old(self).spec_queue()
                            &&& final(self).spec_queue_open() == old(self).spec_queue_open()
                        },
                        Ok(SubscriberEffect::Idle) => {
                            &&& !sub_contains(old(self).spec_subscribes(), id)
                            &&& final(self).spec_state() == old(self).spec_state()
                        },
                        _ => false,
                    }
                },
                Message::PublishDone { id, status_code } => {
                    match r {
                        Ok(SubscriberEffect::SubscriptionFailed(rid, rcode)) => {
                            &&& rid == id && rcode == status_code
                            &&& sub_contains(old(self).spec_subscribes(), id)
                            &&& !sub_contains(final(self).spec_subscribes(), id)
                            &&& forall|e: SubEntry|
                                #![auto]
                                final(self).spec_subscribes().contains(e) <==> old(
                                    self,
                                ).spec_subscribes().contains(e) && e.0 != id
                            &&& final(self).spec_announced() == old(self).spec_announced()
                            &&& final(self).spec_queue() == old(self).spec_queue()
                            &&& final(self).spec_queue_open() == old(self).spec_queue_open()
                        },
                        Ok(SubscriberEffect::Idle) => {
                            &&& !sub_contains(old(self).spec_subscribes(), id)
                            &&& final(self).spec_state() == old(self).spec_state()
                        },
                        _ => false,
                    }
                },
                Message::TrackStatusOk { .. } => r == Ok::<SubscriberEffect, SessionError>(
                    SubscriberEffect::Idle,
                ) && final(self).spec_state() == old(self).spec_state(),
                _ => r matches Err(e) && e is Unimplemented && final(self).spec_state() == old(
                    self,
                ).spec_state(),
            },
    {
        match msg {
            Message::PublishNamespace { id, track_namespace } => {
                match self.recv_publish_namespace(id, &track_namespace) {
                    Ok(AnnounceOutcome::Queued) => Ok(SubscriberEffect::AnnounceQueued),
                    Ok(AnnounceOutcome::Cancelled) => Ok(SubscriberEffect::AnnounceCancelled),
                    Err(e) => Err(e),
                }
            },
            Message::PublishNamespaceDone { track_namespace } => {
                if self.recv_publish_namespace_done(&track_namespace) {
                    Ok(SubscriberEffect::AnnounceClosed)
                } else {
                    Ok(SubscriberEffect::Idle)
                }
            },
            Message::SubscribeOk { id, track_alias } => {
                if self.recv_subscribe_ok(id, track_alias) {
                    proof {
                        let subs = self.spec_subscribes();
                        let t = choose|t: int|
                            0 <= t < old(self).spec_subscribes().len() && (#[trigger] old(
                                self,
                            ).spec_subscribes()[t]).0 == id;
                        assert(subs[t] == (id, Some(track_alias)));
                        assert(subs.contains((id, Some(track_alias))));
                    }
                    Ok(SubscriberEffect::SubscriptionActivated(id, track_alias))
                } else {
                    Ok(SubscriberEffect::Idle)
                }
            },
            Message::SubscribeError { id, error_code } => {
                match self.remove_subscribe(id) {
                    Some(_) => Ok(SubscriberEffect::SubscriptionFailed(id, error_code)),
                    None => Ok(SubscriberEffect::Idle),
                }
            },
            Message::PublishDone { id, status_code } => {
                match self.remove_subscribe(id) {
                    Some(_) => Ok(SubscriberEffect::SubscriptionFailed(id, status_code)),
                    None => Ok(SubscriberEffect::Idle),
                }
            },
            Message::TrackStatusOk { .. } => Ok(SubscriberEffect::Idle),
            Message::Publish { .. } => Err(
                SessionError::Unimplemented(String::from_str("PUBLISH")),
            ),
            Message::TrackStatusError { .. } => Err(
                SessionError::Unimplemented(String::from_str("TRACK_STATUS_ERROR")),
            ),
            Message::FetchOk { .. } => Err(SessionError::Unimplemented(String::from_str("FETCH_OK"))),
            Message::FetchError { .. } => Err(
                SessionError::Unimplemented(String::from_str("FETCH_ERROR")),
            ),
            Message::SubscribeNamespaceOk { .. } => Err(
                SessionError::Unimplemented(String::from_str("SUBSCRIBE_NAMESPACE_OK")),
            ),
            Message::SubscribeNamespaceError { .. } => Err(
                SessionError::Unimplemented(String::from_str("SUBSCRIBE_NAMESPACE_ERROR")),
            ),
            _ => {
                proof {
                    assert(false);
                }
                Ok(SubscriberEffect::Idle)
            },
        }
    }
}

/// Law (alias uniqueness): in a well-formed subscriber state, two distinct
/// live subscriptions never share a track alias: aliases resolve to at
/// most one request id, and subscriptions with aliases hold distinct ones.
pub proof fn lemma_alias_uniqueness(s: &Subscriber, i: int, j: int)
    requires
        s.wf(),
        0 <= i < s.spec_subscribes().len(),
        0 <= j < s.spec_subscribes().len(),
        i != j,
        s.spec_subscribes()[i].1 is Some,
        s.spec_subscribes()[j].1 is Some,
    ensures
        s.spec_subscribes()[i].1 != s.spec_subscribes()[j].1,
        s.spec_subscribes()[i].0 != s.spec_subscribes()[j].0,
{
    if i < j {
    } else {
        assert(j < i);
    }
}

/// Removing the only subscription with an id leaves exactly the others.
proof fn lemma_subs_remove(subs: Seq<SubEntry>, i: int, id: u64)
    requires
        0 <= i < subs.len(),
        subs[i].0 == id,
        forall|j: int, k: int|
            0 <= j < k < subs.len() ==> (#[trigger] subs[j]).0 != (#[trigger] subs[k]).0,
    ensures
        !sub_contains(subs.remove(i), id),
        forall|e: SubEntry|
            #![auto]
            subs.remove(i).contains(e) <==> subs.contains(e) && e.0 != id,
{
    let out = subs.remove(i);
    assert forall|e: SubEntry| #![auto] out.contains(e) implies subs.contains(e) && e.0 != id by {
        let j = choose|j: int| 0 <= j < out.len() && out[j] == e;
        if j < i {
            assert(subs[j] == e);
            if e.0 == id {
                assert(subs[j].0 == subs[i].0);
            }
        } else {
            assert(subs[j + 1] == e);
            if e.0 == id {
                assert(subs[j + 1].0 == subs[i].0);
            }
        }
    }
    assert forall|e: SubEntry| #![auto] subs.contains(e) && e.0 != id implies out.contains(e) by {
        let j = choose|j: int| 0 <= j < subs.len() && subs[j] == e;
        if j < i {
            assert(out[j] == e);
        } else {
            assert(j != i);
            assert(out[j - 1] == e);
        }
    }
    if sub_contains(out, id) {
        let j = choose|j: int| 0 <= j < out.len() && out[j].0 == id;
        assert(out.contains(out[j]));
    }
}

/// Removing the only announce of a namespace leaves exactly the others.
proof fn lemma_anns_remove(anns: Seq<AnnEntry>, i: int, ns: Seq<Seq<u8>>)
    requires
        0 <= i < anns.len(),
        anns[i].0 == ns,
        forall|j: int, k: int|
            0 <= j < k < anns.len() ==> (#[trigger] anns[j]).0 != (#[trigger] anns[k]).0,
    ensures
        !ann_contains(anns.remove(i), ns),
        forall|j: int, k: int|
            0 <= j < k < anns.remove(i).len() ==> (#[trigger] anns.remove(i)[j]).0 != (
            #[trigger] anns.remove(i)[k]).0,
        forall|e: AnnEntry|
            #![auto]
            anns.remove(i).contains(e) <==> anns.contains(e) && e.0 != ns,
{
    let out = anns.remove(i);
    assert forall|e: AnnEntry| #![auto] out.contains(e) implies anns.contains(e) && e.0 != ns by {
        let j = choose|j: int| 0 <= j < out.len() && out[j] == e;
        if j < i {
            assert(anns[j] == e);
            if e.0 == ns {
                assert(anns[j].0 == anns[i].0);
            }
        } else {
            assert(anns[j + 1] == e);
            if e.0 == ns {
                assert(anns[j + 1].0 == anns[i].0);
            }
        }
    }
    assert forall|e: AnnEntry| #![auto] anns.contains(e) && e.0 != ns implies out.contains(e) by {
        let j = choose|j: int| 0 <= j < anns.len() && anns[j] == e;
        if j < i {
            assert(out[j] == e);
        } else {
            assert(j != i);
            assert(out[j - 1] == e);
        }
    }
    if ann_contains(out, ns) {
        let j = choose|j: int| 0 <= j < out.len() && out[j].0 == ns;
        assert(out.contains(out[j]));
    }
}

} // verus!
