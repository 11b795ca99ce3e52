//! Remote origins: deduplicated outbound sessions to peer relays and the
//! per-remote track cache.
//!
//! At most one outbound session exists per origin URL: routing a namespace
//! to an origin reuses the session already serving that URL and queues a
//! new one only for an unseen URL. Within one remote, subscriptions are
//! deduplicated by (namespace, track name): a second subscriber receives
//! the same reader, and the cache entry leaves when its last reader does.

use vstd::prelude::*;

use crate::namespace::TrackNamespace;

verus! {

/// One origin entry: the origin URL's text and the session's id.
pub type RemoteEntry = (Seq<char>, u64);

/// Whether some remote session serves the origin at this URL.
pub open spec fn remotes_contains(entries: Seq<RemoteEntry>, origin: Seq<char>) -> bool {
    exists|i: int| 0 <= i < entries.len() && (#[trigger] entries[i]).0 == origin
}

/// The session id serving the origin at this URL, if any.
pub open spec fn spec_remote_of(entries: Seq<RemoteEntry>, origin: Seq<char>) -> Option<u64>
    decreases entries.len(),
{
    if entries.len() == 0 {
        None
    } else if entries[0].0 == origin {
        Some(entries[0].1)
    } else {
        spec_remote_of(entries.drop_first(), origin)
    }
}

/// The outbound sessions of this relay, one per origin URL, and the queue
/// of sessions waiting for the producer task to start them.
pub struct Remotes {
    lookup: Vec<(String, u64)>,
    requested: Vec<u64>,
    next_remote: u64,
}

impl Remotes {
    /// The origin map: URL text to session id.
    pub closed spec fn spec_lookup(&self) -> Seq<RemoteEntry> {
        Seq::new(self.lookup@.len(), |i: int| (self.lookup@[i].0@, self.lookup@[i].1))
    }

    /// Session ids waiting for the producer task, oldest first.
    pub closed spec fn spec_requested(&self) -> Seq<u64> {
        self.requested@
    }

    /// The id the next new session will get.
    pub closed spec fn spec_next_remote(&self) -> u64 {
        self.next_remote
    }

    /// At most one session per origin URL, and session ids stay below the
    /// id counter, so fresh ids never collide.
    pub open spec fn wf(&self) -> bool {
        &&& forall|i: int, j: int|
            0 <= i < j < self.spec_lookup().len() ==> (#[trigger] self.spec_lookup()[i]).0 != (
            #[trigger] self.spec_lookup()[j]).0
        &&& forall|i: int|
            0 <= i < self.spec_lookup().len() ==> (#[trigger] self.spec_lookup()[i]).1
                < self.spec_next_remote()
    }

    /// A manager with no outbound sessions.
    pub fn new() -> (r: Self)
        ensures
            r.wf(),
            r.spec_lookup() == Seq::<RemoteEntry>::empty(),
            r.spec_requested() == Seq::<u64>::empty(),
    {
        let r = Remotes { lookup: Vec::new(), requested: Vec::new(), next_remote: 0 };
        proof {
            assert(r.spec_lookup() =~= Seq::<RemoteEntry>::empty());
        }
        r
    }

    /// Route to the origin at this URL: the session already serving it, or
    /// a new session queued for the producer task. Only an unseen URL makes
    /// a new session, so one origin never has two.
    pub fn route(&mut self, origin_url: &String) -> (r: (u64, bool))
        requires
            old(self).wf(),
            old(self).spec_next_remote() < u64::MAX,
        ensures
            final(self).wf(),
            spec_remote_of(final(self).spec_lookup(), origin_url@) == Some(r.0),
            r.1 == !remotes_contains(old(self).spec_lookup(), origin_url@),
            if r.1 {
                &&& r.0 == old(self).spec_next_remote()
                &&& final(self).spec_lookup() == old(self).spec_lookup().push(
                    (origin_url@, r.0),
                )
                &&& final(self).spec_requested() == old(self).spec_requested().push(r.0)
            } else {
                &&& spec_remote_of(old(self).spec_lookup(), origin_url@) == Some(r.0)
                &&& final(self).spec_lookup() == old(self).spec_lookup()
                &&& final(self).spec_requested() == old(self).spec_requested()
            },
    {
        let ghost entries = self.spec_lookup();
        let mut i: usize = 0;
        proof {
            assert(entries.skip(0) =~= entries);
        }
        while i < self.lookup.len()
            invariant
                old(self).wf(),
                self.spec_lookup() == old(self).spec_lookup(),
                self.spec_requested() == old(self).spec_requested(),
                self.spec_next_remote() == old(self).spec_next_remote(),
                entries == self.spec_lookup(),
                i <= entries.len(),
                spec_remote_of(entries, origin_url@) == spec_remote_of(
                    entries.skip(i as int),
                    origin_url@,
                ),
                forall|j: int| 0 <= j < i ==> (#[trigger] entries[j]).0 != origin_url@,
            decreases self.lookup.len() - i,
        {
            proof {
                assert(entries.skip(i as int)[0] == entries[i as int]);
                assert(entries.skip(i as int).drop_first() =~= entries.skip(i + 1));
            }
            if self.lookup[i].0 == *origin_url {
                proof {
                    assert((entries[i as int]).0 == origin_url@);
                }
                return (self.lookup[i].1, false);
            }
            i += 1;
        }
        let id = self.next_remote;
        self.next_remote = self.next_remote + 1;
        let ghost pre = self.spec_lookup();
        self.lookup.push((origin_url.clone(), id));
        self.requested.push(id);
        proof {
            assert(self.spec_lookup() =~= pre.push((origin_url@, id)));
            lemma_remote_of_push(pre, origin_url@, id);
        }
        (id, true)
    }

    /// The next session the producer task must start, oldest first.
    pub fn next_requested(&mut self) -> (r: Option<u64>)
        requires
            old(self).wf(),
        ensures
            final(self).wf(),
            final(self).spec_lookup() == old(self).spec_lookup(),
            final(self).spec_next_remote() == old(self).spec_next_remote(),
            match r {
                Some(id) => {
                    &&& old(self).spec_requested().len() > 0
                    &&& id == old(self).spec_requested()[0]
                    &&& final(self).spec_requested() == old(self).spec_requested().drop_first()
                },
                None => {
                    &&& old(self).spec_requested().len() == 0
                    &&& final(self).spec_requested() == old(self).spec_requested()
                },
            },
    {
        if self.requested.len() == 0 {
            return None;
        }
        let id = self.requested.remove(0);
        proof {
            assert(self.spec_requested() =~= old(self).spec_requested().drop_first());
            assert(self.spec_lookup() =~= old(self).spec_lookup());
        }
        Some(id)
    }

    /// A session ended: its origin leaves the map, every other origin
    /// stays.
    pub fn remove_origin(&mut self, origin_url: &String)
        requires
            old(self).wf(),
        ensures
            final(self).wf(),
            final(self).spec_requested() == old(self).spec_requested(),
            final(self).spec_next_remote() == old(self).spec_next_remote(),
            !remotes_contains(final(self).spec_lookup(), origin_url@),
            forall|e: RemoteEntry|
                #![auto]
                final(self).spec_lookup().contains(e) <==> old(self).spec_lookup().contains(e)
                    && e.0 != origin_url@,
    {
        let mut i: usize = 0;
        while i < self.lookup.len()
            invariant
                old(self).wf(),
                self.spec_lookup() == old(self).spec_lookup(),
                self.spec_requested() == old(self).spec_requested(),
                self.spec_next_remote() == old(self).spec_next_remote(),
                i <= self.spec_lookup().len(),
                forall|j: int| 0 <= j < i ==> (#[trigger] self.spec_lookup()[j]).0 != origin_url@,
            decreases self.lookup.len() - i,
        {
            if self.lookup[i].0 == *origin_url {
                proof {
                    assert((self.spec_lookup()[i as int]).0 == origin_url@);
                }
                let ghost pre = self.spec_lookup();
                self.lookup.remove(i);
                proof {
                    assert(self.spec_lookup() =~= pre.remove(i as int));
                    lemma_remotes_remove(pre, i as int, origin_url@);
                    assert forall|j: int|
                        0 <= j < self.spec_lookup().len() implies (
                    #[trigger] self.spec_lookup()[j]).1 < self.spec_next_remote() by {
                        assert(self.spec_lookup().contains(self.spec_lookup()[j]));
                        let k = choose|k: int|
                            0 <= k < pre.len() && pre[k] == self.spec_lookup()[j];
                    }
                }
                return ;
            }
            i += 1;
        }
    }
}

/// Law (one session per origin): in a well-formed manager two distinct
/// origin entries never share a URL, so each origin URL has at most one
/// outbound session.
pub proof fn lemma_one_session_per_origin(s: &Remotes, i: int, j: int)
    requires
        s.wf(),
        0 <= i < s.spec_lookup().len(),
        0 <= j < s.spec_lookup().len(),
        i != j,
    ensures
        s.spec_lookup()[i].0 != s.spec_lookup()[j].0,
{
    if i < j {
    } else {
        assert(j < i);
    }
}

/// Appending an entry with an unseen URL leaves the lookups of present
/// URLs intact and resolves the new URL to the new id.
proof fn lemma_remote_of_push(entries: Seq<RemoteEntry>, origin: Seq<char>, id: u64)
    requires
        forall|j: int| 0 <= j < entries.len() ==> (#[trigger] entries[j]).0 != origin,
    ensures
        spec_remote_of(entries.push((origin, id)), origin) == Some(id),
    decreases entries.len(),
{
    let out = entries.push((origin, id));
    if entries.len() == 0 {
        assert(out[0] == (origin, id));
    } else {
        assert(out[0] == entries[0]);
        assert(out.drop_first() =~= entries.drop_first().push((origin, id)));
        assert(forall|j: int|
            0 <= j < entries.drop_first().len() ==> (#[trigger] entries.drop_first()[j])
                == entries[j + 1]);
        lemma_remote_of_push(entries.drop_first(), origin, id);
    }
}

/// Removing the only entry of a URL leaves exactly the others.
proof fn lemma_remotes_remove(entries: Seq<RemoteEntry>, i: int, origin: Seq<char>)
    requires
        0 <= i < entries.len(),
        entries[i].0 == origin,
        forall|j: int, k: int|
            0 <= j < k < entries.len() ==> (#[trigger] entries[j]).0 != (#[trigger] entries[k]).0,
    ensures
        !remotes_contains(entries.remove(i), origin),
        forall|j: int, k: int|
            0 <= j < k < entries.remove(i).len() ==> (#[trigger] entries.remove(i)[j]).0 != (
            #[trigger] entries.remove(i)[k]).0,
        forall|e: RemoteEntry|
            #![auto]
            entries.remove(i).contains(e) <==> entries.contains(e) && e.0 != origin,
{
    let out = entries.remove(i);
    assert forall|e: RemoteEntry| #![auto] out.contains(e) implies entries.contains(e) && e.0
        != origin by {
        let j = choose|j: int| 0 <= j < out.len() && out[j] == e;
        if j < i {
            assert(entries[j] == e);
            if e.0 == origin {
                assert(entries[j].0 == entries[i].0);
            }
        } else {
            assert(entries[j + 1] == e);
            if e.0 == origin {
                assert(entries[j + 1].0 == entries[i].0);
            }
        }
    }
    assert forall|e: RemoteEntry| #![auto] entries.contains(e) && e.0 != origin implies
        out.contains(e) by {
        let j = choose|j: int| 0 <= j < entries.len() && entries[j] == e;
        if j < i {
            assert(out[j] == e);
        } else {
            assert(j != i);
            assert(out[j - 1] == e);
        }
    }
    if remotes_contains(out, origin) {
        let j = choose|j: int| 0 <= j < out.len() && out[j].0 == origin;
        assert(out.contains(out[j]));
    }
}

/// One cached remote track: its identity, the id of the underlying track
/// pair, and how many readers hold it.
pub type TrackEntry = (Seq<Seq<u8>>, Seq<char>, u64, u64);

/// Whether the cache holds a track under this (namespace, name) key.
pub open spec fn tracks_contains(entries: Seq<TrackEntry>, ns: Seq<Seq<u8>>, name: Seq<char>) -> bool {
    exists|i: int|
        0 <= i < entries.len() && (#[trigger] entries[i]).0 == ns && entries[i].1 == name
}

/// Reader of one remote track, handed to a subscriber; equal keys share
/// the same underlying track id while any reader lives.
#[derive(Debug)]
pub struct RemoteTrackReader {
    pub namespace: TrackNamespace,
    pub name: String,
    pub track_id: u64,
}

impl RemoteTrackReader {
    /// A reader for the track pair with this id.
    pub fn new(namespace: TrackNamespace, name: String, track_id: u64) -> (r: Self)
        ensures
            r.namespace@ == namespace@,
            r.name@ == name@,
            r.track_id == track_id,
    {
        RemoteTrackReader { namespace, name, track_id }
    }

    /// A weak handle on the same cache entry: it keeps nothing alive and
    /// upgrades only while the entry still has readers.
    pub fn downgrade(&self) -> (r: RemoteTrackWeak)
        ensures
            r.namespace@ == self.namespace@,
            r.name@ == self.name@,
            r.track_id == self.track_id,
    {
        RemoteTrackWeak {
            namespace: self.namespace.clone(),
            name: self.name.clone(),
            track_id: self.track_id,
        }
    }
}

/// Weak handle on a cached remote track.
#[derive(Debug)]
pub struct RemoteTrackWeak {
    pub namespace: TrackNamespace,
    pub name: String,
    pub track_id: u64,
}

impl RemoteTrackWeak {
    /// Upgrade against the remote's cache: a reader for the same entry if
    /// it is still live, nothing if the last reader already left.
    pub fn upgrade(&self, state: &mut RemoteState) -> (r: Option<RemoteTrackReader>)
        requires
            old(state).wf(),
            forall|i: int|
                0 <= i < old(state).spec_tracks().len() ==> (#[trigger] old(
                    state,
                ).spec_tracks()[i]).3 < u64::MAX,
        ensures
            final(state).wf(),
            final(state).spec_requested() == old(state).spec_requested(),
            final(state).spec_next_track() == old(state).spec_next_track(),
            match r {
                Some(reader) => {
                    &&& reader.namespace@ == self.namespace@
                    &&& reader.name@ == self.name@
                    &&& reader.track_id == self.track_id
                    &&& track_live(old(state).spec_tracks(), self.namespace@, self.name@, self.track_id)
                    &&& tracks_incremented(
                        old(state).spec_tracks(),
                        final(state).spec_tracks(),
                        self.namespace@,
                        self.name@,
                    )
                },
                None => {
                    &&& !track_live(old(state).spec_tracks(), self.namespace@, self.name@, self.track_id)
                    &&& final(state).spec_tracks() == old(state).spec_tracks()
                },
            },
    {
        state.upgrade_entry(&self.namespace, &self.name, self.track_id)
    }
}

/// Whether the cache holds a live entry for exactly this key and track id.
pub open spec fn track_live(
    entries: Seq<TrackEntry>,
    ns: Seq<Seq<u8>>,
    name: Seq<char>,
    track_id: u64,
) -> bool {
    exists|i: int|
        0 <= i < entries.len() && (#[trigger] entries[i]).0 == ns && entries[i].1 == name
            && entries[i].2 == track_id
}

/// The entries after one more reader took the entry under this key:
/// that entry's reader count is one higher, all else is unchanged.
pub open spec fn tracks_incremented(
    pre: Seq<TrackEntry>,
    post: Seq<TrackEntry>,
    ns: Seq<Seq<u8>>,
    name: Seq<char>,
) -> bool {
    &&& post.len() == pre.len()
    &&& forall|k: int|
        0 <= k < pre.len() ==> #[trigger] post[k] == (if pre[k].0 == ns && pre[k].1 == name {
            (pre[k].0, pre[k].1, pre[k].2, (pre[k].3 + 1) as u64)
        } else {
            pre[k]
        })
}

/// Per-remote state: the cached tracks keyed by (namespace, name) and the
/// track pairs waiting for the session to subscribe to them.
pub struct RemoteState {
    tracks: Vec<(TrackNamespace, String, u64, u64)>,
    requested: Vec<u64>,
    next_track: u64,
}

impl RemoteState {
    /// The cache: (namespace, name, track id, live readers).
    pub closed spec fn spec_tracks(&self) -> Seq<TrackEntry> {
        Seq::new(
            self.tracks@.len(),
            |i: int|
                (self.tracks@[i].0@, self.tracks@[i].1@, self.tracks@[i].2, self.tracks@[i].3),
        )
    }

    /// Track ids whose subscribe is still to be sent, oldest first.
    pub closed spec fn spec_requested(&self) -> Seq<u64> {
        self.requested@
    }

    /// The id the next new track pair will get.
    pub closed spec fn spec_next_track(&self) -> u64 {
        self.next_track
    }

    /// Keys are unique, every cached entry has a reader, and ids stay
    /// below the id counter.
    pub open spec fn wf(&self) -> bool {
        &&& forall|i: int, j: int|
            0 <= i < j < self.spec_tracks().len() ==> !((#[trigger] self.spec_tracks()[i]).0 == (
            #[trigger] self.spec_tracks()[j]).0 && self.spec_tracks()[i].1
                == self.spec_tracks()[j].1)
        &&& forall|i: int|
            0 <= i < self.spec_tracks().len() ==> (#[trigger] self.spec_tracks()[i]).3 >= 1
        &&& forall|i: int|
            0 <= i < self.spec_tracks().len() ==> (#[trigger] self.spec_tracks()[i]).2
                < self.spec_next_track()
    }

    /// A remote with an empty track cache.
    pub fn new() -> (r: Self)
        ensures
            r.wf(),
            r.spec_tracks() == Seq::<TrackEntry>::empty(),
            r.spec_requested() == Seq::<u64>::empty(),
    {
        let r = RemoteState { tracks: Vec::new(), requested: Vec::new(), next_track: 0 };
        proof {
            assert(r.spec_tracks() =~= Seq::<TrackEntry>::empty());
        }
        r
    }

    /// Request a track of this remote: the cached reader if one is live
    /// for the key, else a fresh track pair whose writer joins the
    /// subscribe queue. Equal keys share one underlying track.
    pub fn subscribe(&mut self, namespace: &TrackNamespace, name: &String) -> (r: (
        RemoteTrackReader,
        bool,
    ))
        requires
            old(self).wf(),
            old(self).spec_next_track() < u64::MAX,
            forall|i: int|
                0 <= i < old(self).spec_tracks().len() ==> (#[trigger] old(
                    self,
                ).spec_tracks()[i]).3 < u64::MAX,
        ensures
            final(self).wf(),
            r.0.namespace@ == namespace@,
            r.0.name@ == name@,
            final(self).spec_next_track() >= old(self).spec_next_track(),
            r.1 == !tracks_contains(old(self).spec_tracks(), namespace@, name@),
            if r.1 {
                &&& r.0.track_id == old(self).spec_next_track()
                &&& final(self).spec_tracks() == old(self).spec_tracks().push(
                    (namespace@, name@, r.0.track_id, 1u64),
                )
                &&& final(self).spec_requested() == old(self).spec_requested().push(r.0.track_id)
            } else {
                &&& track_live(old(self).spec_tracks(), namespace@, name@, r.0.track_id)
                &&& tracks_incremented(
                    old(self).spec_tracks(),
                    final(self).spec_tracks(),
                    namespace@,
                    name@,
                )
                &&& final(self).spec_requested() == old(self).spec_requested()
            },
    {
        let ghost pre = self.spec_tracks();
        let mut i: usize = 0;
        while i < self.tracks.len()
            invariant
                old(self).wf(),
                self.spec_tracks() == old(self).spec_tracks(),
                self.spec_requested() == old(self).spec_requested(),
                self.spec_next_track() == old(self).spec_next_track(),
                pre == old(self).spec_tracks(),
                forall|k: int|
                    0 <= k < pre.len() ==> (#[trigger] pre[k]).3 < u64::MAX,
                i <= pre.len(),
                forall|j: int|
                    0 <= j < i ==> !((#[trigger] pre[j]).0 == namespace@ && pre[j].1 == name@),
            decreases self.tracks.len() - i,
        {
            let hit = self.tracks[i].0 == *namespace && self.tracks[i].1 == *name;
            if hit {
                proof {
                    assert((pre[i as int]).0 == namespace@ && pre[i as int].1 == name@);
                }
                let track_id = self.tracks[i].2;
                let readers = self.tracks[i].3;
                let ns2 = self.tracks[i].0.clone();
                let name2 = self.tracks[i].1.clone();
                self.tracks[i] = (ns2, name2, track_id, readers + 1);
                proof {
                    assert forall|k: int|
                        0 <= k < pre.len() implies #[trigger] self.spec_tracks()[k] == (if pre[k].0
                        == namespace@ && pre[k].1 == name@ {
                        (pre[k].0, pre[k].1, pre[k].2, (pre[k].3 + 1) as u64)
                    } else {
                        pre[k]
                    }) by {
                        if k != i {
                            assert(self.spec_tracks()[k] == pre[k]);
                            if pre[k].0 == namespace@ && pre[k].1 == name@ {
                                if k < i {
                                    assert(!(pre[k].0 == pre[i as int].0 && pre[k].1
                                        == pre[i as int].1));
                                } else {
                                    assert(!(pre[i as int].0 == pre[k].0 && pre[i as int].1
                                        == pre[k].1));
                                }
                            }
                        }
                    }
                    assert(self.spec_tracks().len() == pre.len());
                }
                let reader = RemoteTrackReader {
                    namespace: namespace.clone(),
                    name: name.clone(),
                    track_id,
                };
                return (reader, false);
            }
            i += 1;
        }
        let track_id = self.next_track;
        self.next_track = self.next_track + 1;
        let ghost pre_req = self.spec_requested();
        self.tracks.push((namespace.clone(), name.clone(), track_id, 1));
        self.requested.push(track_id);
        proof {
            assert(self.spec_tracks() =~= pre.push((namespace@, name@, track_id, 1u64)));
            assert(self.spec_requested() =~= pre_req.push(track_id));
        }
        let reader = RemoteTrackReader { namespace: namespace.clone(), name: name.clone(), track_id };
        (reader, true)
    }

    /// Upgrade a weak handle: a reader for the entry under this key and
    /// track id if it is still live.
    fn upgrade_entry(&mut self, namespace: &TrackNamespace, name: &String, track_id: u64) -> (r:
        Option<RemoteTrackReader>)
        requires
            old(self).wf(),
            forall|i: int|
                0 <= i < old(self).spec_tracks().len() ==> (#[trigger] old(
                    self,
                ).spec_tracks()[i]).3 < u64::MAX,
        ensures
            final(self).wf(),
            final(self).spec_requested() == old(self).spec_requested(),
            final(self).spec_next_track() == old(self).spec_next_track(),
            match r {
                Some(reader) => {
                    &&& reader.namespace@ == namespace@
                    &&& reader.name@ == name@
                    &&& reader.track_id == track_id
                    &&& track_live(old(self).spec_tracks(), namespace@, name@, track_id)
                    &&& tracks_incremented(
                        old(self).spec_tracks(),
                        final(self).spec_tracks(),
                        namespace@,
                        name@,
                    )
                },
                None => {
                    &&& !track_live(old(self).spec_tracks(), namespace@, name@, track_id)
                    &&& final(self).spec_tracks() == old(self).spec_tracks()
                },
            },
    {
        let ghost pre = self.spec_tracks();
        let mut i: usize = 0;
        while i < self.tracks.len()
            invariant
                old(self).wf(),
                self.spec_tracks() == old(self).spec_tracks(),
                self.spec_requested() == old(self).spec_requested(),
                self.spec_next_track() == old(self).spec_next_track(),
                pre == old(self).spec_tracks(),
                forall|k: int| 0 <= k < pre.len() ==> (#[trigger] pre[k]).3 < u64::MAX,
                i <= pre.len(),
                forall|j: int|
                    0 <= j < i ==> !((#[trigger] pre[j]).0 == namespace@ && pre[j].1 == name@
                        && pre[j].2 == track_id),
            decreases self.tracks.len() - i,
        {
            let hit = self.tracks[i].0 == *namespace && self.tracks[i].1 == *name
                && self.tracks[i].2 == track_id;
            if hit {
                proof {
                    assert((pre[i as int]).0 == namespace@ && pre[i as int].1 == name@
                        && pre[i as int].2 == track_id);
                }
                let readers = self.tracks[i].3;
                let ns2 = self.tracks[i].0.clone();
                let name2 = self.tracks[i].1.clone();
                self.tracks[i] = (ns2, name2, track_id, readers + 1);
                proof {
                    assert forall|k: int|
                        0 <= k < pre.len() implies #[trigger] self.spec_tracks()[k] == (if pre[k].0
                        == namespace@ && pre[k].1 == name@ {
                        (pre[k].0, pre[k].1, pre[k].2, (pre[k].3 + 1) as u64)
                    } else {
                        pre[k]
                    }) by {
                        if k != i {
                            assert(self.spec_tracks()[k] == pre[k]);
                            if pre[k].0 == namespace@ && pre[k].1 == name@ {
                                if k < i {
                                    assert(!(pre[k].0 == pre[i as int].0 && pre[k].1
                                        == pre[i as int].1));
                                } else {
                                    assert(!(pre[i as int].0 == pre[k].0 && pre[i as int].1
                                        == pre[k].1));
                                }
                            }
                        }
                    }
                    assert(self.spec_tracks().len() == pre.len());
                }
                let reader = RemoteTrackReader {
                    namespace: namespace.clone(),
                    name: name.clone(),
                    track_id,
                };
                return Some(reader);
            }
            i += 1;
        }
        None
    }

    /// A reader dropped: one fewer on its entry; the last reader removes
    /// the entry from the cache.
    pub fn drop_reader(&mut self, reader: RemoteTrackReader)
        requires
            old(self).wf(),
        ensures
            final(self).wf(),
            final(self).spec_requested() == old(self).spec_requested(),
            final(self).spec_next_track() == old(self).spec_next_track(),
            !track_live(old(self).spec_tracks(), reader.namespace@, reader.name@, reader.track_id)
                ==> final(self).spec_tracks() == old(self).spec_tracks(),
            track_live(old(self).spec_tracks(), reader.namespace@, reader.name@, reader.track_id)
                ==> ({
                let pre = old(self).spec_tracks();
                let i = choose|i: int|
                    0 <= i < pre.len() && (#[trigger] pre[i]).0 == reader.namespace@ && pre[i].1
                        == reader.name@ && pre[i].2 == reader.track_id;
                if pre[i].3 == 1 {
                    final(self).spec_tracks() == pre.remove(i)
                } else {
                    final(self).spec_tracks().len() == pre.len() && forall|k: int|
                        0 <= k < pre.len() ==> #[trigger] final(self).spec_tracks()[k] == (if k
                            == i {
                            (pre[i].0, pre[i].1, pre[i].2, (pre[i].3 - 1) as u64)
                        } else {
                            pre[k]
                        })
                }
            }),
    {
        let mut i: usize = 0;
        while i < self.tracks.len()
            invariant
                old(self).wf(),
                self.spec_tracks() == old(self).spec_tracks(),
                self.spec_requested() == old(self).spec_requested(),
                self.spec_next_track() == old(self).spec_next_track(),
                i <= self.spec_tracks().len(),
                forall|j: int|
                    0 <= j < i ==> !((#[trigger] old(self).spec_tracks()[j]).0 == reader.namespace@
                        && old(self).spec_tracks()[j].1 == reader.name@ && old(
                        self,
                    ).spec_tracks()[j].2 == reader.track_id),
            decreases self.tracks.len() - i,
        {
            let hit = self.tracks[i].0 == reader.namespace && self.tracks[i].1 == reader.name
                && self.tracks[i].2 == reader.track_id;
            if hit {
                proof {
                    let pre0 = old(self).spec_tracks();
                    assert((pre0[i as int]).0 == reader.namespace@ && pre0[i as int].1
                        == reader.name@ && pre0[i as int].2 == reader.track_id);
                    let c = choose|c: int|
                        0 <= c < pre0.len() && (#[trigger] pre0[c]).0 == reader.namespace@
                            && pre0[c].1 == reader.name@ && pre0[c].2 == reader.track_id;
                    if c != i {
                        if c < i {
                            assert(!(pre0[c].0 == pre0[i as int].0 && pre0[c].1
                                == pre0[i as int].1));
                        } else {
                            assert(!(pre0[i as int].0 == pre0[c].0 && pre0[i as int].1
                                == pre0[c].1));
                        }
                    }
                    assert(c == i as int);
                }
                let readers = self.tracks[i].3;
                let ghost pre = self.spec_tracks();
                if readers <= 1 {
                    self.tracks.remove(i);
                    proof {
                        assert(self.spec_tracks() =~= pre.remove(i as int));
                        lemma_tracks_remove(pre, i as int);
                    }
                } else {
                    let ns2 = self.tracks[i].0.clone();
                    let name2 = self.tracks[i].1.clone();
                    self.tracks[i] = (ns2, name2, reader.track_id, readers - 1);
                    proof {
                        assert(self.spec_tracks().len() == pre.len());
                        assert forall|k: int|
                            0 <= k < pre.len() && k != i implies #[trigger] self.spec_tracks()[k]
                            == pre[k] by {}
                        assert(self.spec_tracks()[i as int].0 == pre[i as int].0
                            && self.spec_tracks()[i as int].1 == pre[i as int].1
                            && self.spec_tracks()[i as int].2 == pre[i as int].2);
                    }
                }
                return ;
            }
            i += 1;
        }
    }
}

/// Removing an entry keeps key uniqueness, reader positivity and the id
/// bound.
proof fn lemma_tracks_remove(entries: Seq<TrackEntry>, i: int)
    requires
        0 <= i < entries.len(),
    ensures
        forall|j: int|
            0 <= j < entries.remove(i).len() ==> #[trigger] entries.remove(i)[j] == (if j < i {
                entries[j]
            } else {
                entries[j + 1]
            }),
{
}

} // verus!
