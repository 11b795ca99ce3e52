//! Media-stream records and the subgroup reader's state machine.
//!
//! A unidirectional stream carries a subgroup header and then a run of
//! objects, each a delta-coded object id, a payload length and the payload
//! bytes. Absolute object ids are the running sum of the deltas, starting
//! at zero, so within one stream they never decrease. A stream that ends
//! inside a payload is a `WrongSize` failure.

use vstd::prelude::*;

use crate::session::{ServeError, SessionError};
use vstd::string::StringExecFns;

verus! {

/// Header of one subgroup stream.
#[derive(Debug, Clone, Copy, PartialEq, Eq, Structural)]
pub struct SubgroupHeader {
    pub track_alias: u64,
    pub group_id: u64,
    pub subgroup_id: u64,
    pub publisher_priority: u8,
    /// Whether each object carries extension headers.
    pub has_extension_headers: bool,
}

/// Header of one unidirectional media stream.
#[derive(Debug, Clone, PartialEq, Eq, Structural)]
pub enum StreamHeader {
    /// A subgroup stream; the only kind this relay serves.
    Subgroup(SubgroupHeader),
    /// Any other stream kind; receiving one fails with `Unimplemented`.
    Other,
}

/// One record of a subgroup stream, before its payload bytes.
#[derive(Debug, Clone, PartialEq, Eq, Structural)]
pub struct SubgroupObject {
    /// Added to the running object id to give this object's absolute id.
    pub object_id_delta: u64,
    /// How many payload bytes follow the record.
    pub payload_length: u64,
    /// Object status, present on empty objects.
    pub status: Option<u64>,
}

/// One datagram: a single object outside any stream.
#[derive(Debug)]
pub struct Datagram {
    pub track_alias: u64,
    pub group_id: u64,
    pub object_id: Option<u64>,
    pub publisher_priority: u8,
    pub status: Option<u64>,
    pub payload: Option<Vec<u8>>,
}

/// Only subgroup streams are served: any other header kind fails the
/// stream with `Unimplemented`.
pub fn accept_stream_header(header: &StreamHeader) -> (r: Result<SubgroupHeader, SessionError>)
    ensures
        match r {
            Ok(h) => *header == StreamHeader::Subgroup(h),
            Err(e) => *header == StreamHeader::Other && e is Unimplemented,
        },
{
    match header {
        StreamHeader::Subgroup(h) => Ok(*h),
        StreamHeader::Other => Err(
            SessionError::Unimplemented(String::from_str("non-SUBGROUP stream types")),
        ),
    }
}

/// A stream whose alias never resolved, even after the alias wait, fails
/// with a not-found serve error; the session stays up.
pub fn dispatch_stream(lookup: Option<u64>) -> (r: Result<u64, SessionError>)
    ensures
        match r {
            Ok(id) => lookup == Some(id),
            Err(e) => lookup is None && (e matches SessionError::Serve(s) && s is NotFound),
        },
{
    match lookup {
        Some(id) => Ok(id),
        None => Err(
            SessionError::Serve(
                ServeError::NotFound(String::from_str("subscription for track alias not found")),
            ),
        ),
    }
}

/// What becomes of a datagram after the alias wait.
#[derive(Debug, PartialEq, Eq, Structural)]
pub enum DatagramDispatch {
    /// Hand the datagram to the subscription with this request id.
    Deliver(u64),
    /// Unknown alias: the datagram is dropped silently.
    Discard,
}

/// A datagram whose alias never resolved is silently dropped; one whose
/// alias resolved goes to that subscription.
pub fn dispatch_datagram(lookup: Option<u64>) -> (r: DatagramDispatch)
    ensures
        match lookup {
            Some(id) => r == DatagramDispatch::Deliver(id),
            None => r == DatagramDispatch::Discard,
        },
{
    match lookup {
        Some(id) => DatagramDispatch::Deliver(id),
        None => DatagramDispatch::Discard,
    }
}

/// The sum of a sequence of deltas.
pub open spec fn spec_sum(deltas: Seq<u64>) -> int
    decreases deltas.len(),
{
    if deltas.len() == 0 {
        0
    } else {
        spec_sum(deltas.drop_last()) + deltas.last()
    }
}

/// The absolute object ids a run of deltas yields: the running sums.
pub open spec fn spec_cumsum(deltas: Seq<u64>) -> Seq<int> {
    Seq::new(deltas.len(), |i: int| spec_sum(deltas.take(i + 1)))
}

/// One more delta extends the running sum by it.
pub proof fn lemma_sum_push(deltas: Seq<u64>, d: u64)
    ensures
        spec_sum(deltas.push(d)) == spec_sum(deltas) + d,
{
    assert(deltas.push(d).drop_last() =~= deltas);
}

/// Law (object-id order): absolute object ids within one stream are the
/// cumulative sums of the deltas starting at zero, and never decrease.
pub proof fn lemma_object_ids_nondecreasing(deltas: Seq<u64>, i: int, j: int)
    requires
        0 <= i <= j < deltas.len(),
    ensures
        spec_cumsum(deltas)[i] <= spec_cumsum(deltas)[j],
        spec_cumsum(deltas)[i] == spec_sum(deltas.take(i + 1)),
    decreases j - i,
{
    if i < j {
        lemma_object_ids_nondecreasing(deltas, i, j - 1);
        assert(deltas.take(j + 1).drop_last() =~= deltas.take(j));
        assert(spec_sum(deltas.take(j + 1)) == spec_sum(deltas.take(j)) + deltas[j]);
    }
}

/// Reader state of one subgroup stream: the running object id and the
/// payload bytes still owed for the object in flight.
pub struct SubgroupConsumer {
    current_object_id: u64,
    remaining: u64,
    deltas: Ghost<Seq<u64>>,
}

impl SubgroupConsumer {
    /// The deltas of the objects read so far, in wire order.
    pub closed spec fn spec_deltas(&self) -> Seq<u64> {
        self.deltas@
    }

    /// Payload bytes still owed for the object in flight.
    pub closed spec fn spec_remaining(&self) -> u64 {
        self.remaining
    }

    /// The running object id, the sum of the deltas so far.
    pub closed spec fn spec_current(&self) -> u64 {
        self.current_object_id
    }

    /// The running id is the sum of the deltas, and it fits its word.
    pub open spec fn wf(&self) -> bool {
        self.spec_current() == spec_sum(self.spec_deltas())
    }

    /// A reader at the start of a subgroup stream: no objects yet, nothing
    /// owed.
    pub fn new() -> (r: Self)
        ensures
            r.wf(),
            r.spec_deltas() == Seq::<u64>::empty(),
            r.spec_remaining() == 0,
            r.spec_current() == 0,
    {
        SubgroupConsumer { current_object_id: 0, remaining: 0, deltas: Ghost(Seq::empty()) }
    }

    /// Take the next object record: its absolute id is the running sum of
    /// the deltas. An id past the id space fails the subscription; the
    /// previous object's payload must be complete.
    pub fn begin_object(&mut self, object: &SubgroupObject) -> (r: Result<u64, SessionError>)
        requires
            old(self).wf(),
            old(self).spec_remaining() == 0,
        ensures
            final(self).wf(),
            match r {
                Ok(abs_id) => {
                    &&& abs_id == old(self).spec_current() + object.object_id_delta
                    &&& final(self).spec_deltas() == old(self).spec_deltas().push(
                        object.object_id_delta,
                    )
                    &&& abs_id == spec_sum(final(self).spec_deltas())
                    &&& final(self).spec_current() == abs_id
                    &&& final(self).spec_remaining() == object.payload_length
                },
                Err(e) => {
                    &&& e is Other
                    &&& old(self).spec_current() + object.object_id_delta > u64::MAX
                    &&& final(self).spec_deltas() == old(self).spec_deltas()
                    &&& final(self).spec_remaining() == old(self).spec_remaining()
                    &&& final(self).spec_current() == old(self).spec_current()
                },
            },
    {
        if object.object_id_delta > u64::MAX - self.current_object_id {
            return Err(SessionError::Other(String::from_str("object id out of range")));
        }
        self.current_object_id = self.current_object_id + object.object_id_delta;
        self.remaining = object.payload_length;
        proof {
            lemma_sum_push(old(self).spec_deltas(), object.object_id_delta);
        }
        self.deltas = Ghost(self.deltas@.push(object.object_id_delta));
        Ok(self.current_object_id)
    }

    /// Account for one payload chunk of the object in flight.
    pub fn feed_payload(&mut self, n: u64)
        requires
            old(self).wf(),
            n <= old(self).spec_remaining(),
        ensures
            final(self).wf(),
            final(self).spec_remaining() == old(self).spec_remaining() - n,
            final(self).spec_deltas() == old(self).spec_deltas(),
            final(self).spec_current() == old(self).spec_current(),
    {
        self.remaining = self.remaining - n;
    }

    /// The stream ended: complete between objects, `WrongSize` inside a
    /// payload.
    pub fn stream_end(&self) -> (r: Result<(), SessionError>)
        ensures
            match r {
                Ok(()) => self.spec_remaining() == 0,
                Err(e) => self.spec_remaining() > 0 && e is WrongSize,
            },
    {
        if self.remaining == 0 {
            Ok(())
        } else {
            Err(SessionError::WrongSize)
        }
    }
}

} // verus!
