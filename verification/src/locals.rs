//! Process-local registry of served namespaces.
//!
//! Registered namespaces are unique; a duplicate registration fails. A
//! lookup returns the entry whose namespace is the longest registered
//! element-wise prefix of the requested namespace.

use vstd::prelude::*;

use crate::namespace::TrackNamespace;

verus! {

/// Handle to the tracks served under one namespace: the namespace plus the
/// application's identifier for the underlying track source.
#[derive(Debug)]
pub struct TracksReader {
    pub namespace: TrackNamespace,
    pub id: u64,
}

impl View for TracksReader {
    type V = (Seq<Seq<u8>>, u64);

    open spec fn view(&self) -> (Seq<Seq<u8>>, u64) {
        (self.namespace@, self.id)
    }
}

impl Clone for TracksReader {
    fn clone(&self) -> (r: Self)
        ensures
            r@ == self@,
    {
        TracksReader { namespace: self.namespace.clone(), id: self.id }
    }
}

/// Whether `p` is an element-wise prefix of `q`.
pub open spec fn is_prefix_of(p: Seq<Seq<u8>>, q: Seq<Seq<u8>>) -> bool {
    p.len() <= q.len() && p == q.take(p.len() as int)
}

/// Compare two namespaces element-wise for the prefix relation.
pub fn ns_is_prefix(p: &TrackNamespace, q: &TrackNamespace) -> (r: bool)
    ensures
        r == is_prefix_of(p@, q@),
{
    if p.fields.len() > q.fields.len() {
        return false;
    }
    let mut i: usize = 0;
    while i < p.fields.len()
        invariant
            p@.len() <= q@.len(),
            i <= p@.len(),
            forall|j: int| 0 <= j < i ==> p@[j] == q@[j],
        decreases p.fields.len() - i,
    {
        if !(p.fields[i].value == q.fields[i].value) {
            proof {
                assert(p@[i as int] != q@[i as int]);
                assert(q@.take(p@.len() as int)[i as int] == q@[i as int]);
            }
            return false;
        }
        proof {
            assert(p@[i as int] =~= q@[i as int]);
        }
        i += 1;
    }
    proof {
        assert(p@ =~= q@.take(p@.len() as int));
    }
    true
}

/// Failure to register local tracks.
#[derive(Debug, Clone, PartialEq, Eq, Structural)]
pub enum RegisterError {
    /// The namespace is already registered.
    Duplicate,
}

/// Handle standing for one live registration; giving it back to
/// `unregister` removes the entry it stands for.
#[derive(Debug)]
pub struct Registration {
    pub namespace: TrackNamespace,
}

/// Registry of local tracks.
#[derive(Debug)]
pub struct Locals {
    entries: Vec<TracksReader>,
}

impl View for Locals {
    type V = Seq<(Seq<Seq<u8>>, u64)>;

    closed spec fn view(&self) -> Seq<(Seq<Seq<u8>>, u64)> {
        Seq::new(self.entries@.len(), |i: int| self.entries@[i]@)
    }
}

/// Whether some entry holds exactly the namespace `ns`.
pub open spec fn registry_contains(entries: Seq<(Seq<Seq<u8>>, u64)>, ns: Seq<Seq<u8>>) -> bool {
    exists|i: int| 0 <= i < entries.len() && (#[trigger] entries[i]).0 == ns
}

/// The entry whose namespace is the longest registered prefix of `ns`;
/// among equal lengths the earliest entry wins.
pub open spec fn spec_best(entries: Seq<(Seq<Seq<u8>>, u64)>, ns: Seq<Seq<u8>>) -> Option<
    (Seq<Seq<u8>>, u64),
>
    decreases entries.len(),
{
    if entries.len() == 0 {
        None
    } else {
        let rest = spec_best(entries.drop_last(), ns);
        let e = entries.last();
        if is_prefix_of(e.0, ns) && (match rest {
            None => true,
            Some(b) => e.0.len() > b.0.len(),
        }) {
            Some(e)
        } else {
            rest
        }
    }
}

impl Locals {
    /// Registered namespaces are unique.
    pub open spec fn wf(&self) -> bool {
        forall|i: int, j: int|
            0 <= i < j < self@.len() ==> (#[trigger] self@[i]).0 != (#[trigger] self@[j]).0
    }

    /// An empty registry.
    pub fn new() -> (r: Self)
        ensures
            r@ == Seq::<(Seq<Seq<u8>>, u64)>::empty(),
            r.wf(),
    {
        let r = Locals { entries: Vec::new() };
        proof {
            assert(r@ =~= Seq::<(Seq<Seq<u8>>, u64)>::empty());
        }
        r
    }

    /// Register new local tracks: fails with `Duplicate` and changes
    /// nothing if the namespace is already present; otherwise appends the
    /// entry and hands back the handle that will remove it.
    pub fn register(&mut self, tracks: TracksReader) -> (r: Result<Registration, RegisterError>)
        requires
            old(self).wf(),
        ensures
            final(self).wf(),
            match r {
                Ok(reg) => {
                    &&& !registry_contains(old(self)@, tracks.namespace@)
                    &&& final(self)@ == old(self)@.push(tracks@)
                    &&& reg.namespace@ == tracks.namespace@
                },
                Err(RegisterError::Duplicate) => {
                    &&& registry_contains(old(self)@, tracks.namespace@)
                    &&& final(self)@ == old(self)@
                },
            },
    {
        let mut i: usize = 0;
        while i < self.entries.len()
            invariant
                self@ == old(self)@,
                old(self).wf(),
                i <= self@.len(),
                forall|j: int| 0 <= j < i ==> (#[trigger] self@[j]).0 != tracks.namespace@,
            decreases self.entries.len() - i,
        {
            if self.entries[i].namespace == tracks.namespace {
                proof {
                    assert((self@[i as int]).0 == tracks.namespace@);
                }
                return Err(RegisterError::Duplicate);
            }
            i += 1;
        }
        let namespace = tracks.namespace.clone();
        let ghost pre = self@;
        self.entries.push(tracks);
        proof {
            assert(self@ =~= pre.push(tracks@));
        }
        Ok(Registration { namespace })
    }

    /// Remove the registration's entry; every other entry stays.
    pub fn unregister(&mut self, registration: Registration)
        requires
            old(self).wf(),
        ensures
            final(self).wf(),
            !registry_contains(final(self)@, registration.namespace@),
            forall|e: (Seq<Seq<u8>>, u64)|
                #![auto]
                final(self)@.contains(e) <==> old(self)@.contains(e) && e.0
                    != registration.namespace@,
    {
        let mut i: usize = 0;
        while i < self.entries.len()
            invariant
                old(self).wf(),
                self@ == old(self)@,
                i <= self@.len(),
                forall|j: int| 0 <= j < i ==> (#[trigger] self@[j]).0 != registration.namespace@,
            decreases self.entries.len() - i,
        {
            if self.entries[i].namespace == registration.namespace {
                proof {
                    assert((self@[i as int]).0 == registration.namespace@);
                }
                let ghost pre = self@;
                self.entries.remove(i);
                proof {
                    assert(self@ =~= pre.remove(i as int));
                    lemma_remove_entry(pre, i as int, registration.namespace@);
                }
                return ;
            }
            i += 1;
        }
    }

    /// Retrieve local tracks by namespace: the entry whose namespace is the
    /// longest registered prefix of `namespace`, or `None` when no
    /// registered namespace is a prefix of it.
    pub fn retrieve(&self, namespace: &TrackNamespace) -> (r: Option<TracksReader>)
        ensures
            match r {
                Some(t) => spec_best(self@, namespace@) == Some(t@),
                None => spec_best(self@, namespace@) is None,
            },
    {
        let mut best: Option<TracksReader> = None;
        let mut i: usize = 0;
        while i < self.entries.len()
            invariant
                i <= self@.len(),
                match best {
                    Some(t) => spec_best(self@.take(i as int), namespace@) == Some(t@),
                    None => spec_best(self@.take(i as int), namespace@) is None,
                },
            decreases self.entries.len() - i,
        {
            proof {
                assert(self@.take(i + 1).drop_last() =~= self@.take(i as int));
                assert(self@.take(i + 1).last() == self@[i as int]);
            }
            if ns_is_prefix(&self.entries[i].namespace, namespace) {
                let replace = match &best {
                    None => true,
                    Some(b) => self.entries[i].namespace.fields.len() > b.namespace.fields.len(),
                };
                if replace {
                    best = Some(self.entries[i].clone());
                }
            }
            i += 1;
        }
        proof {
            assert(self@.take(self@.len() as int) =~= self@);
        }
        best
    }
}

/// Removing the only entry with a namespace leaves exactly the others.
proof fn lemma_remove_entry(entries: Seq<(Seq<Seq<u8>>, u64)>, i: int, ns: Seq<Seq<u8>>)
    requires
        0 <= i < entries.len(),
        entries[i].0 == ns,
        forall|j: int, k: int|
            0 <= j < k < entries.len() ==> (#[trigger] entries[j]).0 != (#[trigger] entries[k]).0,
    ensures
        forall|j: int, k: int|
            0 <= j < k < entries.remove(i).len() ==> (#[trigger] entries.remove(i)[j]).0 != (
            #[trigger] entries.remove(i)[k]).0,
        !registry_contains(entries.remove(i), ns),
        forall|e: (Seq<Seq<u8>>, u64)|
            #![auto]
            entries.remove(i).contains(e) <==> entries.contains(e) && e.0 != ns,
{
    let out = entries.remove(i);
    assert forall|e: (Seq<Seq<u8>>, u64)| #![auto] out.contains(e) implies entries.contains(e)
        && e.0 != ns by {
        let j = choose|j: int| 0 <= j < out.len() && out[j] == e;
        if j < i {
            assert(entries[j] == e);
            if e.0 == ns {
                assert(entries[j].0 == entries[i].0);
            }
        } else {
            assert(entries[j + 1] == e);
            if e.0 == ns {
                assert(entries[j + 1].0 == entries[i].0);
            }
        }
    }
    assert forall|e: (Seq<Seq<u8>>, u64)| #![auto]
        entries.contains(e) && e.0 != ns implies out.contains(e) by {
        let j = choose|j: int| 0 <= j < entries.len() && entries[j] == e;
        if j < i {
            assert(out[j] == e);
        } else {
            assert(j != i);
            assert(out[j - 1] == e);
        }
    }
    if registry_contains(out, ns) {
        let j = choose|j: int| 0 <= j < out.len() && out[j].0 == ns;
        assert(out.contains(out[j]));
    }
}

/// Law: after a successful registration whose namespace prefixes a query
/// and prefixes it longest, retrieval returns exactly that entry.
pub proof fn lemma_retrieve_after_register(
    entries: Seq<(Seq<Seq<u8>>, u64)>,
    t: (Seq<Seq<u8>>, u64),
    ns: Seq<Seq<u8>>,
)
    requires
        is_prefix_of(t.0, ns),
        forall|j: int|
            0 <= j < entries.len() && is_prefix_of((#[trigger] entries[j]).0, ns)
                ==> entries[j].0.len() < t.0.len(),
    ensures
        spec_best(entries.push(t), ns) == Some(t),
{
    assert(entries.push(t).drop_last() =~= entries);
    assert(entries.push(t).last() == t);
    lemma_spec_best_correct(entries, ns);
}

/// Law: a query that no registered namespace prefixes retrieves nothing.
pub proof fn lemma_retrieve_none(entries: Seq<(Seq<Seq<u8>>, u64)>, ns: Seq<Seq<u8>>)
    requires
        forall|j: int| 0 <= j < entries.len() ==> !is_prefix_of((#[trigger] entries[j]).0, ns),
    ensures
        spec_best(entries, ns) is None,
    decreases entries.len(),
{
    if entries.len() != 0 {
        lemma_retrieve_none(entries.drop_last(), ns);
    }
}

/// What retrieval returns is a registered entry, its namespace prefixes the
/// query, and no registered prefix of the query is longer.
pub proof fn lemma_spec_best_correct(entries: Seq<(Seq<Seq<u8>>, u64)>, ns: Seq<Seq<u8>>)
    ensures
        match spec_best(entries, ns) {
            Some(b) => {
                &&& entries.contains(b)
                &&& is_prefix_of(b.0, ns)
                &&& forall|j: int|
                    0 <= j < entries.len() && is_prefix_of((#[trigger] entries[j]).0, ns)
                        ==> entries[j].0.len() <= b.0.len()
            },
            None => forall|j: int|
                0 <= j < entries.len() ==> !is_prefix_of((#[trigger] entries[j]).0, ns),
        },
    decreases entries.len(),
{
    if entries.len() != 0 {
        let front = entries.drop_last();
        let e = entries.last();
        lemma_spec_best_correct(front, ns);
        assert(forall|j: int| 0 <= j < front.len() ==> entries[j] == (#[trigger] front[j]));
        match spec_best(entries, ns) {
            Some(b) => {
                if b == e && (match spec_best(front, ns) {
                    None => true,
                    Some(c) => e.0.len() > c.0.len(),
                }) && is_prefix_of(e.0, ns) {
                    assert(entries.contains(b)) by {
                        assert(entries[entries.len() - 1] == b);
                    }
                    assert forall|j: int|
                        0 <= j < entries.len() && is_prefix_of((#[trigger] entries[j]).0, ns)
                        implies entries[j].0.len() <= b.0.len() by {
                        if j < entries.len() - 1 {
                            assert(front[j] == entries[j]);
                        }
                    }
                } else {
                    assert(spec_best(front, ns) == Some(b));
                    assert(front.contains(b));
                    let j = choose|j: int| 0 <= j < front.len() && front[j] == b;
                    assert(entries[j] == b);
                    assert(entries.contains(b));
                    assert forall|j2: int|
                        0 <= j2 < entries.len() && is_prefix_of((#[trigger] entries[j2]).0, ns)
                        implies entries[j2].0.len() <= b.0.len() by {
                        if j2 < entries.len() - 1 {
                            assert(front[j2] == entries[j2]);
                        } else {
                            assert(entries[j2] == e);
                        }
                    }
                }
            },
            None => {
                assert forall|j: int| 0 <= j < entries.len() implies !is_prefix_of(
                    (#[trigger] entries[j]).0,
                    ns,
                ) by {
                    if j < entries.len() - 1 {
                        assert(front[j] == entries[j]);
                    } else {
                        assert(entries[j] == e);
                    }
                }
            },
        }
    }
}

/// Law: of two registrations that both prefix the query, retrieval returns
/// the one with the longer namespace, never the shorter.
pub proof fn lemma_retrieve_longer_of_two(
    a: (Seq<Seq<u8>>, u64),
    b: (Seq<Seq<u8>>, u64),
    ns: Seq<Seq<u8>>,
)
    requires
        is_prefix_of(a.0, ns),
        is_prefix_of(b.0, ns),
        a.0.len() > b.0.len(),
    ensures
        spec_best(seq![a, b], ns) == Some(a),
        spec_best(seq![b, a], ns) == Some(a),
{
    assert(seq![a, b].drop_last() =~= seq![a]);
    assert(seq![b, a].drop_last() =~= seq![b]);
    assert(seq![a].drop_last() =~= Seq::<(Seq<Seq<u8>>, u64)>::empty());
    assert(seq![b].drop_last() =~= Seq::<(Seq<Seq<u8>>, u64)>::empty());
    assert(spec_best(Seq::<(Seq<Seq<u8>>, u64)>::empty(), ns) is None);
    assert(seq![a].last() == a && seq![b].last() == b);
    assert(spec_best(seq![a], ns) == Some(a));
    assert(spec_best(seq![b], ns) == Some(b));
    assert(seq![a, b].last() == b && seq![b, a].last() == a);
    assert(spec_best(seq![a, b], ns) == Some(a));
    assert(spec_best(seq![b, a], ns) == Some(a));
}

} // verus!
