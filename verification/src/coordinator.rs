//! Namespace coordination across a relay cluster.
//!
//! A coordinator maps slash-delimited namespace paths to the URL of the
//! relay serving them. The registry document itself is modelled here and
//! fully verified: registration upserts an entry, lookup tries an exact
//! match first and then the longest element-wise prefix among the
//! registered keys. Reading and writing the shared document is I/O and
//! stays with the caller.

use vstd::prelude::*;
use vstd::string::StringExecFns;

use crate::locals::is_prefix_of;
use crate::namespace::{fields_views, split_fields, split_segments, TrackNamespace, SLASH};

verus! {

/// Coordinator failures. I/O and service failures arrive as `Other` with
/// the cause's text.
#[derive(Debug)]
pub enum CoordinatorError {
    /// No registered namespace matches the lookup.
    NamespaceNotFound,
    /// The namespace is already registered with the coordinator.
    NamespaceAlreadyRegistered,
    /// A wrapped I/O, codec or external-service failure.
    Other(String),
}

/// Default TTL for namespace registrations, in seconds.
pub const DEFAULT_REGISTRATION_TTL_SECS: u64 = 600;

/// Configuration for a coordinator backed by an external registry service.
pub struct ApiCoordinatorConfig {
    /// URL of the registry service.
    pub api_url: url::Url,
    /// URL of this relay, advertised to other relays.
    pub relay_url: url::Url,
    /// TTL for namespace registrations in seconds.
    pub registration_ttl_secs: u64,
    /// Interval between registration refreshes; kept at half the TTL so a
    /// registration never expires between refreshes.
    pub refresh_interval_secs: u64,
}

impl ApiCoordinatorConfig {
    /// A configuration with the default TTL and a refresh interval of half
    /// of it.
    pub fn new(api_url: url::Url, relay_url: url::Url) -> (r: Self)
        ensures
            r.api_url == api_url,
            r.relay_url == relay_url,
            r.registration_ttl_secs == DEFAULT_REGISTRATION_TTL_SECS,
            r.refresh_interval_secs == DEFAULT_REGISTRATION_TTL_SECS / 2,
    {
        ApiCoordinatorConfig {
            api_url,
            relay_url,
            registration_ttl_secs: DEFAULT_REGISTRATION_TTL_SECS,
            refresh_interval_secs: DEFAULT_REGISTRATION_TTL_SECS / 2,
        }
    }

    /// Set a custom TTL; the refresh interval follows at half of it.
    pub fn with_ttl(self, ttl_secs: u64) -> (r: Self)
        ensures
            r.api_url == self.api_url,
            r.relay_url == self.relay_url,
            r.registration_ttl_secs == ttl_secs,
            r.refresh_interval_secs == ttl_secs / 2,
    {
        ApiCoordinatorConfig {
            registration_ttl_secs: ttl_secs,
            refresh_interval_secs: ttl_secs / 2,
            ..self
        }
    }
}

/// A URL of an outside relay or registry, carried opaquely.
#[verifier::external_type_specification]
#[verifier::external_body]
pub struct ExUrl(url::Url);

/// Whether `Url::parse` accepts the given text; its success depends on the
/// text alone.
pub uninterp spec fn url_ok(s: Seq<char>) -> bool;

/// Relies on `url::Url::parse`: whether it succeeds is a function of the
/// text alone; the parse error is collapsed into `None`.
#[verifier::external_body]
pub fn parse_url(s: &str) -> (r: Option<url::Url>)
    ensures
        r is Some <==> url_ok(s@),
{
    url::Url::parse(s).ok()
}

/// Relies on `url::Url`'s derived `Clone`, which copies the fields of a
/// plain data struct: the clone equals its source.
#[verifier::external_body]
fn clone_url(u: &url::Url) -> (r: url::Url)
    ensures
        r == *u,
{
    u.clone()
}

/// Handle standing for one live coordinator registration; its holder keeps
/// the namespace registered and hands it back to unregister.
pub struct NamespaceRegistration {
    /// The namespace this registration keeps registered.
    pub namespace: TrackNamespace,
    /// Optional key/value metadata attached by the registering side.
    pub metadata: Option<Vec<(String, String)>>,
}

impl NamespaceRegistration {
    /// A registration handle for the given namespace, without metadata.
    pub fn new(namespace: TrackNamespace) -> (r: Self)
        ensures
            r.namespace@ == namespace@,
            r.metadata is None,
    {
        NamespaceRegistration { namespace, metadata: None }
    }

    /// Attach metadata as a list of key/value string pairs.
    pub fn with_metadata(self, metadata: Vec<(String, String)>) -> (r: Self)
        ensures
            r.namespace@ == self.namespace@,
            r.metadata == Some(metadata),
    {
        NamespaceRegistration { metadata: Some(metadata), ..self }
    }
}

/// Result of a namespace lookup: the registered namespace and the URL of
/// the relay serving it.
#[derive(Debug)]
pub struct NamespaceOrigin {
    namespace: TrackNamespace,
    url: url::Url,
    metadata: Option<Vec<(String, String)>>,
}

impl NamespaceOrigin {
    /// The registered namespace's fields.
    pub closed spec fn spec_namespace(&self) -> Seq<Seq<u8>> {
        self.namespace@
    }

    /// The URL of the relay serving the namespace.
    pub closed spec fn spec_url(&self) -> url::Url {
        self.url
    }

    /// The metadata pairs attached to this origin, if any.
    pub closed spec fn spec_metadata(&self) -> Option<Seq<(String, String)>> {
        match self.metadata {
            Some(m) => Some(m@),
            None => None,
        }
    }

    /// A lookup result without metadata.
    pub fn new(namespace: TrackNamespace, url: url::Url) -> (r: Self)
        ensures
            r.spec_namespace() == namespace@,
            r.spec_url() == url,
            r.spec_metadata() is None,
    {
        NamespaceOrigin { namespace, url, metadata: None }
    }

    /// Append one key/value metadata pair.
    pub fn with_metadata(self, values: (String, String)) -> (r: Self)
        ensures
            r.spec_namespace() == self.spec_namespace(),
            r.spec_url() == self.spec_url(),
            match self.spec_metadata() {
                Some(m) => r.spec_metadata() matches Some(m2) && m2 == m.push(values),
                None => r.spec_metadata() matches Some(m2) && m2 == seq![values],
            },
    {
        match self.metadata {
            Some(mut metadata) => {
                metadata.push(values);
                NamespaceOrigin {
                    namespace: self.namespace,
                    url: self.url,
                    metadata: Some(metadata),
                }
            },
            None => {
                let mut metadata: Vec<(String, String)> = Vec::new();
                metadata.push(values);
                proof {
                    assert(metadata@ =~= seq![values]);
                }
                NamespaceOrigin {
                    namespace: self.namespace,
                    url: self.url,
                    metadata: Some(metadata),
                }
            },
        }
    }

    /// The registered namespace.
    pub fn namespace(&self) -> (r: &TrackNamespace)
        ensures
            r@ == self.spec_namespace(),
    {
        &self.namespace
    }

    /// The URL of the relay serving this namespace.
    pub fn url(&self) -> (r: url::Url)
        ensures
            r == self.spec_url(),
    {
        clone_url(&self.url)
    }

    /// The metadata attached to this origin.
    pub fn metadata(&self) -> (r: &Option<Vec<(String, String)>>)
        ensures
            match r {
                Some(m) => self.spec_metadata() == Some(m@),
                None => self.spec_metadata() is None,
            },
    {
        &self.metadata
    }
}

/// The slash-delimited path key of a namespace, as bytes: each field
/// prefixed with `'/'`.
pub open spec fn path_bytes_of(fields: Seq<Seq<u8>>) -> Seq<u8>
    decreases fields.len(),
{
    if fields.len() == 0 {
        Seq::empty()
    } else {
        path_bytes_of(fields.drop_last()) + seq![SLASH] + fields.last()
    }
}

/// Whether the path key `k`'s segments are an element-wise prefix of the
/// path key `q`'s segments.
pub open spec fn key_prefix_of(k: Seq<u8>, q: Seq<u8>) -> bool {
    is_prefix_of(split_segments(k), split_segments(q))
}

/// One registry entry: path key bytes and the serving relay's URL text.
pub type RegistryEntry = (Seq<u8>, Seq<char>);

/// The URL text stored under exactly the key `k`, if any.
pub open spec fn spec_lookup_exact(entries: Seq<RegistryEntry>, k: Seq<u8>) -> Option<Seq<char>>
    decreases entries.len(),
{
    if entries.len() == 0 {
        None
    } else if entries[0].0 == k {
        Some(entries[0].1)
    } else {
        spec_lookup_exact(entries.drop_first(), k)
    }
}

/// The entry whose key's segments are the longest prefix of the query
/// key's segments; among equal lengths the earliest entry wins.
pub open spec fn spec_best_key(entries: Seq<RegistryEntry>, q: Seq<u8>) -> Option<RegistryEntry>
    decreases entries.len(),
{
    if entries.len() == 0 {
        None
    } else {
        let rest = spec_best_key(entries.drop_last(), q);
        let e = entries.last();
        if key_prefix_of(e.0, q) && (match rest {
            None => true,
            Some(b) => split_segments(e.0).len() > split_segments(b.0).len(),
        }) {
            Some(e)
        } else {
            rest
        }
    }
}

/// What a coordinator lookup of the path key `q` finds: the exact entry if
/// one exists, else the longest-prefix entry, else nothing.
pub open spec fn spec_coordinator_lookup(entries: Seq<RegistryEntry>, q: Seq<u8>) -> Option<
    RegistryEntry,
> {
    match spec_lookup_exact(entries, q) {
        Some(u) => Some((q, u)),
        None => spec_best_key(entries, q),
    }
}

/// The shared registry document: namespace path keys mapped to the URL of
/// the relay serving them.
pub struct CoordinatorData {
    entries: Vec<(Vec<u8>, String)>,
}

impl View for CoordinatorData {
    type V = Seq<RegistryEntry>;

    closed spec fn view(&self) -> Seq<RegistryEntry> {
        Seq::new(self.entries@.len(), |i: int| (self.entries@[i].0@, self.entries@[i].1@))
    }
}

/// Whether some entry's key is exactly `k`.
pub open spec fn registry_has_key(entries: Seq<RegistryEntry>, k: Seq<u8>) -> bool {
    exists|i: int| 0 <= i < entries.len() && (#[trigger] entries[i]).0 == k
}

impl CoordinatorData {
    /// Registered path keys are unique.
    pub open spec fn wf(&self) -> bool {
        forall|i: int, j: int|
            0 <= i < j < self@.len() ==> (#[trigger] self@[i]).0 != (#[trigger] self@[j]).0
    }

    /// The path key under which a namespace is registered and looked up.
    pub fn namespace_key(namespace: &TrackNamespace) -> (r: Vec<u8>)
        ensures
            r@ == path_bytes_of(namespace@),
    {
        let mut key: Vec<u8> = Vec::new();
        let mut i: usize = 0;
        proof {
            assert(key@ =~= path_bytes_of(namespace@.take(0)));
        }
        while i < namespace.fields.len()
            invariant
                i <= namespace@.len(),
                key@ == path_bytes_of(namespace@.take(i as int)),
            decreases namespace.fields.len() - i,
        {
            let ghost pre = key@;
            key.push(SLASH);
            let mut j: usize = 0;
            let flen = namespace.fields[i].value.len();
            while j < flen
                invariant
                    j <= flen,
                    flen == namespace@[i as int].len(),
                    i < namespace@.len(),
                    key@ == pre + seq![SLASH] + namespace@[i as int].take(j as int),
                decreases flen - j,
            {
                let b = namespace.fields[i].value[j];
                key.push(b);
                proof {
                    assert(namespace@[i as int].take(j + 1) =~= namespace@[i as int].take(
                        j as int,
                    ).push(b));
                    assert(key@ =~= pre + seq![SLASH] + namespace@[i as int].take(j + 1));
                }
                j += 1;
            }
            proof {
                assert(namespace@[i as int].take(namespace@[i as int].len() as int)
                    =~= namespace@[i as int]);
                assert(namespace@.take(i + 1).drop_last() =~= namespace@.take(i as int));
                assert(namespace@.take(i + 1).last() == namespace@[i as int]);
                assert(key@ =~= path_bytes_of(namespace@.take(i + 1)));
            }
            i += 1;
        }
        proof {
            assert(namespace@.take(namespace@.len() as int) =~= namespace@);
        }
        key
    }

    /// The document's entries, for writing it back out: path key bytes and
    /// URL text, in registration order.
    pub fn entries(&self) -> (r: &Vec<(Vec<u8>, String)>)
        ensures
            r@.len() == self@.len(),
            forall|i: int|
                0 <= i < self@.len() ==> (#[trigger] r@[i]).0@ == self@[i].0 && r@[i].1@
                    == self@[i].1,
    {
        &self.entries
    }

    /// An empty registry document.
    pub fn new() -> (r: Self)
        ensures
            r@ == Seq::<RegistryEntry>::empty(),
            r.wf(),
    {
        let r = CoordinatorData { entries: Vec::new() };
        proof {
            assert(r@ =~= Seq::<RegistryEntry>::empty());
        }
        r
    }

    /// Record that the relay at `url` serves the namespace under `key`:
    /// an existing entry for the key is replaced, any other key is kept.
    pub fn set(&mut self, key: Vec<u8>, url: String)
        requires
            old(self).wf(),
        ensures
            final(self).wf(),
            spec_lookup_exact(final(self)@, key@) == Some(url@),
            final(self)@.len() >= old(self)@.len(),
            forall|i: int|
                0 <= i < final(self)@.len() && (#[trigger] final(self)@[i]).0 != key@
                    ==> old(self)@.contains(final(self)@[i]),
            forall|i: int|
                0 <= i < old(self)@.len() && (#[trigger] old(self)@[i]).0 != key@
                    ==> final(self)@.contains(old(self)@[i]),
    {
        let mut i: usize = 0;
        while i < self.entries.len()
            invariant
                self@ == old(self)@,
                old(self).wf(),
                i <= self@.len(),
                forall|j: int| 0 <= j < i ==> (#[trigger] self@[j]).0 != key@,
            decreases self.entries.len() - i,
        {
            if self.entries[i].0 == key {
                proof {
                    assert((self@[i as int]).0 == key@);
                }
                let ghost pre = self@;
                self.entries[i] = (key, url);
                proof {
                    assert(self@ =~= pre.update(i as int, (key@, url@)));
                    lemma_exact_at(self@, i as int);
                    assert forall|j: int|
                        0 <= j < self@.len() && (#[trigger] self@[j]).0 != key@ implies pre
                        .contains(self@[j]) by {
                        assert(self@[j] == pre[j]);
                    }
                    assert forall|j: int|
                        0 <= j < pre.len() && (#[trigger] pre[j]).0 != key@ implies self@.contains(
                        pre[j],
                    ) by {
                        assert(j != i);
                        assert(self@[j] == pre[j]);
                    }
                }
                return ;
            }
            i += 1;
        }
        let ghost pre = self@;
        self.entries.push((key, url));
        proof {
            assert(self@ =~= pre.push((key@, url@)));
            lemma_exact_at(self@, pre.len() as int);
            assert forall|j: int|
                0 <= j < self@.len() && (#[trigger] self@[j]).0 != key@ implies pre.contains(
                self@[j],
            ) by {
                assert(j < pre.len());
                assert(self@[j] == pre[j]);
            }
            assert forall|j: int|
                0 <= j < pre.len() && (#[trigger] pre[j]).0 != key@ implies self@.contains(
                pre[j],
            ) by {
                assert(self@[j] == pre[j]);
            }
        }
    }

    /// Remove the entry under `key`, if any; every other entry stays.
    pub fn remove(&mut self, key: &Vec<u8>)
        requires
            old(self).wf(),
        ensures
            final(self).wf(),
            !registry_has_key(final(self)@, key@),
            spec_lookup_exact(final(self)@, key@) is None,
            forall|e: RegistryEntry|
                #![auto]
                final(self)@.contains(e) <==> old(self)@.contains(e) && e.0 != key@,
    {
        let mut i: usize = 0;
        while i < self.entries.len()
            invariant
                self@ == old(self)@,
                old(self).wf(),
                i <= self@.len(),
                forall|j: int| 0 <= j < i ==> (#[trigger] self@[j]).0 != key@,
            decreases self.entries.len() - i,
        {
            if self.entries[i].0 == *key {
                proof {
                    assert((self@[i as int]).0 == key@);
                }
                let ghost pre = self@;
                self.entries.remove(i);
                proof {
                    assert(self@ =~= pre.remove(i as int));
                    lemma_registry_remove(pre, i as int, key@);
                    lemma_no_key_no_exact(self@, key@);
                }
                return ;
            }
            i += 1;
        }
        proof {
            lemma_no_key_no_exact(self@, key@);
        }
    }

    /// Look up the path key `q`: the exact entry if one is registered,
    /// otherwise the entry whose key's segments are the longest prefix of
    /// `q`'s segments, otherwise nothing.
    pub fn lookup(&self, q: &Vec<u8>) -> (r: Option<(Vec<u8>, String)>)
        ensures
            match r {
                Some(e) => spec_coordinator_lookup(self@, q@) == Some((e.0@, e.1@)),
                None => spec_coordinator_lookup(self@, q@) is None,
            },
    {
        let mut i: usize = 0;
        proof {
            assert(self@.skip(0) =~= self@);
        }
        while i < self.entries.len()
            invariant
                i <= self@.len(),
                spec_lookup_exact(self@, q@) == spec_lookup_exact(
                    self@.skip(i as int),
                    q@,
                ),
            decreases self.entries.len() - i,
        {
            proof {
                assert(self@.skip(i as int)[0] == self@[i as int]);
                assert(self@.skip(i as int).drop_first() =~= self@.skip(i + 1));
            }
            if self.entries[i].0 == *q {
                proof {
                    assert((self@[i as int]).0 == q@);
                }
                let key = self.entries[i].0.clone();
                let url = self.entries[i].1.clone();
                proof {
                    assert(key@ =~= (self@[i as int]).0);
                    assert(key@ =~= q@);
                }
                return Some((key, url));
            }
            i += 1;
        }
        proof {
            assert(self@.skip(self@.len() as int) =~= Seq::<RegistryEntry>::empty());
        }
        let mut best: Option<(Vec<u8>, String)> = None;
        let mut i: usize = 0;
        while i < self.entries.len()
            invariant
                i <= self@.len(),
                match best {
                    Some(b) => spec_best_key(self@.take(i as int), q@) == Some((b.0@, b.1@)),
                    None => spec_best_key(self@.take(i as int), q@) is None,
                },
            decreases self.entries.len() - i,
        {
            proof {
                assert(self@.take(i + 1).drop_last() =~= self@.take(i as int));
                assert(self@.take(i + 1).last() == self@[i as int]);
            }
            if key_is_prefix(&self.entries[i].0, q) {
                let replace = match &best {
                    None => true,
                    Some(b) => segment_count(&self.entries[i].0) > segment_count(&b.0),
                };
                if replace {
                    best = Some((self.entries[i].0.clone(), self.entries[i].1.clone()));
                }
            }
            i += 1;
        }
        proof {
            assert(self@.take(self@.len() as int) =~= self@);
        }
        best
    }
}

/// An entry present at index `i` with unique keys is what exact lookup of
/// its key finds.
proof fn lemma_exact_at(entries: Seq<RegistryEntry>, i: int)
    requires
        0 <= i < entries.len(),
        forall|j: int, k: int|
            0 <= j < k < entries.len() ==> (#[trigger] entries[j]).0 != (#[trigger] entries[k]).0,
    ensures
        spec_lookup_exact(entries, entries[i].0) == Some(entries[i].1),
    decreases i,
{
    if i > 0 {
        assert(entries[0].0 != entries[i].0);
        assert(entries.drop_first()[i - 1] == entries[i]);
        lemma_exact_at(entries.drop_first(), i - 1);
    }
}

/// Without an entry under `k`, exact lookup of `k` finds nothing.
proof fn lemma_no_key_no_exact(entries: Seq<RegistryEntry>, k: Seq<u8>)
    requires
        forall|j: int| 0 <= j < entries.len() ==> (#[trigger] entries[j]).0 != k,
    ensures
        spec_lookup_exact(entries, k) is None,
    decreases entries.len(),
{
    if entries.len() > 0 {
        assert(forall|j: int|
            0 <= j < entries.drop_first().len() ==> (#[trigger] entries.drop_first()[j])
                == entries[j + 1]);
        lemma_no_key_no_exact(entries.drop_first(), k);
    }
}

/// Removing the only entry under a key leaves exactly the others.
proof fn lemma_registry_remove(entries: Seq<RegistryEntry>, i: int, k: Seq<u8>)
    requires
        0 <= i < entries.len(),
        entries[i].0 == k,
        forall|j: int, l: int|
            0 <= j < l < entries.len() ==> (#[trigger] entries[j]).0 != (#[trigger] entries[l]).0,
    ensures
        forall|j: int, l: int|
            0 <= j < l < entries.remove(i).len() ==> (#[trigger] entries.remove(i)[j]).0 != (
            #[trigger] entries.remove(i)[l]).0,
        !registry_has_key(entries.remove(i), k),
        forall|j: int|
            0 <= j < entries.remove(i).len() ==> (#[trigger] entries.remove(i)[j]).0 != k,
        forall|e: RegistryEntry|
            #![auto]
            entries.remove(i).contains(e) <==> entries.contains(e) && e.0 != k,
{
    let out = entries.remove(i);
    assert forall|e: RegistryEntry| #![auto] out.contains(e) implies entries.contains(e) && e.0
        != k by {
        let j = choose|j: int| 0 <= j < out.len() && out[j] == e;
        if j < i {
            assert(entries[j] == e);
            if e.0 == k {
                assert(entries[j].0 == entries[i].0);
            }
        } else {
            assert(entries[j + 1] == e);
            if e.0 == k {
                assert(entries[j + 1].0 == entries[i].0);
            }
        }
    }
    assert forall|e: RegistryEntry| #![auto] entries.contains(e) && e.0 != k implies out.contains(
        e,
    ) by {
        let j = choose|j: int| 0 <= j < entries.len() && entries[j] == e;
        if j < i {
            assert(out[j] == e);
        } else {
            assert(j != i);
            assert(out[j - 1] == e);
        }
    }
    assert forall|j: int| 0 <= j < out.len() implies (#[trigger] out[j]).0 != k by {
        assert(out.contains(out[j]));
    }
    if registry_has_key(out, k) {
        let j = choose|j: int| 0 <= j < out.len() && out[j].0 == k;
    }
}

/// The number of slash-separated segments of a path key.
fn segment_count(key: &Vec<u8>) -> (r: usize)
    ensures
        r == split_segments(key@).len(),
{
    let fields = split_fields(key);
    proof {
        assert(fields_views(fields@).len() == split_segments(key@).len());
    }
    fields.len()
}

/// Whether the key `k`'s segments are an element-wise prefix of `q`'s.
fn key_is_prefix(k: &Vec<u8>, q: &Vec<u8>) -> (r: bool)
    ensures
        r == key_prefix_of(k@, q@),
{
    let kf = split_fields(k);
    let qf = split_fields(q);
    let ghost ks = split_segments(k@);
    let ghost qs = split_segments(q@);
    if kf.len() > qf.len() {
        proof {
            assert(ks.len() == fields_views(kf@).len());
            assert(qs.len() == fields_views(qf@).len());
        }
        return false;
    }
    let mut i: usize = 0;
    while i < kf.len()
        invariant
            kf@.len() <= qf@.len(),
            i <= kf@.len(),
            ks == split_segments(k@),
            qs == split_segments(q@),
            ks == fields_views(kf@),
            qs == fields_views(qf@),
            forall|j: int| 0 <= j < i ==> ks[j] == qs[j],
        decreases kf.len() - i,
    {
        if !(kf[i].value == qf[i].value) {
            proof {
                assert(kf@[i as int]@ != qf@[i as int]@);
                assert(ks[i as int] != qs[i as int]);
                if is_prefix_of(ks, qs) {
                    assert(ks[i as int] == qs.take(ks.len() as int)[i as int]);
                    assert(qs.take(ks.len() as int)[i as int] == qs[i as int]);
                }
            }
            return false;
        }
        proof {
            assert(ks[i as int] =~= qs[i as int]);
        }
        i += 1;
    }
    proof {
        assert(ks =~= qs.take(ks.len() as int));
    }
    true
}

/// Register a namespace in the shared document as served by the relay at
/// `relay_url`: an upsert under the namespace's path key. Returns the
/// handle whose holder keeps the registration alive.
pub fn register_in_document(
    data: &mut CoordinatorData,
    namespace: &TrackNamespace,
    relay_url: String,
) -> (r: NamespaceRegistration)
    requires
        old(data).wf(),
    ensures
        final(data).wf(),
        spec_lookup_exact(final(data)@, path_bytes_of(namespace@)) == Some(relay_url@),
        forall|i: int|
            0 <= i < final(data)@.len() && (#[trigger] final(data)@[i]).0 != path_bytes_of(
                namespace@,
            ) ==> old(data)@.contains(final(data)@[i]),
        forall|i: int|
            0 <= i < old(data)@.len() && (#[trigger] old(data)@[i]).0 != path_bytes_of(namespace@)
                ==> final(data)@.contains(old(data)@[i]),
        r.namespace@ == namespace@,
        r.metadata is None,
{
    let key = CoordinatorData::namespace_key(namespace);
    data.set(key, relay_url);
    NamespaceRegistration::new(namespace.clone())
}

/// Remove a namespace's entry from the shared document; idempotent, and
/// every other entry stays.
pub fn unregister_in_document(data: &mut CoordinatorData, namespace: &TrackNamespace)
    requires
        old(data).wf(),
    ensures
        final(data).wf(),
        spec_lookup_exact(final(data)@, path_bytes_of(namespace@)) is None,
        forall|e: RegistryEntry|
            #![auto]
            final(data)@.contains(e) <==> old(data)@.contains(e) && e.0 != path_bytes_of(
                namespace@,
            ),
{
    let key = CoordinatorData::namespace_key(namespace);
    data.remove(&key);
}

/// Look a namespace up in the shared document: exact match first, then the
/// longest element-wise prefix among the registered keys; the entry's URL
/// text is parsed and returned beside the origin. `NamespaceNotFound` when
/// nothing matches; `Other` when the registered text is no URL.
pub fn lookup_origin(data: &CoordinatorData, namespace: &TrackNamespace) -> (r: Result<
    (NamespaceOrigin, String),
    CoordinatorError,
>)
    ensures
        match spec_coordinator_lookup(data@, path_bytes_of(namespace@)) {
            None => r matches Err(e) && e is NamespaceNotFound,
            Some(ent) => {
                if url_ok(ent.1) {
                    r matches Ok(p) && p.0.spec_namespace() == (if ent.0 == path_bytes_of(
                        namespace@,
                    ) {
                        namespace@
                    } else {
                        split_segments(ent.0)
                    }) && p.0.spec_metadata() is None && p.1@ == ent.1
                } else {
                    r matches Err(e) && e is Other
                }
            },
        },
{
    let key = CoordinatorData::namespace_key(namespace);
    match data.lookup(&key) {
        None => Err(CoordinatorError::NamespaceNotFound),
        Some((matched_key, url_str)) => {
            match parse_url(url_str.as_str()) {
                None => Err(CoordinatorError::Other(String::from_str("invalid registered URL"))),
                Some(url) => {
                    let matched_ns = if matched_key == key {
                        proof {
                            assert(matched_key@ =~= key@);
                        }
                        namespace.clone()
                    } else {
                        let fields = split_fields(&matched_key);
                        let ns = TrackNamespace { fields };
                        proof {
                            assert(ns@ =~= fields_views(ns.fields@));
                        }
                        ns
                    };
                    Ok((NamespaceOrigin::new(matched_ns, url), url_str))
                },
            }
        },
    }
}

/// Law (coordinator round trip): looking up a key that is registered with
/// unique keys returns the registering relay's URL.
pub proof fn lemma_register_lookup(entries: Seq<RegistryEntry>, k: Seq<u8>, u: Seq<char>)
    requires
        entries.contains((k, u)),
        forall|i: int, j: int|
            0 <= i < j < entries.len() ==> (#[trigger] entries[i]).0 != (#[trigger] entries[j]).0,
    ensures
        spec_coordinator_lookup(entries, k) == Some((k, u)),
{
    let i = choose|i: int| 0 <= i < entries.len() && entries[i] == (k, u);
    lemma_exact_at(entries, i);
}

/// Law (coordinator round trip, after removal): once no registered key is
/// the query and none prefixes it, lookup finds nothing.
pub proof fn lemma_lookup_after_remove(entries: Seq<RegistryEntry>, k: Seq<u8>)
    requires
        forall|j: int| 0 <= j < entries.len() ==> (#[trigger] entries[j]).0 != k,
        forall|j: int| 0 <= j < entries.len() ==> !key_prefix_of((#[trigger] entries[j]).0, k),
    ensures
        spec_coordinator_lookup(entries, k) is None,
{
    lemma_no_key_no_exact(entries, k);
    lemma_best_key_none(entries, k);
}

/// Without any prefix of the query among the keys, the prefix search finds
/// nothing.
proof fn lemma_best_key_none(entries: Seq<RegistryEntry>, q: Seq<u8>)
    requires
        forall|j: int| 0 <= j < entries.len() ==> !key_prefix_of((#[trigger] entries[j]).0, q),
    ensures
        spec_best_key(entries, q) is None,
    decreases entries.len(),
{
    if entries.len() > 0 {
        lemma_best_key_none(entries.drop_last(), q);
    }
}

} // verus!
