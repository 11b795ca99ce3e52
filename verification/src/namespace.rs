//! Tuple-of-byte-strings track namespaces.
//!
//! A namespace is an ordered sequence of tuple fields, each a byte string of
//! at most `MAX_VALUE_SIZE` bytes; a namespace holds at most `MAX_FIELDS`
//! fields. Equality is field-wise and the tuple form is authoritative; the
//! slash-delimited path form is a convenience.

use vstd::prelude::*;
use vstd::string::StrSliceExecFns;
use vstd::string::StringSliceAdditionalSpecFns;

verus! {

/// Most fields allowed in a namespace tuple.
pub const MAX_FIELDS: usize = 32;

/// Largest byte length of a single tuple field value.
pub const MAX_VALUE_SIZE: usize = 4096;

/// The path separator byte, `'/'`.
pub const SLASH: u8 = 0x2F;

/// One field of a namespace tuple: a byte string.
#[derive(Debug)]
pub struct TupleField {
    pub value: Vec<u8>,
}

impl View for TupleField {
    type V = Seq<u8>;

    open spec fn view(&self) -> Seq<u8> {
        self.value@
    }
}

impl Clone for TupleField {
    fn clone(&self) -> (r: Self)
        ensures
            r@ == self@,
    {
        let value = self.value.clone();
        proof {
            assert(value@ =~= self.value@);
        }
        TupleField { value }
    }
}

impl PartialEq for TupleField {
    fn eq(&self, other: &Self) -> (r: bool) {
        let r = self.value == other.value;
        proof {
            if r {
                assert(self.value@ =~= other.value@);
            }
        }
        r
    }
}

impl Eq for TupleField {

}

impl vstd::std_specs::cmp::PartialEqSpecImpl for TupleField {
    open spec fn obeys_eq_spec() -> bool {
        true
    }

    open spec fn eq_spec(&self, other: &Self) -> bool {
        self@ == other@
    }
}

impl TupleField {
    /// A field whose value is the UTF-8 encoding of the given text.
    pub fn from_utf8(part: &str) -> (r: Self)
        ensures
            r@ == part.spec_bytes(),
    {
        TupleField { value: part.as_bytes_vec() }
    }
}

/// Errors from building a namespace out of fields or a path.
#[derive(Debug, Clone, PartialEq, Eq, Structural)]
pub enum TrackNamespaceError {
    /// The field count and the maximum it exceeds.
    TooManyFields(usize, usize),
    /// The byte length of the offending field and the maximum it exceeds.
    FieldTooLarge(usize, usize),
}

/// The views of a vector of tuple fields, in order.
pub open spec fn fields_views(fields: Seq<TupleField>) -> Seq<Seq<u8>> {
    Seq::new(fields.len(), |i: int| fields[i]@)
}

/// The slash-separated segments of a byte string, empty segments included:
/// one segment more than there are separator bytes.
pub open spec fn split_segments(s: Seq<u8>) -> Seq<Seq<u8>>
    decreases s.len(),
{
    if s.len() == 0 {
        seq![Seq::empty()]
    } else {
        let rest = split_segments(s.drop_last());
        if s.last() == SLASH {
            rest.push(Seq::empty())
        } else {
            rest.update(rest.len() - 1, rest.last().push(s.last()))
        }
    }
}

/// Whether a byte-string segment is non-empty; path parsing keeps these.
pub open spec fn seg_nonempty(s: Seq<u8>) -> bool {
    s.len() != 0
}

/// `seg_nonempty` as a first-class predicate, so every use names one value.
pub open spec fn nonempty_seg() -> spec_fn(Seq<u8>) -> bool {
    |s: Seq<u8>| seg_nonempty(s)
}

/// The result of `String::from_utf8_lossy` on the given bytes, as a
/// character sequence.
pub uninterp spec fn lossy_of(b: Seq<u8>) -> Seq<char>;

/// Relies on `String::from_utf8_lossy`: the result depends on the bytes
/// alone; valid UTF-8 decodes exactly, and only empty input gives an empty
/// result.
#[verifier::external_body]
fn lossy_string(b: &Vec<u8>) -> (r: String)
    ensures
        r@ == lossy_of(b@),
        vstd::utf8::valid_utf8(b@) ==> r@ == vstd::utf8::decode_utf8(b@),
        b@.len() == 0 <==> r@.len() == 0,
{
    String::from_utf8_lossy(b).into_owned()
}

/// The slash-delimited path form of a field sequence: each field prefixed
/// with `'/'` and decoded leniently from UTF-8.
pub open spec fn spec_path_of(fields: Seq<Seq<u8>>) -> Seq<char>
    decreases fields.len(),
{
    if fields.len() == 0 {
        Seq::empty()
    } else {
        spec_path_of(fields.drop_last()) + seq!['/'] + lossy_of(fields.last())
    }
}

/// An ordered tuple of byte-string fields identifying a track namespace.
#[derive(Debug)]
pub struct TrackNamespace {
    pub fields: Vec<TupleField>,
}

impl View for TrackNamespace {
    type V = Seq<Seq<u8>>;

    open spec fn view(&self) -> Seq<Seq<u8>> {
        Seq::new(self.fields@.len(), |i: int| self.fields@[i]@)
    }
}

impl Clone for TrackNamespace {
    fn clone(&self) -> (r: Self)
        ensures
            r@ == self@,
    {
        let mut fields: Vec<TupleField> = Vec::new();
        let mut i: usize = 0;
        while i < self.fields.len()
            invariant
                i <= self.fields.len(),
                fields@.len() == i,
                forall|j: int| 0 <= j < i ==> fields@[j]@ == self.fields@[j]@,
            decreases self.fields.len() - i,
        {
            fields.push(self.fields[i].clone());
            i += 1;
        }
        let r = TrackNamespace { fields };
        proof {
            assert(r@ =~= self@);
        }
        r
    }
}

impl PartialEq for TrackNamespace {
    fn eq(&self, other: &Self) -> (r: bool) {
        if self.fields.len() != other.fields.len() {
            proof {
                assert(self@.len() != other@.len());
            }
            return false;
        }
        let mut i: usize = 0;
        while i < self.fields.len()
            invariant
                self.fields@.len() == other.fields@.len(),
                i <= self.fields.len(),
                forall|j: int| 0 <= j < i ==> self@[j] == other@[j],
            decreases self.fields.len() - i,
        {
            if self.fields[i] != other.fields[i] {
                proof {
                    assert(self@[i as int] != other@[i as int]);
                }
                return false;
            }
            i += 1;
        }
        proof {
            assert(self@ =~= other@);
        }
        true
    }
}

impl Eq for TrackNamespace {

}

impl vstd::std_specs::cmp::PartialEqSpecImpl for TrackNamespace {
    open spec fn obeys_eq_spec() -> bool {
        true
    }

    open spec fn eq_spec(&self, other: &Self) -> bool {
        self@ == other@
    }
}

impl Default for TrackNamespace {
    fn default() -> (r: Self)
        ensures
            r@ == Seq::<Seq<u8>>::empty(),
    {
        let r = TrackNamespace { fields: Vec::new() };
        proof {
            assert(r@ =~= Seq::<Seq<u8>>::empty());
        }
        r
    }
}

impl TrackNamespace {
    /// An empty namespace, to be grown with `add`.
    pub fn new() -> (r: Self)
        ensures
            r@ == Seq::<Seq<u8>>::empty(),
    {
        Self::default()
    }

    /// Append one field to the tuple.
    pub fn add(&mut self, field: TupleField)
        ensures
            final(self)@ == old(self)@.push(field@),
    {
        self.fields.push(field);
        proof {
            assert(self@ =~= old(self)@.push(field@));
        }
    }

    /// Remove every field.
    pub fn clear(&mut self)
        ensures
            final(self)@ == Seq::<Seq<u8>>::empty(),
    {
        self.fields.clear();
        proof {
            assert(self@ =~= Seq::<Seq<u8>>::empty());
        }
    }

    /// Whether a sequence of fields is within the tuple bounds.
    pub open spec fn fields_ok(fields: Seq<Seq<u8>>) -> bool {
        &&& fields.len() <= MAX_FIELDS
        &&& forall|i: int| 0 <= i < fields.len() ==> (#[trigger] fields[i]).len() <= MAX_VALUE_SIZE
    }

    /// Build a namespace from fields, rejecting tuples over the bounds:
    /// more than `MAX_FIELDS` fields, or a field over `MAX_VALUE_SIZE` bytes.
    pub fn try_from_fields(fields: Vec<TupleField>) -> (r: Result<Self, TrackNamespaceError>)
        ensures
            tuple_from_path_ok(r, fields_views(fields@)),
    {
        if fields.len() > MAX_FIELDS {
            return Err(TrackNamespaceError::TooManyFields(fields.len(), MAX_FIELDS));
        }
        let mut i: usize = 0;
        while i < fields.len()
            invariant
                i <= fields.len(),
                fields@.len() <= MAX_FIELDS,
                forall|j: int| 0 <= j < i ==> (#[trigger] fields@[j])@.len() <= MAX_VALUE_SIZE,
            decreases fields.len() - i,
        {
            if fields[i].value.len() > MAX_VALUE_SIZE {
                proof {
                    let views = fields_views(fields@);
                    assert(0 <= i < views.len() && (#[trigger] views[i as int]).len()
                        > MAX_VALUE_SIZE);
                }
                return Err(TrackNamespaceError::FieldTooLarge(fields[i].value.len(), MAX_VALUE_SIZE));
            }
            i += 1;
        }
        let ns = TrackNamespace { fields };
        proof {
            assert(ns@ =~= fields_views(fields@));
            assert(forall|j: int| 0 <= j < ns@.len() ==> (#[trigger] ns@[j]).len()
                <= MAX_VALUE_SIZE);
        }
        Ok(ns)
    }

    /// Split a path's bytes on `'/'` into a tuple, empty segments included.
    /// The leading segment of a path that starts with `'/'` is empty.
    pub fn from_utf8_path(path: &str) -> (r: Self)
        ensures
            r@ == split_segments(path.spec_bytes()),
    {
        let bytes = path.as_bytes_vec();
        let fields = split_fields(&bytes);
        let r = TrackNamespace { fields };
        proof {
            assert(r@ =~= fields_views(r.fields@));
        }
        r
    }

    /// The slash-delimited path form: each field prefixed with `'/'` and
    /// decoded leniently from UTF-8.
    pub fn to_utf8_path(&self) -> (r: String)
        ensures
            r@ == spec_path_of(self@),
    {
        let mut path = String::new();
        let mut i: usize = 0;
        while i < self.fields.len()
            invariant
                i <= self.fields.len(),
                path@ == spec_path_of(self@.take(i as int)),
            decreases self.fields.len() - i,
        {
            path.append("/");
            let seg = lossy_string(&self.fields[i].value);
            path.append(seg.as_str());
            proof {
                reveal_strlit("/");
                assert("/"@ =~= seq!['/']);
                assert(self@.take(i + 1).drop_last() =~= self@.take(i as int));
                assert(self@.take(i + 1).last() == self@[i as int]);
                assert(path@ =~= spec_path_of(self@.take(i + 1)));
            }
            i += 1;
        }
        proof {
            assert(self@.take(self@.len() as int) =~= self@);
        }
        path
    }

    /// Build a namespace from a path: split on `'/'`, drop empty segments,
    /// then apply the tuple bounds as `try_from_fields` does.
    pub fn try_from_str(path: &str) -> (r: Result<Self, TrackNamespaceError>)
        ensures
            tuple_from_path_ok(r, split_segments(path.spec_bytes()).filter(nonempty_seg())),
    {
        let bytes = path.as_bytes_vec();
        let all = split_fields(&bytes);
        let ghost all_views = fields_views(all@);
        let mut kept: Vec<TupleField> = Vec::new();
        let mut i: usize = 0;
        proof {
            reveal(Seq::filter);
            assert(all_views.take(0) =~= Seq::<Seq<u8>>::empty());
            assert(all_views.take(0).filter(nonempty_seg()) =~= fields_views(kept@));
        }
        while i < all.len()
            invariant
                i <= all.len(),
                all_views == fields_views(all@),
                fields_views(kept@) == all_views.take(i as int).filter(nonempty_seg()),
            decreases all.len() - i,
        {
            let ghost pre = fields_views(kept@);
            proof {
                assert(all_views.take(i + 1).drop_last() =~= all_views.take(i as int));
                assert(all_views.take(i + 1).last() == all_views[i as int]);
                assert(all_views[i as int] == all@[i as int]@);
            }
            if all[i].value.len() > 0 {
                let f = all[i].clone();
                kept.push(f);
                proof {
                    reveal(Seq::filter);
                    assert(seg_nonempty(all_views[i as int]));
                    assert(nonempty_seg()(all_views[i as int]));
                    assert(fields_views(kept@) =~= pre.push(all_views[i as int]));
                    assert(fields_views(kept@) == all_views.take(i + 1).filter(nonempty_seg()));
                }
            } else {
                proof {
                    reveal(Seq::filter);
                    assert(!nonempty_seg()(all_views[i as int]));
                    assert(fields_views(kept@) == all_views.take(i + 1).filter(nonempty_seg()));
                }
            }
            i += 1;
        }
        proof {
            assert(all_views.take(all_views.len() as int) =~= all_views);
            assert(fields_views(kept@) == split_segments(path.spec_bytes()).filter(nonempty_seg()));
        }
        Self::try_from_fields(kept)
    }

    /// `try_from_str` on an owned path string.
    pub fn try_from_string(path: String) -> (r: Result<Self, TrackNamespaceError>)
        ensures
            tuple_from_path_ok(
                r,
                split_segments(vstd::utf8::encode_utf8(path@)).filter(nonempty_seg()),
            ),
    {
        Self::try_from_str(path.as_str())
    }

    /// Build a namespace from path parts, one field each, with the same
    /// bounds as `try_from_fields`.
    pub fn try_from_strs(parts: Vec<&str>) -> (r: Result<Self, TrackNamespaceError>)
        ensures
            tuple_from_path_ok(r, Seq::new(parts@.len(), |i: int| parts@[i].spec_bytes())),
    {
        let mut fields: Vec<TupleField> = Vec::new();
        let mut i: usize = 0;
        while i < parts.len()
            invariant
                i <= parts.len(),
                fields@.len() == i,
                forall|j: int| 0 <= j < i ==> (#[trigger] fields@[j])@ == parts@[j].spec_bytes(),
            decreases parts.len() - i,
        {
            fields.push(TupleField::from_utf8(parts[i]));
            i += 1;
        }
        proof {
            assert(fields_views(fields@) =~= Seq::new(
                parts@.len(),
                |i: int| parts@[i].spec_bytes(),
            ));
        }
        Self::try_from_fields(fields)
    }

    /// Build a namespace from owned path parts, one field each.
    pub fn try_from_strings(parts: Vec<String>) -> (r: Result<Self, TrackNamespaceError>)
        ensures
            tuple_from_path_ok(
                r,
                Seq::new(parts@.len(), |i: int| vstd::utf8::encode_utf8(parts@[i]@)),
            ),
    {
        let mut fields: Vec<TupleField> = Vec::new();
        let mut i: usize = 0;
        while i < parts.len()
            invariant
                i <= parts.len(),
                fields@.len() == i,
                forall|j: int| 0 <= j < i ==> (#[trigger] fields@[j])@ == vstd::utf8::encode_utf8(
                    parts@[j]@,
                ),
            decreases parts.len() - i,
        {
            fields.push(TupleField::from_utf8(parts[i].as_str()));
            i += 1;
        }
        proof {
            assert(fields_views(fields@) =~= Seq::new(
                parts@.len(),
                |i: int| vstd::utf8::encode_utf8(parts@[i]@),
            ));
        }
        Self::try_from_fields(fields)
    }
}

/// What `try_from_fields` promises of building a namespace out of the field
/// views `segs`: the namespace on success, the exact error otherwise.
pub open spec fn tuple_from_path_ok(
    r: Result<TrackNamespace, TrackNamespaceError>,
    segs: Seq<Seq<u8>>,
) -> bool {
    match r {
        Ok(ns) => {
            &&& ns@ == segs
            &&& TrackNamespace::fields_ok(segs)
        },
        Err(TrackNamespaceError::TooManyFields(n, m)) => {
            &&& segs.len() > MAX_FIELDS
            &&& n == segs.len()
            &&& m == MAX_FIELDS
        },
        Err(TrackNamespaceError::FieldTooLarge(n, m)) => {
            &&& segs.len() <= MAX_FIELDS
            &&& exists|i: int|
                0 <= i < segs.len() && (#[trigger] segs[i]).len() > MAX_VALUE_SIZE && n == segs[
                    i
                ].len()
            &&& m == MAX_VALUE_SIZE
        },
    }
}

/// Split bytes on `'/'` into tuple fields, empty segments included.
pub(crate) fn split_fields(bytes: &Vec<u8>) -> (r: Vec<TupleField>)
    ensures
        fields_views(r@) == split_segments(bytes@),
{
    let mut fields: Vec<TupleField> = Vec::new();
    let mut cur: Vec<u8> = Vec::new();
    let mut i: usize = 0;
    proof {
        assert(bytes@.take(0) =~= Seq::<u8>::empty());
        assert(split_segments(bytes@.take(0)) =~= fields_views(fields@).push(cur@));
    }
    while i < bytes.len()
        invariant
            i <= bytes.len(),
            split_segments(bytes@.take(i as int)) == fields_views(fields@).push(cur@),
        decreases bytes.len() - i,
    {
        let ghost pre_fields = fields_views(fields@);
        let ghost pre_cur = cur@;
        let b = bytes[i];
        proof {
            assert(bytes@.take(i + 1).drop_last() =~= bytes@.take(i as int));
            assert(bytes@.take(i + 1).last() == b);
        }
        if b == SLASH {
            fields.push(TupleField { value: cur });
            cur = Vec::new();
            proof {
                assert(fields_views(fields@) =~= pre_fields.push(pre_cur));
                assert(split_segments(bytes@.take(i + 1)) =~= fields_views(fields@).push(cur@));
            }
        } else {
            cur.push(b);
            proof {
                let prev = pre_fields.push(pre_cur);
                assert(prev.last() == pre_cur);
                assert(prev.update(prev.len() - 1, pre_cur.push(b)) =~= pre_fields.push(
                    pre_cur.push(b),
                ));
                assert(split_segments(bytes@.take(i + 1)) =~= fields_views(fields@).push(cur@));
            }
        }
        i += 1;
    }
    fields.push(TupleField { value: cur });
    proof {
        assert(bytes@.take(bytes@.len() as int) =~= bytes@);
        assert(fields_views(fields@) =~= split_segments(bytes@));
    }
    fields
}

} // verus!
