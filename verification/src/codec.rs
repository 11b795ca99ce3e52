//! Wire codec for track namespaces.
//!
//! A namespace is encoded as a varint field count followed by each field as
//! a varint byte length and the value bytes. Decoding rejects a count above
//! `MAX_FIELDS`.

use vstd::prelude::*;
use vstd::string::StringExecFns;

use crate::namespace::{fields_views, TrackNamespace, TupleField, MAX_FIELDS};
use crate::varint::{
    decode_varint, encode_varint, spec_varint, spec_varint_decode, varint_len, VARINT_MAX,
};

verus! {

/// Errors while encoding a namespace.
#[derive(Debug)]
pub enum EncodeError {
    /// The tuple has more fields than the wire format allows.
    FieldBoundsExceeded(String),
}

/// Errors while decoding a namespace.
#[derive(Debug)]
pub enum DecodeError {
    /// The buffer ended inside the value being decoded.
    UnexpectedEnd,
    /// The decoded field count is above the wire-format bound.
    FieldBoundsExceeded(String),
}

/// The wire bytes of one tuple field: varint length, then the value.
pub open spec fn spec_field_encode(f: Seq<u8>) -> Seq<u8>
    recommends
        f.len() <= VARINT_MAX,
{
    spec_varint(f.len() as u64) + f
}

/// The wire bytes of a sequence of fields, in order.
pub open spec fn spec_fields_encode(fields: Seq<Seq<u8>>) -> Seq<u8>
    decreases fields.len(),
{
    if fields.len() == 0 {
        Seq::empty()
    } else {
        spec_field_encode(fields[0]) + spec_fields_encode(fields.drop_first())
    }
}

/// The wire bytes of a whole namespace: varint field count, then the fields.
pub open spec fn spec_ns_encode(fields: Seq<Seq<u8>>) -> Seq<u8>
    recommends
        fields.len() <= MAX_FIELDS,
{
    spec_varint(fields.len() as u64) + spec_fields_encode(fields)
}

/// Decoding `count` fields off the front of `s`: the fields and the bytes
/// consumed, or `None` when `s` ends inside them.
pub open spec fn spec_fields_decode(s: Seq<u8>, count: nat) -> Option<(Seq<Seq<u8>>, int)>
    decreases count,
{
    if count == 0 {
        Some((Seq::empty(), 0))
    } else {
        match spec_varint_decode(s) {
            None => None,
            Some((len, n)) => if s.len() - n < len {
                None
            } else {
                match spec_fields_decode(s.skip(n + len), (count - 1) as nat) {
                    None => None,
                    Some((rest, m)) => Some(
                        (seq![s.subrange(n, n + len)] + rest, n + len + m),
                    ),
                }
            },
        }
    }
}

/// Decoding a namespace off the front of `s`: the fields and the bytes
/// consumed; `None` both when `s` is too short and when the field count is
/// above `MAX_FIELDS`.
pub open spec fn spec_ns_decode(s: Seq<u8>) -> Option<(Seq<Seq<u8>>, int)> {
    match spec_varint_decode(s) {
        None => None,
        Some((count, n)) => if count > MAX_FIELDS {
            None
        } else {
            match spec_fields_decode(s.skip(n), count as nat) {
                None => None,
                Some((fields, m)) => Some((fields, n + m)),
            }
        },
    }
}

/// Field encoding distributes over concatenation of field sequences.
pub proof fn lemma_fields_encode_concat(a: Seq<Seq<u8>>, b: Seq<Seq<u8>>)
    ensures
        spec_fields_encode(a + b) == spec_fields_encode(a) + spec_fields_encode(b),
    decreases a.len(),
{
    if a.len() == 0 {
        assert(a + b =~= b);
        assert(spec_fields_encode(a) + spec_fields_encode(b) =~= spec_fields_encode(b));
    } else {
        lemma_fields_encode_concat(a.drop_first(), b);
        assert((a + b).drop_first() =~= a.drop_first() + b);
        assert((a + b)[0] == a[0]);
        assert(spec_field_encode(a[0]) + (spec_fields_encode(a.drop_first()) + spec_fields_encode(
            b,
        )) =~= (spec_field_encode(a[0]) + spec_fields_encode(a.drop_first()))
            + spec_fields_encode(b));
    }
}

/// Decoding reads back exactly the fields that were encoded.
pub proof fn lemma_fields_roundtrip(fields: Seq<Seq<u8>>, rest: Seq<u8>)
    requires
        forall|i: int| 0 <= i < fields.len() ==> (#[trigger] fields[i]).len() <= VARINT_MAX,
    ensures
        spec_fields_decode(spec_fields_encode(fields) + rest, fields.len() as nat) == Some(
            (fields, spec_fields_encode(fields).len() as int),
        ),
    decreases fields.len(),
{
    if fields.len() == 0 {
        assert(spec_fields_encode(fields) + rest =~= rest);
        assert(fields =~= Seq::<Seq<u8>>::empty());
    } else {
        let f0 = fields[0];
        let tail = fields.drop_first();
        let enc_tail = spec_fields_encode(tail);
        let s = spec_fields_encode(fields) + rest;
        let lv = f0.len() as u64;
        let n = varint_len(lv);
        crate::varint::lemma_varint_roundtrip(lv, f0 + enc_tail + rest);
        assert(s =~= spec_varint(lv) + (f0 + enc_tail + rest));
        assert(spec_varint_decode(s) == Some((lv, n)));
        assert(s.subrange(n, n + f0.len()) =~= f0);
        assert(s.skip(n + f0.len()) =~= enc_tail + rest);
        lemma_fields_roundtrip(tail, rest);
        assert(seq![f0] + tail =~= fields);
    }
}

/// Law: for any namespace within the wire bounds, encoding it and decoding
/// the result yields an equal namespace, whatever bytes follow on the wire.
pub proof fn lemma_encode_decode_roundtrip(fields: Seq<Seq<u8>>, rest: Seq<u8>)
    requires
        fields.len() <= MAX_FIELDS,
        forall|i: int| 0 <= i < fields.len() ==> (#[trigger] fields[i]).len() <= VARINT_MAX,
    ensures
        spec_ns_decode(spec_ns_encode(fields) + rest) == Some(
            (fields, spec_ns_encode(fields).len() as int),
        ),
{
    let count = fields.len() as u64;
    let enc_fields = spec_fields_encode(fields);
    let s = spec_ns_encode(fields) + rest;
    crate::varint::lemma_varint_roundtrip(count, enc_fields + rest);
    assert(s =~= spec_varint(count) + (enc_fields + rest));
    assert(spec_varint_decode(s) == Some((count, varint_len(count))));
    assert(s.skip(varint_len(count)) =~= enc_fields + rest);
    lemma_fields_roundtrip(fields, rest);
}

impl TupleField {
    /// Append this field's wire bytes to `w`.
    pub fn encode(&self, w: &mut Vec<u8>)
        requires
            self@.len() <= VARINT_MAX,
        ensures
            final(w)@ == old(w)@ + spec_field_encode(self@),
    {
        encode_varint(self.value.len() as u64, w);
        let mut i: usize = 0;
        while i < self.value.len()
            invariant
                i <= self.value.len(),
                w@ == old(w)@ + spec_varint(self.value@.len() as u64) + self.value@.take(i as int),
            decreases self.value.len() - i,
        {
            let b = self.value[i];
            w.push(b);
            proof {
                assert(self.value@.take(i + 1) =~= self.value@.take(i as int).push(b));
                assert(w@ =~= old(w)@ + spec_varint(self.value@.len() as u64) + self.value@.take(
                    i + 1,
                ));
            }
            i += 1;
        }
        proof {
            assert(self.value@.take(self.value@.len() as int) =~= self.value@);
            assert(w@ =~= old(w)@ + spec_field_encode(self@));
        }
    }
}

impl TrackNamespace {
    /// Append this namespace's wire bytes to `w`; a tuple of more than
    /// `MAX_FIELDS` fields is refused and `w` is left unchanged.
    pub fn encode(&self, w: &mut Vec<u8>) -> (r: Result<(), EncodeError>)
        requires
            forall|i: int| 0 <= i < self@.len() ==> (#[trigger] self@[i]).len() <= VARINT_MAX,
        ensures
            match r {
                Ok(()) => {
                    &&& self@.len() <= MAX_FIELDS
                    &&& final(w)@ == old(w)@ + spec_ns_encode(self@)
                },
                Err(e) => {
                    &&& self@.len() > MAX_FIELDS
                    &&& e is FieldBoundsExceeded
                    &&& final(w)@ == old(w)@
                },
            },
    {
        if self.fields.len() > MAX_FIELDS {
            return Err(EncodeError::FieldBoundsExceeded(String::from_str("TrackNamespace tuples")));
        }
        encode_varint(self.fields.len() as u64, w);
        let ghost header = spec_varint(self.fields@.len() as u64);
        let mut i: usize = 0;
        while i < self.fields.len()
            invariant
                i <= self.fields.len(),
                self@.len() <= MAX_FIELDS,
                forall|j: int| 0 <= j < self@.len() ==> (#[trigger] self@[j]).len() <= VARINT_MAX,
                header == spec_varint(self.fields@.len() as u64),
                w@ == old(w)@ + header + spec_fields_encode(self@.take(i as int)),
            decreases self.fields.len() - i,
        {
            let ghost pre = w@;
            proof {
                assert(self@[i as int] == self.fields@[i as int]@);
            }
            self.fields[i].encode(w);
            proof {
                assert(self@.take(i + 1) =~= self@.take(i as int) + seq![self@[i as int]]);
                lemma_fields_encode_concat(self@.take(i as int), seq![self@[i as int]]);
                assert(seq![self@[i as int]].drop_first() =~= Seq::<Seq<u8>>::empty());
                assert(spec_fields_encode(seq![self@[i as int]]) =~= spec_field_encode(
                    self@[i as int],
                ) + spec_fields_encode(Seq::<Seq<u8>>::empty()));
                assert(spec_fields_encode(seq![self@[i as int]]) =~= spec_field_encode(
                    self@[i as int],
                ));
                assert(w@ =~= old(w)@ + header + spec_fields_encode(self@.take(i + 1)));
            }
            i += 1;
        }
        proof {
            assert(self@.take(self@.len() as int) =~= self@);
            assert(w@ =~= old(w)@ + spec_ns_encode(self@));
        }
        Ok(())
    }

    /// Read a namespace starting at `pos` in `buf`; on success return it and
    /// the position just past it. A field count above `MAX_FIELDS` is
    /// refused; a buffer that ends inside the namespace is `UnexpectedEnd`.
    pub fn decode(buf: &Vec<u8>, pos: usize) -> (r: Result<(TrackNamespace, usize), DecodeError>)
        requires
            pos <= buf@.len(),
        ensures
            match r {
                Ok((ns, newpos)) => {
                    &&& pos <= newpos <= buf@.len()
                    &&& spec_ns_decode(buf@.skip(pos as int)) == Some((ns@, (newpos - pos) as int))
                    &&& ns@.len() <= MAX_FIELDS
                },
                Err(DecodeError::FieldBoundsExceeded(_)) => {
                    &&& spec_varint_decode(buf@.skip(pos as int)) matches Some((count, _))
                        && count > MAX_FIELDS
                    &&& spec_ns_decode(buf@.skip(pos as int)) is None
                },
                Err(DecodeError::UnexpectedEnd) => spec_ns_decode(buf@.skip(pos as int)) is None,
            },
    {
        let ghost s = buf@.skip(pos as int);
        let (count, mut cur) = match decode_varint(buf, pos) {
            Some(x) => x,
            None => {
                return Err(DecodeError::UnexpectedEnd);
            },
        };
        if count > MAX_FIELDS as u64 {
            return Err(DecodeError::FieldBoundsExceeded(String::from_str(
                "TrackNamespace tuples",
            )));
        }
        let ghost n0 = cur - pos;
        proof {
            assert(s.skip(n0) =~= buf@.skip(cur as int));
        }
        let mut fields: Vec<TupleField> = Vec::new();
        let mut i: u64 = 0;
        proof {
            assert(fields_views(fields@) + Seq::<Seq<u8>>::empty() =~= Seq::<Seq<u8>>::empty());
        }
        while i < count
            invariant
                i <= count,
                count <= MAX_FIELDS,
                pos + n0 <= cur <= buf@.len(),
                s == buf@.skip(pos as int),
                fields@.len() == i,
                spec_varint_decode(s) == Some((count, n0)),
                spec_fields_decode(s.skip(n0), count as nat) == (match spec_fields_decode(
                    buf@.skip(cur as int),
                    (count - i) as nat,
                ) {
                    None => None::<(Seq<Seq<u8>>, int)>,
                    Some(inner) => Some(
                        (fields_views(fields@) + inner.0, (cur - pos - n0) + inner.1),
                    ),
                }),
            decreases count - i,
        {
            let ghost cur_s = buf@.skip(cur as int);
            let (flen, fstart) = match decode_varint(buf, cur) {
                Some(x) => x,
                None => {
                    return Err(DecodeError::UnexpectedEnd);
                },
            };
            if flen > (buf.len() - fstart) as u64 {
                proof {
                    assert(cur_s.len() - (fstart - cur) < flen);
                    assert(spec_fields_decode(cur_s, (count - i) as nat) is None);
                }
                return Err(DecodeError::UnexpectedEnd);
            }
            let flen_us = flen as usize;
            let ghost nf = fstart - cur;
            let mut value: Vec<u8> = Vec::new();
            let mut j: usize = 0;
            proof {
                assert(value@ =~= buf@.subrange(fstart as int, fstart as int));
            }
            while j < flen_us
                invariant
                    j <= flen_us,
                    fstart + flen_us <= buf@.len() <= usize::MAX,
                    value@ == buf@.subrange(fstart as int, fstart + j),
                decreases flen_us - j,
            {
                let b = buf[fstart + j];
                value.push(b);
                proof {
                    assert(value@ =~= buf@.subrange(fstart as int, fstart + j + 1));
                }
                j += 1;
            }
            let ghost field = buf@.subrange(fstart as int, fstart + flen);
            proof {
                assert(cur_s.subrange(nf, nf + flen) =~= field);
                assert(cur_s.skip(nf + flen) =~= buf@.skip(fstart + flen));
            }
            let ghost prev_views = fields_views(fields@);
            fields.push(TupleField { value });
            let ghost old_cur = cur;
            cur = fstart + flen_us;
            proof {
                assert(fields_views(fields@) =~= prev_views.push(field));
                let inner_pre = spec_fields_decode(cur_s, (count - i) as nat);
                let inner_post = spec_fields_decode(buf@.skip(cur as int), (count - i - 1) as nat);
                assert(inner_pre == (match inner_post {
                    None => None::<(Seq<Seq<u8>>, int)>,
                    Some(inner) => Some((seq![field] + inner.0, nf + flen + inner.1)),
                }));
                if inner_post is Some {
                    let inner = inner_post->Some_0;
                    assert(prev_views + (seq![field] + inner.0) =~= fields_views(fields@)
                        + inner.0);
                }
            }
            i += 1;
        }
        proof {
            assert(spec_fields_decode(buf@.skip(cur as int), 0nat) == Some(
                (Seq::<Seq<u8>>::empty(), 0int),
            ));
            assert(fields_views(fields@) + Seq::<Seq<u8>>::empty() =~= fields_views(fields@));
        }
        let ns = TrackNamespace { fields };
        proof {
            assert(ns@ =~= fields_views(ns.fields@));
            assert(spec_ns_decode(s) == Some((ns@, (cur - pos) as int)));
        }
        Ok((ns, cur))
    }
}

} // verus!
