//! Variable-length integer wire codec.
//!
//! A value up to `2^62 - 1` is carried in 1, 2, 4 or 8 bytes; the top two
//! bits of the first byte give the total length, the remaining bits hold the
//! value big-endian.

use vstd::prelude::*;

verus! {

/// Largest value a varint can carry: `2^62 - 1`.
pub const VARINT_MAX: u64 = 0x3FFF_FFFF_FFFF_FFFF;

/// Number of bytes the encoding of `v` occupies on the wire.
pub open spec fn varint_len(v: u64) -> int {
    if v < 0x40 {
        1
    } else if v < 0x4000 {
        2
    } else if v < 0x4000_0000 {
        4
    } else {
        8
    }
}

/// The wire bytes of `v`.
pub open spec fn spec_varint(v: u64) -> Seq<u8>
    recommends
        v <= VARINT_MAX,
{
    if v < 0x40 {
        seq![v as u8]
    } else if v < 0x4000 {
        seq![(0x40 + v / 0x100) as u8, (v % 0x100) as u8]
    } else if v < 0x4000_0000 {
        seq![
            (0x80 + v / 0x100_0000) as u8,
            ((v / 0x1_0000) % 0x100) as u8,
            ((v / 0x100) % 0x100) as u8,
            (v % 0x100) as u8,
        ]
    } else {
        seq![
            (0xC0 + v / 0x100_0000_0000_0000) as u8,
            ((v / 0x1_0000_0000_0000) % 0x100) as u8,
            ((v / 0x100_0000_0000) % 0x100) as u8,
            ((v / 0x1_0000_0000) % 0x100) as u8,
            ((v / 0x100_0000) % 0x100) as u8,
            ((v / 0x1_0000) % 0x100) as u8,
            ((v / 0x100) % 0x100) as u8,
            (v % 0x100) as u8,
        ]
    }
}

/// Total length of the varint whose first wire byte is `b0`.
pub open spec fn varint_len_of_first(b0: u8) -> int {
    if b0 < 0x40 {
        1
    } else if b0 < 0x80 {
        2
    } else if b0 < 0xC0 {
        4
    } else {
        8
    }
}

/// The varint at the front of `s`: its value and the bytes consumed, or
/// `None` when `s` is too short to hold it.
pub open spec fn spec_varint_decode(s: Seq<u8>) -> Option<(u64, int)> {
    if s.len() == 0 {
        None
    } else {
        let n = varint_len_of_first(s[0]);
        if s.len() < n {
            None
        } else if n == 1 {
            Some(((s[0] as int % 0x40) as u64, 1))
        } else if n == 2 {
            Some((((s[0] as int % 0x40) * 0x100 + s[1] as int) as u64, 2))
        } else if n == 4 {
            Some(
                (((s[0] as int % 0x40) * 0x100_0000 + s[1] as int * 0x1_0000 + s[2] as int * 0x100
                    + s[3] as int) as u64, 4),
            )
        } else {
            Some(
                (((s[0] as int % 0x40) * 0x100_0000_0000_0000 + s[1] as int * 0x1_0000_0000_0000
                    + s[2] as int * 0x100_0000_0000 + s[3] as int * 0x1_0000_0000 + s[4] as int
                    * 0x100_0000 + s[5] as int * 0x1_0000 + s[6] as int * 0x100 + s[7] as int)
                    as u64, 8),
            )
        }
    }
}

/// Decoding reads back exactly the value that was encoded, however the
/// stream continues after it.
pub proof fn lemma_varint_roundtrip(v: u64, rest: Seq<u8>)
    requires
        v <= VARINT_MAX,
    ensures
        spec_varint(v).len() == varint_len(v),
        spec_varint_decode(spec_varint(v) + rest) == Some((v, varint_len(v))),
{
    let s = spec_varint(v) + rest;
    if v < 0x40 {
        assert(s[0] == v as u8);
        assert((v as u8) < 0x40);
        assert((s[0] as int % 0x40) as u64 == v);
    } else if v < 0x4000 {
        assert(0x40 + v / 0x100 < 0x80 && (0x40 + v / 0x100) % 0x40 == v / 0x100 && (v / 0x100)
            * 0x100 + v % 0x100 == v) by (bit_vector)
            requires
                0x40 <= v < 0x4000,
        ;
        assert(s[0] == (0x40 + v / 0x100) as u8);
        assert(s[0] as int == 0x40 + v as int / 0x100);
        assert(s[1] as int == v as int % 0x100);
        assert((s[0] as int % 0x40) * 0x100 + s[1] as int == v);
    } else if v < 0x4000_0000 {
        assert(0x80 + v / 0x100_0000 < 0xC0 && (0x80 + v / 0x100_0000) % 0x40 == v / 0x100_0000 && (
        v / 0x100_0000) * 0x100_0000 + ((v / 0x1_0000) % 0x100) * 0x1_0000 + ((v / 0x100) % 0x100)
            * 0x100 + v % 0x100 == v) by (bit_vector)
            requires
                0x4000 <= v < 0x4000_0000,
        ;
        assert(s[0] as int == 0x80 + v as int / 0x100_0000);
        assert(s[1] as int == (v as int / 0x1_0000) % 0x100);
        assert(s[2] as int == (v as int / 0x100) % 0x100);
        assert(s[3] as int == v as int % 0x100);
        assert((s[0] as int % 0x40) * 0x100_0000 + s[1] as int * 0x1_0000 + s[2] as int * 0x100
            + s[3] as int == v);
    } else {
        assert(0xC0 + v / 0x100_0000_0000_0000 < 0x100 && (0xC0 + v / 0x100_0000_0000_0000) % 0x40
            == v / 0x100_0000_0000_0000 && (v / 0x100_0000_0000_0000) * 0x100_0000_0000_0000 + ((v
            / 0x1_0000_0000_0000) % 0x100) * 0x1_0000_0000_0000 + ((v / 0x100_0000_0000) % 0x100)
            * 0x100_0000_0000 + ((v / 0x1_0000_0000) % 0x100) * 0x1_0000_0000 + ((v / 0x100_0000)
            % 0x100) * 0x100_0000 + ((v / 0x1_0000) % 0x100) * 0x1_0000 + ((v / 0x100) % 0x100)
            * 0x100 + v % 0x100 == v) by (bit_vector)
            requires
                0x4000_0000 <= v <= 0x3FFF_FFFF_FFFF_FFFF,
        ;
        assert(s[0] as int == 0xC0 + v as int / 0x100_0000_0000_0000);
        assert(s[1] as int == (v as int / 0x1_0000_0000_0000) % 0x100);
        assert(s[2] as int == (v as int / 0x100_0000_0000) % 0x100);
        assert(s[3] as int == (v as int / 0x1_0000_0000) % 0x100);
        assert(s[4] as int == (v as int / 0x100_0000) % 0x100);
        assert(s[5] as int == (v as int / 0x1_0000) % 0x100);
        assert(s[6] as int == (v as int / 0x100) % 0x100);
        assert(s[7] as int == v as int % 0x100);
        assert((s[0] as int % 0x40) * 0x100_0000_0000_0000 + s[1] as int * 0x1_0000_0000_0000
            + s[2] as int * 0x100_0000_0000 + s[3] as int * 0x1_0000_0000 + s[4] as int * 0x100_0000
            + s[5] as int * 0x1_0000 + s[6] as int * 0x100 + s[7] as int == v);
    }
}

/// Append the encoding of `v` to `out`.
pub fn encode_varint(v: u64, out: &mut Vec<u8>)
    requires
        v <= VARINT_MAX,
    ensures
        final(out)@ == old(out)@ + spec_varint(v),
{
    if v < 0x40 {
        out.push(v as u8);
    } else if v < 0x4000 {
        out.push((0x40 + v / 0x100) as u8);
        out.push((v % 0x100) as u8);
    } else if v < 0x4000_0000 {
        out.push((0x80 + v / 0x100_0000) as u8);
        out.push(((v / 0x1_0000) % 0x100) as u8);
        out.push(((v / 0x100) % 0x100) as u8);
        out.push((v % 0x100) as u8);
    } else {
        out.push((0xC0 + v / 0x100_0000_0000_0000) as u8);
        out.push(((v / 0x1_0000_0000_0000) % 0x100) as u8);
        out.push(((v / 0x100_0000_0000) % 0x100) as u8);
        out.push(((v / 0x1_0000_0000) % 0x100) as u8);
        out.push(((v / 0x100_0000) % 0x100) as u8);
        out.push(((v / 0x1_0000) % 0x100) as u8);
        out.push(((v / 0x100) % 0x100) as u8);
        out.push((v % 0x100) as u8);
    }
    proof {
        assert(final(out)@ =~= old(out)@ + spec_varint(v));
    }
}

/// Read the varint starting at `pos` in `buf`; on success return its value
/// and the position just past it. `None` means the buffer ends inside it.
pub fn decode_varint(buf: &Vec<u8>, pos: usize) -> (r: Option<(u64, usize)>)
    requires
        pos <= buf@.len(),
    ensures
        match r {
            Some((v, newpos)) => {
                &&& pos < newpos <= buf@.len()
                &&& spec_varint_decode(buf@.skip(pos as int)) == Some(
                    (v, newpos - pos),
                )
                &&& v <= VARINT_MAX
            },
            None => spec_varint_decode(buf@.skip(pos as int)) is None,
        },
{
    let ghost s = buf@.skip(pos as int);
    if pos >= buf.len() {
        return None;
    }
    let b0 = buf[pos];
    proof {
        assert(s[0] == b0);
    }
    if b0 < 0x40 {
        proof {
            assert(b0 as int % 0x40 == b0 as int);
        }
        Some(((b0 % 0x40) as u64, pos + 1))
    } else if b0 < 0x80 {
        if buf.len() - pos < 2 {
            return None;
        }
        let b1 = buf[pos + 1];
        proof {
            assert(s[1] == b1);
        }
        let v = ((b0 % 0x40) as u64) * 0x100 + b1 as u64;
        Some((v, pos + 2))
    } else if b0 < 0xC0 {
        if buf.len() - pos < 4 {
            return None;
        }
        let b1 = buf[pos + 1];
        let b2 = buf[pos + 2];
        let b3 = buf[pos + 3];
        proof {
            assert(s[1] == b1 && s[2] == b2 && s[3] == b3);
        }
        let v = ((b0 % 0x40) as u64) * 0x100_0000 + (b1 as u64) * 0x1_0000 + (b2 as u64) * 0x100
            + b3 as u64;
        Some((v, pos + 4))
    } else {
        if buf.len() - pos < 8 {
            return None;
        }
        let b1 = buf[pos + 1];
        let b2 = buf[pos + 2];
        let b3 = buf[pos + 3];
        let b4 = buf[pos + 4];
        let b5 = buf[pos + 5];
        let b6 = buf[pos + 6];
        let b7 = buf[pos + 7];
        proof {
            assert(s[1] == b1 && s[2] == b2 && s[3] == b3 && s[4] == b4 && s[5] == b5 && s[6] == b6
                && s[7] == b7);
        }
        let v = ((b0 % 0x40) as u64) * 0x100_0000_0000_0000 + (b1 as u64) * 0x1_0000_0000_0000 + (
        b2 as u64) * 0x100_0000_0000 + (b3 as u64) * 0x1_0000_0000 + (b4 as u64) * 0x100_0000 + (
        b5 as u64) * 0x1_0000 + (b6 as u64) * 0x100 + b7 as u64;
        Some((v, pos + 8))
    }
}

} // verus!
