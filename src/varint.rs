//! Mumble's variable-length integer format.
use vstd::prelude::*;

use crate::error::IoError;

verus! {

/// Encoding of a value with its top bit clear that is not written in the
/// one-byte negative form.
pub open spec fn varint_plain(v: u64) -> Seq<u8> {
    if v > 0xffff_ffff {
        seq![
            0xf4u8,
            (v >> 56u64) as u8,
            (v >> 48u64) as u8,
            (v >> 40u64) as u8,
            (v >> 32u64) as u8,
            (v >> 24u64) as u8,
            (v >> 16u64) as u8,
            (v >> 8u64) as u8,
            v as u8,
        ]
    } else if v > 0x0fff_ffff {
        seq![0xf0u8, (v >> 24u64) as u8, (v >> 16u64) as u8, (v >> 8u64) as u8, v as u8]
    } else if v > 0x001f_ffff {
        seq![0xe0u8 | ((v >> 24u64) as u8), (v >> 16u64) as u8, (v >> 8u64) as u8, v as u8]
    } else if v > 0x3fff {
        seq![0xc0u8 | ((v >> 16u64) as u8), (v >> 8u64) as u8, v as u8]
    } else if v > 0x7f {
        seq![0x80u8 | ((v >> 8u64) as u8), v as u8]
    } else {
        seq![v as u8]
    }
}

/// True of the values written in one byte as a small negative.
pub open spec fn is_small_negative(v: u64) -> bool {
    v & 0xffff_ffff_ffff_fffc == 0xffff_ffff_ffff_fffc
}

/// The bytes that encode `v`.
pub open spec fn varint_encode(v: u64) -> Seq<u8> {
    if is_small_negative(v) {
        seq![0xfcu8 | ((!v) as u8)]
    } else if v & 0x8000_0000_0000_0000 == 0x8000_0000_0000_0000 {
        seq![0xf8u8] + varint_plain(!v)
    } else {
        varint_plain(v)
    }
}

/// The value at the start of `s` and the number of bytes it takes, or `None`
/// where `s` ends before the value does.
#[verifier::opaque]
pub open spec fn varint_decode(s: Seq<u8>) -> Option<(u64, nat)>
    decreases s.len(),
{
    if s.len() == 0 {
        None
    } else {
        let b0 = s[0];
        if b0 & 0xfc == 0xf8 {
            match varint_decode(s.drop_first()) {
                Some((v, n)) => Some((!v, n + 1)),
                None => None,
            }
        } else if b0 & 0xfc == 0xfc {
            Some((!((b0 & 0x03) as u64), 1))
        } else if b0 & 0x80 == 0 {
            Some(((b0 & 0x7f) as u64, 1))
        } else if s.len() < 2 {
            None
        } else if b0 & 0x40 == 0 {
            Some(((((b0 & 0x3f) as u64) << 8u64) | (s[1] as u64), 2))
        } else if s.len() < 3 {
            None
        } else if b0 & 0x20 == 0 {
            Some(
                (
                    (((b0 & 0x1f) as u64) << 16u64) | ((s[1] as u64) << 8u64) | (s[2] as u64),
                    3,
                ),
            )
        } else if s.len() < 4 {
            None
        } else if b0 & 0x10 == 0 {
            Some(
                (
                    (((b0 & 0x0f) as u64) << 24u64) | ((s[1] as u64) << 16u64) | ((s[2] as u64)
                        << 8u64) | (s[3] as u64),
                    4,
                ),
            )
        } else if s.len() < 5 {
            None
        } else if b0 & 0x04 == 0 {
            Some(
                (
                    ((s[1] as u64) << 24u64) | ((s[2] as u64) << 16u64) | ((s[3] as u64) << 8u64)
                        | (s[4] as u64),
                    5,
                ),
            )
        } else if s.len() < 9 {
            None
        } else {
            Some(
                (
                    ((s[1] as u64) << 56u64) | ((s[2] as u64) << 48u64) | ((s[3] as u64) << 40u64)
                        | ((s[4] as u64) << 32u64) | ((s[5] as u64) << 24u64) | ((s[6] as u64)
                        << 16u64) | ((s[7] as u64) << 8u64) | (s[8] as u64),
                    9,
                ),
            )
        }
    }
}

/// A value read takes at least one byte and no more than there are.
pub proof fn lemma_varint_decode_len(s: Seq<u8>)
    ensures
        varint_decode(s) matches Some((_, n)) ==> 1 <= n <= s.len(),
    decreases s.len(),
{
    reveal_with_fuel(varint_decode, 1);
    if s.len() > 0 {
        lemma_varint_decode_len(s.drop_first());
    }
}

/// Reads the value that starts at `pos` in `buf`: the value and the position
/// after it, or `UnexpectedEof` where the buffer ends first.
pub fn read_varint_at(buf: &[u8], pos: usize) -> (r: Result<(u64, usize), IoError>)
    requires
        pos <= buf@.len(),
    ensures
        match varint_decode(buf@.subrange(pos as int, buf@.len() as int)) {
            Some((v, n)) => r matches Ok((v2, p)) && v2 == v && p == pos + n,
            None => r == Err::<(u64, usize), IoError>(IoError::UnexpectedEof),
        },
        r matches Ok((_, p)) ==> pos < p <= buf@.len(),
        varint_decode(buf@.subrange(pos as int, buf@.len() as int)) matches Some((_, n)) ==> 1 <= n
            && pos + n <= buf@.len(),
    decreases buf@.len() - pos,
{
    proof {
        lemma_varint_decode_len(buf@.subrange(pos as int, buf@.len() as int));
        reveal_with_fuel(varint_decode, 1);
    }
    let ghost s = buf@.subrange(pos as int, buf@.len() as int);
    let len = buf.len();
    if pos >= len {
        return Err(IoError::UnexpectedEof);
    }
    let b0 = buf[pos];
    assert(s[0] == b0);
    if b0 & 0xfc == 0xf8 {
        assert(s.drop_first() =~= buf@.subrange(pos + 1, buf@.len() as int));
        return match read_varint_at(buf, pos + 1) {
            Ok((v, p)) => Ok((!v, p)),
            Err(e) => Err(e),
        };
    }
    if b0 & 0xfc == 0xfc {
        return Ok((!((b0 & 0x03) as u64), pos + 1));
    }
    if b0 & 0x80 == 0 {
        return Ok(((b0 & 0x7f) as u64, pos + 1));
    }
    if len - pos < 2 {
        return Err(IoError::UnexpectedEof);
    }
    let b1 = buf[pos + 1] as u64;
    assert(s[1] == b1);
    if b0 & 0x40 == 0 {
        return Ok(((((b0 & 0x3f) as u64) << 8u64) | b1, pos + 2));
    }
    if len - pos < 3 {
        return Err(IoError::UnexpectedEof);
    }
    let b2 = buf[pos + 2] as u64;
    assert(s[2] == b2);
    if b0 & 0x20 == 0 {
        return Ok(((((b0 & 0x1f) as u64) << 16u64) | (b1 << 8u64) | b2, pos + 3));
    }
    if len - pos < 4 {
        return Err(IoError::UnexpectedEof);
    }
    let b3 = buf[pos + 3] as u64;
    assert(s[3] == b3);
    if b0 & 0x10 == 0 {
        return Ok(
            ((((b0 & 0x0f) as u64) << 24u64) | (b1 << 16u64) | (b2 << 8u64) | b3, pos + 4),
        );
    }
    if len - pos < 5 {
        return Err(IoError::UnexpectedEof);
    }
    let b4 = buf[pos + 4] as u64;
    assert(s[4] == b4);
    if b0 & 0x04 == 0 {
        return Ok(((b1 << 24u64) | (b2 << 16u64) | (b3 << 8u64) | b4, pos + 5));
    }
    if len - pos < 9 {
        return Err(IoError::UnexpectedEof);
    }
    let b5 = buf[pos + 5] as u64;
    let b6 = buf[pos + 6] as u64;
    let b7 = buf[pos + 7] as u64;
    let b8 = buf[pos + 8] as u64;
    assert(s[5] == b5 && s[6] == b6 && s[7] == b7 && s[8] == b8);
    Ok(
        (
            (b1 << 56u64) | (b2 << 48u64) | (b3 << 40u64) | (b4 << 32u64) | (b5 << 24u64) | (b6
                << 16u64) | (b7 << 8u64) | b8,
            pos + 9,
        ),
    )
}

fn write_plain(out: &mut Vec<u8>, value: u64)
    requires
        value & 0x8000_0000_0000_0000 == 0,
    ensures
        final(out)@ == old(out)@ + varint_plain(value),
{
    let ghost start = out@;
    if value > 0xffff_ffff {
        out.push(0xf4u8);
        out.push((value >> 56u64) as u8);
        out.push((value >> 48u64) as u8);
        out.push((value >> 40u64) as u8);
        out.push((value >> 32u64) as u8);
        out.push((value >> 24u64) as u8);
        out.push((value >> 16u64) as u8);
        out.push((value >> 8u64) as u8);
        out.push(value as u8);
    } else if value > 0x0fff_ffff {
        out.push(0xf0u8);
        out.push((value >> 24u64) as u8);
        out.push((value >> 16u64) as u8);
        out.push((value >> 8u64) as u8);
        out.push(value as u8);
    } else if value > 0x001f_ffff {
        out.push(0xe0u8 | ((value >> 24u64) as u8));
        out.push((value >> 16u64) as u8);
        out.push((value >> 8u64) as u8);
        out.push(value as u8);
    } else if value > 0x3fff {
        out.push(0xc0u8 | ((value >> 16u64) as u8));
        out.push((value >> 8u64) as u8);
        out.push(value as u8);
    } else if value > 0x7f {
        out.push(0x80u8 | ((value >> 8u64) as u8));
        out.push(value as u8);
    } else {
        out.push(value as u8);
    }
    assert(out@ =~= start + varint_plain(value));
}

/// Appends the encoding of `value` to `out`.
pub fn write_varint_to(out: &mut Vec<u8>, value: u64)
    ensures
        final(out)@ == old(out)@ + varint_encode(value),
{
    if value & 0xffff_ffff_ffff_fffc == 0xffff_ffff_ffff_fffc {
        out.push(0xfcu8 | (#[verifier::truncate] ((!value) as u8)));
        assert(final(out)@ =~= old(out)@ + varint_encode(value));
        return;
    }
    if value & 0x8000_0000_0000_0000 == 0x8000_0000_0000_0000 {
        out.push(0xf8u8);
        let inv = !value;
        assert(inv & 0x8000_0000_0000_0000 == 0) by (bit_vector)
            requires
                inv == !value,
                value & 0x8000_0000_0000_0000 == 0x8000_0000_0000_0000,
        ;
        write_plain(out, inv);
        assert(final(out)@ =~= old(out)@ + varint_encode(value));
        return;
    }
    assert(value & 0x8000_0000_0000_0000 == 0) by (bit_vector)
        requires
            value & 0x8000_0000_0000_0000 != 0x8000_0000_0000_0000,
    ;
    write_plain(out, value);
}


/// A byte buffer read from a position onwards.
pub struct ByteReader {
    pub data: Vec<u8>,
    pub pos: usize,
}

/// Reading a varint from a byte source.
pub trait ReadExt {
    /// Reads the next value.
    fn read_varint(&mut self) -> Result<u64, IoError>;
}

impl ReadExt for ByteReader {
    fn read_varint(&mut self) -> (r: Result<u64, IoError>)
        ensures
            final(self).data == old(self).data,
            old(self).pos > old(self).data@.len() ==> r == Err::<u64, IoError>(IoError::UnexpectedEof)
                && final(self).pos == old(self).pos,
            old(self).pos <= old(self).data@.len() ==> match varint_decode(
                old(self).data@.subrange(old(self).pos as int, old(self).data@.len() as int),
            ) {
                Some((v, n)) => r == Ok::<u64, IoError>(v) && final(self).pos == old(self).pos + n,
                None => r == Err::<u64, IoError>(IoError::UnexpectedEof) && final(self).pos == old(self).pos,
            },
    {
        if self.pos > self.data.len() {
            return Err(IoError::UnexpectedEof);
        }
        match read_varint_at(self.data.as_slice(), self.pos) {
            Ok((v, p)) => {
                self.pos = p;
                Ok(v)
            },
            Err(e) => Err(e),
        }
    }
}

/// Writing a varint to a growable buffer.
pub trait BufMutExt {
    /// Appends the encoding of `val`.
    fn put_varint(&mut self, val: u64);
}

impl BufMutExt for Vec<u8> {
    fn put_varint(&mut self, val: u64)
        ensures
            final(self)@ == old(self)@ + varint_encode(val),
    {
        write_varint_to(self, val);
    }
}

/// Writing a varint to a byte sink.
pub trait WriteExt {
    /// Appends the encoding of `val`.
    fn write_varint(&mut self, val: u64);
}

impl WriteExt for Vec<u8> {
    fn write_varint(&mut self, val: u64)
        ensures
            final(self)@ == old(self)@ + varint_encode(val),
    {
        write_varint_to(self, val);
    }
}

proof fn lemma_plain_round_trip(w: u64, rest: Seq<u8>)
    requires
        w & 0x8000_0000_0000_0000 == 0,
    ensures
        varint_decode(varint_plain(w) + rest) == Some((w, varint_plain(w).len())),
{
    reveal_with_fuel(varint_decode, 1);
    let p = varint_plain(w);
    let s = p + rest;
    assert(forall|i: int| 0 <= i < p.len() ==> s[i] == p[i]);
    let b0 = s[0];
    if w > 0xffff_ffff {
        let (b1, b2, b3, b4, b5, b6, b7, b8) = (s[1], s[2], s[3], s[4], s[5], s[6], s[7], s[8]);
        assert(b0 & 0xfc != 0xf8 && b0 & 0xfc != 0xfc && b0 & 0x80 != 0 && b0 & 0x40 != 0 && b0
            & 0x20 != 0 && b0 & 0x10 != 0 && b0 & 0x04 != 0 && ((b1 as u64) << 56u64) | ((
        b2 as u64) << 48u64) | ((b3 as u64) << 40u64) | ((b4 as u64) << 32u64) | ((b5 as u64)
            << 24u64) | ((b6 as u64) << 16u64) | ((b7 as u64) << 8u64) | (b8 as u64) == w)
            by (bit_vector)
            requires
                b0 == 0xf4u8,
                b1 == (w >> 56u64) as u8,
                b2 == (w >> 48u64) as u8,
                b3 == (w >> 40u64) as u8,
                b4 == (w >> 32u64) as u8,
                b5 == (w >> 24u64) as u8,
                b6 == (w >> 16u64) as u8,
                b7 == (w >> 8u64) as u8,
                b8 == w as u8,
        ;
    } else if w > 0x0fff_ffff {
        let (b1, b2, b3, b4) = (s[1], s[2], s[3], s[4]);
        assert(b0 & 0xfc != 0xf8 && b0 & 0xfc != 0xfc && b0 & 0x80 != 0 && b0 & 0x40 != 0 && b0
            & 0x20 != 0 && b0 & 0x10 != 0 && b0 & 0x04 == 0 && ((b1 as u64) << 24u64) | ((
        b2 as u64) << 16u64) | ((b3 as u64) << 8u64) | (b4 as u64) == w) by (bit_vector)
            requires
                b0 == 0xf0u8,
                b1 == (w >> 24u64) as u8,
                b2 == (w >> 16u64) as u8,
                b3 == (w >> 8u64) as u8,
                b4 == w as u8,
                w <= 0xffff_ffff,
        ;
    } else if w > 0x001f_ffff {
        let (b1, b2, b3) = (s[1], s[2], s[3]);
        assert(b0 & 0xfc != 0xf8 && b0 & 0xfc != 0xfc && b0 & 0x80 != 0 && b0 & 0x40 != 0 && b0
            & 0x20 != 0 && b0 & 0x10 == 0 && (((b0 & 0x0f) as u64) << 24u64) | ((b1 as u64)
            << 16u64) | ((b2 as u64) << 8u64) | (b3 as u64) == w) by (bit_vector)
            requires
                b0 == 0xe0u8 | ((w >> 24u64) as u8),
                b1 == (w >> 16u64) as u8,
                b2 == (w >> 8u64) as u8,
                b3 == w as u8,
                w <= 0x0fff_ffff,
        ;
    } else if w > 0x3fff {
        let (b1, b2) = (s[1], s[2]);
        assert(b0 & 0xfc != 0xf8 && b0 & 0xfc != 0xfc && b0 & 0x80 != 0 && b0 & 0x40 != 0 && b0
            & 0x20 == 0 && (((b0 & 0x1f) as u64) << 16u64) | ((b1 as u64) << 8u64) | (b2 as u64)
            == w) by (bit_vector)
            requires
                b0 == 0xc0u8 | ((w >> 16u64) as u8),
                b1 == (w >> 8u64) as u8,
                b2 == w as u8,
                w <= 0x001f_ffff,
        ;
    } else if w > 0x7f {
        let b1 = s[1];
        assert(b0 & 0xfc != 0xf8 && b0 & 0xfc != 0xfc && b0 & 0x80 != 0 && b0 & 0x40 == 0 && (((
        b0 & 0x3f) as u64) << 8u64) | (b1 as u64) == w) by (bit_vector)
            requires
                b0 == 0x80u8 | ((w >> 8u64) as u8),
                b1 == w as u8,
                w <= 0x3fff,
        ;
    } else {
        assert(b0 & 0xfc != 0xf8 && b0 & 0xfc != 0xfc && b0 & 0x80 == 0 && (b0 & 0x7f) as u64
            == w) by (bit_vector)
            requires
                b0 == w as u8,
                w <= 0x7f,
        ;
    }
}

/// Reading back what was written gives the value, whatever follows it.
pub proof fn lemma_varint_round_trip(v: u64, rest: Seq<u8>)
    ensures
        varint_decode(varint_encode(v) + rest) == Some((v, varint_encode(v).len())),
{
    reveal_with_fuel(varint_decode, 1);
    let e = varint_encode(v);
    let s = e + rest;
    assert(s[0] == e[0]);
    let b0 = s[0];
    if is_small_negative(v) {
        assert(b0 & 0xfc != 0xf8 && b0 & 0xfc == 0xfc && !((b0 & 0x03) as u64) == v)
            by (bit_vector)
            requires
                b0 == 0xfcu8 | ((!v) as u8),
                v & 0xffff_ffff_ffff_fffc == 0xffff_ffff_ffff_fffc,
        ;
    } else if v & 0x8000_0000_0000_0000 == 0x8000_0000_0000_0000 {
        let w = !v;
        assert(w & 0x8000_0000_0000_0000 == 0 && !w == v && b0 & 0xfc == 0xf8) by (bit_vector)
            requires
                w == !v,
                b0 == 0xf8u8,
                v & 0x8000_0000_0000_0000 == 0x8000_0000_0000_0000,
        ;
        lemma_plain_round_trip(w, rest);
        assert(s.drop_first() =~= varint_plain(w) + rest);
    } else {
        assert(v & 0x8000_0000_0000_0000 == 0) by (bit_vector)
            requires
                v & 0x8000_0000_0000_0000 != 0x8000_0000_0000_0000,
        ;
        lemma_plain_round_trip(v, rest);
    }
}

} // verus!
