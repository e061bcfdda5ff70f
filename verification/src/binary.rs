//! A growable byte buffer with a read cursor: the primitive layer of the
//! wire protocol.
//!
//! Writers append big-endian integers, length-prefixed strings and a
//! variable-length integer encoding; readers consume from the cursor and
//! fail with [`DecodeError::Truncated`] when the buffer runs out.

use vstd::prelude::*;
use crate::types::DecodeError;
use crate::utf8::{is_utf8, validate_utf8};

verus! {

/// The two big-endian bytes of a 16-bit value.
pub open spec fn be2(v: u16) -> Seq<u8> {
    seq![(v >> 8) as u8, v as u8]
}

/// The four big-endian bytes of a 32-bit value.
pub open spec fn be4(v: u32) -> Seq<u8> {
    seq![(v >> 24) as u8, (v >> 16) as u8, (v >> 8) as u8, v as u8]
}

/// The eight big-endian bytes of a 64-bit value.
pub open spec fn be8(v: u64) -> Seq<u8> {
    seq![
        (v >> 56) as u8,
        (v >> 48) as u8,
        (v >> 40) as u8,
        (v >> 32) as u8,
        (v >> 24) as u8,
        (v >> 16) as u8,
        (v >> 8) as u8,
        v as u8,
    ]
}

/// The 16-bit value read from two big-endian bytes.
pub open spec fn from2(b0: u8, b1: u8) -> u16 {
    ((b0 as u16) << 8) | (b1 as u16)
}

/// The 32-bit value read from four big-endian bytes.
pub open spec fn from4(b0: u8, b1: u8, b2: u8, b3: u8) -> u32 {
    ((b0 as u32) << 24) | ((b1 as u32) << 16) | ((b2 as u32) << 8) | (b3 as u32)
}

/// The 64-bit value read from eight big-endian bytes.
pub open spec fn from8(b0: u8, b1: u8, b2: u8, b3: u8, b4: u8, b5: u8, b6: u8, b7: u8) -> u64 {
    ((b0 as u64) << 56) | ((b1 as u64) << 48) | ((b2 as u64) << 40) | ((b3 as u64) << 32)
        | ((b4 as u64) << 24) | ((b5 as u64) << 16) | ((b6 as u64) << 8) | (b7 as u64)
}

/// Reading back the big-endian bytes of a 16-bit value gives it back.
pub proof fn lemma_be2_round(v: u16)
    ensures
        from2(be2(v)[0], be2(v)[1]) == v,
{
    assert(((((v >> 8) as u8) as u16) << 8) | ((v as u8) as u16) == v) by (bit_vector);
}

/// Reading back the big-endian bytes of a 32-bit value gives it back.
pub proof fn lemma_be4_round(v: u32)
    ensures
        from4(be4(v)[0], be4(v)[1], be4(v)[2], be4(v)[3]) == v,
{
    assert(((((v >> 24) as u8) as u32) << 24) | ((((v >> 16) as u8) as u32) << 16)
        | ((((v >> 8) as u8) as u32) << 8) | ((v as u8) as u32) == v) by (bit_vector);
}

/// Reading back the big-endian bytes of a 64-bit value gives it back.
pub proof fn lemma_be8_round(v: u64)
    ensures
        from8(be8(v)[0], be8(v)[1], be8(v)[2], be8(v)[3], be8(v)[4], be8(v)[5], be8(v)[6],
            be8(v)[7]) == v,
{
    assert(((((v >> 56) as u8) as u64) << 56) | ((((v >> 48) as u8) as u64) << 48)
        | ((((v >> 40) as u8) as u64) << 40) | ((((v >> 32) as u8) as u64) << 32)
        | ((((v >> 24) as u8) as u64) << 24) | ((((v >> 16) as u8) as u64) << 16)
        | ((((v >> 8) as u8) as u64) << 8) | ((v as u8) as u64) == v) by (bit_vector);
}

/// The variable-length encoding of a non-negative value: seven payload bits
/// per byte, least significant group first, high bit set on every byte that
/// has a non-zero remainder following it.  Zero encodes to nothing.
pub open spec fn varint_bytes(v: int) -> Seq<u8>
    decreases v, when v >= 0
{
    if v <= 0 {
        Seq::empty()
    } else {
        let low = v % 128;
        let rest = v / 128;
        let byte: u8 = if rest != 0 {
            (low + 128) as u8
        } else {
            low as u8
        };
        seq![byte] + varint_bytes(rest)
    }
}

/// The long variable-length encoding.  It marks continuation on every byte
/// whose remainder is not exactly one, an idiosyncrasy kept for wire
/// compatibility.
pub open spec fn varlong_bytes(v: int) -> Seq<u8>
    decreases v, when v >= 0
{
    if v <= 0 {
        Seq::empty()
    } else {
        let low = v % 128;
        let rest = v / 128;
        let byte: u8 = if rest != 1 {
            (low + 128) as u8
        } else {
            low as u8
        };
        seq![byte] + varlong_bytes(rest)
    }
}

/// A 16-bit length prefix followed by the string's bytes.
pub open spec fn str16_bytes(s: Seq<u8>) -> Seq<u8> {
    be2(s.len() as u16) + s
}

/// Append-only byte writer and cursor-based reader over one `Vec<u8>`.
pub struct StreamPeerBuffer {
    /// The bytes written so far (writes append; reads do not consume).
    pub data: Vec<u8>,
    /// The read cursor, an index into `data`.
    pub pos: usize,
}

impl StreamPeerBuffer {
    /// The read cursor never passes the end of the buffer.
    pub open spec fn wf(&self) -> bool {
        self.pos <= self.data@.len()
    }

    /// An empty buffer with the cursor at the start.
    pub fn new() -> (r: Self)
        ensures
            r.data@ == Seq::<u8>::empty(),
            r.pos == 0,
            r.wf(),
    {
        Self { data: Vec::new(), pos: 0 }
    }

    /// Replace the contents and rewind the cursor.
    pub fn set_data_array(&mut self, new_data: Vec<u8>)
        ensures
            final(self).data@ == new_data@,
            final(self).pos == 0,
            final(self).wf(),
    {
        self.data = new_data;
        self.pos = 0;
    }

    /// Append one byte.
    pub fn put_u8(&mut self, value: u8)
        ensures
            final(self).data@ == old(self).data@ + seq![value],
            final(self).pos == old(self).pos,
    {
        self.data.push(value);
        proof {
            assert(self.data@ =~= old(self).data@ + seq![value]);
        }
    }

    /// Append a 16-bit value, big endian.
    pub fn put_u16(&mut self, value: u16)
        ensures
            final(self).data@ == old(self).data@ + be2(value),
            final(self).pos == old(self).pos,
    {
        self.data.push((value >> 8) as u8);
        self.data.push(value as u8);
        proof {
            assert(self.data@ =~= old(self).data@ + be2(value));
        }
    }

    /// Append a 32-bit value, big endian.
    pub fn put_u32(&mut self, value: u32)
        ensures
            final(self).data@ == old(self).data@ + be4(value),
            final(self).pos == old(self).pos,
    {
        self.data.push((value >> 24) as u8);
        self.data.push((value >> 16) as u8);
        self.data.push((value >> 8) as u8);
        self.data.push(value as u8);
        proof {
            assert(self.data@ =~= old(self).data@ + be4(value));
        }
    }

    /// Append a 64-bit value, big endian.
    pub fn put_u64(&mut self, value: u64)
        ensures
            final(self).data@ == old(self).data@ + be8(value),
            final(self).pos == old(self).pos,
    {
        self.data.push((value >> 56) as u8);
        self.data.push((value >> 48) as u8);
        self.data.push((value >> 40) as u8);
        self.data.push((value >> 32) as u8);
        self.data.push((value >> 24) as u8);
        self.data.push((value >> 16) as u8);
        self.data.push((value >> 8) as u8);
        self.data.push(value as u8);
        proof {
            assert(self.data@ =~= old(self).data@ + be8(value));
        }
    }

    /// Append a signed byte, two's complement.
    pub fn put_8(&mut self, value: i8)
        ensures
            final(self).data@ == old(self).data@ + seq![value as u8],
            final(self).pos == old(self).pos,
    {
        self.put_u8(value as u8);
    }

    /// Append a signed 16-bit value, big endian two's complement.
    pub fn put_16(&mut self, value: i16)
        ensures
            final(self).data@ == old(self).data@ + be2(value as u16),
            final(self).pos == old(self).pos,
    {
        self.put_u16(value as u16);
    }

    /// Append a signed 32-bit value, big endian two's complement.
    pub fn put_32(&mut self, value: i32)
        ensures
            final(self).data@ == old(self).data@ + be4(value as u32),
            final(self).pos == old(self).pos,
    {
        self.put_u32(value as u32);
    }

    /// Append a signed 64-bit value, big endian two's complement.
    pub fn put_64(&mut self, value: i64)
        ensures
            final(self).data@ == old(self).data@ + be8(value as u64),
            final(self).pos == old(self).pos,
    {
        self.put_u64(value as u64);
    }

    /// Append the variable-length encoding of a non-negative value.
    pub fn put_varint_mc(&mut self, value: i32)
        requires
            value >= 0,
        ensures
            final(self).data@ == old(self).data@ + varint_bytes(value as int),
            final(self).pos == old(self).pos,
    {
        let ghost d0 = self.data@;
        let ghost p0 = self.pos;
        let mut v: u32 = value as u32;
        while v != 0
            invariant
                self.pos == p0,
                self.data@ + varint_bytes(v as int) == d0 + varint_bytes(value as int),
            decreases v,
        {
            let mut temp: u8 = (v & 0x7F) as u8;
            let next: u32 = v >> 7;
            if next != 0 {
                temp = temp | 0x80;
            }
            proof {
                assert(v >> 7 == v / 128 && v & 0x7F == v % 128) by (bit_vector);
                assert((((v % 128) as u8) | 0x80) == ((v % 128) + 128) as u8) by (bit_vector);
                assert(varint_bytes(v as int) == seq![temp] + varint_bytes(next as int));
                assert((self.data@ + seq![temp]) + varint_bytes(next as int) =~= self.data@
                    + varint_bytes(v as int));
            }
            self.put_u8(temp);
            v = next;
        }
        proof {
            assert(self.data@ + varint_bytes(0int) =~= self.data@);
        }
    }

    /// Append the long variable-length encoding of a non-negative value.
    pub fn put_varlong(&mut self, value: i64)
        requires
            value >= 0,
        ensures
            final(self).data@ == old(self).data@ + varlong_bytes(value as int),
            final(self).pos == old(self).pos,
    {
        let ghost d0 = self.data@;
        let ghost p0 = self.pos;
        let mut v: u64 = value as u64;
        while v != 0
            invariant
                self.pos == p0,
                self.data@ + varlong_bytes(v as int) == d0 + varlong_bytes(value as int),
            decreases v,
        {
            let mut temp: u8 = (v & 0x7F) as u8;
            let next: u64 = v >> 7;
            if next != 1 {
                temp = temp | 0x80;
            }
            proof {
                assert(v >> 7 == v / 128 && v & 0x7F == v % 128) by (bit_vector);
                assert((((v % 128) as u8) | 0x80) == ((v % 128) + 128) as u8) by (bit_vector);
                assert(varlong_bytes(v as int) == seq![temp] + varlong_bytes(next as int));
                assert((self.data@ + seq![temp]) + varlong_bytes(next as int) =~= self.data@
                    + varlong_bytes(v as int));
            }
            self.put_u8(temp);
            v = next;
        }
        proof {
            assert(self.data@ + varlong_bytes(0int) =~= self.data@);
        }
    }

    /// Append a string as its variable-length-encoded byte count followed by
    /// its bytes.
    pub fn put_varint_utf8(&mut self, value: &[u8])
        requires
            value@.len() <= 0x7FFF_FFFF,
        ensures
            final(self).data@ == old(self).data@ + varint_bytes(value@.len() as int) + value@,
            final(self).pos == old(self).pos,
    {
        self.put_varint_mc(value.len() as i32);
        let ghost mid = self.data@;
        let mut i: usize = 0;
        while i < value.len()
            invariant
                i <= value@.len(),
                self.pos == old(self).pos,
                self.data@ == mid + value@.take(i as int),
                mid == old(self).data@ + varint_bytes(value@.len() as int),
            decreases value@.len() - i,
        {
            self.put_u8(value[i]);
            proof {
                assert(mid + value@.take(i as int) + seq![value@[i as int]] =~= mid
                    + value@.take(i as int + 1));
            }
            i = i + 1;
        }
        proof {
            assert(value@.take(value@.len() as int) =~= value@);
        }
    }

    /// Append a string as a 16-bit byte count followed by its bytes.
    pub fn put_utf8(&mut self, value: &[u8])
        requires
            value@.len() <= 0xFFFF,
        ensures
            final(self).data@ == old(self).data@ + str16_bytes(value@),
            final(self).pos == old(self).pos,
    {
        self.put_u16(value.len() as u16);
        let ghost mid = self.data@;
        let mut i: usize = 0;
        while i < value.len()
            invariant
                i <= value@.len(),
                self.pos == old(self).pos,
                self.data@ == mid + value@.take(i as int),
                mid == old(self).data@ + be2(value@.len() as u16),
            decreases value@.len() - i,
        {
            self.put_u8(value[i]);
            proof {
                assert(mid + value@.take(i as int) + seq![value@[i as int]] =~= mid
                    + value@.take(i as int + 1));
            }
            i = i + 1;
        }
        proof {
            assert(value@.take(value@.len() as int) =~= value@);
            assert(old(self).data@ + be2(value@.len() as u16) + value@ =~= old(self).data@
                + str16_bytes(value@));
        }
    }

    /// Read one byte at the cursor.
    pub fn get_u8(&mut self) -> (r: Result<u8, DecodeError>)
        requires
            old(self).wf(),
        ensures
            final(self).data@ == old(self).data@,
            final(self).wf(),
            old(self).pos + 1 <= old(self).data@.len() ==> r == Ok::<u8, DecodeError>(
                old(self).data@[old(self).pos as int]) && final(self).pos == old(self).pos + 1,
            old(self).pos + 1 > old(self).data@.len() ==> r == Err::<u8, DecodeError>(
                DecodeError::Truncated) && final(self).pos == old(self).pos,
    {
        if self.data.len() - self.pos < 1 {
            return Err(DecodeError::Truncated);
        }
        let b = self.data[self.pos];
        self.pos = self.pos + 1;
        Ok(b)
    }

    /// Read a big-endian 16-bit value at the cursor.
    pub fn get_u16(&mut self) -> (r: Result<u16, DecodeError>)
        requires
            old(self).wf(),
        ensures
            final(self).data@ == old(self).data@,
            final(self).wf(),
            old(self).pos + 2 <= old(self).data@.len() ==> r == Ok::<u16, DecodeError>(
                from2(old(self).data@[old(self).pos as int], old(self).data@[old(self).pos + 1]))
                && final(self).pos == old(self).pos + 2,
            old(self).pos + 2 > old(self).data@.len() ==> r == Err::<u16, DecodeError>(
                DecodeError::Truncated) && final(self).pos == old(self).pos,
    {
        if self.data.len() - self.pos < 2 {
            return Err(DecodeError::Truncated);
        }
        let b0 = self.data[self.pos];
        let b1 = self.data[self.pos + 1];
        self.pos = self.pos + 2;
        Ok(((b0 as u16) << 8) | (b1 as u16))
    }

    /// Read a big-endian 32-bit value at the cursor.
    pub fn get_u32(&mut self) -> (r: Result<u32, DecodeError>)
        requires
            old(self).wf(),
        ensures
            final(self).data@ == old(self).data@,
            final(self).wf(),
            old(self).pos + 4 <= old(self).data@.len() ==> r == Ok::<u32, DecodeError>(
                from4(old(self).data@[old(self).pos as int], old(self).data@[old(self).pos + 1],
                    old(self).data@[old(self).pos + 2], old(self).data@[old(self).pos + 3]))
                && final(self).pos == old(self).pos + 4,
            old(self).pos + 4 > old(self).data@.len() ==> r == Err::<u32, DecodeError>(
                DecodeError::Truncated) && final(self).pos == old(self).pos,
    {
        if self.data.len() - self.pos < 4 {
            return Err(DecodeError::Truncated);
        }
        let b0 = self.data[self.pos];
        let b1 = self.data[self.pos + 1];
        let b2 = self.data[self.pos + 2];
        let b3 = self.data[self.pos + 3];
        self.pos = self.pos + 4;
        Ok(((b0 as u32) << 24) | ((b1 as u32) << 16) | ((b2 as u32) << 8) | (b3 as u32))
    }

    /// Read a big-endian 64-bit value at the cursor.
    pub fn get_u64(&mut self) -> (r: Result<u64, DecodeError>)
        requires
            old(self).wf(),
        ensures
            final(self).data@ == old(self).data@,
            final(self).wf(),
            old(self).pos + 8 <= old(self).data@.len() ==> r == Ok::<u64, DecodeError>(
                from8(old(self).data@[old(self).pos as int], old(self).data@[old(self).pos + 1],
                    old(self).data@[old(self).pos + 2], old(self).data@[old(self).pos + 3],
                    old(self).data@[old(self).pos + 4], old(self).data@[old(self).pos + 5],
                    old(self).data@[old(self).pos + 6], old(self).data@[old(self).pos + 7]))
                && final(self).pos == old(self).pos + 8,
            old(self).pos + 8 > old(self).data@.len() ==> r == Err::<u64, DecodeError>(
                DecodeError::Truncated) && final(self).pos == old(self).pos,
    {
        if self.data.len() - self.pos < 8 {
            return Err(DecodeError::Truncated);
        }
        let b0 = self.data[self.pos];
        let b1 = self.data[self.pos + 1];
        let b2 = self.data[self.pos + 2];
        let b3 = self.data[self.pos + 3];
        let b4 = self.data[self.pos + 4];
        let b5 = self.data[self.pos + 5];
        let b6 = self.data[self.pos + 6];
        let b7 = self.data[self.pos + 7];
        self.pos = self.pos + 8;
        Ok(((b0 as u64) << 56) | ((b1 as u64) << 48) | ((b2 as u64) << 40) | ((b3 as u64) << 32)
            | ((b4 as u64) << 24) | ((b5 as u64) << 16) | ((b6 as u64) << 8) | (b7 as u64))
    }

    /// Read a signed byte at the cursor.
    pub fn get_8(&mut self) -> (r: Result<i8, DecodeError>)
        requires
            old(self).wf(),
        ensures
            final(self).data@ == old(self).data@,
            final(self).wf(),
            old(self).pos + 1 <= old(self).data@.len() ==> r == Ok::<i8, DecodeError>(
                old(self).data@[old(self).pos as int] as i8) && final(self).pos == old(self).pos
                + 1,
            old(self).pos + 1 > old(self).data@.len() ==> r == Err::<i8, DecodeError>(
                DecodeError::Truncated) && final(self).pos == old(self).pos,
    {
        match self.get_u8() {
            Ok(b) => Ok(b as i8),
            Err(e) => Err(e),
        }
    }

    /// Read a big-endian signed 16-bit value at the cursor.
    pub fn get_16(&mut self) -> (r: Result<i16, DecodeError>)
        requires
            old(self).wf(),
        ensures
            final(self).data@ == old(self).data@,
            final(self).wf(),
            old(self).pos + 2 <= old(self).data@.len() ==> r == Ok::<i16, DecodeError>(
                from2(old(self).data@[old(self).pos as int], old(self).data@[old(self).pos + 1])
                    as i16) && final(self).pos == old(self).pos + 2,
            old(self).pos + 2 > old(self).data@.len() ==> r == Err::<i16, DecodeError>(
                DecodeError::Truncated) && final(self).pos == old(self).pos,
    {
        match self.get_u16() {
            Ok(v) => Ok(v as i16),
            Err(e) => Err(e),
        }
    }

    /// Read a big-endian signed 32-bit value at the cursor.
    pub fn get_32(&mut self) -> (r: Result<i32, DecodeError>)
        requires
            old(self).wf(),
        ensures
            final(self).data@ == old(self).data@,
            final(self).wf(),
            old(self).pos + 4 <= old(self).data@.len() ==> r == Ok::<i32, DecodeError>(
                from4(old(self).data@[old(self).pos as int], old(self).data@[old(self).pos + 1],
                    old(self).data@[old(self).pos + 2], old(self).data@[old(self).pos + 3]) as i32)
                && final(self).pos == old(self).pos + 4,
            old(self).pos + 4 > old(self).data@.len() ==> r == Err::<i32, DecodeError>(
                DecodeError::Truncated) && final(self).pos == old(self).pos,
    {
        match self.get_u32() {
            Ok(v) => Ok(v as i32),
            Err(e) => Err(e),
        }
    }

    /// Read a big-endian signed 64-bit value at the cursor.
    pub fn get_64(&mut self) -> (r: Result<i64, DecodeError>)
        requires
            old(self).wf(),
        ensures
            final(self).data@ == old(self).data@,
            final(self).wf(),
            old(self).pos + 8 <= old(self).data@.len() ==> r == Ok::<i64, DecodeError>(
                from8(old(self).data@[old(self).pos as int], old(self).data@[old(self).pos + 1],
                    old(self).data@[old(self).pos + 2], old(self).data@[old(self).pos + 3],
                    old(self).data@[old(self).pos + 4], old(self).data@[old(self).pos + 5],
                    old(self).data@[old(self).pos + 6], old(self).data@[old(self).pos + 7]) as i64)
                && final(self).pos == old(self).pos + 8,
            old(self).pos + 8 > old(self).data@.len() ==> r == Err::<i64, DecodeError>(
                DecodeError::Truncated) && final(self).pos == old(self).pos,
    {
        match self.get_u64() {
            Ok(v) => Ok(v as i64),
            Err(e) => Err(e),
        }
    }

    /// Read a 16-bit length prefix and that many bytes, and accept them only
    /// as well-formed UTF-8.  On any failure the cursor does not move.
    pub fn get_utf8(&mut self) -> (r: Result<Vec<u8>, DecodeError>)
        requires
            old(self).wf(),
        ensures
            final(self).data@ == old(self).data@,
            final(self).wf(),
            ({
                let p = old(self).pos as int;
                let d = old(self).data@;
                if p + 2 > d.len() {
                    r == Err::<Vec<u8>, DecodeError>(DecodeError::Truncated) && final(self).pos
                        == old(self).pos
                } else {
                    let n = from2(d[p], d[p + 1]) as int;
                    if p + 2 + n > d.len() {
                        r == Err::<Vec<u8>, DecodeError>(DecodeError::Truncated) && final(self).pos
                            == old(self).pos
                    } else if !is_utf8(d.subrange(p + 2, p + 2 + n)) {
                        r == Err::<Vec<u8>, DecodeError>(DecodeError::InvalidUtf8)
                            && final(self).pos == old(self).pos
                    } else {
                        r matches Ok(s) && s@ == d.subrange(p + 2, p + 2 + n) && final(self).pos
                            == p + 2 + n
                    }
                }
            }),
    {
        let p = self.pos;
        if self.data.len() - p < 2 {
            return Err(DecodeError::Truncated);
        }
        let b0 = self.data[p];
        let b1 = self.data[p + 1];
        let n = (((b0 as u16) << 8) | (b1 as u16)) as usize;
        if self.data.len() - (p + 2) < n {
            return Err(DecodeError::Truncated);
        }
        let mut out: Vec<u8> = Vec::new();
        let mut i: usize = 0;
        while i < n
            invariant
                i <= n,
                p + 2 + n <= self.data@.len(),
                p + 2 + n <= usize::MAX,
                out@ == self.data@.subrange(p as int + 2, p as int + 2 + i as int),
                self.data@ == old(self).data@,
                self.pos == old(self).pos,
                p == old(self).pos,
            decreases n - i,
        {
            out.push(self.data[p + 2 + i]);
            proof {
                assert(self.data@.subrange(p as int + 2, p as int + 2 + i as int)
                    + seq![self.data@[p as int + 2 + i as int]] =~= self.data@.subrange(
                    p as int + 2, p as int + 2 + i as int + 1));
            }
            i = i + 1;
        }
        if validate_utf8(out.as_slice()) {
            self.pos = p + 2 + n;
            Ok(out)
        } else {
            Err(DecodeError::InvalidUtf8)
        }
    }
}

} // verus!
