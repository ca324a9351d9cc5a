//! The byte cursor: a borrowed buffer and a read position inside it.

use vstd::prelude::*;
use vstd::slice::slice_subrange;
use vstd::utf8::{decode_utf8, valid_utf8};
use crate::endian::{le_i16, le_i32, le_u32, read_i16_le, read_i32_le, read_u32_le};
use crate::error::DecodeError;
use crate::strings::{decode_replacing, decode_strict, lossy_text};
use crate::varint::{decode_slice, lemma_varint_len_bounds, varint_len, varint_u32};

verus! {

/// What a cursor is to a contract: the buffer it reads and where it stands.
pub struct Cursor {
    pub bytes: Seq<u8>,
    pub pos: int,
}

/// Whether `n` bytes can be read at `pos` without leaving `bytes`.
pub open spec fn fits(bytes: Seq<u8>, pos: int, n: int) -> bool {
    0 <= pos && 0 <= n && pos + n <= bytes.len()
}

/// Where the bytes of the length-prefixed string at `pos` start, when its length
/// prefix ends inside `bytes`.
pub open spec fn string_start(bytes: Seq<u8>, pos: int) -> int {
    pos + varint_len(bytes, pos)->0
}

/// Whether a length prefix and as many bytes as it announces can be read at `pos`.
pub open spec fn string_fits(bytes: Seq<u8>, pos: int) -> bool {
    varint_len(bytes, pos) is Some && fits(
        bytes,
        string_start(bytes, pos),
        varint_u32(bytes, pos) as int,
    )
}

/// Where the length-prefixed string at `pos` ends.
pub open spec fn string_end(bytes: Seq<u8>, pos: int) -> int {
    string_start(bytes, pos) + varint_u32(bytes, pos)
}

/// A read position over a borrowed buffer. The position never passes the end.
pub struct ReplayReader<'a> {
    pos: usize,
    map: &'a [u8],
}

impl<'a> View for ReplayReader<'a> {
    type V = Cursor;

    closed spec fn view(&self) -> Cursor {
        Cursor { bytes: self.map@, pos: self.pos as int }
    }
}

impl<'a> ReplayReader<'a> {
    #[verifier::type_invariant]
    spec fn in_bounds(&self) -> bool {
        self.pos <= self.map@.len()
    }

    /// A cursor at the start of `map`.
    pub fn new(map: &'a [u8]) -> (reader: Self)
        ensures
            reader@.bytes == map@,
            reader@.pos == 0,
    {
        ReplayReader { pos: 0, map }
    }

    /// The buffer that the cursor reads.
    pub fn buffer(&self) -> (map: &'a [u8])
        ensures
            map@ == self@.bytes,
    {
        self.map
    }

    /// Length of the buffer.
    pub fn len(&self) -> (n: usize)
        ensures
            n == self@.bytes.len(),
    {
        self.map.len()
    }

    /// The read position, which lies inside the buffer or at its end.
    pub fn pos(&self) -> (p: usize)
        ensures
            p == self@.pos,
            p <= self@.bytes.len(),
    {
        proof {
            use_type_invariant(self);
        }
        self.pos
    }

    /// Moves the read position to `pos`, which may be the end of the buffer but
    /// not beyond it.
    pub fn set_pos(&mut self, pos: usize) -> (result: Result<(), DecodeError>)
        ensures
            final(self)@.bytes == old(self)@.bytes,
            pos <= old(self)@.bytes.len() ==> result is Ok && final(self)@.pos == pos,
            pos > old(self)@.bytes.len() ==> result == Err::<(), DecodeError>(
                DecodeError::OutOfBounds,
            ) && final(self)@.pos == old(self)@.pos,
    {
        if pos <= self.map.len() {
            self.pos = pos;
            Ok(())
        } else {
            Err(DecodeError::OutOfBounds)
        }
    }

    /// The byte `offset` places after the read position, which stays where it is.
    pub fn at_relative_offset(&self, offset: usize) -> (result: Result<u8, DecodeError>)
        ensures
            fits(self@.bytes, self@.pos + offset, 1) ==> result == Ok::<u8, DecodeError>(
                self@.bytes[self@.pos + offset],
            ),
            !fits(self@.bytes, self@.pos + offset, 1) ==> result == Err::<u8, DecodeError>(
                DecodeError::OutOfBounds,
            ),
    {
        proof {
            use_type_invariant(self);
        }
        if offset < self.map.len() - self.pos {
            Ok(self.map[self.pos + offset])
        } else {
            Err(DecodeError::OutOfBounds)
        }
    }

    /// Reads one byte.
    pub fn read_u8(&mut self) -> (result: Result<u8, DecodeError>)
        ensures
            final(self)@.bytes == old(self)@.bytes,
            position_after(old(self)@.bytes, old(self)@.pos, Read::U8) == (if result is Ok {
                Some(final(self)@.pos)
            } else {
                None
            }),
            fits(old(self)@.bytes, old(self)@.pos, 1) ==> result == Ok::<u8, DecodeError>(
                old(self)@.bytes[old(self)@.pos],
            ) && final(self)@.pos == old(self)@.pos + 1,
            !fits(old(self)@.bytes, old(self)@.pos, 1) ==> result == Err::<u8, DecodeError>(
                DecodeError::OutOfBounds,
            ) && final(self)@.pos == old(self)@.pos,
    {
        proof {
            use_type_invariant(&*self);
        }
        if self.pos < self.map.len() {
            let byte = self.map[self.pos];
            self.pos = self.pos + 1;
            Ok(byte)
        } else {
            Err(DecodeError::OutOfBounds)
        }
    }

    /// Reads a signed integer of four bytes, lowest byte first.
    pub fn read_i32(&mut self) -> (result: Result<i32, DecodeError>)
        ensures
            final(self)@.bytes == old(self)@.bytes,
            position_after(old(self)@.bytes, old(self)@.pos, Read::I32) == (if result is Ok {
                Some(final(self)@.pos)
            } else {
                None
            }),
            fits(old(self)@.bytes, old(self)@.pos, 4) ==> (result matches Ok(v) && v == le_i32(
                old(self)@.bytes,
                old(self)@.pos,
            ) && final(self)@.pos == old(self)@.pos + 4),
            !fits(old(self)@.bytes, old(self)@.pos, 4) ==> result == Err::<i32, DecodeError>(
                DecodeError::OutOfBounds,
            ) && final(self)@.pos == old(self)@.pos,
    {
        proof {
            use_type_invariant(&*self);
        }
        if self.map.len() - self.pos >= 4 {
            let v = read_i32_le(slice_subrange(self.map, self.pos, self.pos + 4));
            self.pos = self.pos + 4;
            Ok(v)
        } else {
            Err(DecodeError::OutOfBounds)
        }
    }

    /// Reads an unsigned integer of four bytes, lowest byte first.
    pub fn read_u32(&mut self) -> (result: Result<u32, DecodeError>)
        ensures
            final(self)@.bytes == old(self)@.bytes,
            position_after(old(self)@.bytes, old(self)@.pos, Read::U32) == (if result is Ok {
                Some(final(self)@.pos)
            } else {
                None
            }),
            fits(old(self)@.bytes, old(self)@.pos, 4) ==> (result matches Ok(v) && v == le_u32(
                old(self)@.bytes,
                old(self)@.pos,
            ) && final(self)@.pos == old(self)@.pos + 4),
            !fits(old(self)@.bytes, old(self)@.pos, 4) ==> result == Err::<u32, DecodeError>(
                DecodeError::OutOfBounds,
            ) && final(self)@.pos == old(self)@.pos,
    {
        proof {
            use_type_invariant(&*self);
        }
        if self.map.len() - self.pos >= 4 {
            let v = read_u32_le(slice_subrange(self.map, self.pos, self.pos + 4));
            self.pos = self.pos + 4;
            Ok(v)
        } else {
            Err(DecodeError::OutOfBounds)
        }
    }

    /// Reads a signed integer of two bytes, lowest byte first.
    pub fn read_i16(&mut self) -> (result: Result<i16, DecodeError>)
        ensures
            final(self)@.bytes == old(self)@.bytes,
            position_after(old(self)@.bytes, old(self)@.pos, Read::I16) == (if result is Ok {
                Some(final(self)@.pos)
            } else {
                None
            }),
            fits(old(self)@.bytes, old(self)@.pos, 2) ==> (result matches Ok(v) && v == le_i16(
                old(self)@.bytes,
                old(self)@.pos,
            ) && final(self)@.pos == old(self)@.pos + 2),
            !fits(old(self)@.bytes, old(self)@.pos, 2) ==> result == Err::<i16, DecodeError>(
                DecodeError::OutOfBounds,
            ) && final(self)@.pos == old(self)@.pos,
    {
        proof {
            use_type_invariant(&*self);
        }
        if self.map.len() - self.pos >= 2 {
            let v = read_i16_le(slice_subrange(self.map, self.pos, self.pos + 2));
            self.pos = self.pos + 2;
            Ok(v)
        } else {
            Err(DecodeError::OutOfBounds)
        }
    }

    /// Reads a variable-length integer.
    pub fn read_varint(&mut self) -> (result: Result<u32, DecodeError>)
        ensures
            final(self)@.bytes == old(self)@.bytes,
            position_after(old(self)@.bytes, old(self)@.pos, Read::Varint) == (if result is Ok {
                Some(final(self)@.pos)
            } else {
                None
            }),
            match varint_len(old(self)@.bytes, old(self)@.pos) {
                Some(n) => result == Ok::<u32, DecodeError>(
                    varint_u32(old(self)@.bytes, old(self)@.pos),
                ) && final(self)@.pos == old(self)@.pos + n,
                None => result == Err::<u32, DecodeError>(DecodeError::OutOfBounds)
                    && final(self)@.pos == old(self)@.pos,
            },
    {
        let mut index: usize = self.pos;
        let result = decode_slice(self.map, &mut index);
        proof {
            if result is Ok {
                lemma_varint_len_bounds(self.map@, self.pos as int);
            }
        }
        if result.is_ok() {
            self.pos = index;
        }
        result
    }

    /// Reads a string that is prefixed with its length in bytes as a variable-length
    /// integer. Malformed UTF-8 in it is replaced, not refused.
    pub fn read_string(&mut self) -> (result: Result<String, DecodeError>)
        ensures
            final(self)@.bytes == old(self)@.bytes,
            position_after(old(self)@.bytes, old(self)@.pos, Read::Text) == (if result is Ok {
                Some(final(self)@.pos)
            } else {
                None
            }),
            string_fits(old(self)@.bytes, old(self)@.pos) ==> (result matches Ok(text)
                && text@ == lossy_text(
                old(self)@.bytes.subrange(
                    string_start(old(self)@.bytes, old(self)@.pos),
                    string_end(old(self)@.bytes, old(self)@.pos),
                ),
            ) && final(self)@.pos == string_end(old(self)@.bytes, old(self)@.pos)),
            !string_fits(old(self)@.bytes, old(self)@.pos) ==> (result matches Err(e) && e
                == DecodeError::OutOfBounds && final(self)@.pos == old(self)@.pos),
    {
        proof {
            use_type_invariant(&*self);
        }
        let mut start: usize = self.pos;
        let length = match decode_slice(self.map, &mut start) {
            Ok(length) => length,
            Err(e) => {
                return Err(e);
            },
        };
        proof {
            lemma_varint_len_bounds(self.map@, self.pos as int);
        }
        if length as usize > self.map.len() - start {
            return Err(DecodeError::OutOfBounds);
        }
        let end: usize = start + length as usize;
        let text = decode_replacing(slice_subrange(self.map, start, end));
        self.pos = end;
        Ok(text)
    }

    /// Reads `strlength` bytes as a string. Malformed UTF-8 in them is refused.
    pub fn read_string_with_length(&mut self, strlength: usize) -> (result: Result<
        String,
        DecodeError,
    >)
        ensures
            final(self)@.bytes == old(self)@.bytes,
            position_after(old(self)@.bytes, old(self)@.pos, Read::TextOfLength(strlength as nat)) == (if result is Ok {
                Some(final(self)@.pos)
            } else {
                None
            }),
            !fits(old(self)@.bytes, old(self)@.pos, strlength as int) ==> (result matches Err(e)
                && e == DecodeError::OutOfBounds && final(self)@.pos == old(self)@.pos),
            fits(old(self)@.bytes, old(self)@.pos, strlength as int) && !valid_utf8(
                old(self)@.bytes.subrange(old(self)@.pos, old(self)@.pos + strlength),
            ) ==> (result matches Err(e) && e == DecodeError::InvalidText && final(self)@.pos
                == old(self)@.pos),
            fits(old(self)@.bytes, old(self)@.pos, strlength as int) && valid_utf8(
                old(self)@.bytes.subrange(old(self)@.pos, old(self)@.pos + strlength),
            ) ==> (result matches Ok(text) && text@ == decode_utf8(
                old(self)@.bytes.subrange(old(self)@.pos, old(self)@.pos + strlength),
            ) && final(self)@.pos == old(self)@.pos + strlength),
    {
        proof {
            use_type_invariant(&*self);
        }
        if strlength > self.map.len() - self.pos {
            return Err(DecodeError::OutOfBounds);
        }
        let end: usize = self.pos + strlength;
        match decode_strict(slice_subrange(self.map, self.pos, end)) {
            Some(text) => {
                self.pos = end;
                Ok(text)
            },
            None => Err(DecodeError::InvalidText),
        }
    }
}

/// One read of the cursor, for statements about sequences of reads.
pub enum Read {
    U8,
    I16,
    I32,
    U32,
    Varint,
    Text,
    TextOfLength(nat),
}

/// Where the cursor stands after `read` succeeded at `pos`; `None` when it fails.
pub open spec fn position_after(bytes: Seq<u8>, pos: int, read: Read) -> Option<int> {
    match read {
        Read::U8 => if fits(bytes, pos, 1) {
            Some(pos + 1)
        } else {
            None
        },
        Read::I16 => if fits(bytes, pos, 2) {
            Some(pos + 2)
        } else {
            None
        },
        Read::I32 | Read::U32 => if fits(bytes, pos, 4) {
            Some(pos + 4)
        } else {
            None
        },
        Read::Varint => match varint_len(bytes, pos) {
            Some(n) => Some(pos + n),
            None => None,
        },
        Read::Text => if string_fits(bytes, pos) {
            Some(string_end(bytes, pos))
        } else {
            None
        },
        Read::TextOfLength(n) => if fits(bytes, pos, n as int) && valid_utf8(
            bytes.subrange(pos, pos + n),
        ) {
            Some(pos + n)
        } else {
            None
        },
    }
}

/// Where the cursor stands after all of `reads` succeeded in turn from `pos`;
/// `None` when one of them fails.
pub open spec fn position_after_all(bytes: Seq<u8>, pos: int, reads: Seq<Read>) -> Option<int>
    decreases reads.len(),
{
    if reads.len() == 0 {
        Some(pos)
    } else {
        match position_after(bytes, pos, reads[0]) {
            Some(next) => position_after_all(bytes, next, reads.drop_first()),
            None => None,
        }
    }
}

/// Number of bytes that all of `reads` consume in turn from `pos`.
pub open spec fn bytes_consumed(bytes: Seq<u8>, pos: int, reads: Seq<Read>) -> int
    decreases reads.len(),
{
    if reads.len() == 0 {
        0
    } else {
        match position_after(bytes, pos, reads[0]) {
            Some(next) => (next - pos) + bytes_consumed(bytes, next, reads.drop_first()),
            None => 0,
        }
    }
}

/// A read that succeeds never moves the cursor back nor past the end, and only a
/// string of announced length zero leaves it in place.
pub proof fn lemma_read_advances(bytes: Seq<u8>, pos: int, read: Read)
    requires
        0 <= pos <= bytes.len(),
        position_after(bytes, pos, read) is Some,
    ensures
        pos <= position_after(bytes, pos, read)->0 <= bytes.len(),
        read != Read::TextOfLength(0) ==> pos < position_after(bytes, pos, read)->0,
{
    match read {
        Read::Varint => {
            lemma_varint_len_bounds(bytes, pos);
        },
        Read::Text => {
            lemma_varint_len_bounds(bytes, pos);
        },
        _ => {},
    }
}

/// After a sequence of reads that all succeed, the cursor has moved forward by the
/// sum of the bytes they consumed. It has moved at all as soon as one read was made
/// and none of them was a string of announced length zero.
pub proof fn lemma_reads_advance(bytes: Seq<u8>, pos: int, reads: Seq<Read>)
    requires
        0 <= pos <= bytes.len(),
        position_after_all(bytes, pos, reads) is Some,
    ensures
        position_after_all(bytes, pos, reads)->0 == pos + bytes_consumed(bytes, pos, reads),
        pos <= position_after_all(bytes, pos, reads)->0 <= bytes.len(),
        reads.len() > 0 && (forall|i: int| 0 <= i < reads.len() ==> reads[i] != Read::TextOfLength(0))
            ==> pos < position_after_all(bytes, pos, reads)->0,
    decreases reads.len(),
{
    if reads.len() > 0 {
        lemma_read_advances(bytes, pos, reads[0]);
        let next = position_after(bytes, pos, reads[0])->0;
        lemma_reads_advance(bytes, next, reads.drop_first());
        assert forall|i: int| 0 <= i < reads.drop_first().len() implies reads.drop_first()[i]
            == reads[i + 1] by {}
    }
}

} // verus!
