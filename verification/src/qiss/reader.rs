//! Qiss format reader.

use vstd::prelude::*;
use vstd::bytes::*;
use vstd::utf8::*;
use crate::qiss::error::{Error, Result};
use crate::qiss::types::Timestamp;
use crate::qiss::wire::{decode_length_prefixed, le64, lemma_le_roundtrip, take_exact};

verus! {

/// Calls `String::from_utf8`, which succeeds exactly when the bytes are
/// valid UTF-8 and then holds the characters they encode (as the standard
/// library documents).
#[verifier::external_body]
pub(crate) fn string_from_utf8(bytes: Vec<u8>) -> (r: Option<String>)
    ensures
        r is Some <==> valid_utf8(bytes@),
        r matches Some(s) ==> s@ == decode_utf8(bytes@),
{
    String::from_utf8(bytes).ok()
}

/// Qiss format reader: a cursor over a byte slice.
pub struct QissReader<'a> {
    buffer: &'a [u8],
    position: usize,
}

impl<'a> QissReader<'a> {
    /// The bytes the reader reads from.
    pub closed spec fn data(&self) -> Seq<u8> {
        self.buffer@
    }

    /// How many bytes have been read.
    pub closed spec fn pos(&self) -> nat {
        self.position as nat
    }

    /// The reader's cursor stands inside its data.
    pub closed spec fn wf(&self) -> bool {
        self.position <= self.buffer@.len()
    }

    /// A well-formed reader's position is within its data.
    pub proof fn lemma_wf(&self)
        requires
            self.wf(),
        ensures
            self.pos() <= self.data().len(),
    {
    }

    /// The bytes not yet read.
    pub open spec fn rest(&self) -> Seq<u8> {
        self.data().skip(self.pos() as int)
    }

    /// The reader `next` is `self` after `n` more bytes were read.
    pub open spec fn advanced(&self, next: &Self, n: nat) -> bool {
        &&& next.wf()
        &&& next.data() == self.data()
        &&& next.pos() == self.pos() + n
    }

    /// Reads compose: a reader advanced by `n` bytes and then by `m` has
    /// advanced by `n + m` over the same data; its position only grows and
    /// stays within the data, and what remains is the data past it.
    pub proof fn lemma_advances_compose(&self, mid: &Self, last: &Self, n: nat, m: nat)
        requires
            self.advanced(mid, n),
            mid.advanced(last, m),
        ensures
            self.advanced(last, n + m),
            self.pos() <= mid.pos() <= last.pos() <= last.data().len(),
            last.rest().len() == last.data().len() - last.pos(),
    {
        mid.lemma_wf();
        last.lemma_wf();
    }

    /// Create a new reader at the start of `buffer`.
    pub fn new(buffer: &'a [u8]) -> (r: Self)
        ensures
            r.wf(),
            r.data() == buffer@,
            r.pos() == 0,
    {
        QissReader { buffer, position: 0 }
    }

    /// Reads `n` bytes when that many remain.
    fn take(&mut self, n: usize) -> (r: Option<&'a [u8]>)
        requires
            old(self).wf(),
        ensures
            match take_exact(old(self).rest(), n as nat) {
                Some(b) => (r matches Some(s) && s@ == b) && old(self).advanced(final(self), n as nat),
                None => r is None && old(self).advanced(final(self), 0),
            },
    {
        if self.buffer.len() - self.position < n {
            return None;
        }
        let s = &self.buffer[self.position..self.position + n];
        assert(s@ =~= old(self).rest().take(n as int));
        self.position = self.position + n;
        Some(s)
    }

    /// Read a `u8` value.
    pub fn read_u8(&mut self) -> (r: Result<u8>)
        requires
            old(self).wf(),
        ensures
            match take_exact(old(self).rest(), 1) {
                Some(b) => r == Ok::<u8, Error>(b[0]) && old(self).advanced(final(self), 1),
                None => r == Err::<u8, Error>(Error::InsufficientData) && old(self).advanced(
                    final(self),
                    0,
                ),
            },
    {
        match self.take(1) {
            Some(s) => Ok(s[0]),
            None => Err(Error::InsufficientData),
        }
    }

    /// Read a `u16` value (little-endian).
    pub fn read_u16(&mut self) -> (r: Result<u16>)
        requires
            old(self).wf(),
        ensures
            match take_exact(old(self).rest(), 2) {
                Some(b) => r == Ok::<u16, Error>(spec_u16_from_le_bytes(b)) && old(self).advanced(
                    final(self),
                    2,
                ),
                None => r == Err::<u16, Error>(Error::InsufficientData) && old(self).advanced(
                    final(self),
                    0,
                ),
            },
    {
        match self.take(2) {
            Some(s) => Ok(u16_from_le_bytes(s)),
            None => Err(Error::InsufficientData),
        }
    }

    /// Read a `u32` value (little-endian).
    pub fn read_u32(&mut self) -> (r: Result<u32>)
        requires
            old(self).wf(),
        ensures
            match take_exact(old(self).rest(), 4) {
                Some(b) => r == Ok::<u32, Error>(spec_u32_from_le_bytes(b)) && old(self).advanced(
                    final(self),
                    4,
                ),
                None => r == Err::<u32, Error>(Error::InsufficientData) && old(self).advanced(
                    final(self),
                    0,
                ),
            },
    {
        match self.take(4) {
            Some(s) => Ok(u32_from_le_bytes(s)),
            None => Err(Error::InsufficientData),
        }
    }

    /// Read a `u64` value (little-endian).
    pub fn read_u64(&mut self) -> (r: Result<u64>)
        requires
            old(self).wf(),
        ensures
            match take_exact(old(self).rest(), 8) {
                Some(b) => r == Ok::<u64, Error>(spec_u64_from_le_bytes(b)) && old(self).advanced(
                    final(self),
                    8,
                ),
                None => r == Err::<u64, Error>(Error::InsufficientData) && old(self).advanced(
                    final(self),
                    0,
                ),
            },
    {
        match self.take(8) {
            Some(s) => Ok(u64_from_le_bytes(s)),
            None => Err(Error::InsufficientData),
        }
    }

    /// Read an `i8` value: the next byte, reinterpreted.
    pub fn read_i8(&mut self) -> (r: Result<i8>)
        requires
            old(self).wf(),
        ensures
            match take_exact(old(self).rest(), 1) {
                Some(b) => r == Ok::<i8, Error>(b[0] as i8) && old(self).advanced(final(self), 1),
                None => r == Err::<i8, Error>(Error::InsufficientData) && old(self).advanced(
                    final(self),
                    0,
                ),
            },
    {
        let v = self.read_u8()?;
        Ok(v as i8)
    }

    /// Read an `i16` value (little-endian two's complement).
    pub fn read_i16(&mut self) -> (r: Result<i16>)
        requires
            old(self).wf(),
        ensures
            match take_exact(old(self).rest(), 2) {
                Some(b) => r == Ok::<i16, Error>(spec_u16_from_le_bytes(b) as i16) && old(
                    self,
                ).advanced(final(self), 2),
                None => r == Err::<i16, Error>(Error::InsufficientData) && old(self).advanced(
                    final(self),
                    0,
                ),
            },
    {
        let v = self.read_u16()?;
        Ok(v as i16)
    }

    /// Read an `i32` value (little-endian two's complement).
    pub fn read_i32(&mut self) -> (r: Result<i32>)
        requires
            old(self).wf(),
        ensures
            match take_exact(old(self).rest(), 4) {
                Some(b) => r == Ok::<i32, Error>(spec_u32_from_le_bytes(b) as i32) && old(
                    self,
                ).advanced(final(self), 4),
                None => r == Err::<i32, Error>(Error::InsufficientData) && old(self).advanced(
                    final(self),
                    0,
                ),
            },
    {
        let v = self.read_u32()?;
        Ok(v as i32)
    }

    /// Read an `i64` value (little-endian two's complement).
    pub fn read_i64(&mut self) -> (r: Result<i64>)
        requires
            old(self).wf(),
        ensures
            match take_exact(old(self).rest(), 8) {
                Some(b) => r == Ok::<i64, Error>(spec_u64_from_le_bytes(b) as i64) && old(
                    self,
                ).advanced(final(self), 8),
                None => r == Err::<i64, Error>(Error::InsufficientData) && old(self).advanced(
                    final(self),
                    0,
                ),
            },
    {
        let v = self.read_u64()?;
        Ok(v as i64)
    }

    /// Read a boolean: byte 0 is false, 1 is true, any other byte is an
    /// invalid field (and is consumed).
    pub fn read_bool(&mut self) -> (r: Result<bool>)
        requires
            old(self).wf(),
        ensures
            match take_exact(old(self).rest(), 1) {
                Some(b) => old(self).advanced(final(self), 1) && if b[0] == 0 {
                    r == Ok::<bool, Error>(false)
                } else if b[0] == 1 {
                    r == Ok::<bool, Error>(true)
                } else {
                    r == Err::<bool, Error>(Error::InvalidFieldType)
                },
                None => r == Err::<bool, Error>(Error::InsufficientData) && old(self).advanced(
                    final(self),
                    0,
                ),
            },
    {
        let value = self.read_u8()?;
        match value {
            0 => Ok(false),
            1 => Ok(true),
            _ => Err(Error::InvalidFieldType),
        }
    }

    /// Read a length-prefixed body: a `u32` length, then that many bytes.
    /// When the length is read but the body is short, the length stays
    /// consumed.
    fn read_length_prefixed(&mut self) -> (r: Option<&'a [u8]>)
        requires
            old(self).wf(),
        ensures
            final(self).wf(),
            final(self).data() == old(self).data(),
            match decode_length_prefixed(old(self).rest()) {
                Some((body, n)) => (r matches Some(s) && s@ == body) && final(self).pos()
                    == old(self).pos() + n,
                None => r is None,
            },
    {
        let len = match self.read_u32() {
            Ok(len) => len,
            Err(_) => return None,
        };
        proof {
            assert(self.rest() =~= old(self).rest().skip(4));
        }
        self.take(len as usize)
    }

    /// Read a string: a `u32` byte length, then UTF-8 bytes.
    pub fn read_string(&mut self) -> (r: Result<String>)
        requires
            old(self).wf(),
        ensures
            final(self).wf(),
            final(self).data() == old(self).data(),
            match decode_length_prefixed(old(self).rest()) {
                Some((body, n)) => final(self).pos() == old(self).pos() + n && if valid_utf8(
                    body,
                ) {
                    r matches Ok(s) && s@ == decode_utf8(body)
                } else {
                    r == Err::<String, Error>(Error::InvalidUtf8)
                },
                None => r == Err::<String, Error>(Error::InsufficientData),
            },
    {
        match self.read_length_prefixed() {
            Some(s) => match string_from_utf8(vstd::slice::slice_to_vec(s)) {
                Some(st) => Ok(st),
                None => Err(Error::InvalidUtf8),
            },
            None => Err(Error::InsufficientData),
        }
    }

    /// Read a byte array: a `u32` length, then the bytes.
    pub fn read_bytes(&mut self) -> (r: Result<Vec<u8>>)
        requires
            old(self).wf(),
        ensures
            final(self).wf(),
            final(self).data() == old(self).data(),
            match decode_length_prefixed(old(self).rest()) {
                Some((body, n)) => final(self).pos() == old(self).pos() + n && (r matches Ok(v)
                    && v@ == body),
                None => r == Err::<Vec<u8>, Error>(Error::InsufficientData),
            },
    {
        match self.read_length_prefixed() {
            Some(s) => Ok(vstd::slice::slice_to_vec(s)),
            None => Err(Error::InsufficientData),
        }
    }

    /// Read a timestamp: its nanoseconds as a `u64`.
    pub fn read_timestamp(&mut self) -> (r: Result<Timestamp>)
        requires
            old(self).wf(),
        ensures
            match take_exact(old(self).rest(), 8) {
                Some(b) => r == Ok::<Timestamp, Error>(Timestamp(spec_u64_from_le_bytes(b)))
                    && old(self).advanced(final(self), 8),
                None => r == Err::<Timestamp, Error>(Error::InsufficientData) && old(
                    self,
                ).advanced(final(self), 0),
            },
    {
        let nanos = self.read_u64()?;
        Ok(Timestamp::from_nanos(nanos))
    }

    /// Read a slice of `len` bytes.
    pub fn read_slice(&mut self, len: usize) -> (r: Result<&'a [u8]>)
        requires
            old(self).wf(),
        ensures
            match take_exact(old(self).rest(), len as nat) {
                Some(b) => (r matches Ok(s) && s@ == b) && old(self).advanced(final(self), len as nat),
                None => r == Err::<&[u8], Error>(Error::InsufficientData) && old(self).advanced(
                    final(self),
                    0,
                ),
            },
    {
        match self.take(len) {
            Some(s) => Ok(s),
            None => Err(Error::InsufficientData),
        }
    }

    /// The current position in the buffer.
    pub fn position(&self) -> (p: usize)
        ensures
            p == self.pos(),
    {
        self.position
    }

    /// The number of bytes not yet read.
    pub fn remaining(&self) -> (n: usize)
        requires
            self.wf(),
        ensures
            n == self.data().len() - self.pos(),
    {
        self.buffer.len() - self.position
    }

    /// Whether bytes remain to be read.
    pub fn has_remaining(&self) -> (b: bool)
        ensures
            b == (self.pos() < self.data().len()),
    {
        self.position < self.buffer.len()
    }

    /// Skip `len` bytes.
    pub fn skip(&mut self, len: usize) -> (r: Result<()>)
        requires
            old(self).wf(),
        ensures
            if old(self).pos() + len <= old(self).data().len() {
                r == Ok::<(), Error>(()) && old(self).advanced(final(self), len as nat)
            } else {
                r == Err::<(), Error>(Error::InsufficientData) && old(self).advanced(final(self), 0)
            },
    {
        match self.take(len) {
            Some(_) => Ok(()),
            None => Err(Error::InsufficientData),
        }
    }
}

/// What a read gives back of a write: a reader whose remaining bytes begin
/// with the eight bytes `write_timestamp` wrote for `t` reads `t` back and
/// moves past them, whatever follows.
pub proof fn lemma_timestamp_reads_back(t: Timestamp, tail: Seq<u8>)
    ensures
        take_exact(le64(t.0) + tail, 8) == Some(le64(t.0)),
        Timestamp(spec_u64_from_le_bytes(le64(t.0))) == t,
{
    lemma_le_roundtrip();
    assert((le64(t.0) + tail).take(8) =~= le64(t.0));
}

} // verus!
