//! Qiss format writer.

use vstd::prelude::*;
use vstd::bytes::*;
use vstd::utf8::encode_utf8;
use bytes::BytesMut;
use crate::qiss::buffer::{
    bytes_mut_len, bytes_mut_put_slice, bytes_mut_reserve, bytes_mut_view,
};
use crate::qiss::error::{Error, Result};
use crate::qiss::types::Timestamp;
use crate::qiss::wire::{bool_byte, le16, le32, le64, length_prefixed};

verus! {

/// Qiss format writer: appends encoded values to a byte buffer.
pub struct QissWriter {
    buffer: BytesMut,
}

impl View for QissWriter {
    type V = Seq<u8>;

    /// The bytes written so far, after what the buffer held at the start.
    closed spec fn view(&self) -> Seq<u8> {
        bytes_mut_view(self.buffer)
    }
}

impl QissWriter {
    /// Create a writer that appends to `buffer`.
    pub fn new(buffer: BytesMut) -> (w: Self)
        ensures
            w@ == bytes_mut_view(buffer),
    {
        QissWriter { buffer }
    }

    /// Give back the buffer with everything written.
    pub fn into_inner(self) -> (b: BytesMut)
        ensures
            bytes_mut_view(b) == self@,
    {
        self.buffer
    }

    fn put(&mut self, s: &[u8])
        requires
            old(self)@.len() + s@.len() <= isize::MAX,
        ensures
            final(self)@ == old(self)@ + s@,
    {
        bytes_mut_put_slice(&mut self.buffer, s);
    }

    /// Write a `u8` value.
    pub fn write_u8(&mut self, value: u8) -> (r: Result<()>)
        requires
            old(self)@.len() + 1 <= isize::MAX,
        ensures
            r == Ok::<(), Error>(()),
            final(self)@ == old(self)@.push(value),
    {
        let b = [value];
        let s = b.as_slice();
        assert(s@ =~= seq![value]);
        self.put(s);
        assert(self@ =~= old(self)@.push(value));
        Ok(())
    }

    /// Write a `u16` value (little-endian).
    pub fn write_u16(&mut self, value: u16) -> (r: Result<()>)
        requires
            old(self)@.len() + 2 <= isize::MAX,
        ensures
            r == Ok::<(), Error>(()),
            final(self)@ == old(self)@ + le16(value),
    {
        let v = u16_to_le_bytes(value);
        self.put(v.as_slice());
        Ok(())
    }

    /// Write a `u32` value (little-endian).
    pub fn write_u32(&mut self, value: u32) -> (r: Result<()>)
        requires
            old(self)@.len() + 4 <= isize::MAX,
        ensures
            r == Ok::<(), Error>(()),
            final(self)@ == old(self)@ + le32(value),
    {
        let v = u32_to_le_bytes(value);
        self.put(v.as_slice());
        Ok(())
    }

    /// Write a `u64` value (little-endian).
    pub fn write_u64(&mut self, value: u64) -> (r: Result<()>)
        requires
            old(self)@.len() + 8 <= isize::MAX,
        ensures
            r == Ok::<(), Error>(()),
            final(self)@ == old(self)@ + le64(value),
    {
        let v = u64_to_le_bytes(value);
        proof {
            lemma_auto_spec_u64_to_from_le_bytes();
        }
        self.put(v.as_slice());
        Ok(())
    }

    /// Write an `i8` value as its byte.
    pub fn write_i8(&mut self, value: i8) -> (r: Result<()>)
        requires
            old(self)@.len() + 1 <= isize::MAX,
        ensures
            r == Ok::<(), Error>(()),
            final(self)@ == old(self)@.push(value as u8),
    {
        self.write_u8(value as u8)
    }

    /// Write an `i16` value (little-endian two's complement).
    pub fn write_i16(&mut self, value: i16) -> (r: Result<()>)
        requires
            old(self)@.len() + 2 <= isize::MAX,
        ensures
            r == Ok::<(), Error>(()),
            final(self)@ == old(self)@ + le16(value as u16),
    {
        self.write_u16(value as u16)
    }

    /// Write an `i32` value (little-endian two's complement).
    pub fn write_i32(&mut self, value: i32) -> (r: Result<()>)
        requires
            old(self)@.len() + 4 <= isize::MAX,
        ensures
            r == Ok::<(), Error>(()),
            final(self)@ == old(self)@ + le32(value as u32),
    {
        self.write_u32(value as u32)
    }

    /// Write an `i64` value (little-endian two's complement).
    pub fn write_i64(&mut self, value: i64) -> (r: Result<()>)
        requires
            old(self)@.len() + 8 <= isize::MAX,
        ensures
            r == Ok::<(), Error>(()),
            final(self)@ == old(self)@ + le64(value as u64),
    {
        self.write_u64(value as u64)
    }

    /// Write a boolean as the byte 1 or 0.
    pub fn write_bool(&mut self, value: bool) -> (r: Result<()>)
        requires
            old(self)@.len() + 1 <= isize::MAX,
        ensures
            r == Ok::<(), Error>(()),
            final(self)@ == old(self)@.push(bool_byte(value)),
    {
        self.write_u8(if value {
            1
        } else {
            0
        })
    }

    /// Write a string: its UTF-8 byte length as a `u32`, then the bytes.
    pub fn write_string(&mut self, value: &str) -> (r: Result<()>)
        requires
            old(self)@.len() + 4 + encode_utf8(value@).len() <= isize::MAX,
        ensures
            r == Ok::<(), Error>(()),
            final(self)@ == old(self)@ + length_prefixed(encode_utf8(value@)),
    {
        let bytes = value.as_bytes();
        self.write_bytes(bytes)
    }

    /// Write a byte array: its length as a `u32`, then the bytes.
    pub fn write_bytes(&mut self, value: &[u8]) -> (r: Result<()>)
        requires
            old(self)@.len() + 4 + value@.len() <= isize::MAX,
        ensures
            r == Ok::<(), Error>(()),
            final(self)@ == old(self)@ + length_prefixed(value@),
    {
        let _ = self.write_u32(value.len() as u32);
        proof {
            lemma_auto_spec_u32_to_from_le_bytes();
        }
        self.put(value);
        assert(self@ =~= old(self)@ + length_prefixed(value@));
        Ok(())
    }

    /// Write a timestamp as its nanoseconds.
    pub fn write_timestamp(&mut self, timestamp: Timestamp) -> (r: Result<()>)
        requires
            old(self)@.len() + 8 <= isize::MAX,
        ensures
            r == Ok::<(), Error>(()),
            final(self)@ == old(self)@ + le64(timestamp.0),
    {
        self.write_u64(timestamp.as_nanos())
    }

    /// Write a slice of bytes as they are, with no length.
    pub fn write_slice(&mut self, slice: &[u8]) -> (r: Result<()>)
        requires
            old(self)@.len() + slice@.len() <= isize::MAX,
        ensures
            r == Ok::<(), Error>(()),
            final(self)@ == old(self)@ + slice@,
    {
        self.put(slice);
        Ok(())
    }

    /// The number of bytes in the buffer.
    pub fn position(&self) -> (n: usize)
        ensures
            n == self@.len(),
    {
        bytes_mut_len(&self.buffer)
    }

    /// Reserve capacity for `additional` more bytes; the contents are
    /// unchanged.
    pub fn reserve(&mut self, additional: usize)
        requires
            old(self)@.len() + additional <= isize::MAX,
        ensures
            final(self)@ == old(self)@,
    {
        bytes_mut_reserve(&mut self.buffer, additional);
    }
}

} // verus!
