//! Framing of a value into a checked Qiss message, and back.
//!
//! A message is a 16-byte header (magic, version, flags, reserved, total
//! size, CRC-32 of the body) followed by the body, the value's encoding.

use vstd::prelude::*;
use bytes::{Bytes, BytesMut};
use crate::qiss::buffer::{
    bytes_mut_as_slice, bytes_mut_clear, bytes_mut_freeze, bytes_mut_len,
    bytes_mut_overwrite_prefix, bytes_mut_put_slice, bytes_mut_split, bytes_mut_view,
    bytes_mut_with_capacity, bytes_view,
};
use crate::qiss::checksum::{crc32, crc32_of, lemma_crc_detects_changed_byte};
use crate::qiss::error::{Error, Result};
use crate::qiss::header::{
    header_bytes, header_check, header_from_bytes, lemma_header_roundtrip, QissHeader,
    HEADER_SIZE, MAX_MESSAGE_SIZE, QISS_MAGIC, QISS_VERSION,
};
use crate::qiss::reader::QissReader;
use crate::qiss::value::{QissDeserializable, QissRoundTrip, QissSerializable};
use crate::qiss::writer::QissWriter;

verus! {

/// The header a serializer writes before `body`.
pub open spec fn frame_header(body: Seq<u8>) -> QissHeader {
    QissHeader {
        magic: QISS_MAGIC,
        version: QISS_VERSION,
        flags: 0,
        reserved: 0,
        size: (HEADER_SIZE + body.len()) as u32,
        checksum: crc32_of(body),
    }
}

/// The message that carries `body`.
pub open spec fn qiss_frame(body: Seq<u8>) -> Seq<u8> {
    header_bytes(frame_header(body)) + body
}

/// The body of the message `data`, or the error that rejects it: too short
/// for a header, a header that fails validation, or a body whose CRC-32 is
/// not the header's checksum.
pub open spec fn qiss_unframe(data: Seq<u8>) -> Result<Seq<u8>> {
    if data.len() < HEADER_SIZE {
        Err(Error::InsufficientData)
    } else {
        let h = header_from_bytes(data);
        match header_check(h) {
            Err(e) => Err(e),
            Ok(_) => {
                let body = data.skip(HEADER_SIZE as int);
                if crc32_of(body) != h.checksum {
                    Err(Error::ChecksumMismatch { expected: h.checksum, actual: crc32_of(body) })
                } else {
                    Ok(body)
                }
            },
        }
    }
}

/// A message the serializer makes is accepted by the deserializer, which
/// finds the same body in it, when the message fits the size limit.
pub proof fn lemma_frame_roundtrip(body: Seq<u8>)
    requires
        HEADER_SIZE + body.len() <= MAX_MESSAGE_SIZE,
    ensures
        qiss_unframe(qiss_frame(body)) == Ok::<Seq<u8>, Error>(body),
{
    lemma_header_roundtrip(frame_header(body), body);
    assert(qiss_frame(body).skip(HEADER_SIZE as int) =~= body);
}

/// The header of a framed message records the whole message: its size
/// field is the length of the message, header included (for any message a
/// `u32` can measure), and its checksum
/// is the CRC-32 of the body that follows the header.
pub proof fn lemma_header_records_message(body: Seq<u8>)
    requires
        HEADER_SIZE + body.len() <= u32::MAX,
    ensures
        qiss_frame(body).len() == HEADER_SIZE + body.len(),
        header_from_bytes(qiss_frame(body)).size == qiss_frame(body).len(),
        header_from_bytes(qiss_frame(body)).checksum == crc32_of(qiss_frame(body).skip(HEADER_SIZE as int)),
{
    lemma_header_roundtrip(frame_header(body), body);
    assert(qiss_frame(body).skip(HEADER_SIZE as int) =~= body);
}

/// A message whose body was changed in one byte after it was framed is
/// refused with a checksum mismatch: the header still passes, and the
/// body's CRC-32 is no longer the one it records.
pub proof fn lemma_changed_body_refused(body: Seq<u8>, i: int, b: u8)
    requires
        HEADER_SIZE + body.len() <= MAX_MESSAGE_SIZE,
        0 <= i < body.len(),
        b != body[i],
    ensures
        qiss_unframe(qiss_frame(body).update(HEADER_SIZE + i, b)) == Err::<Seq<u8>, Error>(
            Error::ChecksumMismatch { expected: crc32_of(body), actual: crc32_of(body.update(i, b)) },
        ),
{
    let changed = body.update(i, b);
    lemma_header_roundtrip(frame_header(body), body);
    lemma_header_roundtrip(frame_header(body), changed);
    let data = qiss_frame(body).update(HEADER_SIZE + i, b);
    assert(data =~= header_bytes(frame_header(body)) + changed);
    assert(data.skip(HEADER_SIZE as int) =~= changed);
    lemma_crc_detects_changed_byte(body, changed, i);
}

/// Serializing a value and deserializing the message gives the value back,
/// for every value whose encoding is faithful and whose message fits the
/// size limit.
pub proof fn lemma_serialize_deserialize_roundtrip<T: QissRoundTrip>(v: <T as DeepView>::V)
    requires
        T::qiss_encodable(v),
        HEADER_SIZE + T::qiss_encoding(v).len() <= MAX_MESSAGE_SIZE,
    ensures
        qiss_unframe(qiss_frame(T::qiss_encoding(v))) == Ok::<Seq<u8>, Error>(
            T::qiss_encoding(v),
        ),
        T::qiss_decode(T::qiss_encoding(v)) == Some((v, T::qiss_encoding(v).len())),
{
    lemma_frame_roundtrip(T::qiss_encoding(v));
    T::lemma_roundtrip(v, Seq::empty());
    assert(T::qiss_encoding(v) + Seq::<u8>::empty() =~= T::qiss_encoding(v));
}

/// Qiss serializer: frames values into messages, reusing one buffer.
pub struct QissSerializer {
    buffer: BytesMut,
}

impl QissSerializer {
    /// Create a serializer with the default capacity.
    pub fn new() -> (s: Self) {
        Self::with_capacity(1024)
    }

    /// Create a serializer with the given capacity.
    pub fn with_capacity(capacity: usize) -> (s: Self)
        requires
            capacity <= isize::MAX,
    {
        QissSerializer { buffer: bytes_mut_with_capacity(capacity) }
    }

    /// Serialize a value into a Qiss message.
    pub fn serialize<T: QissSerializable>(&mut self, value: &T) -> (r: Result<Bytes>)
        requires
            HEADER_SIZE + T::qiss_encoding(value.deep_view()).len() <= isize::MAX,
        ensures
            r matches Ok(b) && bytes_view(b) == qiss_frame(T::qiss_encoding(value.deep_view())),
    {
        let ghost body = T::qiss_encoding(value.deep_view());
        bytes_mut_clear(&mut self.buffer);
        let placeholder = [0u8; 16];
        bytes_mut_put_slice(&mut self.buffer, placeholder.as_slice());
        let mut buf = bytes_mut_with_capacity(0);
        core::mem::swap(&mut buf, &mut self.buffer);
        let mut writer = QissWriter::new(buf);
        let _ = value.serialize(&mut writer);
        let mut buf = writer.into_inner();
        assert(bytes_mut_view(buf) == placeholder@ + body);
        let all = bytes_mut_as_slice(&buf);
        let body_slice = &all[HEADER_SIZE..all.len()];
        assert(body_slice@ =~= body);
        let checksum = crc32(body_slice);
        let total_size = bytes_mut_len(&buf) as u32;
        let header = QissHeader::new(total_size, checksum, 0);
        let header_vec = header.to_bytes();
        proof {
            lemma_header_roundtrip(header, Seq::empty());
        }
        bytes_mut_overwrite_prefix(&mut buf, header_vec.as_slice());
        assert(bytes_mut_view(buf) =~= qiss_frame(body));
        let out = bytes_mut_split(&mut buf);
        self.buffer = buf;
        Ok(bytes_mut_freeze(out))
    }
}

impl Default for QissSerializer {
    fn default() -> Self {
        Self::new()
    }
}

/// Qiss deserializer: checks a message and reads the value it carries.
pub struct QissDeserializer;

impl QissDeserializer {
    /// Deserialize a value from a Qiss message. The message is checked
    /// first (length, header, checksum); then the value is read from the
    /// start of the body.
    pub fn deserialize<T: QissDeserializable>(data: &[u8]) -> (r: Result<T>)
        ensures
            match qiss_unframe(data@) {
                Err(e) => r == Err::<T, Error>(e),
                Ok(body) => match T::qiss_decode(body) {
                    Some((v, _)) => r matches Ok(x) && x.deep_view() == v,
                    None => r is Err,
                },
            },
    {
        if data.len() < HEADER_SIZE {
            return Err(Error::InsufficientData);
        }
        let header = match QissHeader::read_from_prefix(data) {
            Some(h) => h,
            None => return Err(Error::InvalidHeader),
        };
        header.validate()?;
        let body = &data[HEADER_SIZE..data.len()];
        let calculated_checksum = crc32(body);
        assert(body@ =~= data@.skip(HEADER_SIZE as int));
        if calculated_checksum != header.checksum {
            return Err(
                Error::ChecksumMismatch { expected: header.checksum, actual: calculated_checksum },
            );
        }
        let mut reader = QissReader::new(body);
        assert(reader.rest() =~= body@);
        T::deserialize(&mut reader)
    }
}

} // verus!
