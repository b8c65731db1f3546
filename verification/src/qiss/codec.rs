//! Length-delimited streams of Qiss messages.
//!
//! On a stream each message is preceded by its length as a little-endian
//! `u32`; a batch is preceded by the number of messages. The stream I/O
//! itself is done by the caller; these functions make and read the bytes.

use vstd::prelude::*;
use vstd::bytes::*;
use crate::qiss::buffer::bytes_as_slice;
use crate::qiss::error::{Error, Result};
use crate::qiss::header::{HEADER_SIZE, MAX_MESSAGE_SIZE};
use crate::qiss::serializer::{
    lemma_frame_roundtrip, qiss_frame, qiss_unframe, QissDeserializer, QissSerializer,
};
use crate::qiss::value::{QissDeserializable, QissRoundTrip, QissSerializable};
use crate::qiss::wire::{le32, lemma_le_roundtrip, length_prefixed};

verus! {

/// Appends the bytes of `s` to `v`.
pub(crate) fn append_bytes(v: &mut Vec<u8>, s: &[u8])
    ensures
        final(v)@ == old(v)@ + s@,
{
    let mut i: usize = 0;
    while i < s.len()
        invariant
            i <= s@.len(),
            v@ == old(v)@ + s@.take(i as int),
        decreases s.len() - i,
    {
        v.push(s[i]);
        i = i + 1;
        assert(s@.take(i as int) =~= s@.take(i - 1).push(s@[i - 1]));
    }
    assert(s@.take(s@.len() as int) =~= s@);
}

/// The bytes a codec puts on a stream for a value whose encoding is `body`:
/// the message, preceded by its length.
pub open spec fn stream_frame(body: Seq<u8>) -> Seq<u8> {
    length_prefixed(qiss_frame(body))
}

/// The message at the front of a stream: its length, then that many bytes;
/// `None` when the stream ends first.
pub open spec fn stream_message(input: Seq<u8>) -> Option<Seq<u8>> {
    if input.len() < 4 {
        None
    } else {
        let len = spec_u32_from_le_bytes(input.take(4)) as int;
        if input.len() - 4 < len {
            None
        } else {
            Some(input.subrange(4, 4 + len))
        }
    }
}

/// Frames `value` for a stream.
fn encode_to_stream<T: QissSerializable>(value: &T) -> (r: Result<Vec<u8>>)
    requires
        4 + HEADER_SIZE + T::qiss_encoding(value.deep_view()).len() <= isize::MAX,
    ensures
        r matches Ok(v) && v@ == stream_frame(T::qiss_encoding(value.deep_view())),
{
    let mut serializer = QissSerializer::new();
    let data = serializer.serialize(value)?;
    let bytes = bytes_as_slice(&data);
    let mut out = u32_to_le_bytes(bytes.len() as u32);
    append_bytes(&mut out, bytes);
    Ok(out)
}

/// Reads the message at the front of `input` and the value it carries.
fn decode_from_stream<T: QissDeserializable>(input: &[u8]) -> (r: Result<T>)
    ensures
        match stream_message(input@) {
            None => r == Err::<T, Error>(Error::InsufficientData),
            Some(msg) => match qiss_unframe(msg) {
                Err(e) => r == Err::<T, Error>(e),
                Ok(body) => match T::qiss_decode(body) {
                    Some((v, _)) => r matches Ok(x) && x.deep_view() == v,
                    None => r is Err,
                },
            },
        },
{
    if input.len() < 4 {
        return Err(Error::InsufficientData);
    }
    let len = u32_from_le_bytes(&input[0..4]) as usize;
    if input.len() - 4 < len {
        return Err(Error::InsufficientData);
    }
    let msg = &input[4..4 + len];
    QissDeserializer::deserialize(msg)
}

/// A value framed for a stream is read back from the stream, whatever
/// follows it, when its message fits the size limit.
pub proof fn lemma_stream_roundtrip<T: QissRoundTrip>(v: <T as DeepView>::V, rest: Seq<u8>)
    requires
        T::qiss_encodable(v),
        HEADER_SIZE + T::qiss_encoding(v).len() <= MAX_MESSAGE_SIZE,
    ensures
        stream_message(stream_frame(T::qiss_encoding(v)) + rest) == Some(
            qiss_frame(T::qiss_encoding(v)),
        ),
        qiss_unframe(qiss_frame(T::qiss_encoding(v))) == Ok::<Seq<u8>, Error>(
            T::qiss_encoding(v),
        ),
        T::qiss_decode(T::qiss_encoding(v)) == Some((v, T::qiss_encoding(v).len())),
{
    let body = T::qiss_encoding(v);
    let msg = qiss_frame(body);
    lemma_le_roundtrip();
    lemma_frame_roundtrip(body);
    let input = stream_frame(body) + rest;
    assert(input.take(4) =~= le32(msg.len() as u32));
    assert(input.subrange(4, 4 + msg.len() as int) =~= msg);
    T::lemma_roundtrip(v, Seq::empty());
    assert(body + Seq::<u8>::empty() =~= body);
}

/// The frames of values with encodings `bodies`, one after another.
pub open spec fn stream_frames(bodies: Seq<Seq<u8>>) -> Seq<u8>
    decreases bodies.len(),
{
    if bodies.len() == 0 {
        Seq::empty()
    } else {
        stream_frames(bodies.drop_last()) + stream_frame(bodies.last())
    }
}

/// The bytes a codec puts on a stream for a batch of values with encodings
/// `bodies`: their number as a little-endian `u32`, then each value framed.
pub open spec fn batch_frame(bodies: Seq<Seq<u8>>) -> Seq<u8> {
    le32(bodies.len() as u32) + stream_frames(bodies)
}

/// The encodings of the values `vs`.
pub open spec fn encodings<T: QissSerializable>(vs: Seq<<T as DeepView>::V>) -> Seq<Seq<u8>> {
    vs.map_values(|v: <T as DeepView>::V| T::qiss_encoding(v))
}

/// The `count` messages at the front of `input`, each preceded by its
/// length; `None` when the input ends first.
pub open spec fn stream_messages(input: Seq<u8>, count: nat) -> Option<Seq<Seq<u8>>>
    decreases count,
{
    if count == 0 {
        Some(Seq::empty())
    } else {
        match stream_message(input) {
            None => None,
            Some(m) => match stream_messages(input.skip(4 + m.len() as int), (count - 1) as nat) {
                None => None,
                Some(rest) => Some(seq![m] + rest),
            },
        }
    }
}

/// The message `msg` carries a value whose view is `v`.
pub open spec fn carries<T: QissDeserializable>(msg: Seq<u8>, v: <T as DeepView>::V) -> bool {
    qiss_unframe(msg) matches Ok(body) && T::qiss_decode(body) matches Some((w, _)) && w == v
}

/// The message `msg` carries a value.
pub open spec fn carries_some<T: QissDeserializable>(msg: Seq<u8>) -> bool {
    qiss_unframe(msg) matches Ok(body) && T::qiss_decode(body) is Some
}

/// The number of values at the front of a batch: its first four bytes.
pub open spec fn batch_count(input: Seq<u8>) -> nat {
    spec_u32_from_le_bytes(input.take(4)) as nat
}

/// The bytes for a batch of values: their number, then each framed.
fn encode_batch_to_stream<T: QissSerializable>(values: &[T]) -> (r: Result<Vec<u8>>)
    requires
        values@.len() <= u32::MAX,
        forall|i: int| 0 <= i < values@.len() ==> 4 + HEADER_SIZE + T::qiss_encoding(#[trigger] values@[i].deep_view()).len() <= isize::MAX,
    ensures
        r matches Ok(v) && v@ == batch_frame(encodings::<T>(values.deep_view())),
{
    let ghost all = encodings::<T>(values.deep_view());
    let mut out = u32_to_le_bytes(values.len() as u32);
    let mut i: usize = 0;
    assert(all.take(0) =~= Seq::<Seq<u8>>::empty());
    while i < values.len()
        invariant
            i <= values@.len(),
            all == encodings::<T>(values.deep_view()),
            all.len() == values@.len(),
            values@.len() <= u32::MAX,
            forall|j: int| 0 <= j < values@.len() ==> 4 + HEADER_SIZE + T::qiss_encoding(#[trigger] values@[j].deep_view()).len() <= isize::MAX,
            out@ == le32(values@.len() as u32) + stream_frames(all.take(i as int)),
        decreases values@.len() - i,
    {
        let frame = match encode_to_stream(&values[i]) {
            Ok(f) => f,
            Err(e) => return Err(e),
        };
        append_bytes(&mut out, frame.as_slice());
        proof {
            assert(values.deep_view()[i as int] == values@[i as int].deep_view());
            assert(all.take(i + 1).drop_last() =~= all.take(i as int));
            assert(all.take(i + 1).last() == all[i as int]);
            assert(out@ =~= le32(values@.len() as u32) + stream_frames(all.take(i + 1)));
        }
        i = i + 1;
    }
    assert(all.take(values@.len() as int) =~= all);
    Ok(out)
}

/// Reads a batch: its number of values, then each message and the value it
/// carries, stopping at the first that fails.
fn decode_batch_from_stream<T: QissDeserializable>(input: &[u8]) -> (r: Result<Vec<T>>)
    ensures
        input@.len() < 4 ==> r == Err::<Vec<T>, Error>(Error::InsufficientData),
        r matches Ok(vs) ==> input@.len() >= 4 && vs@.len() == batch_count(input@) && (
            stream_messages(input@.skip(4), batch_count(input@)) matches Some(msgs)
            && forall|i: int| 0 <= i < vs@.len() ==> carries::<T>(#[trigger] msgs[i], vs@[i].deep_view())),
        input@.len() >= 4 && (stream_messages(input@.skip(4), batch_count(input@)) matches Some(msgs)
            && forall|i: int| 0 <= i < msgs.len() ==> carries_some::<T>(#[trigger] msgs[i])) ==> r is Ok,
{
    if input.len() < 4 {
        return Err(Error::InsufficientData);
    }
    let count = u32_from_le_bytes(&input[0..4]) as usize;
    proof {
        assert(input@.subrange(0, 4) =~= input@.take(4));
    }
    let ghost total = batch_count(input@);
    let ghost whole = stream_messages(input@.skip(4), total);
    let mut values: Vec<T> = Vec::new();
    let mut pos: usize = 4;
    let mut i: usize = 0;
    let ghost mut done: Seq<Seq<u8>> = Seq::empty();
    assert(input@.skip(4) =~= input@.skip(pos as int));
    while i < count
        invariant
            count == total,
            total == batch_count(input@),
            4 <= pos <= input@.len(),
            i <= count,
            done.len() == i,
            values@.len() == i,
            whole == stream_messages(input@.skip(4), total),
            whole == match stream_messages(input@.skip(pos as int), (count - i) as nat) {
                None => None,
                Some(rest) => Some(done + rest),
            },
            forall|j: int| 0 <= j < i ==> carries::<T>(#[trigger] done[j], values@[j].deep_view()),
            (whole matches Some(msgs) && forall|j: int| 0 <= j < msgs.len() ==> carries_some::<T>(#[trigger] msgs[j]))
                ==> forall|j: int| 0 <= j < i ==> carries_some::<T>(#[trigger] done[j]),
        decreases count - i,
    {
        let ghost here = input@.skip(pos as int);
        proof {
            if whole is Some {
                assert(stream_messages(here, (count - i) as nat) is Some);
                assert(stream_message(here) is Some);
            }
        }
        if input.len() - pos < 4 {
            return Err(Error::InsufficientData);
        }
        let len = u32_from_le_bytes(&input[pos..pos + 4]) as usize;
        proof {
            assert(input@.subrange(pos as int, pos + 4) =~= here.take(4));
        }
        if input.len() - pos - 4 < len {
            return Err(Error::InsufficientData);
        }
        let msg = &input[pos + 4..pos + 4 + len];
        proof {
            assert(msg@ =~= here.subrange(4, 4 + len as int));
            assert(stream_message(here) == Some(msg@));
            assert(here.skip(4 + len as int) =~= input@.skip(pos + 4 + len));
        }
        let ghost rest_opt = stream_messages(input@.skip(pos + 4 + len), (count - i - 1) as nat);
        proof {
            if whole is Some {
                let msgs = whole->0;
                let rest = rest_opt->0;
                assert(msgs == done + (seq![msg@] + rest));
                assert(msgs[i as int] == msg@);
                if forall|j: int| 0 <= j < msgs.len() ==> carries_some::<T>(#[trigger] msgs[j]) {
                    assert(carries_some::<T>(msgs[i as int]));
                }
            }
        }
        let v = match QissDeserializer::deserialize::<T>(msg) {
            Ok(v) => v,
            Err(e) => return Err(e),
        };
        let ghost before = values@;
        values.push(v);
        proof {
            let done2 = done.push(msg@);
            assert forall|j: int| 0 <= j < i + 1 implies carries::<T>(#[trigger] done2[j], values@[j].deep_view()) by {
                if j < i {
                    assert(done2[j] == done[j]);
                    assert(values@[j] == before[j]);
                }
            }
            if whole is Some {
                let rest = rest_opt->0;
                assert(done + (seq![msg@] + rest) =~= done2 + rest);
            }
            done = done2;
        }
        pos = pos + 4 + len;
        i = i + 1;
    }
    proof {
        assert(stream_messages(input@.skip(pos as int), 0) == Some(Seq::<Seq<u8>>::empty()));
        assert(done + Seq::<Seq<u8>>::empty() =~= done);
    }
    Ok(values)
}

/// The frames of a batch, read from the front: the first value's frame,
/// then the frames of the others.
proof fn lemma_frames_front(bodies: Seq<Seq<u8>>)
    requires
        bodies.len() > 0,
    ensures
        stream_frames(bodies) == stream_frame(bodies[0]) + stream_frames(bodies.drop_first()),
    decreases bodies.len(),
{
    if bodies.len() == 1 {
        assert(bodies.drop_last() =~= Seq::<Seq<u8>>::empty());
        assert(bodies.drop_first() =~= Seq::<Seq<u8>>::empty());
        assert(stream_frames(bodies) =~= stream_frame(bodies[0]) + stream_frames(bodies.drop_first()));
    } else {
        let init = bodies.drop_last();
        lemma_frames_front(init);
        assert(init.drop_first() =~= bodies.drop_first().drop_last());
        assert(bodies.drop_first().last() == bodies.last());
        assert(init[0] == bodies[0]);
        assert(stream_frames(bodies) =~= stream_frame(bodies[0]) + stream_frames(bodies.drop_first()));
    }
}

/// The messages of the frames of round-trippable values are their frames,
/// and each carries its value.
proof fn lemma_frames_messages<T: QissRoundTrip>(vs: Seq<<T as DeepView>::V>)
    requires
        forall|i: int| 0 <= i < vs.len() ==> T::qiss_encodable(#[trigger] vs[i]),
        forall|i: int| 0 <= i < vs.len() ==> HEADER_SIZE + T::qiss_encoding(#[trigger] vs[i]).len() <= MAX_MESSAGE_SIZE,
    ensures
        stream_messages(stream_frames(encodings::<T>(vs)), vs.len()) matches Some(msgs)
            && msgs.len() == vs.len()
            && forall|i: int| 0 <= i < vs.len() ==> carries::<T>(#[trigger] msgs[i], vs[i]),
    decreases vs.len(),
{
    let encs = encodings::<T>(vs);
    if vs.len() == 0 {
        assert(encs =~= Seq::<Seq<u8>>::empty());
    } else {
        let v0 = vs[0];
        let tail = vs.drop_first();
        assert(encodings::<T>(tail) =~= encs.drop_first());
        assert(encs[0] == T::qiss_encoding(v0));
        assert forall|i: int| 0 <= i < tail.len() implies T::qiss_encodable(#[trigger] tail[i]) by {
            assert(tail[i] == vs[i + 1]);
        }
        assert forall|i: int| 0 <= i < tail.len() implies HEADER_SIZE + T::qiss_encoding(#[trigger] tail[i]).len() <= MAX_MESSAGE_SIZE by {
            assert(tail[i] == vs[i + 1]);
        }
        lemma_frames_messages::<T>(tail);
        lemma_frames_front(encs);
        let rest = stream_frames(encs.drop_first());
        lemma_stream_roundtrip::<T>(v0, rest);
        lemma_le_roundtrip();
        let frame = qiss_frame(T::qiss_encoding(v0));
        let input = stream_frames(encs);
        assert(input == stream_frame(T::qiss_encoding(v0)) + rest);
        assert(le32(frame.len() as u32).len() == 4);
        assert(input.skip(4 + frame.len() as int) =~= rest);
        let msgs_tail = stream_messages(rest, tail.len())->0;
        let msgs = seq![frame] + msgs_tail;
        assert(stream_messages(input, vs.len()) == Some(msgs));
        assert forall|i: int| 0 <= i < vs.len() implies carries::<T>(#[trigger] msgs[i], vs[i]) by {
            if i > 0 {
                assert(msgs[i] == msgs_tail[i - 1]);
                assert(vs[i] == tail[i - 1]);
            }
        }
    }
}

/// What a batch gives back of a write: the bytes written for round-trippable
/// values that fit the size limit count them, and the messages that follow
/// carry the values, in order. So `decode_batch` returns them.
pub proof fn lemma_batch_roundtrip<T: QissRoundTrip>(vs: Seq<<T as DeepView>::V>)
    requires
        vs.len() <= u32::MAX,
        forall|i: int| 0 <= i < vs.len() ==> T::qiss_encodable(#[trigger] vs[i]),
        forall|i: int| 0 <= i < vs.len() ==> HEADER_SIZE + T::qiss_encoding(#[trigger] vs[i]).len() <= MAX_MESSAGE_SIZE,
    ensures
        batch_frame(encodings::<T>(vs)).len() >= 4,
        batch_count(batch_frame(encodings::<T>(vs))) == vs.len(),
        stream_messages(batch_frame(encodings::<T>(vs)).skip(4), vs.len()) matches Some(msgs)
            && msgs.len() == vs.len()
            && forall|i: int| 0 <= i < vs.len() ==> carries::<T>(#[trigger] msgs[i], vs[i]),
{
    let encs = encodings::<T>(vs);
    let bytes = batch_frame(encs);
    lemma_le_roundtrip();
    assert(encs.len() == vs.len());
    assert(le32(vs.len() as u32).len() == 4);
    assert(bytes.take(4) =~= le32(vs.len() as u32));
    assert(bytes.skip(4) =~= stream_frames(encs));
    lemma_frames_messages::<T>(vs);
}

/// Codec that frames Qiss messages for asynchronous streams.
pub struct QissCodec;

impl QissCodec {
    /// The bytes to write to a stream for `value`.
    pub fn encode<T: QissSerializable>(&self, value: &T) -> (r: Result<Vec<u8>>)
        requires
            4 + HEADER_SIZE + T::qiss_encoding(value.deep_view()).len() <= isize::MAX,
        ensures
            r matches Ok(v) && v@ == stream_frame(T::qiss_encoding(value.deep_view())),
    {
        encode_to_stream(value)
    }

    /// The bytes to write to a stream for a batch of values: their number,
    /// then each value framed.
    pub fn encode_batch<T: QissSerializable>(&self, values: &[T]) -> (r: Result<Vec<u8>>)
        requires
            values@.len() <= u32::MAX,
            forall|i: int| 0 <= i < values@.len() ==> 4 + HEADER_SIZE + T::qiss_encoding(#[trigger] values@[i].deep_view()).len() <= isize::MAX,
        ensures
            r matches Ok(v) && v@ == batch_frame(encodings::<T>(values.deep_view())),
    {
        encode_batch_to_stream(values)
    }

    /// The values of a batch at the front of a stream: as many messages as
    /// its first four bytes count, each read and decoded in turn; the first
    /// that fails ends the batch with its error.
    pub fn decode_batch<T: QissDeserializable>(&self, input: &[u8]) -> (r: Result<Vec<T>>)
        ensures
            input@.len() < 4 ==> r == Err::<Vec<T>, Error>(Error::InsufficientData),
            r matches Ok(vs) ==> input@.len() >= 4 && vs@.len() == batch_count(input@) && (
                stream_messages(input@.skip(4), batch_count(input@)) matches Some(msgs)
                && forall|i: int| 0 <= i < vs@.len() ==> carries::<T>(#[trigger] msgs[i], vs@[i].deep_view())),
            input@.len() >= 4 && (stream_messages(input@.skip(4), batch_count(input@)) matches Some(msgs)
                && forall|i: int| 0 <= i < msgs.len() ==> carries_some::<T>(#[trigger] msgs[i])) ==> r is Ok,
    {
        decode_batch_from_stream(input)
    }

    /// The value carried by the message at the front of a stream.
    pub fn decode<T: QissDeserializable>(&self, input: &[u8]) -> (r: Result<T>)
        ensures
            match stream_message(input@) {
                None => r == Err::<T, Error>(Error::InsufficientData),
                Some(msg) => match qiss_unframe(msg) {
                    Err(e) => r == Err::<T, Error>(e),
                    Ok(body) => match T::qiss_decode(body) {
                        Some((v, _)) => r matches Ok(x) && x.deep_view() == v,
                        None => r is Err,
                    },
                },
            },
    {
        decode_from_stream(input)
    }
}

/// Codec that frames Qiss messages for synchronous streams.
pub struct QissSyncCodec;

impl QissSyncCodec {
    /// The bytes to write to a stream for `value`.
    pub fn encode<T: QissSerializable>(&self, value: &T) -> (r: Result<Vec<u8>>)
        requires
            4 + HEADER_SIZE + T::qiss_encoding(value.deep_view()).len() <= isize::MAX,
        ensures
            r matches Ok(v) && v@ == stream_frame(T::qiss_encoding(value.deep_view())),
    {
        encode_to_stream(value)
    }

    /// The value carried by the message at the front of a stream.
    pub fn decode<T: QissDeserializable>(&self, input: &[u8]) -> (r: Result<T>)
        ensures
            match stream_message(input@) {
                None => r == Err::<T, Error>(Error::InsufficientData),
                Some(msg) => match qiss_unframe(msg) {
                    Err(e) => r == Err::<T, Error>(e),
                    Ok(body) => match T::qiss_decode(body) {
                        Some((v, _)) => r matches Ok(x) && x.deep_view() == v,
                        None => r is Err,
                    },
                },
            },
    {
        decode_from_stream(input)
    }
}

} // verus!
