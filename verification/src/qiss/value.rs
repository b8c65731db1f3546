//! Values that can be written in and read from the Qiss format.
//!
//! A type's encoding is stated over its deep view, so that it is a fact
//! about the value and not about how the value is held in memory.

use vstd::prelude::*;
use vstd::bytes::*;
use vstd::utf8::*;
use crate::qiss::error::Result;
use crate::qiss::reader::QissReader;
use crate::qiss::writer::QissWriter;
use crate::qiss::wire::{
    bool_byte, decode_length_prefixed, decode_u32, le16, le32, le64, lemma_le_roundtrip,
    lemma_length_prefixed_roundtrip, length_prefixed, take_exact,
};

verus! {

/// Types that can be serialized to the Qiss format.
pub trait QissSerializable: DeepView {
    /// The bytes that encode the value `v`.
    spec fn qiss_encoding(v: Self::V) -> Seq<u8>;

    /// Serialize this value: append its encoding to the writer.
    fn serialize(&self, writer: &mut QissWriter) -> (r: Result<()>)
        requires
            old(writer)@.len() + Self::qiss_encoding(self.deep_view()).len() <= isize::MAX,
        ensures
            r is Ok,
            final(writer)@ == old(writer)@ + Self::qiss_encoding(self.deep_view()),
    ;
}

/// Types that can be deserialized from the Qiss format.
pub trait QissDeserializable: Sized + DeepView {
    /// The value read from the front of `input`, with the number of bytes
    /// it takes; `None` when `input` does not start with an encoding.
    spec fn qiss_decode(input: Seq<u8>) -> Option<(Self::V, nat)>;

    /// Deserialize a value from the reader's unread bytes.
    fn deserialize(reader: &mut QissReader<'_>) -> (r: Result<Self>)
        requires
            old(reader).wf(),
        ensures
            final(reader).wf(),
            final(reader).data() == old(reader).data(),
            match Self::qiss_decode(old(reader).rest()) {
                Some((v, n)) => (r matches Ok(x) && x.deep_view() == v) && final(reader).pos()
                    == old(reader).pos() + n,
                None => r is Err,
            },
    ;
}

/// Types whose encoding reads back to the value written.
pub trait QissRoundTrip: QissSerializable + QissDeserializable {
    /// The values whose encoding is faithful (lengths fit their prefixes).
    spec fn qiss_encodable(v: <Self as DeepView>::V) -> bool;

    /// Reading the encoding of `v`, whatever follows it, gives back `v`
    /// and consumes exactly the encoding.
    proof fn lemma_roundtrip(v: <Self as DeepView>::V, rest: Seq<u8>)
        requires
            Self::qiss_encodable(v),
        ensures
            Self::qiss_decode(Self::qiss_encoding(v) + rest) == Some(
                (v, Self::qiss_encoding(v).len()),
            ),
    ;
}

/// The front of `a + rest` is `a`.
pub proof fn lemma_take_front(a: Seq<u8>, rest: Seq<u8>)
    ensures
        take_exact(a + rest, a.len()) == Some(a),
        (a + rest).skip(a.len() as int) == rest,
{
    assert((a + rest).take(a.len() as int) =~= a);
    assert((a + rest).skip(a.len() as int) =~= rest);
}

// ---------------------------------------------------------------- integers

impl QissSerializable for u8 {
    open spec fn qiss_encoding(v: u8) -> Seq<u8> {
        seq![v]
    }

    fn serialize(&self, writer: &mut QissWriter) -> (r: Result<()>) {
        writer.write_u8(*self)
    }
}

impl QissDeserializable for u8 {
    open spec fn qiss_decode(input: Seq<u8>) -> Option<(u8, nat)> {
        match take_exact(input, 1) {
            Some(b) => Some((b[0], 1)),
            None => None,
        }
    }

    fn deserialize(reader: &mut QissReader<'_>) -> (r: Result<Self>) {
        reader.read_u8()
    }
}

impl QissRoundTrip for u8 {
    open spec fn qiss_encodable(v: u8) -> bool {
        true
    }

    proof fn lemma_roundtrip(v: u8, rest: Seq<u8>) {
        lemma_take_front(seq![v], rest);
    }
}

impl QissSerializable for u16 {
    open spec fn qiss_encoding(v: u16) -> Seq<u8> {
        le16(v)
    }

    fn serialize(&self, writer: &mut QissWriter) -> (r: Result<()>) {
        proof {
            lemma_le_roundtrip();
        }
        writer.write_u16(*self)
    }
}

impl QissDeserializable for u16 {
    open spec fn qiss_decode(input: Seq<u8>) -> Option<(u16, nat)> {
        match take_exact(input, 2) {
            Some(b) => Some((spec_u16_from_le_bytes(b), 2)),
            None => None,
        }
    }

    fn deserialize(reader: &mut QissReader<'_>) -> (r: Result<Self>) {
        reader.read_u16()
    }
}

impl QissRoundTrip for u16 {
    open spec fn qiss_encodable(v: u16) -> bool {
        true
    }

    proof fn lemma_roundtrip(v: u16, rest: Seq<u8>) {
        lemma_le_roundtrip();
        lemma_take_front(le16(v), rest);
    }
}

impl QissSerializable for u32 {
    open spec fn qiss_encoding(v: u32) -> Seq<u8> {
        le32(v)
    }

    fn serialize(&self, writer: &mut QissWriter) -> (r: Result<()>) {
        proof {
            lemma_le_roundtrip();
        }
        writer.write_u32(*self)
    }
}

impl QissDeserializable for u32 {
    open spec fn qiss_decode(input: Seq<u8>) -> Option<(u32, nat)> {
        match take_exact(input, 4) {
            Some(b) => Some((spec_u32_from_le_bytes(b), 4)),
            None => None,
        }
    }

    fn deserialize(reader: &mut QissReader<'_>) -> (r: Result<Self>) {
        reader.read_u32()
    }
}

impl QissRoundTrip for u32 {
    open spec fn qiss_encodable(v: u32) -> bool {
        true
    }

    proof fn lemma_roundtrip(v: u32, rest: Seq<u8>) {
        lemma_le_roundtrip();
        lemma_take_front(le32(v), rest);
    }
}

impl QissSerializable for u64 {
    open spec fn qiss_encoding(v: u64) -> Seq<u8> {
        le64(v)
    }

    fn serialize(&self, writer: &mut QissWriter) -> (r: Result<()>) {
        proof {
            lemma_le_roundtrip();
        }
        writer.write_u64(*self)
    }
}

impl QissDeserializable for u64 {
    open spec fn qiss_decode(input: Seq<u8>) -> Option<(u64, nat)> {
        match take_exact(input, 8) {
            Some(b) => Some((spec_u64_from_le_bytes(b), 8)),
            None => None,
        }
    }

    fn deserialize(reader: &mut QissReader<'_>) -> (r: Result<Self>) {
        reader.read_u64()
    }
}

impl QissRoundTrip for u64 {
    open spec fn qiss_encodable(v: u64) -> bool {
        true
    }

    proof fn lemma_roundtrip(v: u64, rest: Seq<u8>) {
        lemma_le_roundtrip();
        lemma_take_front(le64(v), rest);
    }
}

impl QissSerializable for i8 {
    open spec fn qiss_encoding(v: i8) -> Seq<u8> {
        seq![v as u8]
    }

    fn serialize(&self, writer: &mut QissWriter) -> (r: Result<()>) {
        writer.write_i8(*self)
    }
}

impl QissDeserializable for i8 {
    open spec fn qiss_decode(input: Seq<u8>) -> Option<(i8, nat)> {
        match take_exact(input, 1) {
            Some(b) => Some((b[0] as i8, 1)),
            None => None,
        }
    }

    fn deserialize(reader: &mut QissReader<'_>) -> (r: Result<Self>) {
        reader.read_i8()
    }
}

impl QissRoundTrip for i8 {
    open spec fn qiss_encodable(v: i8) -> bool {
        true
    }

    proof fn lemma_roundtrip(v: i8, rest: Seq<u8>) {
        lemma_take_front(seq![v as u8], rest);
        assert((v as u8) as i8 == v) by (bit_vector);
    }
}

impl QissSerializable for i16 {
    open spec fn qiss_encoding(v: i16) -> Seq<u8> {
        le16(v as u16)
    }

    fn serialize(&self, writer: &mut QissWriter) -> (r: Result<()>) {
        proof {
            lemma_le_roundtrip();
        }
        writer.write_i16(*self)
    }
}

impl QissDeserializable for i16 {
    open spec fn qiss_decode(input: Seq<u8>) -> Option<(i16, nat)> {
        match take_exact(input, 2) {
            Some(b) => Some((spec_u16_from_le_bytes(b) as i16, 2)),
            None => None,
        }
    }

    fn deserialize(reader: &mut QissReader<'_>) -> (r: Result<Self>) {
        reader.read_i16()
    }
}

impl QissRoundTrip for i16 {
    open spec fn qiss_encodable(v: i16) -> bool {
        true
    }

    proof fn lemma_roundtrip(v: i16, rest: Seq<u8>) {
        lemma_le_roundtrip();
        lemma_take_front(le16(v as u16), rest);
        assert((v as u16) as i16 == v) by (bit_vector);
    }
}

impl QissSerializable for i32 {
    open spec fn qiss_encoding(v: i32) -> Seq<u8> {
        le32(v as u32)
    }

    fn serialize(&self, writer: &mut QissWriter) -> (r: Result<()>) {
        proof {
            lemma_le_roundtrip();
        }
        writer.write_i32(*self)
    }
}

impl QissDeserializable for i32 {
    open spec fn qiss_decode(input: Seq<u8>) -> Option<(i32, nat)> {
        match take_exact(input, 4) {
            Some(b) => Some((spec_u32_from_le_bytes(b) as i32, 4)),
            None => None,
        }
    }

    fn deserialize(reader: &mut QissReader<'_>) -> (r: Result<Self>) {
        reader.read_i32()
    }
}

impl QissRoundTrip for i32 {
    open spec fn qiss_encodable(v: i32) -> bool {
        true
    }

    proof fn lemma_roundtrip(v: i32, rest: Seq<u8>) {
        lemma_le_roundtrip();
        lemma_take_front(le32(v as u32), rest);
        assert((v as u32) as i32 == v) by (bit_vector);
    }
}

impl QissSerializable for i64 {
    open spec fn qiss_encoding(v: i64) -> Seq<u8> {
        le64(v as u64)
    }

    fn serialize(&self, writer: &mut QissWriter) -> (r: Result<()>) {
        proof {
            lemma_le_roundtrip();
        }
        writer.write_i64(*self)
    }
}

impl QissDeserializable for i64 {
    open spec fn qiss_decode(input: Seq<u8>) -> Option<(i64, nat)> {
        match take_exact(input, 8) {
            Some(b) => Some((spec_u64_from_le_bytes(b) as i64, 8)),
            None => None,
        }
    }

    fn deserialize(reader: &mut QissReader<'_>) -> (r: Result<Self>) {
        reader.read_i64()
    }
}

impl QissRoundTrip for i64 {
    open spec fn qiss_encodable(v: i64) -> bool {
        true
    }

    proof fn lemma_roundtrip(v: i64, rest: Seq<u8>) {
        lemma_le_roundtrip();
        lemma_take_front(le64(v as u64), rest);
        assert((v as u64) as i64 == v) by (bit_vector);
    }
}

// ---------------------------------------------------------------- booleans

/// A boolean read from the front of `input`: byte 0 or 1.
pub open spec fn decode_bool(input: Seq<u8>) -> Option<(bool, nat)> {
    match take_exact(input, 1) {
        Some(b) => if b[0] == 0 {
            Some((false, 1))
        } else if b[0] == 1 {
            Some((true, 1))
        } else {
            None
        },
        None => None,
    }
}

impl QissSerializable for bool {
    open spec fn qiss_encoding(v: bool) -> Seq<u8> {
        seq![bool_byte(v)]
    }

    fn serialize(&self, writer: &mut QissWriter) -> (r: Result<()>) {
        writer.write_bool(*self)
    }
}

impl QissDeserializable for bool {
    open spec fn qiss_decode(input: Seq<u8>) -> Option<(bool, nat)> {
        decode_bool(input)
    }

    fn deserialize(reader: &mut QissReader<'_>) -> (r: Result<Self>) {
        reader.read_bool()
    }
}

impl QissRoundTrip for bool {
    open spec fn qiss_encodable(v: bool) -> bool {
        true
    }

    proof fn lemma_roundtrip(v: bool, rest: Seq<u8>) {
        lemma_take_front(seq![bool_byte(v)], rest);
    }
}

// ----------------------------------------------------------------- strings

impl QissSerializable for String {
    open spec fn qiss_encoding(v: Seq<char>) -> Seq<u8> {
        length_prefixed(encode_utf8(v))
    }

    fn serialize(&self, writer: &mut QissWriter) -> (r: Result<()>) {
        proof {
            lemma_le_roundtrip();
        }
        writer.write_string(self.as_str())
    }
}

impl QissDeserializable for String {
    open spec fn qiss_decode(input: Seq<u8>) -> Option<(Seq<char>, nat)> {
        match decode_length_prefixed(input) {
            Some((body, n)) => if valid_utf8(body) {
                Some((decode_utf8(body), n))
            } else {
                None
            },
            None => None,
        }
    }

    fn deserialize(reader: &mut QissReader<'_>) -> (r: Result<Self>) {
        reader.read_string()
    }
}

impl QissRoundTrip for String {
    open spec fn qiss_encodable(v: Seq<char>) -> bool {
        encode_utf8(v).len() <= u32::MAX
    }

    proof fn lemma_roundtrip(v: Seq<char>, rest: Seq<u8>) {
        lemma_length_prefixed_roundtrip(encode_utf8(v), rest);
        encode_utf8_valid_utf8(v);
        encode_utf8_decode_utf8(v);
    }
}

/// Byte array type, encoded with a length prefix.
pub struct ByteArray(pub Vec<u8>);

impl DeepView for ByteArray {
    type V = Seq<u8>;

    open spec fn deep_view(&self) -> Seq<u8> {
        self.0@
    }
}

impl QissSerializable for ByteArray {
    open spec fn qiss_encoding(v: Seq<u8>) -> Seq<u8> {
        length_prefixed(v)
    }

    fn serialize(&self, writer: &mut QissWriter) -> (r: Result<()>) {
        proof {
            lemma_le_roundtrip();
        }
        writer.write_bytes(self.0.as_slice())
    }
}

impl QissDeserializable for ByteArray {
    open spec fn qiss_decode(input: Seq<u8>) -> Option<(Seq<u8>, nat)> {
        decode_length_prefixed(input)
    }

    fn deserialize(reader: &mut QissReader<'_>) -> (r: Result<Self>) {
        let v = reader.read_bytes()?;
        Ok(ByteArray(v))
    }
}

impl QissRoundTrip for ByteArray {
    open spec fn qiss_encodable(v: Seq<u8>) -> bool {
        v.len() <= u32::MAX
    }

    proof fn lemma_roundtrip(v: Seq<u8>, rest: Seq<u8>) {
        lemma_length_prefixed_roundtrip(v, rest);
    }
}

// ------------------------------------------------------------------ arrays

/// The encodings of the items, one after another.
pub open spec fn encode_items<T: QissSerializable>(items: Seq<T::V>) -> Seq<u8>
    decreases items.len(),
{
    if items.len() == 0 {
        Seq::empty()
    } else {
        encode_items::<T>(items.drop_last()) + T::qiss_encoding(items.last())
    }
}

/// `count` items read one after another from the front of `input`, with the
/// number of bytes they take.
pub open spec fn decode_items<T: QissDeserializable>(input: Seq<u8>, count: nat) -> Option<
    (Seq<T::V>, nat),
>
    decreases count,
{
    if count == 0 {
        Some((Seq::empty(), 0))
    } else {
        match decode_items::<T>(input, (count - 1) as nat) {
            Some((items, n)) => match T::qiss_decode(input.skip(n as int)) {
                Some((v, m)) => Some((items.push(v), n + m)),
                None => None,
            },
            None => None,
        }
    }
}

/// The encoding of the first `i + 1` items extends that of the first `i`.
pub proof fn lemma_encode_items_step<T: QissSerializable>(items: Seq<T::V>, i: int)
    requires
        0 <= i < items.len(),
    ensures
        encode_items::<T>(items.take(i + 1)) == encode_items::<T>(items.take(i))
            + T::qiss_encoding(items[i]),
{
    assert(items.take(i + 1).drop_last() =~= items.take(i));
}

/// The encoding of a prefix of the items is no longer than the whole.
pub proof fn lemma_encode_items_prefix_len<T: QissSerializable>(items: Seq<T::V>, i: int)
    requires
        0 <= i <= items.len(),
    ensures
        encode_items::<T>(items.take(i)).len() <= encode_items::<T>(items).len(),
    decreases items.len() - i,
{
    if i < items.len() {
        lemma_encode_items_step::<T>(items, i);
        lemma_encode_items_prefix_len::<T>(items, i + 1);
    } else {
        assert(items.take(i) =~= items);
    }
}

/// Once reading items fails, reading more of them fails too.
pub proof fn lemma_decode_items_fails_on<T: QissDeserializable>(
    input: Seq<u8>,
    i: nat,
    count: nat,
)
    requires
        i <= count,
        decode_items::<T>(input, i) is None,
    ensures
        decode_items::<T>(input, count) is None,
    decreases count - i,
{
    if i < count {
        lemma_decode_items_fails_on::<T>(input, i + 1, count);
    }
}

/// Reading back the encodings of items whose own encodings read back.
pub proof fn lemma_items_roundtrip<T: QissRoundTrip>(items: Seq<T::V>, rest: Seq<u8>)
    requires
        forall|i: int| 0 <= i < items.len() ==> T::qiss_encodable(#[trigger] items[i]),
    ensures
        decode_items::<T>(encode_items::<T>(items) + rest, items.len()) == Some(
            (items, encode_items::<T>(items).len()),
        ),
    decreases items.len(),
{
    if items.len() > 0 {
        let init = items.drop_last();
        let last = items.last();
        let tail = T::qiss_encoding(last) + rest;
        assert forall|i: int| 0 <= i < init.len() implies T::qiss_encodable(#[trigger] init[i]) by {
            assert(init[i] == items[i]);
        }
        lemma_items_roundtrip::<T>(init, tail);
        let input = encode_items::<T>(items) + rest;
        assert(input =~= encode_items::<T>(init) + tail);
        assert(input.skip(encode_items::<T>(init).len() as int) =~= tail);
        assert(T::qiss_encodable(items[items.len() - 1]));
        T::lemma_roundtrip(last, rest);
        assert(init.push(last) =~= items);
    } else {
        assert(encode_items::<T>(items) + rest =~= rest);
    }
}

impl<T: QissSerializable> QissSerializable for Vec<T> {
    open spec fn qiss_encoding(v: Seq<T::V>) -> Seq<u8> {
        le32(v.len() as u32) + encode_items::<T>(v)
    }

    fn serialize(&self, writer: &mut QissWriter) -> (r: Result<()>) {
        proof {
            lemma_le_roundtrip();
        }
        let ghost items = self.deep_view();
        let _ = writer.write_u32(self.len() as u32);
        let ghost start = writer@;
        let mut i: usize = 0;
        while i < self.len()
            invariant
                i <= self.len(),
                items == self.deep_view(),
                items.len() == self.len(),
                writer@ == start + encode_items::<T>(items.take(i as int)),
                start.len() + encode_items::<T>(items).len() <= isize::MAX,
            decreases self.len() - i,
        {
            proof {
                lemma_encode_items_step::<T>(items, i as int);
                lemma_encode_items_prefix_len::<T>(items, i + 1);
            }
            let _ = self[i].serialize(writer);
            i = i + 1;
        }
        assert(items.take(self.len() as int) =~= items);
        Ok(())
    }
}

impl<T: QissDeserializable> QissDeserializable for Vec<T> {
    open spec fn qiss_decode(input: Seq<u8>) -> Option<(Seq<T::V>, nat)> {
        match decode_u32(input) {
            Some(count) => match decode_items::<T>(input.skip(4), count as nat) {
                Some((items, n)) => Some((items, 4 + n)),
                None => None,
            },
            None => None,
        }
    }

    fn deserialize(reader: &mut QissReader<'_>) -> (r: Result<Self>) {
        let ghost data = reader.data();
        proof {
            old(reader).lemma_wf();
        }
        let len = reader.read_u32()?;
        let ghost start = reader.pos();
        let ghost input = reader.rest();
        proof {
            reader.lemma_wf();
        }
        assert(input =~= old(reader).rest().skip(4));
        let mut vec: Vec<T> = Vec::new();
        let mut i: u32 = 0;
        while i < len
            invariant
                i <= len,
                reader.wf(),
                reader.data() == data,
                data == old(reader).data(),
                start <= data.len(),
                decode_u32(old(reader).rest()) == Some(len),
                input == old(reader).rest().skip(4),
                start <= reader.pos(),
                input == data.skip(start as int),
                decode_items::<T>(input, i as nat) == Some(
                    (vec.deep_view(), (reader.pos() - start) as nat),
                ),
            decreases len - i,
        {
            let ghost before = reader.pos();
            proof {
                reader.lemma_wf();
            }
            assert(reader.rest() =~= input.skip((before - start) as int));
            match T::deserialize(reader) {
                Ok(x) => {
                    let ghost old_items = vec.deep_view();
                    vec.push(x);
                    assert(vec.deep_view() =~= old_items.push(x.deep_view()));
                },
                Err(e) => {
                    proof {
                        assert(decode_items::<T>(input, (i + 1) as nat) is None);
                        lemma_decode_items_fails_on::<T>(input, (i + 1) as nat, len as nat);
                    }
                    return Err(e);
                },
            }
            i = i + 1;
        }
        Ok(vec)
    }
}

impl<T: QissRoundTrip> QissRoundTrip for Vec<T> {
    open spec fn qiss_encodable(v: Seq<T::V>) -> bool {
        &&& v.len() <= u32::MAX
        &&& forall|i: int| 0 <= i < v.len() ==> T::qiss_encodable(#[trigger] v[i])
    }

    proof fn lemma_roundtrip(v: Seq<T::V>, rest: Seq<u8>) {
        lemma_le_roundtrip();
        lemma_items_roundtrip::<T>(v, rest);
        let input = le32(v.len() as u32) + encode_items::<T>(v) + rest;
        assert(input =~= le32(v.len() as u32) + (encode_items::<T>(v) + rest));
        lemma_take_front(le32(v.len() as u32), encode_items::<T>(v) + rest);
    }
}

// --------------------------------------------------------------- optionals

impl<T: QissSerializable> QissSerializable for Option<T> {
    open spec fn qiss_encoding(v: Option<T::V>) -> Seq<u8> {
        match v {
            Some(x) => seq![1u8] + T::qiss_encoding(x),
            None => seq![0u8],
        }
    }

    fn serialize(&self, writer: &mut QissWriter) -> (r: Result<()>) {
        match self {
            Some(value) => {
                let _ = writer.write_bool(true);
                assert(writer@ =~= old(writer)@ + seq![1u8]);
                let r = value.serialize(writer);
                assert(writer@ =~= old(writer)@ + Self::qiss_encoding(self.deep_view()));
                r
            },
            None => {
                let r = writer.write_bool(false);
                assert(writer@ =~= old(writer)@ + Self::qiss_encoding(self.deep_view()));
                r
            },
        }
    }
}

impl<T: QissDeserializable> QissDeserializable for Option<T> {
    open spec fn qiss_decode(input: Seq<u8>) -> Option<(Option<T::V>, nat)> {
        match decode_bool(input) {
            Some((true, _)) => match T::qiss_decode(input.skip(1)) {
                Some((x, n)) => Some((Some(x), 1 + n)),
                None => None,
            },
            Some((false, _)) => Some((None, 1)),
            None => None,
        }
    }

    fn deserialize(reader: &mut QissReader<'_>) -> (r: Result<Self>) {
        proof {
            old(reader).lemma_wf();
        }
        if reader.read_bool()? {
            proof {
                reader.lemma_wf();
            }
            assert(reader.rest() =~= old(reader).rest().skip(1));
            let v = T::deserialize(reader)?;
            Ok(Some(v))
        } else {
            Ok(None)
        }
    }
}

impl<T: QissRoundTrip> QissRoundTrip for Option<T> {
    open spec fn qiss_encodable(v: Option<T::V>) -> bool {
        match v {
            Some(x) => T::qiss_encodable(x),
            None => true,
        }
    }

    proof fn lemma_roundtrip(v: Option<T::V>, rest: Seq<u8>) {
        match v {
            Some(x) => {
                let input = seq![1u8] + T::qiss_encoding(x) + rest;
                assert(input =~= seq![1u8] + (T::qiss_encoding(x) + rest));
                lemma_take_front(seq![1u8], T::qiss_encoding(x) + rest);
                T::lemma_roundtrip(x, rest);
            },
            None => {
                lemma_take_front(seq![0u8], rest);
            },
        }
    }
}

} // verus!
