//! Type definitions for the Qiss format.

use vstd::prelude::*;

verus! {

/// Timestamp of the Qiss format: nanoseconds since the Unix epoch.
#[derive(Debug, Clone, Copy, PartialEq, Eq, PartialOrd, Ord, Hash, Structural)]
pub struct Timestamp(pub u64);

/// The standard library's wall-clock time.
#[verifier::external_type_specification]
#[verifier::external_body]
pub struct ExSystemTime(std::time::SystemTime);

/// Reads the system clock: `SystemTime::now()` measured from `UNIX_EPOCH`,
/// in nanoseconds, truncated to 64 bits; `None` when the clock stands before
/// the epoch (where `duration_since` fails). Nothing is promised of the
/// value, which depends on the machine's clock.
#[verifier::external_body]
pub(crate) fn clock_nanos() -> Option<u64> {
    match std::time::SystemTime::now().duration_since(std::time::UNIX_EPOCH) {
        Ok(d) => Some(d.as_nanos() as u64),
        Err(_) => None,
    }
}

/// The timestamp of a clock reading: its nanoseconds, or the epoch itself
/// for a clock that stands before it.
pub open spec fn timestamp_of(reading: Option<u64>) -> Timestamp {
    match reading {
        Some(n) => Timestamp(n),
        None => Timestamp(0),
    }
}

/// The timestamp of a clock reading (see `timestamp_of`).
pub fn timestamp_from_reading(reading: Option<u64>) -> (t: Timestamp)
    ensures
        t == timestamp_of(reading),
{
    match reading {
        Some(n) => Timestamp(n),
        None => Timestamp(0),
    }
}

impl Timestamp {
    /// Create a timestamp from the current time; a clock set before the
    /// Unix epoch reads as the epoch.
    pub fn now() -> Self {
        timestamp_from_reading(clock_nanos())
    }

    /// Create a timestamp from nanoseconds since the Unix epoch.
    pub fn from_nanos(nanos: u64) -> (t: Self)
        ensures
            t.0 == nanos,
    {
        Timestamp(nanos)
    }

    /// The system time `self.0` nanoseconds after the Unix epoch
    /// (`UNIX_EPOCH + Duration::from_nanos`). The result is the standard
    /// library's opaque type, and nothing is stated of it: its resolution
    /// is the platform's (100 ns on Windows), so the nanoseconds are not
    /// promised to come back unchanged.
    #[verifier::external_body]
    pub fn to_system_time(self) -> std::time::SystemTime {
        std::time::UNIX_EPOCH + std::time::Duration::from_nanos(self.0)
    }

    /// Nanoseconds since the Unix epoch.
    pub fn as_nanos(self) -> (n: u64)
        ensures
            n == self.0,
    {
        self.0
    }
}

/// A timestamp is its nanoseconds: making one from `n` nanoseconds and
/// reading them back gives `n`, and a timestamp made from the nanoseconds
/// of `t` is `t`.
pub proof fn lemma_nanos_round_trip(n: u64, t: Timestamp)
    ensures
        Timestamp(n).0 == n,
        Timestamp(t.0) == t,
{
}

/// Qiss field type.
#[derive(Debug, Clone, Copy, PartialEq, Eq, Structural)]
pub enum FieldType {
    /// 8-bit unsigned integer
    U8,
    /// 16-bit unsigned integer
    U16,
    /// 32-bit unsigned integer
    U32,
    /// 64-bit unsigned integer
    U64,
    /// 8-bit signed integer
    I8,
    /// 16-bit signed integer
    I16,
    /// 32-bit signed integer
    I32,
    /// 64-bit signed integer
    I64,
    /// 32-bit floating point
    F32,
    /// 64-bit floating point
    F64,
    /// Boolean
    Bool,
    /// String
    String,
    /// Byte array
    Bytes,
    /// Timestamp
    Timestamp,
    /// Array
    Array,
    /// Optional field
    Optional,
    /// Map
    Mapping,
}

/// The wire byte of each field type: the types in declaration order are
/// numbered from 0x01 to 0x11.
pub open spec fn field_type_byte(t: FieldType) -> u8 {
    match t {
        FieldType::U8 => 0x01,
        FieldType::U16 => 0x02,
        FieldType::U32 => 0x03,
        FieldType::U64 => 0x04,
        FieldType::I8 => 0x05,
        FieldType::I16 => 0x06,
        FieldType::I32 => 0x07,
        FieldType::I64 => 0x08,
        FieldType::F32 => 0x09,
        FieldType::F64 => 0x0A,
        FieldType::Bool => 0x0B,
        FieldType::String => 0x0C,
        FieldType::Bytes => 0x0D,
        FieldType::Timestamp => 0x0E,
        FieldType::Array => 0x0F,
        FieldType::Optional => 0x10,
        FieldType::Mapping => 0x11,
    }
}

impl FieldType {
    /// The byte representation of the field type.
    pub fn to_byte(self) -> (b: u8)
        ensures
            b == field_type_byte(self),
    {
        match self {
            FieldType::U8 => 0x01,
            FieldType::U16 => 0x02,
            FieldType::U32 => 0x03,
            FieldType::U64 => 0x04,
            FieldType::I8 => 0x05,
            FieldType::I16 => 0x06,
            FieldType::I32 => 0x07,
            FieldType::I64 => 0x08,
            FieldType::F32 => 0x09,
            FieldType::F64 => 0x0A,
            FieldType::Bool => 0x0B,
            FieldType::String => 0x0C,
            FieldType::Bytes => 0x0D,
            FieldType::Timestamp => 0x0E,
            FieldType::Array => 0x0F,
            FieldType::Optional => 0x10,
            FieldType::Mapping => 0x11,
        }
    }

    /// Parse a field type from its byte representation.
    pub fn from_byte(byte: u8) -> (r: Option<Self>)
        ensures
            match r {
                Some(t) => field_type_byte(t) == byte,
                None => !(0x01 <= byte <= 0x11),
            },
    {
        match byte {
            0x01 => Some(FieldType::U8),
            0x02 => Some(FieldType::U16),
            0x03 => Some(FieldType::U32),
            0x04 => Some(FieldType::U64),
            0x05 => Some(FieldType::I8),
            0x06 => Some(FieldType::I16),
            0x07 => Some(FieldType::I32),
            0x08 => Some(FieldType::I64),
            0x09 => Some(FieldType::F32),
            0x0A => Some(FieldType::F64),
            0x0B => Some(FieldType::Bool),
            0x0C => Some(FieldType::String),
            0x0D => Some(FieldType::Bytes),
            0x0E => Some(FieldType::Timestamp),
            0x0F => Some(FieldType::Array),
            0x10 => Some(FieldType::Optional),
            0x11 => Some(FieldType::Mapping),
            _ => None,
        }
    }
}

/// Each field type's byte is read back as that field type: the byte
/// representation is a faithful code.
pub proof fn lemma_field_type_byte_roundtrip(t: FieldType)
    ensures
        0x01 <= field_type_byte(t) <= 0x11,
        forall|u: FieldType| field_type_byte(u) == field_type_byte(t) ==> u == t,
{
}

/// Qiss field descriptor.
#[derive(Debug)]
pub struct FieldDescriptor {
    /// Field name
    pub name: String,
    /// Field type
    pub field_type: FieldType,
    /// Whether the field is optional
    pub optional: bool,
    /// Nested type for arrays and maps
    pub nested_type: Option<Box<FieldDescriptor>>,
}

impl Clone for FieldDescriptor {
    fn clone(&self) -> (r: Self)
        ensures
            r == *self,
        decreases self,
    {
        FieldDescriptor {
            name: self.name.clone(),
            field_type: self.field_type,
            optional: self.optional,
            nested_type: match &self.nested_type {
                Some(inner) => Some(Box::new((**inner).clone())),
                None => None,
            },
        }
    }
}

impl FieldDescriptor {
    /// Create a new field descriptor.
    pub fn new(name: String, field_type: FieldType) -> (d: Self)
        ensures
            d.name == name,
            d.field_type == field_type,
            !d.optional,
            d.nested_type is None,
    {
        FieldDescriptor { name, field_type, optional: false, nested_type: None }
    }

    /// Create an optional field descriptor.
    pub fn optional(name: String, field_type: FieldType) -> (d: Self)
        ensures
            d.name == name,
            d.field_type == field_type,
            d.optional,
            d.nested_type is None,
    {
        FieldDescriptor { name, field_type, optional: true, nested_type: None }
    }

    /// Create an array field descriptor whose elements are `element_type`.
    pub fn array(name: String, element_type: FieldDescriptor) -> (d: Self)
        ensures
            d.name == name,
            d.field_type == FieldType::Array,
            !d.optional,
            d.nested_type == Some(Box::new(element_type)),
    {
        FieldDescriptor {
            name,
            field_type: FieldType::Array,
            optional: false,
            nested_type: Some(Box::new(element_type)),
        }
    }

    /// Create a map field descriptor; the nested type records the value
    /// type, the key type is not kept.
    pub fn map(name: String, key_type: FieldDescriptor, value_type: FieldDescriptor) -> (d: Self)
        ensures
            d.name == name,
            d.field_type == FieldType::Mapping,
            !d.optional,
            d.nested_type == Some(Box::new(value_type)),
    {
        FieldDescriptor {
            name,
            field_type: FieldType::Mapping,
            optional: false,
            nested_type: Some(Box::new(value_type)),
        }
    }
}

/// Qiss message descriptor.
#[derive(Debug, Clone)]
pub struct MessageDescriptor {
    /// Message name
    pub name: String,
    /// Message fields
    pub fields: Vec<FieldDescriptor>,
}

impl MessageDescriptor {
    /// Create a new message descriptor with no fields.
    pub fn new(name: String) -> (m: Self)
        ensures
            m.name == name,
            m.fields@.len() == 0,
    {
        MessageDescriptor { name, fields: Vec::new() }
    }

    /// Add a field at the end of the message.
    pub fn add_field(self, field: FieldDescriptor) -> (m: Self)
        ensures
            m.name == self.name,
            m.fields@ == self.fields@.push(field),
    {
        let mut s = self;
        s.fields.push(field);
        s
    }
}

} // verus!
