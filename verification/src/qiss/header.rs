//! The Qiss message header and message types.

use vstd::prelude::*;
use vstd::bytes::*;
use crate::qiss::error::{Error, Result};
use crate::qiss::wire::{le16, le32, lemma_le_roundtrip};

verus! {

/// Magic number for Qiss format identification ("QSS\0").
pub const QISS_MAGIC: u32 = 0x51535300;

/// Current version of the Qiss format.
pub const QISS_VERSION: u8 = 1;

/// Maximum size for a single Qiss message (10MB).
pub const MAX_MESSAGE_SIZE: usize = 10 * 1024 * 1024;

/// Size of the encoded header in bytes.
pub const HEADER_SIZE: usize = 16;

/// Header of a Qiss message.
#[derive(Debug, Clone, Copy, PartialEq, Eq, Structural)]
pub struct QissHeader {
    /// Magic number for format identification
    pub magic: u32,
    /// Format version
    pub version: u8,
    /// Message type flags
    pub flags: u8,
    /// Reserved bytes for future use
    pub reserved: u16,
    /// Total message size including header
    pub size: u32,
    /// CRC32 checksum of the message body
    pub checksum: u32,
}

/// The 16 bytes of a header, fields in declaration order, integers
/// little-endian (the layout of the `repr(C)` header on little-endian
/// machines).
pub open spec fn header_bytes(h: QissHeader) -> Seq<u8> {
    le32(h.magic) + seq![h.version, h.flags] + le16(h.reserved) + le32(h.size) + le32(h.checksum)
}

/// The header held by the first 16 bytes of `data`.
pub open spec fn header_from_bytes(data: Seq<u8>) -> QissHeader {
    QissHeader {
        magic: spec_u32_from_le_bytes(data.subrange(0, 4)),
        version: data[4],
        flags: data[5],
        reserved: spec_u16_from_le_bytes(data.subrange(6, 8)),
        size: spec_u32_from_le_bytes(data.subrange(8, 12)),
        checksum: spec_u32_from_le_bytes(data.subrange(12, 16)),
    }
}

/// What validation says of a header.
pub open spec fn header_check(h: QissHeader) -> Result<()> {
    if h.magic != QISS_MAGIC {
        Err(Error::InvalidMagic(h.magic))
    } else if h.version != QISS_VERSION {
        Err(Error::UnsupportedVersion(h.version))
    } else if h.size > MAX_MESSAGE_SIZE as u32 {
        Err(Error::MessageTooLarge(h.size as usize))
    } else {
        Ok(())
    }
}

/// A header is read back from its bytes, whatever follows them.
pub proof fn lemma_header_roundtrip(h: QissHeader, rest: Seq<u8>)
    ensures
        header_bytes(h).len() == HEADER_SIZE,
        header_from_bytes(header_bytes(h) + rest) == h,
{
    lemma_le_roundtrip();
    let d = header_bytes(h) + rest;
    assert(d.subrange(0, 4) =~= le32(h.magic));
    assert(d.subrange(6, 8) =~= le16(h.reserved));
    assert(d.subrange(8, 12) =~= le32(h.size));
    assert(d.subrange(12, 16) =~= le32(h.checksum));
}

impl QissHeader {
    /// Create a header for the current format with the given size,
    /// checksum and flags.
    pub fn new(size: u32, checksum: u32, flags: u8) -> (h: Self)
        ensures
            h == (QissHeader {
                magic: QISS_MAGIC,
                version: QISS_VERSION,
                flags,
                reserved: 0,
                size,
                checksum,
            }),
    {
        QissHeader { magic: QISS_MAGIC, version: QISS_VERSION, flags, reserved: 0, size, checksum }
    }

    /// Validate the header: the magic, then the version, then the size.
    pub fn validate(&self) -> (r: Result<()>)
        ensures
            r == header_check(*self),
    {
        if self.magic != QISS_MAGIC {
            return Err(Error::InvalidMagic(self.magic));
        }
        if self.version != QISS_VERSION {
            return Err(Error::UnsupportedVersion(self.version));
        }
        if self.size > MAX_MESSAGE_SIZE as u32 {
            return Err(Error::MessageTooLarge(self.size as usize));
        }
        Ok(())
    }

    /// The header's bytes.
    pub fn to_bytes(&self) -> (b: Vec<u8>)
        ensures
            b@ == header_bytes(*self),
    {
        let mut b = u32_to_le_bytes(self.magic);
        b.push(self.version);
        b.push(self.flags);
        let r = u16_to_le_bytes(self.reserved);
        b.push(r[0]);
        b.push(r[1]);
        let s = u32_to_le_bytes(self.size);
        let mut i: usize = 0;
        while i < 4
            invariant
                0 <= i <= 4,
                s@.len() == 4,
                b@ == le32(self.magic) + seq![self.version, self.flags] + le16(self.reserved)
                    + s@.take(i as int),
            decreases 4 - i,
        {
            b.push(s[i]);
            i = i + 1;
            assert(s@.take(i as int) =~= s@.take(i - 1).push(s@[i - 1]));
        }
        let c = u32_to_le_bytes(self.checksum);
        let mut j: usize = 0;
        while j < 4
            invariant
                0 <= j <= 4,
                c@.len() == 4,
                s@.len() == 4,
                b@ == le32(self.magic) + seq![self.version, self.flags] + le16(self.reserved)
                    + s@ + c@.take(j as int),
            decreases 4 - j,
        {
            b.push(c[j]);
            j = j + 1;
            assert(c@.take(j as int) =~= c@.take(j - 1).push(c@[j - 1]));
        }
        assert(s@.take(4) =~= s@);
        assert(c@.take(4) =~= c@);
        assert(b@ =~= header_bytes(*self));
        proof {
            lemma_le_roundtrip();
            assert(r@ == le16(self.reserved));
            assert(b@.len() == 16);
        }
        b
    }

    /// Read a header from the front of `data`, when it holds 16 bytes.
    pub fn read_from_prefix(data: &[u8]) -> (r: Option<Self>)
        ensures
            match r {
                Some(h) => data@.len() >= HEADER_SIZE && h == header_from_bytes(data@),
                None => data@.len() < HEADER_SIZE,
            },
    {
        if data.len() < HEADER_SIZE {
            return None;
        }
        Some(
            QissHeader {
                magic: u32_from_le_bytes(&data[0..4]),
                version: data[4],
                flags: data[5],
                reserved: u16_from_le_bytes(&data[6..8]),
                size: u32_from_le_bytes(&data[8..12]),
                checksum: u32_from_le_bytes(&data[12..16]),
            },
        )
    }
}

/// Qiss message type flags.
#[derive(Debug, Clone, Copy, PartialEq, Eq, Structural)]
pub enum MessageType {
    /// Request message
    Request,
    /// Response message
    Response,
    /// Event message
    Event,
    /// Error message
    Error,
}

/// The flag byte of each message type: one bit each.
pub open spec fn message_type_byte(t: MessageType) -> u8 {
    match t {
        MessageType::Request => 0x01,
        MessageType::Response => 0x02,
        MessageType::Event => 0x04,
        MessageType::Error => 0x08,
    }
}

impl MessageType {
    /// Convert to byte representation.
    pub fn to_byte(self) -> (b: u8)
        ensures
            b == message_type_byte(self),
    {
        match self {
            MessageType::Request => 0x01,
            MessageType::Response => 0x02,
            MessageType::Event => 0x04,
            MessageType::Error => 0x08,
        }
    }

    /// Parse from byte representation.
    pub fn from_byte(byte: u8) -> (r: Result<Self>)
        ensures
            match r {
                Ok(t) => message_type_byte(t) == byte,
                Err(e) => e == Error::InvalidMessageType(byte) && byte != 0x01 && byte != 0x02
                    && byte != 0x04 && byte != 0x08,
            },
    {
        match byte {
            0x01 => Ok(MessageType::Request),
            0x02 => Ok(MessageType::Response),
            0x04 => Ok(MessageType::Event),
            0x08 => Ok(MessageType::Error),
            _ => Err(Error::InvalidMessageType(byte)),
        }
    }
}

/// Distinct message types have distinct bytes, so a byte names at most one
/// type and `from_byte` gives back the type whose byte it reads.
pub proof fn lemma_message_type_byte_injective(t: MessageType, u: MessageType)
    ensures
        message_type_byte(t) == message_type_byte(u) ==> t == u,
{
}

} // verus!
