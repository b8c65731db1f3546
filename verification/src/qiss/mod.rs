//! The Qiss binary serialization format.

pub mod buffer;
pub mod reader;
pub mod serializer;
pub mod checksum;
pub mod codec;
pub mod error;
pub mod header;
pub mod types;
pub mod value;
pub mod writer;
pub mod wire;
