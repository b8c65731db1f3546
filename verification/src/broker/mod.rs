//! The Precursor message broker.

pub mod advanced_replication;
pub mod cluster;
pub mod codecs;
pub mod compression;
pub mod consensus;
pub mod consumer;
pub mod consumer_groups;
pub mod enhanced_broker;
pub mod error;
pub mod hashing;
pub mod ids;
pub mod memory;
pub mod message;
pub mod monitoring;
pub mod name_order;
pub mod names;
pub mod parse;
pub mod networking;
pub mod precursor;
pub mod producer;
pub mod queue;
pub mod replication;
pub mod security;
pub mod segment_storage;
pub mod storage;
pub mod text;
pub mod time;
pub mod topic;
