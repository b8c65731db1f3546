//! Errors of the broker.

use vstd::prelude::*;
use crate::broker::text::{decimal, push_decimal, with_decimal, with_text};

verus! {

/// Error types of the broker.
#[derive(Debug)]
pub enum Error {
    /// IO error
    Io(std::io::Error),
    /// Serialization error
    Serialization(String),
    /// Protocol error
    Protocol(String),
    /// Configuration error
    Config(String),
    /// Queue not found
    QueueNotFound(String),
    /// Topic not found
    TopicNotFound(String),
    /// Consumer not found
    ConsumerNotFound(String),
    /// Producer not found
    ProducerNotFound(String),
    /// Message not found
    MessageNotFound(String),
    /// Queue full
    QueueFull(String),
    /// Consumer group not found
    ConsumerGroupNotFound(String),
    /// Partition not found
    PartitionNotFound(String),
    /// Offset out of range
    OffsetOutOfRange(String),
    /// Persistence error
    Persistence(String),
    /// Storage error
    Storage(String),
    /// Replication error
    Replication(String),
    /// Leader election error
    LeaderElection(String),
    /// Cluster error
    Cluster(String),
    /// Transaction error
    Transaction(String),
    /// Timeout error
    Timeout(String),
    /// Rate limit exceeded
    RateLimitExceeded(String),
    /// Invalid message format
    InvalidMessageFormat(String),
    /// Checksum mismatch
    ChecksumMismatch { expected: u32, actual: u32 },
    /// Insufficient data
    InsufficientData { needed: usize, got: usize },
    /// Internal error
    Internal(String),
}

/// Result type of the broker.
pub type Result<T> = std::result::Result<T, Error>;

/// The error is a storage error whose message is `text`.
pub open spec fn is_storage_error(e: Error, text: Seq<char>) -> bool {
    e matches Error::Storage(s) && s@ == text
}

#[allow(non_snake_case)]
impl Error {
    /// The error of an operation that only the Raft leader may perform.
    pub fn NotLeader() -> (e: Self)
        ensures
            is_storage_error(e, "Not the leader"@),
    {
        Error::Storage("Not the leader".to_string())
    }

    /// The error of a replication that fewer replicas confirmed than it
    /// required.
    pub fn InsufficientReplicas(confirmed: usize, required: usize) -> (e: Self)
        ensures
            is_storage_error(
                e,
                "Insufficient replicas: "@ + decimal(confirmed as nat) + " confirmed, "@ + decimal(
                    required as nat,
                ) + " required"@,
            ),
    {
        let mut s = with_decimal("Insufficient replicas: ", confirmed as u64);
        s.append(" confirmed, ");
        push_decimal(&mut s, required as u64);
        s.append(" required");
        Error::Storage(s)
    }

    /// The error of a conflict with no entries to choose from.
    pub fn NoConflictEntries() -> (e: Self)
        ensures
            is_storage_error(e, "No conflict entries found"@),
    {
        Error::Storage("No conflict entries found".to_string())
    }

    /// The error of a failed replication.
    pub fn ReplicationFailed(message: String) -> (e: Self)
        ensures
            is_storage_error(e, "Replication failed: "@ + message@),
    {
        Error::Storage(with_text("Replication failed: ", message.as_str()))
    }

    /// The error of an unknown connection.
    pub fn ConnectionNotFound(connection_id: u64) -> (e: Self)
        ensures
            is_storage_error(e, "Connection not found: "@ + decimal(connection_id as nat)),
    {
        Error::Storage(with_decimal("Connection not found: ", connection_id))
    }

    /// The error of a connection beyond the limit.
    pub fn TooManyConnections(max: usize) -> (e: Self)
        ensures
            is_storage_error(e, "Too many connections: "@ + decimal(max as nat)),
    {
        Error::Storage(with_decimal("Too many connections: ", max as u64))
    }

    /// The error for a member the consumer group does not have.
    pub fn MemberNotFound(member_id: String) -> (e: Self)
        ensures
            is_storage_error(e, "Member not found: "@ + member_id@),
    {
        Error::Storage(with_text("Member not found: ", member_id.as_str()))
    }

    /// The error for the custom assignment strategy, which is not available.
    pub fn CustomAssignmentNotImplemented() -> (e: Self)
        ensures
            is_storage_error(e, "Custom assignment strategy not implemented"@),
    {
        Error::Storage("Custom assignment strategy not implemented".to_string())
    }

    /// The error of a failed authentication.
    pub fn InvalidCredentials() -> (e: Self)
        ensures
            is_storage_error(e, "Invalid credentials"@),
    {
        Error::Storage("Invalid credentials".to_string())
    }

    /// The error of an unknown user.
    pub fn UserNotFound(user_id: String) -> (e: Self)
        ensures
            is_storage_error(e, "User not found: "@ + user_id@),
    {
        Error::Storage(with_text("User not found: ", user_id.as_str()))
    }

    /// The error of an authentication method with no implementation.
    pub fn AuthenticationNotImplemented() -> (e: Self)
        ensures
            is_storage_error(e, "Authentication method not implemented"@),
    {
        Error::Storage("Authentication method not implemented".to_string())
    }

    /// The error of an unknown encryption key.
    pub fn EncryptionKeyNotFound(key_id: String) -> (e: Self)
        ensures
            is_storage_error(e, "Encryption key not found: "@ + key_id@),
    {
        Error::Storage(with_text("Encryption key not found: ", key_id.as_str()))
    }
}

} // verus!
