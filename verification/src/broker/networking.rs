//! Networking: transports, connection states, the counters of connections
//! and servers, and the table of open connections that a server keeps.

use vstd::prelude::*;
use std::time::Duration;
use crate::broker::error::{Error, Result, is_storage_error};
use crate::broker::text::decimal;
use crate::broker::time::{duration_from_secs, duration_nanos};
use crate::qiss::types::Timestamp;

verus! {

/// Network transport type.
#[derive(Debug, Clone, Copy, PartialEq, Eq, Structural)]
pub enum TransportType {
    /// TCP transport
    Tcp,
    /// UDP transport
    Udp,
    /// RDMA transport
    Rdma,
    /// InfiniBand transport
    InfiniBand,
    /// DPDK transport
    Dpdk,
    /// Kernel bypass transport
    KernelBypass,
}

/// Connection state.
#[derive(Debug, Clone, Copy, PartialEq, Eq, Structural)]
pub enum ConnectionState {
    /// Connecting
    Connecting,
    /// Connected
    Connected,
    /// Disconnecting
    Disconnecting,
    /// Disconnected
    Disconnected,
    /// Error state
    Error,
}

/// Connection statistics.
#[derive(Debug, Clone, Copy)]
pub struct ConnectionStats {
    /// Bytes received
    pub bytes_received: u64,
    /// Bytes sent
    pub bytes_sent: u64,
    /// Messages received
    pub messages_received: u64,
    /// Messages sent
    pub messages_sent: u64,
    /// Connection duration
    pub connection_duration: Duration,
    /// Average latency (microseconds)
    pub avg_latency_us: u64,
    /// Last message timestamp
    pub last_message_time: Option<Timestamp>,
}

impl Default for ConnectionStats {
    fn default() -> (s: Self)
        ensures
            s.bytes_received == 0,
            s.bytes_sent == 0,
            s.messages_received == 0,
            s.messages_sent == 0,
            duration_nanos(s.connection_duration) == 0,
            s.avg_latency_us == 0,
            s.last_message_time is None,
    {
        ConnectionStats {
            bytes_received: 0,
            bytes_sent: 0,
            messages_received: 0,
            messages_sent: 0,
            connection_duration: duration_from_secs(0),
            avg_latency_us: 0,
            last_message_time: None,
        }
    }
}

/// Server statistics.
#[derive(Debug, Clone, Copy)]
pub struct ServerStats {
    /// Total connections accepted
    pub total_connections: u64,
    /// Active connections
    pub active_connections: usize,
    /// Total bytes received
    pub total_bytes_received: u64,
    /// Total bytes sent
    pub total_bytes_sent: u64,
    /// Total messages received
    pub total_messages_received: u64,
    /// Total messages sent
    pub total_messages_sent: u64,
    /// Server uptime
    pub uptime: Duration,
    /// Average connection duration
    pub avg_connection_duration: Duration,
    /// Peak connections
    pub peak_connections: usize,
}

impl Default for ServerStats {
    fn default() -> (s: Self)
        ensures
            s.total_connections == 0,
            s.active_connections == 0,
            s.total_bytes_received == 0,
            s.total_bytes_sent == 0,
            s.total_messages_received == 0,
            s.total_messages_sent == 0,
            duration_nanos(s.uptime) == 0,
            duration_nanos(s.avg_connection_duration) == 0,
            s.peak_connections == 0,
    {
        ServerStats {
            total_connections: 0,
            active_connections: 0,
            total_bytes_received: 0,
            total_bytes_sent: 0,
            total_messages_received: 0,
            total_messages_sent: 0,
            uptime: duration_from_secs(0),
            avg_connection_duration: duration_from_secs(0),
            peak_connections: 0,
        }
    }
}

/// An open connection as the server records it.
#[derive(Debug, Clone, Copy)]
pub struct ConnectionRecord {
    /// Connection ID
    pub id: u64,
    /// Connection state
    pub state: ConnectionState,
    /// Transport type
    pub transport: TransportType,
    /// Connection statistics
    pub stats: ConnectionStats,
    /// Last activity
    pub last_activity: Timestamp,
}

/// The counters of a connection just accepted: all zero.
pub open spec fn fresh_stats(s: ConnectionStats) -> bool {
    &&& s.bytes_received == 0
    &&& s.bytes_sent == 0
    &&& s.messages_received == 0
    &&& s.messages_sent == 0
    &&& duration_nanos(s.connection_duration) == 0
    &&& s.avg_latency_us == 0
    &&& s.last_message_time is None
}

/// The record after `bytes` of one message went out (or, with `sent`
/// false, came in) at `now`.
pub open spec fn after_message(r: ConnectionRecord, bytes: nat, sent: bool, now: Timestamp) -> ConnectionRecord {
    ConnectionRecord {
        stats: if sent {
            ConnectionStats {
                bytes_sent: (r.stats.bytes_sent + bytes) as u64,
                messages_sent: (r.stats.messages_sent + 1) as u64,
                last_message_time: Some(now),
                ..r.stats
            }
        } else {
            ConnectionStats {
                bytes_received: (r.stats.bytes_received + bytes) as u64,
                messages_received: (r.stats.messages_received + 1) as u64,
                last_message_time: Some(now),
                ..r.stats
            }
        },
        last_activity: now,
        ..r
    }
}

/// The position of connection `id` among the records, if it is there.
pub open spec fn position_of(records: Seq<ConnectionRecord>, id: u64) -> Option<int> {
    if exists|i: int| 0 <= i < records.len() && records[i].id == id {
        Some(choose|i: int| 0 <= i < records.len() && records[i].id == id)
    } else {
        None
    }
}

/// The table of open connections of a network server: it admits
/// connections up to a limit, numbers them, counts their traffic and drops
/// them when they close.
#[derive(Debug)]
pub struct ConnectionTable {
    max_connections: usize,
    counter: u64,
    records: Vec<ConnectionRecord>,
    stats: ServerStats,
}

impl ConnectionTable {
    /// The most connections open at once.
    pub closed spec fn limit(&self) -> nat {
        self.max_connections as nat
    }

    /// The last connection ID handed out.
    pub closed spec fn last_id(&self) -> u64 {
        self.counter
    }

    /// The open connections, oldest first.
    pub closed spec fn records(&self) -> Seq<ConnectionRecord> {
        self.records@
    }

    /// The server's counters.
    pub closed spec fn spec_stats(&self) -> ServerStats {
        self.stats
    }

    /// The IDs rise from oldest to newest, none past the last handed out.
    pub closed spec fn wf(&self) -> bool {
        &&& forall|i: int, j: int| 0 <= i < j < self.records@.len() ==> self.records@[i].id < self.records@[j].id
        &&& forall|i: int| 0 <= i < self.records@.len() ==> (#[trigger] self.records@[i]).id <= self.counter
    }

    /// An empty table admitting up to `max_connections` connections.
    pub fn new(max_connections: usize) -> (t: Self)
        ensures
            t.wf(),
            t.limit() == max_connections,
            t.last_id() == 0,
            t.records().len() == 0,
            t.spec_stats().total_connections == 0,
            t.spec_stats().active_connections == 0,
            t.spec_stats().peak_connections == 0,
    {
        ConnectionTable { max_connections, counter: 0, records: Vec::new(), stats: ServerStats::default() }
    }

    /// Admit a connection over `transport` at `now`: it gets the next ID
    /// and is connected; refused when the table is full.
    pub fn admit_at(&mut self, transport: TransportType, now: Timestamp) -> (r: Result<u64>)
        requires
            old(self).wf(),
            old(self).last_id() < u64::MAX,
            old(self).spec_stats().total_connections < u64::MAX,
        ensures
            final(self).wf(),
            final(self).limit() == old(self).limit(),
            if old(self).records().len() >= old(self).limit() {
                &&& r matches Err(e) && is_storage_error(e, "Too many connections: "@ + decimal(old(self).limit()))
                &&& final(self).records() == old(self).records()
                &&& final(self).last_id() == old(self).last_id()
                &&& final(self).spec_stats() == old(self).spec_stats()
            } else {
                let id = (old(self).last_id() + 1) as u64;
                let n = old(self).records().len() + 1;
                &&& r == Ok::<u64, Error>(id)
                &&& final(self).last_id() == id
                &&& final(self).records().len() == n
                &&& final(self).records().drop_last() == old(self).records()
                &&& final(self).records().last().id == id
                &&& final(self).records().last().state == ConnectionState::Connected
                &&& final(self).records().last().transport == transport
                &&& final(self).records().last().last_activity == now
                &&& fresh_stats(final(self).records().last().stats)
                &&& final(self).spec_stats() == (ServerStats {
                    total_connections: (old(self).spec_stats().total_connections + 1) as u64,
                    active_connections: n as usize,
                    peak_connections: if old(self).spec_stats().peak_connections >= n { old(self).spec_stats().peak_connections } else { n as usize },
                    ..old(self).spec_stats()
                })
            },
    {
        if self.records.len() >= self.max_connections {
            return Err(Error::TooManyConnections(self.max_connections));
        }
        self.counter = self.counter + 1;
        let record = ConnectionRecord {
            id: self.counter,
            state: ConnectionState::Connected,
            transport,
            stats: ConnectionStats::default(),
            last_activity: now,
        };
        let ghost before = self.records@;
        self.records.push(record);
        proof {
            assert(self.records@.drop_last() =~= before);
        }
        let n = self.records.len();
        self.stats.total_connections = self.stats.total_connections + 1;
        self.stats.active_connections = n;
        if self.stats.peak_connections < n {
            self.stats.peak_connections = n;
        }
        Ok(self.counter)
    }

    fn find(&self, id: u64) -> (r: Option<usize>)
        requires
            self.wf(),
        ensures
            match r {
                Some(i) => i < self.records@.len() && self.records@[i as int].id == id && position_of(self.records@, id) == Some(i as int),
                None => position_of(self.records@, id) is None,
            },
    {
        let mut i: usize = 0;
        while i < self.records.len()
            invariant
                self.wf(),
                i <= self.records@.len(),
                forall|j: int| 0 <= j < i ==> self.records@[j].id != id,
            decreases self.records.len() - i,
        {
            if self.records[i].id == id {
                proof {
                    let c = choose|j: int| 0 <= j < self.records@.len() && self.records@[j].id == id;
                    if c != i as int {
                        assert(self.records@[c].id != self.records@[i as int].id) by {
                            if c < i as int {
                            } else {
                                assert(self.records@[i as int].id < self.records@[c].id);
                            }
                        }
                    }
                }
                return Some(i);
            }
            i = i + 1;
        }
        None
    }

    fn record_message_at(&mut self, id: u64, bytes: usize, sent: bool, now: Timestamp) -> (r: Result<()>)
        requires
            old(self).wf(),
            position_of(old(self).records(), id) matches Some(i) ==> {
                let s = old(self).records()[i].stats;
                if sent {
                    s.bytes_sent + bytes <= u64::MAX && s.messages_sent < u64::MAX
                } else {
                    s.bytes_received + bytes <= u64::MAX && s.messages_received < u64::MAX
                }
            },
        ensures
            final(self).wf(),
            final(self).limit() == old(self).limit(),
            final(self).last_id() == old(self).last_id(),
            final(self).spec_stats() == old(self).spec_stats(),
            match position_of(old(self).records(), id) {
                Some(i) => r is Ok && final(self).records() == old(self).records().update(i, after_message(old(self).records()[i], bytes as nat, sent, now)),
                None => (r matches Err(e) && is_storage_error(e, "Connection not found: "@ + decimal(id as nat))) && final(self).records() == old(self).records(),
            },
    {
        match self.find(id) {
            None => Err(Error::ConnectionNotFound(id)),
            Some(i) => {
                let mut rec = self.records[i];
                if sent {
                    rec.stats.bytes_sent = rec.stats.bytes_sent + bytes as u64;
                    rec.stats.messages_sent = rec.stats.messages_sent + 1;
                } else {
                    rec.stats.bytes_received = rec.stats.bytes_received + bytes as u64;
                    rec.stats.messages_received = rec.stats.messages_received + 1;
                }
                rec.stats.last_message_time = Some(now);
                rec.last_activity = now;
                self.records.set(i, rec);
                Ok(())
            },
        }
    }

    /// Count a message of `bytes` bytes sent on connection `id` at `now`.
    pub fn record_sent_at(&mut self, id: u64, bytes: usize, now: Timestamp) -> (r: Result<()>)
        requires
            old(self).wf(),
            position_of(old(self).records(), id) matches Some(i) ==> old(self).records()[i].stats.bytes_sent + bytes <= u64::MAX
                && old(self).records()[i].stats.messages_sent < u64::MAX,
        ensures
            final(self).wf(),
            final(self).limit() == old(self).limit(),
            final(self).last_id() == old(self).last_id(),
            final(self).spec_stats() == old(self).spec_stats(),
            match position_of(old(self).records(), id) {
                Some(i) => r is Ok && final(self).records() == old(self).records().update(i, after_message(old(self).records()[i], bytes as nat, true, now)),
                None => (r matches Err(e) && is_storage_error(e, "Connection not found: "@ + decimal(id as nat))) && final(self).records() == old(self).records(),
            },
    {
        self.record_message_at(id, bytes, true, now)
    }

    /// Count a message of `bytes` bytes received on connection `id` at
    /// `now`.
    pub fn record_received_at(&mut self, id: u64, bytes: usize, now: Timestamp) -> (r: Result<()>)
        requires
            old(self).wf(),
            position_of(old(self).records(), id) matches Some(i) ==> old(self).records()[i].stats.bytes_received + bytes <= u64::MAX
                && old(self).records()[i].stats.messages_received < u64::MAX,
        ensures
            final(self).wf(),
            final(self).limit() == old(self).limit(),
            final(self).last_id() == old(self).last_id(),
            final(self).spec_stats() == old(self).spec_stats(),
            match position_of(old(self).records(), id) {
                Some(i) => r is Ok && final(self).records() == old(self).records().update(i, after_message(old(self).records()[i], bytes as nat, false, now)),
                None => (r matches Err(e) && is_storage_error(e, "Connection not found: "@ + decimal(id as nat))) && final(self).records() == old(self).records(),
            },
    {
        self.record_message_at(id, bytes, false, now)
    }

    /// Mark connection `id` disconnected; fails for an unknown connection.
    pub fn close(&mut self, id: u64) -> (r: Result<()>)
        requires
            old(self).wf(),
        ensures
            final(self).wf(),
            final(self).limit() == old(self).limit(),
            final(self).last_id() == old(self).last_id(),
            final(self).spec_stats() == old(self).spec_stats(),
            match position_of(old(self).records(), id) {
                Some(i) => r is Ok && final(self).records() == old(self).records().update(i, ConnectionRecord { state: ConnectionState::Disconnected, ..old(self).records()[i] }),
                None => (r matches Err(e) && is_storage_error(e, "Connection not found: "@ + decimal(id as nat))) && final(self).records() == old(self).records(),
            },
    {
        match self.find(id) {
            None => Err(Error::ConnectionNotFound(id)),
            Some(i) => {
                let mut rec = self.records[i];
                rec.state = ConnectionState::Disconnected;
                self.records.set(i, rec);
                Ok(())
            },
        }
    }

    /// Drop connection `id` from the table, if it is there; the count of
    /// active connections follows.
    pub fn remove(&mut self, id: u64)
        requires
            old(self).wf(),
        ensures
            final(self).wf(),
            final(self).limit() == old(self).limit(),
            final(self).last_id() == old(self).last_id(),
            match position_of(old(self).records(), id) {
                Some(i) => final(self).records() == old(self).records().remove(i),
                None => final(self).records() == old(self).records(),
            },
            final(self).spec_stats() == (ServerStats { active_connections: final(self).records().len() as usize, ..old(self).spec_stats() }),
    {
        match self.find(id) {
            None => {},
            Some(i) => {
                let ghost before = self.records@;
                self.records.remove(i);
                proof {
                    assert forall|a: int, b: int| 0 <= a < b < self.records@.len() implies self.records@[a].id < self.records@[b].id by {
                        let a0 = if a < i { a } else { a + 1 };
                        let b0 = if b < i { b } else { b + 1 };
                        assert(self.records@[a] == before[a0]);
                        assert(self.records@[b] == before[b0]);
                    }
                    assert forall|a: int| 0 <= a < self.records@.len() implies (#[trigger] self.records@[a]).id <= self.counter by {
                        let a0 = if a < i { a } else { a + 1 };
                        assert(self.records@[a] == before[a0]);
                    }
                }
            },
        }
        self.stats.active_connections = self.records.len();
    }

    /// The server's counters, with the number of open connections.
    pub fn get_stats(&self) -> (s: ServerStats)
        ensures
            s == (ServerStats { active_connections: self.records().len() as usize, ..self.spec_stats() }),
    {
        let mut s = self.stats;
        s.active_connections = self.records.len();
        s
    }

    /// The counters of connection `id`; fails for an unknown connection.
    pub fn get_connection_stats(&self, id: u64) -> (r: Result<ConnectionStats>)
        requires
            self.wf(),
        ensures
            match position_of(self.records(), id) {
                Some(i) => r == Ok::<ConnectionStats, Error>(self.records()[i].stats),
                None => r matches Err(e) && is_storage_error(e, "Connection not found: "@ + decimal(id as nat)),
            },
    {
        match self.find(id) {
            None => Err(Error::ConnectionNotFound(id)),
            Some(i) => Ok(self.records[i].stats),
        }
    }

    /// The last connection ID handed out.
    pub fn last_connection_id(&self) -> (n: u64)
        ensures
            n == self.last_id(),
    {
        self.counter
    }

    /// The IDs of the open connections, oldest first.
    pub fn connection_ids(&self) -> (r: Vec<u64>)
        ensures
            r@ == self.records().map_values(|c: ConnectionRecord| c.id),
    {
        let mut r: Vec<u64> = Vec::new();
        let mut i: usize = 0;
        while i < self.records.len()
            invariant
                i <= self.records@.len(),
                r@ == self.records@.take(i as int).map_values(|c: ConnectionRecord| c.id),
            decreases self.records.len() - i,
        {
            r.push(self.records[i].id);
            i = i + 1;
            assert(r@ =~= self.records@.take(i as int).map_values(|c: ConnectionRecord| c.id));
        }
        assert(self.records@.take(i as int) =~= self.records@);
        r
    }
}

/// Connection IDs are never reused: the ID a table hands out next lies
/// beyond every ID it holds.
pub proof fn lemma_next_id_is_new(t: &ConnectionTable)
    requires
        t.wf(),
    ensures
        forall|i: int| 0 <= i < t.records().len() ==> (#[trigger] t.records()[i]).id < t.last_id() + 1,
        forall|i: int, j: int| 0 <= i < j < t.records().len() ==> t.records()[i].id != t.records()[j].id,
{
}

} // verus!
