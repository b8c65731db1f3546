//! Raft consensus: the state of one server and how it answers each message.
//!
//! Timers, channels and the event broadcast are the caller's; every
//! decision the server makes on a message or a timeout is here, with the
//! state change it causes, the events it reports and the requests it sends.

use vstd::prelude::*;
use std::time::Duration;
use crate::broker::error::{Error, Result, is_storage_error};
use crate::broker::message::opt_text;
use crate::broker::names::NameMap;
use crate::broker::time::{duration_from_secs, duration_nanos};
use crate::qiss::types::Timestamp;

verus! {

/// Raft configuration.
#[derive(Debug, Clone)]
pub struct RaftConfig {
    /// Node ID
    pub node_id: String,
    /// Cluster nodes
    pub cluster_nodes: Vec<RaftNode>,
    /// Election timeout (milliseconds)
    pub election_timeout_ms: u64,
    /// Heartbeat interval (milliseconds)
    pub heartbeat_interval_ms: u64,
    /// RPC timeout (milliseconds)
    pub rpc_timeout_ms: u64,
    /// Log replication timeout (milliseconds)
    pub replication_timeout_ms: u64,
    /// Maximum log entries per request
    pub max_log_entries_per_request: usize,
    /// Snapshot threshold (number of log entries)
    pub snapshot_threshold: u64,
    /// Enable pre-vote
    pub enable_pre_vote: bool,
    /// Enable single-node optimization
    pub enable_single_node_optimization: bool,
}

impl Default for RaftConfig {
    fn default() -> (c: Self)
        ensures
            c.node_id@ == "node-1"@,
            c.cluster_nodes@.len() == 0,
            c.election_timeout_ms == 150,
            c.heartbeat_interval_ms == 50,
            c.rpc_timeout_ms == 100,
            c.replication_timeout_ms == 200,
            c.max_log_entries_per_request == 1000,
            c.snapshot_threshold == 10000,
            c.enable_pre_vote,
            c.enable_single_node_optimization,
    {
        RaftConfig {
            node_id: "node-1".to_string(),
            cluster_nodes: Vec::new(),
            election_timeout_ms: 150,
            heartbeat_interval_ms: 50,
            rpc_timeout_ms: 100,
            replication_timeout_ms: 200,
            max_log_entries_per_request: 1000,
            snapshot_threshold: 10000,
            enable_pre_vote: true,
            enable_single_node_optimization: true,
        }
    }
}

/// Raft node information.
#[derive(Debug, Clone)]
pub struct RaftNode {
    /// Node ID
    pub node_id: String,
    /// Node address
    pub address: String,
    /// Node port
    pub port: u16,
    /// Node status
    pub status: NodeStatus,
    /// Last contact time
    pub last_contact: Option<Timestamp>,
}

/// Node status.
#[derive(Debug, Clone, Copy, PartialEq, Eq, Structural)]
pub enum NodeStatus {
    /// Follower
    Follower,
    /// Candidate
    Candidate,
    /// Leader
    Leader,
    /// Shutdown
    Shutdown,
}

/// Raft state.
#[derive(Debug, Clone, Copy, PartialEq, Eq, Structural)]
pub enum RaftState {
    /// Follower state
    Follower,
    /// Candidate state
    Candidate,
    /// Leader state
    Leader,
}

/// Log entry type.
#[derive(Debug, Clone, Copy, PartialEq, Eq, Structural)]
pub enum LogEntryType {
    /// Normal log entry
    Normal,
    /// Configuration change
    ConfigChange,
    /// No-op entry
    NoOp,
}

/// Log entry.
#[derive(Debug)]
pub struct LogEntry {
    /// Entry index
    pub index: u64,
    /// Entry term
    pub term: u64,
    /// Entry type
    pub entry_type: LogEntryType,
    /// Entry data
    pub data: Vec<u8>,
    /// Timestamp
    pub timestamp: Timestamp,
}

/// What a log entry holds.
pub struct LogEntryView {
    /// Entry index
    pub index: u64,
    /// Entry term
    pub term: u64,
    /// Entry type
    pub entry_type: LogEntryType,
    /// Entry data
    pub data: Seq<u8>,
    /// Timestamp
    pub timestamp: Timestamp,
}

impl View for LogEntry {
    type V = LogEntryView;

    open spec fn view(&self) -> LogEntryView {
        LogEntryView {
            index: self.index,
            term: self.term,
            entry_type: self.entry_type,
            data: self.data@,
            timestamp: self.timestamp,
        }
    }
}

impl Clone for LogEntry {
    fn clone(&self) -> (r: Self)
        ensures
            r@ == self@,
    {
        LogEntry {
            index: self.index,
            term: self.term,
            entry_type: self.entry_type,
            data: vstd::slice::slice_to_vec(self.data.as_slice()),
            timestamp: self.timestamp,
        }
    }
}

/// Request vote request.
#[derive(Debug, Clone)]
pub struct RequestVoteRequest {
    /// Candidate's term
    pub term: u64,
    /// Candidate requesting vote
    pub candidate_id: String,
    /// Index of candidate's last log entry
    pub last_log_index: u64,
    /// Term of candidate's last log entry
    pub last_log_term: u64,
}

/// Request vote response.
#[derive(Debug, Clone, Copy, PartialEq, Eq, Structural)]
pub struct RequestVoteResponse {
    /// Current term
    pub term: u64,
    /// True means candidate received vote
    pub vote_granted: bool,
}

/// Append entries request.
#[derive(Debug)]
pub struct AppendEntriesRequest {
    /// Leader's term
    pub term: u64,
    /// Leader ID
    pub leader_id: String,
    /// Index of log entry immediately preceding new ones
    pub prev_log_index: u64,
    /// Term of prev_log_index entry
    pub prev_log_term: u64,
    /// Log entries to store
    pub entries: Vec<LogEntry>,
    /// Leader's commit index
    pub leader_commit: u64,
}

/// Append entries response.
#[derive(Debug, Clone, Copy, PartialEq, Eq, Structural)]
pub struct AppendEntriesResponse {
    /// Current term
    pub term: u64,
    /// True if follower contained entry matching prev_log_index and prev_log_term
    pub success: bool,
    /// Index of the last log entry
    pub last_log_index: u64,
}

/// Install snapshot request.
#[derive(Debug, Clone)]
pub struct InstallSnapshotRequest {
    /// Leader's term
    pub term: u64,
    /// Leader ID
    pub leader_id: String,
    /// Last included index
    pub last_included_index: u64,
    /// Last included term
    pub last_included_term: u64,
    /// Offset in the snapshot
    pub offset: u64,
    /// Snapshot data
    pub data: Vec<u8>,
    /// True if this is the last chunk
    pub done: bool,
}

/// Install snapshot response.
#[derive(Debug, Clone, Copy, PartialEq, Eq, Structural)]
pub struct InstallSnapshotResponse {
    /// Current term
    pub term: u64,
}

/// Pre-vote request.
#[derive(Debug, Clone)]
pub struct PreVoteRequest {
    /// Candidate's term
    pub term: u64,
    /// Candidate requesting vote
    pub candidate_id: String,
    /// Index of candidate's last log entry
    pub last_log_index: u64,
    /// Term of candidate's last log entry
    pub last_log_term: u64,
}

/// Pre-vote response.
#[derive(Debug, Clone, Copy, PartialEq, Eq, Structural)]
pub struct PreVoteResponse {
    /// Current term
    pub term: u64,
    /// True means candidate would receive vote
    pub vote_granted: bool,
}

/// Raft message types.
#[derive(Debug)]
pub enum RaftMessage {
    /// Request vote
    RequestVote(RequestVoteRequest),
    /// Request vote response
    RequestVoteResponse(RequestVoteResponse),
    /// Append entries
    AppendEntries(AppendEntriesRequest),
    /// Append entries response
    AppendEntriesResponse(AppendEntriesResponse),
    /// Install snapshot
    InstallSnapshot(InstallSnapshotRequest),
    /// Install snapshot response
    InstallSnapshotResponse(InstallSnapshotResponse),
    /// Pre-vote request
    PreVote(PreVoteRequest),
    /// Pre-vote response
    PreVoteResponse(PreVoteResponse),
}

/// State change event.
#[derive(Debug, Clone)]
pub enum StateChangeEvent {
    /// State changed
    StateChanged(RaftState, RaftState),
    /// Leader elected
    LeaderElected(String, u64),
    /// Term changed
    TermChanged(u64, u64),
    /// Log entry committed
    LogEntryCommitted(u64, u64),
}

/// Raft statistics.
#[derive(Debug, Clone)]
pub struct RaftStats {
    /// Current term
    pub current_term: u64,
    /// Current state
    pub current_state: RaftState,
    /// Leader ID
    pub leader_id: Option<String>,
    /// Log size
    pub log_size: usize,
    /// Commit index
    pub commit_index: u64,
    /// Last applied index
    pub last_applied: u64,
    /// Total votes received
    pub total_votes_received: u64,
    /// Total votes sent
    pub total_votes_sent: u64,
    /// Total append entries sent
    pub total_append_entries_sent: u64,
    /// Total append entries received
    pub total_append_entries_received: u64,
    /// Total snapshots sent
    pub total_snapshots_sent: u64,
    /// Total snapshots received
    pub total_snapshots_received: u64,
    /// Uptime
    pub uptime: Duration,
}

/// The counters a server keeps of the messages it handles.
pub struct RaftCounters {
    /// Vote requests handled
    pub votes_received: u64,
    /// Elections started
    pub votes_sent: u64,
    /// Heartbeat rounds sent
    pub append_entries_sent: u64,
    /// Append entries handled
    pub append_entries_received: u64,
    /// Snapshot responses handled
    pub snapshots_sent: u64,
    /// Snapshots handled
    pub snapshots_received: u64,
}

impl RaftStats {
    /// The counters held by the statistics.
    pub open spec fn counters(&self) -> RaftCounters {
        RaftCounters {
            votes_received: self.total_votes_received,
            votes_sent: self.total_votes_sent,
            append_entries_sent: self.total_append_entries_sent,
            append_entries_received: self.total_append_entries_received,
            snapshots_sent: self.total_snapshots_sent,
            snapshots_received: self.total_snapshots_received,
        }
    }
}

impl Default for RaftStats {
    fn default() -> (s: Self)
        ensures
            s.current_term == 0,
            s.current_state == RaftState::Follower,
            s.leader_id is None,
            s.log_size == 0,
            s.commit_index == 0,
            s.last_applied == 0,
            s.total_votes_received == 0,
            s.total_votes_sent == 0,
            s.total_append_entries_sent == 0,
            s.total_append_entries_received == 0,
            s.total_snapshots_sent == 0,
            s.total_snapshots_received == 0,
            duration_nanos(s.uptime) == 0,
    {
        RaftStats {
            current_term: 0,
            current_state: RaftState::Follower,
            leader_id: None,
            log_size: 0,
            commit_index: 0,
            last_applied: 0,
            total_votes_received: 0,
            total_votes_sent: 0,
            total_append_entries_sent: 0,
            total_append_entries_received: 0,
            total_snapshots_sent: 0,
            total_snapshots_received: 0,
            uptime: duration_from_secs(0),
        }
    }
}

/// The index and term of the last entry of a log, zero for an empty log.
pub open spec fn last_index(log: Seq<LogEntryView>) -> u64 {
    if log.len() == 0 {
        0
    } else {
        log.last().index
    }
}

/// The term of the last entry of a log, zero for an empty log.
pub open spec fn last_term(log: Seq<LogEntryView>) -> u64 {
    if log.len() == 0 {
        0
    } else {
        log.last().term
    }
}

/// A candidate whose last entry has `term` and `index` holds a log at least
/// as up to date as `log`.
pub open spec fn log_up_to_date(log: Seq<LogEntryView>, term: u64, index: u64) -> bool {
    term > last_term(log) || (term == last_term(log) && index >= last_index(log))
}

/// The log's entry before new entries matches `index` and `term`.
pub open spec fn log_matches(log: Seq<LogEntryView>, index: u64, term: u64) -> bool {
    index == 0 || (index <= log.len() && log[index - 1].term == term)
}

/// Raft server: the persistent and volatile state of one node.
pub struct RaftServer {
    config: RaftConfig,
    state: RaftState,
    current_term: u64,
    voted_for: Option<String>,
    log: Vec<LogEntry>,
    commit_index: u64,
    last_applied: u64,
    next_index: NameMap<u64>,
    match_index: NameMap<u64>,
    stats: RaftStats,
}

impl RaftServer {
    /// The server's configuration.
    pub closed spec fn spec_config(&self) -> RaftConfig {
        self.config
    }

    /// The server's role.
    pub closed spec fn role(&self) -> RaftState {
        self.state
    }

    /// The current term.
    pub closed spec fn term(&self) -> u64 {
        self.current_term
    }

    /// The candidate voted for in the current term.
    pub closed spec fn voted(&self) -> Option<Seq<char>> {
        opt_text(self.voted_for)
    }

    /// The log.
    pub closed spec fn log_view(&self) -> Seq<LogEntryView> {
        self.log@.map_values(|e: LogEntry| e@)
    }

    /// The commit index.
    pub closed spec fn committed(&self) -> u64 {
        self.commit_index
    }

    /// The index of the last applied entry.
    pub closed spec fn applied(&self) -> u64 {
        self.last_applied
    }

    /// The next index to send to each peer.
    pub closed spec fn next_indices(&self) -> Map<Seq<char>, u64> {
        self.next_index.map()
    }

    /// The highest index known replicated on each peer.
    pub closed spec fn match_indices(&self) -> Map<Seq<char>, u64> {
        self.match_index.map()
    }

    /// The message counters.
    pub closed spec fn counters(&self) -> RaftCounters {
        self.stats.counters()
    }

    /// How long the server reports it has been up.
    pub closed spec fn uptime(&self) -> Duration {
        self.stats.uptime
    }

    /// The server's invariant: entry `i` of the log has index `i + 1`; the
    /// terms of the log never decrease and none exceeds the current term;
    /// the next index of every peer lies in `1..=len + 1`.
    pub closed spec fn wf(&self) -> bool {
        &&& self.next_index.wf()
        &&& self.match_index.wf()
        &&& forall|i: int| 0 <= i < self.log@.len() ==> (#[trigger] self.log@[i]).index == i + 1
        &&& forall|i: int, j: int|
            0 <= i <= j < self.log@.len() ==> (#[trigger] self.log@[i]).term <= (
            #[trigger] self.log@[j]).term
        &&& forall|i: int| 0 <= i < self.log@.len() ==> (#[trigger] self.log@[i]).term <= self.current_term
        &&& forall|k: Seq<char>|
            #[trigger] self.next_index.map().contains_key(k) ==> 1 <= self.next_index.map()[k]
                <= self.log@.len() + 1
        &&& self.log@.len() < u64::MAX
    }

    /// The invariant seen through the log.
    pub proof fn lemma_wf(&self)
        requires
            self.wf(),
        ensures
            forall|i: int|
                0 <= i < self.log_view().len() ==> (#[trigger] self.log_view()[i]).index == i + 1,
            forall|i: int, j: int|
                0 <= i <= j < self.log_view().len() ==> (#[trigger] self.log_view()[i]).term <= (
                #[trigger] self.log_view()[j]).term,
            forall|i: int|
                0 <= i < self.log_view().len() ==> (#[trigger] self.log_view()[i]).term
                    <= self.term(),
            last_index(self.log_view()) == self.log_view().len(),
    {
    }

    /// A server in the follower role at term 0 with an empty log.
    pub fn new(config: RaftConfig) -> (s: Self)
        ensures
            s.wf(),
            s.spec_config() == config,
            s.role() == RaftState::Follower,
            s.term() == 0,
            s.voted() is None,
            s.log_view().len() == 0,
            s.committed() == 0,
            s.applied() == 0,
            s.next_indices() == Map::<Seq<char>, u64>::empty(),
            s.match_indices() == Map::<Seq<char>, u64>::empty(),
            s.counters() == RaftStats::default_counters(),
    {
        let s = RaftServer {
            config,
            state: RaftState::Follower,
            current_term: 0,
            voted_for: None,
            log: Vec::new(),
            commit_index: 0,
            last_applied: 0,
            next_index: NameMap::new(),
            match_index: NameMap::new(),
            stats: RaftStats::default(),
        };
        assert(s.log_view() =~= Seq::<LogEntryView>::empty());
        s
    }

    /// Stop the server: it steps back to the follower role (Raft has no
    /// shutdown role).
    pub fn stop(&mut self) -> (r: Result<()>)
        requires
            old(self).wf(),
        ensures
            final(self).wf(),
            r is Ok,
            final(self).role() == RaftState::Follower,
            final(self).term() == old(self).term(),
            final(self).voted() == old(self).voted(),
            final(self).log_view() == old(self).log_view(),
    {
        self.state = RaftState::Follower;
        Ok(())
    }

    /// The index the next proposed entry gets.
    pub fn get_next_log_index(&self) -> (i: u64)
        requires
            self.wf(),
        ensures
            i == last_index(self.log_view()) + 1,
    {
        let n = self.log.len();
        if n == 0 {
            1
        } else {
            assert(self.log_view().last() == self.log@[n - 1]@);
            self.log[n - 1].index + 1
        }
    }

    /// The index of the last log entry, zero for an empty log.
    pub fn get_last_log_index(&self) -> (i: u64)
        ensures
            i == last_index(self.log_view()),
    {
        let n = self.log.len();
        if n == 0 {
            0
        } else {
            assert(self.log_view().last() == self.log@[n - 1]@);
            self.log[n - 1].index
        }
    }

    /// The term of the last log entry, zero for an empty log.
    pub fn get_last_log_term(&self) -> (t: u64)
        ensures
            t == last_term(self.log_view()),
    {
        let n = self.log.len();
        if n == 0 {
            0
        } else {
            assert(self.log_view().last() == self.log@[n - 1]@);
            self.log[n - 1].term
        }
    }

    /// Set every peer's next index just after the last entry and its match
    /// index to zero.
    pub fn initialize_server_indices(&mut self)
        requires
            old(self).wf(),
        ensures
            final(self).wf(),
            final(self).role() == old(self).role(),
            final(self).term() == old(self).term(),
            final(self).voted() == old(self).voted(),
            final(self).log_view() == old(self).log_view(),
            final(self).spec_config() == old(self).spec_config(),
            forall|i: int|
                0 <= i < old(self).spec_config().cluster_nodes@.len()
                    && #[trigger] old(self).spec_config().cluster_nodes@[i].node_id@
                    != old(self).spec_config().node_id@ ==> {
                    let id = old(self).spec_config().cluster_nodes@[i].node_id@;
                    &&& final(self).next_indices().contains_key(id)
                    &&& final(self).match_indices().contains_key(id)
                    &&& final(self).match_indices()[id] == 0
                },
            forall|id: Seq<char>| #[trigger]
                final(self).next_indices().contains_key(id) ==> final(self).next_indices()[id]
                    == last_index(old(self).log_view()) + 1 || (old(self).next_indices().contains_key(id) && final(self).next_indices()[id] == old(self).next_indices()[id]),
    {
        let last = self.get_last_log_index();
        let mut i: usize = 0;
        while i < self.config.cluster_nodes.len()
            invariant
                self.wf(),
                i <= self.config.cluster_nodes@.len(),
                self.config == old(self).config,
                self.state == old(self).state,
                self.current_term == old(self).current_term,
                self.voted_for == old(self).voted_for,
                self.log@ == old(self).log@,
                last == last_index(old(self).log_view()),
                forall|j: int|
                    0 <= j < i && #[trigger] self.config.cluster_nodes@[j].node_id@
                        != self.config.node_id@ ==> {
                        let id = self.config.cluster_nodes@[j].node_id@;
                        &&& self.next_index.map().contains_key(id)
                        &&& self.match_index.map().contains_key(id)
                        &&& self.match_index.map()[id] == 0
                    },
                forall|id: Seq<char>| #[trigger]
                    self.next_index.map().contains_key(id) ==> self.next_index.map()[id]
                        == last + 1 || (old(self).next_index.map().contains_key(id) && self.next_index.map()[id] == old(self).next_index.map()[id]),
            decreases self.config.cluster_nodes.len() - i,
        {
            proof {
                self.lemma_wf();
            }
            if self.config.cluster_nodes[i].node_id != self.config.node_id {
                let id = self.config.cluster_nodes[i].node_id.clone();
                let id2 = self.config.cluster_nodes[i].node_id.clone();
                self.next_index.insert(id, last + 1);
                self.match_index.insert(id2, 0);
            }
            i = i + 1;
        }
    }

    /// The current role.
    pub fn get_state(&self) -> (s: RaftState)
        ensures
            s == self.role(),
    {
        self.state
    }

    /// The current term.
    pub fn get_current_term(&self) -> (t: u64)
        ensures
            t == self.term(),
    {
        self.current_term
    }

    /// The leader's ID: this node's when it leads, otherwise unknown.
    pub fn get_leader_id(&self) -> (r: Option<String>)
        ensures
            r matches Some(id) ==> id@ == self.spec_config().node_id@,
            r is Some <==> self.role() == RaftState::Leader,
    {
        if self.state == RaftState::Leader {
            Some(self.config.node_id.clone())
        } else {
            None
        }
    }

    /// `after` is this server after `data` was proposed at `now` with result
    /// `r`: a leader appends it as a normal entry of the current term and
    /// returns its index; any other node refuses and changes nothing.
    pub open spec fn proposed(&self, after: &RaftServer, data: Seq<u8>, now: Timestamp, r: Result<u64>) -> bool {
        &&& after.wf()
        &&& after.role() == self.role()
        &&& after.term() == self.term()
        &&& after.voted() == self.voted()
        &&& after.committed() == self.committed()
        &&& after.next_indices() == self.next_indices()
        &&& if self.role() != RaftState::Leader {
            &&& r matches Err(e) && is_storage_error(e, "Not the leader"@)
            &&& after.log_view() == self.log_view()
        } else {
            &&& r == Ok::<u64, Error>((last_index(self.log_view()) + 1) as u64)
            &&& after.log_view() == self.log_view().push(
                LogEntryView {
                    index: (last_index(self.log_view()) + 1) as u64,
                    term: self.term(),
                    entry_type: LogEntryType::Normal,
                    data,
                    timestamp: now,
                },
            )
        }
    }

    /// Propose `data` at `now` (see `proposed`).
    pub fn propose_at(&mut self, data: Vec<u8>, now: Timestamp) -> (r: Result<u64>)
        requires
            old(self).wf(),
            old(self).log_view().len() + 1 < u64::MAX,
        ensures
            old(self).proposed(final(self), data@, now, r),
    {
        if self.state != RaftState::Leader {
            return Err(Error::NotLeader());
        }
        proof {
            self.lemma_wf();
        }
        let term = self.current_term;
        let log_index = self.get_next_log_index();
        let entry = LogEntry {
            index: log_index,
            term,
            entry_type: LogEntryType::Normal,
            data,
            timestamp: now,
        };
        let ghost old_log = self.log@;
        let ghost e = entry@;
        self.log.push(entry);
        assert(self.log_view() =~= old(self).log_view().push(e));
        assert forall|i: int, j: int|
            0 <= i <= j < self.log@.len() implies (#[trigger] self.log@[i]).term <= (
            #[trigger] self.log@[j]).term by {
            if j < old_log.len() {
                assert(self.log@[i] == old_log[i]);
                assert(self.log@[j] == old_log[j]);
            } else if i < old_log.len() {
                assert(self.log@[i] == old_log[i]);
            }
        }
        assert forall|i: int| 0 <= i < self.log@.len() implies (#[trigger] self.log@[i]).index
            == i + 1 && self.log@[i].term <= self.current_term by {
            if i < old_log.len() {
                assert(self.log@[i] == old_log[i]);
            }
        }
        assert forall|k: Seq<char>| #[trigger] self.next_index.map().contains_key(k) implies 1
            <= self.next_index.map()[k] <= self.log@.len() + 1 by {}
        Ok(log_index)
    }

    /// Propose `data` now.
    pub fn propose(&mut self, data: Vec<u8>) -> (r: Result<u64>)
        requires
            old(self).wf(),
            old(self).log_view().len() + 1 < u64::MAX,
        ensures
            final(self).wf(),
            final(self).term() == old(self).term(),
            r is Ok <==> old(self).role() == RaftState::Leader,
            r matches Ok(i) ==> i == last_index(old(self).log_view()) + 1
                && final(self).log_view().len() == old(self).log_view().len() + 1,
            exists|now: Timestamp| #[trigger] old(self).proposed(final(self), data@, now, r),
    {
        self.propose_at(data, Timestamp::now())
    }
}

/// The term a server holds after seeing a message of term `seen`.
pub open spec fn next_term(current: u64, seen: u64) -> u64 {
    if seen > current {
        seen
    } else {
        current
    }
}

/// The vote a server holds after seeing a vote request of term `seen`: a
/// later term clears it.
pub open spec fn vote_after_term(voted: Option<Seq<char>>, current: u64, seen: u64) -> Option<
    Seq<char>,
> {
    if seen > current {
        None
    } else {
        voted
    }
}

/// Whether a server at `term`, holding `voted` and `log`, grants `request`.
pub open spec fn grants_vote(
    term: u64,
    voted: Option<Seq<char>>,
    log: Seq<LogEntryView>,
    request: RequestVoteRequest,
) -> bool {
    &&& request.term == term
    &&& (voted is None || voted == Some(request.candidate_id@))
    &&& log_up_to_date(log, request.last_log_term, request.last_log_index)
}

/// The commit index a follower takes from an accepted append: the leader's,
/// bounded by the last index the request covers.
pub open spec fn follower_commit(leader_commit: u64, prev_log_index: u64, count: nat) -> u64 {
    if leader_commit <= prev_log_index + count {
        leader_commit
    } else {
        (prev_log_index + count) as u64
    }
}

impl RaftServer {
    /// Answer a vote request. A request of a later term moves the server to
    /// that term and clears its vote; this is reported as a term change from
    /// one below the request's term. The vote goes to the candidate when the
    /// request's term is the current one, the server has voted for no other
    /// candidate in it, and the candidate's log is at least as up to date as
    /// the server's.
    pub fn handle_request_vote(&mut self, request: RequestVoteRequest) -> (r: (
        RequestVoteResponse,
        Option<StateChangeEvent>,
    ))
        requires
            old(self).wf(),
            old(self).counters().votes_received < u64::MAX,
        ensures
            final(self).wf(),
            final(self).spec_config() == old(self).spec_config(),
            final(self).role() == old(self).role(),
            final(self).log_view() == old(self).log_view(),
            final(self).committed() == old(self).committed(),
            final(self).applied() == old(self).applied(),
            final(self).next_indices() == old(self).next_indices(),
            final(self).match_indices() == old(self).match_indices(),
            final(self).term() == next_term(old(self).term(), request.term),
            r.1 == (if request.term > old(self).term() {
                Some(StateChangeEvent::TermChanged((request.term - 1) as u64, request.term))
            } else {
                None
            }),
            ({
                let voted = vote_after_term(old(self).voted(), old(self).term(), request.term);
                let granted = grants_vote(
                    final(self).term(),
                    voted,
                    old(self).log_view(),
                    request,
                );
                &&& r.0 == RequestVoteResponse { term: final(self).term(), vote_granted: granted }
                &&& final(self).voted() == if granted {
                    Some(request.candidate_id@)
                } else {
                    voted
                }
            }),
            final(self).counters() == (RaftCounters {
                votes_received: (old(self).counters().votes_received + 1) as u64,
                ..old(self).counters()
            }),
            final(self).term() >= old(self).term(),
            old(self).voted() is Some && final(self).term() == old(self).term()
                ==> final(self).voted() == old(self).voted(),
            r.0.vote_granted ==> final(self).voted() == Some(request.candidate_id@),
    {
        let mut event = None;
        if request.term > self.current_term {
            self.current_term = request.term;
            self.voted_for = None;
            event = Some(StateChangeEvent::TermChanged(request.term - 1, request.term));
        }
        let last_log_index = self.get_last_log_index();
        let last_log_term = self.get_last_log_term();
        let may_vote = match &self.voted_for {
            None => true,
            Some(c) => *c == request.candidate_id,
        };
        let mut granted = false;
        if request.term == self.current_term && may_vote && (request.last_log_term > last_log_term
            || (request.last_log_term == last_log_term && request.last_log_index
            >= last_log_index)) {
            self.voted_for = Some(request.candidate_id.clone());
            granted = true;
        }
        self.stats.total_votes_received = self.stats.total_votes_received + 1;
        (RequestVoteResponse { term: self.current_term, vote_granted: granted }, event)
    }

    /// Take a vote response. A candidate that sees a later term steps down
    /// to follower at that term; nothing else changes.
    pub fn handle_request_vote_response(&mut self, response: RequestVoteResponse) -> (r: Option<
        StateChangeEvent,
    >)
        requires
            old(self).wf(),
        ensures
            final(self).wf(),
            final(self).spec_config() == old(self).spec_config(),
            final(self).voted() == old(self).voted(),
            final(self).log_view() == old(self).log_view(),
            final(self).committed() == old(self).committed(),
            final(self).applied() == old(self).applied(),
            final(self).next_indices() == old(self).next_indices(),
            final(self).match_indices() == old(self).match_indices(),
            final(self).counters() == old(self).counters(),
            if old(self).role() == RaftState::Candidate && response.term > old(self).term() {
                &&& final(self).role() == RaftState::Follower
                &&& final(self).term() == response.term
                &&& r == Some(StateChangeEvent::StateChanged(RaftState::Candidate, RaftState::Follower))
            } else {
                &&& final(self).role() == old(self).role()
                &&& final(self).term() == old(self).term()
                &&& r is None
            },
            final(self).term() >= old(self).term(),
    {
        if self.state != RaftState::Candidate {
            return None;
        }
        if response.term > self.current_term {
            self.state = RaftState::Follower;
            self.current_term = response.term;
            return Some(StateChangeEvent::StateChanged(RaftState::Candidate, RaftState::Follower));
        }
        None
    }

    /// Take an append entries request. One of the current term or later
    /// makes the server a follower at that term (reported as a change from
    /// follower to follower); it succeeds when the log holds the entry the
    /// request builds on, and then the commit index becomes the leader's,
    /// bounded by the last index the request covers. The entries themselves
    /// are not stored.
    pub fn handle_append_entries(&mut self, request: AppendEntriesRequest) -> (r: (
        AppendEntriesResponse,
        Option<StateChangeEvent>,
    ))
        requires
            old(self).wf(),
            old(self).counters().append_entries_received < u64::MAX,
        ensures
            final(self).wf(),
            final(self).spec_config() == old(self).spec_config(),
            final(self).voted() == old(self).voted(),
            final(self).log_view() == old(self).log_view(),
            final(self).applied() == old(self).applied(),
            final(self).next_indices() == old(self).next_indices(),
            final(self).match_indices() == old(self).match_indices(),
            final(self).counters() == (RaftCounters {
                append_entries_received: (old(self).counters().append_entries_received
                    + 1) as u64,
                ..old(self).counters()
            }),
            ({
                let accepted = request.term >= old(self).term();
                let success = accepted && log_matches(
                    old(self).log_view(),
                    request.prev_log_index,
                    request.prev_log_term,
                );
                &&& final(self).term() == if accepted {
                    request.term
                } else {
                    old(self).term()
                }
                &&& final(self).role() == if accepted {
                    RaftState::Follower
                } else {
                    old(self).role()
                }
                &&& r.1 == if accepted {
                    Some(StateChangeEvent::StateChanged(RaftState::Follower, RaftState::Follower))
                } else {
                    None
                }
                &&& final(self).committed() == if success {
                    follower_commit(
                        request.leader_commit,
                        request.prev_log_index,
                        request.entries@.len(),
                    )
                } else {
                    old(self).committed()
                }
                &&& r.0 == AppendEntriesResponse {
                    term: final(self).term(),
                    success,
                    last_log_index: last_index(old(self).log_view()),
                }
            }),
            final(self).term() >= old(self).term(),
    {
        proof {
            self.lemma_wf();
        }
        let mut event = None;
        let mut success = false;
        if request.term >= self.current_term {
            self.current_term = request.term;
            self.state = RaftState::Follower;
            event = Some(StateChangeEvent::StateChanged(RaftState::Follower, RaftState::Follower));
            let prev = request.prev_log_index;
            if prev == 0 {
                success = true;
            } else if prev <= self.log.len() as u64 {
                assert(self.log_view()[prev - 1] == self.log@[prev - 1]@);
                if self.log[(prev - 1) as usize].term == request.prev_log_term {
                    success = true;
                }
            }
        }
        if success {
            let bound: u128 = request.prev_log_index as u128 + request.entries.len() as u128;
            if (request.leader_commit as u128) <= bound {
                self.commit_index = request.leader_commit;
            } else {
                self.commit_index = bound as u64;
            }
        }
        self.stats.total_append_entries_received = self.stats.total_append_entries_received + 1;
        let last = self.get_last_log_index();
        (
            AppendEntriesResponse { term: self.current_term, success, last_log_index: last },
            event,
        )
    }

    /// Take an append entries response. A leader that sees a later term
    /// steps down to follower at that term; nothing else changes.
    pub fn handle_append_entries_response(&mut self, response: AppendEntriesResponse) -> (r:
        Option<StateChangeEvent>)
        requires
            old(self).wf(),
        ensures
            final(self).wf(),
            final(self).spec_config() == old(self).spec_config(),
            final(self).voted() == old(self).voted(),
            final(self).log_view() == old(self).log_view(),
            final(self).committed() == old(self).committed(),
            final(self).applied() == old(self).applied(),
            final(self).next_indices() == old(self).next_indices(),
            final(self).match_indices() == old(self).match_indices(),
            final(self).counters() == old(self).counters(),
            if old(self).role() == RaftState::Leader && response.term > old(self).term() {
                &&& final(self).role() == RaftState::Follower
                &&& final(self).term() == response.term
                &&& r == Some(StateChangeEvent::StateChanged(RaftState::Leader, RaftState::Follower))
            } else {
                &&& final(self).role() == old(self).role()
                &&& final(self).term() == old(self).term()
                &&& r is None
            },
            final(self).term() >= old(self).term(),
    {
        if self.state != RaftState::Leader {
            return None;
        }
        if response.term > self.current_term {
            self.state = RaftState::Follower;
            self.current_term = response.term;
            return Some(StateChangeEvent::StateChanged(RaftState::Leader, RaftState::Follower));
        }
        None
    }

    /// Take a snapshot chunk: only counted.
    pub fn handle_install_snapshot(&mut self, request: InstallSnapshotRequest)
        requires
            old(self).wf(),
            old(self).counters().snapshots_received < u64::MAX,
        ensures
            final(self).wf(),
            final(self).spec_config() == old(self).spec_config(),
            final(self).role() == old(self).role(),
            final(self).term() == old(self).term(),
            final(self).voted() == old(self).voted(),
            final(self).log_view() == old(self).log_view(),
            final(self).committed() == old(self).committed(),
            final(self).applied() == old(self).applied(),
            final(self).next_indices() == old(self).next_indices(),
            final(self).match_indices() == old(self).match_indices(),
            final(self).counters() == (RaftCounters {
                snapshots_received: (old(self).counters().snapshots_received + 1) as u64,
                ..old(self).counters()
            }),
    {
        self.stats.total_snapshots_received = self.stats.total_snapshots_received + 1;
    }

    /// Take a snapshot response: only counted.
    pub fn handle_install_snapshot_response(&mut self, response: InstallSnapshotResponse)
        requires
            old(self).wf(),
            old(self).counters().snapshots_sent < u64::MAX,
        ensures
            final(self).wf(),
            final(self).spec_config() == old(self).spec_config(),
            final(self).role() == old(self).role(),
            final(self).term() == old(self).term(),
            final(self).voted() == old(self).voted(),
            final(self).log_view() == old(self).log_view(),
            final(self).committed() == old(self).committed(),
            final(self).applied() == old(self).applied(),
            final(self).next_indices() == old(self).next_indices(),
            final(self).match_indices() == old(self).match_indices(),
            final(self).counters() == (RaftCounters {
                snapshots_sent: (old(self).counters().snapshots_sent + 1) as u64,
                ..old(self).counters()
            }),
    {
        self.stats.total_snapshots_sent = self.stats.total_snapshots_sent + 1;
    }
}

/// The IDs of the nodes of `nodes` other than `id`, in order.
pub open spec fn peer_ids(nodes: Seq<RaftNode>, id: Seq<char>) -> Seq<Seq<char>>
    decreases nodes.len(),
{
    if nodes.len() == 0 {
        Seq::empty()
    } else {
        let rest = peer_ids(nodes.drop_last(), id);
        if nodes.last().node_id@ != id {
            rest.push(nodes.last().node_id@)
        } else {
            rest
        }
    }
}

/// The next index of a peer: the recorded one, else 1.
pub open spec fn next_for(next: Map<Seq<char>, u64>, id: Seq<char>) -> u64 {
    if next.contains_key(id) {
        next[id]
    } else {
        1
    }
}

/// The term of the entry at `index` (counted from 1), zero where there is none.
pub open spec fn term_at(log: Seq<LogEntryView>, index: u64) -> u64 {
    if index == 0 || index > log.len() {
        0
    } else {
        log[index - 1].term
    }
}

/// The views of a sequence of log entries.
pub open spec fn entries_view(entries: Seq<LogEntry>) -> Seq<LogEntryView> {
    entries.map_values(|e: LogEntry| e@)
}

/// `m` asks for a vote for `candidate` at `term`, naming the last entry of `log`.
pub open spec fn is_vote_request(
    m: RaftMessage,
    term: u64,
    candidate: Seq<char>,
    log: Seq<LogEntryView>,
) -> bool {
    &&& m matches RaftMessage::RequestVote(req)
    &&& req.term == term
    &&& req.candidate_id@ == candidate
    &&& req.last_log_index == last_index(log)
    &&& req.last_log_term == last_term(log)
}

/// `m` is the append entries request a leader at `term` sends a peer whose
/// next index is `next`: it builds on the entry before `next` and carries
/// every entry from `next` on.
pub open spec fn is_heartbeat(
    m: RaftMessage,
    term: u64,
    leader: Seq<char>,
    log: Seq<LogEntryView>,
    next: u64,
    commit: u64,
) -> bool {
    &&& m matches RaftMessage::AppendEntries(req)
    &&& req.term == term
    &&& req.leader_id@ == leader
    &&& req.prev_log_index == next - 1
    &&& req.prev_log_term == term_at(log, (next - 1) as u64)
    &&& entries_view(req.entries@) == log.subrange(next - 1, log.len() as int)
    &&& req.leader_commit == commit
}

impl RaftServer {
    fn log_suffix(&self, start: usize) -> (v: Vec<LogEntry>)
        requires
            start <= self.log@.len(),
        ensures
            entries_view(v@) == self.log_view().subrange(start as int, self.log_view().len() as int),
    {
        let mut v: Vec<LogEntry> = Vec::new();
        let mut i = start;
        while i < self.log.len()
            invariant
                start <= i <= self.log@.len(),
                entries_view(v@) == self.log_view().subrange(start as int, i as int),
            decreases self.log.len() - i,
        {
            let e = self.log[i].clone();
            let ghost before = v@;
            v.push(e);
            assert(entries_view(v@) =~= entries_view(before).push(e@));
            assert(self.log_view().subrange(start as int, i + 1) =~= self.log_view().subrange(
                start as int,
                i as int,
            ).push(self.log@[i as int]@));
            i = i + 1;
        }
        v
    }

    /// Start an election: become a candidate in the next term, vote for
    /// itself, and ask every other node of the cluster for its vote.
    pub fn start_election(&mut self) -> (r: (StateChangeEvent, Vec<RaftMessage>))
        requires
            old(self).wf(),
            old(self).term() < u64::MAX,
            old(self).counters().votes_sent < u64::MAX,
        ensures
            final(self).wf(),
            final(self).spec_config() == old(self).spec_config(),
            final(self).role() == RaftState::Candidate,
            final(self).term() == old(self).term() + 1,
            final(self).voted() == Some(old(self).spec_config().node_id@),
            final(self).log_view() == old(self).log_view(),
            final(self).committed() == old(self).committed(),
            final(self).applied() == old(self).applied(),
            final(self).next_indices() == old(self).next_indices(),
            final(self).match_indices() == old(self).match_indices(),
            final(self).counters() == (RaftCounters {
                votes_sent: (old(self).counters().votes_sent + 1) as u64,
                ..old(self).counters()
            }),
            r.0 == StateChangeEvent::StateChanged(RaftState::Follower, RaftState::Candidate),
            r.1@.len() == peer_ids(
                old(self).spec_config().cluster_nodes@,
                old(self).spec_config().node_id@,
            ).len(),
            forall|k: int|
                0 <= k < r.1@.len() ==> is_vote_request(
                    #[trigger] r.1@[k],
                    final(self).term(),
                    old(self).spec_config().node_id@,
                    old(self).log_view(),
                ),
    {
        self.state = RaftState::Candidate;
        self.current_term = self.current_term + 1;
        self.voted_for = Some(self.config.node_id.clone());
        let last_log_index = self.get_last_log_index();
        let last_log_term = self.get_last_log_term();
        let term = self.current_term;
        let mut messages: Vec<RaftMessage> = Vec::new();
        let mut i: usize = 0;
        while i < self.config.cluster_nodes.len()
            invariant
                i <= self.config.cluster_nodes@.len(),
                self.config == old(self).config,
                self.log@ == old(self).log@,
                term == self.current_term,
                last_log_index == last_index(self.log_view()),
                last_log_term == last_term(self.log_view()),
                messages@.len() == peer_ids(
                    self.config.cluster_nodes@.subrange(0, i as int),
                    self.config.node_id@,
                ).len(),
                forall|k: int|
                    0 <= k < messages@.len() ==> is_vote_request(
                        #[trigger] messages@[k],
                        term,
                        self.config.node_id@,
                        self.log_view(),
                    ),
            decreases self.config.cluster_nodes.len() - i,
        {
            assert(self.config.cluster_nodes@.subrange(0, i + 1).drop_last()
                =~= self.config.cluster_nodes@.subrange(0, i as int));
            if self.config.cluster_nodes[i].node_id != self.config.node_id {
                let request = RequestVoteRequest {
                    term,
                    candidate_id: self.config.node_id.clone(),
                    last_log_index,
                    last_log_term,
                };
                messages.push(RaftMessage::RequestVote(request));
            }
            i = i + 1;
        }
        assert(self.config.cluster_nodes@.subrange(0, i as int) =~= self.config.cluster_nodes@);
        self.stats.total_votes_sent = self.stats.total_votes_sent + 1;
        (StateChangeEvent::StateChanged(RaftState::Follower, RaftState::Candidate), messages)
    }

    /// Send a heartbeat: for every other node of the cluster, an append
    /// entries request built on the entry before that node's next index
    /// (1 where none is recorded), carrying every entry from it on.
    pub fn send_heartbeat(&mut self) -> (r: Vec<RaftMessage>)
        requires
            old(self).wf(),
            old(self).counters().append_entries_sent < u64::MAX,
        ensures
            final(self).wf(),
            final(self).spec_config() == old(self).spec_config(),
            final(self).role() == old(self).role(),
            final(self).term() == old(self).term(),
            final(self).voted() == old(self).voted(),
            final(self).log_view() == old(self).log_view(),
            final(self).committed() == old(self).committed(),
            final(self).applied() == old(self).applied(),
            final(self).next_indices() == old(self).next_indices(),
            final(self).match_indices() == old(self).match_indices(),
            final(self).counters() == (RaftCounters {
                append_entries_sent: (old(self).counters().append_entries_sent + 1) as u64,
                ..old(self).counters()
            }),
            ({
                let peers = peer_ids(
                    old(self).spec_config().cluster_nodes@,
                    old(self).spec_config().node_id@,
                );
                &&& r@.len() == peers.len()
                &&& forall|k: int|
                    0 <= k < r@.len() ==> is_heartbeat(
                        #[trigger] r@[k],
                        old(self).term(),
                        old(self).spec_config().node_id@,
                        old(self).log_view(),
                        next_for(old(self).next_indices(), peers[k]),
                        old(self).committed(),
                    )
            }),
    {
        let mut messages: Vec<RaftMessage> = Vec::new();
        let mut i: usize = 0;
        while i < self.config.cluster_nodes.len()
            invariant
                self.wf(),
                *self == *old(self),
                i <= self.config.cluster_nodes@.len(),
                ({
                    let peers = peer_ids(
                        self.config.cluster_nodes@.subrange(0, i as int),
                        self.config.node_id@,
                    );
                    &&& messages@.len() == peers.len()
                    &&& forall|k: int|
                        0 <= k < messages@.len() ==> is_heartbeat(
                            #[trigger] messages@[k],
                            self.current_term,
                            self.config.node_id@,
                            self.log_view(),
                            next_for(self.next_index.map(), peers[k]),
                            self.commit_index,
                        )
                }),
            decreases self.config.cluster_nodes.len() - i,
        {
            let ghost before = self.config.cluster_nodes@.subrange(0, i as int);
            assert(self.config.cluster_nodes@.subrange(0, i + 1).drop_last() =~= before);
            if self.config.cluster_nodes[i].node_id != self.config.node_id {
                let id = &self.config.cluster_nodes[i].node_id;
                let next = match self.next_index.get(id.as_str()) {
                    Some(n) => *n,
                    None => 1,
                };
                let prev_log_index = next - 1;
                let prev_log_term = if prev_log_index == 0 {
                    0
                } else if prev_log_index <= self.log.len() as u64 {
                    assert(self.log_view()[prev_log_index - 1] == self.log@[prev_log_index - 1]@);
                    self.log[(prev_log_index - 1) as usize].term
                } else {
                    0
                };
                let entries = self.log_suffix(prev_log_index as usize);
                let request = AppendEntriesRequest {
                    term: self.current_term,
                    leader_id: self.config.node_id.clone(),
                    prev_log_index,
                    prev_log_term,
                    entries,
                    leader_commit: self.commit_index,
                };
                let ghost old_msgs = messages@;
                messages.push(RaftMessage::AppendEntries(request));
                proof {
                    let peers = peer_ids(
                        self.config.cluster_nodes@.subrange(0, i + 1),
                        self.config.node_id@,
                    );
                    assert(peers == peer_ids(before, self.config.node_id@).push(id@));
                    assert forall|k: int| 0 <= k < messages@.len() implies is_heartbeat(
                        #[trigger] messages@[k],
                        self.current_term,
                        self.config.node_id@,
                        self.log_view(),
                        next_for(self.next_index.map(), peers[k]),
                        self.commit_index,
                    ) by {
                        if k < old_msgs.len() {
                            assert(messages@[k] == old_msgs[k]);
                        }
                    }
                }
            }
            i = i + 1;
        }
        assert(self.config.cluster_nodes@.subrange(0, i as int) =~= self.config.cluster_nodes@);
        self.stats.total_append_entries_sent = self.stats.total_append_entries_sent + 1;
        messages
    }

    /// The statistics, with the server's current term, role, leader, log
    /// size and indices.
    pub fn get_stats(&self) -> (s: RaftStats)
        ensures
            s.current_term == self.term(),
            s.current_state == self.role(),
            opt_text(s.leader_id) == if self.role() == RaftState::Leader {
                Some(self.spec_config().node_id@)
            } else {
                None
            },
            s.log_size == self.log_view().len(),
            s.commit_index == self.committed(),
            s.last_applied == self.applied(),
            s.counters() == self.counters(),
            s.uptime == self.uptime(),
    {
        let leader_id = if self.state == RaftState::Leader {
            Some(self.config.node_id.clone())
        } else {
            None
        };
        RaftStats {
            current_term: self.current_term,
            current_state: self.state,
            leader_id,
            log_size: self.log.len(),
            commit_index: self.commit_index,
            last_applied: self.last_applied,
            total_votes_received: self.stats.total_votes_received,
            total_votes_sent: self.stats.total_votes_sent,
            total_append_entries_sent: self.stats.total_append_entries_sent,
            total_append_entries_received: self.stats.total_append_entries_received,
            total_snapshots_sent: self.stats.total_snapshots_sent,
            total_snapshots_received: self.stats.total_snapshots_received,
            uptime: self.stats.uptime.clone(),
        }
    }
}

impl RaftStats {
    /// The counters of fresh statistics: all zero.
    pub open spec fn default_counters() -> RaftCounters {
        RaftCounters {
            votes_received: 0,
            votes_sent: 0,
            append_entries_sent: 0,
            append_entries_received: 0,
            snapshots_sent: 0,
            snapshots_received: 0,
        }
    }
}

} // verus!
