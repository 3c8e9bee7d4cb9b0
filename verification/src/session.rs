//! Sessions: the state of one run of the terminal and of its connections.

use vstd::prelude::*;
use crate::taskgraph::TaskGraph;
use crate::clock::unix_millis;
use crate::ident::new_id;

verus! {

/// MCP connection state
#[derive(Debug, Clone)]
pub struct McpConnectionState {
    /// Server name
    pub name: String,
    /// Whether connected
    pub connected: bool,
    /// Available tools count
    pub tools_count: usize,
    /// Last error (if any)
    pub last_error: Option<String>,
}

/// Session status
#[derive(Debug, Clone, Copy, PartialEq, Eq, Structural)]
pub enum SessionStatus {
    /// Session is active
    Active,
    /// Session completed normally
    Completed,
    /// Session crashed
    Crashed,
}

impl SessionStatus {
    /// Whether the session is still going on
    pub fn is_active(&self) -> (r: bool)
        ensures
            r == (*self == SessionStatus::Active),
    {
        match self {
            SessionStatus::Active => true,
            _ => false,
        }
    }
}

/// `serde_json::Value`, carried as an opaque value.
#[verifier::external_type_specification]
#[verifier::external_body]
pub struct ExJsonValue(serde_json::Value);

/// Session - a single run of the terminal. Times are milliseconds since the
/// Unix epoch.
pub struct Session {
    /// Unique session ID
    pub id: u128,
    /// Working directory
    pub working_dir: String,
    /// Session start time
    pub started_at: i64,
    /// Session end time (if ended)
    pub ended_at: Option<i64>,
    /// Session status
    pub status: SessionStatus,
    /// Task graph
    pub task_graph: Option<TaskGraph>,
    /// MCP connection states
    pub mcp_connections: Vec<McpConnectionState>,
    /// Custom metadata, by key
    pub metadata: Vec<(String, serde_json::Value)>,
}

impl Session {
    /// An active session with the given identity, started at `now`, with an
    /// empty task graph and no connections or metadata
    pub fn with_identity(id: u128, working_dir: String, now: i64) -> (s: Self)
        ensures
            s.id == id,
            s.working_dir@ == working_dir@,
            s.started_at == now,
            s.ended_at is None,
            s.status == SessionStatus::Active,
            s.task_graph matches Some(g) && g.wf() && g.tasks().len() == 0 && g.deps().len() == 0,
            s.mcp_connections@.len() == 0,
            s.metadata@.len() == 0,
    {
        Session {
            id,
            working_dir,
            started_at: now,
            ended_at: None,
            status: SessionStatus::Active,
            task_graph: Some(TaskGraph::new()),
            mcp_connections: Vec::new(),
            metadata: Vec::new(),
        }
    }

    /// Create a new session with a fresh identifier, started now
    pub fn new(working_dir: String) -> (s: Self)
        ensures
            s.working_dir@ == working_dir@,
            s.ended_at is None,
            s.status == SessionStatus::Active,
            s.task_graph matches Some(g) && g.wf() && g.tasks().len() == 0 && g.deps().len() == 0,
            s.mcp_connections@.len() == 0,
            s.metadata@.len() == 0,
    {
        Self::with_identity(new_id(), working_dir, unix_millis())
    }

    /// End the session at `now`
    pub fn end_at(&mut self, now: i64)
        ensures
            final(self).ended_at == Some(now),
            final(self).status == SessionStatus::Completed,
            final(self).id == old(self).id,
            final(self).working_dir == old(self).working_dir,
            final(self).started_at == old(self).started_at,
            final(self).task_graph == old(self).task_graph,
            final(self).mcp_connections == old(self).mcp_connections,
            final(self).metadata == old(self).metadata,
    {
        self.ended_at = Some(now);
        self.status = SessionStatus::Completed;
    }

    /// End the session now
    pub fn end(&mut self)
        ensures
            final(self).ended_at is Some,
            final(self).status == SessionStatus::Completed,
            final(self).id == old(self).id,
            final(self).working_dir == old(self).working_dir,
            final(self).started_at == old(self).started_at,
            final(self).task_graph == old(self).task_graph,
            final(self).mcp_connections == old(self).mcp_connections,
            final(self).metadata == old(self).metadata,
    {
        self.end_at(unix_millis());
    }

    /// Mark the session as crashed at `now`
    pub fn mark_crashed_at(&mut self, now: i64)
        ensures
            final(self).ended_at == Some(now),
            final(self).status == SessionStatus::Crashed,
            final(self).id == old(self).id,
            final(self).working_dir == old(self).working_dir,
            final(self).started_at == old(self).started_at,
            final(self).task_graph == old(self).task_graph,
            final(self).mcp_connections == old(self).mcp_connections,
            final(self).metadata == old(self).metadata,
    {
        self.ended_at = Some(now);
        self.status = SessionStatus::Crashed;
    }

    /// Mark the session as crashed now
    pub fn mark_crashed(&mut self)
        ensures
            final(self).ended_at is Some,
            final(self).status == SessionStatus::Crashed,
            final(self).id == old(self).id,
            final(self).working_dir == old(self).working_dir,
            final(self).started_at == old(self).started_at,
            final(self).task_graph == old(self).task_graph,
            final(self).mcp_connections == old(self).mcp_connections,
            final(self).metadata == old(self).metadata,
    {
        self.mark_crashed_at(unix_millis());
    }

    /// The session's length in milliseconds at `now`: to its end, or to
    /// `now` while it goes on
    pub fn duration_ms_at(&self, now: i64) -> (d: i128)
        ensures
            d == (match self.ended_at { Some(e) => e, None => now }) - self.started_at,
    {
        let end = match self.ended_at {
            Some(e) => e,
            None => now,
        };
        (end as i128) - (self.started_at as i128)
    }

    /// The session's length in milliseconds, to now while it goes on
    pub fn duration_ms(&self) -> (d: i128)
        ensures
            self.ended_at matches Some(e) ==> d == e - self.started_at,
    {
        self.duration_ms_at(unix_millis())
    }

    /// Check if session is active
    pub fn is_active(&self) -> (b: bool)
        ensures
            b == (self.status == SessionStatus::Active),
    {
        self.status.is_active()
    }
}

/// How far an archived session's output was compressed
#[derive(Debug, Clone, Copy, PartialEq, Eq, Structural)]
pub enum CompressionLevel {
    /// Full output kept
    Raw,
    /// Output compacted
    Compacted,
    /// Output summarized
    Summarized,
    /// Rolled into a higher-level summary
    Rolled,
}

impl Default for CompressionLevel {
    fn default() -> (l: Self)
        ensures
            l == CompressionLevel::Raw,
    {
        CompressionLevel::Raw
    }
}

} // verus!
