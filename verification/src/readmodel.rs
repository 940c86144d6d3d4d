//! Read side of `agent-readmodel.json` and `agent-seen-events/<sid>.json` in the
//! agents' state directory: the schema, shared by the panels, in exactly one
//! place. A daemon is the writer.
//!
//! Plugin-specific projections (one zellij session, one tab) stand with each
//! plugin.
use crate::dict::Dict;
use crate::host::{copy_opt_text, opt_text};
use crate::text::{joined, str_eq};
use vstd::prelude::*;
use vstd::string::*;

pub mod laws;

verus! {

/// A file or directory in the agents' state directory, inside the mounted home
/// directory.
pub open spec fn state_path(state_dir: Seq<char>, name: Seq<char>) -> Seq<char> {
    "/host/"@ + state_dir + "/"@ + name
}

pub fn in_state_dir(state_dir: &str, name: &str) -> (r: String)
    ensures
        r@ == state_path(state_dir@, name@),
{
    let mut out = joined("/host/", state_dir);
    out.append("/");
    out.append(name);
    out
}

#[derive(Clone, Debug, PartialEq, Eq)]
pub enum AgentStatus {
    Busy,
    /// Between turns, ready for the next user prompt.
    Idle,
    /// Blocked on the user. Distinct from `Idle` so that a bar can surface it.
    Waiting,
    /// Anything else. New words land here, so that the parse keeps succeeding.
    Unknown(String),
}

/// Whether two statuses are the same, texts compared by their characters.
pub open spec fn same_status(a: AgentStatus, b: AgentStatus) -> bool {
    match (a, b) {
        (AgentStatus::Busy, AgentStatus::Busy) => true,
        (AgentStatus::Idle, AgentStatus::Idle) => true,
        (AgentStatus::Waiting, AgentStatus::Waiting) => true,
        (AgentStatus::Unknown(x), AgentStatus::Unknown(y)) => x@ == y@,
        _ => false,
    }
}

impl AgentStatus {
    /// The status a word stands for.
    pub fn from_text(s: String) -> (r: Self)
        ensures
            s@ == "busy"@ ==> r is Busy,
            s@ == "idle"@ ==> r is Idle,
            s@ == "waiting"@ ==> r is Waiting,
            s@ != "busy"@ && s@ != "idle"@ && s@ != "waiting"@ ==> r == AgentStatus::Unknown(s),
    {
        proof {
            reveal_strlit("busy");
            reveal_strlit("idle");
            reveal_strlit("waiting");
            assert("busy"@[0] == 'b' && "idle"@[0] == 'i' && "waiting"@[0] == 'w');
        }
        if str_eq(s.as_str(), "busy") {
            AgentStatus::Busy
        } else if str_eq(s.as_str(), "idle") {
            AgentStatus::Idle
        } else if str_eq(s.as_str(), "waiting") {
            AgentStatus::Waiting
        } else {
            AgentStatus::Unknown(s)
        }
    }

    pub fn copy(&self) -> (r: Self)
        ensures
            r == *self,
    {
        match self {
            AgentStatus::Busy => AgentStatus::Busy,
            AgentStatus::Idle => AgentStatus::Idle,
            AgentStatus::Waiting => AgentStatus::Waiting,
            AgentStatus::Unknown(s) => AgentStatus::Unknown(s.clone()),
        }
    }

    pub fn same(&self, other: &Self) -> (r: bool)
        ensures
            r == same_status(*self, *other),
    {
        match (self, other) {
            (AgentStatus::Busy, AgentStatus::Busy) => true,
            (AgentStatus::Idle, AgentStatus::Idle) => true,
            (AgentStatus::Waiting, AgentStatus::Waiting) => true,
            (AgentStatus::Unknown(x), AgentStatus::Unknown(y)) => *x == *y,
            _ => false,
        }
    }

    pub fn is_busy(&self) -> (r: bool)
        ensures
            r == (*self is Busy),
    {
        match self {
            AgentStatus::Busy => true,
            _ => false,
        }
    }
}

/// One entry in the readmodel.
#[derive(Debug, Clone)]
pub struct Agent {
    pub session_id: String,
    pub name: String,
    pub cwd: String,
    pub status: AgentStatus,
    /// Why the agent is blocked, when it is waiting.
    pub waiting_for: Option<String>,
    /// "interactive", or "bg" for an agent run in the background. Empty when
    /// written by an older daemon, and then treated as interactive.
    pub kind: String,
    /// For a background agent, the session it was forked from.
    pub parent_session_id: Option<String>,
    pub zellij_session: Option<String>,
    pub zellij_pane_id: Option<u32>,
    /// Wall-clock milliseconds of session creation: a stable sort key.
    pub started_at_ms: i64,
    /// Wall-clock milliseconds of the latest attention-worthy event; 0 for none.
    /// When it was seen is not here: that is read from the seen events.
    pub attention_at_ms: i64,
    /// False once the agent's heartbeat is gone.
    pub active: bool,
}

impl Agent {
    pub fn copy(&self) -> (r: Self)
        ensures
            r == *self,
    {
        Agent {
            session_id: self.session_id.clone(),
            name: self.name.clone(),
            cwd: self.cwd.clone(),
            status: self.status.copy(),
            waiting_for: copy_opt_text(&self.waiting_for),
            kind: self.kind.clone(),
            parent_session_id: copy_opt_text(&self.parent_session_id),
            zellij_session: copy_opt_text(&self.zellij_session),
            zellij_pane_id: self.zellij_pane_id,
            started_at_ms: self.started_at_ms,
            attention_at_ms: self.attention_at_ms,
            active: self.active,
        }
    }
}

/// An agent is active unless the snapshot says otherwise, so that one from an
/// older daemon, which has no such field, reads as all-live.
pub fn default_true() -> (r: bool)
    ensures
        r,
{
    true
}

/// The whole readmodel.
#[derive(Debug)]
pub struct Snapshot {
    pub agents: Vec<Agent>,
}

/// `host_root` is the folder to mount at `/host`; the other two are paths inside
/// that mount. They must agree, hence one struct.
#[derive(Debug)]
pub struct SnapshotLocation {
    pub host_root: String,
    pub wasi_path: String,
    pub seen_events_dir: String,
}

/// The home directory as the session's environment gives it.
pub open spec fn home_in(env: Map<Seq<char>, String>) -> Option<Seq<char>> {
    if env.contains_key("HOME"@) {
        Some(env["HOME"@]@)
    } else if env.contains_key("USERPROFILE"@) {
        Some(env["USERPROFILE"@]@)
    } else {
        None
    }
}

/// Resolve the readmodel and seen-events paths from the session's environment and
/// the agents' state directory, given relative to the home directory. It is the
/// home directory that gets mounted, so that paths on another drive than the
/// server's work too.
pub fn locate_snapshot(env: &Dict<String, String>, state_dir: &str) -> (r: Option<SnapshotLocation>)
    ensures
        match r {
            Some(loc) => home_in(env@) == Some(loc.host_root@) && loc.wasi_path@ == state_path(
                state_dir@,
                "agent-readmodel.json"@,
            ) && loc.seen_events_dir@ == state_path(state_dir@, "agent-seen-events"@),
            None => home_in(env@) is None,
        },
{
    let home = match env.get(&"HOME".to_owned()) {
        Some(h) => h,
        None => match env.get(&"USERPROFILE".to_owned()) {
            Some(h) => h,
            None => return None,
        },
    };
    Some(
        SnapshotLocation {
            host_root: home.clone(),
            wasi_path: in_state_dir(state_dir, "agent-readmodel.json"),
            seen_events_dir: in_state_dir(state_dir, "agent-seen-events"),
        },
    )
}

/// What reading the readmodel came to, so that a panel can show what actually
/// happened.
#[derive(Debug, Clone)]
pub enum ReadResult {
    Loaded(Vec<Agent>),
    Missing,
    Unreadable(String),
    ParseError(String),
}

/// The latest mark-seen of one agent, as a panel wrote it.
#[derive(Debug)]
pub struct SeenRecord {
    pub session_id: String,
    pub seen_at_ms: i64,
}

/// Whether a file among the seen events holds a record, by its extension.
pub fn is_record_file(extension: &Option<String>) -> (r: bool)
    ensures
        r == (opt_text(*extension) == Some("json"@)),
{
    match extension {
        Some(e) => str_eq(e.as_str(), "json"),
        None => false,
    }
}

/// The time each agent was last seen at: of two records for one agent, the later
/// in the list.
pub open spec fn seen_times(records: Seq<SeenRecord>) -> Map<Seq<char>, i64>
    decreases records.len(),
{
    if records.len() == 0 {
        Map::empty()
    } else {
        seen_times(records.drop_last()).insert(
            records.last().session_id@,
            records.last().seen_at_ms,
        )
    }
}

/// Collect the records of the seen events by agent.
pub fn collect_seen(records: Vec<SeenRecord>) -> (r: Dict<String, i64>)
    ensures
        r@ == seen_times(records@),
{
    let mut out: Dict<String, i64> = Dict::new();
    let mut i: usize = 0;
    assert(records@.take(0) == Seq::<SeenRecord>::empty());
    while i < records.len()
        invariant
            i <= records.len(),
            out@ == seen_times(records@.take(i as int)),
        decreases records.len() - i,
    {
        assert(records@.take(i + 1).drop_last() == records@.take(i as int));
        out.insert(records[i].session_id.clone(), records[i].seen_at_ms);
        i += 1;
    }
    assert(records@.take(i as int) == records@);
    out
}

/// Copy a list of agents.
pub fn copy_agents(agents: &Vec<Agent>) -> (r: Vec<Agent>)
    ensures
        r@ == agents@,
{
    let mut out: Vec<Agent> = Vec::new();
    let mut i: usize = 0;
    while i < agents.len()
        invariant
            i <= agents.len(),
            out@ == agents@.take(i as int),
        decreases agents.len() - i,
    {
        out.push(agents[i].copy());
        i += 1;
    }
    assert(agents@.take(i as int) == agents@);
    out
}

} // verus!
