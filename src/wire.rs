//! Records exchanged between agents, brokers and the durable log.

use vstd::prelude::*;

verus! {

/// Outcome of one probe. Wire codes: `Unknown = 0`, `Reachable = 1`,
/// `Unreachable = 2`.
#[derive(Debug, Clone, Copy, PartialEq, Eq, Structural)]
pub enum CheckJobStatus {
    Unknown,
    Reachable,
    Unreachable,
}

impl CheckJobStatus {
    pub open spec fn spec_code(self) -> i32 {
        match self {
            CheckJobStatus::Unknown => 0,
            CheckJobStatus::Reachable => 1,
            CheckJobStatus::Unreachable => 2,
        }
    }

    /// The wire code of the status.
    pub fn code(self) -> (r: i32)
        ensures
            r == self.spec_code(),
    {
        match self {
            CheckJobStatus::Unknown => 0,
            CheckJobStatus::Reachable => 1,
            CheckJobStatus::Unreachable => 2,
        }
    }

    /// The status with the given wire code, if there is one.
    pub fn from_code(code: i32) -> (r: Option<CheckJobStatus>)
        ensures
            r is Some <==> 0 <= code <= 2,
            r matches Some(s) ==> s.spec_code() == code,
    {
        if code == 0 {
            Some(CheckJobStatus::Unknown)
        } else if code == 1 {
            Some(CheckJobStatus::Reachable)
        } else if code == 2 {
            Some(CheckJobStatus::Unreachable)
        } else {
            None
        }
    }
}

/// Identity of the emitting agent.
#[derive(Debug, Clone, PartialEq, Eq)]
pub struct Tags {
    pub agent_id: String,
    pub zone: String,
    pub region: String,
}

pub struct TagsView {
    pub agent_id: Seq<char>,
    pub zone: Seq<char>,
    pub region: Seq<char>,
}

impl View for Tags {
    type V = TagsView;

    open spec fn view(&self) -> TagsView {
        TagsView { agent_id: self.agent_id@, zone: self.zone@, region: self.region@ }
    }
}

impl Tags {
    pub fn new(agent_id: String, zone: String, region: String) -> (r: Tags)
        ensures
            r@ == (TagsView { agent_id: agent_id@, zone: zone@, region: region@ }),
    {
        Tags { agent_id, zone, region }
    }

    /// A copy with the same contents.
    pub fn duplicate(&self) -> (r: Tags)
        ensures
            r@ == self@,
    {
        Tags {
            agent_id: self.agent_id.clone(),
            zone: self.zone.clone(),
            region: self.region.clone(),
        }
    }
}

/// View of an optional tag set.
pub open spec fn opt_tags_view(t: Option<Tags>) -> Option<TagsView> {
    match t {
        Some(t) => Some(t@),
        None => None,
    }
}

/// A point in time: seconds and nanoseconds since the Unix epoch.
#[derive(Debug, Clone, Copy, PartialEq, Eq, Structural)]
pub struct Timestamp {
    pub seconds: i64,
    pub nanos: i32,
}

/// Measurements of one probe.
#[derive(Debug, Clone, Copy, PartialEq, Eq, Structural)]
pub struct CheckJobMetrics {
    /// Latency in milliseconds.
    pub latency: Option<u64>,
}

/// One check result as carried on the wire and stored on the log.
#[derive(Debug, Clone, PartialEq, Eq)]
pub struct CheckResult {
    pub id_ulid: String,
    pub run_at: Option<Timestamp>,
    pub status: i32,
    pub metrics: Option<CheckJobMetrics>,
    pub tags: Option<Tags>,
}

pub struct CheckResultView {
    pub id_ulid: Seq<char>,
    pub run_at: Option<Timestamp>,
    pub status: i32,
    pub metrics: Option<CheckJobMetrics>,
    pub tags: Option<TagsView>,
}

impl View for CheckResult {
    type V = CheckResultView;

    open spec fn view(&self) -> CheckResultView {
        CheckResultView {
            id_ulid: self.id_ulid@,
            run_at: self.run_at,
            status: self.status,
            metrics: self.metrics,
            tags: opt_tags_view(self.tags),
        }
    }
}

impl CheckResult {
    /// A copy with the same contents.
    pub fn duplicate(&self) -> (r: CheckResult)
        ensures
            r@ == self@,
    {
        CheckResult {
            id_ulid: self.id_ulid.clone(),
            run_at: self.run_at,
            status: self.status,
            metrics: self.metrics,
            tags: match &self.tags {
                Some(t) => Some(t.duplicate()),
                None => None,
            },
        }
    }
}

/// Views of a sequence of results, in order.
pub open spec fn results_view(s: Seq<CheckResult>) -> Seq<CheckResultView> {
    s.map_values(|e: CheckResult| e@)
}

/// A batch of results sent by an agent.
#[derive(Debug, Clone, PartialEq, Eq)]
pub struct CheckBatchRequest {
    pub tags: Option<Tags>,
    pub events: Vec<CheckResult>,
    pub created_at: Option<Timestamp>,
}

pub struct CheckBatchRequestView {
    pub tags: Option<TagsView>,
    pub events: Seq<CheckResultView>,
    pub created_at: Option<Timestamp>,
}

impl View for CheckBatchRequest {
    type V = CheckBatchRequestView;

    open spec fn view(&self) -> CheckBatchRequestView {
        CheckBatchRequestView {
            tags: opt_tags_view(self.tags),
            events: results_view(self.events@),
            created_at: self.created_at,
        }
    }
}

/// Reply to a batch; `error` is absent on success.
#[derive(Debug, Clone, PartialEq, Eq)]
pub struct CheckBatchResponse {
    pub error: Option<String>,
}

/// Reply to a health request.
#[derive(Debug, Clone, Copy, PartialEq, Eq, Structural)]
pub struct HealthResponse {
    pub healthy: bool,
}

} // verus!
