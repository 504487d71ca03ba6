//! Check jobs, their probes, and the result record a probe fills in.

use crate::ids::JobId;
use crate::wire::{CheckJobMetrics, CheckJobStatus, CheckResult, CheckResultView};
use vstd::prelude::*;

verus! {

/// What a result record holds.
pub struct JobResultView {
    pub id: JobId,
    pub run_at: u64,
    pub status: CheckJobStatus,
    pub latency: Option<u64>,
}

/// The outcome of one run of a job. A record is reachable exactly when it
/// carries a latency.
pub struct JobResult {
    id: JobId,
    run_at: u64,
    status: CheckJobStatus,
    latency: Option<u64>,
}

impl View for JobResult {
    type V = JobResultView;

    closed spec fn view(&self) -> JobResultView {
        JobResultView { id: self.id, run_at: self.run_at, status: self.status, latency: self.latency }
    }
}

impl JobResult {
    #[verifier::type_invariant]
    spec fn reachable_iff_latency(self) -> bool {
        (self.status == CheckJobStatus::Reachable) <==> self.latency is Some
    }

    /// A fresh record for job `id`, started at `run_at` (monotonic
    /// milliseconds): status unknown, no latency.
    pub fn new(id: JobId, run_at: u64) -> (r: JobResult)
        ensures
            r@ == (JobResultView { id, run_at, status: CheckJobStatus::Unknown, latency: None }),
    {
        JobResult { id, run_at, status: CheckJobStatus::Unknown, latency: None }
    }

    pub fn id(&self) -> (r: JobId)
        ensures
            r == self@.id,
    {
        self.id
    }

    pub fn run_at(&self) -> (r: u64)
        ensures
            r == self@.run_at,
    {
        self.run_at
    }

    pub fn status(&self) -> (r: CheckJobStatus)
        ensures
            r == self@.status,
    {
        self.status
    }

    /// Latency in milliseconds, present exactly when the probe reached its
    /// target.
    pub fn latency(&self) -> (r: Option<u64>)
        ensures
            r == self@.latency,
            (self@.status == CheckJobStatus::Reachable) <==> r is Some,
    {
        proof {
            use_type_invariant(self);
        }
        self.latency
    }

    /// Records a successful probe that took `latency` milliseconds.
    pub fn set_reachable(&mut self, latency: u64)
        ensures
            final(self)@ == (JobResultView {
                status: CheckJobStatus::Reachable,
                latency: Some(latency),
                ..old(self)@
            }),
    {
        *self = JobResult {
            id: self.id,
            run_at: self.run_at,
            status: CheckJobStatus::Reachable,
            latency: Some(latency),
        };
    }

    /// Records a failed probe; an unreachable record carries no latency.
    pub fn set_unreachable(&mut self)
        ensures
            final(self)@ == (JobResultView {
                status: CheckJobStatus::Unreachable,
                latency: None,
                ..old(self)@
            }),
    {
        *self = JobResult {
            id: self.id,
            run_at: self.run_at,
            status: CheckJobStatus::Unreachable,
            latency: None,
        };
    }

    /// The wire record of this result: the identifier's text, the status
    /// code and the latency; no run time, no tags.
    pub open spec fn wire_view(v: JobResultView) -> CheckResultView {
        CheckResultView {
            id_ulid: v.id.text(),
            run_at: None,
            status: v.status.spec_code(),
            metrics: Some(CheckJobMetrics { latency: v.latency }),
            tags: None,
        }
    }

    pub fn into_check_result(self) -> (r: CheckResult)
        ensures
            r@ == Self::wire_view(self@),
            (r.status == 1) <==> (r.metrics matches Some(m) && m.latency is Some),
    {
        proof {
            use_type_invariant(&self);
        }
        CheckResult {
            id_ulid: self.id.to_string(),
            run_at: None,
            status: self.status.code(),
            metrics: Some(CheckJobMetrics { latency: self.latency }),
            tags: None,
        }
    }
}


/// A character allowed in an HTTP header name (an RFC 7230 token character).
pub open spec fn is_token_char(c: char) -> bool {
    ('a' <= c && c <= 'z') || ('A' <= c && c <= 'Z') || ('0' <= c && c <= '9') || c == '!'
        || c == '#' || c == '$' || c == '%' || c == '&' || c == '\'' || c == '*' || c == '+'
        || c == '-' || c == '.' || c == '^' || c == '_' || c == '`' || c == '|' || c == '~'
}

/// A valid header name: 1 to 65535 token characters.
pub open spec fn valid_header_name(s: Seq<char>) -> bool {
    0 < s.len() <= 65535 && forall|i: int| 0 <= i < s.len() ==> is_token_char(#[trigger] s[i])
}

/// A valid header value: no control character other than horizontal tab.
pub open spec fn valid_header_value(s: Seq<char>) -> bool {
    forall|i: int|
        0 <= i < s.len() ==> (#[trigger] s[i] == '\t' || (s[i] as u32 >= 32 && s[i] as u32 != 127))
}

/// Relies on `reqwest::header::HeaderName::from_str` (the `http` crate): it
/// accepts exactly the non-empty names of at most 65535 token characters.
#[verifier::external_body]
fn header_name_accepted(s: &str) -> (r: bool)
    ensures
        r == valid_header_name(s@),
{
    <reqwest::header::HeaderName as std::str::FromStr>::from_str(s).is_ok()
}

/// Relies on `reqwest::header::HeaderValue::from_str` (the `http` crate): it
/// accepts a value exactly when every byte is a tab or at least 32 and not 127.
#[verifier::external_body]
fn header_value_accepted(s: &str) -> (r: bool)
    ensures
        r == valid_header_value(s@),
{
    reqwest::header::HeaderValue::from_str(s).is_ok()
}

/// The header that failed validation.
#[derive(Debug, Clone, PartialEq, Eq)]
pub enum InvalidHeader {
    /// The header's name is not a valid name.
    Name(String),
    /// The header's value is not a valid value; the name is given.
    Value(String),
}

/// Errors of a probe run. An unreachable target is not an error.
#[derive(Debug, Clone, PartialEq, Eq)]
pub enum JobError {
    /// The job's configuration cannot be used (a bad header).
    InvalidJobConfig(InvalidHeader),
    /// The HTTP client could not be built; the message says why.
    HttpError(String),
}

/// What a GET request came to.
pub enum HttpAttempt {
    /// The client could not be constructed.
    ClientFailed(String),
    /// A response arrived (whatever its status code) after `latency`
    /// milliseconds.
    Responded { latency: u64 },
    /// DNS, connection, TLS, timeout or body read failure.
    TransportFailed,
}

/// What a TCP dial came to.
pub enum ConnectAttempt {
    /// The endpoint is not an `ip:port` address.
    InvalidEndpoint,
    /// The connection was established after `latency` milliseconds.
    Connected { latency: u64 },
    /// The connection attempt failed.
    Failed,
}

/// An HTTP reachability check. Its headers map names to values: no two
/// share a name.
#[derive(Debug, Clone, PartialEq, Eq)]
pub struct HttpJob {
    pub endpoint: String,
    pub headers: Vec<(String, String)>,
}

pub open spec fn header_ok(h: (String, String)) -> bool {
    valid_header_name(h.0@) && valid_header_value(h.1@)
}

/// The error that reports header `h` as invalid: by its name when the name
/// is bad, else by its value.
pub open spec fn bad_header_error(e: JobError, h: (String, String)) -> bool {
    if !valid_header_name(h.0@) {
        e matches JobError::InvalidJobConfig(InvalidHeader::Name(k)) && k@ == h.0@
    } else {
        e matches JobError::InvalidJobConfig(InvalidHeader::Value(k)) && k@ == h.0@
    }
}

impl HttpJob {
    /// Header names are unique.
    pub open spec fn wf(&self) -> bool {
        forall|a: int, b: int|
            0 <= a < b < self.headers@.len() ==> #[trigger] self.headers@[a].0@ != #[trigger] self.headers@[b].0@
    }

    /// An HTTP check of `endpoint` with no header.
    pub fn without_headers(endpoint: String) -> (r: HttpJob)
        ensures
            r.wf(),
            r.endpoint@ == endpoint@,
            r.headers@.len() == 0,
    {
        HttpJob { endpoint, headers: Vec::new() }
    }

    /// Sets header `name` to `value`: an existing header of that name gets
    /// the new value in place; otherwise the header is added at the end.
    pub fn insert_header(&mut self, name: String, value: String)
        requires
            old(self).wf(),
        ensures
            final(self).wf(),
            final(self).endpoint == old(self).endpoint,
            match (exists|i: int| 0 <= i < old(self).headers@.len() && #[trigger] old(self).headers@[i].0@ == name@) {
                true => exists|i: int| 0 <= i < old(self).headers@.len()
                    && old(self).headers@[i].0@ == name@
                    && final(self).headers@ == #[trigger] old(self).headers@.update(i, (name, value)),
                false => final(self).headers@ == old(self).headers@.push((name, value)),
            },
    {
        let n = self.headers.len();
        let mut i: usize = 0;
        while i < n
            invariant
                n == self.headers@.len(),
                i <= n,
                self.headers@ == old(self).headers@,
                self.endpoint == old(self).endpoint,
                old(self).wf(),
                forall|k: int| 0 <= k < i ==> #[trigger] self.headers@[k].0@ != name@,
            decreases n - i,
        {
            if self.headers[i].0 == name {
                let ghost before = self.headers@;
                self.headers.set(i, (name, value));
                assert(self.headers@ == before.update(i as int, (name, value)));
                assert forall|a: int, b: int|
                    0 <= a < b < self.headers@.len() implies #[trigger] self.headers@[a].0@
                        != #[trigger] self.headers@[b].0@ by {
                    assert(before[a].0@ == self.headers@[a].0@);
                    assert(before[b].0@ == self.headers@[b].0@);
                }
                return;
            }
            i = i + 1;
        }
        let ghost before = self.headers@;
        self.headers.push((name, value));
        assert forall|a: int, b: int|
            0 <= a < b < self.headers@.len() implies #[trigger] self.headers@[a].0@
                != #[trigger] self.headers@[b].0@ by {
            assert(before[a].0@ == self.headers@[a].0@);
            if b < n {
                assert(before[b].0@ == self.headers@[b].0@);
            }
        }
    }

    /// An HTTP check of `endpoint` with the default header
    /// `Content-Type: application/json`.
    pub fn new(endpoint: String) -> (r: HttpJob)
        ensures
            r.wf(),
            r.endpoint@ == endpoint@,
            r.headers@.len() == 1,
            r.headers@[0].0@ == "Content-Type"@,
            r.headers@[0].1@ == "application/json"@,
    {
        let mut headers: Vec<(String, String)> = Vec::new();
        headers.push((String::from_str("Content-Type"), String::from_str("application/json")));
        HttpJob { endpoint, headers }
    }

    /// Checks every header; the first bad one, in order, is reported.
    pub fn check_headers(&self) -> (r: Result<(), JobError>)
        ensures
            r is Ok <==> (forall|i: int| 0 <= i < self.headers@.len() ==> #[trigger] header_ok(self.headers@[i])),
            r matches Err(e) ==> exists|i: int|
                0 <= i < self.headers@.len() && !header_ok(self.headers@[i])
                    && (forall|j: int| 0 <= j < i ==> #[trigger] header_ok(self.headers@[j]))
                    && bad_header_error(e, self.headers@[i]),
    {
        let n = self.headers.len();
        let mut i: usize = 0;
        while i < n
            invariant
                n == self.headers@.len(),
                i <= n,
                forall|j: int| 0 <= j < i ==> #[trigger] header_ok(self.headers@[j]),
            decreases n - i,
        {
            let name = &self.headers[i].0;
            let value = &self.headers[i].1;
            if !header_name_accepted(name.as_str()) {
                assert(!header_ok(self.headers@[i as int]));
                return Err(JobError::InvalidJobConfig(InvalidHeader::Name(name.clone())));
            }
            if !header_value_accepted(value.as_str()) {
                assert(!header_ok(self.headers@[i as int]));
                return Err(JobError::InvalidJobConfig(InvalidHeader::Value(name.clone())));
            }
            i = i + 1;
        }
        Ok(())
    }

    /// Runs the check given what the GET came to: any response means
    /// reachable, a transport failure means unreachable. Bad headers and a
    /// client that cannot be built are errors and leave the record as it was.
    pub fn execute(&self, msg: &mut JobResult, attempt: HttpAttempt) -> (r: Result<(), JobError>)
        ensures
            !(forall|i: int| 0 <= i < self.headers@.len() ==> #[trigger] header_ok(self.headers@[i]))
                ==> r is Err && final(msg)@ == old(msg)@ && exists|i: int|
                0 <= i < self.headers@.len() && !header_ok(self.headers@[i])
                    && (forall|j: int| 0 <= j < i ==> #[trigger] header_ok(self.headers@[j]))
                    && bad_header_error(r->Err_0, self.headers@[i]),
            (forall|i: int| 0 <= i < self.headers@.len() ==> #[trigger] header_ok(self.headers@[i]))
                ==> match attempt {
                HttpAttempt::ClientFailed(m) => r == Err::<(), JobError>(JobError::HttpError(m))
                    && final(msg)@ == old(msg)@,
                HttpAttempt::Responded { latency } => r is Ok && final(msg)@ == (JobResultView {
                    status: CheckJobStatus::Reachable,
                    latency: Some(latency),
                    ..old(msg)@
                }),
                HttpAttempt::TransportFailed => r is Ok && final(msg)@ == (JobResultView {
                    status: CheckJobStatus::Unreachable,
                    latency: None,
                    ..old(msg)@
                }),
            },
    {
        match self.check_headers() {
            Err(e) => {
                return Err(e);
            },
            Ok(()) => {},
        }
        match attempt {
            HttpAttempt::ClientFailed(m) => Err(JobError::HttpError(m)),
            HttpAttempt::Responded { latency } => {
                msg.set_reachable(latency);
                Ok(())
            },
            HttpAttempt::TransportFailed => {
                msg.set_unreachable();
                Ok(())
            },
        }
    }
}

/// A TCP reachability check of an `ip:port` endpoint.
#[derive(Debug, Clone, PartialEq, Eq)]
pub struct TcpJob {
    pub endpoint: String,
    /// Reserved; it does not change how the endpoint is dialled.
    pub secured: bool,
}

impl TcpJob {
    pub fn new(endpoint: String) -> (r: TcpJob)
        ensures
            r.endpoint@ == endpoint@,
            !r.secured,
    {
        TcpJob { endpoint, secured: false }
    }

    /// Runs the check given what the dial came to. Never an error: an
    /// endpoint that does not parse, or a refused dial, is unreachable.
    pub fn execute(&self, msg: &mut JobResult, attempt: ConnectAttempt) -> (r: Result<(), JobError>)
        ensures
            r is Ok,
            match attempt {
                ConnectAttempt::Connected { latency } => final(msg)@ == (JobResultView {
                    status: CheckJobStatus::Reachable,
                    latency: Some(latency),
                    ..old(msg)@
                }),
                _ => final(msg)@ == (JobResultView {
                    status: CheckJobStatus::Unreachable,
                    latency: None,
                    ..old(msg)@
                }),
            },
    {
        match attempt {
            ConnectAttempt::Connected { latency } => msg.set_reachable(latency),
            _ => msg.set_unreachable(),
        }
        Ok(())
    }
}

/// The probe a job runs, with its parameters.
#[derive(Debug, Clone, PartialEq, Eq)]
pub enum JobInnerConfig {
    Tcp(TcpJob),
    Http(HttpJob),
}

/// An immutable check definition.
#[derive(Debug, Clone, PartialEq, Eq)]
pub struct Job {
    pub id: JobId,
    /// Time between two runs, in milliseconds.
    pub interval: u64,
    pub inner: JobInnerConfig,
    pub pretty_name: String,
}

impl Job {
    /// A job with a freshly generated identifier.
    pub fn new(interval: u64, job_config: JobInnerConfig, pretty_name: String) -> (r: Job)
        ensures
            r.interval == interval,
            r.inner == job_config,
            r.pretty_name@ == pretty_name@,
    {
        Job { id: JobId::generate(), interval, inner: job_config, pretty_name }
    }

    /// A job with the identifier given by its configuration.
    pub fn with_id(id: JobId, interval: u64, job_config: JobInnerConfig, pretty_name: String) -> (r: Job)
        ensures
            r == (Job { id, interval, inner: job_config, pretty_name }),
    {
        Job { id, interval, inner: job_config, pretty_name }
    }

    pub fn id(&self) -> (r: JobId)
        ensures
            r == self.id,
    {
        self.id
    }

    pub fn interval(&self) -> (r: u64)
        ensures
            r == self.interval,
    {
        self.interval
    }

    pub fn pretty_name(&self) -> (r: String)
        ensures
            r@ == self.pretty_name@,
    {
        self.pretty_name.clone()
    }

    /// The record a run started at `now` fills in.
    pub fn start_run(&self, now: u64) -> (r: JobResult)
        ensures
            r@ == (JobResultView { id: self.id, run_at: now, status: CheckJobStatus::Unknown, latency: None }),
    {
        JobResult::new(self.id, now)
    }
}

} // verus!
