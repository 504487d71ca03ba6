//! The agent's batch sender: the broker sink's backlog and flush rules, its
//! retry policy, and the local socket sink's batch.

use crate::codec::{encode_batch, encode_batch_bytes};
use crate::config::BrokerConfig;
use crate::ids::JobId;
use crate::jobs::JobResult;
use crate::wire::{CheckBatchRequest, CheckJobStatus, CheckResult, CheckResultView, Tags, TagsView, results_view};
use vstd::prelude::*;

verus! {

/// Failures of a result sink.
#[derive(Debug, Clone, PartialEq, Eq)]
pub enum BatchSenderError {
    /// The broker URL is invalid or the broker cannot be reached.
    InvalidBrokerEndpointConfiguration,
    /// The broker's health check failed or reported unhealthy.
    BrokerUnhealthy,
    /// Every attempt to send a batch failed; the last error is given.
    UnableToSendBatch(String),
    /// Writing to the socket failed.
    WriteSocketError(String),
    /// Opening the socket failed.
    OpenSocketError(String),
}

/// Retries after a failed batch send.
pub const MAX_RETRY_COUNT: u8 = 3;

/// Delay between two attempts, in milliseconds.
pub const DELAY_BETWEEN_RETRIES_MS: u64 = 2000;

/// The next step after one attempt to send a batch.
#[derive(Debug, Clone, PartialEq, Eq)]
pub enum FlushStep {
    /// The broker accepted the batch.
    Delivered,
    /// Wait `delay_ms`, then send the same batch again as retry number
    /// `retry_count`.
    Retry { delay_ms: u64, retry_count: u8 },
    /// Retries are exhausted; the batch is dropped.
    GiveUp(BatchSenderError),
}

/// What follows attempt `retry_count` (0 for the first send) whose outcome
/// is `outcome`: delivered on success; otherwise another attempt after the
/// fixed delay while retries are left, else the batch is given up.
pub open spec fn flush_step(retry_count: u8, outcome: Result<(), String>) -> FlushStep {
    match outcome {
        Ok(()) => FlushStep::Delivered,
        Err(e) => if retry_count < MAX_RETRY_COUNT {
            FlushStep::Retry { delay_ms: DELAY_BETWEEN_RETRIES_MS, retry_count: (retry_count + 1) as u8 }
        } else {
            FlushStep::GiveUp(BatchSenderError::UnableToSendBatch(e))
        },
    }
}

/// Decides what follows attempt `retry_count` (0 for the first send) whose
/// outcome is `outcome`.
pub fn next_flush_step(retry_count: u8, outcome: Result<(), String>) -> (r: FlushStep)
    requires
        retry_count <= MAX_RETRY_COUNT,
    ensures
        r == flush_step(retry_count, outcome),
{
    match outcome {
        Ok(()) => FlushStep::Delivered,
        Err(e) => if retry_count < MAX_RETRY_COUNT {
            FlushStep::Retry { delay_ms: DELAY_BETWEEN_RETRIES_MS, retry_count: retry_count + 1 }
        } else {
            FlushStep::GiveUp(BatchSenderError::UnableToSendBatch(e))
        },
    }
}

/// One batch on its way to the broker: the batch, its encoding, and how many
/// retries were made. Every attempt sends the same bytes.
pub struct BatchDelivery {
    pub batch: CheckBatchRequest,
    pub payload: Vec<u8>,
    pub retry_count: u8,
}

impl BatchDelivery {
    pub open spec fn wf(&self) -> bool {
        self.payload@ == encode_batch(self.batch@) && self.retry_count <= MAX_RETRY_COUNT
    }

    /// A delivery of `batch`, before its first attempt.
    pub fn new(batch: CheckBatchRequest) -> (r: BatchDelivery)
        ensures
            r.wf(),
            r.batch == batch,
            r.retry_count == 0,
    {
        let payload = encode_batch_bytes(&batch);
        BatchDelivery { batch, payload, retry_count: 0 }
    }

    /// The bytes to send on this attempt: the encoding of the batch, the same
    /// on every attempt.
    pub fn payload(&self) -> (r: &[u8])
        requires
            self.wf(),
        ensures
            r@ == encode_batch(self.batch@),
    {
        self.payload.as_slice()
    }

    /// Takes the outcome of the current attempt. The batch and its bytes are
    /// kept for the next attempt.
    pub fn on_outcome(&mut self, outcome: Result<(), String>) -> (r: FlushStep)
        requires
            old(self).wf(),
        ensures
            final(self).wf(),
            final(self).batch == old(self).batch,
            final(self).payload@ == old(self).payload@,
            r == flush_step(old(self).retry_count, outcome),
            final(self).retry_count == match r {
                FlushStep::Retry { retry_count, .. } => retry_count,
                _ => old(self).retry_count,
            },
    {
        let step = next_flush_step(self.retry_count, outcome);
        match &step {
            FlushStep::Retry { retry_count, .. } => {
                self.retry_count = *retry_count;
            },
            _ => {},
        }
        step
    }
}

/// Sink that forwards results to a broker in batches.
pub struct BrokerBatchSender {
    pub agent_id: String,
    pub zone: String,
    pub region: String,
    /// Results not yet sent, oldest first.
    pub backlog: Vec<CheckResult>,
    /// Events per batch, at least one.
    pub batch: u64,
    /// Seconds after the last flush past which an event flushes the backlog.
    pub batch_interval: u64,
    /// Instant of the last successful flush (monotonic milliseconds).
    pub last_batch: u64,
}

/// Whether an event arriving at `now` flushes by time.
pub open spec fn interval_elapsed(last_batch: u64, batch_interval: u64, now: u64) -> bool {
    batch_interval == 0 || now - last_batch > batch_interval * 1000
}

impl BrokerBatchSender {
    /// The backlog never holds a full batch between two sends.
    pub open spec fn wf(&self) -> bool {
        1 <= self.batch && self.backlog@.len() < self.batch
    }

    pub open spec fn tags_view(&self) -> TagsView {
        TagsView { agent_id: self.agent_id@, zone: self.zone@, region: self.region@ }
    }

    /// A sender with an empty backlog whose last flush is `now`. A batch size
    /// of zero is taken as one.
    pub fn new(config: &BrokerConfig, now: u64) -> (r: BrokerBatchSender)
        ensures
            r.wf(),
            r.backlog@.len() == 0,
            r.batch == if config.batch == 0 { 1 } else { config.batch as u64 },
            r.batch_interval == config.batch_interval as u64,
            r.last_batch == now,
            r.tags_view() == (TagsView { agent_id: config.agent_id@, zone: config.zone@, region: config.region@ }),
    {
        let batch: u64 = if config.batch == 0 { 1 } else { config.batch as u64 };
        BrokerBatchSender {
            agent_id: config.agent_id.clone(),
            zone: config.zone.clone(),
            region: config.region.clone(),
            backlog: Vec::new(),
            batch,
            batch_interval: config.batch_interval as u64,
            last_batch: now,
        }
    }

    /// The batch request for `events`, with this sender's tags.
    fn batch_request(&self, events: Vec<CheckResult>) -> (r: CheckBatchRequest)
        ensures
            r@.tags == Some(self.tags_view()),
            r.events@ == events@,
            r.created_at is None,
    {
        CheckBatchRequest {
            tags: Some(Tags::new(self.agent_id.clone(), self.zone.clone(), self.region.clone())),
            events,
            created_at: None,
        }
    }

    /// Empties the backlog into a batch request.
    fn drain(&mut self) -> (r: CheckBatchRequest)
        ensures
            final(self).backlog@.len() == 0,
            r.events@ == old(self).backlog@,
            r@.tags == Some(old(self).tags_view()),
            r.created_at is None,
            final(self).batch == old(self).batch,
            final(self).batch_interval == old(self).batch_interval,
            final(self).last_batch == old(self).last_batch,
            final(self).tags_view() == old(self).tags_view(),
    {
        let mut events: Vec<CheckResult> = Vec::new();
        core::mem::swap(&mut events, &mut self.backlog);
        self.batch_request(events)
    }

    /// Takes one result. It joins the backlog; when that makes a full batch,
    /// or when the interval since the last flush has passed at `now`, the
    /// backlog is drained and returned as the batch to send.
    pub fn send(&mut self, job_result: JobResult, now: u64) -> (r: Option<CheckBatchRequest>)
        requires
            old(self).wf(),
        ensures
            final(self).wf(),
            final(self).batch == old(self).batch,
            final(self).batch_interval == old(self).batch_interval,
            final(self).last_batch == old(self).last_batch,
            final(self).tags_view() == old(self).tags_view(),
            ({
                let all = results_view(old(self).backlog@).push(JobResult::wire_view(job_result@));
                let flush = all.len() == old(self).batch
                    || interval_elapsed(old(self).last_batch, old(self).batch_interval, now);
                if flush {
                    &&& r matches Some(b) && b@.events == all && b@.tags == Some(old(self).tags_view())
                        && b.created_at is None
                    &&& final(self).backlog@.len() == 0
                } else {
                    &&& r is None
                    &&& results_view(final(self).backlog@) == all
                }
            }),
            r matches Some(b) ==> 1 <= b.events@.len() <= old(self).batch,
    {
        let ghost all = results_view(old(self).backlog@).push(JobResult::wire_view(job_result@));
        self.backlog.push(job_result.into_check_result());
        assert(results_view(self.backlog@) =~= all);
        if self.backlog.len() as u64 == self.batch {
            let b = self.drain();
            assert(results_view(b.events@) == all);
            return Some(b);
        }
        let elapsed: u64 = if now >= self.last_batch { now - self.last_batch } else { 0 };
        let elapsed_past = self.batch_interval == 0 || (self.batch_interval <= u64::MAX / 1000
            && elapsed > self.batch_interval * 1000);
        if elapsed_past {
            let b = self.drain();
            assert(results_view(b.events@) == all);
            Some(b)
        } else {
            None
        }
    }

    /// Drains the backlog into a batch to send, unless it is empty.
    pub fn drain_and_send(&mut self) -> (r: Option<CheckBatchRequest>)
        requires
            old(self).wf(),
        ensures
            final(self).wf(),
            final(self).backlog@.len() == 0,
            old(self).backlog@.len() == 0 <==> r is None,
            r matches Some(b) ==> b.events@ == old(self).backlog@ && b@.tags == Some(old(self).tags_view())
                && b.created_at is None && 1 <= b.events@.len() <= old(self).batch,
            final(self).batch == old(self).batch,
            final(self).batch_interval == old(self).batch_interval,
            final(self).last_batch == old(self).last_batch,
            final(self).tags_view() == old(self).tags_view(),
    {
        if self.backlog.len() == 0 {
            return None;
        }
        Some(self.drain())
    }

    /// Records a successful flush at `now`.
    pub fn mark_flushed(&mut self, now: u64)
        ensures
            final(self).last_batch == now,
            final(self).backlog@ == old(self).backlog@,
            final(self).batch == old(self).batch,
            final(self).batch_interval == old(self).batch_interval,
            final(self).tags_view() == old(self).tags_view(),
    {
        self.last_batch = now;
    }

    pub fn backlog_len(&self) -> (r: usize)
        ensures
            r == self.backlog@.len(),
    {
        self.backlog.len()
    }
}

/// The broker's health from its health RPC: `reply` is the `healthy` flag
/// of the response, `None` when the call failed. Unhealthy unless the call
/// came back healthy.
pub fn health_from_reply(reply: Option<bool>) -> (r: Result<(), BatchSenderError>)
    ensures
        r is Ok <==> reply == Some(true),
        r is Err ==> r == Err::<(), BatchSenderError>(BatchSenderError::BrokerUnhealthy),
{
    match reply {
        Some(true) => Ok(()),
        _ => Err(BatchSenderError::BrokerUnhealthy),
    }
}

/// Sink that writes each result as a log line on standard output.
pub struct StdoutBatchSender {}

impl StdoutBatchSender {
    pub fn new() -> (r: StdoutBatchSender) {
        StdoutBatchSender {}
    }

    /// Takes one result; never fails. Gives back what the log line shows:
    /// the job's identifier and the status.
    pub fn send(&mut self, job_result: JobResult) -> (r: Result<(JobId, CheckJobStatus), BatchSenderError>)
        ensures
            r == Ok::<(JobId, CheckJobStatus), BatchSenderError>((job_result@.id, job_result@.status)),
    {
        Ok((job_result.id(), job_result.status()))
    }

    /// Standard output is always available.
    pub fn health_check(&mut self) -> (r: Result<(), BatchSenderError>)
        ensures
            r is Ok,
    {
        Ok(())
    }
}

/// The tags the local socket sink stamps on its batches.
pub open spec fn local_tags() -> TagsView {
    TagsView { agent_id: "local-agent"@, zone: "dev"@, region: "localhost"@ }
}

/// The single-event batch the socket sink writes for one result.
pub fn socket_batch(job_result: JobResult) -> (r: CheckBatchRequest)
    ensures
        r@.tags == Some(local_tags()),
        r@.events == seq![JobResult::wire_view(job_result@)],
        r.created_at is None,
{
    let mut events: Vec<CheckResult> = Vec::new();
    events.push(job_result.into_check_result());
    assert(results_view(events@) =~= seq![JobResult::wire_view(job_result@)]);
    CheckBatchRequest {
        tags: Some(Tags::new(
            String::from_str("local-agent"),
            String::from_str("dev"),
            String::from_str("localhost"),
        )),
        events,
        created_at: None,
    }
}

} // verus!
