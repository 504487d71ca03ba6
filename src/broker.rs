//! The broker's ingress rules: batch validation, tag stamping, and the
//! records handed to the durable log.

use crate::codec::{encode_result, encode_result_bytes};
use crate::wire::{CheckBatchRequest, CheckBatchResponse, CheckResult, CheckResultView, HealthResponse, Tags, TagsView, opt_tags_view, results_view};
use vstd::prelude::*;

verus! {

/// The durable log's settings.
#[derive(Debug, Clone, PartialEq, Eq)]
pub struct KafkaConfig {
    pub topic: String,
    /// Client properties, including the cluster's bootstrap address.
    pub properties: Vec<(String, String)>,
}

/// The RPC endpoint's settings.
#[derive(Debug, Clone, PartialEq, Eq)]
pub struct ApiConfig {
    /// `ip:port` to listen on.
    pub listen_address: String,
}

/// The broker's configuration.
#[derive(Debug, Clone, PartialEq, Eq)]
pub struct Config {
    pub kafka: KafkaConfig,
    pub api: ApiConfig,
}

impl Config {
    /// Topic `isok.agent.results` on a local cluster, listening on
    /// `127.0.0.1:9000`.
    pub fn default_config() -> (r: Config)
        ensures
            r.kafka.topic@ == "isok.agent.results"@,
            r.kafka.properties@.len() == 1,
            r.kafka.properties@[0].0@ == "bootstrap.servers"@,
            r.kafka.properties@[0].1@ == "localhost:9092"@,
            r.api.listen_address@ == "127.0.0.1:9000"@,
    {
        let mut properties: Vec<(String, String)> = Vec::new();
        properties.push((String::from_str("bootstrap.servers"), String::from_str("localhost:9092")));
        Config {
            kafka: KafkaConfig { topic: String::from_str("isok.agent.results"), properties },
            api: ApiConfig { listen_address: String::from_str("127.0.0.1:9000") },
        }
    }
}

/// Failures of the durable-log publisher.
#[derive(Debug, Clone, PartialEq, Eq)]
pub enum MessageBrokerError {
    UnableToCreateProducer(String),
    ServiceUnhealthy,
    /// The record was not acknowledged in time, or the client failed.
    UnableToStoreCheckResult(String),
}

/// Status of a refused RPC.
#[derive(Debug, Clone, PartialEq, Eq)]
pub enum ApiStatus {
    /// The request is malformed (a batch without tags).
    InvalidArgument(String),
    /// Publishing an event failed; later events were not published.
    Internal(MessageBrokerError),
}

/// One record for the log: keyed by the event's identifier, valued by its
/// encoding.
#[derive(Debug, Clone, PartialEq, Eq)]
pub struct LogRecord {
    pub key: String,
    pub value: Vec<u8>,
}

/// The record of `event`.
pub fn log_record(event: &CheckResult) -> (r: LogRecord)
    ensures
        r.key@ == event.id_ulid@,
        r.value@ == encode_result(event@),
{
    LogRecord { key: event.id_ulid.clone(), value: encode_result_bytes(event) }
}

/// `e` with its tags replaced by `t`.
pub open spec fn stamped(e: CheckResultView, t: TagsView) -> CheckResultView {
    CheckResultView { tags: Some(t), ..e }
}

/// A batch being published, event by event, in order.
pub struct BatchIngest {
    pub tags: Tags,
    pub events: Vec<CheckResult>,
    /// How many events have been published.
    pub published: usize,
}

impl BatchIngest {
    pub open spec fn wf(&self) -> bool {
        self.published <= self.events@.len() <= usize::MAX
    }

    /// Accepts a batch: one without tags is refused; otherwise every event's
    /// tags become the batch's tags, whatever the agent put there.
    pub fn start(request: CheckBatchRequest) -> (r: Result<BatchIngest, ApiStatus>)
        ensures
            request.tags is None <==> r is Err,
            r matches Err(e) ==> e is InvalidArgument,
            r matches Ok(g) ==> {
                &&& g.wf()
                &&& g.published == 0
                &&& Some(g.tags@) == opt_tags_view(request.tags)
                &&& g.events@.len() == request.events@.len()
                &&& forall|i: int| 0 <= i < g.events@.len()
                    ==> #[trigger] g.events@[i]@ == stamped(request.events@[i]@, g.tags@)
            },
    {
        let CheckBatchRequest { tags, events, created_at: _ } = request;
        let tags = match tags {
            Some(t) => t,
            None => {
                return Err(ApiStatus::InvalidArgument(String::from_str("Missing tags")));
            },
        };
        let ghost given = events@;
        let mut out: Vec<CheckResult> = Vec::new();
        let n = events.len();
        let mut i: usize = 0;
        while i < n
            invariant
                n == events@.len() == given.len(),
                events@ == given,
                i <= n,
                out@.len() == i,
                forall|k: int| 0 <= k < i ==> #[trigger] out@[k]@ == stamped(given[k]@, tags@),
            decreases n - i,
        {
            let e = &events[i];
            out.push(CheckResult {
                id_ulid: e.id_ulid.clone(),
                run_at: e.run_at,
                status: e.status,
                metrics: e.metrics,
                tags: Some(tags.duplicate()),
            });
            i = i + 1;
        }
        Ok(BatchIngest { tags, events: out, published: 0 })
    }

    /// The record of the next event to publish, if any is left.
    pub fn next_record(&self) -> (r: Option<LogRecord>)
        requires
            self.wf(),
        ensures
            r is None <==> self.published == self.events@.len(),
            r matches Some(rec) ==> rec.key@ == self.events@[self.published as int].id_ulid@
                && rec.value@ == encode_result(self.events@[self.published as int]@),
    {
        if self.published < self.events.len() {
            Some(log_record(&self.events[self.published]))
        } else {
            None
        }
    }

    /// Takes the outcome of publishing the next event. A failure ends the
    /// batch with an internal error; events already published stay
    /// published.
    pub fn record_outcome(&mut self, outcome: Result<(), MessageBrokerError>) -> (r: Result<(), ApiStatus>)
        requires
            old(self).wf(),
            old(self).published < old(self).events@.len(),
        ensures
            final(self).wf(),
            final(self).events == old(self).events,
            final(self).tags == old(self).tags,
            match outcome {
                Ok(()) => r is Ok && final(self).published == old(self).published + 1,
                Err(e) => r == Err::<(), ApiStatus>(ApiStatus::Internal(e)) && final(self).published == old(self).published,
            },
    {
        match outcome {
            Ok(()) => {
                self.published = self.published + 1;
                Ok(())
            },
            Err(e) => Err(ApiStatus::Internal(e)),
        }
    }

    /// The reply once every event is published.
    pub fn response(&self) -> (r: CheckBatchResponse)
        ensures
            r.error is None,
    {
        CheckBatchResponse { error: None }
    }
}

/// The reply to a health request: the broker is healthy while it serves.
pub fn health() -> (r: HealthResponse)
    ensures
        r.healthy,
{
    HealthResponse { healthy: true }
}

/// The key consumers deduplicate log events by.
pub open spec fn event_key(e: CheckResultView) -> (Seq<char>, Option<crate::wire::Timestamp>) {
    (e.id_ulid, e.run_at)
}

/// Whether an event before position `i` of `s` has the key of `s[i]`.
pub open spec fn seen_before(s: Seq<CheckResultView>, i: int) -> bool {
    exists|j: int| 0 <= j < i && event_key(#[trigger] s[j]) == event_key(s[i])
}

/// What a consumer keeping the first event of each key sees of `s`.
pub open spec fn distinct_on(s: Seq<CheckResultView>) -> Seq<CheckResultView>
    decreases s.len(),
{
    if s.len() == 0 {
        seq![]
    } else if seen_before(s, s.len() - 1) {
        distinct_on(s.drop_last())
    } else {
        distinct_on(s.drop_last()).push(s.last())
    }
}

/// No two events of `s` share a key.
pub open spec fn keys_distinct(s: Seq<CheckResultView>) -> bool {
    forall|i: int, j: int| 0 <= i < j < s.len() ==> event_key(#[trigger] s[i]) != event_key(#[trigger] s[j])
}

proof fn lemma_distinct_prefix(es: Seq<CheckResultView>, k: int, j: int)
    requires
        0 <= k <= es.len(),
        0 <= j <= k + es.len(),
    ensures
        distinct_on((es.take(k) + es).take(j)) == distinct_on(
            es.take(if j <= k { j } else if j - k <= k { k } else { j - k }),
        ),
    decreases j,
{
    let l = es.take(k) + es;
    let t = l.take(j);
    if j == 0 {
        assert(t =~= es.take(0));
    } else if j <= k {
        assert(t =~= es.take(j));
    } else {
        lemma_distinct_prefix(es, k, j - 1);
        assert(t.drop_last() =~= l.take(j - 1));
        let i = j - 1;
        let m = i - k;
        assert(t[i] == es[m]);
        if m < k {
            assert(t[m] == es[m]);
            assert(seen_before(t, i));
        } else {
            let u = es.take(m + 1);
            assert(u.drop_last() =~= es.take(m));
            assert(u[m] == es[m]);
            assert(seen_before(t, i) == seen_before(u, m)) by {
                if seen_before(t, i) {
                    let w = choose|w: int| 0 <= w < i && event_key(#[trigger] t[w]) == event_key(t[i]);
                    if w < k {
                        assert(t[w] == es[w]);
                        assert(u[w] == es[w]);
                    } else {
                        assert(t[w] == es[w - k]);
                        assert(u[w - k] == es[w - k]);
                    }
                }
                if seen_before(u, m) {
                    let w = choose|w: int| 0 <= w < m && event_key(#[trigger] u[w]) == event_key(u[m]);
                    assert(t[w + k] == es[w]);
                }
            }
        }
    }
}

/// A batch that was partly published (its first `k` events) and then sent
/// again whole leaves duplicates on the log; a consumer that keeps the first
/// event of each (identifier, run time) key sees exactly what it would have
/// seen had the batch been published once.
pub proof fn lemma_retry_seen_as_once(es: Seq<CheckResultView>, k: int)
    requires
        0 <= k <= es.len(),
    ensures
        distinct_on(es.take(k) + es) == distinct_on(es),
{
    let l = es.take(k) + es;
    lemma_distinct_prefix(es, k, k + es.len());
    assert(l.take(k + es.len()) =~= l);
    assert(es.take(es.len() as int) =~= es);
}

proof fn lemma_distinct_keys_kept(es: Seq<CheckResultView>)
    requires
        keys_distinct(es),
    ensures
        distinct_on(es) == es,
    decreases es.len(),
{
    if es.len() > 0 {
        let init = es.drop_last();
        assert(keys_distinct(init)) by {
            assert forall|a: int, b: int| 0 <= a < b < init.len() implies event_key(#[trigger] init[a])
                != event_key(#[trigger] init[b]) by {
                assert(init[a] == es[a] && init[b] == es[b]);
            }
        }
        lemma_distinct_keys_kept(init);
        assert(!seen_before(es, es.len() - 1));
        assert(init.push(es.last()) =~= es);
    }
}

/// When the batch's keys are distinct, that consumer sees each event of the
/// batch exactly once, in order.
pub proof fn lemma_retry_seen_once(es: Seq<CheckResultView>, k: int)
    requires
        keys_distinct(es),
        0 <= k <= es.len(),
    ensures
        distinct_on(es.take(k) + es) == es,
{
    lemma_retry_seen_as_once(es, k);
    lemma_distinct_keys_kept(es);
}

} // verus!
