use isok::broker::{health, log_record, ApiStatus, BatchIngest, Config, MessageBrokerError};
use isok::codec::{decode_result_bytes, encode_result_bytes};
use isok::wire::{CheckBatchRequest, CheckJobMetrics, CheckResult, Tags};

fn tags(a: &str, z: &str, r: &str) -> Tags {
    Tags::new(a.to_string(), z.to_string(), r.to_string())
}

fn event(id: &str, t: Option<Tags>) -> CheckResult {
    CheckResult {
        id_ulid: id.to_string(),
        run_at: None,
        status: 1,
        metrics: Some(CheckJobMetrics { latency: Some(4) }),
        tags: t,
    }
}

#[test]
fn missing_tags_is_invalid_argument() {
    let req = CheckBatchRequest { tags: None, events: vec![event("a", None)], created_at: None };
    assert!(matches!(BatchIngest::start(req), Err(ApiStatus::InvalidArgument(_))));
}

#[test]
fn events_take_the_batch_tags() {
    let req = CheckBatchRequest {
        tags: Some(tags("test", "dev", "localhost")),
        events: vec![event("a", Some(tags("spoof", "x", "y"))), event("b", None)],
        created_at: None,
    };
    let mut ingest = BatchIngest::start(req).expect("accepted");
    let mut keys = Vec::new();
    while let Some(rec) = ingest.next_record() {
        let e = decode_result_bytes(&rec.value).unwrap();
        assert_eq!(e.tags, Some(tags("test", "dev", "localhost")));
        keys.push(rec.key.clone());
        ingest.record_outcome(Ok(())).unwrap();
    }
    assert_eq!(keys, vec!["a".to_string(), "b".to_string()]);
    assert_eq!(ingest.response().error, None);
}

#[test]
fn publish_failure_aborts_the_batch() {
    let req = CheckBatchRequest {
        tags: Some(tags("t", "z", "r")),
        events: vec![event("a", None), event("b", None), event("c", None)],
        created_at: None,
    };
    let mut ingest = BatchIngest::start(req).unwrap();
    assert!(ingest.next_record().is_some());
    ingest.record_outcome(Ok(())).unwrap();
    let err = MessageBrokerError::UnableToStoreCheckResult("timeout".to_string());
    assert_eq!(ingest.record_outcome(Err(err.clone())), Err(ApiStatus::Internal(err)));
    assert_eq!(ingest.published, 1);
}

#[test]
fn resending_gives_the_same_keys() {
    let req = CheckBatchRequest {
        tags: Some(tags("t", "z", "r")),
        events: vec![event("01ARZ3NDEKTSV4RRWETS2EGZ5M", None)],
        created_at: None,
    };
    let first = BatchIngest::start(req.clone()).unwrap().next_record().unwrap();
    let second = BatchIngest::start(req).unwrap().next_record().unwrap();
    assert_eq!(first, second);
    assert_eq!(first.key, "01ARZ3NDEKTSV4RRWETS2EGZ5M");
}

#[test]
fn record_is_keyed_by_identifier() {
    let e = event("k1", None);
    let rec = log_record(&e);
    assert_eq!(rec.key, "k1");
    assert_eq!(rec.value, encode_result_bytes(&e));
}

#[test]
fn broker_defaults() {
    let c = Config::default_config();
    assert_eq!(c.kafka.topic, "isok.agent.results");
    assert_eq!(c.kafka.properties, vec![("bootstrap.servers".to_string(), "localhost:9092".to_string())]);
    assert_eq!(c.api.listen_address, "127.0.0.1:9000");
    assert!(health().healthy);
}
