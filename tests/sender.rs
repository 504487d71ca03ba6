use isok::config::BrokerConfig;
use isok::ids::JobId;
use isok::jobs::{ConnectAttempt, HttpAttempt, HttpJob, Job, JobInnerConfig, JobResult, TcpJob};
use isok::sender::{
    health_from_reply, next_flush_step, BatchDelivery, BatchSenderError, BrokerBatchSender, FlushStep, StdoutBatchSender,
};
use isok::wire::{CheckJobStatus, Tags};

fn create_broker_config(batch: usize, batch_interval: usize) -> BrokerConfig {
    BrokerConfig {
        main_broker: "127.0.0.1:50551".to_string(),
        fallback_brokers: vec![],
        agent_id: "test".to_string(),
        zone: "dev".to_string(),
        region: "localhost".to_string(),
        batch,
        batch_interval,
    }
}

fn result(v: u128) -> JobResult {
    JobResult::new(JobId::from_value(v), 0)
}

#[test]
fn test_batch_sender() {
    let config = create_broker_config(10, 5);
    let mut sender = BrokerBatchSender::new(&config, 1_000);
    let snapshot_last_batch = sender.last_batch;
    assert_eq!(sender.send(result(1), 1_000), None);
    assert_eq!(sender.backlog_len(), 1);

    // Five seconds later
    let batch = sender.drain_and_send().expect("a batch");
    assert_eq!(batch.events.len(), 1);
    sender.mark_flushed(6_000);
    assert_eq!(sender.backlog_len(), 0);
    assert!(sender.last_batch > snapshot_last_batch);
}

#[test]
fn test_batch_sender_with_zero_batch() {
    let config = create_broker_config(0, 5);
    let mut sender = BrokerBatchSender::new(&config, 1_000);
    assert_eq!(sender.batch, 1);
    let snapshot_last_batch = sender.last_batch;
    let batch = sender.send(result(1), 1_001).expect("flushed at once");
    assert_eq!(batch.events.len(), 1);
    sender.mark_flushed(1_002);
    assert_eq!(sender.backlog_len(), 0);
    assert!(sender.last_batch > snapshot_last_batch);
}

#[test]
fn test_batch_sender_with_zero_interval() {
    let config = create_broker_config(10, 0);
    let mut sender = BrokerBatchSender::new(&config, 1_000);
    let snapshot_last_batch = sender.last_batch;
    let batch = sender.send(result(1), 1_000).expect("flushed at once");
    assert_eq!(batch.events.len(), 1);
    sender.mark_flushed(1_001);
    assert_eq!(sender.backlog_len(), 0);
    assert!(sender.last_batch > snapshot_last_batch);
    for i in 0..5 {
        assert!(sender.send(result(i), 1_001).is_some());
        assert_eq!(sender.backlog_len(), 0);
    }
}

#[test]
fn batch_boundary_three() {
    let config = create_broker_config(3, 60);
    let mut sender = BrokerBatchSender::new(&config, 0);
    assert_eq!(sender.send(result(1), 1), None);
    assert_eq!(sender.send(result(2), 2), None);
    let batch = sender.send(result(3), 3).expect("full batch");
    assert_eq!(batch.events.len(), 3);
    assert_eq!(batch.tags, Some(Tags::new("test".to_string(), "dev".to_string(), "localhost".to_string())));
    assert_eq!(batch.events[0].id_ulid, JobId::from_value(1).to_string());
    assert_eq!(batch.events[2].id_ulid, JobId::from_value(3).to_string());
    assert_eq!(sender.backlog_len(), 0);
    sender.mark_flushed(4);
    assert_eq!(sender.last_batch, 4);
}

#[test]
fn time_flush_only_after_interval() {
    let config = create_broker_config(10, 2);
    let mut sender = BrokerBatchSender::new(&config, 0);
    assert_eq!(sender.send(result(1), 2_000), None);
    let batch = sender.send(result(2), 2_001).expect("interval passed");
    assert_eq!(batch.events.len(), 2);
    assert_eq!(sender.backlog_len(), 0);
}

#[test]
fn batches_never_exceed_size() {
    let config = create_broker_config(4, 1);
    let mut sender = BrokerBatchSender::new(&config, 0);
    let mut now = 0u64;
    for i in 0..50u128 {
        now += 300;
        if let Some(b) = sender.send(result(i), now) {
            assert!(!b.events.is_empty() && b.events.len() <= 4);
            sender.mark_flushed(now);
        }
    }
    assert!(sender.drain_and_send().map_or(true, |b| !b.events.is_empty() && b.events.len() <= 4));
    assert_eq!(sender.drain_and_send(), None);
}

#[test]
fn retry_then_delivered() {
    assert_eq!(
        next_flush_step(0, Err("unavailable".to_string())),
        FlushStep::Retry { delay_ms: 2000, retry_count: 1 }
    );
    assert_eq!(next_flush_step(1, Ok(())), FlushStep::Delivered);
}

#[test]
fn retries_exhausted() {
    let mut count = 0u8;
    loop {
        match next_flush_step(count, Err("down".to_string())) {
            FlushStep::Retry { delay_ms, retry_count } => {
                assert_eq!(delay_ms, 2000);
                count = retry_count;
            }
            FlushStep::GiveUp(e) => {
                assert_eq!(e, BatchSenderError::UnableToSendBatch("down".to_string()));
                break;
            }
            FlushStep::Delivered => panic!("nothing was delivered"),
        }
    }
    assert_eq!(count, 3);
}

#[test]
fn health_reply() {
    assert_eq!(health_from_reply(Some(true)), Ok(()));
    assert_eq!(health_from_reply(Some(false)), Err(BatchSenderError::BrokerUnhealthy));
    assert_eq!(health_from_reply(None), Err(BatchSenderError::BrokerUnhealthy));
}

#[test]
fn http_reachable_scenario() {
    let id = JobId::from_string("01ARZ3NDEKTSV4RRWETS2EGZ5M").unwrap();
    let http = HttpJob::new("http://127.0.0.1:8080/".to_string());
    let job = Job::with_id(id, 10_000, JobInnerConfig::Http(http.clone()), "local".to_string());
    let mut r = job.start_run(0);
    http.execute(&mut r, HttpAttempt::Responded { latency: 3 }).unwrap();
    let mut sender = BrokerBatchSender::new(&create_broker_config(1, 10), 0);
    let batch = sender.send(r, 50).expect("sent at once");
    assert_eq!(batch.events.len(), 1);
    assert_eq!(batch.events[0].id_ulid, "01ARZ3NDEKTSV4RRWETS2EGZ5M");
    assert_eq!(batch.events[0].status, 1);
    let latency = batch.events[0].metrics.unwrap().latency.expect("latency present");
    assert!(latency < 5000);
}

#[test]
fn tcp_unreachable_scenario() {
    let tcp = TcpJob::new("127.0.0.1:65534".to_string());
    let job = Job::new(10_000, JobInnerConfig::Tcp(tcp.clone()), "offline".to_string());
    let mut r = job.start_run(0);
    tcp.execute(&mut r, ConnectAttempt::Failed).unwrap();
    let mut sender = BrokerBatchSender::new(&create_broker_config(1, 10), 0);
    let batch = sender.send(r, 50).expect("sent at once");
    assert_eq!(batch.events.len(), 1);
    assert_eq!(batch.events[0].status, 2);
    assert_eq!(batch.events[0].metrics.unwrap().latency, None);
}

#[test]
fn stdout_sink_never_fails() {
    let mut out = StdoutBatchSender::new();
    assert_eq!(out.send(result(9)), Ok((JobId::from_value(9), CheckJobStatus::Unknown)));
    assert_eq!(out.health_check(), Ok(()));
}

#[test]
fn retries_resend_the_same_bytes() {
    let mut sender = BrokerBatchSender::new(&create_broker_config(2, 60), 0);
    assert_eq!(sender.send(result(1), 1), None);
    let batch = sender.send(result(2), 2).expect("full batch");
    let mut delivery = BatchDelivery::new(batch.clone());
    let first = delivery.payload().to_vec();
    assert_eq!(first, isok::codec::encode_batch_bytes(&batch));
    assert_eq!(
        delivery.on_outcome(Err("unavailable".to_string())),
        FlushStep::Retry { delay_ms: 2000, retry_count: 1 }
    );
    assert_eq!(delivery.payload(), &first[..]);
    assert_eq!(delivery.on_outcome(Ok(())), FlushStep::Delivered);
    assert_eq!(delivery.batch, batch);
}
