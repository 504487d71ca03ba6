use isok::ids::JobId;
use isok::jobs::{
    ConnectAttempt, HttpAttempt, HttpJob, InvalidHeader, Job, JobError, JobInnerConfig, JobResult, TcpJob,
};
use isok::wire::CheckJobStatus;

#[test]
fn test_job_id_serde_generate() {
    let job = Job::new(
        5000,
        JobInnerConfig::Http(HttpJob::new("https://my_endpoint.com/api/v1/healthy?system_only=true".to_string())),
        "5s failing endpoint".to_string(),
    );
    assert_eq!(job.id().to_string().len(), 26);
}

#[test]
fn test_job_id_serde_from_ulid() {
    let id = JobId::from_string("01ARZ3NDEKTSV4RRWETS2EGZ5M").expect("valid identifier");
    let job = Job::with_id(
        id,
        5000,
        JobInnerConfig::Http(HttpJob::new("https://my_endpoint.com/api/v1/healthy?system_only=true".to_string())),
        "5s failing endpoint".to_string(),
    );
    assert_eq!(&job.id().to_string(), "01ARZ3NDEKTSV4RRWETS2EGZ5M");
}

#[test]
fn test_tcp_job_invalid_endpoint() {
    let tcp = TcpJob { endpoint: "toto".to_string(), secured: false };
    let mut job_result = JobResult::new(JobId::generate(), 0);
    tcp.execute(&mut job_result, ConnectAttempt::InvalidEndpoint)
        .expect("Expected execution to succeed");
    assert_eq!(job_result.status(), CheckJobStatus::Unreachable);
}

#[test]
fn test_tcp_job_valid_endpoint_online() {
    let tcp = TcpJob { endpoint: "127.0.0.1:4000".to_string(), secured: false };
    let mut job_result = JobResult::new(JobId::generate(), 0);
    tcp.execute(&mut job_result, ConnectAttempt::Connected { latency: 1 })
        .expect("Expected execution to succeed");
    assert_eq!(job_result.status(), CheckJobStatus::Reachable);
}

#[test]
fn test_tcp_job_valid_endpoint_offline() {
    let tcp = TcpJob { endpoint: "127.0.0.1:65534".to_string(), secured: false };
    let mut job_result = JobResult::new(JobId::generate(), 0);
    tcp.execute(&mut job_result, ConnectAttempt::Failed)
        .expect("Expected execution to succeed");
    assert_eq!(job_result.status(), CheckJobStatus::Unreachable);
}

#[test]
fn job_id_text_round_trips() {
    let id = JobId::generate();
    let text = id.to_string();
    assert_eq!(JobId::from_string(&text), Some(id));
}

#[test]
fn job_id_text_of_known_value() {
    let id = JobId::from_value(0x41414141414141414141414141414141);
    assert_eq!(id.to_string(), "21850M2GA1850M2GA1850M2GA1");
    assert_eq!(JobId::from_string("21850M2GA1850M2GA1850M2GA1"), Some(id));
}

#[test]
fn job_id_rejects_bad_text() {
    assert_eq!(JobId::from_string("toto"), None);
    assert_eq!(JobId::from_string("01ARZ3NDEKTSV4RRWETS2EGZ5U"), None);
}

#[test]
fn new_result_is_unknown_without_latency() {
    let r = JobResult::new(JobId::from_value(7), 42);
    assert_eq!(r.status(), CheckJobStatus::Unknown);
    assert_eq!(r.latency(), None);
    assert_eq!(r.run_at(), 42);
    assert_eq!(r.id(), JobId::from_value(7));
}

#[test]
fn reachable_iff_latency_through_updates() {
    let mut r = JobResult::new(JobId::from_value(1), 0);
    r.set_reachable(12);
    assert_eq!(r.status(), CheckJobStatus::Reachable);
    assert_eq!(r.latency(), Some(12));
    r.set_unreachable();
    assert_eq!(r.status(), CheckJobStatus::Unreachable);
    assert_eq!(r.latency(), None);
    let wire = r.into_check_result();
    assert_eq!(wire.status, 2);
    assert_eq!(wire.metrics.unwrap().latency, None);
}

#[test]
fn http_any_response_is_reachable() {
    let job = HttpJob::new("http://127.0.0.1:8080/".to_string());
    let mut r = JobResult::new(JobId::from_value(1), 0);
    // A 500 reply is still a reply.
    assert_eq!(job.execute(&mut r, HttpAttempt::Responded { latency: 7 }), Ok(()));
    assert_eq!(r.status(), CheckJobStatus::Reachable);
    assert_eq!(r.latency(), Some(7));
}

#[test]
fn http_transport_failure_is_unreachable() {
    let job = HttpJob::new("http://127.0.0.1:1/".to_string());
    let mut r = JobResult::new(JobId::from_value(1), 0);
    assert_eq!(job.execute(&mut r, HttpAttempt::TransportFailed), Ok(()));
    assert_eq!(r.status(), CheckJobStatus::Unreachable);
    assert_eq!(r.latency(), None);
}

#[test]
fn http_client_failure_is_an_error() {
    let job = HttpJob::new("http://127.0.0.1:1/".to_string());
    let mut r = JobResult::new(JobId::from_value(1), 0);
    assert_eq!(
        job.execute(&mut r, HttpAttempt::ClientFailed("no tls".to_string())),
        Err(JobError::HttpError("no tls".to_string()))
    );
    assert_eq!(r.status(), CheckJobStatus::Unknown);
}

#[test]
fn default_headers_are_valid() {
    let job = HttpJob::new("http://example.com/".to_string());
    assert_eq!(job.headers, vec![("Content-Type".to_string(), "application/json".to_string())]);
    assert_eq!(job.check_headers(), Ok(()));
}

#[test]
fn bad_header_name_is_reported() {
    let mut job = HttpJob::new("http://example.com/".to_string());
    job.insert_header("Bad Name".to_string(), "x".to_string());
    job.insert_header("Other".to_string(), "bad\u{1}value".to_string());
    let mut r = JobResult::new(JobId::from_value(1), 0);
    assert_eq!(
        job.execute(&mut r, HttpAttempt::Responded { latency: 1 }),
        Err(JobError::InvalidJobConfig(InvalidHeader::Name("Bad Name".to_string())))
    );
    assert_eq!(r.status(), CheckJobStatus::Unknown);
}

#[test]
fn bad_header_value_is_reported() {
    let mut job = HttpJob::new("http://example.com/".to_string());
    job.insert_header("Authorization".to_string(), "Bearer\u{7f}".to_string());
    assert_eq!(
        job.check_headers(),
        Err(JobError::InvalidJobConfig(InvalidHeader::Value("Authorization".to_string())))
    );
    job.insert_header("Authorization".to_string(), "Bearer\tété".to_string());
    assert_eq!(job.headers.len(), 2);
    assert_eq!(job.check_headers(), Ok(()));
}

#[test]
fn empty_header_name_is_invalid() {
    let mut job = HttpJob::new("http://example.com/".to_string());
    job.insert_header(String::new(), "x".to_string());
    assert_eq!(
        job.check_headers(),
        Err(JobError::InvalidJobConfig(InvalidHeader::Name(String::new())))
    );
}

#[test]
fn tcp_invalid_endpoint_gives_status_two() {
    let tcp = TcpJob::new("toto".to_string());
    assert!(!tcp.secured);
    let job = Job::new(10_000, JobInnerConfig::Tcp(tcp.clone()), "tcp".to_string());
    let mut r = job.start_run(5);
    assert_eq!(tcp.execute(&mut r, ConnectAttempt::InvalidEndpoint), Ok(()));
    let wire = r.into_check_result();
    assert_eq!(wire.status, 2);
    assert_eq!(wire.metrics.unwrap().latency, None);
    assert_eq!(wire.id_ulid, job.id().to_string());
}

#[test]
fn status_codes() {
    assert_eq!(CheckJobStatus::Unknown.code(), 0);
    assert_eq!(CheckJobStatus::Reachable.code(), 1);
    assert_eq!(CheckJobStatus::Unreachable.code(), 2);
    assert_eq!(CheckJobStatus::from_code(1), Some(CheckJobStatus::Reachable));
    assert_eq!(CheckJobStatus::from_code(3), None);
    assert_eq!(CheckJobStatus::from_code(-1), None);
}

#[test]
fn insert_header_replaces_same_name() {
    let mut job = HttpJob::without_headers("http://example.com/".to_string());
    job.insert_header("A".to_string(), "1".to_string());
    job.insert_header("B".to_string(), "2".to_string());
    job.insert_header("A".to_string(), "3".to_string());
    assert_eq!(job.headers, vec![("A".to_string(), "3".to_string()), ("B".to_string(), "2".to_string())]);
}
