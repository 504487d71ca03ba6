use isok::codec::{decode_batch_bytes, decode_result_bytes, encode_batch_bytes, encode_result_bytes, encode_tags_to};
use isok::frame::{frame, parse_frame, read_be_u64, read_frame, socket_frame};
use isok::ids::JobId;
use isok::jobs::JobResult;
use isok::wire::{CheckBatchRequest, CheckJobMetrics, CheckResult, Tags, Timestamp};

fn tags(a: &str, z: &str, r: &str) -> Tags {
    Tags::new(a.to_string(), z.to_string(), r.to_string())
}

fn sample_batch() -> CheckBatchRequest {
    CheckBatchRequest {
        tags: Some(tags("agent-1", "eu-west", "paris")),
        events: vec![
            CheckResult {
                id_ulid: "01ARZ3NDEKTSV4RRWETS2EGZ5M".to_string(),
                run_at: Some(Timestamp { seconds: -5, nanos: 999 }),
                status: 1,
                metrics: Some(CheckJobMetrics { latency: Some(300) }),
                tags: Some(tags("x", "", "zé")),
            },
            CheckResult {
                id_ulid: String::new(),
                run_at: None,
                status: -3,
                metrics: Some(CheckJobMetrics { latency: Some(0) }),
                tags: None,
            },
            CheckResult {
                id_ulid: "b".to_string(),
                run_at: Some(Timestamp { seconds: 0, nanos: 0 }),
                status: 0,
                metrics: Some(CheckJobMetrics { latency: None }),
                tags: Some(tags("", "", "")),
            },
        ],
        created_at: Some(Timestamp { seconds: i64::MAX, nanos: i32::MIN }),
    }
}

#[test]
fn batch_round_trip() {
    let b = sample_batch();
    let bytes = encode_batch_bytes(&b);
    assert_eq!(decode_batch_bytes(&bytes), Some(b));
}

#[test]
fn empty_batch_round_trip() {
    let b = CheckBatchRequest { tags: None, events: vec![], created_at: None };
    let bytes = encode_batch_bytes(&b);
    assert!(bytes.is_empty());
    assert_eq!(decode_batch_bytes(&bytes), Some(b));
}

#[test]
fn tags_exact_bytes() {
    let mut buf = Vec::new();
    encode_tags_to(&tags("a", "b", "c"), &mut buf);
    assert_eq!(buf, vec![0x0a, 1, b'a', 0x12, 1, b'b', 0x1a, 1, b'c']);
}

#[test]
fn result_exact_bytes() {
    let r = CheckResult {
        id_ulid: "A".to_string(),
        run_at: None,
        status: 2,
        metrics: Some(CheckJobMetrics { latency: Some(300) }),
        tags: None,
    };
    let bytes = encode_result_bytes(&r);
    assert_eq!(bytes, vec![0x0a, 1, b'A', 0x18, 2, 0x22, 3, 0x08, 0xac, 0x02]);
    assert_eq!(decode_result_bytes(&bytes), Some(r));
}

#[test]
fn unknown_fields_are_skipped() {
    // field 9 varint, field 10 bytes, field 11 fixed64, then tags {agent "a"}
    let mut bytes = vec![0x48, 0x05, 0x52, 0x02, 0xff, 0xff, 0x59, 1, 2, 3, 4, 5, 6, 7, 8];
    bytes.extend_from_slice(&[0x0a, 3, 0x0a, 1, b'a']);
    let b = decode_batch_bytes(&bytes).expect("decodes");
    assert_eq!(b.tags, Some(tags("a", "", "")));
    assert!(b.events.is_empty());
}

#[test]
fn truncated_input_is_refused() {
    let bytes = encode_batch_bytes(&sample_batch());
    assert_eq!(decode_batch_bytes(&bytes[..bytes.len() - 1]), None);
    assert_eq!(decode_batch_bytes(&[0x0a, 5, 1]), None);
}

#[test]
fn invalid_utf8_is_refused() {
    assert_eq!(decode_result_bytes(&[0x0a, 2, 0xc3, 0x28]), None);
}

#[test]
fn frame_prefix_is_big_endian_length() {
    let payload = vec![1u8; 300];
    let f = frame(&payload);
    assert_eq!(&f[..8], &[0, 0, 0, 0, 0, 0, 1, 44]);
    assert_eq!(read_be_u64(&f), 300);
    assert_eq!(parse_frame(&f), Some((8, 308)));
    assert_eq!(parse_frame(&f[..100]), None);
    assert_eq!(parse_frame(&f[..7]), None);
}

#[test]
fn socket_frame_holds_one_event() {
    let id = JobId::from_string("01ARZ3NDEKTSV4RRWETS2EGZ5M").unwrap();
    let mut r = JobResult::new(id, 10);
    r.set_reachable(15);
    let f = socket_frame(r);
    let n = u64::from_be_bytes(f[..8].try_into().unwrap()) as usize;
    assert_eq!(n, f.len() - 8);
    let b = decode_batch_bytes(&f[8..8 + n]).expect("decodes");
    assert_eq!(b.tags, Some(tags("local-agent", "dev", "localhost")));
    assert_eq!(b.events.len(), 1);
    assert_eq!(b.events[0].id_ulid, "01ARZ3NDEKTSV4RRWETS2EGZ5M");
    assert_eq!(b.events[0].status, 1);
    assert_eq!(b.events[0].metrics, Some(CheckJobMetrics { latency: Some(15) }));
    assert_eq!(b.events[0].tags, None);
}

#[test]
fn framed_batches_read_back_in_sequence() {
    let first = sample_batch();
    let second = CheckBatchRequest { tags: None, events: vec![], created_at: None };
    let mut stream = frame(&encode_batch_bytes(&first));
    stream.extend(frame(&encode_batch_bytes(&second)));
    let (a, n) = read_frame(&stream).expect("first frame");
    assert_eq!(a, first);
    let (b, m) = read_frame(&stream[n..]).expect("second frame");
    assert_eq!(b, second);
    assert_eq!(n + m, stream.len());
    assert_eq!(read_frame(&stream[..n - 1]), None);
}

#[test]
fn groups_are_skipped() {
    // group 9 holding a varint field and a nested group 2, then tags {agent "a"}
    let mut bytes = vec![0x4b, 0x08, 0x05, 0x13, 0x08, 0x01, 0x14, 0x4c];
    bytes.extend_from_slice(&[0x0a, 3, 0x0a, 1, b'a']);
    let b = decode_batch_bytes(&bytes).expect("decodes");
    assert_eq!(b.tags, Some(tags("a", "", "")));
}

#[test]
fn stray_or_mismatched_end_group_is_refused() {
    assert_eq!(decode_batch_bytes(&[0x4c]), None);
    assert_eq!(decode_batch_bytes(&[0x4b, 0x08, 0x05, 0x54]), None);
    assert_eq!(decode_batch_bytes(&[0x4b, 0x08, 0x05]), None);
}
