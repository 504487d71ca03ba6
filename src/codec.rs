//! The compact binary encoding shared by the socket frames, the RPC payloads
//! and the log values: protocol-buffer wire format for the check-batch
//! schema (field numbers as in the schema; default scalars are omitted,
//! optional values and sub-messages are written when present, fields in
//! field-number order). Unknown fields are skipped on read.

use crate::wire::{
    CheckBatchRequest, CheckBatchRequestView, CheckBatchResponse, CheckJobMetrics, CheckResult, CheckResultView, Tags,
    TagsView, Timestamp, HealthResponse, results_view,
};
use vstd::prelude::*;
use vstd::utf8::encode_utf8;

verus! {

/// LEB128 bytes of `v`: seven bits per byte, least significant group first,
/// the high bit set on every byte but the last.
pub open spec fn varint(v: u64) -> Seq<u8>
    decreases v,
{
    if v < 128 {
        seq![v as u8]
    } else {
        seq![((v % 128) + 128) as u8] + varint(v / 128)
    }
}

/// Reads a LEB128 group of at most `fuel` bytes from the front of `s`: its
/// value and its length.
pub open spec fn read_groups(s: Seq<u8>, fuel: nat) -> Option<(int, int)>
    decreases fuel,
{
    if fuel == 0 || s.len() == 0 {
        None
    } else if s[0] < 128 {
        Some((s[0] as int, 1))
    } else {
        match read_groups(s.drop_first(), (fuel - 1) as nat) {
            Some((v, n)) => Some(((s[0] - 128) + 128 * v, n + 1)),
            None => None,
        }
    }
}

/// Reads a varint of at most ten bytes whose value fits in 64 bits.
pub open spec fn read_varint(s: Seq<u8>) -> Option<(u64, int)> {
    match read_groups(s, 10) {
        Some((v, n)) => if 0 <= v <= u64::MAX {
            Some((v as u64, n))
        } else {
            None
        },
        None => None,
    }
}

/// 128 to the power `n`.
pub open spec fn pow128(n: nat) -> int
    decreases n,
{
    if n == 0 {
        1
    } else {
        128 * pow128((n - 1) as nat)
    }
}

proof fn lemma_read_groups_len(s: Seq<u8>, fuel: nat)
    ensures
        read_groups(s, fuel) matches Some((v, n)) ==> 1 <= n <= s.len() && n <= fuel && 0 <= v < pow128(n as nat),
    decreases fuel,
{
    if fuel > 0 && s.len() > 0 && s[0] >= 128 {
        lemma_read_groups_len(s.drop_first(), (fuel - 1) as nat);
        if let Some((v, n)) = read_groups(s.drop_first(), (fuel - 1) as nat) {
            let p = pow128(n as nat);
            let b = s[0] - 128;
            assert(b + 128 * v < 128 * p) by (nonlinear_arith)
                requires
                    0 <= b < 128,
                    0 <= v < p,
            ;
            assert(pow128((n + 1) as nat) == 128 * p);
        }
    } else {
        assert(pow128(1) == 128 * pow128(0));
    }
}

proof fn lemma_pow128_10()
    ensures
        pow128(10) == 1180591620717411303424,
{
    reveal_with_fuel(pow128, 11);
}

proof fn lemma_varint_len_bound(v: u64, k: nat)
    requires
        k >= 1,
        v < pow128(k),
    ensures
        1 <= varint(v).len() <= k,
    decreases v,
{
    if v >= 128 {
        let p = pow128((k - 1) as nat);
        assert(pow128(k) == 128 * p);
        assert(k >= 2);
        assert(v / 128 < p) by (nonlinear_arith)
            requires
                v < 128 * p,
        ;
        lemma_varint_len_bound(v / 128, (k - 1) as nat);
    }
}

/// A 64-bit varint takes one to ten bytes.
pub proof fn lemma_varint_len(v: u64)
    ensures
        1 <= varint(v).len() <= 10,
{
    lemma_pow128_10();
    lemma_varint_len_bound(v, 10);
}

proof fn lemma_read_groups_varint(v: u64, rest: Seq<u8>, fuel: nat)
    requires
        varint(v).len() <= fuel,
    ensures
        read_groups(varint(v) + rest, fuel) == Some((v as int, varint(v).len() as int)),
    decreases v,
{
    let s = varint(v) + rest;
    if v >= 128 {
        lemma_varint_len(v / 128);
        assert(s.drop_first() =~= varint(v / 128) + rest);
        lemma_read_groups_varint(v / 128, rest, (fuel - 1) as nat);
        assert(s[0] == ((v % 128) + 128) as u8);
    }
}

/// The varint of `v`, followed by anything, reads back as `v`.
pub proof fn lemma_read_varint(v: u64, rest: Seq<u8>)
    ensures
        read_varint(varint(v) + rest) == Some((v, varint(v).len() as int)),
        1 <= varint(v).len() <= 10,
{
    lemma_varint_len(v);
    lemma_read_groups_varint(v, rest, 10);
}

/// Relies on `prost::encoding::encode_varint`: appends the LEB128 bytes of
/// `v`.
#[verifier::external_body]
fn put_varint(v: u64, buf: &mut Vec<u8>)
    ensures
        final(buf)@ == old(buf)@ + varint(v),
{
    prost::encoding::encode_varint(v, buf)
}

fn read_groups_at(b: &[u8], pos: usize, end: usize, fuel: u8) -> (r: Option<(u128, usize)>)
    requires
        pos <= end <= b@.len(),
        fuel <= 10,
    ensures
        match r {
            Some((v, n)) => read_groups(b@.subrange(pos as int, end as int), fuel as nat) == Some((v as int, n as int)),
            None => read_groups(b@.subrange(pos as int, end as int), fuel as nat) is None,
        },
    decreases fuel,
{
    let ghost s = b@.subrange(pos as int, end as int);
    if fuel == 0 || pos >= end {
        return None;
    }
    let byte = b[pos];
    if byte < 128 {
        return Some((byte as u128, 1));
    }
    assert(s.drop_first() =~= b@.subrange(pos + 1, end as int));
    match read_groups_at(b, pos + 1, end, fuel - 1) {
        Some((v, n)) => {
            proof {
                lemma_read_groups_len(s.drop_first(), (fuel - 1) as nat);
                lemma_pow128_le((n as nat), 9);
                lemma_pow128_9();
            }
            Some(((byte - 128) as u128 + 128 * v, n + 1))
        },
        None => None,
    }
}

proof fn lemma_pow128_le(a: nat, b: nat)
    requires
        a <= b,
    ensures
        1 <= pow128(a) <= pow128(b),
    decreases b,
{
    if b > 0 && a < b {
        lemma_pow128_le(a, (b - 1) as nat);
    } else if b > 0 {
        lemma_pow128_le((b - 1) as nat, (b - 1) as nat);
    }
}

proof fn lemma_pow128_9()
    ensures
        pow128(9) == 9223372036854775808,
{
    reveal_with_fuel(pow128, 10);
}

/// Reads the varint at `pos`, within `end`.
fn read_varint_at(b: &[u8], pos: usize, end: usize) -> (r: Option<(u64, usize)>)
    requires
        pos <= end <= b@.len(),
    ensures
        match r {
            Some((v, n)) => read_varint(b@.subrange(pos as int, end as int)) == Some((v, n as int)),
            None => read_varint(b@.subrange(pos as int, end as int)) is None,
        },
{
    match read_groups_at(b, pos, end, 10) {
        Some((v, n)) => if v <= u64::MAX as u128 {
            Some((v as u64, n))
        } else {
            None
        },
        None => None,
    }
}

/// The key of a field: its number and wire type.
pub open spec fn key(field: u64, wire_type: u64) -> Seq<u8> {
    varint((field * 8 + wire_type) as u64)
}

/// A length-delimited field (wire type 2).
pub open spec fn delimited(field: u64, payload: Seq<u8>) -> Seq<u8> {
    key(field, 2) + varint(payload.len() as u64) + payload
}

/// A varint field (wire type 0).
pub open spec fn varint_field(field: u64, v: u64) -> Seq<u8> {
    key(field, 0) + varint(v)
}

/// A string field; the empty string is omitted.
pub open spec fn string_field(field: u64, s: Seq<char>) -> Seq<u8> {
    if s.len() == 0 {
        seq![]
    } else {
        delimited(field, encode_utf8(s))
    }
}

/// An `int32` field, sign-extended to 64 bits; zero is omitted.
pub open spec fn int32_field(field: u64, v: i32) -> Seq<u8> {
    if v == 0 {
        seq![]
    } else {
        varint_field(field, v as i64 as u64)
    }
}

/// An `int64` field; zero is omitted.
pub open spec fn int64_field(field: u64, v: i64) -> Seq<u8> {
    if v == 0 {
        seq![]
    } else {
        varint_field(field, v as u64)
    }
}

/// An optional `uint64` field, written whenever it is present.
pub open spec fn opt_u64_field(field: u64, v: Option<u64>) -> Seq<u8> {
    match v {
        Some(x) => varint_field(field, x),
        None => seq![],
    }
}

/// A sub-message field, written whenever it is present.
pub open spec fn message_field(field: u64, payload: Option<Seq<u8>>) -> Seq<u8> {
    match payload {
        Some(p) => delimited(field, p),
        None => seq![],
    }
}

pub open spec fn encode_tags(t: TagsView) -> Seq<u8> {
    string_field(1, t.agent_id) + string_field(2, t.zone) + string_field(3, t.region)
}

pub open spec fn encode_timestamp(t: Timestamp) -> Seq<u8> {
    int64_field(1, t.seconds) + int32_field(2, t.nanos)
}

pub open spec fn encode_metrics(m: CheckJobMetrics) -> Seq<u8> {
    opt_u64_field(1, m.latency)
}

pub open spec fn timestamp_payload(t: Option<Timestamp>) -> Option<Seq<u8>> {
    match t {
        Some(t) => Some(encode_timestamp(t)),
        None => None,
    }
}

pub open spec fn metrics_payload(m: Option<CheckJobMetrics>) -> Option<Seq<u8>> {
    match m {
        Some(m) => Some(encode_metrics(m)),
        None => None,
    }
}

pub open spec fn tags_payload(t: Option<TagsView>) -> Option<Seq<u8>> {
    match t {
        Some(t) => Some(encode_tags(t)),
        None => None,
    }
}

pub open spec fn encode_result(r: CheckResultView) -> Seq<u8> {
    string_field(1, r.id_ulid) + message_field(2, timestamp_payload(r.run_at)) + int32_field(3, r.status)
        + message_field(4, metrics_payload(r.metrics)) + message_field(5, tags_payload(r.tags))
}

/// The events of a batch, each as field 2, in order.
pub open spec fn encode_events(es: Seq<CheckResultView>) -> Seq<u8>
    decreases es.len(),
{
    if es.len() == 0 {
        seq![]
    } else {
        encode_events(es.drop_last()) + delimited(2, encode_result(es.last()))
    }
}

pub open spec fn encode_batch(b: CheckBatchRequestView) -> Seq<u8> {
    message_field(1, tags_payload(b.tags)) + encode_events(b.events) + message_field(3, timestamp_payload(b.created_at))
}

fn put_key(field: u64, wire_type: u64, buf: &mut Vec<u8>)
    requires
        field <= 15,
        wire_type <= 7,
    ensures
        final(buf)@ == old(buf)@ + key(field, wire_type),
{
    put_varint(field * 8 + wire_type, buf);
}

fn put_bytes(bytes: &[u8], buf: &mut Vec<u8>)
    ensures
        final(buf)@ == old(buf)@ + bytes@,
{
    let n = bytes.len();
    let mut i: usize = 0;
    while i < n
        invariant
            n == bytes@.len(),
            i <= n,
            buf@ == old(buf)@ + bytes@.subrange(0, i as int),
        decreases n - i,
    {
        buf.push(bytes[i]);
        i = i + 1;
        assert(bytes@.subrange(0, i as int) =~= bytes@.subrange(0, i - 1) + seq![bytes@[i - 1]]);
    }
    assert(bytes@.subrange(0, n as int) =~= bytes@);
}

fn put_delimited(field: u64, payload: &[u8], buf: &mut Vec<u8>)
    requires
        field <= 15,
    ensures
        final(buf)@ == old(buf)@ + delimited(field, payload@),
{
    put_key(field, 2, buf);
    put_varint(payload.len() as u64, buf);
    put_bytes(payload, buf);
    assert(buf@ =~= old(buf)@ + delimited(field, payload@));
}

fn put_string_field(field: u64, s: &String, buf: &mut Vec<u8>)
    requires
        field <= 15,
    ensures
        final(buf)@ == old(buf)@ + string_field(field, s@),
{
    let bytes = s.as_str().as_bytes();
    proof {
        vstd::utf8::encode_utf8_decode_utf8(s@);
    }
    if bytes.len() == 0 {
        assert(s@.len() == 0) by {
            assert(s@ == vstd::utf8::decode_utf8(bytes@));
        }
        assert(buf@ =~= old(buf)@ + string_field(field, s@));
    } else {
        assert(s@.len() != 0);
        put_delimited(field, bytes, buf);
    }
}

fn put_int32_field(field: u64, v: i32, buf: &mut Vec<u8>)
    requires
        field <= 15,
    ensures
        final(buf)@ == old(buf)@ + int32_field(field, v),
{
    if v != 0 {
        put_key(field, 0, buf);
        put_varint(v as i64 as u64, buf);
        assert(buf@ =~= old(buf)@ + int32_field(field, v));
    } else {
        assert(buf@ =~= old(buf)@ + int32_field(field, v));
    }
}

fn put_int64_field(field: u64, v: i64, buf: &mut Vec<u8>)
    requires
        field <= 15,
    ensures
        final(buf)@ == old(buf)@ + int64_field(field, v),
{
    if v != 0 {
        put_key(field, 0, buf);
        put_varint(v as u64, buf);
        assert(buf@ =~= old(buf)@ + int64_field(field, v));
    } else {
        assert(buf@ =~= old(buf)@ + int64_field(field, v));
    }
}

fn put_message_field(field: u64, payload: Option<Vec<u8>>, buf: &mut Vec<u8>)
    requires
        field <= 15,
    ensures
        final(buf)@ == old(buf)@ + message_field(field, match payload {
            Some(p) => Some(p@),
            None => None,
        }),
{
    match payload {
        Some(p) => put_delimited(field, p.as_slice(), buf),
        None => {
            assert(buf@ =~= old(buf)@ + seq![]);
        },
    }
}

/// Encodes a tag set.
pub fn encode_tags_to(t: &Tags, buf: &mut Vec<u8>)
    ensures
        final(buf)@ == old(buf)@ + encode_tags(t@),
{
    put_string_field(1, &t.agent_id, buf);
    put_string_field(2, &t.zone, buf);
    put_string_field(3, &t.region, buf);
    assert(buf@ =~= old(buf)@ + encode_tags(t@));
}

fn encode_timestamp_to(t: Timestamp, buf: &mut Vec<u8>)
    ensures
        final(buf)@ == old(buf)@ + encode_timestamp(t),
{
    put_int64_field(1, t.seconds, buf);
    put_int32_field(2, t.nanos, buf);
    assert(buf@ =~= old(buf)@ + encode_timestamp(t));
}

fn encode_metrics_to(m: CheckJobMetrics, buf: &mut Vec<u8>)
    ensures
        final(buf)@ == old(buf)@ + encode_metrics(m),
{
    match m.latency {
        Some(x) => {
            put_key(1, 0, buf);
            put_varint(x, buf);
            assert(buf@ =~= old(buf)@ + encode_metrics(m));
        },
        None => {
            assert(buf@ =~= old(buf)@ + encode_metrics(m));
        },
    }
}

/// Encodes one check result, as stored on the log.
pub fn encode_result_to(r: &CheckResult, buf: &mut Vec<u8>)
    ensures
        final(buf)@ == old(buf)@ + encode_result(r@),
{
    let ghost start = buf@;
    put_string_field(1, &r.id_ulid, buf);
    let ghost b1 = buf@;
    let run_at = match r.run_at {
        Some(t) => {
            let mut p: Vec<u8> = Vec::new();
            encode_timestamp_to(t, &mut p);
            assert(p@ =~= encode_timestamp(t));
            Some(p)
        },
        None => None,
    };
    put_message_field(2, run_at, buf);
    let ghost b2 = buf@;
    put_int32_field(3, r.status, buf);
    let ghost b3 = buf@;
    let metrics = match r.metrics {
        Some(m) => {
            let mut p: Vec<u8> = Vec::new();
            encode_metrics_to(m, &mut p);
            assert(p@ =~= encode_metrics(m));
            Some(p)
        },
        None => None,
    };
    put_message_field(4, metrics, buf);
    let ghost b4 = buf@;
    let tags = match &r.tags {
        Some(t) => {
            let mut p: Vec<u8> = Vec::new();
            encode_tags_to(t, &mut p);
            assert(p@ =~= encode_tags(t@));
            Some(p)
        },
        None => None,
    };
    put_message_field(5, tags, buf);
    assert(buf@ =~= old(buf)@ + encode_result(r@));
}

/// The encoding of one check result.
pub fn encode_result_bytes(r: &CheckResult) -> (out: Vec<u8>)
    ensures
        out@ == encode_result(r@),
{
    let mut out: Vec<u8> = Vec::new();
    encode_result_to(r, &mut out);
    assert(out@ =~= encode_result(r@));
    out
}

/// The encoding of a batch.
pub fn encode_batch_bytes(b: &CheckBatchRequest) -> (out: Vec<u8>)
    ensures
        out@ == encode_batch(b@),
{
    let mut out: Vec<u8> = Vec::new();
    let tags = match &b.tags {
        Some(t) => {
            let mut p: Vec<u8> = Vec::new();
            encode_tags_to(t, &mut p);
            assert(p@ =~= encode_tags(t@));
            Some(p)
        },
        None => None,
    };
    put_message_field(1, tags, &mut out);
    let ghost head = out@;
    let n = b.events.len();
    let mut i: usize = 0;
    while i < n
        invariant
            n == b.events@.len(),
            i <= n,
            out@ == head + encode_events(b@.events.subrange(0, i as int)),
        decreases n - i,
    {
        let p = encode_result_bytes(&b.events[i]);
        put_delimited(2, p.as_slice(), &mut out);
        i = i + 1;
        let ghost es = b@.events.subrange(0, i as int);
        assert(es.drop_last() =~= b@.events.subrange(0, i - 1));
        assert(es.last() == b.events@[i - 1]@);
        assert(out@ =~= head + encode_events(es));
    }
    assert(b@.events.subrange(0, n as int) =~= b@.events);
    let created = match b.created_at {
        Some(t) => {
            let mut p: Vec<u8> = Vec::new();
            encode_timestamp_to(t, &mut p);
            assert(p@ =~= encode_timestamp(t));
            Some(p)
        },
        None => None,
    };
    put_message_field(3, created, &mut out);
    assert(out@ =~= encode_batch(b@));
    out
}

/// The value of one field as read from the wire.
pub enum WireValue {
    Varint(u64),
    Bytes(Seq<u8>),
    /// A fixed-width value (wire types 1 and 5) or a group (wire type 3),
    /// which no field of the schema uses.
    Skipped,
}

/// Nesting depth up to which groups are skipped.
pub const GROUP_DEPTH: u8 = 100;

/// The bytes taken by the rest of a group of field number `field` at the
/// front of `s`: its fields, then its end-group key (wire type 4) of the
/// same field number. Groups nest at most `depth` deep.
pub open spec fn group_len(s: Seq<u8>, field: u64, depth: nat) -> Option<int>
    decreases depth, s.len(), 0nat,
{
    if depth == 0 {
        None
    } else {
        match read_varint(s) {
            None => None,
            Some((k, n)) => if !(0 < n <= s.len()) {
                None
            } else {
                let rest = s.subrange(n, s.len() as int);
                if k % 8 == 4 {
                    if k / 8 == field {
                        Some(n)
                    } else {
                        None
                    }
                } else {
                    match value_len(rest, k % 8, k / 8, (depth - 1) as nat) {
                        Some(m) => if 0 <= m <= rest.len() {
                            match group_len(rest.subrange(m, rest.len() as int), field, depth) {
                                Some(p) => Some(n + m + p),
                                None => None,
                            }
                        } else {
                            None
                        },
                        None => None,
                    }
                }
            },
        }
    }
}

/// The bytes taken by a value of wire type `wire_type` at the front of `s`,
/// the value of field `field`.
pub open spec fn value_len(s: Seq<u8>, wire_type: u64, field: u64, depth: nat) -> Option<int>
    decreases depth, s.len(), 1nat,
{
    if wire_type == 0 {
        match read_varint(s) {
            Some((_, m)) => Some(m),
            None => None,
        }
    } else if wire_type == 1 {
        if 8 <= s.len() {
            Some(8)
        } else {
            None
        }
    } else if wire_type == 2 {
        match read_varint(s) {
            Some((len, m)) => if m + len <= s.len() {
                Some(m + len)
            } else {
                None
            },
            None => None,
        }
    } else if wire_type == 3 {
        group_len(s, field, depth)
    } else if wire_type == 5 {
        if 4 <= s.len() {
            Some(4)
        } else {
            None
        }
    } else {
        None
    }
}

/// Reads one field from the front of `s`: its number, its value and the
/// number of bytes it takes. A group (wire type 3) is skipped whole; a stray
/// end-group key and unknown wire types are refused.
pub open spec fn read_field(s: Seq<u8>) -> Option<(u64, WireValue, int)> {
    match read_varint(s) {
        None => None,
        Some((k, n)) => {
            let rest = s.subrange(n, s.len() as int);
            let field = k / 8;
            let wire_type = k % 8;
            if wire_type == 0 {
                match read_varint(rest) {
                    Some((v, m)) => Some((field, WireValue::Varint(v), n + m)),
                    None => None,
                }
            } else if wire_type == 2 {
                match read_varint(rest) {
                    Some((len, m)) => if m + len <= rest.len() {
                        Some((field, WireValue::Bytes(rest.subrange(m, m + len)), n + m + len))
                    } else {
                        None
                    },
                    None => None,
                }
            } else if wire_type == 1 {
                if 8 <= rest.len() {
                    Some((field, WireValue::Skipped, n + 8))
                } else {
                    None
                }
            } else if wire_type == 5 {
                if 4 <= rest.len() {
                    Some((field, WireValue::Skipped, n + 4))
                } else {
                    None
                }
            } else if wire_type == 3 {
                match group_len(rest, field, GROUP_DEPTH as nat) {
                    Some(m) => if 0 <= m <= rest.len() {
                        Some((field, WireValue::Skipped, n + m))
                    } else {
                        None
                    },
                    None => None,
                }
            } else {
                None
            }
        },
    }
}

/// Reads every field of `s` in turn, folding each into `acc` with `step`;
/// `None` as soon as a field cannot be read or `step` refuses it.
pub open spec fn decode_fields<A>(s: Seq<u8>, acc: A, step: spec_fn(A, u64, WireValue) -> Option<A>) -> Option<A>
    decreases s.len(),
{
    if s.len() == 0 {
        Some(acc)
    } else {
        match read_field(s) {
            Some((f, v, n)) => if 0 < n <= s.len() {
                match step(acc, f, v) {
                    Some(a) => decode_fields(s.subrange(n, s.len() as int), a, step),
                    None => None,
                }
            } else {
                None
            },
            None => None,
        }
    }
}

/// UTF-8 text of a string field.
pub open spec fn decode_string(p: Seq<u8>) -> Option<Seq<char>> {
    if vstd::utf8::valid_utf8(p) {
        Some(vstd::utf8::decode_utf8(p))
    } else {
        None
    }
}

proof fn lemma_read_field_varint(f: u64, v: u64, rest: Seq<u8>)
    requires
        1 <= f <= 15,
    ensures
        read_field(varint_field(f, v) + rest) == Some((f, WireValue::Varint(v), varint_field(f, v).len() as int)),
        varint_field(f, v).len() > 0,
{
    let k = (f * 8 + 0) as u64;
    let s = varint_field(f, v) + rest;
    lemma_read_varint(k, varint(v) + rest);
    assert(s =~= varint(k) + (varint(v) + rest));
    let n = varint(k).len() as int;
    assert(s.subrange(n, s.len() as int) =~= varint(v) + rest);
    lemma_read_varint(v, rest);
    assert(k / 8 == f && k % 8 == 0);
}

proof fn lemma_read_field_delimited(f: u64, p: Seq<u8>, rest: Seq<u8>)
    requires
        1 <= f <= 15,
        p.len() <= u64::MAX,
    ensures
        read_field(delimited(f, p) + rest) == Some((f, WireValue::Bytes(p), delimited(f, p).len() as int)),
        delimited(f, p).len() > 0,
{
    let k = (f * 8 + 2) as u64;
    let l = p.len() as u64;
    let s = delimited(f, p) + rest;
    lemma_read_varint(k, varint(l) + p + rest);
    assert(s =~= varint(k) + (varint(l) + p + rest));
    let n = varint(k).len() as int;
    let r1 = s.subrange(n, s.len() as int);
    assert(r1 =~= varint(l) + (p + rest));
    lemma_read_varint(l, p + rest);
    let m = varint(l).len() as int;
    assert(r1.subrange(m, m + l) =~= p);
    assert(k / 8 == f && k % 8 == 2);
}

/// Folding a non-empty field `x` followed by `rest` is one step on the
/// field, then the fold of `rest`.
proof fn lemma_decode_step<A>(
    x: Seq<u8>,
    rest: Seq<u8>,
    acc: A,
    step: spec_fn(A, u64, WireValue) -> Option<A>,
    f: u64,
    v: WireValue,
)
    requires
        x.len() > 0,
        read_field(x + rest) == Some((f, v, x.len() as int)),
    ensures
        decode_fields(x + rest, acc, step) == match step(acc, f, v) {
            Some(a) => decode_fields(rest, a, step),
            None => None,
        },
{
    let s = x + rest;
    assert(s.subrange(x.len() as int, s.len() as int) =~= rest);
}

pub open spec fn empty_tags() -> TagsView {
    TagsView { agent_id: seq![], zone: seq![], region: seq![] }
}

/// Folds one field into a tag set: fields 1, 2, 3 are the agent, zone and
/// region; any other field is skipped.
pub open spec fn tags_step(acc: TagsView, f: u64, v: WireValue) -> Option<TagsView> {
    if 1 <= f <= 3 {
        match v {
            WireValue::Bytes(p) => match decode_string(p) {
                Some(c) => Some(
                    if f == 1 {
                        TagsView { agent_id: c, ..acc }
                    } else if f == 2 {
                        TagsView { zone: c, ..acc }
                    } else {
                        TagsView { region: c, ..acc }
                    },
                ),
                None => None,
            },
            _ => None,
        }
    } else {
        Some(acc)
    }
}

pub open spec fn tags_stepper() -> spec_fn(TagsView, u64, WireValue) -> Option<TagsView> {
    |a: TagsView, f: u64, v: WireValue| tags_step(a, f, v)
}

pub open spec fn decode_tags(p: Seq<u8>) -> Option<TagsView> {
    decode_fields(p, empty_tags(), tags_stepper())
}

pub open spec fn zero_timestamp() -> Timestamp {
    Timestamp { seconds: 0, nanos: 0 }
}

/// Field 1 holds the seconds, field 2 the nanoseconds.
pub open spec fn timestamp_step(acc: Timestamp, f: u64, v: WireValue) -> Option<Timestamp> {
    if f == 1 || f == 2 {
        match v {
            WireValue::Varint(x) => Some(
                if f == 1 {
                    Timestamp { seconds: x as i64, ..acc }
                } else {
                    Timestamp { nanos: x as i32, ..acc }
                },
            ),
            _ => None,
        }
    } else {
        Some(acc)
    }
}

pub open spec fn timestamp_stepper() -> spec_fn(Timestamp, u64, WireValue) -> Option<Timestamp> {
    |a: Timestamp, f: u64, v: WireValue| timestamp_step(a, f, v)
}

pub open spec fn decode_timestamp(p: Seq<u8>) -> Option<Timestamp> {
    decode_fields(p, zero_timestamp(), timestamp_stepper())
}

/// Field 1 holds the latency.
pub open spec fn metrics_step(acc: CheckJobMetrics, f: u64, v: WireValue) -> Option<CheckJobMetrics> {
    if f == 1 {
        match v {
            WireValue::Varint(x) => Some(CheckJobMetrics { latency: Some(x) }),
            _ => None,
        }
    } else {
        Some(acc)
    }
}

pub open spec fn metrics_stepper() -> spec_fn(CheckJobMetrics, u64, WireValue) -> Option<CheckJobMetrics> {
    |a: CheckJobMetrics, f: u64, v: WireValue| metrics_step(a, f, v)
}

pub open spec fn decode_metrics(p: Seq<u8>) -> Option<CheckJobMetrics> {
    decode_fields(p, CheckJobMetrics { latency: None }, metrics_stepper())
}

pub open spec fn empty_result() -> CheckResultView {
    CheckResultView { id_ulid: seq![], run_at: None, status: 0, metrics: None, tags: None }
}

/// Fields 1 to 5: identifier, run time, status, metrics, tags.
pub open spec fn result_step(acc: CheckResultView, f: u64, v: WireValue) -> Option<CheckResultView> {
    if f == 3 {
        match v {
            WireValue::Varint(x) => Some(CheckResultView { status: x as i32, ..acc }),
            _ => None,
        }
    } else if f == 1 || f == 2 || f == 4 || f == 5 {
        match v {
            WireValue::Bytes(p) => if f == 1 {
                match decode_string(p) {
                    Some(c) => Some(CheckResultView { id_ulid: c, ..acc }),
                    None => None,
                }
            } else if f == 2 {
                match decode_timestamp(p) {
                    Some(t) => Some(CheckResultView { run_at: Some(t), ..acc }),
                    None => None,
                }
            } else if f == 4 {
                match decode_metrics(p) {
                    Some(m) => Some(CheckResultView { metrics: Some(m), ..acc }),
                    None => None,
                }
            } else {
                match decode_tags(p) {
                    Some(t) => Some(CheckResultView { tags: Some(t), ..acc }),
                    None => None,
                }
            },
            _ => None,
        }
    } else {
        Some(acc)
    }
}

pub open spec fn result_stepper() -> spec_fn(CheckResultView, u64, WireValue) -> Option<CheckResultView> {
    |a: CheckResultView, f: u64, v: WireValue| result_step(a, f, v)
}

pub open spec fn decode_result(p: Seq<u8>) -> Option<CheckResultView> {
    decode_fields(p, empty_result(), result_stepper())
}

pub open spec fn empty_batch() -> CheckBatchRequestView {
    CheckBatchRequestView { tags: None, events: seq![], created_at: None }
}

/// Field 1 holds the tags, each field 2 one more event, field 3 the
/// creation time.
pub open spec fn batch_step(acc: CheckBatchRequestView, f: u64, v: WireValue) -> Option<CheckBatchRequestView> {
    if 1 <= f <= 3 {
        match v {
            WireValue::Bytes(p) => if f == 1 {
                match decode_tags(p) {
                    Some(t) => Some(CheckBatchRequestView { tags: Some(t), ..acc }),
                    None => None,
                }
            } else if f == 2 {
                match decode_result(p) {
                    Some(r) => Some(CheckBatchRequestView { events: acc.events.push(r), ..acc }),
                    None => None,
                }
            } else {
                match decode_timestamp(p) {
                    Some(t) => Some(CheckBatchRequestView { created_at: Some(t), ..acc }),
                    None => None,
                }
            },
            _ => None,
        }
    } else {
        Some(acc)
    }
}

pub open spec fn batch_stepper() -> spec_fn(CheckBatchRequestView, u64, WireValue) -> Option<CheckBatchRequestView> {
    |a: CheckBatchRequestView, f: u64, v: WireValue| batch_step(a, f, v)
}

pub open spec fn decode_batch(p: Seq<u8>) -> Option<CheckBatchRequestView> {
    decode_fields(p, empty_batch(), batch_stepper())
}

proof fn lemma_string_field<A>(f: u64, c: Seq<char>, rest: Seq<u8>, acc: A, step: spec_fn(A, u64, WireValue) -> Option<A>)
    requires
        1 <= f <= 15,
        string_field(f, c).len() <= u64::MAX,
    ensures
        decode_string(encode_utf8(c)) == Some(c),
        c.len() == 0 ==> string_field(f, c) + rest == rest,
        c.len() > 0 ==> decode_fields(string_field(f, c) + rest, acc, step) == match step(
            acc,
            f,
            WireValue::Bytes(encode_utf8(c)),
        ) {
            Some(a) => decode_fields(rest, a, step),
            None => None,
        },
{
    vstd::utf8::encode_utf8_valid_utf8(c);
    vstd::utf8::encode_utf8_decode_utf8(c);
    if c.len() > 0 {
        lemma_read_field_delimited(f, encode_utf8(c), rest);
        lemma_decode_step(string_field(f, c), rest, acc, step, f, WireValue::Bytes(encode_utf8(c)));
    } else {
        assert(string_field(f, c) + rest =~= rest);
    }
}

proof fn lemma_message_field<A>(
    f: u64,
    p: Option<Seq<u8>>,
    rest: Seq<u8>,
    acc: A,
    step: spec_fn(A, u64, WireValue) -> Option<A>,
)
    requires
        1 <= f <= 15,
        message_field(f, p).len() <= u64::MAX,
    ensures
        p is None ==> message_field(f, p) + rest == rest,
        p matches Some(x) ==> x.len() <= u64::MAX && decode_fields(message_field(f, p) + rest, acc, step) == match step(
            acc,
            f,
            WireValue::Bytes(x),
        ) {
            Some(a) => decode_fields(rest, a, step),
            None => None,
        },
{
    if let Some(x) = p {
        lemma_read_field_delimited(f, x, rest);
        lemma_decode_step(message_field(f, p), rest, acc, step, f, WireValue::Bytes(x));
    } else {
        assert(message_field(f, p) + rest =~= rest);
    }
}

proof fn lemma_tags_round_trip(t: TagsView)
    requires
        encode_tags(t).len() <= u64::MAX,
    ensures
        decode_tags(encode_tags(t)) == Some(t),
{
    let s1 = string_field(1, t.agent_id);
    let s2 = string_field(2, t.zone);
    let s3 = string_field(3, t.region);
    let e = Seq::<u8>::empty();
    let st = tags_stepper();
    assert(encode_tags(t) =~= s1 + (s2 + (s3 + e)));
    let a0 = empty_tags();
    let a1 = TagsView { agent_id: t.agent_id, ..a0 };
    let a2 = TagsView { zone: t.zone, ..a1 };
    lemma_string_field(1, t.agent_id, s2 + (s3 + e), a0, st);
    lemma_string_field(2, t.zone, s3 + e, a1, st);
    lemma_string_field(3, t.region, e, a2, st);
    if t.agent_id.len() == 0 {
        assert(t.agent_id =~= seq![]);
    }
    if t.zone.len() == 0 {
        assert(t.zone =~= seq![]);
    }
    if t.region.len() == 0 {
        assert(t.region =~= seq![]);
    }
    assert(TagsView { region: t.region, ..a2 } == t);
}

proof fn lemma_int_casts(s: i64, n: i32)
    ensures
        (s as u64) as i64 == s,
        ((n as i64) as u64) as i32 == n,
{
    assert((s as u64) as i64 == s) by (bit_vector);
    assert(((n as i64) as u64) as i32 == n) by (bit_vector);
}

proof fn lemma_timestamp_round_trip(t: Timestamp)
    ensures
        decode_timestamp(encode_timestamp(t)) == Some(t),
{
    let s1 = int64_field(1, t.seconds);
    let s2 = int32_field(2, t.nanos);
    let e = Seq::<u8>::empty();
    let st = timestamp_stepper();
    lemma_int_casts(t.seconds, t.nanos);
    assert(encode_timestamp(t) =~= s1 + (s2 + e));
    let a0 = zero_timestamp();
    let a1 = Timestamp { seconds: t.seconds, ..a0 };
    if t.seconds != 0 {
        lemma_read_field_varint(1, t.seconds as u64, s2 + e);
        lemma_decode_step(s1, s2 + e, a0, st, 1, WireValue::Varint(t.seconds as u64));
    } else {
        assert(s1 + (s2 + e) =~= s2 + e);
    }
    if t.nanos != 0 {
        lemma_read_field_varint(2, t.nanos as i64 as u64, e);
        lemma_decode_step(s2, e, a1, st, 2, WireValue::Varint(t.nanos as i64 as u64));
    } else {
        assert(s2 + e =~= e);
    }
}

proof fn lemma_metrics_round_trip(m: CheckJobMetrics)
    ensures
        decode_metrics(encode_metrics(m)) == Some(m),
{
    let e = Seq::<u8>::empty();
    if let Some(x) = m.latency {
        lemma_read_field_varint(1, x, e);
        assert(encode_metrics(m) + e =~= encode_metrics(m));
        lemma_decode_step(encode_metrics(m), e, CheckJobMetrics { latency: None }, metrics_stepper(), 1, WireValue::Varint(x));
    }
}

proof fn lemma_result_id(c: Seq<char>, rest: Seq<u8>, acc: CheckResultView)
    requires
        string_field(1, c).len() <= u64::MAX,
    ensures
        decode_fields(string_field(1, c) + rest, acc, result_stepper()) == decode_fields(
            rest,
            if c.len() == 0 { acc } else { CheckResultView { id_ulid: c, ..acc } },
            result_stepper(),
        ),
{
    lemma_string_field(1, c, rest, acc, result_stepper());
}

proof fn lemma_result_run_at(t: Option<Timestamp>, rest: Seq<u8>, acc: CheckResultView)
    requires
        message_field(2, timestamp_payload(t)).len() <= u64::MAX,
    ensures
        decode_fields(message_field(2, timestamp_payload(t)) + rest, acc, result_stepper())
            == decode_fields(rest, CheckResultView { run_at: t, ..acc }, result_stepper())
            || t is None && decode_fields(message_field(2, timestamp_payload(t)) + rest, acc, result_stepper())
            == decode_fields(rest, acc, result_stepper()),
{
    lemma_message_field(2, timestamp_payload(t), rest, acc, result_stepper());
    if let Some(x) = t {
        lemma_timestamp_round_trip(x);
    }
}

proof fn lemma_result_status(v: i32, rest: Seq<u8>, acc: CheckResultView)
    ensures
        decode_fields(int32_field(3, v) + rest, acc, result_stepper()) == decode_fields(
            rest,
            if v == 0 { acc } else { CheckResultView { status: v, ..acc } },
            result_stepper(),
        ),
{
    lemma_int_casts(0, v);
    if v != 0 {
        lemma_read_field_varint(3, v as i64 as u64, rest);
        lemma_decode_step(int32_field(3, v), rest, acc, result_stepper(), 3, WireValue::Varint(v as i64 as u64));
    } else {
        assert(int32_field(3, v) + rest =~= rest);
    }
}

proof fn lemma_result_metrics(m: Option<CheckJobMetrics>, rest: Seq<u8>, acc: CheckResultView)
    requires
        message_field(4, metrics_payload(m)).len() <= u64::MAX,
    ensures
        decode_fields(message_field(4, metrics_payload(m)) + rest, acc, result_stepper())
            == decode_fields(rest, CheckResultView { metrics: m, ..acc }, result_stepper())
            || m is None && decode_fields(message_field(4, metrics_payload(m)) + rest, acc, result_stepper())
            == decode_fields(rest, acc, result_stepper()),
{
    lemma_message_field(4, metrics_payload(m), rest, acc, result_stepper());
    if let Some(x) = m {
        lemma_metrics_round_trip(x);
    }
}

proof fn lemma_result_tags(t: Option<TagsView>, rest: Seq<u8>, acc: CheckResultView)
    requires
        message_field(5, tags_payload(t)).len() <= u64::MAX,
    ensures
        decode_fields(message_field(5, tags_payload(t)) + rest, acc, result_stepper())
            == decode_fields(rest, CheckResultView { tags: t, ..acc }, result_stepper())
            || t is None && decode_fields(message_field(5, tags_payload(t)) + rest, acc, result_stepper())
            == decode_fields(rest, acc, result_stepper()),
{
    lemma_message_field(5, tags_payload(t), rest, acc, result_stepper());
    if let Some(x) = t {
        let p = encode_tags(x);
        assert(message_field(5, tags_payload(t)).len() >= p.len());
        lemma_tags_round_trip(x);
    }
}

proof fn lemma_result_round_trip(r: CheckResultView)
    requires
        encode_result(r).len() <= u64::MAX,
    ensures
        decode_result(encode_result(r)) == Some(r),
{
    let s1 = string_field(1, r.id_ulid);
    let s2 = message_field(2, timestamp_payload(r.run_at));
    let s3 = int32_field(3, r.status);
    let s4 = message_field(4, metrics_payload(r.metrics));
    let s5 = message_field(5, tags_payload(r.tags));
    let e = Seq::<u8>::empty();
    let st = result_stepper();
    assert(encode_result(r) =~= s1 + (s2 + (s3 + (s4 + (s5 + e)))));
    let a0 = empty_result();
    let a1 = CheckResultView { id_ulid: r.id_ulid, ..a0 };
    let a2 = CheckResultView { run_at: r.run_at, ..a1 };
    let a3 = CheckResultView { status: r.status, ..a2 };
    let a4 = CheckResultView { metrics: r.metrics, ..a3 };
    let a5 = CheckResultView { tags: r.tags, ..a4 };
    assert(a5 == r);
    lemma_result_id(r.id_ulid, s2 + (s3 + (s4 + (s5 + e))), a0);
    if r.id_ulid.len() == 0 {
        assert(r.id_ulid =~= seq![]);
        assert(a0 == a1);
    }
    lemma_result_run_at(r.run_at, s3 + (s4 + (s5 + e)), a1);
    lemma_result_status(r.status, s4 + (s5 + e), a2);
    if r.status == 0 {
        assert(a2 == a3);
    }
    lemma_result_metrics(r.metrics, s5 + e, a3);
    lemma_result_tags(r.tags, e, a4);
    assert(decode_fields(e, a5, st) == Some(a5));
}

proof fn lemma_events_round_trip(es: Seq<CheckResultView>, rest: Seq<u8>, acc: CheckBatchRequestView)
    requires
        encode_events(es).len() <= u64::MAX,
    ensures
        decode_fields(encode_events(es) + rest, acc, batch_stepper()) == decode_fields(
            rest,
            CheckBatchRequestView { events: acc.events + es, ..acc },
            batch_stepper(),
        ),
    decreases es.len(),
{
    if es.len() == 0 {
        assert(encode_events(es) + rest =~= rest);
        assert(acc.events + es =~= acc.events);
    } else {
        let init = es.drop_last();
        let x = delimited(2, encode_result(es.last()));
        assert(encode_events(es) + rest =~= encode_events(init) + (x + rest));
        lemma_events_round_trip(init, x + rest, acc);
        let mid = CheckBatchRequestView { events: acc.events + init, ..acc };
        lemma_read_field_delimited(2, encode_result(es.last()), rest);
        lemma_decode_step(x, rest, mid, batch_stepper(), 2, WireValue::Bytes(encode_result(es.last())));
        lemma_result_round_trip(es.last());
        assert(mid.events.push(es.last()) =~= acc.events + es);
    }
}

/// Decoding the encoding of a batch gives the batch back (for any batch
/// whose encoding fits in memory).
pub proof fn lemma_batch_round_trip(b: CheckBatchRequestView)
    requires
        encode_batch(b).len() <= u64::MAX,
    ensures
        decode_batch(encode_batch(b)) == Some(b),
{
    let s1 = message_field(1, tags_payload(b.tags));
    let s2 = encode_events(b.events);
    let s3 = message_field(3, timestamp_payload(b.created_at));
    let e = Seq::<u8>::empty();
    let st = batch_stepper();
    assert(encode_batch(b) =~= s1 + (s2 + (s3 + e)));
    let a0 = empty_batch();
    let a1 = CheckBatchRequestView { tags: b.tags, ..a0 };
    lemma_message_field(1, tags_payload(b.tags), s2 + (s3 + e), a0, st);
    if let Some(t) = b.tags {
        lemma_tags_round_trip(t);
    }
    lemma_events_round_trip(b.events, s3 + e, a1);
    assert(a1.events + b.events =~= b.events);
    let a2 = CheckBatchRequestView { events: b.events, ..a1 };
    lemma_message_field(3, timestamp_payload(b.created_at), e, a2, st);
    if let Some(t) = b.created_at {
        lemma_timestamp_round_trip(t);
    }
}

/// Decoding the encoding of a check result gives it back.
pub proof fn lemma_result_bytes_round_trip(r: CheckResultView)
    requires
        encode_result(r).len() <= u64::MAX,
    ensures
        decode_result(encode_result(r)) == Some(r),
{
    lemma_result_round_trip(r);
}

/// A field's value as positions in the input.
pub enum FieldValue {
    Varint(u64),
    /// The payload `b[start..end]`.
    Bytes { start: usize, end: usize },
    Skipped,
}

pub open spec fn field_view(b: Seq<u8>, v: FieldValue) -> WireValue {
    match v {
        FieldValue::Varint(x) => WireValue::Varint(x),
        FieldValue::Bytes { start, end } => WireValue::Bytes(b.subrange(start as int, end as int)),
        FieldValue::Skipped => WireValue::Skipped,
    }
}

/// Reads the field at `pos`, within `end`.
fn read_field_at(b: &[u8], pos: usize, end: usize) -> (r: Option<(u64, FieldValue, usize)>)
    requires
        pos <= end <= b@.len(),
    ensures
        match r {
            Some((f, v, n)) => {
                &&& read_field(b@.subrange(pos as int, end as int)) == Some((f, field_view(b@, v), n as int))
                &&& 0 < n <= end - pos
                &&& v matches FieldValue::Bytes { start, end: e } ==> pos <= start <= e <= end
            },
            None => read_field(b@.subrange(pos as int, end as int)) is None,
        },
{
    let ghost s = b@.subrange(pos as int, end as int);
    let (k, n) = match read_varint_at(b, pos, end) {
        Some(x) => x,
        None => {
            return None;
        },
    };
    proof {
        lemma_read_groups_len(s, 10);
    }
    let p = pos + n;
    assert(s.subrange(n as int, s.len() as int) =~= b@.subrange(p as int, end as int));
    let field = k / 8;
    let wire_type = k % 8;
    if wire_type == 0 {
        match read_varint_at(b, p, end) {
            Some((v, m)) => {
                proof {
                    lemma_read_groups_len(b@.subrange(p as int, end as int), 10);
                }
                Some((field, FieldValue::Varint(v), n + m))
            },
            None => None,
        }
    } else if wire_type == 2 {
        match read_varint_at(b, p, end) {
            Some((len, m)) => {
                proof {
                    lemma_read_groups_len(b@.subrange(p as int, end as int), 10);
                }
                let q = p + m;
                if len <= (end - q) as u64 {
                    let e = q + len as usize;
                    let ghost rest = b@.subrange(p as int, end as int);
                    assert(rest.subrange(m as int, m + len) =~= b@.subrange(q as int, e as int));
                    Some((field, FieldValue::Bytes { start: q, end: e }, n + m + len as usize))
                } else {
                    None
                }
            },
            None => None,
        }
    } else if wire_type == 1 {
        if end - p >= 8 {
            Some((field, FieldValue::Skipped, n + 8))
        } else {
            None
        }
    } else if wire_type == 5 {
        if end - p >= 4 {
            Some((field, FieldValue::Skipped, n + 4))
        } else {
            None
        }
    } else if wire_type == 3 {
        match group_len_at(b, p, end, field, GROUP_DEPTH) {
            Some(m) => Some((field, FieldValue::Skipped, n + m)),
            None => None,
        }
    } else {
        None
    }
}

/// Exec form of `group_len` on `b[start..end]`.
fn group_len_at(b: &[u8], start: usize, end: usize, field: u64, depth: u8) -> (r: Option<usize>)
    requires
        start <= end <= b@.len(),
    ensures
        match r {
            Some(m) => group_len(b@.subrange(start as int, end as int), field, depth as nat) == Some(m as int)
                && m <= end - start,
            None => group_len(b@.subrange(start as int, end as int), field, depth as nat) is None,
        },
    decreases depth, 0nat,
{
    if depth == 0 {
        return None;
    }
    let mut pos = start;
    while pos <= end
        invariant
            start <= pos <= end <= b@.len(),
            depth > 0,
            group_len(b@.subrange(start as int, end as int), field, depth as nat) == match group_len(
                b@.subrange(pos as int, end as int),
                field,
                depth as nat,
            ) {
                Some(p) => Some(pos - start + p),
                None => None,
            },
        decreases end - pos,
    {
        let ghost s = b@.subrange(pos as int, end as int);
        let (k, n) = match read_varint_at(b, pos, end) {
            Some(x) => x,
            None => {
                return None;
            },
        };
        proof {
            lemma_read_groups_len(s, 10);
        }
        let p = pos + n;
        assert(s.subrange(n as int, s.len() as int) =~= b@.subrange(p as int, end as int));
        if k % 8 == 4 {
            if k / 8 == field {
                return Some(p - start);
            } else {
                return None;
            }
        }
        let m = match value_len_at(b, p, end, k % 8, k / 8, depth - 1) {
            Some(m) => m,
            None => {
                return None;
            },
        };
        assert(b@.subrange(p as int, end as int).subrange(m as int, (end - p) as int) =~= b@.subrange(
            (p + m) as int,
            end as int,
        ));
        pos = p + m;
    }
    None
}

/// Exec form of `value_len` on `b[start..end]`.
fn value_len_at(b: &[u8], start: usize, end: usize, wire_type: u64, field: u64, depth: u8) -> (r: Option<usize>)
    requires
        start <= end <= b@.len(),
    ensures
        match r {
            Some(m) => value_len(b@.subrange(start as int, end as int), wire_type, field, depth as nat) == Some(
                m as int,
            ) && m <= end - start,
            None => value_len(b@.subrange(start as int, end as int), wire_type, field, depth as nat) is None,
        },
    decreases depth, 1nat,
{
    let ghost s = b@.subrange(start as int, end as int);
    if wire_type == 0 {
        match read_varint_at(b, start, end) {
            Some((_, m)) => {
                proof {
                    lemma_read_groups_len(s, 10);
                }
                Some(m)
            },
            None => None,
        }
    } else if wire_type == 1 {
        if end - start >= 8 {
            Some(8)
        } else {
            None
        }
    } else if wire_type == 2 {
        match read_varint_at(b, start, end) {
            Some((len, m)) => {
                proof {
                    lemma_read_groups_len(s, 10);
                }
                if len <= (end - start - m) as u64 {
                    Some(m + len as usize)
                } else {
                    None
                }
            },
            None => None,
        }
    } else if wire_type == 3 {
        group_len_at(b, start, end, field, depth)
    } else if wire_type == 5 {
        if end - start >= 4 {
            Some(4)
        } else {
            None
        }
    } else {
        None
    }
}

/// Relies on `String::from_utf8`: it succeeds exactly on valid UTF-8, and the
/// string it returns has those bytes.
#[verifier::external_body]
fn utf8_string(bytes: Vec<u8>) -> (r: Option<String>)
    ensures
        r is Some <==> vstd::utf8::valid_utf8(bytes@),
        r matches Some(s) ==> encode_utf8(s@) == bytes@,
{
    String::from_utf8(bytes).ok()
}

/// The string held by `b[start..end]`.
fn string_at(b: &[u8], start: usize, end: usize) -> (r: Option<String>)
    requires
        start <= end <= b@.len(),
    ensures
        match r {
            Some(s) => decode_string(b@.subrange(start as int, end as int)) == Some(s@),
            None => decode_string(b@.subrange(start as int, end as int)) is None,
        },
{
    let mut bytes: Vec<u8> = Vec::new();
    let mut i: usize = start;
    while i < end
        invariant
            start <= i <= end <= b@.len(),
            bytes@ == b@.subrange(start as int, i as int),
        decreases end - i,
    {
        bytes.push(b[i]);
        i = i + 1;
        assert(bytes@ =~= b@.subrange(start as int, i as int));
    }
    let r = utf8_string(bytes);
    proof {
        if r is Some {
            vstd::utf8::encode_utf8_decode_utf8(r->Some_0@);
        }
    }
    r
}

/// Advancing past a field that `step` accepted.
proof fn lemma_decode_advance<A>(
    b: Seq<u8>,
    pos: int,
    end: int,
    n: int,
    acc: A,
    step: spec_fn(A, u64, WireValue) -> Option<A>,
    f: u64,
    v: WireValue,
)
    requires
        0 <= pos < end <= b.len(),
        0 < n <= end - pos,
        read_field(b.subrange(pos, end)) == Some((f, v, n)),
    ensures
        decode_fields(b.subrange(pos, end), acc, step) == match step(acc, f, v) {
            Some(a) => decode_fields(b.subrange(pos + n, end), a, step),
            None => None,
        },
{
    let s = b.subrange(pos, end);
    assert(s.subrange(n, s.len() as int) =~= b.subrange(pos + n, end));
}

/// Decodes the tag set held by `b[start..end]`.
fn decode_tags_at(b: &[u8], start: usize, end: usize) -> (r: Option<Tags>)
    requires
        start <= end <= b@.len(),
    ensures
        match r {
            Some(t) => decode_tags(b@.subrange(start as int, end as int)) == Some(t@),
            None => decode_tags(b@.subrange(start as int, end as int)) is None,
        },
{
    let mut acc = Tags { agent_id: String::new(), zone: String::new(), region: String::new() };
    assert(acc@ == empty_tags());
    let mut pos = start;
    while pos < end
        invariant
            start <= pos <= end <= b@.len(),
            decode_fields(b@.subrange(pos as int, end as int), acc@, tags_stepper()) == decode_tags(
                b@.subrange(start as int, end as int),
            ),
        decreases end - pos,
    {
        let (f, v, n) = match read_field_at(b, pos, end) {
            Some(x) => x,
            None => {
                return None;
            },
        };
        proof {
            lemma_decode_advance(b@, pos as int, end as int, n as int, acc@, tags_stepper(), f, field_view(b@, v));
        }
        if 1 <= f && f <= 3 {
            match v {
                FieldValue::Bytes { start: ps, end: pe } => match string_at(b, ps, pe) {
                    Some(c) => {
                        if f == 1 {
                            acc.agent_id = c;
                        } else if f == 2 {
                            acc.zone = c;
                        } else {
                            acc.region = c;
                        }
                    },
                    None => {
                        return None;
                    },
                },
                _ => {
                    return None;
                },
            }
        }
        pos = pos + n;
    }
    assert(b@.subrange(pos as int, end as int) =~= Seq::<u8>::empty());
    Some(acc)
}

fn decode_timestamp_at(b: &[u8], start: usize, end: usize) -> (r: Option<Timestamp>)
    requires
        start <= end <= b@.len(),
    ensures
        match r {
            Some(t) => decode_timestamp(b@.subrange(start as int, end as int)) == Some(t),
            None => decode_timestamp(b@.subrange(start as int, end as int)) is None,
        },
{
    let mut acc = Timestamp { seconds: 0, nanos: 0 };
    let mut pos = start;
    while pos < end
        invariant
            start <= pos <= end <= b@.len(),
            decode_fields(b@.subrange(pos as int, end as int), acc, timestamp_stepper()) == decode_timestamp(
                b@.subrange(start as int, end as int),
            ),
        decreases end - pos,
    {
        let (f, v, n) = match read_field_at(b, pos, end) {
            Some(x) => x,
            None => {
                return None;
            },
        };
        proof {
            lemma_decode_advance(b@, pos as int, end as int, n as int, acc, timestamp_stepper(), f, field_view(b@, v));
        }
        if f == 1 || f == 2 {
            match v {
                FieldValue::Varint(x) => {
                    if f == 1 {
                        acc.seconds = x as i64;
                    } else {
                        acc.nanos = x as i32;
                    }
                },
                _ => {
                    return None;
                },
            }
        }
        pos = pos + n;
    }
    assert(b@.subrange(pos as int, end as int) =~= Seq::<u8>::empty());
    Some(acc)
}

fn decode_metrics_at(b: &[u8], start: usize, end: usize) -> (r: Option<CheckJobMetrics>)
    requires
        start <= end <= b@.len(),
    ensures
        match r {
            Some(m) => decode_metrics(b@.subrange(start as int, end as int)) == Some(m),
            None => decode_metrics(b@.subrange(start as int, end as int)) is None,
        },
{
    let mut acc = CheckJobMetrics { latency: None };
    let mut pos = start;
    while pos < end
        invariant
            start <= pos <= end <= b@.len(),
            decode_fields(b@.subrange(pos as int, end as int), acc, metrics_stepper()) == decode_metrics(
                b@.subrange(start as int, end as int),
            ),
        decreases end - pos,
    {
        let (f, v, n) = match read_field_at(b, pos, end) {
            Some(x) => x,
            None => {
                return None;
            },
        };
        proof {
            lemma_decode_advance(b@, pos as int, end as int, n as int, acc, metrics_stepper(), f, field_view(b@, v));
        }
        if f == 1 {
            match v {
                FieldValue::Varint(x) => {
                    acc = CheckJobMetrics { latency: Some(x) };
                },
                _ => {
                    return None;
                },
            }
        }
        pos = pos + n;
    }
    assert(b@.subrange(pos as int, end as int) =~= Seq::<u8>::empty());
    Some(acc)
}

fn decode_result_at(b: &[u8], start: usize, end: usize) -> (r: Option<CheckResult>)
    requires
        start <= end <= b@.len(),
    ensures
        match r {
            Some(x) => decode_result(b@.subrange(start as int, end as int)) == Some(x@),
            None => decode_result(b@.subrange(start as int, end as int)) is None,
        },
{
    let mut acc = CheckResult { id_ulid: String::new(), run_at: None, status: 0, metrics: None, tags: None };
    assert(acc@ == empty_result());
    let mut pos = start;
    while pos < end
        invariant
            start <= pos <= end <= b@.len(),
            decode_fields(b@.subrange(pos as int, end as int), acc@, result_stepper()) == decode_result(
                b@.subrange(start as int, end as int),
            ),
        decreases end - pos,
    {
        let (f, v, n) = match read_field_at(b, pos, end) {
            Some(x) => x,
            None => {
                return None;
            },
        };
        proof {
            lemma_decode_advance(b@, pos as int, end as int, n as int, acc@, result_stepper(), f, field_view(b@, v));
        }
        if f == 3 {
            match v {
                FieldValue::Varint(x) => {
                    acc.status = x as i32;
                },
                _ => {
                    return None;
                },
            }
        } else if f == 1 || f == 2 || f == 4 || f == 5 {
            match v {
                FieldValue::Bytes { start: ps, end: pe } => {
                    if f == 1 {
                        match string_at(b, ps, pe) {
                            Some(c) => {
                                acc.id_ulid = c;
                            },
                            None => {
                                return None;
                            },
                        }
                    } else if f == 2 {
                        match decode_timestamp_at(b, ps, pe) {
                            Some(t) => {
                                acc.run_at = Some(t);
                            },
                            None => {
                                return None;
                            },
                        }
                    } else if f == 4 {
                        match decode_metrics_at(b, ps, pe) {
                            Some(m) => {
                                acc.metrics = Some(m);
                            },
                            None => {
                                return None;
                            },
                        }
                    } else {
                        match decode_tags_at(b, ps, pe) {
                            Some(t) => {
                                acc.tags = Some(t);
                            },
                            None => {
                                return None;
                            },
                        }
                    }
                },
                _ => {
                    return None;
                },
            }
        }
        pos = pos + n;
    }
    assert(b@.subrange(pos as int, end as int) =~= Seq::<u8>::empty());
    Some(acc)
}

/// Decodes one check result, as stored on the log.
pub fn decode_result_bytes(b: &[u8]) -> (r: Option<CheckResult>)
    ensures
        match r {
            Some(x) => decode_result(b@) == Some(x@),
            None => decode_result(b@) is None,
        },
{
    assert(b@.subrange(0, b@.len() as int) =~= b@);
    decode_result_at(b, 0, b.len())
}

/// Decodes a batch.
pub fn decode_batch_bytes(b: &[u8]) -> (r: Option<CheckBatchRequest>)
    ensures
        match r {
            Some(x) => decode_batch(b@) == Some(x@),
            None => decode_batch(b@) is None,
        },
{
    assert(b@.subrange(0, b@.len() as int) =~= b@);
    decode_batch_at(b, 0, b.len())
}

/// Decodes the batch held by `b[start..end]`.
pub fn decode_batch_at(b: &[u8], start: usize, end: usize) -> (r: Option<CheckBatchRequest>)
    requires
        start <= end <= b@.len(),
    ensures
        match r {
            Some(x) => decode_batch(b@.subrange(start as int, end as int)) == Some(x@),
            None => decode_batch(b@.subrange(start as int, end as int)) is None,
        },
{
    let mut tags: Option<Tags> = None;
    let mut events: Vec<CheckResult> = Vec::new();
    let mut created_at: Option<Timestamp> = None;
    let ghost init = empty_batch();
    assert(results_view(events@) =~= Seq::<CheckResultView>::empty());
    assert(CheckBatchRequest { tags, events, created_at }@ == init);
    let mut pos: usize = start;
    while pos < end
        invariant
            start <= pos <= end <= b@.len(),
            decode_fields(b@.subrange(pos as int, end as int), CheckBatchRequest { tags, events, created_at }@, batch_stepper())
                == decode_batch(b@.subrange(start as int, end as int)),
        decreases end - pos,
    {
        let ghost acc = CheckBatchRequest { tags, events, created_at }@;
        let (f, v, n) = match read_field_at(b, pos, end) {
            Some(x) => x,
            None => {
                return None;
            },
        };
        proof {
            lemma_decode_advance(b@, pos as int, end as int, n as int, acc, batch_stepper(), f, field_view(b@, v));
        }
        if 1 <= f && f <= 3 {
            match v {
                FieldValue::Bytes { start: ps, end: pe } => {
                    if f == 1 {
                        match decode_tags_at(b, ps, pe) {
                            Some(t) => {
                                tags = Some(t);
                            },
                            None => {
                                return None;
                            },
                        }
                    } else if f == 2 {
                        match decode_result_at(b, ps, pe) {
                            Some(x) => {
                                let ghost before = events@;
                                let ghost xv = x@;
                                events.push(x);
                                assert(results_view(events@) =~= results_view(before).push(xv));
                            },
                            None => {
                                return None;
                            },
                        }
                    } else {
                        match decode_timestamp_at(b, ps, pe) {
                            Some(t) => {
                                created_at = Some(t);
                            },
                            None => {
                                return None;
                            },
                        }
                    }
                },
                _ => {
                    return None;
                },
            }
        }
        pos = pos + n;
    }
    assert(b@.subrange(pos as int, end as int) =~= Seq::<u8>::empty());
    Some(CheckBatchRequest { tags, events, created_at })
}

/// A batch reply: the error message, when there is one, as field 1.
pub open spec fn encode_response(error: Option<Seq<char>>) -> Seq<u8> {
    match error {
        Some(e) => delimited(1, encode_utf8(e)),
        None => seq![],
    }
}

/// Field 1 holds the error message.
pub open spec fn response_step(acc: Option<Seq<char>>, f: u64, v: WireValue) -> Option<Option<Seq<char>>> {
    if f == 1 {
        match v {
            WireValue::Bytes(p) => match decode_string(p) {
                Some(c) => Some(Some(c)),
                None => None,
            },
            _ => None,
        }
    } else {
        Some(acc)
    }
}

pub open spec fn response_stepper() -> spec_fn(Option<Seq<char>>, u64, WireValue) -> Option<Option<Seq<char>>> {
    |a: Option<Seq<char>>, f: u64, v: WireValue| response_step(a, f, v)
}

pub open spec fn decode_response(p: Seq<u8>) -> Option<Option<Seq<char>>> {
    decode_fields(p, None, response_stepper())
}

pub open spec fn response_error_view(r: CheckBatchResponse) -> Option<Seq<char>> {
    match r.error {
        Some(e) => Some(e@),
        None => None,
    }
}

/// Encodes a batch reply.
pub fn encode_response_bytes(r: &CheckBatchResponse) -> (out: Vec<u8>)
    ensures
        out@ == encode_response(response_error_view(*r)),
{
    let mut out: Vec<u8> = Vec::new();
    match &r.error {
        Some(e) => {
            let bytes = e.as_str().as_bytes();
            put_delimited(1, bytes, &mut out);
            assert(out@ =~= encode_response(response_error_view(*r)));
        },
        None => {},
    }
    out
}

/// Decodes a batch reply.
pub fn decode_response_bytes(b: &[u8]) -> (r: Option<CheckBatchResponse>)
    ensures
        match r {
            Some(x) => decode_response(b@) == Some(response_error_view(x)),
            None => decode_response(b@) is None,
        },
{
    let end = b.len();
    assert(b@.subrange(0, end as int) =~= b@);
    let mut error: Option<String> = None;
    let mut pos: usize = 0;
    while pos < end
        invariant
            pos <= end == b@.len(),
            decode_fields(b@.subrange(pos as int, end as int), response_error_view(CheckBatchResponse { error }), response_stepper())
                == decode_response(b@),
        decreases end - pos,
    {
        let (f, v, n) = match read_field_at(b, pos, end) {
            Some(x) => x,
            None => {
                return None;
            },
        };
        proof {
            lemma_decode_advance(
                b@,
                pos as int,
                end as int,
                n as int,
                response_error_view(CheckBatchResponse { error }),
                response_stepper(),
                f,
                field_view(b@, v),
            );
        }
        if f == 1 {
            match v {
                FieldValue::Bytes { start: ps, end: pe } => match string_at(b, ps, pe) {
                    Some(c) => {
                        error = Some(c);
                    },
                    None => {
                        return None;
                    },
                },
                _ => {
                    return None;
                },
            }
        }
        pos = pos + n;
    }
    assert(b@.subrange(pos as int, end as int) =~= Seq::<u8>::empty());
    Some(CheckBatchResponse { error })
}

/// Decoding an encoded batch reply gives it back.
pub proof fn lemma_response_round_trip(error: Option<Seq<char>>)
    requires
        encode_response(error).len() <= u64::MAX,
    ensures
        decode_response(encode_response(error)) == Some(error),
{
    let e = Seq::<u8>::empty();
    if let Some(c) = error {
        vstd::utf8::encode_utf8_valid_utf8(c);
        vstd::utf8::encode_utf8_decode_utf8(c);
        lemma_read_field_delimited(1, encode_utf8(c), e);
        assert(encode_response(error) + e =~= encode_response(error));
        lemma_decode_step(encode_response(error), e, None, response_stepper(), 1, WireValue::Bytes(encode_utf8(c)));
    }
}

/// A health reply: `healthy` as field 1, omitted when false.
pub open spec fn encode_health(healthy: bool) -> Seq<u8> {
    if healthy {
        varint_field(1, 1)
    } else {
        seq![]
    }
}

/// Field 1 holds the flag; any non-zero value is true.
pub open spec fn health_step(acc: bool, f: u64, v: WireValue) -> Option<bool> {
    if f == 1 {
        match v {
            WireValue::Varint(x) => Some(x != 0),
            _ => None,
        }
    } else {
        Some(acc)
    }
}

pub open spec fn health_stepper() -> spec_fn(bool, u64, WireValue) -> Option<bool> {
    |a: bool, f: u64, v: WireValue| health_step(a, f, v)
}

pub open spec fn decode_health(p: Seq<u8>) -> Option<bool> {
    decode_fields(p, false, health_stepper())
}

/// Encodes a health reply.
pub fn encode_health_bytes(r: HealthResponse) -> (out: Vec<u8>)
    ensures
        out@ == encode_health(r.healthy),
{
    let mut out: Vec<u8> = Vec::new();
    if r.healthy {
        put_key(1, 0, &mut out);
        put_varint(1, &mut out);
        assert(out@ =~= encode_health(r.healthy));
    }
    out
}

/// Decodes a health reply.
pub fn decode_health_bytes(b: &[u8]) -> (r: Option<HealthResponse>)
    ensures
        match r {
            Some(x) => decode_health(b@) == Some(x.healthy),
            None => decode_health(b@) is None,
        },
{
    let end = b.len();
    assert(b@.subrange(0, end as int) =~= b@);
    let mut healthy = false;
    let mut pos: usize = 0;
    while pos < end
        invariant
            pos <= end == b@.len(),
            decode_fields(b@.subrange(pos as int, end as int), healthy, health_stepper()) == decode_health(b@),
        decreases end - pos,
    {
        let (f, v, n) = match read_field_at(b, pos, end) {
            Some(x) => x,
            None => {
                return None;
            },
        };
        proof {
            lemma_decode_advance(b@, pos as int, end as int, n as int, healthy, health_stepper(), f, field_view(b@, v));
        }
        if f == 1 {
            match v {
                FieldValue::Varint(x) => {
                    healthy = x != 0;
                },
                _ => {
                    return None;
                },
            }
        }
        pos = pos + n;
    }
    assert(b@.subrange(pos as int, end as int) =~= Seq::<u8>::empty());
    Some(HealthResponse { healthy })
}

/// Decoding an encoded health reply gives it back.
pub proof fn lemma_health_round_trip(healthy: bool)
    ensures
        decode_health(encode_health(healthy)) == Some(healthy),
{
    let e = Seq::<u8>::empty();
    if healthy {
        lemma_read_field_varint(1, 1, e);
        assert(encode_health(healthy) + e =~= encode_health(healthy));
        lemma_decode_step(encode_health(healthy), e, false, health_stepper(), 1, WireValue::Varint(1));
    }
}

} // verus!
