//! Framing on the local socket: an 8-byte big-endian length, then that many
//! bytes of an encoded batch.

use crate::codec::{decode_batch, decode_batch_at, encode_batch, encode_batch_bytes, lemma_batch_round_trip};
use crate::jobs::JobResult;
use crate::sender::socket_batch;
use crate::wire::{CheckBatchRequest, CheckBatchRequestView};
use vstd::prelude::*;

verus! {

/// The eight big-endian bytes of `n`.
pub open spec fn be_bytes(n: u64) -> Seq<u8> {
    seq![
        (n >> 56u64) as u8, (n >> 48u64) as u8, (n >> 40u64) as u8, (n >> 32u64) as u8,
        (n >> 24u64) as u8, (n >> 16u64) as u8, (n >> 8u64) as u8, n as u8,
    ]
}

/// The number whose big-endian bytes are `b[0..8]`.
pub open spec fn be_value(b: Seq<u8>) -> u64
    recommends
        b.len() >= 8,
{
    ((b[0] as u64) << 56u64) | ((b[1] as u64) << 48u64) | ((b[2] as u64) << 40u64) | ((b[3] as u64) << 32u64)
        | ((b[4] as u64) << 24u64) | ((b[5] as u64) << 16u64) | ((b[6] as u64) << 8u64) | (b[7] as u64)
}

/// Reading back the bytes of `n` gives `n`.
pub proof fn lemma_be_round_trip(n: u64)
    ensures
        be_value(be_bytes(n)) == n,
{
    let b = be_bytes(n);
    let (b0, b1, b2, b3, b4, b5, b6, b7) = (b[0], b[1], b[2], b[3], b[4], b[5], b[6], b[7]);
    assert(b0 == (n >> 56u64) as u8 && b1 == (n >> 48u64) as u8 && b2 == (n >> 40u64) as u8 && b3 == (n
        >> 32u64) as u8 && b4 == (n >> 24u64) as u8 && b5 == (n >> 16u64) as u8 && b6 == (n >> 8u64) as u8
        && b7 == n as u8);
    assert(((b0 as u64) << 56u64) | ((b1 as u64) << 48u64) | ((b2 as u64) << 40u64) | ((b3 as u64) << 32u64)
        | ((b4 as u64) << 24u64) | ((b5 as u64) << 16u64) | ((b6 as u64) << 8u64) | (b7 as u64) == n)
        by (bit_vector)
        requires
            b0 == (n >> 56u64) as u8,
            b1 == (n >> 48u64) as u8,
            b2 == (n >> 40u64) as u8,
            b3 == (n >> 32u64) as u8,
            b4 == (n >> 24u64) as u8,
            b5 == (n >> 16u64) as u8,
            b6 == (n >> 8u64) as u8,
            b7 == n as u8,
    ;
}

/// A frame around `payload`.
pub open spec fn frame_bytes(payload: Seq<u8>) -> Seq<u8> {
    be_bytes(payload.len() as u64) + payload
}

/// Appends the big-endian bytes of `n`.
pub fn put_be_u64(n: u64, buf: &mut Vec<u8>)
    ensures
        final(buf)@ == old(buf)@ + be_bytes(n),
{
    buf.push((n >> 56u64) as u8);
    buf.push((n >> 48u64) as u8);
    buf.push((n >> 40u64) as u8);
    buf.push((n >> 32u64) as u8);
    buf.push((n >> 24u64) as u8);
    buf.push((n >> 16u64) as u8);
    buf.push((n >> 8u64) as u8);
    buf.push(n as u8);
    assert(buf@ =~= old(buf)@ + be_bytes(n));
}

/// Reads the big-endian number at the front of `b`.
pub fn read_be_u64(b: &[u8]) -> (r: u64)
    requires
        b@.len() >= 8,
    ensures
        r == be_value(b@),
{
    ((b[0] as u64) << 56u64) | ((b[1] as u64) << 48u64) | ((b[2] as u64) << 40u64) | ((b[3] as u64) << 32u64)
        | ((b[4] as u64) << 24u64) | ((b[5] as u64) << 16u64) | ((b[6] as u64) << 8u64) | (b[7] as u64)
}

/// Frames `payload`: its length as 8 big-endian bytes, then the payload.
pub fn frame(payload: &[u8]) -> (out: Vec<u8>)
    ensures
        out@ == frame_bytes(payload@),
{
    let mut out: Vec<u8> = Vec::new();
    put_be_u64(payload.len() as u64, &mut out);
    let n = payload.len();
    let mut i: usize = 0;
    while i < n
        invariant
            n == payload@.len(),
            i <= n,
            out@ == be_bytes(n as u64) + payload@.subrange(0, i as int),
        decreases n - i,
    {
        out.push(payload[i]);
        i = i + 1;
        assert(payload@.subrange(0, i as int) =~= payload@.subrange(0, i - 1) + seq![payload@[i - 1]]);
    }
    assert(payload@.subrange(0, n as int) =~= payload@);
    out
}

/// Finds the first frame in `b`: the bounds of its payload, or `None` when
/// `b` does not yet hold a whole frame.
pub fn parse_frame(b: &[u8]) -> (r: Option<(usize, usize)>)
    ensures
        match r {
            Some((start, end)) => b@.len() >= 8 && start == 8 && end == 8 + be_value(b@) && end <= b@.len(),
            None => b@.len() < 8 || 8 + be_value(b@) > b@.len(),
        },
{
    if b.len() < 8 {
        return None;
    }
    let n = read_be_u64(b);
    if n <= (b.len() - 8) as u64 {
        Some((8, 8 + n as usize))
    } else {
        None
    }
}

/// A frame's payload is found where it was put.
pub proof fn lemma_frame_round_trip(payload: Seq<u8>, rest: Seq<u8>)
    requires
        payload.len() <= u64::MAX,
    ensures
        (frame_bytes(payload) + rest).len() >= 8,
        be_value(frame_bytes(payload) + rest) == payload.len(),
        (frame_bytes(payload) + rest).subrange(8, 8 + payload.len() as int) == payload,
{
    let s = frame_bytes(payload) + rest;
    lemma_be_round_trip(payload.len() as u64);
    assert(be_value(s) == be_value(be_bytes(payload.len() as u64)));
    assert(s.subrange(8, 8 + payload.len() as int) =~= payload);
}

/// The frame the socket sink writes for one result: a single-event batch
/// with the local tags.
pub fn socket_frame(job_result: JobResult) -> (out: Vec<u8>)
    ensures
        exists|b: CheckBatchRequest|
            out@ == frame_bytes(encode_batch(b@)) && b@.tags == Some(crate::sender::local_tags())
                && b@.events == seq![JobResult::wire_view(job_result@)] && b.created_at is None,
{
    let ghost jr = job_result@;
    let batch = socket_batch(job_result);
    let payload = encode_batch_bytes(&batch);
    let out = frame(payload.as_slice());
    assert(out@ == frame_bytes(encode_batch(batch@)));
    out
}

/// The batch carried by the first frame of `b`, and the bytes the frame
/// takes; `None` when `b` holds no whole frame or its payload is not a batch.
pub open spec fn frame_batch(b: Seq<u8>) -> Option<(CheckBatchRequestView, int)> {
    if b.len() < 8 || 8 + be_value(b) > b.len() {
        None
    } else {
        match decode_batch(b.subrange(8, 8 + be_value(b))) {
            Some(x) => Some((x, 8 + be_value(b))),
            None => None,
        }
    }
}

/// Reads the batch of the first frame of `b`.
pub fn read_frame(b: &[u8]) -> (r: Option<(CheckBatchRequest, usize)>)
    ensures
        match r {
            Some((x, n)) => frame_batch(b@) == Some((x@, n as int)),
            None => frame_batch(b@) is None,
        },
{
    match parse_frame(b) {
        Some((start, end)) => match decode_batch_at(b, start, end) {
            Some(x) => Some((x, end)),
            None => None,
        },
        None => None,
    }
}

/// A framed batch reads back as that batch, whatever follows the frame.
pub proof fn lemma_frame_batch_round_trip(batch: CheckBatchRequestView, rest: Seq<u8>)
    requires
        encode_batch(batch).len() <= u64::MAX,
    ensures
        frame_batch(frame_bytes(encode_batch(batch)) + rest) == Some((batch, 8 + encode_batch(batch).len() as int)),
{
    let p = encode_batch(batch);
    lemma_frame_round_trip(p, rest);
    lemma_batch_round_trip(batch);
}

} // verus!
