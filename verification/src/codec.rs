use vstd::prelude::*;
use vstd::string::StringSliceAdditionalSpecFns;
use vstd::utf8::{decode_utf8, encode_utf8, encode_utf8_decode_utf8, encode_utf8_valid_utf8,
    valid_utf8};

use crate::tables::{HashRecordModel, InsertTaskState, VideoHashFromBQ};

verus! {

/// Big-endian bytes of a 64-bit timestamp.
pub open spec fn spec_ts_bytes(ts: u64) -> Seq<u8> {
    seq![
        (ts >> 56) as u8,
        (ts >> 48) as u8,
        (ts >> 40) as u8,
        (ts >> 32) as u8,
        (ts >> 24) as u8,
        (ts >> 16) as u8,
        (ts >> 8) as u8,
        ts as u8,
    ]
}

/// The timestamp read back from the first eight bytes, big-endian.
pub open spec fn spec_ts_of_bytes(b: Seq<u8>) -> u64
    recommends
        b.len() >= 8,
{
    ((b[0] as u64) << 56) | ((b[1] as u64) << 48) | ((b[2] as u64) << 40) | ((b[3] as u64) << 32)
        | ((b[4] as u64) << 24) | ((b[5] as u64) << 16) | ((b[6] as u64) << 8) | (b[7] as u64)
}

/// Stored form of a hash record: eight timestamp bytes, then the hash in
/// UTF-8.
pub open spec fn spec_encode_record(m: HashRecordModel) -> Seq<u8>
    recommends
        0 <= m.timestamp <= u64::MAX,
{
    spec_ts_bytes(m.timestamp as u64) + encode_utf8(m.video_hash)
}

/// The record read back from stored bytes; `None` means the bytes are
/// corrupt.
pub open spec fn spec_decode_record(b: Seq<u8>) -> Option<HashRecordModel> {
    if b.len() >= 8 && valid_utf8(b.skip(8)) {
        Some(
            HashRecordModel {
                video_hash: decode_utf8(b.skip(8)),
                timestamp: spec_ts_of_bytes(b) as int,
            },
        )
    } else {
        None
    }
}

/// Relies on String::from_utf8: decodes the byte sequence as UTF-8, or
/// reports that it is not valid UTF-8.
#[verifier::external_body]
fn bytes_to_string(b: Vec<u8>) -> (r: Option<String>)
    ensures
        match r {
            Some(s) => valid_utf8(b@) && s@ == decode_utf8(b@),
            None => !valid_utf8(b@),
        },
{
    match String::from_utf8(b) {
        Ok(s) => Some(s),
        Err(_) => None,
    }
}

/// Serializes a record for the hash partition.
pub fn encode_record(v: &VideoHashFromBQ) -> (r: Vec<u8>)
    ensures
        r@ == spec_encode_record(v@),
{
    let ts = v.timestamp;
    let mut out: Vec<u8> = Vec::new();
    out.push((ts >> 56) as u8);
    out.push((ts >> 48) as u8);
    out.push((ts >> 40) as u8);
    out.push((ts >> 32) as u8);
    out.push((ts >> 24) as u8);
    out.push((ts >> 16) as u8);
    out.push((ts >> 8) as u8);
    out.push(ts as u8);
    let bytes = v.video_hash.as_str().as_bytes();
    assert(out@ =~= spec_ts_bytes(ts));
    let mut i: usize = 0;
    while i < bytes.len()
        invariant
            i <= bytes.len(),
            bytes@ == encode_utf8(v.video_hash@),
            out@ == spec_ts_bytes(ts) + bytes@.take(i as int),
        decreases bytes.len() - i,
    {
        out.push(bytes[i]);
        assert(bytes@.take(i + 1) =~= bytes@.take(i as int).push(bytes@[i as int]));
        i += 1;
    }
    assert(bytes@.take(bytes@.len() as int) =~= bytes@);
    out
}

/// Deserializes a record of the hash partition; `None` means corruption.
pub fn decode_record(b: &Vec<u8>) -> (r: Option<VideoHashFromBQ>)
    ensures
        match r {
            Some(v) => spec_decode_record(b@) == Some(v@),
            None => spec_decode_record(b@) is None,
        },
{
    if b.len() < 8 {
        return None;
    }
    let ts: u64 = ((b[0] as u64) << 56) | ((b[1] as u64) << 48) | ((b[2] as u64) << 40) | ((
    b[3] as u64) << 32) | ((b[4] as u64) << 24) | ((b[5] as u64) << 16) | ((b[6] as u64) << 8) | (
    b[7] as u64);
    let mut tail: Vec<u8> = Vec::new();
    let mut i: usize = 8;
    while i < b.len()
        invariant
            8 <= i <= b.len(),
            tail@ == b@.subrange(8, i as int),
        decreases b.len() - i,
    {
        tail.push(b[i]);
        assert(b@.subrange(8, i + 1) =~= b@.subrange(8, i as int).push(b@[i as int]));
        i += 1;
    }
    assert(tail@ =~= b@.skip(8));
    match bytes_to_string(tail) {
        Some(s) => Some(VideoHashFromBQ { video_hash: s, timestamp: ts }),
        None => None,
    }
}

/// Stored form of a task state: a single tag byte.
pub open spec fn spec_encode_state(s: InsertTaskState) -> Seq<u8> {
    match s {
        InsertTaskState::ToBeInserted => seq![0u8],
        InsertTaskState::Inserting => seq![1u8],
        InsertTaskState::Inserted => seq![2u8],
    }
}

/// The task state read back from stored bytes; `None` means corruption.
pub open spec fn spec_decode_state(b: Seq<u8>) -> Option<InsertTaskState> {
    if b.len() == 1 && b[0] == 0u8 {
        Some(InsertTaskState::ToBeInserted)
    } else if b.len() == 1 && b[0] == 1u8 {
        Some(InsertTaskState::Inserting)
    } else if b.len() == 1 && b[0] == 2u8 {
        Some(InsertTaskState::Inserted)
    } else {
        None
    }
}

/// Serializes a task state for the task partition.
pub fn encode_state(s: InsertTaskState) -> (r: Vec<u8>)
    ensures
        r@ == spec_encode_state(s),
{
    let mut out: Vec<u8> = Vec::new();
    match s {
        InsertTaskState::ToBeInserted => out.push(0u8),
        InsertTaskState::Inserting => out.push(1u8),
        InsertTaskState::Inserted => out.push(2u8),
    }
    assert(out@ =~= spec_encode_state(s));
    out
}

/// Deserializes a task state of the task partition; `None` means corruption.
pub fn decode_state(b: &Vec<u8>) -> (r: Option<InsertTaskState>)
    ensures
        r == spec_decode_state(b@),
{
    if b.len() != 1 {
        return None;
    }
    let tag = b[0];
    if tag == 0 {
        Some(InsertTaskState::ToBeInserted)
    } else if tag == 1 {
        Some(InsertTaskState::Inserting)
    } else if tag == 2 {
        Some(InsertTaskState::Inserted)
    } else {
        None
    }
}

/// Reading a stored record back yields exactly the record that was written.
pub proof fn lemma_record_round_trip(m: HashRecordModel)
    requires
        0 <= m.timestamp <= u64::MAX,
    ensures
        spec_decode_record(spec_encode_record(m)) == Some(m),
{
    let ts = m.timestamp as u64;
    let enc = spec_encode_record(m);
    assert(enc.skip(8) =~= encode_utf8(m.video_hash));
    encode_utf8_valid_utf8(m.video_hash);
    encode_utf8_decode_utf8(m.video_hash);
    let tb = spec_ts_bytes(ts);
    assert(enc[0] == tb[0] && enc[1] == tb[1] && enc[2] == tb[2] && enc[3] == tb[3] && enc[4]
        == tb[4] && enc[5] == tb[5] && enc[6] == tb[6] && enc[7] == tb[7]);
    assert((((ts >> 56) as u8 as u64) << 56) | (((ts >> 48) as u8 as u64) << 48) | (((ts
        >> 40) as u8 as u64) << 40) | (((ts >> 32) as u8 as u64) << 32) | (((ts
        >> 24) as u8 as u64) << 24) | (((ts >> 16) as u8 as u64) << 16) | (((ts
        >> 8) as u8 as u64) << 8) | ((ts as u8) as u64) == ts) by (bit_vector);
    assert(spec_ts_of_bytes(enc) == ts);
}

/// Reading a stored task state back yields exactly the state that was
/// written.
pub proof fn lemma_state_round_trip(s: InsertTaskState)
    ensures
        spec_decode_state(spec_encode_state(s)) == Some(s),
{
}

} // verus!
