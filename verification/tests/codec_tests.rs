use dedup_backfill::codec::{decode_record, decode_state, encode_record, encode_state};
use dedup_backfill::tables::{InsertTaskState, VideoHashFromBQ};

#[test]
fn record_round_trip() {
    let v = VideoHashFromBQ {
        video_hash: String::from("abcXYZ-123"),
        timestamp: 1_704_067_200_000_000_000,
    };
    let bytes = encode_record(&v);
    let back = decode_record(&bytes).expect("round trip must decode");
    assert_eq!(back.video_hash, "abcXYZ-123");
    assert_eq!(back.timestamp, 1_704_067_200_000_000_000);
}

#[test]
fn record_round_trip_non_ascii_hash() {
    let v = VideoHashFromBQ {
        video_hash: String::from("héllo-ωorld"),
        timestamp: u64::MAX,
    };
    let bytes = encode_record(&v);
    let back = decode_record(&bytes).expect("round trip must decode");
    assert_eq!(back.video_hash, "héllo-ωorld");
    assert_eq!(back.timestamp, u64::MAX);
}

#[test]
fn record_encoding_is_big_endian_prefix() {
    let v = VideoHashFromBQ {
        video_hash: String::from("a"),
        timestamp: 0x0102030405060708,
    };
    let bytes = encode_record(&v);
    assert_eq!(&bytes[..8], &[1, 2, 3, 4, 5, 6, 7, 8]);
    assert_eq!(&bytes[8..], b"a");
}

#[test]
fn record_decode_too_short_is_corrupt() {
    assert!(decode_record(&vec![1, 2, 3]).is_none());
}

#[test]
fn record_decode_invalid_utf8_is_corrupt() {
    let bytes = vec![0, 0, 0, 0, 0, 0, 0, 0, 0xff, 0xfe];
    assert!(decode_record(&bytes).is_none());
}

#[test]
fn state_round_trip() {
    for s in [
        InsertTaskState::ToBeInserted,
        InsertTaskState::Inserting,
        InsertTaskState::Inserted,
    ] {
        let bytes = encode_state(s);
        assert_eq!(decode_state(&bytes), Some(s));
    }
}

#[test]
fn state_decode_bad_bytes_is_corrupt() {
    assert_eq!(decode_state(&vec![]), None);
    assert_eq!(decode_state(&vec![9]), None);
    assert_eq!(decode_state(&vec![0, 0]), None);
}
