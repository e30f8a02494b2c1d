use dedup_backfill::import::merge_record;
use dedup_backfill::tables::VideoHashFromBQ;

const T0: u64 = 1_704_067_200_000_000_000; // 2024-01-01T00:00:00Z
const T5: u64 = 1_704_067_205_000_000_000; // 2024-01-01T00:00:05Z

#[test]
fn merge_fresh_takes_new_timestamp() {
    let r = merge_record(None, String::from("h1"), T5);
    assert_eq!(r.timestamp, T5);
    assert_eq!(r.video_hash, "h1");
}

#[test]
fn merge_keeps_earliest_timestamp() {
    let first = merge_record(None, String::from("h1"), T0);
    let second = merge_record(Some(first), String::from("h1"), T5);
    assert_eq!(second.timestamp, T0);
}

#[test]
fn merge_order_does_not_matter() {
    let a1 = merge_record(None, String::from("h1"), T0);
    let a2 = merge_record(Some(a1), String::from("h1"), T5);

    let b1 = merge_record(None, String::from("h1"), T5);
    let b2 = merge_record(Some(b1), String::from("h1"), T0);

    assert_eq!(a2.timestamp, b2.timestamp);
    assert_eq!(a2.timestamp, T0);
}

#[test]
fn merge_same_line_twice_changes_nothing() {
    let once = merge_record(None, String::from("h1"), T0);
    let again = merge_record(
        Some(VideoHashFromBQ {
            video_hash: once.video_hash.clone(),
            timestamp: once.timestamp,
        }),
        String::from("h1"),
        T0,
    );
    assert_eq!(again.video_hash, once.video_hash);
    assert_eq!(again.timestamp, once.timestamp);
}

#[test]
fn merge_takes_latest_hash() {
    let first = merge_record(None, String::from("old-hash"), T0);
    let second = merge_record(Some(first), String::from("new-hash"), T5);
    assert_eq!(second.video_hash, "new-hash");
    assert_eq!(second.timestamp, T0);
}
