use dedup_backfill::MigrateError;
use dedup_backfill::check::{
    WorkDecision, WorkEntry, entries_of, format_rfc3339, select_record, select_work,
    sort_timestamps_desc, top_timestamps,
};
use dedup_backfill::codec::{encode_record, encode_state};
use dedup_backfill::tables::{InsertTaskState, VideoHashFromBQ};

const T0: u64 = 1_704_067_200_000_000_000; // 2024-01-01T00:00:00Z

fn entry(id: &str, ts: u64, state: InsertTaskState) -> WorkEntry {
    WorkEntry {
        video_id: String::from(id),
        record: VideoHashFromBQ {
            video_hash: format!("hash-of-{id}"),
            timestamp: ts,
        },
        state,
    }
}

fn encoded(hash: &str, ts: u64) -> Vec<u8> {
    encode_record(&VideoHashFromBQ {
        video_hash: String::from(hash),
        timestamp: ts,
    })
}

#[test]
fn entries_of_pairs_records_with_states() {
    let pairs = vec![
        (String::from("a"), encoded("ha", 1)),
        (String::from("b"), encoded("hb", 2)),
        (String::from("c"), encoded("hc", 3)),
    ];
    let states = vec![
        Some(encode_state(InsertTaskState::Inserted)),
        None,
        Some(encode_state(InsertTaskState::Inserting)),
    ];
    let entries = entries_of(&pairs, &states).expect("every value decodes");
    assert_eq!(entries.len(), 3);
    assert_eq!(entries[0].video_id, "a");
    assert_eq!(entries[0].record.video_hash, "ha");
    assert_eq!(entries[0].record.timestamp, 1);
    assert_eq!(entries[0].state, InsertTaskState::Inserted);
    // an absent task entry reads as the initial state
    assert_eq!(entries[1].video_id, "b");
    assert_eq!(entries[1].state, InsertTaskState::ToBeInserted);
    assert_eq!(entries[2].state, InsertTaskState::Inserting);
}

#[test]
fn entries_of_corrupt_record_is_fatal() {
    let pairs = vec![(String::from("a"), vec![1, 2, 3])];
    let states = vec![None];
    assert!(matches!(
        entries_of(&pairs, &states),
        Err(MigrateError::CorruptRecord)
    ));
}

#[test]
fn entries_of_corrupt_state_is_fatal() {
    let pairs = vec![(String::from("a"), encoded("ha", 1))];
    let states = vec![Some(vec![9])];
    assert!(matches!(
        entries_of(&pairs, &states),
        Err(MigrateError::CorruptState)
    ));
}

#[test]
fn error_messages_name_the_failure() {
    assert_eq!(MigrateError::StoreOpen.describe(), "couldn't open the store");
    assert_eq!(MigrateError::StoreRead.describe(), "couldn't read from kv");
    assert_eq!(MigrateError::StoreWrite.describe(), "couldn't write to kv");
    assert_eq!(
        MigrateError::CorruptRecord.describe(),
        "a stored hash record is corrupt"
    );
    assert_eq!(
        MigrateError::CorruptState.describe(),
        "a stored task state is corrupt"
    );
}

#[test]
fn cutoff_is_exclusive() {
    // exactly at the cutoff: excluded; one nanosecond earlier: included
    let d_eq = select_record(InsertTaskState::ToBeInserted, T0, T0, false);
    assert_eq!(d_eq, WorkDecision::SkipCutoff);
    let d_lt = select_record(InsertTaskState::ToBeInserted, T0 - 1, T0, false);
    assert_eq!(d_lt, WorkDecision::Include);
}

#[test]
fn scenario_merged_record_against_two_cutoffs() {
    // "v1" merged to 2024-01-01T00:00:00Z: a cutoff at that instant excludes
    // it, a cutoff one second later includes it
    let merged = dedup_backfill::import::merge_record(
        Some(dedup_backfill::import::merge_record(
            None,
            String::from("h"),
            T0,
        )),
        String::from("h"),
        T0 + 5_000_000_000,
    );
    assert_eq!(merged.timestamp, T0);
    let at = select_record(InsertTaskState::ToBeInserted, merged.timestamp, T0, false);
    assert_eq!(at, WorkDecision::SkipCutoff);
    let later = select_record(
        InsertTaskState::ToBeInserted,
        merged.timestamp,
        T0 + 1_000_000_000,
        false,
    );
    assert_eq!(later, WorkDecision::Include);
}

#[test]
fn real_mode_skips_inserted() {
    let d = select_record(InsertTaskState::Inserted, T0 - 1, T0, true);
    assert_eq!(d, WorkDecision::SkipInserted);
    // the dry run does not look at task state
    let d_dry = select_record(InsertTaskState::Inserted, T0 - 1, T0, false);
    assert_eq!(d_dry, WorkDecision::Include);
    // still in flight from an interrupted run: retried
    let d_mid = select_record(InsertTaskState::Inserting, T0 - 1, T0, true);
    assert_eq!(d_mid, WorkDecision::Include);
}

#[test]
fn select_work_counts_and_dedups() {
    let entries = vec![
        entry("a", 10, InsertTaskState::ToBeInserted),
        entry("b", 10, InsertTaskState::Inserted),
        entry("c", 100, InsertTaskState::ToBeInserted),
        entry("a", 20, InsertTaskState::ToBeInserted),
    ];
    let sel = select_work(&entries, 50, true);
    assert_eq!(sel.total, 4);
    assert_eq!(sel.skipped_inserted, 1);
    assert_eq!(sel.skipped_cutoff, 1);
    assert_eq!(sel.work_items.len(), 1);
    assert_eq!(sel.work_items[0].0, "a");
    // the later occurrence of "a" overwrote the earlier one
    assert_eq!(sel.work_items[0].1.timestamp, 20);
}

#[test]
fn select_work_inserted_checked_before_cutoff() {
    // a record both already inserted and past the cutoff counts as inserted
    let entries = vec![entry("a", 100, InsertTaskState::Inserted)];
    let sel = select_work(&entries, 50, true);
    assert_eq!(sel.skipped_inserted, 1);
    assert_eq!(sel.skipped_cutoff, 0);
}

#[test]
fn sort_descending_exact() {
    let sorted = sort_timestamps_desc(&vec![3, 1, 2]);
    assert_eq!(sorted, vec![3, 2, 1]);
    let with_dups = sort_timestamps_desc(&vec![5, 1, 5, 3]);
    assert_eq!(with_dups, vec![5, 5, 3, 1]);
    let empty = sort_timestamps_desc(&vec![]);
    assert!(empty.is_empty());
}

#[test]
fn rfc3339_formatting_exact() {
    assert_eq!(format_rfc3339(T0), "2024-01-01T00:00:00+00:00");
    assert_eq!(format_rfc3339(T0 + 5_000_000_000), "2024-01-01T00:00:05+00:00");
}

#[test]
fn top_timestamps_latest_first() {
    let items = vec![
        (
            String::from("a"),
            VideoHashFromBQ {
                video_hash: String::from("x"),
                timestamp: T0,
            },
        ),
        (
            String::from("b"),
            VideoHashFromBQ {
                video_hash: String::from("y"),
                timestamp: T0 + 5_000_000_000,
            },
        ),
        (
            String::from("c"),
            VideoHashFromBQ {
                video_hash: String::from("z"),
                timestamp: T0 + 1_000_000_000,
            },
        ),
    ];
    let top = top_timestamps(&items, 2);
    assert_eq!(
        top,
        vec![
            String::from("2024-01-01T00:00:05+00:00"),
            String::from("2024-01-01T00:00:01+00:00"),
        ]
    );
    // asking for more than there are yields them all
    let all = top_timestamps(&items, 10);
    assert_eq!(all.len(), 3);
}
