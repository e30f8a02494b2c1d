use dedup_backfill::check::{WorkEntry, select_work};
use dedup_backfill::insert::{
    CONCURRENCY_LIMIT, Dispatcher, MAX_ATTEMPTS, RemoteOutcome, RetryStep, classify_response,
    retry_step,
};
use dedup_backfill::tables::{InsertTaskState, VideoHashFromBQ};

fn work(n: usize) -> Vec<(String, VideoHashFromBQ)> {
    (0..n)
        .map(|i| {
            (
                format!("id-{i}"),
                VideoHashFromBQ {
                    video_hash: format!("hash-{i}"),
                    timestamp: 1_000 + i as u64,
                },
            )
        })
        .collect()
}

#[test]
fn classify_statuses() {
    assert_eq!(classify_response(Some(200)), RemoteOutcome::Success);
    assert_eq!(classify_response(Some(204)), RemoteOutcome::Success);
    assert_eq!(classify_response(Some(299)), RemoteOutcome::Success);
    assert_eq!(classify_response(Some(500)), RemoteOutcome::Transient);
    assert_eq!(classify_response(Some(503)), RemoteOutcome::Transient);
    assert_eq!(classify_response(None), RemoteOutcome::Transient);
    assert_eq!(classify_response(Some(400)), RemoteOutcome::Fatal);
    assert_eq!(classify_response(Some(404)), RemoteOutcome::Fatal);
    assert_eq!(classify_response(Some(302)), RemoteOutcome::Fatal);
}

#[test]
fn retry_policy_backoff_doubles_then_aborts() {
    assert_eq!(
        retry_step(RemoteOutcome::Transient, 1),
        RetryStep::RetryAfter(500)
    );
    assert_eq!(
        retry_step(RemoteOutcome::Transient, 2),
        RetryStep::RetryAfter(1000)
    );
    assert_eq!(
        retry_step(RemoteOutcome::Transient, 3),
        RetryStep::RetryAfter(2000)
    );
    assert_eq!(
        retry_step(RemoteOutcome::Transient, 4),
        RetryStep::RetryAfter(4000)
    );
    assert_eq!(retry_step(RemoteOutcome::Transient, 5), RetryStep::Abort);
    assert_eq!(retry_step(RemoteOutcome::Success, 1), RetryStep::Completed);
    assert_eq!(retry_step(RemoteOutcome::Success, 5), RetryStep::Completed);
    assert_eq!(retry_step(RemoteOutcome::Fatal, 1), RetryStep::Abort);
    assert_eq!(MAX_ATTEMPTS, 5);
}

#[test]
fn concurrency_limit_enforced() {
    let mut d = Dispatcher::new(work(25));
    let mut started = Vec::new();
    // the first twenty records start; the twenty-first must wait
    for _ in 0..CONCURRENCY_LIMIT {
        let (idx, _req) = d.start_next().expect("a slot is free");
        started.push(idx);
    }
    assert_eq!(d.in_flight_count(), CONCURRENCY_LIMIT);
    assert!(d.start_next().is_none());
    // freeing one slot lets exactly one more start
    d.complete_success(started[0]);
    assert_eq!(d.in_flight_count(), CONCURRENCY_LIMIT - 1);
    let (idx, _req) = d.start_next().expect("a slot freed up");
    assert_eq!(idx, CONCURRENCY_LIMIT);
    assert!(d.start_next().is_none());
}

#[test]
fn dispatch_request_carries_record() {
    let mut d = Dispatcher::new(work(1));
    let (idx, req) = d.start_next().expect("one record pending");
    assert_eq!(idx, 0);
    assert_eq!(req.video_id, "id-0");
    assert_eq!(req.video_hash, "hash-0");
    assert_eq!(req.created_at, 1_000);
    assert_eq!(d.state_of(0), InsertTaskState::Inserting);
    d.complete_success(0);
    assert_eq!(d.state_of(0), InsertTaskState::Inserted);
    assert!(d.is_complete());
    assert!(d.start_next().is_none());
}

/// Drives one record's retry loop against a script of HTTP outcomes,
/// answering as the remote side would; reports whether the record completed.
fn drive_record(d: &mut Dispatcher, idx: usize, outcomes: &[Option<u16>]) -> bool {
    let mut attempt: u32 = 1;
    loop {
        let outcome = classify_response(outcomes[(attempt - 1) as usize]);
        match retry_step(outcome, attempt) {
            RetryStep::Completed => {
                d.complete_success(idx);
                return true;
            }
            RetryStep::RetryAfter(_delay) => {
                attempt += 1;
            }
            RetryStep::Abort => {
                d.abort_run();
                return false;
            }
        }
    }
}

#[test]
fn scenario_transient_failures_recovered_within_budget() {
    // three eligible records; the second needs five attempts (500 four
    // times, then 200); the run still completes
    let mut d = Dispatcher::new(work(3));
    let (i0, _) = d.start_next().unwrap();
    assert!(drive_record(&mut d, i0, &[Some(200)]));
    let (i1, _) = d.start_next().unwrap();
    assert!(drive_record(
        &mut d,
        i1,
        &[Some(500), Some(500), Some(500), Some(500), Some(200)]
    ));
    let (i2, _) = d.start_next().unwrap();
    assert!(drive_record(&mut d, i2, &[Some(200)]));
    assert!(d.is_complete());
    assert!(!d.was_aborted());
    for i in 0..3 {
        assert_eq!(d.state_of(i), InsertTaskState::Inserted);
    }
}

#[test]
fn scenario_exhausted_retries_abort_run() {
    // the second record never succeeds: the run aborts; the first stays
    // Inserted, the second stays Inserting, the third is never attempted
    let mut d = Dispatcher::new(work(3));
    let (i0, _) = d.start_next().unwrap();
    assert!(drive_record(&mut d, i0, &[Some(200)]));
    let (i1, _) = d.start_next().unwrap();
    let finished = drive_record(
        &mut d,
        i1,
        &[Some(500), Some(500), Some(500), Some(500), Some(500)],
    );
    assert!(!finished);
    assert!(d.was_aborted());
    assert!(!d.is_complete());
    assert_eq!(d.state_of(0), InsertTaskState::Inserted);
    assert_eq!(d.state_of(1), InsertTaskState::Inserting);
    assert_eq!(d.state_of(2), InsertTaskState::ToBeInserted);
}

#[test]
fn resumed_run_dispatches_only_the_remainder() {
    // after an aborted run, a fresh selection with the same cutoff sees the
    // completed record as Inserted and the interrupted one as Inserting
    let entries = vec![
        WorkEntry {
            video_id: String::from("id-0"),
            record: VideoHashFromBQ {
                video_hash: String::from("hash-0"),
                timestamp: 1_000,
            },
            state: InsertTaskState::Inserted,
        },
        WorkEntry {
            video_id: String::from("id-1"),
            record: VideoHashFromBQ {
                video_hash: String::from("hash-1"),
                timestamp: 1_001,
            },
            state: InsertTaskState::Inserting,
        },
        WorkEntry {
            video_id: String::from("id-2"),
            record: VideoHashFromBQ {
                video_hash: String::from("hash-2"),
                timestamp: 1_002,
            },
            state: InsertTaskState::ToBeInserted,
        },
    ];
    let sel = select_work(&entries, 1_000_000, true);
    assert_eq!(sel.skipped_inserted, 1);
    let ids: Vec<&str> = sel.work_items.iter().map(|p| p.0.as_str()).collect();
    assert_eq!(ids, vec!["id-1", "id-2"]);
}
