use vstd::prelude::*;

use crate::MigrateError;
use crate::check::{Selection, select_work, unique_keys};
use crate::codec::encode_state;
use crate::tables::{InsertTaskState, StoreBucket, VideoHashFromBQ, bucket_set, get_hash_bucket,
    get_task_bucket, open_store, state_rank};

verus! {

/// The JSON body of one remote enqueue call; `created_at` is nanoseconds
/// since the Unix epoch.
pub struct DedupRequestArgs {
    pub video_id: String,
    pub video_hash: String,
    pub created_at: u64,
}

/// How one remote call ended. `Transient` covers everything worth retrying:
/// connection failures and timeouts (no status at all) and 5xx statuses.
#[derive(Clone, Copy, Debug, PartialEq, Eq, Structural)]
pub enum RemoteOutcome {
    Success,
    Transient,
    Fatal,
}

/// Classification of an HTTP outcome: any 2xx is success; no status
/// (connection failure, timeout) or a 5xx is transient; every other status
/// is fatal.
pub open spec fn spec_classify(status: Option<u16>) -> RemoteOutcome {
    match status {
        Option::None => RemoteOutcome::Transient,
        Option::Some(s) => if 200 <= s < 300 {
            RemoteOutcome::Success
        } else if 500 <= s < 600 {
            RemoteOutcome::Transient
        } else {
            RemoteOutcome::Fatal
        },
    }
}

/// Classifies one remote call's outcome.
pub fn classify_response(status: Option<u16>) -> (r: RemoteOutcome)
    ensures
        r == spec_classify(status),
{
    match status {
        Option::None => RemoteOutcome::Transient,
        Option::Some(s) => if 200 <= s && s < 300 {
            RemoteOutcome::Success
        } else if 500 <= s && s < 600 {
            RemoteOutcome::Transient
        } else {
            RemoteOutcome::Fatal
        },
    }
}

/// The per-record attempt budget.
pub const MAX_ATTEMPTS: u32 = 5;

/// The backoff before retrying attempt number `attempt` (the attempts are
/// counted from 1): it doubles with every further attempt.
pub open spec fn spec_backoff_ms(attempt: u32) -> u64 {
    if attempt <= 1 {
        500
    } else if attempt == 2 {
        1000
    } else if attempt == 3 {
        2000
    } else {
        4000
    }
}

/// What the retry loop does after one attempt.
#[derive(Clone, Copy, Debug, PartialEq, Eq, Structural)]
pub enum RetryStep {
    /// The record's call was confirmed; persist `Inserted` and free the slot.
    Completed,
    /// Wait this many milliseconds, then try the same record again.
    RetryAfter(u64),
    /// Give up: the whole run aborts (fail-fast).
    Abort,
}

/// The retry policy: success completes the record; a fatal outcome aborts
/// the run; a transient outcome is retried with exponential backoff until
/// the attempt budget is spent, and then aborts.
pub open spec fn spec_retry_step(outcome: RemoteOutcome, attempt: u32) -> RetryStep {
    match outcome {
        RemoteOutcome::Success => RetryStep::Completed,
        RemoteOutcome::Fatal => RetryStep::Abort,
        RemoteOutcome::Transient => if attempt < MAX_ATTEMPTS {
            RetryStep::RetryAfter(spec_backoff_ms(attempt))
        } else {
            RetryStep::Abort
        },
    }
}

/// Decides what follows attempt number `attempt` (counted from 1) given its
/// outcome.
pub fn retry_step(outcome: RemoteOutcome, attempt: u32) -> (r: RetryStep)
    requires
        attempt >= 1,
    ensures
        r == spec_retry_step(outcome, attempt),
{
    match outcome {
        RemoteOutcome::Success => RetryStep::Completed,
        RemoteOutcome::Fatal => RetryStep::Abort,
        RemoteOutcome::Transient => {
            if attempt < MAX_ATTEMPTS {
                let backoff: u64 = if attempt <= 1 {
                    500
                } else if attempt == 2 {
                    1000
                } else if attempt == 3 {
                    2000
                } else {
                    4000
                };
                RetryStep::RetryAfter(backoff)
            } else {
                RetryStep::Abort
            }
        },
    }
}

/// How many states of the sequence are `Inserted`.
pub open spec fn count_inserted(s: Seq<InsertTaskState>) -> int
    decreases s.len(),
{
    if s.len() == 0 {
        0
    } else {
        count_inserted(s.drop_last()) + if s.last() is Inserted {
            1int
        } else {
            0int
        }
    }
}

/// How many states of the sequence are `Inserting`.
pub open spec fn count_inserting(s: Seq<InsertTaskState>) -> int
    decreases s.len(),
{
    if s.len() == 0 {
        0
    } else {
        count_inserting(s.drop_last()) + if s.last() is Inserting {
            1int
        } else {
            0int
        }
    }
}

proof fn lemma_counts_update(s: Seq<InsertTaskState>, i: int, v: InsertTaskState)
    requires
        0 <= i < s.len(),
    ensures
        count_inserted(s.update(i, v)) == count_inserted(s) - (if s[i] is Inserted {
            1int
        } else {
            0int
        }) + (if v is Inserted {
            1int
        } else {
            0int
        }),
        count_inserting(s.update(i, v)) == count_inserting(s) - (if s[i] is Inserting {
            1int
        } else {
            0int
        }) + (if v is Inserting {
            1int
        } else {
            0int
        }),
    decreases s.len(),
{
    if i == s.len() - 1 {
        assert(s.update(i, v).drop_last() =~= s.drop_last());
    } else {
        lemma_counts_update(s.drop_last(), i, v);
        assert(s.update(i, v).drop_last() =~= s.drop_last().update(i, v));
        assert(s.update(i, v).last() == s.last());
    }
}

proof fn lemma_count_inserting_member(s: Seq<InsertTaskState>, i: int)
    requires
        0 <= i < s.len(),
        s[i] is Inserting,
    ensures
        count_inserting(s) >= 1,
    decreases s.len(),
{
    if i == s.len() - 1 {
        lemma_counts_bound(s.drop_last());
    } else {
        lemma_count_inserting_member(s.drop_last(), i);
    }
}

proof fn lemma_counts_bound(s: Seq<InsertTaskState>)
    ensures
        0 <= count_inserted(s) <= s.len(),
        0 <= count_inserting(s) <= s.len(),
    decreases s.len(),
{
    if s.len() > 0 {
        lemma_counts_bound(s.drop_last());
    }
}

proof fn lemma_count_inserted_full(s: Seq<InsertTaskState>)
    requires
        count_inserted(s) == s.len(),
    ensures
        forall|i: int| 0 <= i < s.len() ==> s[i] is Inserted,
    decreases s.len(),
{
    if s.len() > 0 {
        lemma_counts_bound(s.drop_last());
        lemma_count_inserted_full(s.drop_last());
        assert forall|i: int| 0 <= i < s.len() implies s[i] is Inserted by {
            if i < s.len() - 1 {
                assert(s.drop_last()[i] is Inserted);
            }
        }
    }
}

/// The upper bound on simultaneously outstanding remote calls.
pub const CONCURRENCY_LIMIT: usize = 20;

/// The dispatch engine's record of one run: the qualifying records in
/// order, the last task state the engine committed for each, and the
/// counters that bound the concurrent pipelines. Records before `next` have
/// been started; the engine never moves a record's state backwards.
pub struct Dispatcher {
    work: Vec<(String, VideoHashFromBQ)>,
    states: Vec<InsertTaskState>,
    next: usize,
    in_flight: usize,
    completed: usize,
    aborted: bool,
}

impl Dispatcher {
    /// The records of this run, in dispatch order.
    pub closed spec fn work_items(&self) -> Seq<(String, VideoHashFromBQ)> {
        self.work@
    }

    /// The last state the engine committed for each record.
    pub closed spec fn states(&self) -> Seq<InsertTaskState> {
        self.states@
    }

    /// The index of the first record not yet started.
    pub closed spec fn next_index(&self) -> int {
        self.next as int
    }

    /// How many records are started but not yet confirmed.
    pub closed spec fn in_flight(&self) -> int {
        self.in_flight as int
    }

    /// How many records reached `Inserted`.
    pub closed spec fn completed(&self) -> int {
        self.completed as int
    }

    /// Whether the run was aborted by a terminal failure.
    pub closed spec fn aborted(&self) -> bool {
        self.aborted
    }

    /// The engine's invariant: a record is `ToBeInserted` exactly until it
    /// is started; the counters count the `Inserting` and `Inserted` states;
    /// and never more than the limit are in flight at once.
    pub open spec fn wf(&self) -> bool {
        &&& self.states().len() == self.work_items().len()
        &&& 0 <= self.next_index() <= self.states().len()
        &&& (forall|i: int|
            self.next_index() <= i < self.states().len() ==> self.states()[i] is ToBeInserted)
        &&& (forall|i: int| 0 <= i < self.next_index() ==> !(self.states()[i] is ToBeInserted))
        &&& self.in_flight() == count_inserting(self.states())
        &&& self.completed() == count_inserted(self.states())
        &&& self.in_flight() + self.completed() == self.next_index()
        &&& self.in_flight() <= CONCURRENCY_LIMIT as int
    }

    /// Builds the engine over the qualifying records; nothing is started
    /// yet.
    pub fn new(work: Vec<(String, VideoHashFromBQ)>) -> (d: Dispatcher)
        ensures
            d.wf(),
            d.work_items() == work@,
            d.next_index() == 0,
            d.in_flight() == 0,
            d.completed() == 0,
            !d.aborted(),
    {
        let n = work.len();
        let mut states: Vec<InsertTaskState> = Vec::new();
        while states.len() < n
            invariant
                states@.len() <= n,
                forall|i: int| 0 <= i < states@.len() ==> states@[i] is ToBeInserted,
                count_inserting(states@) == 0,
                count_inserted(states@) == 0,
            decreases n - states.len(),
        {
            let ghost before = states@;
            states.push(InsertTaskState::ToBeInserted);
            proof {
                assert(states@.drop_last() =~= before);
            }
        }
        Dispatcher { work, states, next: 0, in_flight: 0, completed: 0, aborted: false }
    }

    /// Starts the next record, if one is pending and a concurrency slot is
    /// free: commits `Inserting` for it and hands back its index and request
    /// body. `None` means either everything is started or the limit is
    /// reached. No record's state ever moves backwards.
    pub fn start_next(&mut self) -> (r: Option<(usize, DedupRequestArgs)>)
        requires
            old(self).wf(),
            !old(self).aborted(),
        ensures
            final(self).wf(),
            final(self).work_items() == old(self).work_items(),
            !final(self).aborted(),
            forall|i: int|
                0 <= i < old(self).states().len() ==> state_rank(#[trigger] final(self).states()[i])
                    >= state_rank(old(self).states()[i]),
            match r {
                Option::Some(p) => {
                    &&& old(self).next_index() < old(self).work_items().len()
                    &&& old(self).in_flight() < CONCURRENCY_LIMIT as int
                    &&& p.0 as int == old(self).next_index()
                    &&& final(self).next_index() == old(self).next_index() + 1
                    &&& final(self).in_flight() == old(self).in_flight() + 1
                    &&& final(self).completed() == old(self).completed()
                    &&& final(self).states() == old(self).states().update(
                        p.0 as int,
                        InsertTaskState::Inserting,
                    )
                    &&& p.1.video_id@ == old(self).work_items()[p.0 as int].0@
                    &&& p.1.video_hash@ == old(self).work_items()[p.0 as int].1.video_hash@
                    &&& p.1.created_at == old(self).work_items()[p.0 as int].1.timestamp
                },
                Option::None => {
                    &&& *final(self) == *old(self)
                    &&& (old(self).next_index() == old(self).work_items().len() || old(
                        self,
                    ).in_flight() == CONCURRENCY_LIMIT as int)
                },
            },
    {
        if self.next < self.work.len() && self.in_flight < CONCURRENCY_LIMIT {
            let idx = self.next;
            let ghost before = self.states@;
            self.states.remove(idx);
            self.states.insert(idx, InsertTaskState::Inserting);
            proof {
                assert(self.states@ =~= before.update(idx as int, InsertTaskState::Inserting));
                lemma_counts_update(before, idx as int, InsertTaskState::Inserting);
            }
            self.next = idx + 1;
            self.in_flight = self.in_flight + 1;
            let req = DedupRequestArgs {
                video_id: self.work[idx].0.clone(),
                video_hash: self.work[idx].1.video_hash.clone(),
                created_at: self.work[idx].1.timestamp,
            };
            Some((idx, req))
        } else {
            None
        }
    }

    /// Confirms one started record: commits `Inserted` for it and frees its
    /// slot. No record's state ever moves backwards.
    pub fn complete_success(&mut self, idx: usize)
        requires
            old(self).wf(),
            idx < old(self).states().len(),
            old(self).states()[idx as int] is Inserting,
        ensures
            final(self).wf(),
            final(self).work_items() == old(self).work_items(),
            final(self).aborted() == old(self).aborted(),
            final(self).next_index() == old(self).next_index(),
            final(self).states() == old(self).states().update(
                idx as int,
                InsertTaskState::Inserted,
            ),
            final(self).in_flight() == old(self).in_flight() - 1,
            final(self).completed() == old(self).completed() + 1,
            forall|i: int|
                0 <= i < old(self).states().len() ==> state_rank(#[trigger] final(self).states()[i])
                    >= state_rank(old(self).states()[i]),
    {
        let ghost before = self.states@;
        proof {
            lemma_count_inserting_member(before, idx as int);
        }
        self.states.remove(idx);
        self.states.insert(idx, InsertTaskState::Inserted);
        proof {
            assert(self.states@ =~= before.update(idx as int, InsertTaskState::Inserted));
            lemma_counts_update(before, idx as int, InsertTaskState::Inserted);
        }
        self.in_flight = self.in_flight - 1;
        self.completed = self.completed + 1;
    }

    /// Records the fail-fast decision: the run stops; no state is touched.
    pub fn abort_run(&mut self)
        requires
            old(self).wf(),
        ensures
            final(self).wf(),
            final(self).aborted(),
            final(self).states() == old(self).states(),
            final(self).work_items() == old(self).work_items(),
            final(self).in_flight() == old(self).in_flight(),
            final(self).completed() == old(self).completed(),
            final(self).next_index() == old(self).next_index(),
    {
        self.aborted = true;
    }

    /// Whether every record of the run reached `Inserted`.
    pub fn is_complete(&self) -> (r: bool)
        requires
            self.wf(),
        ensures
            r == (self.completed() == self.work_items().len() as int),
    {
        self.completed == self.work.len()
    }

    /// Whether any record is still unstarted.
    pub fn has_pending(&self) -> (r: bool)
        ensures
            r == (self.next_index() < self.work_items().len() as int),
    {
        self.next < self.work.len()
    }

    /// How many records are started but not yet confirmed.
    pub fn in_flight_count(&self) -> (r: usize)
        ensures
            r as int == self.in_flight(),
    {
        self.in_flight
    }

    /// Whether the run was aborted.
    pub fn was_aborted(&self) -> (r: bool)
        ensures
            r == self.aborted(),
    {
        self.aborted
    }

    /// The number of records of the run.
    pub fn work_len(&self) -> (r: usize)
        ensures
            r as int == self.work_items().len() as int,
    {
        self.work.len()
    }

    /// The task state last committed for one record of the run.
    pub fn state_of(&self, idx: usize) -> (r: InsertTaskState)
        requires
            idx < self.states().len(),
        ensures
            r == self.states()[idx as int],
    {
        self.states[idx]
    }
}

/// Concurrency bound: a well-formed dispatcher never has more than the
/// configured limit of records in flight, and a slot must free up before a
/// further record starts.
pub proof fn lemma_concurrency_bound(d: &Dispatcher)
    requires
        d.wf(),
    ensures
        d.in_flight() <= CONCURRENCY_LIMIT as int,
{
}

/// A completed run reached `Inserted` for every selected record: when the
/// completion counter equals the run's length, no record is left behind.
pub proof fn lemma_complete_all_inserted(d: &Dispatcher)
    requires
        d.wf(),
        d.completed() == d.work_items().len() as int,
    ensures
        forall|i: int| 0 <= i < d.states().len() ==> d.states()[i] is Inserted,
{
    lemma_count_inserted_full(d.states());
}

/// Persists `Inserting` for the identifier: the write-before-call step, so
/// that a crash after this point is distinguishable from "never attempted".
pub fn mark_inserting(task_bucket: &StoreBucket, video_id: &String) -> (r: Result<
    (),
    MigrateError,
>)
    ensures
        r matches Err(e) ==> e == MigrateError::StoreWrite,
{
    let bytes = encode_state(InsertTaskState::Inserting);
    match bucket_set(task_bucket, video_id, &bytes) {
        Ok(_) => Ok(()),
        Err(_) => Err(MigrateError::StoreWrite),
    }
}

/// Persists `Inserted` for the identifier, immediately after a confirmed
/// success.
pub fn mark_inserted(task_bucket: &StoreBucket, video_id: &String) -> (r: Result<
    (),
    MigrateError,
>)
    ensures
        r matches Err(e) ==> e == MigrateError::StoreWrite,
{
    let bytes = encode_state(InsertTaskState::Inserted);
    match bucket_set(task_bucket, video_id, &bytes) {
        Ok(_) => Ok(()),
        Err(_) => Err(MigrateError::StoreWrite),
    }
}

/// Everything the real run needs once selection is done: the task partition
/// handle, the selection counters, and the engine over the qualifying set.
pub struct DispatchPlan {
    pub task_bucket: StoreBucket,
    pub total: usize,
    pub skipped_inserted: usize,
    pub skipped_cutoff: usize,
    pub dispatcher: Dispatcher,
}

/// The real-mode selection pass: loads every record with its task state,
/// applies the cutoff and skips records already `Inserted`, and builds the
/// dispatch engine over the qualifying set. The selection rule is stated on
/// `select_work`; here its input comes from disk.
pub fn prepare_dispatch(cutoff: u64) -> (r: Result<DispatchPlan, MigrateError>)
    ensures
        r matches Ok(p) ==> {
            &&& p.dispatcher.wf()
            &&& !p.dispatcher.aborted()
            &&& p.dispatcher.completed() == 0
            &&& p.dispatcher.next_index() == 0
            &&& unique_keys(p.dispatcher.work_items())
        },
        // selection only reads: it can never fail with a write error
        r matches Err(e) ==> e != MigrateError::StoreWrite,
{
    let store = match open_store() {
        Ok(s) => s,
        Err(e) => {
            return Err(e);
        },
    };
    let hash_bucket = match get_hash_bucket(&store) {
        Ok(b) => b,
        Err(e) => {
            return Err(e);
        },
    };
    let task_bucket = match get_task_bucket(&store) {
        Ok(b) => b,
        Err(e) => {
            return Err(e);
        },
    };
    let entries = match crate::check::load_entries(&hash_bucket, Some(&task_bucket)) {
        Ok(v) => v,
        Err(e) => {
            return Err(e);
        },
    };
    let sel: Selection = select_work(&entries, cutoff, true);
    let dispatcher = Dispatcher::new(sel.work_items);
    Ok(
        DispatchPlan {
            task_bucket,
            total: sel.total,
            skipped_inserted: sel.skipped_inserted,
            skipped_cutoff: sel.skipped_cutoff,
            dispatcher,
        },
    )
}

} // verus!
