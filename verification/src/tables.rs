use vstd::prelude::*;

use crate::MigrateError;

verus! {

/// One merged record of the hash partition: the content hash and the earliest
/// creation time (nanoseconds since the Unix epoch) observed for an identifier.
pub struct VideoHashFromBQ {
    pub video_hash: String,
    pub timestamp: u64,
}

/// Mathematical model of a hash record.
pub ghost struct HashRecordModel {
    pub video_hash: Seq<char>,
    pub timestamp: int,
}

impl View for VideoHashFromBQ {
    type V = HashRecordModel;

    open spec fn view(&self) -> HashRecordModel {
        HashRecordModel { video_hash: self.video_hash@, timestamp: self.timestamp as int }
    }
}

impl Clone for VideoHashFromBQ {
    fn clone(&self) -> (r: Self)
        ensures
            r == *self,
    {
        VideoHashFromBQ { video_hash: self.video_hash.clone(), timestamp: self.timestamp }
    }
}

/// The per-identifier task state of the dispatch engine. Absence of an entry
/// in the task partition reads as `ToBeInserted`. Transitions only move
/// forward: `ToBeInserted` to `Inserting` to `Inserted`.
#[derive(Clone, Copy, Debug, PartialEq, Eq, Structural)]
pub enum InsertTaskState {
    ToBeInserted,
    Inserting,
    Inserted,
}

impl Default for InsertTaskState {
    fn default() -> (r: Self)
        ensures
            r == InsertTaskState::ToBeInserted,
    {
        InsertTaskState::ToBeInserted
    }
}

/// How far along the forward-only task lifecycle a state is.
pub open spec fn state_rank(s: InsertTaskState) -> int {
    match s {
        InsertTaskState::ToBeInserted => 0,
        InsertTaskState::Inserting => 1,
        InsertTaskState::Inserted => 2,
    }
}

/// Declares kv::Store, the handle to the sled-backed durable store, as an
/// opaque type.
#[verifier::external_type_specification]
#[verifier::external_body]
pub struct ExStore(kv::Store);

/// Declares kv::Error, the store's own error type, as an opaque type; it is
/// mapped to MigrateError as soon as it reaches verified code.
#[verifier::external_type_specification]
#[verifier::external_body]
pub struct ExKvError(kv::Error);

/// One open partition of the store, holding raw value bytes under string
/// keys. kv::Bucket itself cannot be declared to the verifier (its generics
/// are bounded by kv's own traits), so the handle sits in a field the
/// verifier does not read.
#[verifier::external_body]
pub struct StoreBucket {
    bucket: kv::Bucket<'static, String, Vec<u8>>,
}

/// Relies on kv::Store::new and kv::Config::new: opens (creating it if
/// needed) the sled-backed store in the given directory.
#[verifier::external_body]
fn store_open(path: &str) -> (r: Result<kv::Store, kv::Error>) {
    kv::Store::new(kv::Config::new(path))
}

/// Relies on kv::Store::bucket: opens the named partition with string keys
/// and raw byte values.
#[verifier::external_body]
fn store_bucket(store: &kv::Store, name: &str) -> (r: Result<StoreBucket, kv::Error>) {
    match store.bucket::<String, Vec<u8>>(Some(name)) {
        Ok(bucket) => Ok(StoreBucket { bucket }),
        Err(e) => Err(e),
    }
}

/// Relies on kv::Bucket::get: reads the value bytes stored under `key`, if
/// any. What comes back depends on the state of the store on disk.
#[verifier::external_body]
pub(crate) fn bucket_get(bucket: &StoreBucket, key: &String) -> (r: Result<
    Option<Vec<u8>>,
    kv::Error,
>) {
    bucket.bucket.get(key)
}

/// Relies on kv::Bucket::set: durably writes `value` under `key`, replacing
/// any previous value; the previous value is discarded.
#[verifier::external_body]
pub(crate) fn bucket_set(bucket: &StoreBucket, key: &String, value: &Vec<u8>) -> (r: Result<
    (),
    kv::Error,
>) {
    match bucket.bucket.set(key, value) {
        Ok(_) => Ok(()),
        Err(e) => Err(e),
    }
}

/// Relies on kv::Bucket::len: the number of entries in the partition.
#[verifier::external_body]
pub(crate) fn bucket_len(bucket: &StoreBucket) -> (r: usize) {
    bucket.bucket.len()
}

/// Relies on kv::Bucket::iter and kv::bucket::Item::{key, value}: walks the
/// whole partition and hands every key / value-bytes pair out as plain values.
#[verifier::external_body]
pub(crate) fn bucket_scan(bucket: &StoreBucket) -> (r: Result<
    Vec<(String, Vec<u8>)>,
    kv::Error,
>) {
    let mut out = Vec::new();
    for item in bucket.bucket.iter() {
        let item = item?;
        let key: String = item.key()?;
        let value: Vec<u8> = item.value()?;
        out.push((key, value));
    }
    Ok(out)
}

/// Opens the durable store in its fixed directory.
pub fn open_store() -> (r: Result<kv::Store, MigrateError>)
    ensures
        r matches Err(e) ==> e == MigrateError::StoreOpen,
{
    match store_open("./store") {
        Ok(s) => Ok(s),
        Err(_) => Err(MigrateError::StoreOpen),
    }
}

/// Opens the partition mapping identifier to merged hash record.
pub fn get_hash_bucket(store: &kv::Store) -> (r: Result<StoreBucket, MigrateError>)
    ensures
        r matches Err(e) ==> e == MigrateError::StoreBucket,
{
    match store_bucket(store, "video_hash_from_bq") {
        Ok(b) => Ok(b),
        Err(_) => Err(MigrateError::StoreBucket),
    }
}

/// Opens the partition mapping identifier to dispatch task state.
pub fn get_task_bucket(store: &kv::Store) -> (r: Result<StoreBucket, MigrateError>)
    ensures
        r matches Err(e) ==> e == MigrateError::StoreBucket,
{
    match store_bucket(store, "insert_task_state") {
        Ok(b) => Ok(b),
        Err(_) => Err(MigrateError::StoreBucket),
    }
}

/// The number of identifiers currently present in a partition.
pub fn bucket_count(bucket: &StoreBucket) -> usize {
    bucket_len(bucket)
}

} // verus!
