use vstd::prelude::*;

pub mod check;
pub mod codec;
pub mod import;
pub mod insert;
pub mod tables;

verus! {

/// Every fatal condition the migration can hit. Store failures and corrupt
/// values abort whichever pass met them; nothing is skipped silently.
#[derive(Clone, Copy, Debug, PartialEq, Eq, Structural)]
pub enum MigrateError {
    /// The durable store could not be opened.
    StoreOpen,
    /// A partition of the store could not be opened.
    StoreBucket,
    /// A read from the store failed.
    StoreRead,
    /// A write to the store failed.
    StoreWrite,
    /// A stored hash record did not decode.
    CorruptRecord,
    /// A stored task state did not decode.
    CorruptState,
}

impl MigrateError {
    /// A human-readable account of the failure.
    pub fn describe(&self) -> (r: String)
        ensures
            r@.len() > 0,
    {
        let msg: &str = match self {
            MigrateError::StoreOpen => "couldn't open the store",
            MigrateError::StoreBucket => "couldn't get the bucket",
            MigrateError::StoreRead => "couldn't read from kv",
            MigrateError::StoreWrite => "couldn't write to kv",
            MigrateError::CorruptRecord => "a stored hash record is corrupt",
            MigrateError::CorruptState => "a stored task state is corrupt",
        };
        proof {
            reveal_strlit("couldn't open the store");
            reveal_strlit("couldn't get the bucket");
            reveal_strlit("couldn't read from kv");
            reveal_strlit("couldn't write to kv");
            reveal_strlit("a stored hash record is corrupt");
            reveal_strlit("a stored task state is corrupt");
        }
        msg.to_owned()
    }
}

} // verus!
