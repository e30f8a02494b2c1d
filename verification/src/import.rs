use vstd::prelude::*;

use crate::MigrateError;
use crate::codec::{decode_record, encode_record};
use crate::tables::{HashRecordModel, StoreBucket, VideoHashFromBQ, bucket_get, bucket_set};

verus! {

/// A parsed dump line, as a mathematical value: identifier, content hash,
/// creation time.
pub ghost struct DumpLineModel {
    pub video_id: Seq<char>,
    pub videohash: Seq<char>,
    pub created_at: int,
}

/// The timestamp kept after merging a new occurrence into an existing record:
/// the minimum of the two, or the new one where nothing was stored yet.
pub open spec fn merged_timestamp(prev: Option<HashRecordModel>, created_at: int) -> int {
    match prev {
        Some(r) => if r.timestamp <= created_at {
            r.timestamp
        } else {
            created_at
        },
        None => created_at,
    }
}

/// The hash partition after merging one dump line into it.
pub open spec fn import_line_model(
    m: Map<Seq<char>, HashRecordModel>,
    l: DumpLineModel,
) -> Map<Seq<char>, HashRecordModel> {
    let prev = if m.dom().contains(l.video_id) {
        Some(m[l.video_id])
    } else {
        None
    };
    m.insert(
        l.video_id,
        HashRecordModel {
            video_hash: l.videohash,
            timestamp: merged_timestamp(prev, l.created_at),
        },
    )
}

/// The hash partition after merging a whole dump, line by line, in order.
pub open spec fn import_dump_model(
    m: Map<Seq<char>, HashRecordModel>,
    d: Seq<DumpLineModel>,
) -> Map<Seq<char>, HashRecordModel>
    decreases d.len(),
{
    if d.len() == 0 {
        m
    } else {
        import_dump_model(import_line_model(m, d[0]), d.drop_first())
    }
}

/// The smallest creation time a dump holds for an identifier, if any line
/// names it.
pub open spec fn dump_min_ts(d: Seq<DumpLineModel>, id: Seq<char>) -> Option<int>
    decreases d.len(),
{
    if d.len() == 0 {
        None
    } else {
        let rest = dump_min_ts(d.drop_first(), id);
        if d[0].video_id == id {
            match rest {
                Some(r) => if d[0].created_at <= r {
                    Some(d[0].created_at)
                } else {
                    Some(r)
                },
                None => Some(d[0].created_at),
            }
        } else {
            rest
        }
    }
}

/// The content hash of the last line of the dump naming an identifier, if
/// any does.
pub open spec fn dump_last_hash(d: Seq<DumpLineModel>, id: Seq<char>) -> Option<Seq<char>>
    decreases d.len(),
{
    if d.len() == 0 {
        None
    } else {
        let rest = dump_last_hash(d.drop_first(), id);
        match rest {
            Some(h) => Some(h),
            None => if d[0].video_id == id {
                Some(d[0].videohash)
            } else {
                None
            },
        }
    }
}

proof fn lemma_dump_occurs_agree(d: Seq<DumpLineModel>, id: Seq<char>)
    ensures
        dump_min_ts(d, id) is Some <==> dump_last_hash(d, id) is Some,
    decreases d.len(),
{
    if d.len() > 0 {
        lemma_dump_occurs_agree(d.drop_first(), id);
    }
}

/// What one import pass leaves stored under `id`: untouched where the dump
/// never names `id`; otherwise the hash of the last line naming it, with the
/// smallest creation time seen anywhere, the previously stored one included.
proof fn lemma_import_characterization(
    m: Map<Seq<char>, HashRecordModel>,
    d: Seq<DumpLineModel>,
    id: Seq<char>,
)
    ensures
        ({
            let m2 = import_dump_model(m, d);
            match dump_min_ts(d, id) {
                None => m2.dom().contains(id) == m.dom().contains(id) && (m.dom().contains(id)
                    ==> m2[id] == m[id]),
                Some(dmin) => {
                    &&& m2.dom().contains(id)
                    &&& dump_last_hash(d, id) is Some
                    &&& m2[id].video_hash == dump_last_hash(d, id)->Some_0
                    &&& m2[id].timestamp == merged_timestamp(
                        if m.dom().contains(id) {
                            Some(m[id])
                        } else {
                            None
                        },
                        dmin,
                    )
                },
            }
        }),
    decreases d.len(),
{
    lemma_dump_occurs_agree(d, id);
    if d.len() > 0 {
        let m1 = import_line_model(m, d[0]);
        let rest = d.drop_first();
        lemma_import_characterization(m1, rest, id);
        lemma_dump_occurs_agree(rest, id);
    }
}

/// Merge idempotence: importing the same dump a second time changes nothing;
/// the partition after two passes equals the partition after one.
pub proof fn lemma_import_idempotent(m: Map<Seq<char>, HashRecordModel>, d: Seq<DumpLineModel>)
    ensures
        import_dump_model(import_dump_model(m, d), d) == import_dump_model(m, d),
{
    let m1 = import_dump_model(m, d);
    let m2 = import_dump_model(m1, d);
    assert forall|id: Seq<char>| #[trigger] m2.dom().contains(id) implies m1.dom().contains(id)
        && m2[id] == m1[id] by {
        lemma_import_characterization(m, d, id);
        lemma_import_characterization(m1, d, id);
    }
    assert forall|id: Seq<char>| #[trigger] m1.dom().contains(id) implies m2.dom().contains(id) by {
        lemma_import_characterization(m, d, id);
        lemma_import_characterization(m1, d, id);
    }
    assert(m2 =~= m1);
}

/// Merge monotonicity: when an identifier arrives in two imports with
/// creation times t1 and t2, the stored timestamp is the same in either
/// import order, and where nothing was stored before, it is the minimum of
/// the two.
pub proof fn lemma_merge_order_irrelevant(
    m: Map<Seq<char>, HashRecordModel>,
    id: Seq<char>,
    h1: Seq<char>,
    h2: Seq<char>,
    t1: int,
    t2: int,
)
    ensures
        ({
            let a = import_line_model(
                m,
                DumpLineModel { video_id: id, videohash: h1, created_at: t1 },
            );
            let ab = import_line_model(
                a,
                DumpLineModel { video_id: id, videohash: h2, created_at: t2 },
            );
            let b = import_line_model(
                m,
                DumpLineModel { video_id: id, videohash: h2, created_at: t2 },
            );
            let ba = import_line_model(
                b,
                DumpLineModel { video_id: id, videohash: h1, created_at: t1 },
            );
            &&& ab[id].timestamp == ba[id].timestamp
            &&& !m.dom().contains(id) ==> ab[id].timestamp == if t1 <= t2 {
                t1
            } else {
                t2
            }
        }),
{
}

/// The merge of one new occurrence into whatever was stored for its
/// identifier: the new content hash, with the earliest creation time.
pub fn merge_record(prev: Option<VideoHashFromBQ>, videohash: String, created_at: u64) -> (r:
    VideoHashFromBQ)
    ensures
        r@.video_hash == videohash@,
        r@.timestamp == merged_timestamp(
            match prev {
                Some(p) => Some(p@),
                None => None,
            },
            created_at as int,
        ),
{
    let min_time = match prev {
        Some(p) => if p.timestamp <= created_at {
            p.timestamp
        } else {
            created_at
        },
        None => created_at,
    };
    VideoHashFromBQ { video_hash: videohash, timestamp: min_time }
}

/// One step of the ingestion merger: reads what the hash partition stores
/// for `video_id`, merges the new occurrence into it, and writes the merged
/// record back. A stored value that does not decode is corruption and fatal;
/// so is any store failure.
pub fn import_line(
    hash_bucket: &StoreBucket,
    video_id: &String,
    videohash: String,
    created_at: u64,
) -> (r: Result<(), MigrateError>)
    ensures
        r matches Err(e) ==> (e == MigrateError::StoreRead || e == MigrateError::StoreWrite || e
            == MigrateError::CorruptRecord),
{
    let prev_bytes = match bucket_get(hash_bucket, video_id) {
        Ok(p) => p,
        Err(_) => {
            return Err(MigrateError::StoreRead);
        },
    };
    let prev = match prev_bytes {
        Some(bytes) => match decode_record(&bytes) {
            Some(v) => Some(v),
            None => {
                return Err(MigrateError::CorruptRecord);
            },
        },
        None => None,
    };
    let merged = merge_record(prev, videohash, created_at);
    let encoded = encode_record(&merged);
    match bucket_set(hash_bucket, video_id, &encoded) {
        Ok(_) => Ok(()),
        Err(_) => Err(MigrateError::StoreWrite),
    }
}

} // verus!
