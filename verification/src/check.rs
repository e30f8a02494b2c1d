use vstd::prelude::*;
use vstd::multiset::Multiset;

use crate::MigrateError;
use crate::codec::{decode_record, decode_state, spec_decode_record, spec_decode_state};
use crate::tables::{HashRecordModel, InsertTaskState, StoreBucket, VideoHashFromBQ, bucket_get,
    bucket_scan, get_hash_bucket, open_store};

verus! {

/// What the work selector does with one scanned record.
#[derive(Clone, Copy, Debug, PartialEq, Eq, Structural)]
pub enum WorkDecision {
    /// The record is still eligible for dispatch.
    Include,
    /// Real mode only: the record already reached `Inserted`.
    SkipInserted,
    /// The record's timestamp is at or past the cutoff.
    SkipCutoff,
}

/// One scanned entry: an identifier, its merged hash record, and its task
/// state (`ToBeInserted` where the task partition has no entry).
pub struct WorkEntry {
    pub video_id: String,
    pub record: VideoHashFromBQ,
    pub state: InsertTaskState,
}

/// The selection rule. Records already `Inserted` are skipped first (real
/// mode only); then the cutoff excludes every record whose timestamp is
/// greater than or equal to it — only strictly earlier records qualify.
pub open spec fn spec_select(
    state: InsertTaskState,
    timestamp: int,
    cutoff: int,
    real_mode: bool,
) -> WorkDecision {
    if real_mode && state is Inserted {
        WorkDecision::SkipInserted
    } else if timestamp >= cutoff {
        WorkDecision::SkipCutoff
    } else {
        WorkDecision::Include
    }
}

/// The decision for one whole entry.
pub open spec fn spec_select_entry(e: WorkEntry, cutoff: int, real_mode: bool) -> WorkDecision {
    spec_select(e.state, e.record.timestamp as int, cutoff, real_mode)
}

/// Applies the selection rule to one record.
pub fn select_record(
    state: InsertTaskState,
    timestamp: u64,
    cutoff: u64,
    real_mode: bool,
) -> (d: WorkDecision)
    ensures
        d == spec_select(state, timestamp as int, cutoff as int, real_mode),
{
    if real_mode && matches!(state, InsertTaskState::Inserted) {
        WorkDecision::SkipInserted
    } else if timestamp >= cutoff {
        WorkDecision::SkipCutoff
    } else {
        WorkDecision::Include
    }
}

/// How many entries of the sequence get the given decision.
pub open spec fn count_decision(
    e: Seq<WorkEntry>,
    cutoff: int,
    real_mode: bool,
    dec: WorkDecision,
) -> int
    decreases e.len(),
{
    if e.len() == 0 {
        0
    } else {
        count_decision(e.drop_last(), cutoff, real_mode, dec) + if spec_select_entry(
            e.last(),
            cutoff,
            real_mode,
        ) == dec {
            1int
        } else {
            0int
        }
    }
}

/// The qualifying set as a map keyed by identifier: entries are folded in
/// order and a later occurrence of an identifier overwrites an earlier one.
pub open spec fn spec_work_map(e: Seq<WorkEntry>, cutoff: int, real_mode: bool) -> Map<
    Seq<char>,
    HashRecordModel,
>
    decreases e.len(),
{
    if e.len() == 0 {
        Map::empty()
    } else {
        let m = spec_work_map(e.drop_last(), cutoff, real_mode);
        let l = e.last();
        if spec_select_entry(l, cutoff, real_mode) is Include {
            m.insert(l.video_id@, l.record@)
        } else {
            m
        }
    }
}

/// The map a list of qualifying pairs stands for.
pub open spec fn pairs_to_map(s: Seq<(String, VideoHashFromBQ)>) -> Map<Seq<char>, HashRecordModel>
    decreases s.len(),
{
    if s.len() == 0 {
        Map::empty()
    } else {
        pairs_to_map(s.drop_last()).insert(s.last().0@, s.last().1@)
    }
}

/// No two pairs of the list share an identifier.
pub open spec fn unique_keys(s: Seq<(String, VideoHashFromBQ)>) -> bool {
    forall|i: int, j: int| 0 <= i < j < s.len() ==> s[i].0@ != s[j].0@
}

proof fn lemma_pairs_dom(s: Seq<(String, VideoHashFromBQ)>, id: Seq<char>)
    ensures
        pairs_to_map(s).dom().contains(id) <==> exists|i: int| 0 <= i < s.len() && s[i].0@ == id,
        pairs_to_map(s).dom().finite(),
    decreases s.len(),
{
    if s.len() > 0 {
        lemma_pairs_dom(s.drop_last(), id);
        if pairs_to_map(s).dom().contains(id) {
            if s.last().0@ == id {
                assert(s[s.len() - 1].0@ == id);
            }
        }
        if exists|i: int| 0 <= i < s.len() && s[i].0@ == id {
            let i = choose|i: int| 0 <= i < s.len() && s[i].0@ == id;
            if i < s.len() - 1 {
                assert(s.drop_last()[i].0@ == id);
            }
        }
    }
}

proof fn lemma_pairs_len(s: Seq<(String, VideoHashFromBQ)>)
    requires
        unique_keys(s),
    ensures
        pairs_to_map(s).dom().len() == s.len(),
        pairs_to_map(s).dom().finite(),
    decreases s.len(),
{
    if s.len() > 0 {
        let pre = s.drop_last();
        assert(unique_keys(pre)) by {
            assert forall|i: int, j: int| 0 <= i < j < pre.len() implies pre[i].0@ != pre[j].0@ by {
                assert(s[i].0@ != s[j].0@);
            }
        }
        lemma_pairs_len(pre);
        lemma_pairs_dom(pre, s.last().0@);
        assert(!pairs_to_map(pre).dom().contains(s.last().0@)) by {
            if exists|i: int| 0 <= i < pre.len() && pre[i].0@ == s.last().0@ {
                let i = choose|i: int| 0 <= i < pre.len() && pre[i].0@ == s.last().0@;
                assert(s[i].0@ == s[s.len() - 1].0@);
            }
        }
        vstd::set_lib::lemma_len_union::<Seq<char>>(
            pairs_to_map(pre).dom(),
            set![s.last().0@],
        );
        assert(pairs_to_map(s).dom() =~= pairs_to_map(pre).dom() + set![s.last().0@]);
        assert(set![s.last().0@].len() == 1) by {
            assert(set![s.last().0@].contains(s.last().0@));
        }
    }
}

proof fn lemma_pairs_update(s: Seq<(String, VideoHashFromBQ)>, k: int, p: (String, VideoHashFromBQ))
    requires
        0 <= k < s.len(),
        s[k].0@ == p.0@,
        unique_keys(s),
    ensures
        pairs_to_map(s.update(k, p)) == pairs_to_map(s).insert(p.0@, p.1@),
        unique_keys(s.update(k, p)),
    decreases s.len(),
{
    let s2 = s.update(k, p);
    assert(unique_keys(s2)) by {
        assert forall|i: int, j: int| 0 <= i < j < s2.len() implies s2[i].0@ != s2[j].0@ by {
            assert(s[i].0@ != s[j].0@);
        }
    }
    if k == s.len() - 1 {
        assert(s2.drop_last() =~= s.drop_last());
        assert(pairs_to_map(s2) =~= pairs_to_map(s).insert(p.0@, p.1@));
    } else {
        let pre = s.drop_last();
        assert(unique_keys(pre)) by {
            assert forall|i: int, j: int| 0 <= i < j < pre.len() implies pre[i].0@ != pre[j].0@ by {
                assert(s[i].0@ != s[j].0@);
            }
        }
        lemma_pairs_update(pre, k, p);
        assert(s2.drop_last() =~= pre.update(k, p));
        assert(s2.last() == s.last());
        // the updated key differs from the last key, so the two inserts commute
        assert(s[k].0@ != s.last().0@) by {
            assert(s[k].0@ != s[s.len() - 1].0@);
        }
        assert(pairs_to_map(s2) =~= pairs_to_map(s).insert(p.0@, p.1@));
    }
}

/// What the work selector returns: counters and the qualifying records.
pub struct Selection {
    pub total: usize,
    pub skipped_inserted: usize,
    pub skipped_cutoff: usize,
    pub work_items: Vec<(String, VideoHashFromBQ)>,
}

fn find_key(items: &Vec<(String, VideoHashFromBQ)>, key: &String) -> (r: Option<usize>)
    ensures
        match r {
            Some(i) => i < items@.len() && items@[i as int].0@ == key@,
            None => forall|j: int| 0 <= j < items@.len() ==> items@[j].0@ != key@,
        },
{
    let mut i: usize = 0;
    while i < items.len()
        invariant
            i <= items@.len(),
            forall|j: int| 0 <= j < i ==> items@[j].0@ != key@,
        decreases items@.len() - i,
    {
        if items[i].0 == *key {
            return Some(i);
        }
        i += 1;
    }
    None
}

/// The work selector: applies the selection rule to every scanned entry, in
/// order, counting each skip reason, and accumulates the qualifying records
/// keyed by identifier, so that each identifier appears at most once and a
/// later occurrence overwrites an earlier one.
pub fn select_work(entries: &Vec<WorkEntry>, cutoff: u64, real_mode: bool) -> (r: Selection)
    ensures
        r.total == entries@.len(),
        r.skipped_inserted == count_decision(
            entries@,
            cutoff as int,
            real_mode,
            WorkDecision::SkipInserted,
        ),
        r.skipped_cutoff == count_decision(
            entries@,
            cutoff as int,
            real_mode,
            WorkDecision::SkipCutoff,
        ),
        pairs_to_map(r.work_items@) == spec_work_map(entries@, cutoff as int, real_mode),
        unique_keys(r.work_items@),
        r.work_items@.len() == spec_work_map(entries@, cutoff as int, real_mode).dom().len(),
        r.work_items@.len() <= entries@.len(),
        r.skipped_inserted <= entries@.len() && r.skipped_cutoff <= entries@.len(),
{
    let mut skipped_inserted: usize = 0;
    let mut skipped_cutoff: usize = 0;
    let mut work_items: Vec<(String, VideoHashFromBQ)> = Vec::new();
    let mut i: usize = 0;
    while i < entries.len()
        invariant
            i <= entries@.len(),
            skipped_inserted == count_decision(
                entries@.take(i as int),
                cutoff as int,
                real_mode,
                WorkDecision::SkipInserted,
            ),
            skipped_cutoff == count_decision(
                entries@.take(i as int),
                cutoff as int,
                real_mode,
                WorkDecision::SkipCutoff,
            ),
            pairs_to_map(work_items@) == spec_work_map(
                entries@.take(i as int),
                cutoff as int,
                real_mode,
            ),
            unique_keys(work_items@),
            skipped_inserted <= i && skipped_cutoff <= i && work_items@.len() <= i,
        decreases entries@.len() - i,
    {
        let e = &entries[i];
        proof {
            assert(entries@.take(i + 1).drop_last() =~= entries@.take(i as int));
            assert(entries@.take(i + 1).last() == entries@[i as int]);
        }
        let d = select_record(e.state, e.record.timestamp, cutoff, real_mode);
        match d {
            WorkDecision::SkipInserted => {
                skipped_inserted += 1;
            },
            WorkDecision::SkipCutoff => {
                skipped_cutoff += 1;
            },
            WorkDecision::Include => {
                let pair = (e.video_id.clone(), e.record.clone());
                let ghost before = work_items@;
                match find_key(&work_items, &e.video_id) {
                    Some(k) => {
                        proof {
                            lemma_pairs_update(before, k as int, pair);
                        }
                        work_items.remove(k);
                        work_items.insert(k, pair);
                        proof {
                            assert(work_items@ =~= before.update(k as int, pair));
                        }
                    },
                    None => {
                        work_items.push(pair);
                        proof {
                            assert(work_items@.drop_last() =~= before);
                            assert(work_items@.last() == pair);
                            assert forall|a: int, b: int|
                                0 <= a < b < work_items@.len() implies work_items@[a].0@
                                != work_items@[b].0@ by {
                                if b == work_items@.len() - 1 {
                                    assert(before[a].0@ != pair.0@);
                                } else {
                                    assert(before[a].0@ != before[b].0@);
                                }
                            }
                        }
                    },
                }
            },
        }
        i += 1;
    }
    proof {
        assert(entries@.take(entries@.len() as int) =~= entries@);
        lemma_pairs_len(work_items@);
    }
    Selection { total: entries.len(), skipped_inserted, skipped_cutoff, work_items }
}

/// A descending-sorted sequence with `x` put in its place.
pub open spec fn insert_desc(s: Seq<u64>, x: u64) -> Seq<u64>
    decreases s.len(),
{
    if s.len() == 0 {
        seq![x]
    } else if x >= s[0] {
        seq![x] + s
    } else {
        seq![s[0]] + insert_desc(s.drop_first(), x)
    }
}

/// The descending-sorted version of a sequence of timestamps.
pub open spec fn spec_sort_desc(s: Seq<u64>) -> Seq<u64>
    decreases s.len(),
{
    if s.len() == 0 {
        Seq::empty()
    } else {
        insert_desc(spec_sort_desc(s.drop_first()), s[0])
    }
}

/// Non-increasing order.
pub open spec fn sorted_desc(s: Seq<u64>) -> bool {
    forall|i: int, j: int| 0 <= i <= j < s.len() ==> s[i] >= s[j]
}

proof fn lemma_insert_desc_at(s: Seq<u64>, x: u64, j: int)
    requires
        0 <= j <= s.len(),
        forall|k: int| 0 <= k < j ==> s[k] > x,
        j == s.len() || s[j] <= x,
    ensures
        insert_desc(s, x) == s.take(j) + seq![x] + s.skip(j),
    decreases s.len(),
{
    if s.len() == 0 {
        assert(insert_desc(s, x) =~= s.take(j) + seq![x] + s.skip(j));
    } else if x >= s[0] {
        assert(j == 0);
        assert(seq![x] + s =~= s.take(0) + seq![x] + s.skip(0));
    } else {
        assert(j >= 1) by {
            if j == 0 {
                assert(s[0] <= x);
            }
        }
        lemma_insert_desc_at(s.drop_first(), x, j - 1);
        assert(seq![s[0]] + (s.drop_first().take(j - 1) + seq![x] + s.drop_first().skip(j - 1))
            =~= s.take(j) + seq![x] + s.skip(j));
    }
}

/// The sorted version of a sequence really is in descending order and keeps
/// its length.
pub proof fn lemma_sort_desc_sorted(s: Seq<u64>)
    ensures
        sorted_desc(spec_sort_desc(s)),
        spec_sort_desc(s).len() == s.len(),
    decreases s.len(),
{
    if s.len() > 0 {
        lemma_sort_desc_sorted(s.drop_first());
        lemma_insert_desc_sorted(spec_sort_desc(s.drop_first()), s[0]);
    }
}

proof fn lemma_insert_desc_sorted(s: Seq<u64>, x: u64)
    requires
        sorted_desc(s),
    ensures
        sorted_desc(insert_desc(s, x)),
        insert_desc(s, x).len() == s.len() + 1,
    decreases s.len(),
{
    if s.len() == 0 {
    } else if x >= s[0] {
        assert forall|i: int, j: int|
            0 <= i <= j < (seq![x] + s).len() implies (seq![x] + s)[i] >= (seq![x] + s)[j] by {
            if i == 0 && j > 0 {
                assert(s[0] >= s[j - 1]);
            }
        }
    } else {
        assert(sorted_desc(s.drop_first()));
        lemma_insert_desc_sorted(s.drop_first(), x);
        let t = insert_desc(s.drop_first(), x);
        assert forall|i: int, j: int|
            0 <= i <= j < (seq![s[0]] + t).len() implies (seq![s[0]] + t)[i] >= (seq![s[0]]
            + t)[j] by {
            if i == 0 && j > 0 {
                // the head dominates everything inserted behind it
                if t.len() == 1 {
                } else if x >= s.drop_first()[0] {
                    if j - 1 > 0 {
                        assert(t[j - 1] == (seq![x] + s.drop_first())[j - 1]);
                    }
                } else {
                }
                assert(t[j - 1] <= s[0]) by {
                    lemma_insert_desc_members(s.drop_first(), x, j - 1);
                }
            }
        }
    }
}

proof fn lemma_insert_desc_members(s: Seq<u64>, x: u64, i: int)
    requires
        0 <= i < insert_desc(s, x).len(),
    ensures
        insert_desc(s, x)[i] == x || exists|k: int| 0 <= k < s.len() && s[k] == insert_desc(s, x)[i],
    decreases s.len(),
{
    if s.len() == 0 {
    } else if x >= s[0] {
        if i > 0 {
            assert(s[i - 1] == insert_desc(s, x)[i]);
        }
    } else {
        if i == 0 {
            assert(s[0] == insert_desc(s, x)[0]);
        } else {
            lemma_insert_desc_members(s.drop_first(), x, i - 1);
            if insert_desc(s.drop_first(), x)[i - 1] != x {
                let k = choose|k: int|
                    0 <= k < s.drop_first().len() && s.drop_first()[k] == insert_desc(
                        s.drop_first(),
                        x,
                    )[i - 1];
                assert(s[k + 1] == insert_desc(s, x)[i]);
            }
        }
    }
}

proof fn lemma_singleton_multiset(x: u64)
    ensures
        seq![x].to_multiset() == Multiset::<u64>::empty().insert(x),
{
    broadcast use vstd::multiset::group_multiset_axioms;

    assert(seq![x] =~= Seq::<u64>::empty().push(x));
    vstd::seq_lib::to_multiset_build(Seq::<u64>::empty(), x);
    Seq::<u64>::empty().to_multiset_ensures();
    assert(Seq::<u64>::empty().to_multiset() =~= Multiset::<u64>::empty());
}

proof fn lemma_insert_desc_multiset(s: Seq<u64>, x: u64)
    ensures
        insert_desc(s, x).to_multiset() == s.to_multiset().insert(x),
    decreases s.len(),
{
    broadcast use vstd::multiset::group_multiset_axioms;

    lemma_singleton_multiset(x);
    if s.len() == 0 {
        assert(s =~= Seq::<u64>::empty());
        Seq::<u64>::empty().to_multiset_ensures();
        assert(Seq::<u64>::empty().to_multiset() =~= Multiset::<u64>::empty());
    } else if x >= s[0] {
        vstd::seq_lib::lemma_multiset_commutative(seq![x], s);
        assert(Multiset::<u64>::empty().insert(x).add(s.to_multiset()) =~= s.to_multiset().insert(
            x,
        ));
    } else {
        lemma_insert_desc_multiset(s.drop_first(), x);
        lemma_singleton_multiset(s[0]);
        vstd::seq_lib::lemma_multiset_commutative(seq![s[0]], insert_desc(s.drop_first(), x));
        assert(s =~= seq![s[0]] + s.drop_first());
        vstd::seq_lib::lemma_multiset_commutative(seq![s[0]], s.drop_first());
        assert(seq![s[0]].to_multiset().add(s.drop_first().to_multiset().insert(x))
            =~= seq![s[0]].to_multiset().add(s.drop_first().to_multiset()).insert(x));
    }
}

/// The sorted version of a sequence holds exactly the same timestamps, each
/// as often as before: the ten latest really come from the qualifying set.
pub proof fn lemma_sort_desc_permutes(s: Seq<u64>)
    ensures
        spec_sort_desc(s).to_multiset() == s.to_multiset(),
    decreases s.len(),
{
    broadcast use vstd::multiset::group_multiset_axioms;

    if s.len() > 0 {
        let rest = s.drop_first();
        lemma_sort_desc_permutes(rest);
        lemma_insert_desc_multiset(spec_sort_desc(rest), s[0]);
        lemma_singleton_multiset(s[0]);
        assert(s =~= seq![s[0]] + rest);
        vstd::seq_lib::lemma_multiset_commutative(seq![s[0]], rest);
        assert(Multiset::<u64>::empty().insert(s[0]).add(rest.to_multiset())
            =~= rest.to_multiset().insert(s[0]));
        assert(spec_sort_desc(s).to_multiset() == rest.to_multiset().insert(s[0]));
        assert(s.to_multiset() == (seq![s[0]] + rest).to_multiset());
        assert(s.to_multiset() == rest.to_multiset().insert(s[0]));
    } else {
        assert(s =~= Seq::<u64>::empty());
    }
}

/// Sorts a list of timestamps into descending order.
pub fn sort_timestamps_desc(ts: &Vec<u64>) -> (r: Vec<u64>)
    ensures
        r@ == spec_sort_desc(ts@),
{
    let mut out: Vec<u64> = Vec::new();
    let mut i: usize = ts.len();
    proof {
        assert(ts@.skip(ts@.len() as int) =~= Seq::<u64>::empty());
    }
    while i > 0
        invariant
            i <= ts@.len(),
            out@ == spec_sort_desc(ts@.skip(i as int)),
        decreases i,
    {
        i -= 1;
        let x = ts[i];
        let mut j: usize = 0;
        while j < out.len() && out[j] > x
            invariant
                j <= out@.len(),
                forall|k: int| 0 <= k < j ==> out@[k] > x,
            decreases out@.len() - j,
        {
            j += 1;
        }
        let ghost before = out@;
        out.insert(j, x);
        proof {
            lemma_insert_desc_at(before, x, j as int);
            assert(out@ =~= before.take(j as int) + seq![x] + before.skip(j as int));
            assert(ts@.skip(i as int).drop_first() =~= ts@.skip(i + 1));
            assert(ts@.skip(i as int)[0] == ts@[i as int]);
        }
    }
    proof {
        assert(ts@.skip(0) =~= ts@);
    }
    out
}

/// The RFC 3339 text of a timestamp in nanoseconds since the Unix epoch.
pub uninterp spec fn rfc3339_of(nanos: u64) -> Seq<char>;

/// Relies on chrono::DateTime::<Utc>::from_timestamp_nanos and
/// DateTime::to_rfc3339: the RFC 3339 text of a timestamp, a function of the
/// nanosecond value alone. Values past i64::MAX wrap as a plain cast does.
#[verifier::external_body]
pub fn format_rfc3339(nanos: u64) -> (r: String)
    ensures
        r@ == rfc3339_of(nanos),
{
    chrono::DateTime::<chrono::Utc>::from_timestamp_nanos(nanos as i64).to_rfc3339()
}

/// The timestamp of each qualifying pair.
pub open spec fn timestamps_of(s: Seq<(String, VideoHashFromBQ)>) -> Seq<u64> {
    s.map_values(|p: (String, VideoHashFromBQ)| p.1.timestamp)
}

/// The `count` latest timestamps among the given records, formatted as
/// RFC 3339 text, latest first.
pub fn top_timestamps(work_items: &Vec<(String, VideoHashFromBQ)>, count: usize) -> (r: Vec<
    String,
>)
    ensures
        ({
            let sorted = spec_sort_desc(timestamps_of(work_items@));
            &&& r@.len() == (if count as int <= sorted.len() {
                count as int
            } else {
                sorted.len() as int
            })
            &&& (forall|i: int| 0 <= i < r@.len() ==> r@[i]@ == rfc3339_of(sorted[i]))
        }),
{
    let mut ts: Vec<u64> = Vec::new();
    let mut i: usize = 0;
    while i < work_items.len()
        invariant
            i <= work_items@.len(),
            ts@ == timestamps_of(work_items@.take(i as int)),
        decreases work_items@.len() - i,
    {
        ts.push(work_items[i].1.timestamp);
        proof {
            assert(timestamps_of(work_items@.take(i + 1)) =~= timestamps_of(
                work_items@.take(i as int),
            ).push(work_items@[i as int].1.timestamp));
        }
        i += 1;
    }
    proof {
        assert(work_items@.take(work_items@.len() as int) =~= work_items@);
    }
    let sorted = sort_timestamps_desc(&ts);
    proof {
        lemma_sort_desc_sorted(ts@);
    }
    let limit = if count <= sorted.len() {
        count
    } else {
        sorted.len()
    };
    let mut out: Vec<String> = Vec::new();
    let mut k: usize = 0;
    while k < limit
        invariant
            k <= limit,
            limit <= sorted@.len(),
            sorted@ == spec_sort_desc(timestamps_of(work_items@)),
            limit as int == (if count as int <= sorted@.len() {
                count as int
            } else {
                sorted@.len() as int
            }),
            out@.len() == k,
            forall|i: int| 0 <= i < k ==> out@[i]@ == rfc3339_of(sorted@[i]),
        decreases limit - k,
    {
        out.push(format_rfc3339(sorted[k]));
        k += 1;
    }
    out
}

/// The record bytes at position `i` decode.
pub open spec fn record_decodes(pairs: Seq<(String, Vec<u8>)>, i: int) -> bool {
    spec_decode_record(pairs[i].1@) is Some
}

/// The state bytes at position `i` decode; an absent entry always does.
pub open spec fn state_decodes(states: Seq<Option<Vec<u8>>>, i: int) -> bool {
    match states[i] {
        Option::Some(b) => spec_decode_state(b@) is Some,
        Option::None => true,
    }
}

/// The task state the bytes at position `i` stand for: absence of an entry
/// reads as `ToBeInserted`.
pub open spec fn spec_state_of(states: Seq<Option<Vec<u8>>>, i: int) -> InsertTaskState {
    match states[i] {
        Option::Some(b) => spec_decode_state(b@)->Some_0,
        Option::None => InsertTaskState::ToBeInserted,
    }
}

/// Builds the selector's input from raw store values: the i-th entry pairs
/// the i-th scanned identifier with its decoded record and its decoded task
/// state, an absent task entry reading as `ToBeInserted`. A value that does
/// not decode is corruption and fatal, never skipped.
pub fn entries_of(pairs: &Vec<(String, Vec<u8>)>, states: &Vec<Option<Vec<u8>>>) -> (r: Result<
    Vec<WorkEntry>,
    MigrateError,
>)
    requires
        pairs@.len() == states@.len(),
    ensures
        match r {
            Ok(v) => {
                &&& v@.len() == pairs@.len()
                &&& (forall|i: int|
                    0 <= i < pairs@.len() ==> #[trigger] record_decodes(pairs@, i)
                        && state_decodes(states@, i))
                &&& (forall|i: int|
                    0 <= i < pairs@.len() ==> (#[trigger] v@[i]).video_id@ == pairs@[i].0@
                        && spec_decode_record(pairs@[i].1@) == Some(v@[i].record@) && v@[i].state
                        == spec_state_of(states@, i))
            },
            Err(e) => {
                &&& (e == MigrateError::CorruptRecord || e == MigrateError::CorruptState)
                &&& (e == MigrateError::CorruptRecord ==> exists|i: int|
                    0 <= i < pairs@.len() && !(#[trigger] record_decodes(pairs@, i)))
                &&& (e == MigrateError::CorruptState ==> exists|i: int|
                    0 <= i < pairs@.len() && #[trigger] record_decodes(pairs@, i) && !state_decodes(
                        states@,
                        i,
                    ))
            },
        },
{
    let mut entries: Vec<WorkEntry> = Vec::new();
    let mut i: usize = 0;
    while i < pairs.len()
        invariant
            i <= pairs@.len(),
            pairs@.len() == states@.len(),
            entries@.len() == i,
            forall|j: int| 0 <= j < i ==> #[trigger] record_decodes(pairs@, j),
            forall|j: int| 0 <= j < i ==> #[trigger] state_decodes(states@, j),
            forall|j: int|
                0 <= j < i ==> (#[trigger] entries@[j]).video_id@ == pairs@[j].0@
                    && spec_decode_record(pairs@[j].1@) == Some(entries@[j].record@)
                    && entries@[j].state == spec_state_of(states@, j),
        decreases pairs@.len() - i,
    {
        let record = match decode_record(&pairs[i].1) {
            Some(v) => v,
            None => {
                proof {
                    assert(!record_decodes(pairs@, i as int));
                }
                return Err(MigrateError::CorruptRecord);
            },
        };
        let state = match &states[i] {
            Some(sbytes) => match decode_state(sbytes) {
                Some(s) => s,
                None => {
                    proof {
                        assert(record_decodes(pairs@, i as int));
                        assert(!state_decodes(states@, i as int));
                    }
                    return Err(MigrateError::CorruptState);
                },
            },
            None => InsertTaskState::ToBeInserted,
        };
        proof {
            assert(record_decodes(pairs@, i as int));
            assert(state_decodes(states@, i as int));
            assert(state == spec_state_of(states@, i as int));
        }
        entries.push(WorkEntry { video_id: pairs[i].0.clone(), record, state });
        i += 1;
    }
    Ok(entries)
}

/// Reads the whole hash partition and, when a task partition is given (the
/// real run), each identifier's task state bytes; `entries_of` then fixes
/// what the raw values become. The dry run reads no task state: every entry
/// gets `ToBeInserted`.
pub fn load_entries(hash_bucket: &StoreBucket, task_bucket: Option<&StoreBucket>) -> (r: Result<
    Vec<WorkEntry>,
    MigrateError,
>)
    ensures
        r matches Err(e) ==> (e == MigrateError::StoreRead || e == MigrateError::CorruptRecord || e
            == MigrateError::CorruptState),
{
    let pairs = match bucket_scan(hash_bucket) {
        Ok(p) => p,
        Err(_) => {
            return Err(MigrateError::StoreRead);
        },
    };
    let mut states: Vec<Option<Vec<u8>>> = Vec::new();
    let mut i: usize = 0;
    while i < pairs.len()
        invariant
            i <= pairs@.len(),
            states@.len() == i,
        decreases pairs@.len() - i,
    {
        let state_bytes = match task_bucket {
            Some(tb) => match bucket_get(tb, &pairs[i].0) {
                Ok(b) => b,
                Err(_) => {
                    return Err(MigrateError::StoreRead);
                },
            },
            None => None,
        };
        states.push(state_bytes);
        i += 1;
    }
    match entries_of(&pairs, &states) {
        Ok(v) => Ok(v),
        Err(e) => Err(e),
    }
}

/// What the dry-run pass reports: the scan counters and the ten latest
/// qualifying timestamps, latest first, as RFC 3339 text.
pub struct CheckReport {
    pub total: usize,
    pub skipped_cutoff: usize,
    pub eligible: usize,
    pub top_timestamps: Vec<String>,
}

/// The dry-run pass: scans the hash partition, applies the cutoff rule to
/// every record, and reports how many qualify, together with the ten latest
/// qualifying timestamps for cutoff review. No remote call is made and no
/// state is written. The selection rule itself is stated on `select_work`;
/// here its input comes from disk.
pub fn check_cutoff(cutoff: u64) -> (r: Result<CheckReport, MigrateError>)
    ensures
        r matches Ok(rep) ==> rep.eligible <= rep.total && rep.top_timestamps@.len() <= 10,
        // the dry run only reads: it can never fail with a write error
        r matches Err(e) ==> e != MigrateError::StoreWrite,
{
    let store = match open_store() {
        Ok(s) => s,
        Err(e) => {
            return Err(e);
        },
    };
    let hash_bucket = match get_hash_bucket(&store) {
        Ok(b) => b,
        Err(e) => {
            return Err(e);
        },
    };
    let entries = match load_entries(&hash_bucket, None) {
        Ok(v) => v,
        Err(e) => {
            return Err(e);
        },
    };
    let sel = select_work(&entries, cutoff, false);
    let top = top_timestamps(&sel.work_items, 10);
    Ok(
        CheckReport {
            total: sel.total,
            skipped_cutoff: sel.skipped_cutoff,
            eligible: sel.work_items.len(),
            top_timestamps: top,
        },
    )
}

/// Resumption correctness: re-running the selector with the same cutoff
/// after some qualifying identifiers reached `Inserted` selects exactly the
/// earlier qualifying set minus those identifiers; entries whose identifier
/// did not reach `Inserted` are selected as before.
pub proof fn lemma_resumption(
    e1: Seq<WorkEntry>,
    e2: Seq<WorkEntry>,
    done: Set<Seq<char>>,
    cutoff: int,
)
    requires
        e1.len() == e2.len(),
        forall|i: int|
            0 <= i < e1.len() ==> (#[trigger] e2[i]).video_id@ == e1[i].video_id@ && e2[i].record@
                == e1[i].record@,
        forall|i: int|
            0 <= i < e1.len() ==> (#[trigger] e2[i]).state == if done.contains(e1[i].video_id@) {
                InsertTaskState::Inserted
            } else {
                e1[i].state
            },
    ensures
        spec_work_map(e2, cutoff, true) == spec_work_map(e1, cutoff, true).remove_keys(done),
    decreases e1.len(),
{
    if e1.len() == 0 {
        assert(spec_work_map(e2, cutoff, true) =~= spec_work_map(e1, cutoff, true).remove_keys(
            done,
        ));
    } else {
        let p1 = e1.drop_last();
        let p2 = e2.drop_last();
        assert forall|i: int| 0 <= i < p1.len() implies (#[trigger] p2[i]).video_id@
            == p1[i].video_id@ && p2[i].record@ == p1[i].record@ && p2[i].state == (
        if done.contains(p1[i].video_id@) {
            InsertTaskState::Inserted
        } else {
            p1[i].state
        }) by {
            assert(e2[i].video_id@ == e1[i].video_id@);
        }
        lemma_resumption(p1, p2, done, cutoff);
        let l1 = e1.last();
        let l2 = e2.last();
        assert(e2[e1.len() - 1].video_id@ == e1[e1.len() - 1].video_id@);
        let m1 = spec_work_map(p1, cutoff, true);
        let m2 = spec_work_map(p2, cutoff, true);
        if done.contains(l1.video_id@) {
            assert(l2.state is Inserted);
            assert(spec_work_map(e2, cutoff, true) == m2);
            if spec_select_entry(l1, cutoff, true) is Include {
                assert(m1.insert(l1.video_id@, l1.record@).remove_keys(done) =~= m1.remove_keys(
                    done,
                ));
            }
        } else {
            assert(l2.state == l1.state);
            if spec_select_entry(l1, cutoff, true) is Include {
                assert(spec_select_entry(l2, cutoff, true) is Include);
                assert(m2.insert(l2.video_id@, l2.record@) =~= m1.remove_keys(done).insert(
                    l1.video_id@,
                    l1.record@,
                ));
                assert(m1.remove_keys(done).insert(l1.video_id@, l1.record@) =~= m1.insert(
                    l1.video_id@,
                    l1.record@,
                ).remove_keys(done));
            } else {
                assert(spec_select_entry(l2, cutoff, true) == spec_select_entry(l1, cutoff, true));
            }
        }
    }
}

} // verus!
