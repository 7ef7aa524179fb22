//! Stream statistics: per-manifest daily sums and the cumulative
//! per-stream stats assembled from every ingestor's metadata.

use vstd::prelude::*;

use crate::strutil::string_eq_str;

verus! {

/// A plain (events, ingestion bytes, storage bytes) triple.
#[derive(Clone, Copy, Debug, PartialEq, Eq, Structural)]
pub struct Stats {
    pub events: u64,
    pub ingestion: u64,
    pub storage: u64,
}

/// One manifest entry of a stream snapshot.  The lower time bound is
/// kept as its calendar date, written `YYYY-MM-DD`.
#[derive(Clone, Debug)]
pub struct Manifest {
    pub time_lower_bound_date: String,
    pub events_ingested: u64,
    pub ingestion_size: u64,
    pub storage_size: u64,
}

/// The manifest list of one stream's snapshot.
#[derive(Clone, Debug)]
pub struct Snapshot {
    pub manifest_list: Vec<Manifest>,
}

/// Current, lifetime and deleted stats of one stream as one ingestor
/// persisted them.
#[derive(Clone, Copy, Debug, PartialEq, Eq, Structural)]
pub struct FullStats {
    pub current_stats: Stats,
    pub lifetime_stats: Stats,
    pub deleted_stats: Stats,
}

/// One stream-metadata record persisted by an ingestor.
#[derive(Clone, Debug)]
pub struct ObjectStoreFormat {
    pub snapshot: Snapshot,
    pub stats: FullStats,
}

/// Ingestion-side totals of `fetch_stats_from_ingestors`, labelled with
/// the ingestion format.
#[derive(Clone, Debug)]
pub struct IngestionStats {
    pub count: u64,
    pub size: u64,
    pub lifetime_count: u64,
    pub lifetime_size: u64,
    pub deleted_count: u64,
    pub deleted_size: u64,
    pub format: String,
}

/// Storage-side totals, labelled with the storage format.
#[derive(Clone, Debug)]
pub struct StorageStats {
    pub size: u64,
    pub lifetime_size: u64,
    pub deleted_size: u64,
    pub format: String,
}

/// The aggregate record served for one stream.
#[derive(Clone, Debug)]
pub struct QueriedStats {
    pub stream: String,
    pub time: i64,
    pub ingestion: IngestionStats,
    pub storage: StorageStats,
}

/// Sum of (events, ingestion, storage) over the manifests whose lower
/// time bound falls on `date`.
pub open spec fn sum_manifests(ms: Seq<Manifest>, date: Seq<char>) -> (int, int, int)
    decreases ms.len(),
{
    if ms.len() == 0 {
        (0int, 0int, 0int)
    } else {
        let rest = sum_manifests(ms.drop_last(), date);
        let m = ms.last();
        if m.time_lower_bound_date@ == date {
            (rest.0 + m.events_ingested, rest.1 + m.ingestion_size, rest.2 + m.storage_size)
        } else {
            rest
        }
    }
}

/// Sum of `sum_manifests` over every stream-metadata record.
pub open spec fn sum_daily(metas: Seq<ObjectStoreFormat>, date: Seq<char>) -> (int, int, int)
    decreases metas.len(),
{
    if metas.len() == 0 {
        (0int, 0int, 0int)
    } else {
        let rest = sum_daily(metas.drop_last(), date);
        let m = sum_manifests(metas.last().snapshot.manifest_list@, date);
        (rest.0 + m.0, rest.1 + m.1, rest.2 + m.2)
    }
}

proof fn lemma_sum_manifests_nonneg(ms: Seq<Manifest>, date: Seq<char>)
    ensures
        sum_manifests(ms, date).0 >= 0,
        sum_manifests(ms, date).1 >= 0,
        sum_manifests(ms, date).2 >= 0,
    decreases ms.len(),
{
    if ms.len() > 0 {
        lemma_sum_manifests_nonneg(ms.drop_last(), date);
    }
}

proof fn lemma_sum_manifests_prefix(ms: Seq<Manifest>, date: Seq<char>, k: int)
    requires
        0 <= k <= ms.len(),
    ensures
        sum_manifests(ms.take(k), date).0 <= sum_manifests(ms, date).0,
        sum_manifests(ms.take(k), date).1 <= sum_manifests(ms, date).1,
        sum_manifests(ms.take(k), date).2 <= sum_manifests(ms, date).2,
    decreases ms.len(),
{
    if k == ms.len() {
        assert(ms.take(k) =~= ms);
    } else {
        assert(ms.drop_last().take(k) =~= ms.take(k));
        lemma_sum_manifests_prefix(ms.drop_last(), date, k);
        lemma_sum_manifests_nonneg(ms.take(k), date);
    }
}

proof fn lemma_sum_daily_nonneg(metas: Seq<ObjectStoreFormat>, date: Seq<char>)
    ensures
        sum_daily(metas, date).0 >= 0,
        sum_daily(metas, date).1 >= 0,
        sum_daily(metas, date).2 >= 0,
    decreases metas.len(),
{
    if metas.len() > 0 {
        lemma_sum_daily_nonneg(metas.drop_last(), date);
        lemma_sum_manifests_nonneg(metas.last().snapshot.manifest_list@, date);
    }
}

proof fn lemma_sum_daily_prefix(metas: Seq<ObjectStoreFormat>, date: Seq<char>, k: int)
    requires
        0 <= k <= metas.len(),
    ensures
        sum_daily(metas.take(k), date).0 <= sum_daily(metas, date).0,
        sum_daily(metas.take(k), date).1 <= sum_daily(metas, date).1,
        sum_daily(metas.take(k), date).2 <= sum_daily(metas, date).2,
    decreases metas.len(),
{
    if k == metas.len() {
        assert(metas.take(k) =~= metas);
    } else {
        assert(metas.drop_last().take(k) =~= metas.take(k));
        lemma_sum_daily_prefix(metas.drop_last(), date, k);
        lemma_sum_manifests_nonneg(metas.last().snapshot.manifest_list@, date);
        lemma_sum_daily_nonneg(metas.take(k), date);
    }
}

/// Sum the stats of the manifests of one record that fall on `date`.
#[verifier::loop_isolation(false)]
fn daily_stats_of_meta(meta: &ObjectStoreFormat, date: &str) -> (r: (u64, u64, u64))
    requires
        sum_manifests(meta.snapshot.manifest_list@, date@).0 <= u64::MAX,
        sum_manifests(meta.snapshot.manifest_list@, date@).1 <= u64::MAX,
        sum_manifests(meta.snapshot.manifest_list@, date@).2 <= u64::MAX,
    ensures
        r.0 == sum_manifests(meta.snapshot.manifest_list@, date@).0,
        r.1 == sum_manifests(meta.snapshot.manifest_list@, date@).1,
        r.2 == sum_manifests(meta.snapshot.manifest_list@, date@).2,
{
    let ghost ms = meta.snapshot.manifest_list@;
    let mut events: u64 = 0;
    let mut ingestion: u64 = 0;
    let mut storage: u64 = 0;
    let n = meta.snapshot.manifest_list.len();
    for j in 0..n
        invariant
            n == ms.len(),
            events == sum_manifests(ms.take(j as int), date@).0,
            ingestion == sum_manifests(ms.take(j as int), date@).1,
            storage == sum_manifests(ms.take(j as int), date@).2,
    {
        let m = &meta.snapshot.manifest_list[j];
        proof {
            assert(ms.take(j + 1).drop_last() =~= ms.take(j as int));
            assert(ms.take(j + 1).last() == ms[j as int]);
            lemma_sum_manifests_prefix(ms, date@, j + 1);
            lemma_sum_manifests_nonneg(ms.take(j as int), date@);
        }
        if string_eq_str(&m.time_lower_bound_date, date) {
            events = events + m.events_ingested;
            ingestion = ingestion + m.ingestion_size;
            storage = storage + m.storage_size;
        }
    }
    proof {
        assert(ms.take(n as int) =~= ms);
    }
    (events, ingestion, storage)
}

/// For the given date, the stats summed across every ingestor's
/// manifests whose lower time bound falls on that date.
#[verifier::loop_isolation(false)]
pub fn fetch_daily_stats(date: &str, stream_meta_list: &Vec<ObjectStoreFormat>) -> (r: Result<
    Stats,
    crate::errors::ClusterError,
>)
    requires
        sum_daily(stream_meta_list@, date@).0 <= u64::MAX,
        sum_daily(stream_meta_list@, date@).1 <= u64::MAX,
        sum_daily(stream_meta_list@, date@).2 <= u64::MAX,
    ensures
        r matches Ok(st) && st.events == sum_daily(stream_meta_list@, date@).0 && st.ingestion
            == sum_daily(stream_meta_list@, date@).1 && st.storage == sum_daily(
            stream_meta_list@,
            date@,
        ).2,
{
    let ghost metas = stream_meta_list@;
    let mut events: u64 = 0;
    let mut ingestion: u64 = 0;
    let mut storage: u64 = 0;
    let n = stream_meta_list.len();
    for i in 0..n
        invariant
            n == metas.len(),
            events == sum_daily(metas.take(i as int), date@).0,
            ingestion == sum_daily(metas.take(i as int), date@).1,
            storage == sum_daily(metas.take(i as int), date@).2,
            sum_daily(metas, date@).0 <= u64::MAX,
            sum_daily(metas, date@).1 <= u64::MAX,
            sum_daily(metas, date@).2 <= u64::MAX,
    {
        let meta = &stream_meta_list[i];
        proof {
            assert(metas.take(i + 1).drop_last() =~= metas.take(i as int));
            assert(metas.take(i + 1).last() == metas[i as int]);
            lemma_sum_daily_prefix(metas, date@, i + 1);
            lemma_sum_daily_nonneg(metas.take(i as int), date@);
            lemma_sum_manifests_nonneg(metas[i as int].snapshot.manifest_list@, date@);
        }
        let (e, g, s) = daily_stats_of_meta(meta, date);
        events = events + e;
        ingestion = ingestion + g;
        storage = storage + s;
    }
    proof {
        assert(metas.take(n as int) =~= metas);
    }
    Ok(Stats { events, ingestion, storage })
}

/// Componentwise sum of one of the three stats groups over the records,
/// the group picked by `pick`: 0 current, 1 lifetime, 2 deleted.
pub open spec fn sum_group(metas: Seq<ObjectStoreFormat>, pick: int) -> (int, int, int)
    decreases metas.len(),
{
    if metas.len() == 0 {
        (0int, 0int, 0int)
    } else {
        let rest = sum_group(metas.drop_last(), pick);
        let s = if pick == 0 {
            metas.last().stats.current_stats
        } else if pick == 1 {
            metas.last().stats.lifetime_stats
        } else {
            metas.last().stats.deleted_stats
        };
        (rest.0 + s.events, rest.1 + s.ingestion, rest.2 + s.storage)
    }
}

proof fn lemma_sum_group_nonneg(metas: Seq<ObjectStoreFormat>, pick: int)
    ensures
        sum_group(metas, pick).0 >= 0,
        sum_group(metas, pick).1 >= 0,
        sum_group(metas, pick).2 >= 0,
    decreases metas.len(),
{
    if metas.len() > 0 {
        lemma_sum_group_nonneg(metas.drop_last(), pick);
    }
}

proof fn lemma_sum_group_prefix(metas: Seq<ObjectStoreFormat>, pick: int, k: int)
    requires
        0 <= k <= metas.len(),
    ensures
        sum_group(metas.take(k), pick).0 <= sum_group(metas, pick).0,
        sum_group(metas.take(k), pick).1 <= sum_group(metas, pick).1,
        sum_group(metas.take(k), pick).2 <= sum_group(metas, pick).2,
    decreases metas.len(),
{
    if k == metas.len() {
        assert(metas.take(k) =~= metas);
    } else {
        assert(metas.drop_last().take(k) =~= metas.take(k));
        lemma_sum_group_prefix(metas.drop_last(), pick, k);
        lemma_sum_group_nonneg(metas.take(k), pick);
    }
}

/// The overflow-freedom condition of `fetch_stats_from_ingestors`: each
/// of the nine cumulative sums fits in a `u64`.
pub open spec fn stats_sums_fit(metas: Seq<ObjectStoreFormat>) -> bool {
    &&& sum_group(metas, 0).0 <= u64::MAX
    &&& sum_group(metas, 0).1 <= u64::MAX
    &&& sum_group(metas, 0).2 <= u64::MAX
    &&& sum_group(metas, 1).0 <= u64::MAX
    &&& sum_group(metas, 1).1 <= u64::MAX
    &&& sum_group(metas, 1).2 <= u64::MAX
    &&& sum_group(metas, 2).0 <= u64::MAX
    &&& sum_group(metas, 2).1 <= u64::MAX
    &&& sum_group(metas, 2).2 <= u64::MAX
}

/// Cumulative per-stream stats across every ingestor's metadata
/// record, stamped with the caller's clock reading.
///
/// The result is always a single-element vector: the per-ingestor
/// breakdown was folded into one record.
#[verifier::loop_isolation(false)]
pub fn fetch_stats_from_ingestors(stream_metas: &Vec<ObjectStoreFormat>, now: i64) -> (r: Vec<
    QueriedStats,
>)
    requires
        stats_sums_fit(stream_metas@),
    ensures
        r@.len() == 1,
        r@[0].stream@ == Seq::<char>::empty(),
        r@[0].time == now,
        r@[0].ingestion.count == sum_group(stream_metas@, 0).0,
        r@[0].ingestion.size == sum_group(stream_metas@, 0).1,
        r@[0].ingestion.lifetime_count == sum_group(stream_metas@, 1).0,
        r@[0].ingestion.lifetime_size == sum_group(stream_metas@, 1).1,
        r@[0].ingestion.deleted_count == sum_group(stream_metas@, 2).0,
        r@[0].ingestion.deleted_size == sum_group(stream_metas@, 2).1,
        r@[0].ingestion.format@ == "json"@,
        r@[0].storage.size == sum_group(stream_metas@, 0).2,
        r@[0].storage.lifetime_size == sum_group(stream_metas@, 1).2,
        r@[0].storage.deleted_size == sum_group(stream_metas@, 2).2,
        r@[0].storage.format@ == "parquet"@,
{
    let ghost metas = stream_metas@;
    let mut count: u64 = 0;
    let mut ingestion_size: u64 = 0;
    let mut storage_size: u64 = 0;
    let mut lifetime_count: u64 = 0;
    let mut lifetime_ingestion_size: u64 = 0;
    let mut lifetime_storage_size: u64 = 0;
    let mut deleted_count: u64 = 0;
    let mut deleted_ingestion_size: u64 = 0;
    let mut deleted_storage_size: u64 = 0;
    let n = stream_metas.len();
    for i in 0..n
        invariant
            n == metas.len(),
            count == sum_group(metas.take(i as int), 0).0,
            ingestion_size == sum_group(metas.take(i as int), 0).1,
            storage_size == sum_group(metas.take(i as int), 0).2,
            lifetime_count == sum_group(metas.take(i as int), 1).0,
            lifetime_ingestion_size == sum_group(metas.take(i as int), 1).1,
            lifetime_storage_size == sum_group(metas.take(i as int), 1).2,
            deleted_count == sum_group(metas.take(i as int), 2).0,
            deleted_ingestion_size == sum_group(metas.take(i as int), 2).1,
            deleted_storage_size == sum_group(metas.take(i as int), 2).2,
            stats_sums_fit(metas),
    {
        let meta = &stream_metas[i];
        proof {
            assert(metas.take(i + 1).drop_last() =~= metas.take(i as int));
            assert(metas.take(i + 1).last() == metas[i as int]);
            lemma_sum_group_prefix(metas, 0, i + 1);
            lemma_sum_group_prefix(metas, 1, i + 1);
            lemma_sum_group_prefix(metas, 2, i + 1);
            lemma_sum_group_nonneg(metas.take(i as int), 0);
            lemma_sum_group_nonneg(metas.take(i as int), 1);
            lemma_sum_group_nonneg(metas.take(i as int), 2);
        }
        count = count + meta.stats.current_stats.events;
        ingestion_size = ingestion_size + meta.stats.current_stats.ingestion;
        storage_size = storage_size + meta.stats.current_stats.storage;
        lifetime_count = lifetime_count + meta.stats.lifetime_stats.events;
        lifetime_ingestion_size = lifetime_ingestion_size + meta.stats.lifetime_stats.ingestion;
        lifetime_storage_size = lifetime_storage_size + meta.stats.lifetime_stats.storage;
        deleted_count = deleted_count + meta.stats.deleted_stats.events;
        deleted_ingestion_size = deleted_ingestion_size + meta.stats.deleted_stats.ingestion;
        deleted_storage_size = deleted_storage_size + meta.stats.deleted_stats.storage;
    }
    proof {
        assert(metas.take(n as int) =~= metas);
    }
    let qs = QueriedStats {
        stream: String::new(),
        time: now,
        ingestion: IngestionStats {
            count,
            size: ingestion_size,
            lifetime_count,
            lifetime_size: lifetime_ingestion_size,
            deleted_count,
            deleted_size: deleted_ingestion_size,
            format: String::from_str("json"),
        },
        storage: StorageStats {
            size: storage_size,
            lifetime_size: lifetime_storage_size,
            deleted_size: deleted_storage_size,
            format: String::from_str("parquet"),
        },
    };
    let mut r: Vec<QueriedStats> = Vec::new();
    r.push(qs);
    r
}

} // verus!
