//! The retention engine's decisions: cutoffs, which extraction jobs to prune,
//! and when to compact the catalog.
use vstd::prelude::*;

verus! {

/// Seconds in a day.
pub const SECS_PER_DAY: u64 = 86_400;

/// The moment `days` days before `now`, in seconds; times before the range of
/// `i64` become its minimum.
pub open spec fn cutoff_of(now: i64, days: u64) -> int {
    let c = now - days * SECS_PER_DAY;
    if c < i64::MIN { i64::MIN as int } else { c }
}

/// The cutoff of a retention window of `days` days ending at `now`.
pub fn cutoff(now: i64, days: u64) -> (c: i64)
    ensures
        c == cutoff_of(now, days),
{
    assert(days as i128 * SECS_PER_DAY as i128 <= 0x1_0000_0000_0000_0000 * 86_400) by (nonlinear_arith)
        requires
            days <= u64::MAX,
    ;
    assert(days as i128 * SECS_PER_DAY as i128 >= 0) by (nonlinear_arith);
    let span: i128 = days as i128 * SECS_PER_DAY as i128;
    let c: i128 = now as i128 - span;
    if c < i64::MIN as i128 {
        i64::MIN
    } else {
        c as i64
    }
}

/// A row stamped `ts` is older than a window of `days` days ending at `now`.
pub fn expired(ts: i64, now: i64, days: u64) -> (r: bool)
    ensures
        r == (ts < cutoff_of(now, days)),
{
    ts < cutoff(now, days)
}

/// A `files` row is removed once it is not active and its last update is
/// older than the tombstone window.
pub fn file_prunable(active: bool, updated_ts: i64, now: i64, days: u64) -> (r: bool)
    ensures
        r == (!active && updated_ts < cutoff_of(now, days)),
{
    !active && expired(updated_ts, now, days)
}

/// The positions of the `mirror_docs` rows whose file identity no `files`
/// row has, in order.
pub fn orphan_docs(doc_uids: &Vec<String>, file_uids: &Vec<String>) -> (idx: Vec<usize>)
    ensures
        forall|k: int| 0 <= k < idx@.len() ==> (#[trigger] idx@[k]) < doc_uids@.len(),
        forall|j: int|
            0 <= j < doc_uids@.len() ==> (#[trigger] idx@.contains(j as usize) <==> forall|f: int|
                0 <= f < file_uids@.len() ==> (#[trigger] file_uids@[f])@ != doc_uids@[j]@),
        forall|a: int, b: int| 0 <= a < b < idx@.len() ==> #[trigger] idx@[a] < #[trigger] idx@[b],
{
    let mut idx: Vec<usize> = Vec::new();
    let mut i: usize = 0;
    while i < doc_uids.len()
        invariant
            i <= doc_uids@.len(),
            forall|k: int| 0 <= k < idx@.len() ==> (#[trigger] idx@[k]) < i,
            forall|j: int|
                0 <= j < doc_uids@.len() ==> (#[trigger] idx@.contains(j as usize) <==> (j < i && forall|f: int|
                    0 <= f < file_uids@.len() ==> (#[trigger] file_uids@[f])@ != doc_uids@[j]@)),
            forall|a: int, b: int| 0 <= a < b < idx@.len() ==> #[trigger] idx@[a] < #[trigger] idx@[b],
        decreases doc_uids.len() - i,
    {
        let mut known = false;
        let mut f: usize = 0;
        while f < file_uids.len()
            invariant
                i < doc_uids@.len(),
                f <= file_uids@.len(),
                known == exists|g: int| 0 <= g < f && (#[trigger] file_uids@[g])@ == doc_uids@[i as int]@,
            decreases file_uids.len() - f,
        {
            if file_uids[f] == doc_uids[i] {
                known = true;
            }
            f = f + 1;
        }
        let ghost old_idx = idx@;
        if !known {
            idx.push(i);
        }
        assert forall|j: int|
            0 <= j < doc_uids@.len() implies (#[trigger] idx@.contains(j as usize) <==> (j < i + 1 && forall|g: int|
                0 <= g < file_uids@.len() ==> (#[trigger] file_uids@[g])@ != doc_uids@[j]@)) by {
            if idx@.contains(j as usize) {
                let w = choose|w: int| 0 <= w < idx@.len() && idx@[w] == j as usize;
                if w < old_idx.len() {
                    assert(old_idx[w] == idx@[w]);
                    assert(old_idx.contains(j as usize));
                }
            } else if j < i {
                if old_idx.contains(j as usize) {
                    let w = choose|w: int| 0 <= w < old_idx.len() && old_idx[w] == j as usize;
                    assert(idx@[w] == old_idx[w]);
                }
            } else if j == i && !known {
                assert(idx@[idx@.len() - 1] == i);
            }
        }
        i = i + 1;
    }
    idx
}

/// Compaction pays off when more than 1000 pages are free and they are more
/// than a tenth of the file.
pub open spec fn compaction_due(freelist: int, page_count: int) -> bool {
    freelist > 1000 && freelist * 10 > page_count
}

/// Whether the catalog should be compacted.
pub fn should_compact(freelist: i64, page_count: i64) -> (r: bool)
    ensures
        r == compaction_due(freelist as int, page_count as int),
{
    freelist > 1000 && (freelist as i128) * 10 > page_count as i128
}

/// The outcome recorded on an extraction job.
#[derive(Clone, Copy, Debug, PartialEq, Eq, Structural)]
pub enum JobStatus {
    Running,
    Done,
    Failed,
}

/// An `extract_jobs` row as retention reads it.
#[derive(Clone, Debug)]
pub struct JobRow {
    pub id: i64,
    pub file_uid: String,
    pub status: JobStatus,
    pub finished_ts: Option<i64>,
}

/// A failed job that finished before the cutoff.
pub open spec fn stale_failure(r: JobRow, cut: int) -> bool {
    r.status == JobStatus::Failed && (r.finished_ts matches Some(t) && t < cut)
}

/// How many jobs of the same file, not pruned as stale failures, are newer
/// (higher id) than `r`.
pub open spec fn newer_kept(rows: Seq<JobRow>, r: JobRow, cut: int) -> nat
    decreases rows.len(),
{
    if rows.len() == 0 {
        0
    } else {
        let x = rows.last();
        newer_kept(rows.drop_last(), r, cut) + if !stale_failure(x, cut) && x.file_uid@
            == r.file_uid@ && x.id > r.id {
            1nat
        } else {
            0nat
        }
    }
}

/// A job is pruned when it is a stale failure, or when, among the file's
/// remaining jobs, `keep` newer ones exist.
pub open spec fn pruned(rows: Seq<JobRow>, r: JobRow, cut: int, keep: nat) -> bool {
    stale_failure(r, cut) || newer_kept(rows, r, cut) >= keep
}

fn is_stale(r: &JobRow, cut: i64) -> (b: bool)
    ensures
        b == stale_failure(*r, cut as int),
{
    match (r.status, r.finished_ts) {
        (JobStatus::Failed, Some(t)) => t < cut,
        _ => false,
    }
}

/// The ids of the jobs to delete, in row order: failed jobs that finished
/// more than `failed_days` days before `now`, and every job beyond the
/// `keep_per_file` newest remaining ones of its file.
pub fn jobs_to_prune(rows: &Vec<JobRow>, now: i64, keep_per_file: usize, failed_days: u64) -> (ids: Vec<i64>)
    ensures
        ids@.len() <= rows@.len(),
        ids@ == rows@.filter(|r: JobRow| pruned(rows@, r, cutoff_of(now, failed_days), keep_per_file as nat)).map_values(|r: JobRow| r.id),
{
    let cut = cutoff(now, failed_days);
    let ghost keep = keep_per_file as nat;
    let ghost pred = |r: JobRow| pruned(rows@, r, cut as int, keep);
    let mut ids: Vec<i64> = Vec::new();
    let mut i: usize = 0;
    while i < rows.len()
        invariant
            i <= rows@.len(),
            cut == cutoff_of(now, failed_days),
            keep == keep_per_file as nat,
            pred == |r: JobRow| pruned(rows@, r, cut as int, keep),
            ids@ == rows@.take(i as int).filter(pred).map_values(|r: JobRow| r.id),
        decreases rows.len() - i,
    {
        let r = &rows[i];
        let mut newer: usize = 0;
        let mut j: usize = 0;
        while j < rows.len()
            invariant
                i < rows@.len(),
                j <= rows@.len(),
                r == rows@[i as int],
                newer == newer_kept(rows@.take(j as int), *r, cut as int),
                newer <= j,
            decreases rows.len() - j,
        {
            let x = &rows[j];
            assert(rows@.take(j + 1).drop_last() == rows@.take(j as int));
            if !is_stale(x, cut) && x.file_uid == r.file_uid && x.id > r.id {
                newer = newer + 1;
            }
            j = j + 1;
        }
        assert(rows@.take(rows@.len() as int) == rows@);
        let ghost before = rows@.take(i as int);
        assert(rows@.take(i + 1) == before.push(*r));
        assert(rows@.take(i + 1).filter(pred) == if pred(*r) { before.filter(pred).push(*r) } else { before.filter(pred) }) by {
            reveal(Seq::filter);
            assert(before.push(*r).drop_last() == before);
        }
        if is_stale(r, cut) || newer >= keep_per_file {
            ids.push(r.id);
            assert(ids@ =~= rows@.take(i + 1).filter(pred).map_values(|r: JobRow| r.id));
        }
        i = i + 1;
    }
    assert(rows@.take(rows@.len() as int) == rows@);
    proof {
        rows@.filter_lemma(pred);
    }
    ids
}

} // verus!
