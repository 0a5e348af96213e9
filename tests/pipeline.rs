use std::collections::HashSet;

use findx::bus::{audit_row, Envelope, Topic};
use findx::config::Config;
use findx::events::{FileMeta, MirrorEvent, SourceEvent};
use findx::extract::{JobRun, JobStep};
use findx::identity::{idempotency_key, make_chunk_id};
use findx::metadata::{plan_delta, CatalogOp, OpsKind};
use findx::mirror::{plan_chunks, MirrorBuild, MirrorStep};
use findx::pages::{split_pages, PageBlock};
use findx::reconcile::{missing_mirrors, orphan_mirrors, MirrorCheck, MirrorDocRow};
use findx::retention::{expired, file_prunable, jobs_to_prune, orphan_docs, JobRow, JobStatus};
use findx::scan::{compute_delta, FileInfo, FsState};

fn run_build(n: u64, fail_at: Option<MirrorStep>) -> Vec<MirrorStep> {
    let mut m = MirrorBuild::new(n);
    let mut steps = Vec::new();
    while !m.is_finished() {
        steps.push(m.step);
        let ok = Some(m.step) != fail_at;
        m.advance(ok);
    }
    steps.push(m.step);
    steps
}

fn info(uid: &str, path: &str, sig: &str) -> FileInfo {
    FileInfo {
        file_uid: uid.to_string(),
        path: path.to_string(),
        size: 5,
        mtime_ns: 0,
        fast_sig: sig.to_string(),
        is_offline: false,
        attrs: 0,
    }
}

#[test]
fn publish_subscribe_roundtrip() {
    let mut source: Topic<SourceEvent> = Topic::new(10);
    let source_rx = source.subscribe();
    let payload = br#"{"type":"sync_started"}"#.to_vec();
    let env = Envelope::new(SourceEvent::SyncStarted, 0, &payload);
    let delivered = source.publish(&env);
    assert_eq!(delivered, vec![true]);
    let got = source_rx.recv().unwrap();
    assert!(matches!(got.data, SourceEvent::SyncStarted));
    assert_eq!(got.idempotency_key, idempotency_key(&payload));
    let row1 = audit_row("source.fs", got.data.kind_tag(), &got, payload.clone());

    let mut mirror: Topic<MirrorEvent> = Topic::new(10);
    let mirror_rx = mirror.subscribe();
    let payload2 = br#"{"type":"mirror_doc_deleted","file_uid":"f1"}"#.to_vec();
    let env2 = Envelope::new(MirrorEvent::MirrorDocDeleted { file_uid: "f1".into() }, 0, &payload2);
    mirror.publish(&env2);
    let got2 = mirror_rx.recv().unwrap();
    match got2.data {
        MirrorEvent::MirrorDocDeleted { ref file_uid } => assert_eq!(file_uid, "f1"),
        _ => panic!("wrong event"),
    }
    assert_eq!(got2.idempotency_key, idempotency_key(&payload2));
    let row2 = audit_row("mirror.text", got2.data.kind_tag(), &got2, payload2);
    assert_eq!(row1.topic, "source.fs");
    assert_eq!(row1.event_type, "sync_started");
    assert_eq!(row2.topic, "mirror.text");
    assert_eq!(row2.event_type, "mirror_doc_deleted");
}

#[test]
fn default_mirror_root() {
    let cfg = Config::default();
    assert_eq!(cfg.mirror.root, ".findx/raw");
}

#[test]
fn default_retention() {
    let cfg = Config::default();
    assert_eq!(cfg.retention.events_days, 14);
    assert_eq!(cfg.retention.jobs_keep_per_file, 3);
    assert_eq!(cfg.retention.jobs_failed_days, 14);
    assert_eq!(cfg.retention.files_tombstone_days, 30);
}

#[test]
fn unicode_pages_preserved() {
    let pages = split_pages("αβγ\x0cδεζ");
    assert_eq!(pages.len(), 2);
    assert_eq!(pages[0].text, "αβγ");
    assert_eq!(pages[0].start, 0);
    assert_eq!(pages[0].end, 3);
    assert_eq!(pages[1].start, 4);
    assert_eq!(pages[1].end, 7);
}

#[test]
fn dedup_jobs() {
    // Two requests for the same unchanged file: the catalog grants the claim
    // of (file_uid, content_hash) once.
    let mut recorded: HashSet<(String, String)> = HashSet::new();
    let mut completed = 0;
    for _ in 0..2 {
        let mut job = JobRun::new();
        while job.step != JobStep::Finished {
            let ok = match job.step {
                JobStep::Claim => recorded.insert(("f1".to_string(), "hello-hash".to_string())),
                _ => true,
            };
            if job.step == JobStep::PublishCompleted {
                completed += 1;
            }
            job.advance(ok);
        }
    }
    assert_eq!(completed, 1);
}

#[test]
fn prunes_old_rows() {
    let now = 1_700_000_000i64;
    // events: an old one and a new one, 14 days kept
    let events_left = [0i64, now].iter().filter(|ts| !expired(**ts, now, 14)).count();
    assert_eq!(events_left, 1);
    // extract jobs: one old failure and three done, one kept per file
    let jobs = vec![
        JobRow { id: 1, file_uid: "f1".into(), status: JobStatus::Failed, finished_ts: Some(0) },
        JobRow { id: 2, file_uid: "f1".into(), status: JobStatus::Done, finished_ts: Some(0) },
        JobRow { id: 3, file_uid: "f1".into(), status: JobStatus::Done, finished_ts: Some(0) },
        JobRow { id: 4, file_uid: "f1".into(), status: JobStatus::Done, finished_ts: Some(0) },
    ];
    let pruned = jobs_to_prune(&jobs, now, 1, 14);
    assert_eq!(jobs.len() - pruned.len(), 1);
    // the tombstoned file, updated at 0, 30 days kept
    let files_left = [(false, 0i64)].iter().filter(|(active, ts)| !file_prunable(*active, *ts, now, 30)).count();
    assert_eq!(files_left, 0);
    // the mirror doc of uid2, whose file is gone
    let docs_left = 1 - orphan_docs(&vec!["uid2".to_string()], &vec![]).len();
    assert_eq!(docs_left, 0);
}

#[test]
fn move_preserves_file_uid() {
    let mut state = FsState::new();
    let first = vec![info("ux-1:42", "/root/a.txt", "s1")];
    let d1 = compute_delta(&state, &first);
    assert_eq!(d1.added.len(), 1);
    let uid = d1.added[0].file_uid.clone();
    state.replace(first);
    let second = vec![info("ux-1:42", "/root/b.txt", "s1")];
    let d2 = compute_delta(&state, &second);
    assert_eq!(d2.added.len(), 0);
    assert_eq!(d2.deleted.len(), 0);
    assert_eq!(d2.moved.len(), 1);
    let ops = plan_delta(&d2, false);
    match &ops[0] {
        CatalogOp::SetPath { file_uid, to } => {
            assert_eq!(uid, *file_uid);
            assert!(to.ends_with("b.txt"));
        }
        _ => panic!("expected a path update"),
    }
    assert!(matches!(ops[1], CatalogOp::LogOp { kind: OpsKind::Mv, .. }));
}

#[test]
fn writes_meta_and_chunks() {
    let pages = vec![PageBlock { page_no: 1, text: "hello world".into(), start: 0, end: 2 }];
    let recs = plan_chunks("f1", "h1", &pages);
    assert_eq!(recs.len(), 1);
    let steps = run_build(recs.len() as u64, None);
    let publishes: Vec<MirrorStep> = steps
        .iter()
        .copied()
        .filter(|s| matches!(s, MirrorStep::PublishChunk(_) | MirrorStep::PublishDoc))
        .collect();
    match publishes[0] {
        MirrorStep::PublishChunk(_) => {}
        _ => panic!("expected chunk event first"),
    }
    match publishes[1] {
        MirrorStep::PublishDoc => {}
        _ => panic!("expected doc event second"),
    }
    assert!(steps.contains(&MirrorStep::WriteMeta));
    assert!(steps.contains(&MirrorStep::CommitChunks));
}

#[test]
fn chunk_id_deterministic() {
    let a = make_chunk_id("f", "h", 1, 0, 4, "test\n");
    let b = make_chunk_id("f", "h", 1, 0, 4, "test\r\n");
    let c = make_chunk_id("f", "h", 1, 0, 4, "test   \r\n");
    let d = make_chunk_id("f", "h", 1, 0, 4, "test");
    assert_eq!(a, b);
    assert_eq!(c, d);
}

#[test]
fn unicode_offsets() {
    let text = "café 😊";
    let pages = vec![PageBlock { page_no: 1, text: text.into(), start: 0, end: text.chars().count() }];
    let recs = plan_chunks("f1", "h1", &pages);
    assert_eq!(recs[0].start_char, 0);
    assert_eq!(recs[0].end_char, text.chars().count());
}

#[test]
fn resume_after_partial_chunks() {
    let pages: Vec<PageBlock> = (1..=5)
        .map(|i| PageBlock { page_no: i, text: format!("p{}", i), start: 0, end: 2 })
        .collect();
    let recs = plan_chunks("f1", "h1", &pages);
    // an interrupted build, failing after three chunks were written
    let crashed = run_build(recs.len() as u64, Some(MirrorStep::WriteChunk(3)));
    assert_eq!(*crashed.last().unwrap(), MirrorStep::Failed);
    // the re-delivered completion
    let again = plan_chunks("f1", "h1", &pages);
    let steps = run_build(again.len() as u64, None);
    let lines = steps.iter().filter(|s| matches!(s, MirrorStep::WriteChunk(_))).count();
    assert_eq!(lines, 5);
    let ids: HashSet<String> = again.iter().map(|r| r.chunk_id.clone()).collect();
    assert_eq!(ids.len(), 5);
}

#[test]
fn missing_mirror_triggers_extraction() {
    let checks = vec![MirrorCheck { file_uid: "f1".into(), has_doc_row: false, meta_exists: false, chunks_exist: false }];
    let uids = missing_mirrors(&checks);
    assert_eq!(uids, vec!["f1".to_string()]);
}

#[test]
fn removes_orphan_mirror() {
    let docs = vec![MirrorDocRow { file_uid: "f2".into(), path: "b.txt".into(), source_status: None }];
    let orphans = orphan_mirrors(&docs);
    assert_eq!(orphans.len(), 1);
    assert_eq!(docs[orphans[0]].file_uid, "f2");
}

#[test]
fn delta_meta_fields_carried() {
    let state = FsState::new();
    let cur = vec![FileInfo { file_uid: "u".into(), path: "/r/x.md".into(), size: 9, mtime_ns: 7, fast_sig: "s".into(), is_offline: true, attrs: 3 }];
    let d = compute_delta(&state, &cur);
    let m: &FileMeta = &d.added[0];
    assert_eq!((m.size, m.mtime_ns, m.is_offline, m.attrs), (9, 7, true, 3));
}
