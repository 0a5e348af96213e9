use std::collections::HashSet;

use sha2::Digest;

use findx::bus::{retain_delivered, Envelope, Topic};
use findx::chunk::chunk_document;
use findx::chunking::{chunk_spans, TOKENS_PER_CHUNK};
use findx::config::{default_extractor_cmd, default_jobs_bound, QueryMode};
use findx::embed::{choose_embedder, EmbedConfigError, EmbedderKind, ExternalEmbedder};
use findx::events::SourceEvent;
use findx::extract::{
    completed_event, extraction_argv, extraction_source, extractor_name, is_blank, is_plaintext,
    ExtractError, ExtractSource, JobRun, JobStep,
};
use findx::fusion::{rrf, ChunkRef};
use findx::identity::{
    catalog_chunk_id, content_hash, decimal, fallback_file_uid, hex_u64, idempotency_key,
    make_chunk_id, normalize_text,
};
use findx::metadata::{plan_delta, CatalogOp, FileStatus};
use findx::mirror::{plan_chunks, relativize, MirrorBuild, MirrorStep};
use findx::pages::{split_pages, PageBlock};
use findx::retention::{cutoff, jobs_to_prune, should_compact, JobRow, JobStatus};
use findx::scan::{
    admits, compute_delta, fallback_fast_sig, posix_fast_sig, posix_file_uid, windows_fast_sig,
    FileInfo, FsState, ScanError, ScanFilter,
};
use findx::search::{index_fields, mtime_of, Timestamp};
use findx::text::{chars_of, count_words};

fn hit(id: &str) -> ChunkRef {
    ChunkRef { path: format!("/d/{id}.txt"), chunk_id: id.to_string(), start_byte: 0, end_byte: 1 }
}

fn info(uid: &str, path: &str, sig: &str) -> FileInfo {
    FileInfo { file_uid: uid.into(), path: path.into(), size: 1, mtime_ns: 0, fast_sig: sig.into(), is_offline: false, attrs: 0 }
}

fn sha_hex(data: &[u8]) -> String {
    sha2::Sha256::digest(data).iter().map(|b| format!("{:02x}", b)).collect()
}

// Pages

#[test]
fn pages_of_empty_text() {
    let p = split_pages("");
    assert_eq!(p.len(), 1);
    assert_eq!((p[0].page_no, p[0].start, p[0].end), (1, 0, 0));
    assert_eq!(p[0].text, "");
}

#[test]
fn pages_with_trailing_form_feed() {
    let p = split_pages("ab\x0c");
    assert_eq!(p.len(), 2);
    assert_eq!((p[1].page_no, p[1].start, p[1].end), (2, 3, 3));
}

// Chunking

#[test]
fn chunk_stops_after_two_hundred_runs() {
    let text = "w ".repeat(250);
    let cs = chars_of(&text);
    let spans = chunk_spans(&cs);
    assert_eq!(TOKENS_PER_CHUNK, 200);
    assert_eq!(spans[0], (0, 400));
    assert_eq!(spans[1], (400, 500));
    assert_eq!(spans.len(), 2);
}

#[test]
fn word_count_matches_split_whitespace() {
    let text = "  hello\u{a0}wide\t world  ";
    let cs = chars_of(text);
    assert_eq!(count_words(&cs, 0, cs.len()), text.split_whitespace().count());
    assert_eq!(count_words(&cs, 0, cs.len()), 3);
}

#[test]
fn chunks_tile_pages_and_carry_page_offsets() {
    let pages = vec![
        PageBlock { page_no: 1, text: "a b".into(), start: 0, end: 3 },
        PageBlock { page_no: 2, text: "c".into(), start: 4, end: 5 },
    ];
    let recs = plan_chunks("f", "h", &pages);
    assert_eq!(recs.len(), 2);
    assert_eq!((recs[0].order, recs[0].page, recs[0].byte_start, recs[0].byte_end), (0, 1, 0, 3));
    assert_eq!((recs[1].order, recs[1].page, recs[1].byte_start, recs[1].byte_end), (1, 2, 4, 5));
    assert_eq!(recs[0].tokens_est, 2);
    assert_eq!(recs[1].chunk_id, make_chunk_id("f", "h", 2, 0, 1, "c"));
}

#[test]
fn catalog_chunks_use_blake3_ids() {
    let cs = chunk_document("/d/a.txt", "hello world");
    assert_eq!(cs.len(), 1);
    assert_eq!((cs[0].start, cs[0].end, cs[0].token_count), (0, 11, 2));
    let expected = blake3::hash(b"/d/a.txt011").to_hex().to_string();
    assert_eq!(cs[0].chunk_id, expected);
    assert_eq!(catalog_chunk_id("/d/a.txt", 0, 11), expected);
}

// Identity

#[test]
fn chunk_id_matches_formula() {
    let mut pre = Vec::new();
    pre.extend_from_slice(b"f1");
    pre.extend_from_slice(b"h1");
    pre.extend_from_slice(&7u32.to_be_bytes());
    pre.extend_from_slice(&3u64.to_be_bytes());
    pre.extend_from_slice(&9u64.to_be_bytes());
    pre.extend_from_slice("é\nx".as_bytes());
    let expected = format!("ch:{}", sha_hex(&pre));
    assert_eq!(make_chunk_id("f1", "h1", 7, 3, 9, "é\r\nx \t"), expected);
}

#[test]
fn chunk_id_depends_on_span() {
    assert_ne!(make_chunk_id("f", "h", 1, 0, 4, "test"), make_chunk_id("f", "h", 1, 0, 5, "test"));
}

#[test]
fn normalize_handles_lone_cr() {
    assert_eq!(normalize_text("a\rb\r\n\rc \n"), "a\nb\n\nc");
}

#[test]
fn idempotency_key_is_prefixed_sha256() {
    let payload = br#"{"type":"sync_started"}"#.to_vec();
    assert_eq!(idempotency_key(&payload), format!("sha256:{}", sha_hex(&payload)));
}

#[test]
fn content_hash_is_padded_xxh3() {
    let bytes = b"hello".to_vec();
    assert_eq!(content_hash(&bytes), format!("{:016x}", xxhash_rust::xxh3::xxh3_64(&bytes)));
    assert_eq!(content_hash(&bytes).len(), 16);
}

#[test]
fn number_formatting() {
    assert_eq!(decimal(0), "0");
    assert_eq!(decimal(1234567890123), "1234567890123");
    assert_eq!(hex_u64(0), "0");
    assert_eq!(hex_u64(0xdead_beef), "deadbeef");
}

#[test]
fn fallback_uid_hashes_path_and_size() {
    let mut data = b"/a/b".to_vec();
    data.extend_from_slice(&10u64.to_le_bytes());
    assert_eq!(fallback_file_uid("/a/b", 10), format!("fp-{}", sha_hex(&data)));
}

// Scanner

#[test]
fn fast_signatures() {
    assert_eq!(posix_fast_sig(1, 255, 16, 10, 0), "1:ff:10:a:0");
    assert_eq!(posix_file_uid(2049, 131), "ux-2049:131");
    let (sig, offline, attrs) = windows_fast_sig(1, 2, 3, 4, 0x1000);
    assert_eq!(sig, "1:2:3:4:1000");
    assert!(offline);
    assert_eq!(attrs, 0x1000);
    assert!(!windows_fast_sig(0, 0, 0, 0, 0x20).1);
    assert_eq!(fallback_fast_sig(12, 345), "12:345");
}

#[test]
fn delta_buckets() {
    let mut state = FsState::new();
    state.replace(vec![info("u1", "/r/a", "s"), info("u2", "/r/b", "s"), info("u3", "/r/c", "s")]);
    let cur = vec![info("u1", "/r/a", "s2"), info("u2", "/r/b2", "s"), info("u4", "/r/d", "s")];
    let d = compute_delta(&state, &cur);
    assert_eq!(d.modified.len(), 1);
    assert_eq!(d.modified[0].file_uid, "u1");
    assert_eq!(d.moved.len(), 1);
    assert_eq!((d.moved[0].from.as_str(), d.moved[0].to.as_str()), ("/r/b", "/r/b2"));
    assert_eq!(d.added.len(), 1);
    assert_eq!(d.added[0].file_uid, "u4");
    assert_eq!(d.deleted.len(), 1);
    assert_eq!(d.deleted[0].file_uid, "u3");
    assert!(!d.is_empty());
}

#[test]
fn unchanged_scan_gives_empty_delta() {
    let mut state = FsState::new();
    state.replace(vec![info("u1", "/r/a", "s")]);
    let d = compute_delta(&state, &vec![info("u1", "/r/a", "s")]);
    assert!(d.is_empty());
}

#[test]
fn scan_filter_decisions() {
    let f = ScanFilter::new(&vec!["**/*.txt".to_string()], &vec!["**/skip/**".to_string()], 1).ok().unwrap();
    assert!(f.keeps("/r/a.txt", true, 10, false, "/r/raw"));
    assert!(!f.keeps("/r/.a.txt", true, 10, false, "/r/raw"));
    assert!(f.keeps("/r/.a.txt", true, 10, true, "/r/raw"));
    assert!(!f.keeps("/r/raw/a.txt", true, 10, false, "/r/raw"));
    assert!(!f.keeps("/r/skip/a.txt", true, 10, false, "/r/raw"));
    assert!(!f.keeps("/r/a.md", true, 10, false, "/r/raw"));
    assert!(!f.keeps("/r/a.txt", false, 10, false, "/r/raw"));
    assert!(admits(true, false, false, false, true, false));
}

#[test]
fn bad_glob_is_named() {
    match ScanFilter::new(&vec!["**".to_string(), "a[".to_string(), "b[".to_string()], &vec![], 1) {
        Err(ScanError::BadGlob(p)) => assert_eq!(p, "a["),
        _ => panic!("expected a bad glob"),
    }
}

// Metadata

#[test]
fn offline_files_are_not_extracted_unless_hydration_is_allowed() {
    let state = FsState::new();
    let mut f = info("u", "/r/a.txt", "s");
    f.is_offline = true;
    let d = compute_delta(&state, &vec![f]);
    let ops = plan_delta(&d, false);
    assert_eq!(ops.len(), 2);
    assert!(matches!(ops[0], CatalogOp::UpsertFile { status: FileStatus::Offline, .. }));
    let ops = plan_delta(&d, true);
    assert_eq!(ops.len(), 3);
    assert!(matches!(ops[2], CatalogOp::RequestExtraction { .. }));
}

#[test]
fn deleted_files_are_tombstoned() {
    let mut state = FsState::new();
    state.replace(vec![info("u", "/r/a.txt", "s")]);
    let d = compute_delta(&state, &vec![]);
    let ops = plan_delta(&d, false);
    assert!(matches!(&ops[0], CatalogOp::Tombstone { file_uid } if file_uid == "u"));
    assert_eq!(FileStatus::Deleted.as_str(), "deleted");
    assert_eq!(FileStatus::parse("active"), Some(FileStatus::Active));
    assert_eq!(FileStatus::parse("gone"), None);
}

// Extraction

#[test]
fn plaintext_detection_lowercases_extension() {
    assert!(is_plaintext("/d/A.TXT"));
    assert!(is_plaintext("/d/x.Hpp"));
    assert!(!is_plaintext("/d/x.pdf"));
    assert!(!is_plaintext("/d/txt"));
}

#[test]
fn extractor_invocation() {
    let argv = extraction_argv("docling --to 'plain text'", "/d/x.pdf").ok().unwrap();
    assert_eq!(argv, vec!["docling", "--to", "plain text", "/d/x.pdf"]);
    assert_eq!(extraction_argv("a 'b", "/x"), Err(ExtractError::BadCommand));
    assert_eq!(extraction_argv("   ", "/x"), Err(ExtractError::EmptyCommand));
    assert!(matches!(extraction_source("/d/x.md", ""), Ok(ExtractSource::ReadFile)));
    assert!(matches!(extraction_source("/d/x.pdf", " \t"), Err(ExtractError::NoCommand)));
    assert!(matches!(extraction_source("/d/x.pdf", "tool"), Ok(ExtractSource::RunCommand(_))));
    assert_eq!(extractor_name("/d/x.md", "tool -v"), "builtin");
    assert_eq!(extractor_name("/d/x.pdf", "tool -v"), "tool");
    assert_eq!(extractor_name("/d/x.pdf", "'"), "cmd");
    assert!(is_blank(" \n"));
    assert!(!is_blank(" x"));
}

#[test]
fn completion_event_splits_pages() {
    match completed_event("f".into(), "h".into(), "builtin".into(), "a\x0cb") {
        SourceEvent::ExtractionCompleted { pages, extractor_version, .. } => {
            assert_eq!(pages.len(), 2);
            assert_eq!(extractor_version, "");
        }
        _ => panic!("expected a completion"),
    }
}

#[test]
fn failed_lookup_publishes_without_claim() {
    let mut job = JobRun::new();
    job.advance(false);
    assert_eq!(job.step, JobStep::RecordLookupFailure);
    job.advance(true);
    assert_eq!(job.step, JobStep::PublishLookupFailure);
    job.advance(true);
    assert_eq!(job.step, JobStep::Finished);
    assert!(!job.claimed);
}

#[test]
fn failed_extraction_marks_and_publishes_failure() {
    let mut job = JobRun::new();
    for _ in 0..3 {
        job.advance(true);
    }
    assert_eq!(job.step, JobStep::Extract);
    job.advance(false);
    assert_eq!(job.step, JobStep::MarkFailed);
    job.advance(true);
    assert_eq!(job.step, JobStep::PublishFailed);
}

// Mirror builder

#[test]
fn failed_build_rolls_back() {
    let mut m = MirrorBuild::new(2);
    m.advance(true);
    m.advance(false);
    assert_eq!(m.step, MirrorStep::RollBack);
    m.advance(false);
    assert_eq!(m.step, MirrorStep::Failed);
    assert!(m.is_finished());
}

#[test]
fn empty_document_commits_without_chunks() {
    let mut m = MirrorBuild::new(0);
    for _ in 0..4 {
        m.advance(true);
    }
    assert_eq!(m.step, MirrorStep::CommitChunks);
}

#[test]
fn relativize_prefers_longest_root() {
    let roots = vec!["/data".to_string(), "/data/docs".to_string()];
    assert_eq!(relativize("/data/docs/a/b.txt", &roots), "a/b.txt");
    assert_eq!(relativize("/data/x.txt", &roots), "x.txt");
    assert_eq!(relativize("/other/x.txt", &roots), "/other/x.txt");
    assert_eq!(relativize("/database/x.txt", &roots), "/database/x.txt");
}

// Fusion

#[test]
fn rrf_exact_scores_and_order() {
    let bm25 = vec![hit("a"), hit("b"), hit("c")];
    let ann = vec![hit("c"), hit("d")];
    let out = rrf(&bm25, &ann, 10).ok().unwrap();
    let ids: Vec<&str> = out.iter().map(|h| h.hit.chunk_id.as_str()).collect();
    // c: 1/63 + 1/61; a: 1/61; d: 1/62; b: 1/62 (b first appears earlier)
    assert_eq!(ids, vec!["c", "a", "b", "d"]);
    assert_eq!((out[0].score_num, out[0].score_den), (124, 63 * 61));
    assert_eq!((out[1].score_num, out[1].score_den), (1, 61));
    assert_eq!((out[2].score_num, out[2].score_den), (1, 62));
}

#[test]
fn rrf_truncates_and_keeps_inputs_only() {
    let bm25 = vec![hit("a"), hit("b")];
    let ann = vec![hit("x"), hit("a")];
    let out = rrf(&bm25, &ann, 2).ok().unwrap();
    assert_eq!(out.len(), 2);
    let ids: HashSet<&str> = out.iter().map(|h| h.hit.chunk_id.as_str()).collect();
    assert!(ids.iter().all(|i| ["a", "b", "x"].contains(i)));
    assert_eq!(out[0].hit.chunk_id, "a");
    for w in out.windows(2) {
        assert!(w[0].score_num * w[1].score_den >= w[1].score_num * w[0].score_den);
    }
    assert!(rrf(&vec![], &vec![], 5).ok().unwrap().is_empty());
    assert!(rrf(&bm25, &ann, 0).ok().unwrap().is_empty());
}

// Bus

#[test]
fn full_queue_drops_subscriber() {
    let mut t: Topic<u8> = Topic::new(1);
    let rx1 = t.subscribe();
    let rx2 = t.subscribe();
    let p = b"x".to_vec();
    assert_eq!(t.publish(&Envelope::new(1u8, 0, &p)), vec![true, true]);
    rx1.recv().unwrap();
    assert_eq!(t.publish(&Envelope::new(2u8, 0, &p)), vec![true, false]);
    assert_eq!(t.subs.len(), 1);
    drop(rx2);
    assert_eq!(rx1.recv().unwrap().data, 2);
}

#[test]
fn retain_keeps_order() {
    let kept = retain_delivered(vec![1, 2, 3, 4], &vec![true, false, true, true]);
    assert_eq!(kept, vec![1, 3, 4]);
}

#[test]
fn equal_payloads_get_equal_keys() {
    let a = Envelope::new(SourceEvent::SyncStarted, 1, &b"p".to_vec());
    let b = Envelope::new(SourceEvent::SyncStarted, 2, &b"p".to_vec());
    let c = Envelope::new(SourceEvent::SyncStarted, 2, &b"q".to_vec());
    assert_eq!(a.idempotency_key, b.idempotency_key);
    assert_ne!(a.idempotency_key, c.idempotency_key);
    assert_eq!(a.v, 1);
}

// Retention, search, configuration

#[test]
fn retention_formulas() {
    assert_eq!(cutoff(1_000_000, 1), 1_000_000 - 86_400);
    assert_eq!(cutoff(i64::MIN + 5, 1), i64::MIN);
    assert!(should_compact(1001, 10_000));
    assert!(!should_compact(1001, 10_010));
    assert!(!should_compact(1000, 0));
    let rows = vec![
        JobRow { id: 1, file_uid: "a".into(), status: JobStatus::Done, finished_ts: Some(0) },
        JobRow { id: 2, file_uid: "b".into(), status: JobStatus::Failed, finished_ts: None },
        JobRow { id: 3, file_uid: "a".into(), status: JobStatus::Done, finished_ts: Some(0) },
    ];
    assert_eq!(jobs_to_prune(&rows, 100, 1, 1), vec![1]);
}

#[test]
fn search_decisions() {
    assert_eq!(index_fields("en"), (true, false));
    assert_eq!(index_fields("fr"), (false, true));
    assert_eq!(index_fields("auto"), (true, true));
    assert_eq!(mtime_of(1_500_000_000_123), Timestamp { secs: 1500, nanos: 123 });
    assert_eq!(mtime_of(-2_000_000_000), Timestamp { secs: -2, nanos: 0 });
    assert_eq!(mtime_of(-5), Timestamp { secs: -1, nanos: 999_999_995 });
}

#[test]
fn configuration_defaults() {
    assert_eq!(default_jobs_bound(), 2048);
    assert_eq!(default_extractor_cmd(), "docling --to text");
    assert_eq!(QueryMode::default(), QueryMode::Hybrid);
    assert_eq!(choose_embedder(true), EmbedderKind::External);
    assert_eq!(choose_embedder(false), EmbedderKind::Local);
    assert_eq!(ExternalEmbedder::new(None, None, None).err(), Some(EmbedConfigError::MissingUrl));
    let e = ExternalEmbedder::new(Some("http://x".into()), Some("k".into()), None).ok().unwrap();
    assert_eq!(e.authorization(), Some("Bearer k".to_string()));
}

#[test]
fn rescan_waits_for_quiet() {
    assert!(!findx::scan::rescan_due(None));
    assert!(!findx::scan::rescan_due(Some(300)));
    assert!(findx::scan::rescan_due(Some(301)));
}

#[test]
fn rrf_sums_repeated_ids() {
    let bm25 = vec![hit("a"), hit("a"), hit("b")];
    let ann = vec![hit("b")];
    let out = rrf(&bm25, &ann, 10).ok().unwrap();
    assert_eq!(out.len(), 2);
    // a: 1/61 + 1/62 = 123/3782; b: 1/63 + 1/61 = 124/3843
    assert_eq!(out[0].hit.chunk_id, "a");
    assert_eq!((out[0].score_num, out[0].score_den), (123, 61 * 62));
    assert_eq!((out[1].score_num, out[1].score_den), (124, 63 * 61));
}

#[test]
fn scan_filter_size_limit() {
    let f = ScanFilter::new(&vec!["**/*.txt".to_string()], &vec![], 1).ok().unwrap();
    assert!(f.keeps("/r/a.txt", true, 1024 * 1024, false, "/r/raw"));
    assert!(!f.keeps("/r/a.txt", true, 1024 * 1024 + 1, false, "/r/raw"));
    let g = ScanFilter::new(&vec!["**/*.txt".to_string(), "**/*.md".to_string()], &vec![], 0).ok().unwrap();
    assert!(g.keeps("/r/a.md", true, 0, false, "/r/raw"));
}

#[test]
fn relativize_counts_components() {
    let roots = vec!["/data/./docs/".to_string(), "/data//docs/sub".to_string()];
    assert_eq!(relativize("/data/docs/sub/x.txt", &roots), "x.txt");
    let roots = vec!["/data/docs".to_string(), "/data/./docs".to_string()];
    assert_eq!(relativize("/data/docs/x.txt", &roots), "x.txt");
}

#[test]
fn trailing_cr_does_not_change_chunk_id() {
    assert_eq!(make_chunk_id("f", "h", 1, 0, 4, "test\r"), make_chunk_id("f", "h", 1, 0, 4, "test"));
    assert!(findx::text::is_whitespace('\u{3000}'));
    assert!(!findx::text::is_whitespace('\u{200b}'));
}

#[test]
fn mtime_before_epoch_rounds_down() {
    assert_eq!(mtime_of(-1), Timestamp { secs: -1, nanos: 999_999_999 });
}
