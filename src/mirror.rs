//! The mirror builder: the chunk records of one extracted document, the
//! relative mirror path of a source file, and the crash-safe order in which
//! one completion is written out or rolled back.
use vstd::prelude::*;

use crate::chunking::{chunk_spans, page_spans};
use crate::identity::{chunk_id_of, make_chunk_id};
use crate::pages::PageBlock;
use crate::text::{chars_of, count_words, string_of, word_count};

verus! {

/// One line of `chunks.jsonl` and one `mirror_chunks` row.
#[derive(Clone, Debug)]
pub struct ChunkRecord {
    pub chunk_id: String,
    pub file_uid: String,
    pub content_hash: String,
    pub order: u64,
    pub text: String,
    pub page: u32,
    pub start_char: usize,
    pub end_char: usize,
    pub byte_start: usize,
    pub byte_end: usize,
    pub tokens_est: usize,
}

/// The chunks of a document as (page index, start, end), pages in order and
/// chunks within a page in order; chunks never cross pages.
pub open spec fn doc_plan(pages: Seq<PageBlock>) -> Seq<(int, int, int)>
    decreases pages.len(),
{
    if pages.len() == 0 {
        Seq::empty()
    } else {
        let p = pages.len() - 1;
        doc_plan(pages.drop_last()) + page_spans(pages.last().text@).map_values(
            |s: (int, int)| (p, s.0, s.1),
        )
    }
}

/// `r` is the chunk record that the plan entry `(p, s, e)` at position `k`
/// describes.
pub open spec fn record_of(
    r: ChunkRecord,
    file_uid: Seq<char>,
    content_hash: Seq<char>,
    pages: Seq<PageBlock>,
    k: int,
    entry: (int, int, int),
) -> bool {
    let page = pages[entry.0];
    let text = page.text@.subrange(entry.1, entry.2);
    &&& r.order == k
    &&& r.file_uid@ == file_uid
    &&& r.content_hash@ == content_hash
    &&& r.page == page.page_no
    &&& r.start_char == entry.1
    &&& r.end_char == entry.2
    &&& r.byte_start == page.start + entry.1
    &&& r.byte_end == page.start + entry.2
    &&& r.text@ == text
    &&& r.tokens_est == word_count(text)
    &&& r.chunk_id@ == chunk_id_of(
        file_uid,
        content_hash,
        page.page_no,
        entry.1 as u64,
        entry.2 as u64,
        text,
    )
}

/// The records are exactly the document's chunk plan.
pub open spec fn records_of(
    rs: Seq<ChunkRecord>,
    file_uid: Seq<char>,
    content_hash: Seq<char>,
    pages: Seq<PageBlock>,
) -> bool {
    &&& rs.len() == doc_plan(pages).len()
    &&& forall|k: int|
        0 <= k < rs.len() ==> record_of(
            #[trigger] rs[k],
            file_uid,
            content_hash,
            pages,
            k,
            doc_plan(pages)[k],
        )
}

proof fn lemma_page_spans_in_bounds(cs: Seq<char>, idx: int)
    requires
        0 <= idx,
    ensures
        forall|k: int|
            0 <= k < crate::chunking::spans_from(cs, idx).len() ==> idx <= (
            #[trigger] crate::chunking::spans_from(cs, idx)[k]).0 < crate::chunking::spans_from(
                cs,
                idx,
            )[k].1 <= cs.len(),
    decreases cs.len() - idx,
{
    if idx < cs.len() {
        let e = crate::chunking::chunk_end(cs, idx);
        crate::chunking::lemma_chunk_end(cs, idx);
        lemma_page_spans_in_bounds(cs, e);
        let rest = crate::chunking::spans_from(cs, e);
        assert forall|k: int|
            0 <= k < crate::chunking::spans_from(cs, idx).len() implies idx <= (
            #[trigger] crate::chunking::spans_from(cs, idx)[k]).0 < crate::chunking::spans_from(
                cs,
                idx,
            )[k].1 <= cs.len() by {
            if k > 0 {
                assert(crate::chunking::spans_from(cs, idx)[k] == rest[k - 1]);
            }
        }
    }
}

/// Every chunk span of a page lies within the page and is non-empty.
pub proof fn lemma_spans_in_bounds(cs: Seq<char>)
    ensures
        forall|k: int|
            0 <= k < page_spans(cs).len() ==> 0 <= (#[trigger] page_spans(cs)[k]).0
                < page_spans(cs)[k].1 <= cs.len(),
{
    lemma_page_spans_in_bounds(cs, 0);
}

/// The chunk records of an extracted document, numbered from 0 in document
/// order. Offsets within a page count Unicode scalars; the document offsets
/// add the page's start.
pub fn plan_chunks(file_uid: &str, content_hash: &str, pages: &Vec<PageBlock>) -> (rs: Vec<
    ChunkRecord,
>)
    requires
        forall|p: int|
            0 <= p < pages@.len() ==> #[trigger] pages@[p].start + pages@[p].text@.len()
                <= usize::MAX,
    ensures
        records_of(rs@, file_uid@, content_hash@, pages@),
{
    let mut rs: Vec<ChunkRecord> = Vec::new();
    let mut p: usize = 0;
    while p < pages.len()
        invariant
            p <= pages@.len(),
            forall|q: int|
                0 <= q < pages@.len() ==> #[trigger] pages@[q].start + pages@[q].text@.len()
                    <= usize::MAX,
            rs@.len() == doc_plan(pages@.take(p as int)).len(),
            forall|k: int|
                0 <= k < rs@.len() ==> record_of(
                    #[trigger] rs@[k],
                    file_uid@,
                    content_hash@,
                    pages@,
                    k,
                    doc_plan(pages@.take(p as int))[k],
                ),
        decreases pages.len() - p,
    {
        let page = &pages[p];
        let cs = chars_of(page.text.as_str());
        let spans = chunk_spans(&cs);
        let ghost before = doc_plan(pages@.take(p as int));
        let ghost pre = pages@.take(p as int);
        let ghost post = pages@.take(p + 1);
        proof {
            assert(post.drop_last() == pre);
            lemma_page_spans_in_bounds(cs@, 0);
        }
        let ghost added = page_spans(cs@).map_values(|s: (int, int)| (p as int, s.0, s.1));
        assert(doc_plan(post) == before + added);
        assert forall|k: int| 0 <= k < rs@.len() implies record_of(
            #[trigger] rs@[k],
            file_uid@,
            content_hash@,
            pages@,
            k,
            doc_plan(post)[k],
        ) by {
            assert(doc_plan(post)[k] == before[k]);
        }
        let mut j: usize = 0;
        while j < spans.len()
            invariant
                p < pages@.len(),
                page == pages@[p as int],
                cs@ == page.text@,
                pre == pages@.take(p as int),
                post == pages@.take(p + 1),
                doc_plan(post) == before + added,
                added == page_spans(cs@).map_values(|s: (int, int)| (p as int, s.0, s.1)),
                spans@.len() == page_spans(cs@).len(),
                forall|k: int|
                    0 <= k < spans@.len() ==> (#[trigger] spans@[k]).0 == page_spans(cs@)[k].0
                        && spans@[k].1 == page_spans(cs@)[k].1,
                forall|k: int|
                    0 <= k < page_spans(cs@).len() ==> 0 <= (#[trigger] page_spans(cs@)[k]).0
                        < page_spans(cs@)[k].1 <= cs@.len(),
                page.start + page.text@.len() <= usize::MAX,
                j <= spans@.len(),
                rs@.len() == before.len() + j,
                forall|k: int|
                    0 <= k < rs@.len() ==> record_of(
                        #[trigger] rs@[k],
                        file_uid@,
                        content_hash@,
                        pages@,
                        k,
                        doc_plan(post)[k],
                    ),
            decreases spans.len() - j,
        {
            let (s, e) = spans[j];
            assert(spans@[j as int].0 == page_spans(cs@)[j as int].0);
            let text = string_of(&cs, s, e);
            let id = make_chunk_id(file_uid, content_hash, page.page_no, s, e, text.as_str());
            let tokens = count_words(&cs, s, e);
            let order = rs.len() as u64;
            let rec = ChunkRecord {
                chunk_id: id,
                file_uid: file_uid.to_owned(),
                content_hash: content_hash.to_owned(),
                order,
                text,
                page: page.page_no,
                start_char: s,
                end_char: e,
                byte_start: page.start + s,
                byte_end: page.start + e,
                tokens_est: tokens,
            };
            assert(doc_plan(post)[rs@.len() as int] == added[j as int]);
            rs.push(rec);
            j = j + 1;
        }
        p = p + 1;
    }
    assert(pages@.take(pages@.len() as int) == pages@);
    rs
}


/// Delivering the same completion again plans the same chunks with the same
/// ids, so a retried build reproduces the mirror.
pub proof fn lemma_redelivery_same_chunks(
    a: Seq<ChunkRecord>,
    b: Seq<ChunkRecord>,
    file_uid: Seq<char>,
    content_hash: Seq<char>,
    pages: Seq<PageBlock>,
)
    requires
        records_of(a, file_uid, content_hash, pages),
        records_of(b, file_uid, content_hash, pages),
    ensures
        a.len() == b.len(),
        forall|k: int|
            0 <= k < a.len() ==> (#[trigger] a[k]).chunk_id@ == b[k].chunk_id@ && a[k].order
                == b[k].order && a[k].text@ == b[k].text@,
{
    assert forall|k: int| 0 <= k < a.len() implies (#[trigger] a[k]).chunk_id@ == b[k].chunk_id@
        && a[k].order == b[k].order && a[k].text@ == b[k].text@ by {
        assert(record_of(a[k], file_uid, content_hash, pages, k, doc_plan(pages)[k]));
        assert(record_of(b[k], file_uid, content_hash, pages, k, doc_plan(pages)[k]));
    }
}

/// The step of a mirror build that the caller performs next. Chunk steps carry
/// the chunk's order.
#[derive(Clone, Copy, Debug, PartialEq, Eq, Structural)]
pub enum MirrorStep {
    /// Write `meta.json.tmp`, flush it to disk and rename it to `meta.json`.
    WriteMeta,
    /// Upsert the `mirror_docs` row of the file.
    UpsertDoc,
    /// Delete every `mirror_chunks` row of the file.
    ClearChunks,
    /// Create (truncate) `chunks.jsonl.tmp`.
    OpenChunks,
    /// Append the chunk's line to `chunks.jsonl.tmp`.
    WriteChunk(u64),
    /// Insert the chunk's `mirror_chunks` row.
    InsertChunk(u64),
    /// Publish `MirrorChunkUpserted` for the chunk.
    PublishChunk(u64),
    /// Flush `chunks.jsonl.tmp` to disk and rename it to `chunks.jsonl`.
    CommitChunks,
    /// Publish `MirrorDocUpserted`, last of all.
    PublishDoc,
    /// Delete the file's rows, remove `meta.json`, `chunks.jsonl` and their
    /// temporary files, and publish `MirrorDocDeleted`.
    RollBack,
    /// Every step succeeded.
    Done,
    /// A step failed and the build was rolled back.
    Failed,
}

/// A mirror build of one `ExtractionCompleted`, after its source path has been
/// resolved and its mirror directory created.
#[derive(Clone, Copy, Debug)]
pub struct MirrorBuild {
    pub chunk_count: u64,
    pub step: MirrorStep,
}

/// What follows `step` when it succeeded.
pub open spec fn step_after(step: MirrorStep, n: u64) -> MirrorStep {
    match step {
        MirrorStep::WriteMeta => MirrorStep::UpsertDoc,
        MirrorStep::UpsertDoc => MirrorStep::ClearChunks,
        MirrorStep::ClearChunks => MirrorStep::OpenChunks,
        MirrorStep::OpenChunks => if n == 0 {
            MirrorStep::CommitChunks
        } else {
            MirrorStep::WriteChunk(0)
        },
        MirrorStep::WriteChunk(k) => MirrorStep::InsertChunk(k),
        MirrorStep::InsertChunk(k) => MirrorStep::PublishChunk(k),
        MirrorStep::PublishChunk(k) => if k + 1 >= n {
            MirrorStep::CommitChunks
        } else {
            MirrorStep::WriteChunk((k + 1) as u64)
        },
        MirrorStep::CommitChunks => MirrorStep::PublishDoc,
        MirrorStep::PublishDoc => MirrorStep::Done,
        MirrorStep::RollBack => MirrorStep::Failed,
        MirrorStep::Done => MirrorStep::Done,
        MirrorStep::Failed => MirrorStep::Failed,
    }
}

/// The build after its current step succeeded (`ok`) or failed. A failure
/// before the end leads to the roll-back; the roll-back ends the build
/// whatever its outcome.
pub open spec fn next_build(m: MirrorBuild, ok: bool) -> MirrorBuild {
    let step = match m.step {
        MirrorStep::RollBack => MirrorStep::Failed,
        MirrorStep::Done => MirrorStep::Done,
        MirrorStep::Failed => MirrorStep::Failed,
        _ => if ok {
            step_after(m.step, m.chunk_count)
        } else {
            MirrorStep::RollBack
        },
    };
    MirrorBuild { chunk_count: m.chunk_count, step }
}

impl MirrorBuild {
    /// Chunk steps name a chunk of the document.
    pub open spec fn wf(&self) -> bool {
        match self.step {
            MirrorStep::WriteChunk(k) => k < self.chunk_count,
            MirrorStep::InsertChunk(k) => k < self.chunk_count,
            MirrorStep::PublishChunk(k) => k < self.chunk_count,
            _ => true,
        }
    }

    /// A build of a document with `chunk_count` chunks, starting with
    /// `meta.json`.
    pub fn new(chunk_count: u64) -> (m: MirrorBuild)
        ensures
            m.chunk_count == chunk_count,
            m.step == MirrorStep::WriteMeta,
            m.wf(),
    {
        MirrorBuild { chunk_count, step: MirrorStep::WriteMeta }
    }

    /// Records the outcome of the current step and moves to the next one.
    pub fn advance(&mut self, ok: bool)
        requires
            old(self).wf(),
        ensures
            *final(self) == next_build(*old(self), ok),
            final(self).wf(),
    {
        let n = self.chunk_count;
        let next = match self.step {
            MirrorStep::RollBack => MirrorStep::Failed,
            MirrorStep::Done => MirrorStep::Done,
            MirrorStep::Failed => MirrorStep::Failed,
            _ => if !ok {
                MirrorStep::RollBack
            } else {
                match self.step {
                    MirrorStep::WriteMeta => MirrorStep::UpsertDoc,
                    MirrorStep::UpsertDoc => MirrorStep::ClearChunks,
                    MirrorStep::ClearChunks => MirrorStep::OpenChunks,
                    MirrorStep::OpenChunks => if n == 0 {
                        MirrorStep::CommitChunks
                    } else {
                        MirrorStep::WriteChunk(0)
                    },
                    MirrorStep::WriteChunk(k) => MirrorStep::InsertChunk(k),
                    MirrorStep::InsertChunk(k) => MirrorStep::PublishChunk(k),
                    MirrorStep::PublishChunk(k) => if k + 1 >= n {
                        MirrorStep::CommitChunks
                    } else {
                        MirrorStep::WriteChunk(k + 1)
                    },
                    MirrorStep::CommitChunks => MirrorStep::PublishDoc,
                    _ => MirrorStep::Done,
                }
            },
        };
        self.step = next;
    }

    /// Whether the build has ended.
    pub fn is_finished(&self) -> (r: bool)
        ensures
            r == (self.step == MirrorStep::Done || self.step == MirrorStep::Failed),
    {
        match self.step {
            MirrorStep::Done | MirrorStep::Failed => true,
            _ => false,
        }
    }
}

/// What a file's mirror holds on disk and in the catalog.
pub struct MirrorState {
    pub meta: bool,
    pub meta_tmp: bool,
    pub tmp_lines: Option<nat>,
    pub chunks_lines: Option<nat>,
    pub doc_row: bool,
    pub chunk_rows: nat,
}

/// The effect of performing `step` with outcome `ok`. A failed step changes
/// nothing that the roll-back does not remove; errors while removing files
/// during the roll-back are ignored, as removing what is absent fails.
pub open spec fn effect(d: MirrorState, step: MirrorStep, ok: bool) -> MirrorState {
    match step {
        MirrorStep::RollBack => MirrorState {
            meta: false,
            meta_tmp: false,
            tmp_lines: None,
            chunks_lines: None,
            doc_row: false,
            chunk_rows: 0,
        },
        _ => if !ok {
            d
        } else {
            match step {
                MirrorStep::WriteMeta => MirrorState { meta: true, meta_tmp: false, ..d },
                MirrorStep::UpsertDoc => MirrorState { doc_row: true, ..d },
                MirrorStep::ClearChunks => MirrorState { chunk_rows: 0, ..d },
                MirrorStep::OpenChunks => MirrorState { tmp_lines: Some(0), ..d },
                MirrorStep::WriteChunk(_) => MirrorState {
                    tmp_lines: match d.tmp_lines {
                        Some(l) => Some(l + 1),
                        None => None,
                    },
                    ..d
                },
                MirrorStep::InsertChunk(_) => MirrorState { chunk_rows: d.chunk_rows + 1, ..d },
                MirrorStep::CommitChunks => MirrorState {
                    tmp_lines: None,
                    chunks_lines: d.tmp_lines,
                    ..d
                },
                _ => d,
            }
        },
    }
}

/// The build and the mirror after the outcomes `oks`, one per step.
pub open spec fn run_build(m: MirrorBuild, d: MirrorState, oks: Seq<bool>) -> (MirrorBuild, MirrorState)
    decreases oks.len(),
{
    if oks.len() == 0 {
        (m, d)
    } else {
        run_build(next_build(m, oks[0]), effect(d, m.step, oks[0]), oks.drop_first())
    }
}

/// What holds of the mirror while the build is at each step.
pub open spec fn progress(m: MirrorBuild, d: MirrorState) -> bool {
    let n = m.chunk_count as nat;
    match m.step {
        MirrorStep::WriteMeta => true,
        MirrorStep::UpsertDoc => d.meta && !d.meta_tmp,
        MirrorStep::ClearChunks => d.meta && !d.meta_tmp && d.doc_row,
        MirrorStep::OpenChunks => d.meta && !d.meta_tmp && d.doc_row && d.chunk_rows == 0,
        MirrorStep::WriteChunk(k) => d.meta && !d.meta_tmp && d.doc_row && d.chunk_rows == k
            && d.tmp_lines == Some(k as nat) && k < n,
        MirrorStep::InsertChunk(k) => d.meta && !d.meta_tmp && d.doc_row && d.chunk_rows == k
            && d.tmp_lines == Some((k + 1) as nat) && k < n,
        MirrorStep::PublishChunk(k) => d.meta && !d.meta_tmp && d.doc_row && d.chunk_rows == k + 1
            && d.tmp_lines == Some((k + 1) as nat) && k < n,
        MirrorStep::CommitChunks => d.meta && !d.meta_tmp && d.doc_row && d.chunk_rows == n
            && d.tmp_lines == Some(n),
        MirrorStep::PublishDoc | MirrorStep::Done => d.meta && !d.meta_tmp && d.doc_row
            && d.chunk_rows == n && d.chunks_lines == Some(n) && d.tmp_lines is None,
        MirrorStep::RollBack => true,
        MirrorStep::Failed => !d.meta && !d.meta_tmp && d.tmp_lines is None && d.chunks_lines is None
            && !d.doc_row && d.chunk_rows == 0,
    }
}

proof fn lemma_progress_run(m: MirrorBuild, d: MirrorState, oks: Seq<bool>)
    requires
        progress(m, d),
    ensures
        progress(run_build(m, d, oks).0, run_build(m, d, oks).1),
        run_build(m, d, oks).0.chunk_count == m.chunk_count,
    decreases oks.len(),
{
    if oks.len() > 0 {
        lemma_progress_run(next_build(m, oks[0]), effect(d, m.step, oks[0]), oks.drop_first());
    }
}

/// A build that ends in `Done`, whatever the mirror held before (say, the
/// remains of an interrupted build), leaves `meta.json` and `chunks.jsonl`
/// both present, neither temporary file, and as many `mirror_chunks` rows as
/// `chunks.jsonl` has lines, one per chunk of the document.
pub proof fn lemma_done_mirror_complete(chunk_count: u64, d: MirrorState, oks: Seq<bool>)
    requires
        run_build(MirrorBuild { chunk_count, step: MirrorStep::WriteMeta }, d, oks).0.step
            == MirrorStep::Done,
    ensures
        ({
            let e = run_build(MirrorBuild { chunk_count, step: MirrorStep::WriteMeta }, d, oks).1;
            &&& e.meta
            &&& !e.meta_tmp
            &&& e.tmp_lines is None
            &&& e.doc_row
            &&& e.chunks_lines == Some(chunk_count as nat)
            &&& e.chunk_rows == chunk_count
        }),
{
    lemma_progress_run(MirrorBuild { chunk_count, step: MirrorStep::WriteMeta }, d, oks);
}

/// A build that fails midway ends with neither `meta.json`, `chunks.jsonl`
/// nor their temporary files on disk, and with no `mirror_docs` or
/// `mirror_chunks` row for the file.
pub proof fn lemma_failed_mirror_clean(chunk_count: u64, d: MirrorState, oks: Seq<bool>)
    requires
        run_build(MirrorBuild { chunk_count, step: MirrorStep::WriteMeta }, d, oks).0.step
            == MirrorStep::Failed,
    ensures
        ({
            let e = run_build(MirrorBuild { chunk_count, step: MirrorStep::WriteMeta }, d, oks).1;
            &&& !e.meta
            &&& !e.meta_tmp
            &&& e.tmp_lines is None
            &&& e.chunks_lines is None
            &&& !e.doc_row
            &&& e.chunk_rows == 0
        }),
{
    lemma_progress_run(MirrorBuild { chunk_count, step: MirrorStep::WriteMeta }, d, oks);
}

/// The path of `path` relative to `root`, when `root` is a whole-component
/// prefix of it.
pub uninterp spec fn stripped_of(path: Seq<char>, root: Seq<char>) -> Option<Seq<char>>;

/// Relies on `camino::Utf8Path::strip_prefix`: the rest of `path` after the
/// components of `root`, or an error when `root` is not a prefix of it.
#[verifier::external_body]
fn strip_root(path: &str, root: &str) -> (r: Option<String>)
    ensures
        match r {
            Some(s) => stripped_of(path@, root@) == Some(s@),
            None => stripped_of(path@, root@) is None,
        },
{
    camino::Utf8Path::new(path).strip_prefix(root).ok().map(|p| p.as_str().to_string())
}

/// How many components a path has, as `camino::Utf8Path::components` counts
/// them (`.` segments and repeated separators are not components).
pub uninterp spec fn component_count_of(path: Seq<char>) -> nat;

/// Relies on `camino::Utf8Path::components`: the number of components of the
/// normalized path.
#[verifier::external_body]
fn component_count(path: &str) -> (r: usize)
    ensures
        r == component_count_of(path@),
{
    camino::Utf8Path::new(path).components().count()
}

/// Among the first `n` roots, the index of the one with the most components
/// that is a prefix of `path` (the earliest among equally deep ones).
pub open spec fn best_root(path: Seq<char>, roots: Seq<Seq<char>>, n: int) -> Option<int>
    decreases n,
{
    if n <= 0 {
        None
    } else {
        let b = best_root(path, roots, n - 1);
        if stripped_of(path, roots[n - 1]) is Some && (b is None || component_count_of(roots[n - 1])
            > component_count_of(roots[b->0])) {
            Some(n - 1)
        } else {
            b
        }
    }
}

/// `path` relative to the deepest configured root it lies under, or `path`
/// itself when it lies under none.
pub open spec fn relative_path(path: Seq<char>, roots: Seq<Seq<char>>) -> Seq<char> {
    match best_root(path, roots, roots.len() as int) {
        Some(i) => stripped_of(path, roots[i])->0,
        None => path,
    }
}

proof fn lemma_best_root_some(path: Seq<char>, roots: Seq<Seq<char>>, n: int)
    requires
        0 <= n <= roots.len(),
    ensures
        best_root(path, roots, n) matches Some(i) ==> 0 <= i < n && stripped_of(path, roots[i]) is Some,
    decreases n,
{
    if n > 0 {
        lemma_best_root_some(path, roots, n - 1);
    }
}

/// The mirror path of a source file: the file's path relative to the
/// configured root with the most components that it lies under.
pub fn relativize(path: &str, roots: &Vec<String>) -> (rel: String)
    ensures
        rel@ == relative_path(path@, roots@.map_values(|r: String| r@)),
{
    let ghost rs = roots@.map_values(|r: String| r@);
    let mut best: Option<(usize, String)> = None;
    let mut i: usize = 0;
    while i < roots.len()
        invariant
            i <= roots@.len(),
            rs == roots@.map_values(|r: String| r@),
            match best {
                Some((b, s)) => best_root(path@, rs, i as int) == Some(b as int) && b < i
                    && stripped_of(path@, rs[b as int]) == Some(s@),
                None => best_root(path@, rs, i as int) is None,
            },
        decreases roots.len() - i,
    {
        let root = &roots[i];
        match strip_root(path, root.as_str()) {
            Some(s) => {
                let longer = match &best {
                    Some((b, _)) => component_count(root.as_str()) > component_count(roots[*b].as_str()),
                    None => true,
                };
                if longer {
                    best = Some((i, s));
                }
            },
            None => {},
        }
        i = i + 1;
    }
    proof {
        lemma_best_root_some(path@, rs, rs.len() as int);
    }
    match best {
        Some((_, s)) => s,
        None => path.to_owned(),
    }
}

} // verus!
