//! The extraction worker: how a requested file becomes an
//! `ExtractionCompleted` or `ExtractionFailed`, deduplicated per
//! (file_uid, content_hash), and how the extractor is chosen and invoked.
use vstd::prelude::*;

use crate::events::SourceEvent;
use crate::pages::{pages_of, pieces, split_pages};
use crate::text::{chars_of, is_space, is_whitespace};

verus! {

/// The words of a command line as a POSIX shell would split them, or `None`
/// when its quoting is unbalanced.
pub uninterp spec fn shell_words_of(cmd: Seq<char>) -> Option<Seq<Seq<char>>>;

/// The extension of the last component of a path, if it has one.
pub uninterp spec fn extension_of(path: Seq<char>) -> Option<Seq<char>>;

/// The lowercase form of a string.
pub uninterp spec fn lower_of(s: Seq<char>) -> Seq<char>;

/// Relies on `shell_words::split`: the shell words of `cmd`, or a parse error.
#[verifier::external_body]
fn shell_split(cmd: &str) -> (r: Option<Vec<String>>)
    ensures
        match r {
            Some(v) => shell_words_of(cmd@) == Some(v@.map_values(|s: String| s@)),
            None => shell_words_of(cmd@) is None,
        },
{
    shell_words::split(cmd).ok()
}

/// Relies on `camino::Utf8Path::extension`: the text after the last dot of
/// the file name, if any.
#[verifier::external_body]
fn path_extension(path: &str) -> (r: Option<String>)
    ensures
        match r {
            Some(e) => extension_of(path@) == Some(e@),
            None => extension_of(path@) is None,
        },
{
    camino::Utf8Path::new(path).extension().map(|e| e.to_string())
}

/// Relies on `str::to_lowercase`: the lowercase form, a function of the
/// characters alone.
#[verifier::external_body]
fn lowercase(s: &str) -> (r: String)
    ensures
        r@ == lower_of(s@),
{
    s.to_lowercase()
}

/// Why a file could not be extracted.
#[derive(Clone, Debug, PartialEq, Eq, Structural)]
pub enum ExtractError {
    /// The file is not plain text and no extractor command is configured.
    NoCommand,
    /// The extractor command's quoting is unbalanced.
    BadCommand,
    /// The extractor command has no words.
    EmptyCommand,
}

/// The extensions read in-process.
pub open spec fn plaintext_ext(e: Seq<char>) -> bool {
    e == seq!['t', 'x', 't'] || e == seq!['m', 'd'] || e == seq!['r', 's']
        || e == seq!['t', 'o', 'm', 'l'] || e == seq!['j', 's', 'o', 'n']
        || e == seq!['c', 'p', 'p'] || e == seq!['c'] || e == seq!['h']
        || e == seq!['h', 'p', 'p']
}

/// Whether a path names a plain-text file: its extension, lowercased, is one
/// of the plain-text extensions.
pub open spec fn is_plaintext_path(path: Seq<char>) -> bool {
    match extension_of(path) {
        Some(e) => plaintext_ext(lower_of(e)),
        None => false,
    }
}

fn ext_matches(cs: &Vec<char>) -> (r: bool)
    ensures
        r == plaintext_ext(cs@),
{
    proof {
        if cs@.len() == 3 && cs@[0] == 't' && cs@[1] == 'x' && cs@[2] == 't' {
            assert(cs@ =~= seq!['t', 'x', 't']);
        }
        if cs@.len() == 2 && cs@[0] == 'm' && cs@[1] == 'd' {
            assert(cs@ =~= seq!['m', 'd']);
        }
        if cs@.len() == 2 && cs@[0] == 'r' && cs@[1] == 's' {
            assert(cs@ =~= seq!['r', 's']);
        }
        if cs@.len() == 4 && cs@[0] == 't' && cs@[1] == 'o' && cs@[2] == 'm' && cs@[3] == 'l' {
            assert(cs@ =~= seq!['t', 'o', 'm', 'l']);
        }
        if cs@.len() == 4 && cs@[0] == 'j' && cs@[1] == 's' && cs@[2] == 'o' && cs@[3] == 'n' {
            assert(cs@ =~= seq!['j', 's', 'o', 'n']);
        }
        if cs@.len() == 3 && cs@[0] == 'c' && cs@[1] == 'p' && cs@[2] == 'p' {
            assert(cs@ =~= seq!['c', 'p', 'p']);
        }
        if cs@.len() == 1 && cs@[0] == 'c' {
            assert(cs@ =~= seq!['c']);
        }
        if cs@.len() == 1 && cs@[0] == 'h' {
            assert(cs@ =~= seq!['h']);
        }
        if cs@.len() == 3 && cs@[0] == 'h' && cs@[1] == 'p' && cs@[2] == 'p' {
            assert(cs@ =~= seq!['h', 'p', 'p']);
        }
    }
    (cs.len() == 3 && cs[0] == 't' && cs[1] == 'x' && cs[2] == 't')
        || (cs.len() == 2 && cs[0] == 'm' && cs[1] == 'd')
        || (cs.len() == 2 && cs[0] == 'r' && cs[1] == 's')
        || (cs.len() == 4 && cs[0] == 't' && cs[1] == 'o' && cs[2] == 'm' && cs[3] == 'l')
        || (cs.len() == 4 && cs[0] == 'j' && cs[1] == 's' && cs[2] == 'o' && cs[3] == 'n')
        || (cs.len() == 3 && cs[0] == 'c' && cs[1] == 'p' && cs[2] == 'p')
        || (cs.len() == 1 && cs[0] == 'c')
        || (cs.len() == 1 && cs[0] == 'h')
        || (cs.len() == 3 && cs[0] == 'h' && cs[1] == 'p' && cs[2] == 'p')
}

/// Whether `path` is read in-process rather than through the extractor.
pub fn is_plaintext(path: &str) -> (r: bool)
    ensures
        r == is_plaintext_path(path@),
{
    match path_extension(path) {
        None => false,
        Some(e) => {
            let l = lowercase(e.as_str());
            let cs = chars_of(l.as_str());
            ext_matches(&cs)
        },
    }
}

/// Whether `s` holds nothing but white space (what trimming leaves empty).
pub open spec fn blank(s: Seq<char>) -> bool {
    forall|i: int| 0 <= i < s.len() ==> is_space(#[trigger] s[i])
}

/// Whether a command line is empty once trimmed.
pub fn is_blank(s: &str) -> (r: bool)
    ensures
        r == blank(s@),
{
    let cs = chars_of(s);
    let mut i: usize = 0;
    while i < cs.len()
        invariant
            cs@ == s@,
            i <= cs@.len(),
            forall|k: int| 0 <= k < i ==> is_space(#[trigger] cs@[k]),
        decreases cs.len() - i,
    {
        if !is_whitespace(cs[i]) {
            return false;
        }
        i = i + 1;
    }
    true
}

/// How the text of a file is obtained.
#[derive(Clone, Debug)]
pub enum ExtractSource {
    /// Read the file as UTF-8 text.
    ReadFile,
    /// Run this program with these arguments (the file's path last) and take
    /// its standard output.
    RunCommand(Vec<String>),
}

/// The words of the extractor invocation for `path`: the command's shell
/// words with the path appended.
pub open spec fn argv_of(cmd: Seq<char>, path: Seq<char>) -> Result<Seq<Seq<char>>, ExtractError> {
    match shell_words_of(cmd) {
        None => Err(ExtractError::BadCommand),
        Some(ws) => if ws.len() == 0 {
            Err(ExtractError::EmptyCommand)
        } else {
            Ok(ws.push(path))
        },
    }
}

/// The invocation of the extractor command `cmd` on `path`.
pub fn extraction_argv(cmd: &str, path: &str) -> (r: Result<Vec<String>, ExtractError>)
    ensures
        match r {
            Ok(v) => argv_of(cmd@, path@) == Ok::<Seq<Seq<char>>, ExtractError>(
                v@.map_values(|s: String| s@),
            ),
            Err(e) => argv_of(cmd@, path@) == Err::<Seq<Seq<char>>, ExtractError>(e),
        },
{
    match shell_split(cmd) {
        None => Err(ExtractError::BadCommand),
        Some(mut ws) => {
            if ws.len() == 0 {
                Err(ExtractError::EmptyCommand)
            } else {
                let ghost before = ws@.map_values(|s: String| s@);
                ws.push(path.to_owned());
                assert(ws@.map_values(|s: String| s@) =~= before.push(path@));
                Ok(ws)
            }
        },
    }
}

/// Where the text of `path` comes from: plain-text files are read in-process;
/// others go through the extractor, which must be configured.
pub open spec fn source_of(path: Seq<char>, cmd: Seq<char>) -> Result<Option<Seq<Seq<char>>>, ExtractError> {
    if is_plaintext_path(path) {
        Ok(None)
    } else if blank(cmd) {
        Err(ExtractError::NoCommand)
    } else {
        match argv_of(cmd, path) {
            Ok(v) => Ok(Some(v)),
            Err(e) => Err(e),
        }
    }
}

/// Chooses how to obtain the text of `path`.
pub fn extraction_source(path: &str, cmd: &str) -> (r: Result<ExtractSource, ExtractError>)
    ensures
        match r {
            Ok(ExtractSource::ReadFile) => source_of(path@, cmd@) == Ok::<
                Option<Seq<Seq<char>>>,
                ExtractError,
            >(None),
            Ok(ExtractSource::RunCommand(v)) => source_of(path@, cmd@) == Ok::<
                Option<Seq<Seq<char>>>,
                ExtractError,
            >(Some(v@.map_values(|s: String| s@))),
            Err(e) => source_of(path@, cmd@) == Err::<Option<Seq<Seq<char>>>, ExtractError>(e),
        },
{
    if is_plaintext(path) {
        Ok(ExtractSource::ReadFile)
    } else if is_blank(cmd) {
        Err(ExtractError::NoCommand)
    } else {
        match extraction_argv(cmd, path) {
            Ok(v) => Ok(ExtractSource::RunCommand(v)),
            Err(e) => Err(e),
        }
    }
}

/// The name recorded as the extractor: `builtin` for plain text, else the
/// first word of the command (`cmd` when it has none).
pub open spec fn extractor_name_of(path: Seq<char>, cmd: Seq<char>) -> Seq<char> {
    if is_plaintext_path(path) {
        seq!['b', 'u', 'i', 'l', 't', 'i', 'n']
    } else {
        match shell_words_of(cmd) {
            Some(ws) => if ws.len() > 0 {
                ws[0]
            } else {
                seq!['c', 'm', 'd']
            },
            None => seq!['c', 'm', 'd'],
        }
    }
}

/// The extractor name recorded for `path`.
pub fn extractor_name(path: &str, cmd: &str) -> (r: String)
    ensures
        r@ == extractor_name_of(path@, cmd@),
{
    if is_plaintext(path) {
        let mut s = String::new();
        proof {
            reveal_strlit("builtin");
        }
        s.append("builtin");
        s
    } else {
        let fallback = {
            let mut s = String::new();
            proof {
                reveal_strlit("cmd");
            }
            s.append("cmd");
            s
        };
        match shell_split(cmd) {
            Some(ws) => {
                if ws.len() > 0 {
                    ws[0].clone()
                } else {
                    fallback
                }
            },
            None => fallback,
        }
    }
}

/// The event published when `text` was extracted for a claimed job: its
/// pages split at form feeds.
pub fn completed_event(
    file_uid: String,
    content_hash: String,
    extractor: String,
    text: &str,
) -> (e: SourceEvent)
    requires
        text@.len() < u32::MAX,
    ensures
        e matches SourceEvent::ExtractionCompleted { file_uid: u, content_hash: h, extractor: x, extractor_version: v, pages } && u@ == file_uid@ && h@ == content_hash@ && x@ == extractor@ && v@.len() == 0 && pages_of(pages@, pieces(text@)),
{
    let pages = split_pages(text);
    SourceEvent::ExtractionCompleted {
        file_uid,
        content_hash,
        extractor,
        extractor_version: String::new(),
        pages,
    }
}

/// The step of a job that the worker performs next.
#[derive(Clone, Copy, Debug, PartialEq, Eq, Structural)]
pub enum JobStep {
    /// Read the file's path from the catalog by its `file_uid`.
    Lookup,
    /// Read the file and compute its content hash.
    Hash,
    /// Record a failed job row (empty content hash) with the error.
    RecordLookupFailure,
    /// Publish `ExtractionFailed` for the file.
    PublishLookupFailure,
    /// Insert the running job row for (file_uid, content_hash) unless one
    /// exists; success means this worker owns the pair.
    Claim,
    /// Obtain the text and split it into pages.
    Extract,
    /// Mark the job row done.
    MarkDone,
    /// Record the content hash on the file's row.
    SetFileHash,
    /// Publish `ExtractionCompleted`.
    PublishCompleted,
    /// Mark the job row failed with the error.
    MarkFailed,
    /// Publish `ExtractionFailed`.
    PublishFailed,
    /// Nothing left to do for this job.
    Finished,
}

/// One requested file on its way through a worker.
#[derive(Clone, Copy, Debug)]
pub struct JobRun {
    pub step: JobStep,
    /// Whether this job owns its (file_uid, content_hash) pair.
    pub claimed: bool,
}

/// The job after its current step succeeded (`ok`) or failed. A failed claim
/// means another job already owns the pair, and the job ends silently. The
/// outcome of recording steps does not change the course.
pub open spec fn next_job(j: JobRun, ok: bool) -> JobRun {
    match j.step {
        JobStep::Lookup => JobRun {
            step: if ok { JobStep::Hash } else { JobStep::RecordLookupFailure },
            ..j
        },
        JobStep::Hash => JobRun {
            step: if ok { JobStep::Claim } else { JobStep::RecordLookupFailure },
            ..j
        },
        JobStep::RecordLookupFailure => JobRun { step: JobStep::PublishLookupFailure, ..j },
        JobStep::PublishLookupFailure => JobRun { step: JobStep::Finished, ..j },
        JobStep::Claim => if ok {
            JobRun { step: JobStep::Extract, claimed: true }
        } else {
            JobRun { step: JobStep::Finished, ..j }
        },
        JobStep::Extract => JobRun {
            step: if ok { JobStep::MarkDone } else { JobStep::MarkFailed },
            ..j
        },
        JobStep::MarkDone => JobRun { step: JobStep::SetFileHash, ..j },
        JobStep::SetFileHash => JobRun { step: JobStep::PublishCompleted, ..j },
        JobStep::PublishCompleted => JobRun { step: JobStep::Finished, ..j },
        JobStep::MarkFailed => JobRun { step: JobStep::PublishFailed, ..j },
        JobStep::PublishFailed => JobRun { step: JobStep::Finished, ..j },
        JobStep::Finished => j,
    }
}

impl JobRun {
    /// A job for a freshly requested file.
    pub fn new() -> (j: JobRun)
        ensures
            j.step == JobStep::Lookup,
            !j.claimed,
    {
        JobRun { step: JobStep::Lookup, claimed: false }
    }

    /// Records the outcome of the current step and moves on.
    pub fn advance(&mut self, ok: bool)
        ensures
            *final(self) == next_job(*old(self), ok),
    {
        let step = match self.step {
            JobStep::Lookup => if ok { JobStep::Hash } else { JobStep::RecordLookupFailure },
            JobStep::Hash => if ok { JobStep::Claim } else { JobStep::RecordLookupFailure },
            JobStep::RecordLookupFailure => JobStep::PublishLookupFailure,
            JobStep::PublishLookupFailure => JobStep::Finished,
            JobStep::Claim => if ok {
                self.claimed = true;
                JobStep::Extract
            } else {
                JobStep::Finished
            },
            JobStep::Extract => if ok { JobStep::MarkDone } else { JobStep::MarkFailed },
            JobStep::MarkDone => JobStep::SetFileHash,
            JobStep::SetFileHash => JobStep::PublishCompleted,
            JobStep::PublishCompleted => JobStep::Finished,
            JobStep::MarkFailed => JobStep::PublishFailed,
            JobStep::PublishFailed => JobStep::Finished,
            JobStep::Finished => JobStep::Finished,
        };
        self.step = step;
    }
}

/// Whether a step publishes the outcome of a claimed pair.
pub open spec fn is_terminal_publish(s: JobStep) -> bool {
    s == JobStep::PublishCompleted || s == JobStep::PublishFailed
}

/// How many steps of the job, from `j` on with outcomes `oks`, publish the
/// outcome of its pair.
pub open spec fn terminal_publishes(j: JobRun, oks: Seq<bool>) -> nat
    decreases oks.len(),
{
    if oks.len() == 0 {
        0
    } else {
        (if is_terminal_publish(j.step) { 1nat } else { 0nat }) + terminal_publishes(
            next_job(j, oks[0]),
            oks.drop_first(),
        )
    }
}

/// Steps that can still lead to a terminal publish have passed the claim.
pub open spec fn job_progress(j: JobRun, seen: nat) -> bool {
    match j.step {
        JobStep::Lookup | JobStep::Hash | JobStep::RecordLookupFailure
        | JobStep::PublishLookupFailure | JobStep::Claim => seen == 0 && !j.claimed,
        JobStep::Extract | JobStep::MarkDone | JobStep::SetFileHash | JobStep::MarkFailed => seen
            == 0 && j.claimed,
        JobStep::PublishCompleted | JobStep::PublishFailed => seen == 0 && j.claimed,
        JobStep::Finished => seen <= 1 && (seen == 1 ==> j.claimed),
    }
}

proof fn lemma_job_progress(j: JobRun, seen: nat, oks: Seq<bool>)
    requires
        job_progress(j, seen),
    ensures
        seen + terminal_publishes(j, oks) <= 1,
    decreases oks.len(),
{
    if oks.len() > 0 {
        let s = if is_terminal_publish(j.step) { seen + 1 } else { seen };
        lemma_job_progress(next_job(j, oks[0]), s, oks.drop_first());
    }
}

/// The job after the outcomes `oks`, one per step.
pub open spec fn run_job(j: JobRun, oks: Seq<bool>) -> JobRun
    decreases oks.len(),
{
    if oks.len() == 0 {
        j
    } else {
        run_job(next_job(j, oks[0]), oks.drop_first())
    }
}

proof fn lemma_job_progress_run(j: JobRun, seen: nat, oks: Seq<bool>)
    requires
        job_progress(j, seen),
    ensures
        job_progress(run_job(j, oks), seen + terminal_publishes(j, oks)),
    decreases oks.len(),
{
    if oks.len() > 0 {
        let s = if is_terminal_publish(j.step) { seen + 1 } else { seen };
        lemma_job_progress_run(next_job(j, oks[0]), s, oks.drop_first());
    }
}

/// One job publishes `ExtractionCompleted` or `ExtractionFailed` for its pair
/// at most once, whatever the outcomes of its steps, and once it has, its
/// claim of the pair was granted.
pub proof fn lemma_one_outcome_per_job(oks: Seq<bool>)
    ensures
        terminal_publishes(JobRun { step: JobStep::Lookup, claimed: false }, oks) <= 1,
        terminal_publishes(JobRun { step: JobStep::Lookup, claimed: false }, oks) == 1 ==> run_job(
            JobRun { step: JobStep::Lookup, claimed: false },
            oks,
        ).claimed,
{
    let j = JobRun { step: JobStep::Lookup, claimed: false };
    lemma_job_progress(j, 0, oks);
    lemma_job_progress_run(j, 0, oks);
}

/// Which of a sequence of claims, on pairs `pairs`, insert-if-absent grants,
/// given the pairs already recorded.
pub open spec fn granted(recorded: Set<(Seq<char>, Seq<char>)>, pairs: Seq<(Seq<char>, Seq<char>)>) -> Seq<bool>
    decreases pairs.len(),
{
    if pairs.len() == 0 {
        Seq::empty()
    } else {
        let p = pairs.last();
        let before = pairs.drop_last();
        let seen = recorded.union(before.to_set());
        granted(recorded, before).push(!seen.contains(p))
    }
}

proof fn lemma_granted_len(recorded: Set<(Seq<char>, Seq<char>)>, pairs: Seq<(Seq<char>, Seq<char>)>)
    ensures
        granted(recorded, pairs).len() == pairs.len(),
    decreases pairs.len(),
{
    if pairs.len() > 0 {
        lemma_granted_len(recorded, pairs.drop_last());
    }
}

/// Across any number of requests, the claim of a (file_uid, content_hash)
/// pair is granted at most once, so at most one job publishes an outcome for
/// it.
pub proof fn lemma_claim_granted_once(
    recorded: Set<(Seq<char>, Seq<char>)>,
    pairs: Seq<(Seq<char>, Seq<char>)>,
    i: int,
    k: int,
)
    requires
        0 <= i < k < pairs.len(),
        pairs[i] == pairs[k],
    ensures
        !(granted(recorded, pairs)[i] && granted(recorded, pairs)[k]),
    decreases pairs.len(),
{
    lemma_granted_len(recorded, pairs);
    let before = pairs.drop_last();
    lemma_granted_len(recorded, before);
    if k < pairs.len() - 1 {
        lemma_claim_granted_once(recorded, before, i, k);
        assert(granted(recorded, pairs)[i] == granted(recorded, before)[i]);
        assert(granted(recorded, pairs)[k] == granted(recorded, before)[k]);
    } else {
        assert(before[i] == pairs[i]);
        assert(before.to_set().contains(pairs[k]));
    }
}

} // verus!
