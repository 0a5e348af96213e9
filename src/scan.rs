//! Change detection: the delta between the previous scan and the current one,
//! keyed by file identity, and the fast signatures and identities it compares.
use vstd::prelude::*;

use crate::events::{FileMeta, FileMove, MetaModel};
use crate::identity::{decimal, decimal_of, hex_min, hex_u64};
use crate::text::{chars_of, push_char};

verus! {

/// A file found by a scan.
#[derive(Clone, Debug)]
pub struct FileInfo {
    pub file_uid: String,
    pub path: String,
    pub size: u64,
    pub mtime_ns: i64,
    pub fast_sig: String,
    pub is_offline: bool,
    pub attrs: u64,
}

impl View for FileInfo {
    type V = MetaModel;

    open spec fn view(&self) -> MetaModel {
        MetaModel {
            file_uid: self.file_uid@,
            path: self.path@,
            size: self.size,
            mtime_ns: self.mtime_ns,
            fast_sig: self.fast_sig@,
            is_offline: self.is_offline,
            attrs: self.attrs,
        }
    }
}

/// The files seen by the previous scan; no two share a `file_uid`.
#[derive(Clone, Debug)]
pub struct FsState {
    pub files: Vec<FileInfo>,
}

/// The four buckets of one scan's changes.
#[derive(Clone, Debug)]
pub struct SyncDelta {
    pub added: Vec<FileMeta>,
    pub modified: Vec<FileMeta>,
    pub moved: Vec<FileMove>,
    pub deleted: Vec<FileMeta>,
}

/// No two files share an identity.
pub open spec fn uids_unique(files: Seq<FileInfo>) -> bool {
    forall|i: int, j: int|
        0 <= i < files.len() && 0 <= j < files.len() && i != j ==> (#[trigger] files[i]).file_uid@
            != (#[trigger] files[j]).file_uid@
}

impl FsState {
    pub open spec fn wf(&self) -> bool {
        uids_unique(self.files@)
    }

    /// The state before any scan.
    pub fn new() -> (s: FsState)
        ensures
            s.files@.len() == 0,
            s.wf(),
    {
        FsState { files: Vec::new() }
    }
}

/// The last position of a file with identity `uid`.
pub open spec fn find_uid(files: Seq<FileInfo>, uid: Seq<char>) -> Option<int>
    decreases files.len(),
{
    if files.len() == 0 {
        None
    } else if files.last().file_uid@ == uid {
        Some(files.len() - 1)
    } else {
        find_uid(files.drop_last(), uid)
    }
}

/// Files of `cur` whose identity `prev` does not know, in `cur`'s order.
pub open spec fn added_of(prev: Seq<FileInfo>, cur: Seq<FileInfo>) -> Seq<FileInfo>
    decreases cur.len(),
{
    if cur.len() == 0 {
        Seq::empty()
    } else {
        let r = added_of(prev, cur.drop_last());
        if find_uid(prev, cur.last().file_uid@) is None {
            r.push(cur.last())
        } else {
            r
        }
    }
}

/// Files of `cur` at the same path as before with another fast signature.
pub open spec fn modified_of(prev: Seq<FileInfo>, cur: Seq<FileInfo>) -> Seq<FileInfo>
    decreases cur.len(),
{
    if cur.len() == 0 {
        Seq::empty()
    } else {
        let r = modified_of(prev, cur.drop_last());
        let f = cur.last();
        match find_uid(prev, f.file_uid@) {
            Some(j) => if prev[j].path@ == f.path@ && prev[j].fast_sig@ != f.fast_sig@ {
                r.push(f)
            } else {
                r
            },
            None => r,
        }
    }
}

/// Pairs (before, now) of files of `cur` whose path changed.
pub open spec fn moved_of(prev: Seq<FileInfo>, cur: Seq<FileInfo>) -> Seq<(FileInfo, FileInfo)>
    decreases cur.len(),
{
    if cur.len() == 0 {
        Seq::empty()
    } else {
        let r = moved_of(prev, cur.drop_last());
        let f = cur.last();
        match find_uid(prev, f.file_uid@) {
            Some(j) => if prev[j].path@ != f.path@ {
                r.push((prev[j], f))
            } else {
                r
            },
            None => r,
        }
    }
}

/// Files of `prev` whose identity `cur` no longer has, in `prev`'s order.
pub open spec fn deleted_of(prev: Seq<FileInfo>, cur: Seq<FileInfo>) -> Seq<FileInfo>
    decreases prev.len(),
{
    if prev.len() == 0 {
        Seq::empty()
    } else {
        let r = deleted_of(prev.drop_last(), cur);
        if find_uid(cur, prev.last().file_uid@) is None {
            r.push(prev.last())
        } else {
            r
        }
    }
}

/// `m` reports the file `f`.
pub open spec fn meta_of(m: FileMeta, f: FileInfo) -> bool {
    &&& m.file_uid@ == f.file_uid@
    &&& m.path@ == f.path@
    &&& m.size == f.size
    &&& m.mtime_ns == f.mtime_ns
    &&& m.fast_sig@ == f.fast_sig@
    &&& m.is_offline == f.is_offline
    &&& m.attrs == f.attrs
}

/// `ms` reports the files `fs`, in order.
pub open spec fn metas_of(ms: Seq<FileMeta>, fs: Seq<FileInfo>) -> bool {
    ms.len() == fs.len() && forall|k: int| 0 <= k < ms.len() ==> meta_of(#[trigger] ms[k], fs[k])
}

/// `ms` reports the moves `ps`, in order.
pub open spec fn moves_of(ms: Seq<FileMove>, ps: Seq<(FileInfo, FileInfo)>) -> bool {
    &&& ms.len() == ps.len()
    &&& forall|k: int|
        0 <= k < ms.len() ==> {
            &&& (#[trigger] ms[k]).file_uid@ == ps[k].1.file_uid@
            &&& ms[k].from@ == ps[k].0.path@
            &&& ms[k].to@ == ps[k].1.path@
        }
}

impl SyncDelta {
    /// The delta is the change from `prev` to `cur`.
    pub open spec fn describes(&self, prev: Seq<FileInfo>, cur: Seq<FileInfo>) -> bool {
        &&& metas_of(self.added@, added_of(prev, cur))
        &&& metas_of(self.modified@, modified_of(prev, cur))
        &&& moves_of(self.moved@, moved_of(prev, cur))
        &&& metas_of(self.deleted@, deleted_of(prev, cur))
    }

    /// Whether all four buckets are empty; an empty delta is not published.
    pub fn is_empty(&self) -> (r: bool)
        ensures
            r == (self.added@.len() == 0 && self.modified@.len() == 0 && self.moved@.len() == 0
                && self.deleted@.len() == 0),
    {
        self.added.len() == 0 && self.modified.len() == 0 && self.moved.len() == 0
            && self.deleted.len() == 0
    }
}

fn find(files: &Vec<FileInfo>, uid: &String) -> (r: Option<usize>)
    ensures
        match r {
            Some(j) => find_uid(files@, uid@) == Some(j as int) && j < files@.len(),
            None => find_uid(files@, uid@) is None,
        },
{
    let mut r: Option<usize> = None;
    let mut i: usize = 0;
    while i < files.len()
        invariant
            i <= files@.len(),
            match r {
                Some(j) => find_uid(files@.take(i as int), uid@) == Some(j as int) && j < i,
                None => find_uid(files@.take(i as int), uid@) is None,
            },
        decreases files.len() - i,
    {
        assert(files@.take(i + 1).drop_last() == files@.take(i as int));
        if files[i].file_uid == *uid {
            r = Some(i);
        }
        i = i + 1;
    }
    assert(files@.take(files@.len() as int) == files@);
    r
}

fn to_meta(f: &FileInfo) -> (m: FileMeta)
    ensures
        meta_of(m, *f),
{
    FileMeta {
        file_uid: f.file_uid.clone(),
        path: f.path.clone(),
        size: f.size,
        mtime_ns: f.mtime_ns,
        fast_sig: f.fast_sig.clone(),
        is_offline: f.is_offline,
        attrs: f.attrs,
    }
}

/// The changes between the previous scan and the current one: an identity
/// seen at another path is a move, at the same path with another fast
/// signature a modification, a new identity an addition and a missing one a
/// deletion.
pub fn compute_delta(prev: &FsState, current: &Vec<FileInfo>) -> (d: SyncDelta)
    ensures
        d.describes(prev.files@, current@),
{
    let pf = &prev.files;
    let mut added: Vec<FileMeta> = Vec::new();
    let mut modified: Vec<FileMeta> = Vec::new();
    let mut moved: Vec<FileMove> = Vec::new();
    let mut i: usize = 0;
    while i < current.len()
        invariant
            i <= current@.len(),
            metas_of(added@, added_of(pf@, current@.take(i as int))),
            metas_of(modified@, modified_of(pf@, current@.take(i as int))),
            moves_of(moved@, moved_of(pf@, current@.take(i as int))),
        decreases current.len() - i,
    {
        let ghost t = current@.take(i + 1);
        assert(t.drop_last() == current@.take(i as int));
        assert(t.last() == current@[i as int]);
        let f = &current[i];
        match find(pf, &f.file_uid) {
            Some(j) => {
                let old = &pf[j];
                if old.path != f.path {
                    moved.push(FileMove { file_uid: f.file_uid.clone(), from: old.path.clone(), to: f.path.clone() });
                } else if old.fast_sig != f.fast_sig {
                    modified.push(to_meta(f));
                }
            },
            None => {
                added.push(to_meta(f));
            },
        }
        i = i + 1;
    }
    assert(current@.take(current@.len() as int) == current@);
    let mut deleted: Vec<FileMeta> = Vec::new();
    let mut k: usize = 0;
    while k < pf.len()
        invariant
            k <= pf@.len(),
            metas_of(deleted@, deleted_of(pf@.take(k as int), current@)),
        decreases pf.len() - k,
    {
        let ghost t = pf@.take(k + 1);
        assert(t.drop_last() == pf@.take(k as int));
        if find(current, &pf[k].file_uid).is_none() {
            deleted.push(to_meta(&pf[k]));
        }
        k = k + 1;
    }
    assert(pf@.take(pf@.len() as int) == pf@);
    SyncDelta { added, modified, moved, deleted }
}

impl FsState {
    /// After a scan, the state is the set of files that scan found.
    pub fn replace(&mut self, current: Vec<FileInfo>)
        requires
            uids_unique(current@),
        ensures
            final(self).files@ == current@,
            final(self).wf(),
    {
        self.files = current;
    }
}

proof fn lemma_find_unique(files: Seq<FileInfo>, k: int)
    requires
        uids_unique(files),
        0 <= k < files.len(),
    ensures
        find_uid(files, files[k].file_uid@) == Some(k),
    decreases files.len(),
{
    if k < files.len() - 1 {
        let d = files.drop_last();
        assert(files.last() == files[files.len() - 1]);
        assert(d[k] == files[k]);
        assert(uids_unique(d)) by {
            assert forall|i: int, j: int|
                0 <= i < d.len() && 0 <= j < d.len() && i != j implies (#[trigger] d[i]).file_uid@
                != (#[trigger] d[j]).file_uid@ by {
                assert(d[i] == files[i] && d[j] == files[j]);
            }
        }
        lemma_find_unique(d, k);
    }
}

/// The files of `prev` with the path of the one at `j` changed to `to`.
pub open spec fn renamed(prev: Seq<FileInfo>, j: int, to: String) -> Seq<FileInfo> {
    prev.update(j, FileInfo { path: to, ..prev[j] })
}

/// Renaming one file between two scans, with nothing else changed, gives a
/// delta with exactly one move (same identity, old path to new path) and no
/// addition, modification or deletion.
pub proof fn lemma_rename_is_one_move(prev: Seq<FileInfo>, j: int, to: String)
    requires
        uids_unique(prev),
        0 <= j < prev.len(),
        to@ != prev[j].path@,
    ensures
        added_of(prev, renamed(prev, j, to)).len() == 0,
        modified_of(prev, renamed(prev, j, to)).len() == 0,
        deleted_of(prev, renamed(prev, j, to)).len() == 0,
        moved_of(prev, renamed(prev, j, to)) == seq![(prev[j], renamed(prev, j, to)[j])],
{
    let cur = renamed(prev, j, to);
    assert(uids_unique(cur)) by {
        assert forall|a: int, b: int|
            0 <= a < cur.len() && 0 <= b < cur.len() && a != b implies (#[trigger] cur[a]).file_uid@
            != (#[trigger] cur[b]).file_uid@ by {
            assert(cur[a].file_uid == prev[a].file_uid && cur[b].file_uid == prev[b].file_uid);
        }
    }
    lemma_rename_prefix(prev, j, to, cur.len() as int);
    lemma_rename_deleted(prev, cur, prev.len() as int);
    assert(cur.take(cur.len() as int) == cur);
    assert(prev.take(prev.len() as int) == prev);
}

proof fn lemma_rename_prefix(prev: Seq<FileInfo>, j: int, to: String, n: int)
    requires
        uids_unique(prev),
        0 <= j < prev.len(),
        to@ != prev[j].path@,
        0 <= n <= prev.len(),
    ensures
        added_of(prev, renamed(prev, j, to).take(n)).len() == 0,
        modified_of(prev, renamed(prev, j, to).take(n)).len() == 0,
        moved_of(prev, renamed(prev, j, to).take(n)) == if n > j {
            seq![(prev[j], renamed(prev, j, to)[j])]
        } else {
            Seq::empty()
        },
    decreases n,
{
    let cur = renamed(prev, j, to);
    if n > 0 {
        lemma_rename_prefix(prev, j, to, n - 1);
        let t = cur.take(n);
        assert(t.drop_last() == cur.take(n - 1));
        assert(t.last() == cur[n - 1]);
        assert(cur[n - 1].file_uid == prev[n - 1].file_uid);
        lemma_find_unique(prev, n - 1);
    }
}

proof fn lemma_rename_deleted(prev: Seq<FileInfo>, cur: Seq<FileInfo>, n: int)
    requires
        uids_unique(cur),
        prev.len() == cur.len(),
        forall|k: int| 0 <= k < prev.len() ==> (#[trigger] prev[k]).file_uid == cur[k].file_uid,
        0 <= n <= prev.len(),
    ensures
        deleted_of(prev.take(n), cur).len() == 0,
    decreases n,
{
    if n > 0 {
        lemma_rename_deleted(prev, cur, n - 1);
        let t = prev.take(n);
        assert(t.drop_last() == prev.take(n - 1));
        assert(prev[n - 1].file_uid == cur[n - 1].file_uid);
        lemma_find_unique(cur, n - 1);
    }
}

} // verus!

verus! {

/// The fast signature of a POSIX file: device, inode, size and the
/// nanosecond parts of its modification and change times, in hexadecimal,
/// separated by colons.
pub open spec fn posix_fast_sig_of(dev: u64, ino: u64, size: u64, mtime_nsec: i64, ctime_nsec: i64) -> Seq<char> {
    hex_min(dev as nat) + seq![':'] + hex_min(ino as nat) + seq![':'] + hex_min(size as nat)
        + seq![':'] + hex_min((mtime_nsec as u64) as nat) + seq![':'] + hex_min(
        (ctime_nsec as u64) as nat,
    )
}

fn append_str(s: &mut String, t: &String)
    ensures
        final(s)@ == old(s)@ + t@,
{
    s.append(t.as_str());
}

/// The fast signature of a POSIX file.
pub fn posix_fast_sig(dev: u64, ino: u64, size: u64, mtime_nsec: i64, ctime_nsec: i64) -> (s: String)
    ensures
        s@ == posix_fast_sig_of(dev, ino, size, mtime_nsec, ctime_nsec),
{
    let mut s = hex_u64(dev);
    push_char(&mut s, ':');
    append_str(&mut s, &hex_u64(ino));
    push_char(&mut s, ':');
    append_str(&mut s, &hex_u64(size));
    push_char(&mut s, ':');
    append_str(&mut s, &hex_u64(mtime_nsec as u64));
    push_char(&mut s, ':');
    append_str(&mut s, &hex_u64(ctime_nsec as u64));
    s
}

/// The identity of a POSIX file: `ux-<device>:<inode>` in decimal.
pub open spec fn posix_file_uid_of(dev: u64, ino: u64) -> Seq<char> {
    seq!['u', 'x', '-'] + decimal_of(dev as nat) + seq![':'] + decimal_of(ino as nat)
}

/// The identity of a POSIX file, stable across renames.
pub fn posix_file_uid(dev: u64, ino: u64) -> (s: String)
    ensures
        s@ == posix_file_uid_of(dev, ino),
{
    let mut s = String::new();
    push_char(&mut s, 'u');
    push_char(&mut s, 'x');
    push_char(&mut s, '-');
    append_str(&mut s, &decimal(dev as u128));
    push_char(&mut s, ':');
    append_str(&mut s, &decimal(ino as u128));
    s
}

/// Windows attribute flags that mark a file as offline or recalled on access.
pub const OFFLINE_ATTRS: u32 = 0x0040_1000;

/// The fast signature, offline flag and attributes of a Windows file: file
/// index (high, low), size, last write time and attributes in hexadecimal.
pub fn windows_fast_sig(index_high: u32, index_low: u32, size: u64, last_write: u64, attrs: u32) -> (r: (String, bool, u64))
    ensures
        r.0@ == hex_min(index_high as nat) + seq![':'] + hex_min(index_low as nat) + seq![':'] + hex_min(size as nat) + seq![':'] + hex_min(last_write as nat) + seq![':'] + hex_min(attrs as nat),
        r.1 == (attrs & OFFLINE_ATTRS != 0),
        r.2 == attrs as u64,
{
    let mut s = hex_u64(index_high as u64);
    push_char(&mut s, ':');
    append_str(&mut s, &hex_u64(index_low as u64));
    push_char(&mut s, ':');
    append_str(&mut s, &hex_u64(size));
    push_char(&mut s, ':');
    append_str(&mut s, &hex_u64(last_write));
    push_char(&mut s, ':');
    append_str(&mut s, &hex_u64(attrs as u64));
    (s, attrs & OFFLINE_ATTRS != 0, attrs as u64)
}

/// The fast signature where the platform offers neither: size and
/// modification time in nanoseconds, in decimal.
pub fn fallback_fast_sig(size: u64, mtime_nanos: u128) -> (s: String)
    ensures
        s@ == decimal_of(size as nat) + seq![':'] + decimal_of(mtime_nanos as nat),
{
    let mut s = decimal(size as u128);
    push_char(&mut s, ':');
    append_str(&mut s, &decimal(mtime_nanos));
    s
}

/// The last component of a path, if it has one.
pub uninterp spec fn file_name_of(path: Seq<char>) -> Option<Seq<char>>;

/// Whether `base` is a whole-component prefix of `path`.
pub uninterp spec fn starts_with_of(path: Seq<char>, base: Seq<char>) -> bool;

/// Relies on `camino::Utf8Path::file_name`: the final component of the path,
/// unless it ends in `..` or is a root.
#[verifier::external_body]
fn path_file_name(path: &str) -> (r: Option<String>)
    ensures
        match r {
            Some(n) => file_name_of(path@) == Some(n@),
            None => file_name_of(path@) is None,
        },
{
    camino::Utf8Path::new(path).file_name().map(|n| n.to_string())
}

/// Relies on `camino::Utf8Path::starts_with`: whether `base` is a prefix of
/// `path`, comparing whole components only.
#[verifier::external_body]
fn path_starts_with(path: &str, base: &str) -> (r: bool)
    ensures
        r == starts_with_of(path@, base@),
{
    camino::Utf8Path::new(path).starts_with(base)
}

/// A file is hidden when its name starts with a dot.
pub open spec fn hidden_path(path: Seq<char>) -> bool {
    file_name_of(path) matches Some(n) && n.len() > 0 && n[0] == '.'
}

/// Whether the scanner keeps an entry: a regular file, visible unless hidden
/// files are wanted, outside the mirror tree, matched by an include glob and
/// by no exclude glob.
pub open spec fn admitted(is_file: bool, include_hidden: bool, hidden: bool, under_mirror: bool, included: bool, excluded: bool) -> bool {
    is_file && (include_hidden || !hidden) && !under_mirror && included && !excluded
}

/// Whether `pattern` is valid glob syntax.
pub uninterp spec fn glob_compiles(pattern: Seq<char>) -> bool;

/// Whether the glob `pattern` matches `path`.
pub uninterp spec fn glob_matches(pattern: Seq<char>, path: Seq<char>) -> bool;

/// Whether the compiled patterns `patterns` can be combined into one set.
pub uninterp spec fn globs_combine(patterns: Seq<Seq<char>>) -> bool;

/// The patterns added to a builder, in order.
pub uninterp spec fn builder_patterns(b: GlobBuilder) -> Seq<Seq<char>>;

/// The patterns a matcher was built from, in order.
pub uninterp spec fn matcher_patterns(m: GlobMatcher) -> Seq<Seq<char>>;

/// A `globset::GlobSetBuilder` with the patterns added so far.
#[verifier::external_body]
pub struct GlobBuilder {
    inner: globset::GlobSetBuilder,
}

/// A `globset::GlobSet`: matches a path against all its patterns at once.
#[verifier::external_body]
pub struct GlobMatcher {
    inner: globset::GlobSet,
}

impl GlobBuilder {
    /// Relies on `globset::GlobSetBuilder::new`: a builder without patterns.
    #[verifier::external_body]
    pub fn new() -> (b: GlobBuilder)
        ensures
            builder_patterns(b) == Seq::<Seq<char>>::empty(),
    {
        GlobBuilder { inner: globset::GlobSetBuilder::new() }
    }

    /// Relies on `globset::Glob::new`, which compiles a pattern or reports a
    /// syntax error, and `globset::GlobSetBuilder::add`, which appends the
    /// compiled pattern.
    #[verifier::external_body]
    pub fn add(&mut self, pattern: &str) -> (ok: bool)
        ensures
            ok == glob_compiles(pattern@),
            ok ==> builder_patterns(*final(self)) == builder_patterns(*old(self)).push(pattern@),
            !ok ==> builder_patterns(*final(self)) == builder_patterns(*old(self)),
    {
        match globset::Glob::new(pattern) {
            Ok(g) => {
                self.inner.add(g);
                true
            },
            Err(_) => false,
        }
    }

    /// Relies on `globset::GlobSetBuilder::build`: the set of the added
    /// patterns, or an error when they cannot be combined.
    #[verifier::external_body]
    pub fn build(&self) -> (r: Option<GlobMatcher>)
        ensures
            r is Some <==> globs_combine(builder_patterns(*self)),
            r matches Some(m) ==> matcher_patterns(m) == builder_patterns(*self),
    {
        self.inner.build().ok().map(|inner| GlobMatcher { inner })
    }
}

/// Some pattern of `patterns` matches `path`.
pub open spec fn any_glob(patterns: Seq<Seq<char>>, path: Seq<char>) -> bool {
    exists|i: int| 0 <= i < patterns.len() && glob_matches(#[trigger] patterns[i], path)
}

impl GlobMatcher {
    /// Relies on `globset::GlobSet::is_match`: true when any glob of the set
    /// matches the path.
    #[verifier::external_body]
    pub fn is_match(&self, path: &str) -> (r: bool)
        ensures
            r == (exists|i: int| 0 <= i < matcher_patterns(*self).len() && glob_matches(#[trigger] matcher_patterns(*self)[i], path@)),
    {
        self.inner.is_match(std::path::Path::new(path))
    }
}

/// Why a scan could not start.
#[derive(Clone, Debug)]
pub enum ScanError {
    /// A glob pattern does not compile; the pattern is given.
    BadGlob(String),
    /// The patterns compile but cannot be combined into one set.
    BadGlobSet,
}

/// What compiling a list of patterns gives: a set, the position of the first
/// pattern that does not compile, or a list that cannot be combined.
pub enum GlobOutcome {
    Built,
    BadPattern(int),
    Uncombinable,
}

/// The first position below `n` whose pattern does not compile.
pub open spec fn first_bad(ps: Seq<Seq<char>>, n: int) -> Option<int>
    decreases n,
{
    if n <= 0 {
        None
    } else {
        match first_bad(ps, n - 1) {
            Some(i) => Some(i),
            None => if !glob_compiles(ps[n - 1]) {
                Some(n - 1)
            } else {
                None
            },
        }
    }
}

pub open spec fn glob_outcome(ps: Seq<Seq<char>>) -> GlobOutcome {
    match first_bad(ps, ps.len() as int) {
        Some(i) => GlobOutcome::BadPattern(i),
        None => if globs_combine(ps) {
            GlobOutcome::Built
        } else {
            GlobOutcome::Uncombinable
        },
    }
}

pub open spec fn views(v: Seq<String>) -> Seq<Seq<char>> {
    v.map_values(|s: String| s@)
}

/// `r` is what compiling `ps` gives.
pub open spec fn glob_result(r: Result<GlobMatcher, ScanError>, ps: Seq<String>) -> bool {
    match glob_outcome(views(ps)) {
        GlobOutcome::Built => r matches Ok(m) && matcher_patterns(m) == views(ps),
        GlobOutcome::BadPattern(i) => r matches Err(ScanError::BadGlob(p)) && p@ == ps[i]@,
        GlobOutcome::Uncombinable => r matches Err(ScanError::BadGlobSet),
    }
}

proof fn lemma_first_bad_extend(ps: Seq<Seq<char>>, n: int, m: int)
    requires
        0 <= n <= m <= ps.len(),
        first_bad(ps, n) is Some,
    ensures
        first_bad(ps, m) == first_bad(ps, n),
    decreases m - n,
{
    if m > n {
        lemma_first_bad_extend(ps, n, m - 1);
    }
}

/// Compiles the patterns into one matcher.
pub fn glob_set(patterns: &Vec<String>) -> (r: Result<GlobMatcher, ScanError>)
    ensures
        glob_result(r, patterns@),
{
    let ghost ps = views(patterns@);
    let mut b = GlobBuilder::new();
    let mut i: usize = 0;
    while i < patterns.len()
        invariant
            i <= patterns@.len(),
            ps == views(patterns@),
            first_bad(ps, i as int) is None,
            builder_patterns(b) == ps.take(i as int),
        decreases patterns.len() - i,
    {
        if !b.add(patterns[i].as_str()) {
            proof {
                assert(first_bad(ps, i + 1) == Some(i as int));
                lemma_first_bad_extend(ps, i + 1, ps.len() as int);
            }
            return Err(ScanError::BadGlob(patterns[i].clone()));
        }
        assert(ps.take(i + 1) == ps.take(i as int).push(ps[i as int]));
        i = i + 1;
    }
    assert(ps.take(ps.len() as int) == ps);
    match b.build() {
        Some(m) => Ok(m),
        None => Err(ScanError::BadGlobSet),
    }
}

/// The compiled include and exclude patterns of a scan, and its size limit.
pub struct ScanFilter {
    pub include_set: GlobMatcher,
    pub exclude_set: GlobMatcher,
    pub max_file_size_mb: u64,
}

/// What building a filter gives: the include patterns are compiled first.
pub open spec fn filter_result(
    r: Result<ScanFilter, ScanError>,
    inc: Seq<String>,
    exc: Seq<String>,
    max_mb: u64,
) -> bool {
    match glob_outcome(views(inc)) {
        GlobOutcome::BadPattern(i) => r matches Err(ScanError::BadGlob(p)) && p@ == inc[i]@,
        GlobOutcome::Uncombinable => r matches Err(ScanError::BadGlobSet),
        GlobOutcome::Built => match glob_outcome(views(exc)) {
            GlobOutcome::BadPattern(i) => r matches Err(ScanError::BadGlob(p)) && p@ == exc[i]@,
            GlobOutcome::Uncombinable => r matches Err(ScanError::BadGlobSet),
            GlobOutcome::Built => r matches Ok(f) && matcher_patterns(f.include_set) == views(inc)
                && matcher_patterns(f.exclude_set) == views(exc) && f.max_file_size_mb == max_mb,
        },
    }
}

/// A file of `size` bytes is within a limit of `max_mb` mebibytes.
pub open spec fn within_size(size: u64, max_mb: u64) -> bool {
    size <= max_mb * 1024 * 1024
}

impl ScanFilter {
    /// Compiles the include and exclude patterns; the first pattern that
    /// does not compile is named in the error.
    pub fn new(include_globs: &Vec<String>, exclude_globs: &Vec<String>, max_file_size_mb: u64) -> (r: Result<ScanFilter, ScanError>)
        ensures
            filter_result(r, include_globs@, exclude_globs@, max_file_size_mb),
    {
        let inc = match glob_set(include_globs) {
            Ok(g) => g,
            Err(e) => return Err(e),
        };
        let exc = match glob_set(exclude_globs) {
            Ok(g) => g,
            Err(e) => return Err(e),
        };
        Ok(ScanFilter { include_set: inc, exclude_set: exc, max_file_size_mb })
    }

    /// Whether the scan keeps the entry at `path`, a file of `size` bytes if
    /// `is_file`.
    pub fn keeps(&self, path: &str, is_file: bool, size: u64, include_hidden: bool, mirror_root: &str) -> (r: bool)
        ensures
            r == (admitted(
                is_file,
                include_hidden,
                hidden_path(path@),
                starts_with_of(path@, mirror_root@),
                any_glob(matcher_patterns(self.include_set), path@),
                any_glob(matcher_patterns(self.exclude_set), path@),
            ) && within_size(size, self.max_file_size_mb)),
    {
        let hidden = match path_file_name(path) {
            Some(n) => {
                let cs = chars_of(n.as_str());
                cs.len() > 0 && cs[0] == '.'
            },
            None => false,
        };
        let under = path_starts_with(path, mirror_root);
        let included = self.include_set.is_match(path);
        let excluded = self.exclude_set.is_match(path);
        let small = fits_size(size, self.max_file_size_mb);
        admits(is_file, include_hidden, hidden, under, included, excluded) && small
    }
}

/// Whether a file of `size` bytes is within `max_mb` mebibytes.
pub fn fits_size(size: u64, max_mb: u64) -> (r: bool)
    ensures
        r == within_size(size, max_mb),
{
    (size as u128) <= (max_mb as u128) * 1024 * 1024
}

/// The scanner's decision on one entry, given what the path and globs say.
pub fn admits(is_file: bool, include_hidden: bool, hidden: bool, under_mirror: bool, included: bool, excluded: bool) -> (r: bool)
    ensures
        r == admitted(is_file, include_hidden, hidden, under_mirror, included, excluded),
{
    is_file && (include_hidden || !hidden) && !under_mirror && included && !excluded
}

} // verus!

verus! {

/// How long the filesystem must stay quiet after a change before a rescan.
pub const DEBOUNCE_MS: u128 = 300;

/// Whether a rescan is due: a change was seen and more than the debounce
/// window has passed since the last one, so a burst of changes yields one
/// scan.
pub fn rescan_due(ms_since_last_change: Option<u128>) -> (r: bool)
    ensures
        r == (ms_since_last_change matches Some(ms) && ms > DEBOUNCE_MS),
{
    match ms_since_last_change {
        Some(ms) => ms > DEBOUNCE_MS,
        None => false,
    }
}

} // verus!
