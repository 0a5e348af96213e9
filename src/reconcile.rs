//! The reconciler's two passes: active files whose mirror is missing are
//! extracted again; mirrors whose source is no longer active are removed.
use vstd::prelude::*;

use crate::metadata::FileStatus;

verus! {

/// An active file and what exists of its mirror.
#[derive(Clone, Debug)]
pub struct MirrorCheck {
    pub file_uid: String,
    pub has_doc_row: bool,
    pub meta_exists: bool,
    pub chunks_exist: bool,
}

/// A `mirror_docs` row and the status of its source file, if the file is
/// still known.
#[derive(Clone, Debug)]
pub struct MirrorDocRow {
    pub file_uid: String,
    pub path: String,
    pub source_status: Option<FileStatus>,
}

/// An active file needs extraction when its `mirror_docs` row, its
/// `meta.json` or its `chunks.jsonl` is missing.
pub open spec fn needs_extraction(c: MirrorCheck) -> bool {
    !c.has_doc_row || !c.meta_exists || !c.chunks_exist
}

/// A mirror is orphaned unless its source file is active.
pub open spec fn orphaned(d: MirrorDocRow) -> bool {
    d.source_status != Some(FileStatus::Active)
}

/// The files to request extraction for, in row order.
pub fn missing_mirrors(checks: &Vec<MirrorCheck>) -> (uids: Vec<String>)
    ensures
        uids@.map_values(|u: String| u@) == checks@.filter(|c: MirrorCheck| needs_extraction(c)).map_values(
            |c: MirrorCheck| c.file_uid@,
        ),
{
    let ghost pred = |c: MirrorCheck| needs_extraction(c);
    let mut uids: Vec<String> = Vec::new();
    let mut i: usize = 0;
    while i < checks.len()
        invariant
            i <= checks@.len(),
            pred == |c: MirrorCheck| needs_extraction(c),
            uids@.map_values(|u: String| u@) == checks@.take(i as int).filter(pred).map_values(
                |c: MirrorCheck| c.file_uid@,
            ),
        decreases checks.len() - i,
    {
        let c = &checks[i];
        let ghost before = checks@.take(i as int);
        assert(checks@.take(i + 1) == before.push(*c));
        assert(checks@.take(i + 1).filter(pred) == if pred(*c) { before.filter(pred).push(*c) } else { before.filter(pred) }) by {
            reveal(Seq::filter);
            assert(before.push(*c).drop_last() == before);
        }
        if !c.has_doc_row || !c.meta_exists || !c.chunks_exist {
            let ghost prev = uids@.map_values(|u: String| u@);
            uids.push(c.file_uid.clone());
            assert(uids@.map_values(|u: String| u@) =~= prev.push(c.file_uid@));
        }
        assert(uids@.map_values(|u: String| u@) =~= checks@.take(i + 1).filter(pred).map_values(
            |c: MirrorCheck| c.file_uid@,
        ));
        i = i + 1;
    }
    assert(checks@.take(checks@.len() as int) == checks@);
    uids
}

/// The positions of the orphaned mirrors, in row order; each is removed from
/// disk and catalog and announced with `MirrorDocDeleted`.
pub fn orphan_mirrors(docs: &Vec<MirrorDocRow>) -> (idx: Vec<usize>)
    ensures
        forall|k: int| 0 <= k < idx@.len() ==> (#[trigger] idx@[k]) < docs@.len() && orphaned(docs@[idx@[k] as int]),
        forall|j: int| 0 <= j < docs@.len() && orphaned(#[trigger] docs@[j]) ==> idx@.contains(j as usize),
        forall|a: int, b: int| 0 <= a < b < idx@.len() ==> #[trigger] idx@[a] < #[trigger] idx@[b],
{
    let mut idx: Vec<usize> = Vec::new();
    let mut i: usize = 0;
    while i < docs.len()
        invariant
            i <= docs@.len(),
            forall|k: int| 0 <= k < idx@.len() ==> (#[trigger] idx@[k]) < i && orphaned(docs@[idx@[k] as int]),
            forall|j: int| 0 <= j < i && orphaned(#[trigger] docs@[j]) ==> idx@.contains(j as usize),
            forall|a: int, b: int| 0 <= a < b < idx@.len() ==> #[trigger] idx@[a] < #[trigger] idx@[b],
        decreases docs.len() - i,
    {
        let active = match docs[i].source_status {
            Some(FileStatus::Active) => true,
            _ => false,
        };
        let ghost old_idx = idx@;
        if !active {
            idx.push(i);
            assert(idx@[idx@.len() - 1] == i);
        }
        assert forall|j: int| 0 <= j < i + 1 && orphaned(#[trigger] docs@[j]) implies idx@.contains(j as usize) by {
            if j == i {
                assert(idx@[idx@.len() - 1] == i);
            } else {
                assert(old_idx.contains(j as usize));
                let w = choose|w: int| 0 <= w < old_idx.len() && old_idx[w] == j as usize;
                assert(idx@[w] == old_idx[w]);
            }
        }
        i = i + 1;
    }
    idx
}

impl FileStatus {
    /// Reads a stored status; unknown text reads as `None`.
    pub fn parse(s: &str) -> (r: Option<FileStatus>)
        ensures
            r matches Some(st) ==> crate::metadata::status_name(st) == s@,
            r is None ==> s@ != "active"@ && s@ != "offline"@ && s@ != "deleted"@,
    {
        proof {
            reveal_strlit("active");
            reveal_strlit("offline");
            reveal_strlit("deleted");
        }
        let cs = crate::text::chars_of(s);
        if cs.len() == 6 && cs[0] == 'a' && cs[1] == 'c' && cs[2] == 't' && cs[3] == 'i' && cs[4] == 'v' && cs[5] == 'e' {
            assert(cs@ =~= crate::metadata::status_name(FileStatus::Active));
            Some(FileStatus::Active)
        } else if cs.len() == 7 && cs[0] == 'o' && cs[1] == 'f' && cs[2] == 'f' && cs[3] == 'l' && cs[4] == 'i' && cs[5] == 'n' && cs[6] == 'e' {
            assert(cs@ =~= crate::metadata::status_name(FileStatus::Offline));
            Some(FileStatus::Offline)
        } else if cs.len() == 7 && cs[0] == 'd' && cs[1] == 'e' && cs[2] == 'l' && cs[3] == 'e' && cs[4] == 't' && cs[5] == 'e' && cs[6] == 'd' {
            assert(cs@ =~= crate::metadata::status_name(FileStatus::Deleted));
            Some(FileStatus::Deleted)
        } else {
            None
        }
    }
}

} // verus!
