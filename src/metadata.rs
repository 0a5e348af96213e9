//! The metadata service: the catalog operations that one change delta calls
//! for, in order, and what they do to the `files` table.
use vstd::prelude::*;

use crate::events::{FileMeta, FileMove, MetaModel};
use crate::scan::{added_of, deleted_of, modified_of, moved_of, renamed, FileInfo, SyncDelta};

verus! {

/// The life-cycle status of a `files` row.
#[derive(Clone, Copy, Debug, PartialEq, Eq, Structural)]
pub enum FileStatus {
    Active,
    Offline,
    Deleted,
}

impl FileStatus {
    /// The status as the catalog stores it.
    pub fn as_str(&self) -> (s: &'static str)
        ensures
            s@ == status_name(*self),
    {
        match self {
            FileStatus::Active => {
                proof { reveal_strlit("active"); }
                "active"
            },
            FileStatus::Offline => {
                proof { reveal_strlit("offline"); }
                "offline"
            },
            FileStatus::Deleted => {
                proof { reveal_strlit("deleted"); }
                "deleted"
            },
        }
    }
}

/// The stored name of a status.
pub open spec fn status_name(s: FileStatus) -> Seq<char> {
    match s {
        FileStatus::Active => seq!['a', 'c', 't', 'i', 'v', 'e'],
        FileStatus::Offline => seq!['o', 'f', 'f', 'l', 'i', 'n', 'e'],
        FileStatus::Deleted => seq!['d', 'e', 'l', 'e', 't', 'e', 'd'],
    }
}

/// The kind of an ops-log line.
#[derive(Clone, Copy, Debug, PartialEq, Eq, Structural)]
pub enum OpsKind {
    Add,
    Mod,
    Mv,
    Del,
}

/// One catalog mutation or publication that a delta calls for.
#[derive(Clone, Debug)]
pub enum CatalogOp {
    /// Insert or replace the `files` row of the file, with this status.
    UpsertFile { meta: FileMeta, status: FileStatus },
    /// Update the row of the file, clear its content hash and make it active.
    UpdateModified { meta: FileMeta },
    /// Point the row of `file_uid` at its new path.
    SetPath { file_uid: String, to: String },
    /// Mark the row of `file_uid` deleted.
    Tombstone { file_uid: String },
    /// Append a line to the ops log.
    LogOp { kind: OpsKind, path_from: Option<String>, path_to: Option<String> },
    /// Publish `ExtractionRequested` for `file_uid`.
    RequestExtraction { file_uid: String },
}

/// A catalog operation as plain values.
pub enum OpModel {
    Upsert { meta: MetaModel, status: FileStatus },
    Modify { meta: MetaModel },
    SetPath { file_uid: Seq<char>, to: Seq<char> },
    Tombstone { file_uid: Seq<char> },
    Log { kind: OpsKind, path_from: Option<Seq<char>>, path_to: Option<Seq<char>> },
    Request { file_uid: Seq<char> },
}

pub open spec fn opt_view(o: Option<String>) -> Option<Seq<char>> {
    match o {
        Some(s) => Some(s@),
        None => None,
    }
}

impl View for CatalogOp {
    type V = OpModel;

    open spec fn view(&self) -> OpModel {
        match self {
            CatalogOp::UpsertFile { meta, status } => OpModel::Upsert { meta: meta@, status: *status },
            CatalogOp::UpdateModified { meta } => OpModel::Modify { meta: meta@ },
            CatalogOp::SetPath { file_uid, to } => OpModel::SetPath { file_uid: file_uid@, to: to@ },
            CatalogOp::Tombstone { file_uid } => OpModel::Tombstone { file_uid: file_uid@ },
            CatalogOp::LogOp { kind, path_from, path_to } => OpModel::Log {
                kind: *kind,
                path_from: opt_view(*path_from),
                path_to: opt_view(*path_to),
            },
            CatalogOp::RequestExtraction { file_uid } => OpModel::Request { file_uid: file_uid@ },
        }
    }
}

/// Whether extraction is requested for a file: always unless it is offline,
/// and for offline files only when hydration is allowed.
pub open spec fn wants_extraction(m: MetaModel, allow_offline_hydration: bool) -> bool {
    !m.is_offline || allow_offline_hydration
}

pub open spec fn request_if(m: MetaModel, gate: bool) -> Seq<OpModel> {
    if wants_extraction(m, gate) {
        seq![OpModel::Request { file_uid: m.file_uid }]
    } else {
        Seq::empty()
    }
}

/// Operations for added files: upsert (offline files as offline), log, and
/// request extraction under the offline gate.
pub open spec fn plan_added(ms: Seq<MetaModel>, gate: bool) -> Seq<OpModel>
    decreases ms.len(),
{
    if ms.len() == 0 {
        Seq::empty()
    } else {
        let m = ms.last();
        plan_added(ms.drop_last(), gate) + seq![
            OpModel::Upsert {
                meta: m,
                status: if m.is_offline { FileStatus::Offline } else { FileStatus::Active },
            },
            OpModel::Log { kind: OpsKind::Add, path_from: None, path_to: Some(m.path) },
        ] + request_if(m, gate)
    }
}

/// Operations for modified files: update, log, and request extraction under
/// the offline gate.
pub open spec fn plan_modified(ms: Seq<MetaModel>, gate: bool) -> Seq<OpModel>
    decreases ms.len(),
{
    if ms.len() == 0 {
        Seq::empty()
    } else {
        let m = ms.last();
        plan_modified(ms.drop_last(), gate) + seq![
            OpModel::Modify { meta: m },
            OpModel::Log { kind: OpsKind::Mod, path_from: Some(m.path), path_to: None },
        ] + request_if(m, gate)
    }
}

/// Operations for moved files: new path and a log line; no extraction.
pub open spec fn plan_moved(ms: Seq<(Seq<char>, Seq<char>, Seq<char>)>) -> Seq<OpModel>
    decreases ms.len(),
{
    if ms.len() == 0 {
        Seq::empty()
    } else {
        let (uid, from, to) = ms.last();
        plan_moved(ms.drop_last()) + seq![
            OpModel::SetPath { file_uid: uid, to },
            OpModel::Log { kind: OpsKind::Mv, path_from: Some(from), path_to: Some(to) },
        ]
    }
}

/// Operations for deleted files: tombstone and a log line.
pub open spec fn plan_deleted(ms: Seq<MetaModel>) -> Seq<OpModel>
    decreases ms.len(),
{
    if ms.len() == 0 {
        Seq::empty()
    } else {
        let m = ms.last();
        plan_deleted(ms.drop_last()) + seq![
            OpModel::Tombstone { file_uid: m.file_uid },
            OpModel::Log { kind: OpsKind::Del, path_from: Some(m.path), path_to: None },
        ]
    }
}

pub open spec fn move_view(m: FileMove) -> (Seq<char>, Seq<char>, Seq<char>) {
    (m.file_uid@, m.from@, m.to@)
}

/// All operations of a delta: additions, modifications, moves, deletions.
pub open spec fn plan_of(
    added: Seq<MetaModel>,
    modified: Seq<MetaModel>,
    moved: Seq<(Seq<char>, Seq<char>, Seq<char>)>,
    deleted: Seq<MetaModel>,
    gate: bool,
) -> Seq<OpModel> {
    plan_added(added, gate) + plan_modified(modified, gate) + plan_moved(moved) + plan_deleted(
        deleted,
    )
}

fn push_requested(ops: &mut Vec<CatalogOp>, m: &FileMeta, gate: bool)
    ensures
        final(ops)@.map_values(|o: CatalogOp| o@) == old(ops)@.map_values(|o: CatalogOp| o@)
            + request_if(m@, gate),
{
    let ghost before = ops@.map_values(|o: CatalogOp| o@);
    if !m.is_offline || gate {
        ops.push(CatalogOp::RequestExtraction { file_uid: m.file_uid.clone() });
        assert(ops@.map_values(|o: CatalogOp| o@) =~= before + request_if(m@, gate));
    } else {
        assert(before + request_if(m@, gate) =~= before);
    }
}

/// The catalog operations for one delta, in the order the metadata service
/// performs them.
pub fn plan_delta(delta: &SyncDelta, allow_offline_hydration: bool) -> (ops: Vec<CatalogOp>)
    ensures
        ops@.map_values(|o: CatalogOp| o@) == plan_of(
            delta.added@.map_values(|m: FileMeta| m@),
            delta.modified@.map_values(|m: FileMeta| m@),
            delta.moved@.map_values(|m: FileMove| move_view(m)),
            delta.deleted@.map_values(|m: FileMeta| m@),
            allow_offline_hydration,
        ),
{
    let gate = allow_offline_hydration;
    let mut ops: Vec<CatalogOp> = Vec::new();
    let ghost v = |o: CatalogOp| o@;
    let mut i: usize = 0;
    while i < delta.added.len()
        invariant
            i <= delta.added@.len(),
            ops@.map_values(|o: CatalogOp| o@) == plan_added(
                delta.added@.take(i as int).map_values(|m: FileMeta| m@),
                gate,
            ),
        decreases delta.added.len() - i,
    {
        let m = &delta.added[i];
        let ghost pre = ops@.map_values(|o: CatalogOp| o@);
        assert(delta.added@.take(i + 1).map_values(|m: FileMeta| m@).drop_last()
            =~= delta.added@.take(i as int).map_values(|m: FileMeta| m@));
        let status = if m.is_offline { FileStatus::Offline } else { FileStatus::Active };
        ops.push(CatalogOp::UpsertFile { meta: m.clone_meta(), status });
        ops.push(CatalogOp::LogOp { kind: OpsKind::Add, path_from: None, path_to: Some(m.path.clone()) });
        let ghost mid = ops@.map_values(|o: CatalogOp| o@);
        assert(mid =~= pre + seq![
            OpModel::Upsert { meta: m@, status },
            OpModel::Log { kind: OpsKind::Add, path_from: None, path_to: Some(m@.path) },
        ]);
        push_requested(&mut ops, m, gate);
        i = i + 1;
    }
    assert(delta.added@.take(delta.added@.len() as int) == delta.added@);
    let ghost after_added = ops@.map_values(|o: CatalogOp| o@);
    let mut i: usize = 0;
    while i < delta.modified.len()
        invariant
            i <= delta.modified@.len(),
            ops@.map_values(|o: CatalogOp| o@) == after_added + plan_modified(
                delta.modified@.take(i as int).map_values(|m: FileMeta| m@),
                gate,
            ),
        decreases delta.modified.len() - i,
    {
        let m = &delta.modified[i];
        let ghost pre = ops@.map_values(|o: CatalogOp| o@);
        assert(delta.modified@.take(i + 1).map_values(|m: FileMeta| m@).drop_last()
            =~= delta.modified@.take(i as int).map_values(|m: FileMeta| m@));
        ops.push(CatalogOp::UpdateModified { meta: m.clone_meta() });
        ops.push(CatalogOp::LogOp { kind: OpsKind::Mod, path_from: Some(m.path.clone()), path_to: None });
        let ghost mid = ops@.map_values(|o: CatalogOp| o@);
        assert(mid =~= pre + seq![
            OpModel::Modify { meta: m@ },
            OpModel::Log { kind: OpsKind::Mod, path_from: Some(m@.path), path_to: None },
        ]);
        push_requested(&mut ops, m, gate);
        i = i + 1;
    }
    assert(delta.modified@.take(delta.modified@.len() as int) == delta.modified@);
    let ghost after_modified = ops@.map_values(|o: CatalogOp| o@);
    let mut i: usize = 0;
    while i < delta.moved.len()
        invariant
            i <= delta.moved@.len(),
            ops@.map_values(|o: CatalogOp| o@) == after_modified + plan_moved(
                delta.moved@.take(i as int).map_values(|m: FileMove| move_view(m)),
            ),
        decreases delta.moved.len() - i,
    {
        let m = &delta.moved[i];
        let ghost pre = ops@.map_values(|o: CatalogOp| o@);
        assert(delta.moved@.take(i + 1).map_values(|m: FileMove| move_view(m)).drop_last()
            =~= delta.moved@.take(i as int).map_values(|m: FileMove| move_view(m)));
        ops.push(CatalogOp::SetPath { file_uid: m.file_uid.clone(), to: m.to.clone() });
        ops.push(CatalogOp::LogOp { kind: OpsKind::Mv, path_from: Some(m.from.clone()), path_to: Some(m.to.clone()) });
        assert(ops@.map_values(|o: CatalogOp| o@) =~= pre + seq![
            OpModel::SetPath { file_uid: m.file_uid@, to: m.to@ },
            OpModel::Log { kind: OpsKind::Mv, path_from: Some(m.from@), path_to: Some(m.to@) },
        ]);
        i = i + 1;
    }
    assert(delta.moved@.take(delta.moved@.len() as int) == delta.moved@);
    let ghost after_moved = ops@.map_values(|o: CatalogOp| o@);
    let mut i: usize = 0;
    while i < delta.deleted.len()
        invariant
            i <= delta.deleted@.len(),
            ops@.map_values(|o: CatalogOp| o@) == after_moved + plan_deleted(
                delta.deleted@.take(i as int).map_values(|m: FileMeta| m@),
            ),
        decreases delta.deleted.len() - i,
    {
        let m = &delta.deleted[i];
        let ghost pre = ops@.map_values(|o: CatalogOp| o@);
        assert(delta.deleted@.take(i + 1).map_values(|m: FileMeta| m@).drop_last()
            =~= delta.deleted@.take(i as int).map_values(|m: FileMeta| m@));
        ops.push(CatalogOp::Tombstone { file_uid: m.file_uid.clone() });
        ops.push(CatalogOp::LogOp { kind: OpsKind::Del, path_from: Some(m.path.clone()), path_to: None });
        assert(ops@.map_values(|o: CatalogOp| o@) =~= pre + seq![
            OpModel::Tombstone { file_uid: m@.file_uid },
            OpModel::Log { kind: OpsKind::Del, path_from: Some(m@.path), path_to: None },
        ]);
        i = i + 1;
    }
    assert(delta.deleted@.take(delta.deleted@.len() as int) == delta.deleted@);
    ops
}

impl FileMeta {
    /// A copy of the report.
    pub fn clone_meta(&self) -> (m: FileMeta)
        ensures
            m@ == self@,
    {
        FileMeta {
            file_uid: self.file_uid.clone(),
            path: self.path.clone(),
            size: self.size,
            mtime_ns: self.mtime_ns,
            fast_sig: self.fast_sig.clone(),
            is_offline: self.is_offline,
            attrs: self.attrs,
        }
    }
}

/// A `files` row as the rename law reads it; the catalog keeps one row per
/// `file_uid`.
pub struct FileRow {
    pub path: Seq<char>,
    pub status: FileStatus,
    pub hashed: bool,
}

/// The `files` table after one operation.
pub open spec fn apply_op(t: Map<Seq<char>, FileRow>, op: OpModel) -> Map<Seq<char>, FileRow> {
    match op {
        OpModel::Upsert { meta, status } => t.insert(
            meta.file_uid,
            FileRow { path: meta.path, status, hashed: false },
        ),
        OpModel::Modify { meta } => if t.contains_key(meta.file_uid) {
            t.insert(meta.file_uid, FileRow { path: meta.path, status: FileStatus::Active, hashed: false })
        } else {
            t
        },
        OpModel::SetPath { file_uid, to } => if t.contains_key(file_uid) {
            t.insert(file_uid, FileRow { path: to, ..t[file_uid] })
        } else {
            t
        },
        OpModel::Tombstone { file_uid } => if t.contains_key(file_uid) {
            t.insert(file_uid, FileRow { status: FileStatus::Deleted, ..t[file_uid] })
        } else {
            t
        },
        _ => t,
    }
}

/// The `files` table after a sequence of operations.
pub open spec fn apply_ops(t: Map<Seq<char>, FileRow>, ops: Seq<OpModel>) -> Map<Seq<char>, FileRow>
    decreases ops.len(),
{
    if ops.len() == 0 {
        t
    } else {
        apply_ops(apply_op(t, ops[0]), ops.drop_first())
    }
}

/// The operations that a scan after renaming the file at `j` to `to` calls
/// for.
pub open spec fn rename_plan(prev: Seq<FileInfo>, j: int, to: String, gate: bool) -> Seq<OpModel> {
    let cur = renamed(prev, j, to);
    plan_of(
        added_of(prev, cur).map_values(|f: FileInfo| f@),
        modified_of(prev, cur).map_values(|f: FileInfo| f@),
        moved_of(prev, cur).map_values(
            |p: (FileInfo, FileInfo)| (p.1.file_uid@, p.0.path@, p.1.path@),
        ),
        deleted_of(prev, cur).map_values(|f: FileInfo| f@),
        gate,
    )
}

/// Renaming a file and scanning again leaves its catalog row in place, with
/// the same identity and status, pointing at the new path; no other row
/// changes and no extraction is requested.
pub proof fn lemma_rename_keeps_row(
    prev: Seq<FileInfo>,
    j: int,
    to: String,
    gate: bool,
    t: Map<Seq<char>, FileRow>,
)
    requires
        crate::scan::uids_unique(prev),
        0 <= j < prev.len(),
        to@ != prev[j].path@,
        t.contains_key(prev[j].file_uid@),
    ensures
        ({
            let uid = prev[j].file_uid@;
            let t2 = apply_ops(t, rename_plan(prev, j, to, gate));
            &&& t2 == t.insert(uid, FileRow { path: to@, ..t[uid] })
            &&& forall|k: int|
                0 <= k < rename_plan(prev, j, to, gate).len() ==> !(#[trigger] rename_plan(
                    prev,
                    j,
                    to,
                    gate,
                )[k] is Request)
        }),
{
    crate::scan::lemma_rename_is_one_move(prev, j, to);
    let cur = renamed(prev, j, to);
    let uid = prev[j].file_uid@;
    let mv = moved_of(prev, cur).map_values(
        |p: (FileInfo, FileInfo)| (p.1.file_uid@, p.0.path@, p.1.path@),
    );
    assert(mv =~= seq![(uid, prev[j].path@, to@)]);
    assert(added_of(prev, cur).map_values(|f: FileInfo| f@) =~= Seq::<MetaModel>::empty());
    assert(modified_of(prev, cur).map_values(|f: FileInfo| f@) =~= Seq::<MetaModel>::empty());
    assert(deleted_of(prev, cur).map_values(|f: FileInfo| f@) =~= Seq::<MetaModel>::empty());
    assert(mv.drop_last() =~= Seq::<(Seq<char>, Seq<char>, Seq<char>)>::empty());
    let plan = rename_plan(prev, j, to, gate);
    let log = OpModel::Log { kind: OpsKind::Mv, path_from: Some(prev[j].path@), path_to: Some(to@) };
    assert(mv.last() == (uid, prev[j].path@, to@));
    assert(plan_moved(mv.drop_last()) =~= Seq::<OpModel>::empty());
    assert(plan_moved(mv) =~= seq![OpModel::SetPath { file_uid: uid, to: to@ }, log]);
    assert(plan =~= seq![OpModel::SetPath { file_uid: uid, to: to@ }, log]);
    let t1 = apply_op(t, plan[0]);
    assert(plan.drop_first() =~= seq![log]);
    assert(plan.drop_first().drop_first() =~= Seq::<OpModel>::empty());
    assert(apply_ops(t, plan) == apply_ops(t1, seq![log]));
    assert(apply_ops(t1, seq![log]) == apply_ops(apply_op(t1, log), seq![log].drop_first()));
}

} // verus!
