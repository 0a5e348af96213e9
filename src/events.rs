//! The events of the two bus topics, `source.fs` and `mirror.text`.
use vstd::prelude::*;

use crate::pages::PageBlock;

verus! {

/// A file as a change delta reports it.
#[derive(Clone, Debug)]
pub struct FileMeta {
    pub file_uid: String,
    pub path: String,
    pub size: u64,
    pub mtime_ns: i64,
    pub fast_sig: String,
    pub is_offline: bool,
    pub attrs: u64,
}

/// A reported file as plain values.
pub struct MetaModel {
    pub file_uid: Seq<char>,
    pub path: Seq<char>,
    pub size: u64,
    pub mtime_ns: i64,
    pub fast_sig: Seq<char>,
    pub is_offline: bool,
    pub attrs: u64,
}

impl View for FileMeta {
    type V = MetaModel;

    open spec fn view(&self) -> MetaModel {
        MetaModel {
            file_uid: self.file_uid@,
            path: self.path@,
            size: self.size,
            mtime_ns: self.mtime_ns,
            fast_sig: self.fast_sig@,
            is_offline: self.is_offline,
            attrs: self.attrs,
        }
    }
}

/// A file whose identity stayed while its path changed.
#[derive(Clone, Debug)]
pub struct FileMove {
    pub file_uid: String,
    pub from: String,
    pub to: String,
}

/// Events of the `source.fs` topic.
#[derive(Clone, Debug)]
pub enum SourceEvent {
    SyncStarted,
    SyncDelta {
        added: Vec<FileMeta>,
        modified: Vec<FileMeta>,
        moved: Vec<FileMove>,
        deleted: Vec<FileMeta>,
    },
    FileAdded { file_uid: String, path: String },
    FileModified { file_uid: String, path: String },
    FileMoved { file_uid: String, from: String, to: String },
    FileDeleted { file_uid: String, path: String },
    ExtractionRequested { file_uid: String },
    ExtractionCompleted {
        file_uid: String,
        content_hash: String,
        extractor: String,
        extractor_version: String,
        pages: Vec<PageBlock>,
    },
    ExtractionFailed { file_uid: String, error: String },
}

/// Events of the `mirror.text` topic.
#[derive(Clone, Debug)]
pub enum MirrorEvent {
    MirrorDocUpserted { file_uid: String, content_hash: String },
    MirrorDocDeleted { file_uid: String },
    MirrorChunkUpserted { chunk_id: String, file_uid: String, order: u64 },
    MirrorChunkDeleted { chunk_id: String, file_uid: String },
}

} // verus!
