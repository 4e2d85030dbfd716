//! Decisions of the scan loop: which walked files are kept, which files
//! need hashing again, when a batch is hashed and when progress is saved.

use vstd::prelude::*;
use crate::hash::{is_supported_image, is_supported_image_path};
use crate::paths::{extension_lower, path_extension_lower};
use crate::raw::{is_raw_extension, is_standalone_raw, is_standalone_raw_path, raw_exts};
use crate::text::lower_seq;
use crate::types::{ScanPhase, SessionStatus};

verus! {

/// Files hashed together in one batch.
pub const BATCH_SIZE: usize = 500;

/// Progress is saved whenever this many files have been processed.
pub const CHECKPOINT_INTERVAL: u64 = 1000;

/// A walked file is kept when it is a supported image (and, without RAW
/// pairing, not a standalone RAW file), or, with RAW pairing, when it has a
/// RAW extension.
pub open spec fn walk_keeps(p: Seq<char>, include_raw: bool) -> bool {
    if !include_raw {
        is_supported_image_path(p) && !is_standalone_raw(p)
    } else {
        is_supported_image_path(p) || match path_extension_lower(p) {
            Some(e) => raw_exts().contains(lower_seq(e)),
            None => false,
        }
    }
}

/// Whether a walked file is kept for planning.
pub fn walk_accepts(path: &str, include_raw: bool) -> (b: bool)
    ensures
        b == walk_keeps(path@, include_raw),
{
    if !include_raw {
        return is_supported_image(path) && !is_standalone_raw_path(path);
    }
    is_supported_image(path) || match extension_lower(path) {
        Some(e) => is_raw_extension(e.as_str()),
        None => false,
    }
}

/// A file needs no hashing when it was indexed before with the same size
/// and modification time.
pub fn is_unchanged(existing: Option<(i64, u64, i64)>, size: u64, mtime_ns: i64) -> (b: bool)
    ensures
        b == match existing {
            Some((_, s, m)) => s == size && m == mtime_ns,
            None => false,
        },
{
    match existing {
        Some((_, s, m)) => s == size && m == mtime_ns,
        None => false,
    }
}

/// State of the hashing loop: files processed so far, the batch waiting
/// to be hashed, and the last path seen.
pub struct ScanCursor {
    pub files_processed: u64,
    pub batch: Vec<String>,
    pub last_path: Option<String>,
}

impl ScanCursor {
    /// Nothing processed, nothing queued.
    pub fn new() -> (c: Self)
        ensures
            c.files_processed == 0,
            c.batch@.len() == 0,
            c.last_path is None,
    {
        ScanCursor { files_processed: 0, batch: Vec::new(), last_path: None }
    }

    /// A file that needs no hashing counts as processed.
    pub fn skip_unchanged(&mut self, path: String)
        requires
            old(self).files_processed < u64::MAX,
        ensures
            final(self).files_processed == old(self).files_processed + 1,
            final(self).batch == old(self).batch,
            final(self).last_path == Some(path),
    {
        self.files_processed = self.files_processed + 1;
        self.last_path = Some(path);
    }

    /// Queues a file for hashing; tells whether the batch is now full.
    pub fn enqueue(&mut self, path: String) -> (full: bool)
        ensures
            final(self).files_processed == old(self).files_processed,
            final(self).batch@ == old(self).batch@.push(path),
            final(self).last_path == Some(path),
            full == (final(self).batch@.len() >= BATCH_SIZE),
    {
        self.batch.push(path.clone());
        self.last_path = Some(path);
        self.batch.len() >= BATCH_SIZE
    }

    /// Hands out the queued batch and empties the queue.
    pub fn take_batch(&mut self) -> (b: Vec<String>)
        ensures
            b == old(self).batch,
            final(self).batch@.len() == 0,
            final(self).files_processed == old(self).files_processed,
            final(self).last_path == old(self).last_path,
    {
        let mut b: Vec<String> = Vec::new();
        std::mem::swap(&mut b, &mut self.batch);
        b
    }

    /// Counts the files stored from a full batch; tells whether progress is
    /// to be saved now.
    pub fn batch_stored(&mut self, count: u64) -> (save: bool)
        requires
            old(self).files_processed + count <= u64::MAX,
        ensures
            final(self).files_processed == old(self).files_processed + count,
            final(self).batch == old(self).batch,
            final(self).last_path == old(self).last_path,
            save == (final(self).files_processed % CHECKPOINT_INTERVAL == 0),
    {
        self.files_processed = self.files_processed + count;
        self.files_processed % CHECKPOINT_INTERVAL == 0
    }

    /// Counts the files stored from the last, partial batch.
    pub fn last_batch_stored(&mut self, count: u64)
        requires
            old(self).files_processed + count <= u64::MAX,
        ensures
            final(self).files_processed == old(self).files_processed + count,
            final(self).batch == old(self).batch,
            final(self).last_path == old(self).last_path,
    {
        self.files_processed = self.files_processed + count;
    }
}

/// Files processed as shown while a batch is being hashed: those stored
/// plus those of the current batch already hashed.
pub fn processed_snapshot(stored: u64, in_batch: u64) -> (n: u64)
    requires
        stored + in_batch <= u64::MAX,
    ensures
        n == stored + in_batch,
{
    stored + in_batch
}

/// Whether a request for `session_id` reaches the running scan: only when
/// a scan is running and it is that session's.
pub fn is_active_session(active: &Option<String>, session_id: &str) -> (b: bool)
    ensures
        b == match active {
            Some(a) => a@ == session_id@,
            None => false,
        },
{
    match active {
        Some(a) => crate::text::str_eq(a.as_str(), session_id),
        None => false,
    }
}

/// How the hashing loop ended.
#[derive(Clone, Copy, Debug, PartialEq, Eq, Structural)]
pub enum LoopEnd {
    /// Cancelled when the next entry was about to be taken up.
    Cancelled,
    /// Cancelled while waiting in a pause.
    CancelledWhilePaused,
    /// Every entry was taken up.
    Finished,
}

/// What a scan records when its hashing loop ends: the session's status,
/// and the phase of the checkpoint saved with it, if one is saved.
pub struct ScanEnd {
    pub status: SessionStatus,
    pub checkpoint: Option<ScanPhase>,
}

/// The record of a scan's end: a cancelled scan is paused, saving a hashing
/// checkpoint unless it was cancelled while paused; a finished scan saves
/// a complete checkpoint and moves on to review.
pub fn scan_end(end: LoopEnd) -> (r: ScanEnd)
    ensures
        match end {
            LoopEnd::Cancelled => r.status == SessionStatus::Paused && r.checkpoint == Some(ScanPhase::Hashing),
            LoopEnd::CancelledWhilePaused => r.status == SessionStatus::Paused && r.checkpoint is None,
            LoopEnd::Finished => r.status == SessionStatus::Reviewing && r.checkpoint == Some(ScanPhase::Complete),
        },
{
    match end {
        LoopEnd::Cancelled => ScanEnd { status: SessionStatus::Paused, checkpoint: Some(ScanPhase::Hashing) },
        LoopEnd::CancelledWhilePaused => ScanEnd { status: SessionStatus::Paused, checkpoint: None },
        LoopEnd::Finished => ScanEnd { status: SessionStatus::Reviewing, checkpoint: Some(ScanPhase::Complete) },
    }
}

} // verus!
