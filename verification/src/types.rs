//! Session, scan and review states, and their stored text forms.

use vstd::prelude::*;
use crate::text::str_eq;

verus! {

/// Lifecycle of a scan session.
#[derive(Clone, Copy, Debug, PartialEq, Eq, Structural)]
pub enum SessionStatus {
    Scanning,
    Reviewing,
    Paused,
    Completed,
}

/// Phase a running scan is in.
#[derive(Clone, Copy, Debug, PartialEq, Eq, Structural)]
pub enum ScanPhase {
    Walking,
    Hashing,
    Clustering,
    Complete,
}

/// The detector that produced a duplicate group.
#[derive(Clone, Copy, Debug, PartialEq, Eq, Structural)]
pub enum DuplicateKind {
    Exact,
    Visual,
    Burst,
    Metadata,
}

/// Whether the user has dealt with a duplicate group.
#[derive(Clone, Copy, Debug, PartialEq, Eq, Structural)]
pub enum ReviewStatus {
    Pending,
    Resolved,
}

/// Camera metadata of a photo. `date_taken` is the capture time in UTC:
/// seconds since the Unix epoch and nanoseconds into that second, the
/// nanoseconds reaching `1_000_000_000` or more during a leap second.
#[derive(Clone, Debug)]
pub struct ExifData {
    pub camera_make: Option<String>,
    pub camera_model: Option<String>,
    pub iso: Option<u32>,
    pub aperture: Option<String>,
    pub shutter_speed: Option<String>,
    pub focal_length: Option<String>,
    pub date_taken: Option<(i64, u32)>,
}

/// Outcome of moving the duplicates of a group to the trash.
#[derive(Clone, Debug)]
pub struct TrashResult {
    pub trashed_count: u32,
    pub bytes_freed: u64,
    pub errors: Vec<String>,
}

/// Stored text of a session status.
pub open spec fn status_text(s: SessionStatus) -> Seq<char> {
    match s {
        SessionStatus::Scanning => "scanning"@,
        SessionStatus::Reviewing => "reviewing"@,
        SessionStatus::Paused => "paused"@,
        SessionStatus::Completed => "completed"@,
    }
}

/// Session status read back from stored text; unknown text reads as `Scanning`.
pub open spec fn parse_status(t: Seq<char>) -> SessionStatus {
    if t == "reviewing"@ {
        SessionStatus::Reviewing
    } else if t == "paused"@ {
        SessionStatus::Paused
    } else if t == "completed"@ {
        SessionStatus::Completed
    } else {
        SessionStatus::Scanning
    }
}

/// Stored text of a scan phase.
pub open spec fn phase_text(p: ScanPhase) -> Seq<char> {
    match p {
        ScanPhase::Walking => "walking"@,
        ScanPhase::Hashing => "hashing"@,
        ScanPhase::Clustering => "clustering"@,
        ScanPhase::Complete => "complete"@,
    }
}

/// Scan phase read back from stored text; unknown text reads as `Walking`.
pub open spec fn parse_phase(t: Seq<char>) -> ScanPhase {
    if t == "hashing"@ {
        ScanPhase::Hashing
    } else if t == "clustering"@ {
        ScanPhase::Clustering
    } else if t == "complete"@ {
        ScanPhase::Complete
    } else {
        ScanPhase::Walking
    }
}

/// Stored text of a duplicate kind.
pub open spec fn kind_text(k: DuplicateKind) -> Seq<char> {
    match k {
        DuplicateKind::Exact => "exact"@,
        DuplicateKind::Visual => "visual"@,
        DuplicateKind::Burst => "burst"@,
        DuplicateKind::Metadata => "metadata"@,
    }
}

/// Duplicate kind read back from stored text; unknown text reads as `Exact`.
pub open spec fn parse_kind(t: Seq<char>) -> DuplicateKind {
    if t == "visual"@ {
        DuplicateKind::Visual
    } else if t == "burst"@ {
        DuplicateKind::Burst
    } else if t == "metadata"@ {
        DuplicateKind::Metadata
    } else {
        DuplicateKind::Exact
    }
}

/// Stored text of a review status.
pub open spec fn review_text(r: ReviewStatus) -> Seq<char> {
    match r {
        ReviewStatus::Pending => "pending"@,
        ReviewStatus::Resolved => "resolved"@,
    }
}

/// Review status read back from stored text; anything but `resolved` is pending.
pub open spec fn parse_review(t: Seq<char>) -> ReviewStatus {
    if t == "resolved"@ {
        ReviewStatus::Resolved
    } else {
        ReviewStatus::Pending
    }
}

/// Stored text of a session status.
pub fn status_to_str(status: SessionStatus) -> (t: &'static str)
    ensures
        t@ == status_text(status),
{
    match status {
        SessionStatus::Scanning => "scanning",
        SessionStatus::Reviewing => "reviewing",
        SessionStatus::Paused => "paused",
        SessionStatus::Completed => "completed",
    }
}

/// Session status of stored text.
pub fn str_to_status(s: &str) -> (r: SessionStatus)
    ensures
        r == parse_status(s@),
{
    if str_eq(s, "reviewing") {
        SessionStatus::Reviewing
    } else if str_eq(s, "paused") {
        SessionStatus::Paused
    } else if str_eq(s, "completed") {
        SessionStatus::Completed
    } else {
        SessionStatus::Scanning
    }
}

/// Stored text of a scan phase.
pub fn phase_to_str(phase: ScanPhase) -> (t: &'static str)
    ensures
        t@ == phase_text(phase),
{
    match phase {
        ScanPhase::Walking => "walking",
        ScanPhase::Hashing => "hashing",
        ScanPhase::Clustering => "clustering",
        ScanPhase::Complete => "complete",
    }
}

/// Scan phase of stored text.
pub fn str_to_phase(s: &str) -> (r: ScanPhase)
    ensures
        r == parse_phase(s@),
{
    if str_eq(s, "hashing") {
        ScanPhase::Hashing
    } else if str_eq(s, "clustering") {
        ScanPhase::Clustering
    } else if str_eq(s, "complete") {
        ScanPhase::Complete
    } else {
        ScanPhase::Walking
    }
}

/// Stored text of a duplicate kind.
pub fn kind_to_str(kind: DuplicateKind) -> (t: &'static str)
    ensures
        t@ == kind_text(kind),
{
    match kind {
        DuplicateKind::Exact => "exact",
        DuplicateKind::Visual => "visual",
        DuplicateKind::Burst => "burst",
        DuplicateKind::Metadata => "metadata",
    }
}

/// Duplicate kind of stored text.
pub fn str_to_kind(s: &str) -> (r: DuplicateKind)
    ensures
        r == parse_kind(s@),
{
    if str_eq(s, "visual") {
        DuplicateKind::Visual
    } else if str_eq(s, "burst") {
        DuplicateKind::Burst
    } else if str_eq(s, "metadata") {
        DuplicateKind::Metadata
    } else {
        DuplicateKind::Exact
    }
}

/// Stored text of a review status.
pub fn review_status_to_str(status: ReviewStatus) -> (t: &'static str)
    ensures
        t@ == review_text(status),
{
    match status {
        ReviewStatus::Pending => "pending",
        ReviewStatus::Resolved => "resolved",
    }
}

/// Review status of stored text.
pub fn str_to_review_status(s: &str) -> (r: ReviewStatus)
    ensures
        r == parse_review(s@),
{
    if str_eq(s, "resolved") {
        ReviewStatus::Resolved
    } else {
        ReviewStatus::Pending
    }
}

/// Every session status reads back as itself from its stored text.
pub proof fn lemma_status_round_trip(s: SessionStatus)
    ensures
        parse_status(status_text(s)) == s,
{
    reveal_strlit("scanning");
    assert("scanning"@.len() == 8 && "scanning"@[0] == 's');
    reveal_strlit("reviewing");
    assert("reviewing"@.len() == 9 && "reviewing"@[0] == 'r');
    reveal_strlit("paused");
    assert("paused"@.len() == 6 && "paused"@[0] == 'p');
    reveal_strlit("completed");
    assert("completed"@.len() == 9 && "completed"@[0] == 'c');
}

/// Every scan phase reads back as itself from its stored text.
pub proof fn lemma_phase_round_trip(p: ScanPhase)
    ensures
        parse_phase(phase_text(p)) == p,
{
    reveal_strlit("walking");
    assert("walking"@.len() == 7 && "walking"@[0] == 'w');
    reveal_strlit("hashing");
    assert("hashing"@.len() == 7 && "hashing"@[0] == 'h');
    reveal_strlit("clustering");
    assert("clustering"@.len() == 10 && "clustering"@[0] == 'c');
    reveal_strlit("complete");
    assert("complete"@.len() == 8 && "complete"@[0] == 'c');
}

/// Every duplicate kind reads back as itself from its stored text.
pub proof fn lemma_kind_round_trip(k: DuplicateKind)
    ensures
        parse_kind(kind_text(k)) == k,
{
    reveal_strlit("exact");
    assert("exact"@.len() == 5 && "exact"@[0] == 'e');
    reveal_strlit("visual");
    assert("visual"@.len() == 6 && "visual"@[0] == 'v');
    reveal_strlit("burst");
    assert("burst"@.len() == 5 && "burst"@[0] == 'b');
    reveal_strlit("metadata");
    assert("metadata"@.len() == 8 && "metadata"@[0] == 'm');
}

/// Every review status reads back as itself from its stored text.
pub proof fn lemma_review_round_trip(r: ReviewStatus)
    ensures
        parse_review(review_text(r)) == r,
{
    reveal_strlit("pending");
    assert("pending"@.len() == 7 && "pending"@[0] == 'p');
    reveal_strlit("resolved");
    assert("resolved"@.len() == 8 && "resolved"@[0] == 'r');
}

} // verus!
