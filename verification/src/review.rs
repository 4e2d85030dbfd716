//! Reviewing a duplicate group: which members go to the trash, and the
//! tally of what was trashed.

use vstd::prelude::*;
use vstd::string::*;
use crate::error::AppError;
use crate::types::TrashResult;

verus! {

/// What the trash step needs to know of a group member.
#[derive(Clone, Debug)]
pub struct ReviewMember {
    pub file_id: i64,
    pub path: String,
    pub size: u64,
    /// `Some(true)` when the user chose to keep this file.
    pub is_keeper: Option<bool>,
    pub companion_raw_path: Option<String>,
    pub companion_raw_size: Option<u64>,
}

/// The member is marked to be kept.
pub open spec fn is_kept(m: ReviewMember) -> bool {
    m.is_keeper == Some(true)
}

/// Positions of the members that are not kept, in order.
pub open spec fn unkept_positions(ms: Seq<ReviewMember>) -> Seq<usize> {
    Seq::new(ms.len(), |i: int| i as usize).filter(|i: usize| !is_kept(ms[i as int]))
}

/// The refusal given when no member of a group is kept.
pub open spec fn no_keeper_message() -> Seq<char> {
    "Select at least one photo to keep before moving duplicates to Trash"@
}

/// Which members of a group go to the trash: every member not kept, in
/// order. Refused when no member is kept.
pub fn trash_targets(members: &[ReviewMember]) -> (r: Result<Vec<usize>, AppError>)
    ensures
        match r {
            Ok(v) => (exists|i: int| 0 <= i < members@.len() && is_kept(#[trigger] members@[i]))
                && v@ == unkept_positions(members@),
            Err(e) => (forall|i: int| 0 <= i < members@.len() ==> !is_kept(#[trigger] members@[i]))
                && e == AppError::Other(e->Other_0) && e->Other_0@ == no_keeper_message(),
        },
{
    let ghost ms = members@;
    let ghost all = Seq::new(ms.len(), |i: int| i as usize);
    let ghost pred = |i: usize| !is_kept(ms[i as int]);
    let mut v: Vec<usize> = Vec::new();
    let mut any_keeper = false;
    let mut i: usize = 0;
    while i < members.len()
        invariant
            i <= ms.len(),
            ms == members@,
            all == Seq::new(ms.len(), |i: int| i as usize),
            pred == (|i: usize| !is_kept(ms[i as int])),
            v@ == all.take(i as int).filter(pred),
            any_keeper == exists|k: int| 0 <= k < i && is_kept(#[trigger] ms[k]),
        decreases ms.len() - i,
    {
        proof {
            reveal_with_fuel(Seq::filter, 1);
            assert(all.take(i + 1).drop_last() =~= all.take(i as int));
            assert(all.take(i + 1).last() == i);
        }
        let kept = match members[i].is_keeper {
            Some(b) => b,
            None => false,
        };
        if kept {
            any_keeper = true;
        } else {
            v.push(i);
        }
        i = i + 1;
    }
    assert(all.take(ms.len() as int) =~= all);
    if !any_keeper {
        return Err(AppError::Other(String::from_str("Select at least one photo to keep before moving duplicates to Trash")));
    }
    Ok(v)
}

/// Bytes freed by trashing a member's RAW companion: its recorded size, or
/// else the size found on disk, or else nothing.
pub open spec fn raw_bytes(member: ReviewMember, size_on_disk: Option<u64>) -> u64 {
    match member.companion_raw_size {
        Some(s) => s,
        None => match size_on_disk {
            Some(d) => d,
            None => 0,
        },
    }
}

/// Bytes freed by trashing a member's RAW companion.
pub fn companion_raw_bytes(member: &ReviewMember, size_on_disk: Option<u64>) -> (b: u64)
    ensures
        b == raw_bytes(*member, size_on_disk),
{
    match member.companion_raw_size {
        Some(s) => s,
        None => match size_on_disk {
            Some(d) => d,
            None => 0,
        },
    }
}

impl TrashResult {
    /// Nothing trashed yet.
    pub fn empty() -> (r: TrashResult)
        ensures
            r.trashed_count == 0,
            r.bytes_freed == 0,
            r.errors@.len() == 0,
    {
        TrashResult { trashed_count: 0, bytes_freed: 0, errors: Vec::new() }
    }

    /// Counts one trashed file of `bytes` bytes.
    pub fn record_trashed(&mut self, bytes: u64)
        requires
            old(self).trashed_count < u32::MAX,
            old(self).bytes_freed + bytes <= u64::MAX,
        ensures
            final(self).trashed_count == old(self).trashed_count + 1,
            final(self).bytes_freed == old(self).bytes_freed + bytes,
            final(self).errors == old(self).errors,
    {
        self.trashed_count = self.trashed_count + 1;
        self.bytes_freed = self.bytes_freed + bytes;
    }

    /// Records that trashing `path` failed with `message`, as
    /// `path: message`.
    pub fn record_error(&mut self, path: &str, message: &str)
        ensures
            final(self).trashed_count == old(self).trashed_count,
            final(self).bytes_freed == old(self).bytes_freed,
            final(self).errors@.len() == old(self).errors@.len() + 1,
            forall|i: int| 0 <= i < old(self).errors@.len() ==> final(self).errors@[i] == old(self).errors@[i],
            final(self).errors@.last()@ == path@ + ": "@ + message@,
    {
        let mut e = String::from_str(path);
        e.append(": ");
        e.append(message);
        self.errors.push(e);
    }

    /// A group is resolved after trashing when at least one file went to the
    /// trash.
    pub fn resolves_group(&self) -> (b: bool)
        ensures
            b == (self.trashed_count > 0),
    {
        self.trashed_count > 0
    }
}

/// A stored count or size, with negative values read as zero.
pub fn nonneg(v: i64) -> (r: u64)
    ensures
        r == if v < 0 { 0 } else { v as int },
{
    if v < 0 {
        0
    } else {
        v as u64
    }
}

/// A member marked to be kept is never a trash target, and every other
/// member is one.
pub proof fn lemma_trash_targets_exactly_unkept(ms: Seq<ReviewMember>, i: int)
    requires
        0 <= i < ms.len(),
        ms.len() <= usize::MAX,
    ensures
        unkept_positions(ms).contains(i as usize) <==> !is_kept(ms[i]),
{
    let all = Seq::new(ms.len(), |k: int| k as usize);
    let pred = |k: usize| !is_kept(ms[k as int]);
    assert(all[i] == i as usize);
    if unkept_positions(ms).contains(i as usize) {
        all.lemma_filter_contains_rev(pred, i as usize);
        let j = choose|j: int| 0 <= j < all.filter(pred).len() && all.filter(pred)[j] == i as usize;
        all.lemma_filter_pred(pred, j);
    }
    if !is_kept(ms[i]) {
        all.lemma_filter_contains(pred, i);
    }
}

/// What follows an attempt to move a member's photo to the trash.
pub enum PhotoTrashed {
    /// The photo went to the trash: it is marked deleted, and its RAW
    /// companion, if it has one, goes next.
    Trashed(Option<String>),
    /// The attempt failed, and nothing more is done for this member.
    Failed,
}

/// Text of an optional path.
pub open spec fn opt_path(p: Option<String>) -> Option<Seq<char>> {
    match p {
        Some(t) => Some(t@),
        None => None,
    }
}

/// `t` is `t0` with one more error, `path: message`.
pub open spec fn error_recorded(t0: TrashResult, t: TrashResult, path: Seq<char>, message: Seq<char>) -> bool {
    &&& t.trashed_count == t0.trashed_count
    &&& t.bytes_freed == t0.bytes_freed
    &&& t.errors@.len() == t0.errors@.len() + 1
    &&& forall|i: int| 0 <= i < t0.errors@.len() ==> t.errors@[i] == t0.errors@[i]
    &&& t.errors@.last()@ == path + ": "@ + message
}

/// `t` is `t0` with one more file of `bytes` bytes trashed.
pub open spec fn file_recorded(t0: TrashResult, t: TrashResult, bytes: u64) -> bool {
    &&& t.trashed_count == t0.trashed_count + 1
    &&& t.bytes_freed == t0.bytes_freed + bytes
    &&& t.errors == t0.errors
}

/// Tallies the attempt to trash a member's photo: a trashed photo counts
/// with its size and hands on its RAW companion; a failure is recorded as
/// `path: message`.
pub fn after_photo_trash(tally: &mut TrashResult, member: &ReviewMember, outcome: Result<(), String>) -> (next: PhotoTrashed)
    requires
        outcome is Ok ==> old(tally).trashed_count < u32::MAX && old(tally).bytes_freed + member.size <= u64::MAX,
    ensures
        match outcome {
            Ok(_) => next matches PhotoTrashed::Trashed(c) && opt_path(c) == opt_path(member.companion_raw_path)
                && file_recorded(*old(tally), *final(tally), member.size),
            Err(m) => next is Failed && error_recorded(*old(tally), *final(tally), member.path@, m@),
        },
{
    match outcome {
        Ok(()) => {
            tally.record_trashed(member.size);
            let companion = match &member.companion_raw_path {
                Some(p) => Some(p.clone()),
                None => None,
            };
            PhotoTrashed::Trashed(companion)
        },
        Err(m) => {
            tally.record_error(member.path.as_str(), m.as_str());
            PhotoTrashed::Failed
        },
    }
}

/// Tallies the attempt to trash a member's RAW companion at `raw_path`: a
/// trashed companion counts with its recorded size, or else the size found
/// on disk; a failure is recorded as `path: message`.
pub fn after_companion_trash(
    tally: &mut TrashResult,
    member: &ReviewMember,
    raw_path: &str,
    outcome: Result<(), String>,
    size_on_disk: Option<u64>,
)
    requires
        outcome is Ok ==> old(tally).trashed_count < u32::MAX && old(tally).bytes_freed + raw_bytes(
            *member,
            size_on_disk,
        ) <= u64::MAX,
    ensures
        match outcome {
            Ok(_) => file_recorded(*old(tally), *final(tally), raw_bytes(*member, size_on_disk)),
            Err(m) => error_recorded(*old(tally), *final(tally), raw_path@, m@),
        },
{
    match outcome {
        Ok(()) => {
            let bytes = companion_raw_bytes(member, size_on_disk);
            tally.record_trashed(bytes);
        },
        Err(m) => tally.record_error(raw_path, m.as_str()),
    }
}

} // verus!
