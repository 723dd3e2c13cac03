//! Cross-cutting safety checks applied before any fix is emitted.
//!
//! A structurally valid match is rejected when its resolved range leaks
//! into a different physical file (macro or include expansion), or when a
//! comment lies inside the span a rewrite would replace: either rewrite
//! would silently corrupt text, so the finding is dropped entirely.

use vstd::prelude::*;

use crate::base::FileId;
use crate::base::FileRange;
use crate::base::TextRange;

verus! {

/// No comment span overlaps the given span.
pub open spec fn spec_comments_clear(comments: Seq<TextRange>, r: TextRange) -> bool {
    forall|i: int| 0 <= i < comments.len() ==> (#[trigger] comments[i]).spec_disjoint(r)
}

/// An occurrence may be rewritten only when it stays in the analyzed
/// file and covers no comment.
pub open spec fn spec_occurrence_safe(
    comments: Seq<TextRange>,
    file_id: FileId,
    occurrence: FileRange,
) -> bool {
    &&& occurrence.file_id == file_id
    &&& spec_comments_clear(comments, occurrence.range)
}

/// Checks that no comment overlaps the span.
pub fn comments_clear(comments: &Vec<TextRange>, r: TextRange) -> (ok: bool)
    ensures
        ok == spec_comments_clear(comments@, r),
{
    let n = comments.len();
    let mut i: usize = 0;
    while i < n
        invariant
            n == comments@.len(),
            0 <= i <= n,
            forall|k: int| 0 <= k < i ==> (#[trigger] comments@[k]).spec_disjoint(r),
        decreases n - i,
    {
        if !comments[i].disjoint(&r) {
            return false;
        }
        i += 1;
    }
    true
}

/// The sensibility check run before any textual rewrite is offered.
pub fn occurrence_is_safe(comments: &Vec<TextRange>, file_id: FileId, occurrence: FileRange) -> (ok:
    bool)
    ensures
        ok == spec_occurrence_safe(comments@, file_id, occurrence),
{
    if occurrence.file_id != file_id {
        return false;
    }
    comments_clear(comments, occurrence.range)
}

/// Fail-closed: an occurrence whose resolved range lies in a different
/// physical file — as happens when a match reaches through a macro or
/// include expansion — is never considered safe, whatever its shape.
pub proof fn lemma_cross_file_rejected(comments: Seq<TextRange>, file_id: FileId, occ: FileRange)
    requires
        occ.file_id != file_id,
    ensures
        !spec_occurrence_safe(comments, file_id, occ),
{
}

} // verus!
