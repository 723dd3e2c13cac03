//! Assist: flip_sep
//!
//! Flips the two items around a comma or semicolon separator.  At the
//! level of whole function declarations the separator flips the two
//! adjacent clauses; elsewhere it flips the nearest non-trivia siblings.
//! A comma or semicolon inside a string or quoted atom is part of that
//! token, so no separator is found there.

use vstd::prelude::*;

use crate::assists::Assist;
use crate::assists::AssistKind;
use crate::base::TextRange;
use crate::source_change::SourceChangeBuilder;
use crate::syntax::SyntaxElement;
use crate::syntax::SyntaxKind;
use crate::syntax::child_index;
use crate::syntax::find_parent;
use crate::syntax::find_pivot;
use crate::syntax::is_trivia;
use crate::syntax::spec_child_index;
use crate::syntax::spec_find_parent;
use crate::syntax::spec_find_pivot;
use crate::source_change::TextEdit;
use crate::view::spec_text_at;
use crate::view::text_at;

verus! {

broadcast use vstd::seq_lib::group_to_multiset_ensures, vstd::multiset::group_multiset_axioms;

/// The nearest non-trivia sibling before `j`; clause siblings only when
/// `clauses` is set.
pub open spec fn spec_prev_sibling(s: Seq<SyntaxElement>, j: int, clauses: bool) -> Option<
    SyntaxElement,
>
    decreases j,
    when j >= 0
{
    if j <= 0 {
        None
    } else if (clauses && s[j - 1].kind is ClauseNode) || (!clauses && !is_trivia(s[j - 1].kind)) {
        Some(s[j - 1])
    } else {
        spec_prev_sibling(s, j - 1, clauses)
    }
}

/// The nearest non-trivia sibling after `j`.
pub open spec fn spec_next_sibling(s: Seq<SyntaxElement>, j: int, clauses: bool) -> Option<
    SyntaxElement,
>
    decreases s.len() - j,
    when j >= 0
{
    if j + 1 >= s.len() {
        None
    } else if (clauses && s[j + 1].kind is ClauseNode) || (!clauses && !is_trivia(s[j + 1].kind)) {
        Some(s[j + 1])
    } else {
        spec_next_sibling(s, j + 1, clauses)
    }
}

/// The two spans the assist swaps, when everything resolves: the pivot
/// separator at the offset, its parent, the two siblings, their texts,
/// and non-overlapping well-formed spans.
pub open spec fn spec_flip(tree: SyntaxElement, content: Seq<u8>, off: u32) -> Option<
    (TextRange, TextRange, TextRange),
> {
    match spec_find_pivot(tree, off) {
        Some(pivot) => match spec_find_parent(tree, pivot.range) {
            Some(parent) => {
                let j = spec_child_index(parent.children@, pivot.range);
                let clauses = parent.kind is FunDeclNode;
                match (
                    spec_prev_sibling(parent.children@, j, clauses),
                    spec_next_sibling(parent.children@, j, clauses),
                ) {
                    (Some(prev), Some(next)) => if spec_text_at(content, prev.range) is Some
                        && spec_text_at(content, next.range) is Some && prev.range.spec_disjoint(
                        next.range,
                    ) && prev.range.start != next.range.start {
                        Some((pivot.range, prev.range, next.range))
                    } else {
                        None
                    },
                    _ => None,
                }
            },
            None => None,
        },
        None => None,
    }
}

/// Finds the nearest eligible sibling before `j`.
fn prev_sibling<'a>(s: &'a Vec<SyntaxElement>, j: usize, clauses: bool) -> (r: Option<
    &'a SyntaxElement,
>)
    requires
        j <= s@.len(),
    ensures
        match r {
            Some(t) => spec_prev_sibling(s@, j as int, clauses) == Some(*t),
            None => spec_prev_sibling(s@, j as int, clauses) is None,
        },
{
    let mut k = j;
    while k > 0
        invariant
            j <= s@.len(),
            k <= j,
            spec_prev_sibling(s@, j as int, clauses) == spec_prev_sibling(s@, k as int, clauses),
        decreases k,
    {
        let c = &s[k - 1];
        let hit = if clauses {
            matches!(c.kind, SyntaxKind::ClauseNode)
        } else {
            !(matches!(c.kind, SyntaxKind::Whitespace) || matches!(c.kind, SyntaxKind::Comment))
        };
        if hit {
            return Some(c);
        }
        k -= 1;
    }
    None
}

/// Finds the nearest eligible sibling after `j`.
fn next_sibling<'a>(s: &'a Vec<SyntaxElement>, j: usize, clauses: bool) -> (r: Option<
    &'a SyntaxElement,
>)
    requires
        j < s@.len(),
    ensures
        match r {
            Some(t) => spec_next_sibling(s@, j as int, clauses) == Some(*t),
            None => spec_next_sibling(s@, j as int, clauses) is None,
        },
{
    let n = s.len();
    let mut k = j;
    while k + 1 < n
        invariant
            n == s@.len(),
            j <= k < n,
            spec_next_sibling(s@, j as int, clauses) == spec_next_sibling(s@, k as int, clauses),
        decreases n - k,
    {
        let c = &s[k + 1];
        let hit = if clauses {
            matches!(c.kind, SyntaxKind::ClauseNode)
        } else {
            !(matches!(c.kind, SyntaxKind::Whitespace) || matches!(c.kind, SyntaxKind::Comment))
        };
        if hit {
            return Some(c);
        }
        k += 1;
    }
    None
}

/// Offers the flip at the given offset: when a separator is found there
/// and both neighbours resolve to disjoint spans, appends one assist
/// whose rewrite swaps the two texts.
pub fn flip_sep(
    acc: &mut Vec<Assist>,
    tree: &SyntaxElement,
    content: &Vec<u8>,
    file_id: crate::base::FileId,
    off: u32,
) -> (applied: bool)
    ensures
        applied == spec_flip(*tree, content@, off) is Some,
        match spec_flip(*tree, content@, off) {
            Some((pivot, prev, next)) => {
                &&& final(acc)@.len() == old(acc)@.len() + 1
                &&& forall|i: int| 0 <= i < old(acc)@.len() ==> final(acc)@[i] == old(acc)@[i]
                &&& ({
                    let a = final(acc)@[old(acc)@.len() as int];
                    &&& a.id@ == "flip_sep"@
                    &&& a.kind == AssistKind::RefactorRewrite
                    &&& a.label@ == "Flip around separator"@
                    &&& a.target == pivot
                    &&& a.source_change.file_id == file_id
                    &&& a.source_change.edits@.len() == 2
                    &&& a.wf()
                    &&& (forall|i: int|
                        0 <= i < 2 ==> {
                            ||| ((#[trigger] a.source_change.edits@[i]).range == prev
                                && a.source_change.edits@[i].text@ == spec_text_at(
                                content@,
                                next,
                            )->Some_0)
                            ||| (a.source_change.edits@[i].range == next
                                && a.source_change.edits@[i].text@ == spec_text_at(
                                content@,
                                prev,
                            )->Some_0)
                        })
                })
            },
            None => final(acc)@ == old(acc)@,
        },
{
    let pivot = match find_pivot(tree, off) {
        Some(p) => p,
        None => {
            return false;
        },
    };
    let parent = match find_parent(tree, pivot.range) {
        Some(p) => p,
        None => {
            return false;
        },
    };
    proof {
        crate::syntax::lemma_parent_has_child(*tree, pivot.range);
    }
    let j = child_index(&parent.children, pivot.range);
    let clauses = matches!(parent.kind, SyntaxKind::FunDeclNode);
    let prev = match prev_sibling(&parent.children, j, clauses) {
        Some(p) => p,
        None => {
            return false;
        },
    };
    let next = match next_sibling(&parent.children, j, clauses) {
        Some(p) => p,
        None => {
            return false;
        },
    };
    let prev_text = match text_at(content, prev.range) {
        Some(t) => t,
        None => {
            return false;
        },
    };
    let next_text = match text_at(content, next.range) {
        Some(t) => t,
        None => {
            return false;
        },
    };
    if !(prev.range.disjoint(&next.range) && prev.range.start != next.range.start) {
        return false;
    }
    let mut builder = SourceChangeBuilder::new(file_id);
    builder.replace(prev.range, next_text);
    builder.replace(next.range, prev_text);
    proof {
        let es = builder.edits@;
        assert(crate::source_change::edits_disjoint_any_order(es)) by {
            assert(es.len() == 2);
            assert(es[0].range == prev.range && es[1].range == next.range);
        }
    }
    let ghost input = builder.edits@;
    let sc = builder.finish();
    proof {
        lemma_two_edits(sc.edits@, input);
        assert forall|i: int| 0 <= i < 2 implies {
            ||| ((#[trigger] sc.edits@[i]).range == prev.range && sc.edits@[i].text@
                == spec_text_at(content@, next.range)->Some_0)
            ||| (sc.edits@[i].range == next.range && sc.edits@[i].text@ == spec_text_at(
                content@,
                prev.range,
            )->Some_0)
        } by {
            assert(input.contains(sc.edits@[i]));
            let j = choose|j: int| 0 <= j < input.len() && input[j] == sc.edits@[i];
            if j == 0 {
            } else {
                assert(j == 1);
            }
        }
    }
    let a = Assist {
        id: "flip_sep".to_owned(),
        kind: AssistKind::RefactorRewrite,
        label: "Flip around separator".to_owned(),
        target: pivot.range,
        source_change: sc,
    };
    acc.push(a);
    true
}

/// After sorting a two-edit set, each edit is one of the two inputs.
proof fn lemma_two_edits(sorted: Seq<TextEdit>, input: Seq<TextEdit>)
    requires
        sorted.to_multiset() == input.to_multiset(),
        sorted.len() == 2,
        input.len() == 2,
    ensures
        forall|i: int| 0 <= i < 2 ==> input.contains(#[trigger] sorted[i]),
{
    assert forall|i: int| 0 <= i < 2 implies input.contains(#[trigger] sorted[i]) by {
        let x = sorted[i];
        assert(sorted.contains(x)) by {
            assert(0 <= i < sorted.len() && sorted[i] == x);
        }
        assert(sorted.to_multiset().contains(x));
        assert(input.to_multiset().contains(x));
        assert(input.contains(x));
    }
}

} // verus!
