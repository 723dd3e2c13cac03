//! A closed model of the concrete syntax tree: elements are tokens or
//! nodes, each with its span and — for nodes — ordered children.

use vstd::prelude::*;

use crate::base::TextRange;

verus! {

/// The element kinds the assists distinguish.
#[derive(Clone, Copy, PartialEq, Eq, Structural, Debug)]
pub enum SyntaxKind {
    Whitespace,
    Comment,
    AnonComma,
    AnonSemi,
    StringLit,
    QuotedAtom,
    AtomTok,
    VarTok,
    IntTok,
    OtherTok,
    Node,
    ClauseNode,
    FunDeclNode,
    CallNode,
}

/// Whitespace and comments are invisible to sibling navigation.
pub open spec fn is_trivia(k: SyntaxKind) -> bool {
    k is Whitespace || k is Comment
}

/// One element of the concrete tree.
#[derive(Debug)]
pub struct SyntaxElement {
    pub kind: SyntaxKind,
    pub range: TextRange,
    pub is_token: bool,
    pub children: Vec<SyntaxElement>,
}

/// Whether an element is a separator token touching the offset.
pub open spec fn is_sep_at(e: SyntaxElement, off: u32) -> bool {
    &&& e.is_token
    &&& (e.kind is AnonComma || e.kind is AnonSemi)
    &&& e.range.start <= off <= e.range.end
}

/// The first separator token at the offset, in preorder.
pub open spec fn spec_find_pivot(e: SyntaxElement, off: u32) -> Option<SyntaxElement>
    decreases e, 1int,
{
    if is_sep_at(e, off) {
        Some(e)
    } else {
        spec_find_pivot_list(e.children@, off)
    }
}

pub open spec fn spec_find_pivot_list(s: Seq<SyntaxElement>, off: u32) -> Option<SyntaxElement>
    decreases s, s.len(),
{
    if s.len() == 0 {
        None
    } else {
        match spec_find_pivot(s[0], off) {
            Some(t) => Some(t),
            None => spec_find_pivot_list(s.drop_first(), off),
        }
    }
}

/// Whether a child is the given separator occurrence.
pub open spec fn is_pivot_child(c: SyntaxElement, pr: TextRange) -> bool {
    c.is_token && (c.kind is AnonComma || c.kind is AnonSemi) && c.range == pr
}

/// The first node, in preorder, having the separator occurrence as a
/// direct child.
pub open spec fn spec_find_parent(e: SyntaxElement, pr: TextRange) -> Option<SyntaxElement>
    decreases e, 1int,
{
    if exists|j: int| 0 <= j < e.children@.len() && is_pivot_child(#[trigger] e.children@[j], pr) {
        Some(e)
    } else {
        spec_find_parent_list(e.children@, pr)
    }
}

pub open spec fn spec_find_parent_list(s: Seq<SyntaxElement>, pr: TextRange) -> Option<
    SyntaxElement,
>
    decreases s, s.len(),
{
    if s.len() == 0 {
        None
    } else {
        match spec_find_parent(s[0], pr) {
            Some(t) => Some(t),
            None => spec_find_parent_list(s.drop_first(), pr),
        }
    }
}

/// The index of the separator occurrence among a node's children.
pub open spec fn spec_child_index(s: Seq<SyntaxElement>, pr: TextRange) -> int
    decreases s.len(),
{
    if s.len() == 0 {
        0
    } else if is_pivot_child(s[0], pr) {
        0
    } else {
        1 + spec_child_index(s.drop_first(), pr)
    }
}

/// Finds the first separator token at the offset.
pub fn find_pivot<'a>(e: &'a SyntaxElement, off: u32) -> (r: Option<&'a SyntaxElement>)
    ensures
        match r {
            Some(t) => spec_find_pivot(*e, off) == Some(*t),
            None => spec_find_pivot(*e, off) is None,
        },
    decreases *e,
{
    let sep = e.is_token && (matches!(e.kind, SyntaxKind::AnonComma) || matches!(
        e.kind,
        SyntaxKind::AnonSemi,
    )) && e.range.start <= off && off <= e.range.end;
    if sep {
        return Some(e);
    }
    let n = e.children.len();
    let mut i: usize = 0;
    proof {
        assert(e.children@.skip(0) =~= e.children@);
    }
    while i < n
        invariant
            n == e.children@.len(),
            0 <= i <= n,
            !is_sep_at(*e, off),
            spec_find_pivot_list(e.children@, off) == spec_find_pivot_list(
                e.children@.skip(i as int),
                off,
            ),
        decreases n - i,
    {
        proof {
            assert(decreases_to!(*e => e.children));
            assert(decreases_to!(e.children => e.children@));
            assert(decreases_to!(e.children@ => e.children@[i as int]));
            assert(e.children@.skip(i as int)[0] == e.children@[i as int]);
            assert(e.children@.skip(i as int).drop_first() =~= e.children@.skip(i + 1));
        }
        match find_pivot(&e.children[i], off) {
            Some(t) => {
                return Some(t);
            },
            None => {},
        }
        i += 1;
    }
    proof {
        assert(e.children@.skip(n as int) =~= Seq::<SyntaxElement>::empty());
    }
    None
}

/// Finds the node that directly contains the separator occurrence.
pub fn find_parent<'a>(e: &'a SyntaxElement, pr: TextRange) -> (r: Option<&'a SyntaxElement>)
    ensures
        match r {
            Some(t) => spec_find_parent(*e, pr) == Some(*t),
            None => spec_find_parent(*e, pr) is None,
        },
    decreases *e,
{
    let n = e.children.len();
    let mut i: usize = 0;
    while i < n
        invariant
            n == e.children@.len(),
            0 <= i <= n,
            forall|j: int| 0 <= j < i ==> !is_pivot_child(#[trigger] e.children@[j], pr),
        decreases n - i,
    {
        let c = &e.children[i];
        if c.is_token && (matches!(c.kind, SyntaxKind::AnonComma) || matches!(
            c.kind,
            SyntaxKind::AnonSemi,
        )) && c.range.start == pr.start && c.range.end == pr.end {
            proof {
                assert(is_pivot_child(e.children@[i as int], pr));
            }
            return Some(e);
        }
        i += 1;
    }
    proof {
        assert(forall|j: int|
            0 <= j < e.children@.len() ==> !is_pivot_child(#[trigger] e.children@[j], pr));
    }
    let mut i: usize = 0;
    proof {
        assert(e.children@.skip(0) =~= e.children@);
    }
    while i < n
        invariant
            n == e.children@.len(),
            0 <= i <= n,
            !(exists|j: int|
                0 <= j < e.children@.len() && is_pivot_child(#[trigger] e.children@[j], pr)),
            spec_find_parent_list(e.children@, pr) == spec_find_parent_list(
                e.children@.skip(i as int),
                pr,
            ),
        decreases n - i,
    {
        proof {
            assert(decreases_to!(*e => e.children));
            assert(decreases_to!(e.children => e.children@));
            assert(decreases_to!(e.children@ => e.children@[i as int]));
            assert(e.children@.skip(i as int)[0] == e.children@[i as int]);
            assert(e.children@.skip(i as int).drop_first() =~= e.children@.skip(i + 1));
        }
        match find_parent(&e.children[i], pr) {
            Some(t) => {
                return Some(t);
            },
            None => {},
        }
        i += 1;
    }
    proof {
        assert(e.children@.skip(n as int) =~= Seq::<SyntaxElement>::empty());
    }
    None
}

/// A found parent really has the separator occurrence as a child.
pub proof fn lemma_parent_has_child(e: SyntaxElement, pr: TextRange)
    requires
        spec_find_parent(e, pr) is Some,
    ensures
        exists|j: int|
            0 <= j < spec_find_parent(e, pr)->Some_0.children@.len() && is_pivot_child(
                #[trigger] spec_find_parent(e, pr)->Some_0.children@[j],
                pr,
            ),
    decreases e, 1int,
{
    if exists|j: int| 0 <= j < e.children@.len() && is_pivot_child(#[trigger] e.children@[j], pr) {
    } else {
        lemma_parent_list_has_child(e.children@, pr);
    }
}

pub proof fn lemma_parent_list_has_child(s: Seq<SyntaxElement>, pr: TextRange)
    requires
        spec_find_parent_list(s, pr) is Some,
    ensures
        exists|j: int|
            0 <= j < spec_find_parent_list(s, pr)->Some_0.children@.len() && is_pivot_child(
                #[trigger] spec_find_parent_list(s, pr)->Some_0.children@[j],
                pr,
            ),
    decreases s, s.len(),
{
    if s.len() > 0 {
        if spec_find_parent(s[0], pr) is Some {
            lemma_parent_has_child(s[0], pr);
        } else {
            lemma_parent_list_has_child(s.drop_first(), pr);
        }
    }
}

/// Finds the index of the separator occurrence among children known to
/// contain it.
pub fn child_index(children: &Vec<SyntaxElement>, pr: TextRange) -> (r: usize)
    requires
        exists|j: int|
            0 <= j < children@.len() && is_pivot_child(#[trigger] children@[j], pr),
    ensures
        r as int == spec_child_index(children@, pr),
        r < children@.len(),
        is_pivot_child(children@[r as int], pr),
{
    let n = children.len();
    let mut i: usize = 0;
    proof {
        assert(children@.skip(0) =~= children@);
    }
    while i < n
        invariant
            n == children@.len(),
            0 <= i <= n,
            forall|j: int| 0 <= j < i ==> !is_pivot_child(#[trigger] children@[j], pr),
            exists|j: int| 0 <= j < children@.len() && is_pivot_child(#[trigger] children@[j], pr),
            spec_child_index(children@, pr) == i + spec_child_index(
                children@.skip(i as int),
                pr,
            ),
        decreases n - i,
    {
        let c = &children[i];
        proof {
            assert(children@.skip(i as int)[0] == children@[i as int]);
            assert(children@.skip(i as int).drop_first() =~= children@.skip(i + 1));
        }
        if c.is_token && (matches!(c.kind, SyntaxKind::AnonComma) || matches!(
            c.kind,
            SyntaxKind::AnonSemi,
        )) && c.range.start == pr.start && c.range.end == pr.end {
            proof {
                assert(is_pivot_child(children@[i as int], pr));
            }
            return i;
        }
        i += 1;
    }
    proof {
        assert(false);
    }
    0
}

} // verus!
