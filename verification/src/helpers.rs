//! Helpers shared by the higher-level features.

use vstd::prelude::*;

use crate::base::TextRange;
use crate::syntax::SyntaxElement;
use crate::syntax::SyntaxKind;
use crate::view::FileView;

verus! {

/// The tokens that touch one offset: at most one on each side.
#[derive(Debug)]
pub struct TokenAtOffset {
    pub tokens: Vec<SyntaxElement>,
}

/// The picked token is of maximal rank: `ranks` is a rank assignment
/// the ranking function admits for the offered tokens, the result is
/// the token at `i`, no token outranks it, and on ties the later token
/// wins.
pub open spec fn picked_best_token<F: Fn(SyntaxKind) -> usize>(
    toks: Seq<SyntaxElement>,
    f: F,
    ranks: Seq<usize>,
    i: int,
    t: SyntaxElement,
) -> bool {
    &&& ranks.len() == toks.len()
    &&& (forall|j: int| 0 <= j < toks.len() ==> f.ensures((toks[j].kind,), #[trigger] ranks[j]))
    &&& 0 <= i < toks.len()
    &&& toks[i] == t
    &&& (forall|j: int| 0 <= j < toks.len() ==> #[trigger] ranks[j] <= ranks[i])
    &&& (forall|j: int| i < j < toks.len() ==> #[trigger] ranks[j] < ranks[i])
}

/// Picks the token with the highest rank given by `f`; on ties, the
/// later token wins.
pub fn pick_best_token<F: Fn(SyntaxKind) -> usize>(tokens: TokenAtOffset, f: F) -> (r: Option<
    SyntaxElement,
>)
    requires
        forall|k: SyntaxKind| #[trigger] f.requires((k,)),
    ensures
        r is None <==> tokens.tokens@.len() == 0,
        match r {
            Some(t) => exists|ranks: Seq<usize>, i: int|
                #[trigger] picked_best_token(tokens.tokens@, f, ranks, i, t),
            None => true,
        },
{
    let mut best: Option<SyntaxElement> = None;
    let mut best_rank: usize = 0;
    let mut toks = tokens.tokens;
    let ghost all = toks@;
    let ghost mut best_idx: int = 0;
    let ghost mut ranks: Seq<usize> = Seq::empty();
    let mut i: usize = 0;
    let n = toks.len();
    while toks.len() > 0
        invariant
            forall|k: SyntaxKind| #[trigger] f.requires((k,)),
            all.len() == n,
            toks@ =~= all.skip(i as int),
            0 <= i <= n,
            i == n - toks@.len(),
            ranks.len() == i,
            forall|j: int| 0 <= j < i ==> f.ensures((all[j].kind,), #[trigger] ranks[j]),
            best is None <==> i == 0,
            best is Some ==> {
                &&& 0 <= best_idx < i
                &&& all[best_idx] == best->Some_0
                &&& ranks[best_idx] == best_rank
                &&& (forall|j: int| 0 <= j < i ==> #[trigger] ranks[j] <= best_rank)
                &&& (forall|j: int| best_idx < j < i ==> #[trigger] ranks[j] < best_rank)
            },
        decreases toks@.len(),
    {
        let t = toks.remove(0);
        proof {
            assert(all.skip(i as int)[0] == all[i as int]);
            assert(all.skip(i as int).drop_first() =~= all.skip(i + 1));
        }
        let rank = f(t.kind);
        proof {
            ranks = ranks.push(rank);
        }
        let take = match &best {
            None => true,
            Some(_) => rank >= best_rank,
        };
        if take {
            best = Some(t);
            best_rank = rank;
            proof {
                best_idx = i as int;
            }
        }
        i += 1;
    }
    proof {
        if best is Some {
            assert(all.skip(n as int) =~= Seq::<SyntaxElement>::empty());
            assert(picked_best_token(all, f, ranks, best_idx, best->Some_0));
        }
    }
    best
}

/// The parent call of a syntax node: its parent, or the parent's parent,
/// when one of them is a call node.
pub open spec fn spec_get_call(root: SyntaxElement, target: TextRange) -> Option<SyntaxElement> {
    match spec_parent_of(root, target) {
        Some(p) => if p.kind is CallNode {
            Some(p)
        } else {
            match spec_parent_of(root, p.range) {
                Some(gp) => if gp.kind is CallNode {
                    Some(gp)
                } else {
                    None
                },
                None => None,
            }
        },
        None => None,
    }
}

/// The first node, in preorder, with a child covering exactly `target`.
pub open spec fn spec_parent_of(e: SyntaxElement, target: TextRange) -> Option<SyntaxElement>
    decreases e, 1int,
{
    if exists|j: int| 0 <= j < e.children@.len() && (#[trigger] e.children@[j]).range == target {
        Some(e)
    } else {
        spec_parent_of_list(e.children@, target)
    }
}

pub open spec fn spec_parent_of_list(s: Seq<SyntaxElement>, target: TextRange) -> Option<
    SyntaxElement,
>
    decreases s, s.len(),
{
    if s.len() == 0 {
        None
    } else {
        match spec_parent_of(s[0], target) {
            Some(t) => Some(t),
            None => spec_parent_of_list(s.drop_first(), target),
        }
    }
}

/// Finds the first node with a child covering exactly `target`.
pub fn parent_of<'a>(e: &'a SyntaxElement, target: TextRange) -> (r: Option<&'a SyntaxElement>)
    ensures
        match r {
            Some(t) => spec_parent_of(*e, target) == Some(*t),
            None => spec_parent_of(*e, target) is None,
        },
    decreases *e,
{
    let n = e.children.len();
    let mut i: usize = 0;
    while i < n
        invariant
            n == e.children@.len(),
            0 <= i <= n,
            forall|j: int| 0 <= j < i ==> (#[trigger] e.children@[j]).range != target,
        decreases n - i,
    {
        let c = &e.children[i];
        if c.range.start == target.start && c.range.end == target.end {
            proof {
                assert(e.children@[i as int].range == target);
            }
            return Some(e);
        }
        i += 1;
    }
    let mut i: usize = 0;
    proof {
        assert(e.children@.skip(0) =~= e.children@);
    }
    while i < n
        invariant
            n == e.children@.len(),
            0 <= i <= n,
            !(exists|j: int|
                0 <= j < e.children@.len() && (#[trigger] e.children@[j]).range == target),
            spec_parent_of_list(e.children@, target) == spec_parent_of_list(
                e.children@.skip(i as int),
                target,
            ),
        decreases n - i,
    {
        proof {
            assert(decreases_to!(*e => e.children));
            assert(decreases_to!(e.children => e.children@));
            assert(decreases_to!(e.children@ => e.children@[i as int]));
            assert(e.children@.skip(i as int)[0] == e.children@[i as int]);
            assert(e.children@.skip(i as int).drop_first() =~= e.children@.skip(i + 1));
        }
        match parent_of(&e.children[i], target) {
            Some(t) => {
                return Some(t);
            },
            None => {},
        }
        i += 1;
    }
    proof {
        assert(e.children@.skip(n as int) =~= Seq::<SyntaxElement>::empty());
    }
    None
}

/// The enclosing call of the node spanning `target`, when its parent or
/// grandparent is a call node.
pub fn get_call<'a>(root: &'a SyntaxElement, target: TextRange) -> (r: Option<&'a SyntaxElement>)
    ensures
        match r {
            Some(t) => spec_get_call(*root, target) == Some(*t),
            None => spec_get_call(*root, target) is None,
        },
{
    let p = match parent_of(root, target) {
        Some(p) => p,
        None => {
            return None;
        },
    };
    if matches!(p.kind, SyntaxKind::CallNode) {
        return Some(p);
    }
    let gp = match parent_of(root, p.range) {
        Some(gp) => gp,
        None => {
            return None;
        },
    };
    if matches!(gp.kind, SyntaxKind::CallNode) {
        Some(gp)
    } else {
        None
    }
}

/// The first position for a new top-of-file form: just after the module
/// declaration when there is one, else the very top.
pub open spec fn spec_top_insert_position(view: FileView) -> u32 {
    match view.module_attribute {
        Some(m) => if m.range.end < 0xffff_ffff {
            (m.range.end + 1) as u32
        } else {
            m.range.end
        },
        None => 0,
    }
}

/// Finds the first position for a new top-of-file form.
pub fn top_insert_position(view: &FileView) -> (r: u32)
    ensures
        r == spec_top_insert_position(*view),
{
    match &view.module_attribute {
        Some(m) => {
            if m.range.end < 0xffff_ffff_u32 {
                m.range.end + 1
            } else {
                m.range.end
            }
        },
        None => 0,
    }
}

} // verus!
