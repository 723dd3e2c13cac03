//! The fold engine: a strategy-parameterized traversal of the resolved
//! expression tree.
//!
//! Two independent axes control what a rule sees: whether macro call
//! sites are expanded into their bodies, and whether parenthesis wrapper
//! nodes are visible or transparent.  The traversal is a single pass in
//! source order; rules thread their own accumulator over the visited
//! nodes.

use vstd::prelude::*;

use crate::view::ExprKind;
use crate::view::ExprNode;
use crate::view::FunctionClause;
use crate::view::FunctionDef;

verus! {

/// Whether macro call sites are expanded before matching.
#[derive(Clone, Copy, PartialEq, Eq, Structural, Debug)]
pub enum MacroStrategy {
    Expand,
    DoNotExpand,
}

/// Whether parenthesis wrapper nodes are visible to matching.
#[derive(Clone, Copy, PartialEq, Eq, Structural, Debug)]
pub enum ParenStrategy {
    VisibleParens,
    InvisibleParens,
}

/// How the fold engine presents nodes to a rule.
#[derive(Clone, Copy, PartialEq, Eq, Structural, Debug)]
pub struct Strategy {
    pub macros: MacroStrategy,
    pub parens: ParenStrategy,
}

/// The nodes a traversal of `e` presents, in preorder source order.
pub open spec fn visit_expr(e: ExprNode, strat: Strategy) -> Seq<ExprNode>
    decreases e, 2int,
{
    if e.kind is Paren && strat.parens is InvisibleParens {
        visit_children(e, strat)
    } else {
        seq![e] + visit_children(e, strat)
    }
}

/// The nodes contributed by the children of `e`.
pub open spec fn visit_children(e: ExprNode, strat: Strategy) -> Seq<ExprNode>
    decreases e, 1int,
{
    match e.kind {
        ExprKind::AtomLit(_) => Seq::empty(),
        ExprKind::IntLit(_) => Seq::empty(),
        ExprKind::Var(_) => Seq::empty(),
        ExprKind::List { exprs, tail } => visit_exprs(exprs@, strat) + (match tail {
            Some(t) => visit_expr(*t, strat),
            None => Seq::empty(),
        }),
        ExprKind::Tuple { exprs } => visit_exprs(exprs@, strat),
        ExprKind::BinaryOp { op: _, lhs, rhs } => visit_expr(*lhs, strat) + visit_expr(
            *rhs,
            strat,
        ),
        ExprKind::UnaryOp { op: _, expr } => visit_expr(*expr, strat),
        ExprKind::Call { module: _, name: _, args } => visit_exprs(args@, strat),
        ExprKind::Match { lhs, rhs } => visit_expr(*lhs, strat) + visit_expr(*rhs, strat),
        ExprKind::MacroCall { name: _, expansion } => if strat.macros is Expand {
            visit_expr(*expansion, strat)
        } else {
            Seq::empty()
        },
        ExprKind::Paren { inner } => visit_expr(*inner, strat),
        ExprKind::Block { exprs } => visit_exprs(exprs@, strat),
    }
}

/// The nodes contributed by a sequence of sibling expressions.
pub open spec fn visit_exprs(s: Seq<ExprNode>, strat: Strategy) -> Seq<ExprNode>
    decreases s, s.len(),
{
    if s.len() == 0 {
        Seq::empty()
    } else {
        visit_expr(s[0], strat) + visit_exprs(s.drop_first(), strat)
    }
}

/// Reads a sequence of node references as the nodes themselves.
pub open spec fn refs_to_nodes(s: Seq<&ExprNode>) -> Seq<ExprNode> {
    s.map_values(|r: &ExprNode| *r)
}

/// Collects the traversal of `e` under the strategy, appending the
/// visited nodes to `acc` in source order.
pub fn fold_expr<'a>(e: &'a ExprNode, strat: Strategy, acc: &mut Vec<&'a ExprNode>)
    ensures
        refs_to_nodes(final(acc)@) == refs_to_nodes(old(acc)@) + visit_expr(*e, strat),
    decreases *e,
{
    let visible = match &e.kind {
        ExprKind::Paren { .. } => !matches!(strat.parens, ParenStrategy::InvisibleParens),
        _ => true,
    };
    if visible {
        acc.push(e);
        proof {
            assert(refs_to_nodes(acc@) =~= refs_to_nodes(old(acc)@) + seq![*e]);
        }
    }
    let ghost mid = acc@;
    match &e.kind {
        ExprKind::AtomLit(_) => {},
        ExprKind::IntLit(_) => {},
        ExprKind::Var(_) => {},
        ExprKind::List { exprs, tail } => {
            fold_each(e, exprs, strat, acc);
            match tail {
                Some(t) => {
                    proof {
                        assert(decreases_to!(*e => e.kind));
                        assert(decreases_to!(e.kind => e.kind->List_tail));
                        assert(decreases_to!(e.kind->List_tail => e.kind->List_tail->Some_0));
                    }
                    fold_expr(&*t, strat, acc);
                },
                None => {
                    proof {
                        assert(visit_children(*e, strat) =~= visit_exprs(exprs@, strat));
                    }
                },
            }
        },
        ExprKind::Tuple { exprs } => {
            fold_each(e, exprs, strat, acc);
        },
        ExprKind::BinaryOp { op: _, lhs, rhs } => {
            proof {
                assert(decreases_to!(*e => e.kind));
                assert(decreases_to!(e.kind => e.kind->BinaryOp_lhs));
                assert(decreases_to!(e.kind => e.kind->BinaryOp_rhs));
            }
            fold_expr(&*lhs, strat, acc);
            fold_expr(&*rhs, strat, acc);
        },
        ExprKind::UnaryOp { op: _, expr } => {
            proof {
                assert(decreases_to!(*e => e.kind));
                assert(decreases_to!(e.kind => e.kind->UnaryOp_expr));
            }
            fold_expr(&*expr, strat, acc);
        },
        ExprKind::Call { module: _, name: _, args } => {
            fold_each(e, args, strat, acc);
        },
        ExprKind::Match { lhs, rhs } => {
            proof {
                assert(decreases_to!(*e => e.kind));
                assert(decreases_to!(e.kind => e.kind->Match_lhs));
                assert(decreases_to!(e.kind => e.kind->Match_rhs));
            }
            fold_expr(&*lhs, strat, acc);
            fold_expr(&*rhs, strat, acc);
        },
        ExprKind::MacroCall { name: _, expansion } => {
            match strat.macros {
                MacroStrategy::Expand => {
                    proof {
                        assert(decreases_to!(*e => e.kind));
                        assert(decreases_to!(e.kind => e.kind->MacroCall_expansion));
                    }
                    fold_expr(&*expansion, strat, acc);
                },
                MacroStrategy::DoNotExpand => {},
            }
        },
        ExprKind::Paren { inner } => {
            proof {
                assert(decreases_to!(*e => e.kind));
                assert(decreases_to!(e.kind => e.kind->Paren_inner));
            }
            fold_expr(&*inner, strat, acc);
        },
        ExprKind::Block { exprs } => {
            fold_each(e, exprs, strat, acc);
        },
    }
    proof {
        if visible {
            assert(refs_to_nodes(acc@) =~= refs_to_nodes(old(acc)@) + visit_expr(*e, strat));
        } else {
            assert(refs_to_nodes(acc@) =~= refs_to_nodes(old(acc)@) + visit_expr(*e, strat));
        }
    }
}

/// Collects the traversals of sibling expressions, left to right.
fn fold_each<'a>(parent: &'a ExprNode, exprs: &'a Vec<ExprNode>, strat: Strategy, acc: &mut Vec<
    &'a ExprNode,
>)
    requires
        decreases_to!(parent.kind => exprs@),
    ensures
        refs_to_nodes(final(acc)@) == refs_to_nodes(old(acc)@) + visit_exprs(exprs@, strat),
    decreases *parent, 0int,
{
    let n = exprs.len();
    let mut i: usize = 0;
    proof {
        assert(exprs@.skip(0) =~= exprs@);
    }
    while i < n
        invariant
            n == exprs@.len(),
            0 <= i <= n,
            decreases_to!(parent.kind => exprs@),
            refs_to_nodes(acc@) + visit_exprs(exprs@.skip(i as int), strat) == refs_to_nodes(
                old(acc)@,
            ) + visit_exprs(exprs@, strat),
        decreases n - i,
    {
        let ghost pre = acc@;
        proof {
            assert(decreases_to!(*parent => parent.kind));
            assert(decreases_to!(exprs@ => exprs@[i as int]));
        }
        fold_expr(&exprs[i], strat, acc);
        proof {
            assert(exprs@.skip(i as int)[0] == exprs@[i as int]);
            assert(exprs@.skip(i as int).drop_first() =~= exprs@.skip(i + 1));
            assert(visit_exprs(exprs@.skip(i as int), strat) == visit_expr(
                exprs@[i as int],
                strat,
            ) + visit_exprs(exprs@.skip(i + 1), strat));
            assert(refs_to_nodes(acc@) + visit_exprs(exprs@.skip(i + 1), strat) =~= refs_to_nodes(
                old(acc)@,
            ) + visit_exprs(exprs@, strat));
        }
        i += 1;
    }
    proof {
        assert(exprs@.skip(n as int) =~= Seq::<ExprNode>::empty());
        assert(visit_exprs(Seq::empty(), strat) =~= Seq::<ExprNode>::empty());
        assert(refs_to_nodes(acc@) =~= refs_to_nodes(acc@) + Seq::<ExprNode>::empty());
    }
}

/// The nodes a traversal of consecutive clause bodies presents.
pub open spec fn visit_clauses(cs: Seq<FunctionClause>, strat: Strategy) -> Seq<ExprNode>
    decreases cs, cs.len(),
{
    if cs.len() == 0 {
        Seq::empty()
    } else {
        visit_exprs(cs[0].body@, strat) + visit_clauses(cs.drop_first(), strat)
    }
}

/// The nodes a traversal of a whole file's function bodies presents.
pub open spec fn visit_functions(fs: Seq<FunctionDef>, strat: Strategy) -> Seq<ExprNode>
    decreases fs, fs.len(),
{
    if fs.len() == 0 {
        Seq::empty()
    } else {
        visit_clauses(fs[0].clauses@, strat) + visit_functions(fs.drop_first(), strat)
    }
}

/// Collects the traversals of a list of top-level expressions.
pub fn fold_expr_list<'a>(exprs: &'a Vec<ExprNode>, strat: Strategy, acc: &mut Vec<&'a ExprNode>)
    ensures
        refs_to_nodes(final(acc)@) == refs_to_nodes(old(acc)@) + visit_exprs(exprs@, strat),
{
    let n = exprs.len();
    let mut i: usize = 0;
    proof {
        assert(exprs@.skip(0) =~= exprs@);
    }
    while i < n
        invariant
            n == exprs@.len(),
            0 <= i <= n,
            refs_to_nodes(acc@) + visit_exprs(exprs@.skip(i as int), strat) == refs_to_nodes(
                old(acc)@,
            ) + visit_exprs(exprs@, strat),
        decreases n - i,
    {
        fold_expr(&exprs[i], strat, acc);
        proof {
            assert(exprs@.skip(i as int)[0] == exprs@[i as int]);
            assert(exprs@.skip(i as int).drop_first() =~= exprs@.skip(i + 1));
            assert(refs_to_nodes(acc@) + visit_exprs(exprs@.skip(i + 1), strat) =~= refs_to_nodes(
                old(acc)@,
            ) + visit_exprs(exprs@, strat));
        }
        i += 1;
    }
    proof {
        assert(exprs@.skip(n as int) =~= Seq::<ExprNode>::empty());
        assert(refs_to_nodes(acc@) =~= refs_to_nodes(acc@) + Seq::<ExprNode>::empty());
    }
}

/// Collects the traversal of one function: every clause body in order.
pub fn fold_function<'a>(f: &'a FunctionDef, strat: Strategy, acc: &mut Vec<&'a ExprNode>)
    ensures
        refs_to_nodes(final(acc)@) == refs_to_nodes(old(acc)@) + visit_clauses(f.clauses@, strat),
{
    let n = f.clauses.len();
    let mut i: usize = 0;
    proof {
        assert(f.clauses@.skip(0) =~= f.clauses@);
    }
    while i < n
        invariant
            n == f.clauses@.len(),
            0 <= i <= n,
            refs_to_nodes(acc@) + visit_clauses(f.clauses@.skip(i as int), strat) == refs_to_nodes(
                old(acc)@,
            ) + visit_clauses(f.clauses@, strat),
        decreases n - i,
    {
        fold_expr_list(&f.clauses[i].body, strat, acc);
        proof {
            assert(f.clauses@.skip(i as int)[0] == f.clauses@[i as int]);
            assert(f.clauses@.skip(i as int).drop_first() =~= f.clauses@.skip(i + 1));
            assert(refs_to_nodes(acc@) + visit_clauses(f.clauses@.skip(i + 1), strat)
                =~= refs_to_nodes(old(acc)@) + visit_clauses(f.clauses@, strat));
        }
        i += 1;
    }
    proof {
        assert(f.clauses@.skip(n as int) =~= Seq::<FunctionClause>::empty());
        assert(refs_to_nodes(acc@) =~= refs_to_nodes(acc@) + Seq::<ExprNode>::empty());
    }
}

/// Collects the traversal of every function of a file, in order.
pub fn fold_file<'a>(functions: &'a Vec<FunctionDef>, strat: Strategy, acc: &mut Vec<
    &'a ExprNode,
>)
    ensures
        refs_to_nodes(final(acc)@) == refs_to_nodes(old(acc)@) + visit_functions(
            functions@,
            strat,
        ),
{
    let n = functions.len();
    let mut i: usize = 0;
    proof {
        assert(functions@.skip(0) =~= functions@);
    }
    while i < n
        invariant
            n == functions@.len(),
            0 <= i <= n,
            refs_to_nodes(acc@) + visit_functions(functions@.skip(i as int), strat)
                == refs_to_nodes(old(acc)@) + visit_functions(functions@, strat),
        decreases n - i,
    {
        fold_function(&functions[i], strat, acc);
        proof {
            assert(functions@.skip(i as int)[0] == functions@[i as int]);
            assert(functions@.skip(i as int).drop_first() =~= functions@.skip(i + 1));
            assert(refs_to_nodes(acc@) + visit_functions(functions@.skip(i + 1), strat)
                =~= refs_to_nodes(old(acc)@) + visit_functions(functions@, strat));
        }
        i += 1;
    }
    proof {
        assert(functions@.skip(n as int) =~= Seq::<FunctionDef>::empty());
        assert(refs_to_nodes(acc@) =~= refs_to_nodes(acc@) + Seq::<ExprNode>::empty());
    }
}

} // verus!
