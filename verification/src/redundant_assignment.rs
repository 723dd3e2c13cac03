//! Lint/fix: redundant_assignment
//!
//! Reports `A = B` where both sides are plain variables, `A` is bound
//! nowhere else and is used afterwards; offers inlining `B` for every
//! occurrence of `A`.  Generated files are skipped.

use vstd::prelude::*;

use crate::base::TextRange;
use crate::source_change::edits_disjoint_any_order;
use crate::diagnostics::Category;
use crate::diagnostics::Diagnostic;
use crate::diagnostics::DiagnosticCode;
use crate::diagnostics::Severity;
use crate::diagnostics::fix;
use crate::fold::MacroStrategy;
use crate::fold::ParenStrategy;
use crate::fold::Strategy;
use crate::fold::fold_expr_list;
use crate::fold::refs_to_nodes;
use crate::fold::visit_exprs;
use crate::source_change::SourceChangeBuilder;
use crate::source_change::TextEdit;
use crate::source_change::edits_disjoint_check;
use crate::strutil::string_is;
use crate::view::ExprKind;
use crate::view::ExprNode;
use crate::view::FileView;
use crate::view::FunctionClause;
use crate::view::FunctionDef;
use crate::view::spec_text_at;
use crate::view::text_at;

verus! {

broadcast use vstd::seq_lib::group_to_multiset_ensures, vstd::multiset::group_multiset_axioms;

/// The strategy this rule folds with.
pub open spec fn spec_strategy() -> Strategy {
    Strategy { macros: MacroStrategy::Expand, parens: ParenStrategy::InvisibleParens }
}

/// Variable occurrences of one expression, each tagged with whether it
/// stands in a binding (pattern) position.
pub open spec fn occ_expr(e: ExprNode, pat: bool) -> Seq<(ExprNode, bool)>
    decreases e, 1int,
{
    match e.kind {
        ExprKind::Var(_) => seq![(e, pat)],
        ExprKind::AtomLit(_) => Seq::empty(),
        ExprKind::IntLit(_) => Seq::empty(),
        ExprKind::List { exprs, tail } => occ_list(exprs@, pat) + (match tail {
            Some(t) => occ_expr(*t, pat),
            None => Seq::empty(),
        }),
        ExprKind::Tuple { exprs } => occ_list(exprs@, pat),
        ExprKind::BinaryOp { op: _, lhs, rhs } => occ_expr(*lhs, pat) + occ_expr(*rhs, pat),
        ExprKind::UnaryOp { op: _, expr } => occ_expr(*expr, pat),
        ExprKind::Call { module: _, name: _, args } => occ_list(args@, pat),
        ExprKind::Match { lhs, rhs } => occ_expr(*lhs, true) + occ_expr(*rhs, pat),
        ExprKind::MacroCall { name: _, expansion } => occ_expr(*expansion, pat),
        ExprKind::Paren { inner } => occ_expr(*inner, pat),
        ExprKind::Block { exprs } => occ_list(exprs@, pat),
    }
}

/// Variable occurrences of a sequence of sibling expressions.
pub open spec fn occ_list(s: Seq<ExprNode>, pat: bool) -> Seq<(ExprNode, bool)>
    decreases s, s.len(),
{
    if s.len() == 0 {
        Seq::empty()
    } else {
        occ_expr(s[0], pat) + occ_list(s.drop_first(), pat)
    }
}

/// All variable occurrences of one clause: head patterns bind, the body
/// uses.
pub open spec fn clause_occs(c: FunctionClause) -> Seq<(ExprNode, bool)> {
    occ_list(c.pats@, true) + occ_list(c.body@, false)
}

/// The name of a variable occurrence.
pub open spec fn occ_name(o: (ExprNode, bool)) -> Seq<char> {
    o.0.kind->Var_0@
}

/// How many occurrences of `v` are binding (when `def` is set) or using
/// positions.
pub open spec fn count_occs(occs: Seq<(ExprNode, bool)>, v: Seq<char>, def: bool) -> int
    decreases occs.len(),
{
    if occs.len() == 0 {
        0
    } else {
        (if occs[0].0.kind is Var && occ_name(occs[0]) == v && occs[0].1 == def {
            1int
        } else {
            0int
        }) + count_occs(occs.drop_first(), v, def)
    }
}

/// The spans the inline fix rewrites: every occurrence of `v` that lies
/// well-formed in the analyzed file.
pub open spec fn rename_ranges(occs: Seq<(ExprNode, bool)>, v: Seq<char>, view: FileView) -> Seq<
    TextRange,
>
    decreases occs.len(),
{
    if occs.len() == 0 {
        Seq::empty()
    } else {
        (if occs[0].0.kind is Var && occ_name(occs[0]) == v && occs[0].0.range.file_id
            == view.file_id && occs[0].0.range.range.wf() {
            seq![occs[0].0.range.range]
        } else {
            Seq::empty()
        }) + rename_ranges(occs.drop_first(), v, view)
    }
}

/// The spans as one-text edits, for the disjointness requirement.
pub open spec fn spec_ranges_disjoint(rs: Seq<TextRange>) -> bool {
    forall|i: int, j: int|
        0 <= i < j < rs.len() ==> (#[trigger] rs[i]).spec_disjoint(#[trigger] rs[j]) && rs[i].start
            != rs[j].start
}

/// Whether one visited node is a reportable redundant assignment.
pub open spec fn matches_redundant(e: ExprNode, c: FunctionClause, view: FileView) -> bool {
    &&& e.kind is Match
    &&& e.kind->Match_lhs.kind is Var
    &&& e.kind->Match_rhs.kind is Var
    &&& count_occs(clause_occs(c), e.kind->Match_lhs.kind->Var_0@, true) == 1
    &&& count_occs(clause_occs(c), e.kind->Match_lhs.kind->Var_0@, false) >= 1
    &&& e.kind->Match_rhs.range.file_id == view.file_id
    &&& spec_text_at(view.content@, e.kind->Match_rhs.range.range) is Some
    &&& e.range.file_id == view.file_id
    &&& e.range.range.wf()
    &&& spec_ranges_disjoint(
        rename_ranges(clause_occs(c), e.kind->Match_lhs.kind->Var_0@, view),
    )
}

/// Exactly the diagnostic reported for one redundant assignment.
pub open spec fn redundant_diag_ok(
    d: Diagnostic,
    e: ExprNode,
    c: FunctionClause,
    view: FileView,
) -> bool {
    let v = e.kind->Match_lhs.kind->Var_0@;
    let rhs_text = spec_text_at(view.content@, e.kind->Match_rhs.range.range)->Some_0;
    let ranges = rename_ranges(clause_occs(c), v, view);
    &&& d.code == DiagnosticCode::RedundantAssignment
    &&& d.message@ == "assignment is redundant"@
    &&& d.range == e.range.range
    &&& d.severity == Severity::WeakWarning
    &&& d.categories@ == seq![Category::SimplificationRule]
    &&& d.fixes@.len() == 1
    &&& d.fixes@[0].id@ == "remove_redundant_assignment"@
    &&& d.fixes@[0].label@ == "Use right-hand of assignment everywhere"@
    &&& d.fixes@[0].trigger_range == e.range.range
    &&& d.fixes@[0].source_change.file_id == view.file_id
    &&& d.fixes@[0].source_change.edits@.len() == ranges.len()
    &&& (forall|i: int|
        0 <= i < d.fixes@[0].source_change.edits@.len() ==> {
            &&& (#[trigger] d.fixes@[0].source_change.edits@[i]).text@ == rhs_text
            &&& ranges.contains(d.fixes@[0].source_change.edits@[i].range)
        })
    &&& d.wf()
}

/// The matching nodes of one clause, in traversal order.
pub open spec fn clause_matched(c: FunctionClause, view: FileView) -> Seq<ExprNode> {
    matched_of(visit_exprs(c.body@, spec_strategy()), c, view)
}

pub open spec fn matched_of(nodes: Seq<ExprNode>, c: FunctionClause, view: FileView) -> Seq<
    ExprNode,
>
    decreases nodes.len(),
{
    if nodes.len() == 0 {
        Seq::empty()
    } else {
        (if matches_redundant(nodes[0], c, view) {
            seq![nodes[0]]
        } else {
            Seq::empty()
        }) + matched_of(nodes.drop_first(), c, view)
    }
}

/// The clauses of a file's functions, in order.
pub open spec fn all_clauses(fs: Seq<FunctionDef>) -> Seq<FunctionClause>
    decreases fs.len(),
{
    if fs.len() == 0 {
        Seq::empty()
    } else {
        fs[0].clauses@ + all_clauses(fs.drop_first())
    }
}

/// The reportable assignments of a whole file, each with its clause.
pub open spec fn file_matched(cs: Seq<FunctionClause>, view: FileView) -> Seq<
    (FunctionClause, ExprNode),
>
    decreases cs.len(),
{
    if cs.len() == 0 {
        Seq::empty()
    } else {
        clause_matched(cs[0], view).map_values(|n: ExprNode| (cs[0], n)) + file_matched(
            cs.drop_first(),
            view,
        )
    }
}

/// Collects variable occurrences of one expression.
fn occ_collect<'a>(e: &'a ExprNode, pat: bool, acc: &mut Vec<(&'a ExprNode, bool)>)
    ensures
        occ_refs(final(acc)@) == occ_refs(old(acc)@) + occ_expr(*e, pat),
    decreases *e,
{
    match &e.kind {
        ExprKind::Var(_) => {
            acc.push((e, pat));
            proof {
                assert(occ_refs(acc@) =~= occ_refs(old(acc)@) + occ_expr(*e, pat));
            }
        },
        ExprKind::AtomLit(_) => {},
        ExprKind::IntLit(_) => {},
        ExprKind::List { exprs, tail } => {
            occ_collect_list(e, exprs, pat, acc);
            match tail {
                Some(t) => {
                    proof {
                        assert(decreases_to!(*e => e.kind));
                        assert(decreases_to!(e.kind => e.kind->List_tail));
                        assert(decreases_to!(e.kind->List_tail => e.kind->List_tail->Some_0));
                    }
                    occ_collect(&*t, pat, acc);
                },
                None => {
                    proof {
                        assert(occ_expr(*e, pat) =~= occ_list(exprs@, pat));
                    }
                },
            }
        },
        ExprKind::Tuple { exprs } => {
            occ_collect_list(e, exprs, pat, acc);
        },
        ExprKind::BinaryOp { op: _, lhs, rhs } => {
            proof {
                assert(decreases_to!(*e => e.kind));
                assert(decreases_to!(e.kind => e.kind->BinaryOp_lhs));
                assert(decreases_to!(e.kind => e.kind->BinaryOp_rhs));
            }
            occ_collect(&*lhs, pat, acc);
            occ_collect(&*rhs, pat, acc);
        },
        ExprKind::UnaryOp { op: _, expr } => {
            proof {
                assert(decreases_to!(*e => e.kind));
                assert(decreases_to!(e.kind => e.kind->UnaryOp_expr));
            }
            occ_collect(&*expr, pat, acc);
        },
        ExprKind::Call { module: _, name: _, args } => {
            occ_collect_list(e, args, pat, acc);
        },
        ExprKind::Match { lhs, rhs } => {
            proof {
                assert(decreases_to!(*e => e.kind));
                assert(decreases_to!(e.kind => e.kind->Match_lhs));
                assert(decreases_to!(e.kind => e.kind->Match_rhs));
            }
            occ_collect(&*lhs, true, acc);
            occ_collect(&*rhs, pat, acc);
        },
        ExprKind::MacroCall { name: _, expansion } => {
            proof {
                assert(decreases_to!(*e => e.kind));
                assert(decreases_to!(e.kind => e.kind->MacroCall_expansion));
            }
            occ_collect(&*expansion, pat, acc);
        },
        ExprKind::Paren { inner } => {
            proof {
                assert(decreases_to!(*e => e.kind));
                assert(decreases_to!(e.kind => e.kind->Paren_inner));
            }
            occ_collect(&*inner, pat, acc);
        },
        ExprKind::Block { exprs } => {
            occ_collect_list(e, exprs, pat, acc);
        },
    }
    proof {
        assert(occ_refs(acc@) =~= occ_refs(old(acc)@) + occ_expr(*e, pat));
    }
}

/// Reads collected occurrence references as occurrence values.
pub open spec fn occ_refs(s: Seq<(&ExprNode, bool)>) -> Seq<(ExprNode, bool)> {
    s.map_values(|p: (&ExprNode, bool)| (*p.0, p.1))
}

fn occ_collect_list<'a>(
    parent: &'a ExprNode,
    exprs: &'a Vec<ExprNode>,
    pat: bool,
    acc: &mut Vec<(&'a ExprNode, bool)>,
)
    requires
        decreases_to!(parent.kind => exprs@),
    ensures
        occ_refs(final(acc)@) == occ_refs(old(acc)@) + occ_list(exprs@, pat),
    decreases *parent, 0int,
{
    let n = exprs.len();
    let mut i: usize = 0;
    proof {
        assert(exprs@.skip(0) =~= exprs@);
    }
    while i < n
        invariant
            n == exprs@.len(),
            0 <= i <= n,
            decreases_to!(parent.kind => exprs@),
            occ_refs(acc@) + occ_list(exprs@.skip(i as int), pat) == occ_refs(old(acc)@)
                + occ_list(exprs@, pat),
        decreases n - i,
    {
        proof {
            assert(decreases_to!(*parent => parent.kind));
            assert(decreases_to!(exprs@ => exprs@[i as int]));
        }
        occ_collect(&exprs[i], pat, acc);
        proof {
            assert(exprs@.skip(i as int)[0] == exprs@[i as int]);
            assert(exprs@.skip(i as int).drop_first() =~= exprs@.skip(i + 1));
            assert(occ_refs(acc@) + occ_list(exprs@.skip(i + 1), pat) =~= occ_refs(old(acc)@)
                + occ_list(exprs@, pat));
        }
        i += 1;
    }
    proof {
        assert(exprs@.skip(n as int) =~= Seq::<ExprNode>::empty());
        assert(occ_list(Seq::empty(), pat) =~= Seq::<(ExprNode, bool)>::empty());
        assert(occ_refs(acc@) =~= occ_refs(acc@) + Seq::<(ExprNode, bool)>::empty());
    }
}

/// Collects the variable occurrences of a whole clause.
fn collect_clause_occs<'a>(c: &'a FunctionClause) -> (occs: Vec<(&'a ExprNode, bool)>)
    ensures
        occ_refs(occs@) == clause_occs(*c),
{
    let mut occs: Vec<(&ExprNode, bool)> = Vec::new();
    proof {
        assert(occ_refs(occs@) =~= Seq::<(ExprNode, bool)>::empty());
    }
    occ_collect_vec(&c.pats, true, &mut occs);
    occ_collect_vec(&c.body, false, &mut occs);
    proof {
        assert(occ_refs(occs@) =~= clause_occs(*c));
    }
    occs
}

/// Collects occurrences of a top-level expression list.
fn occ_collect_vec<'a>(exprs: &'a Vec<ExprNode>, pat: bool, acc: &mut Vec<(&'a ExprNode, bool)>)
    ensures
        occ_refs(final(acc)@) == occ_refs(old(acc)@) + occ_list(exprs@, pat),
{
    let n = exprs.len();
    let mut i: usize = 0;
    proof {
        assert(exprs@.skip(0) =~= exprs@);
    }
    while i < n
        invariant
            n == exprs@.len(),
            0 <= i <= n,
            occ_refs(acc@) + occ_list(exprs@.skip(i as int), pat) == occ_refs(old(acc)@)
                + occ_list(exprs@, pat),
        decreases n - i,
    {
        occ_collect(&exprs[i], pat, acc);
        proof {
            assert(exprs@.skip(i as int)[0] == exprs@[i as int]);
            assert(exprs@.skip(i as int).drop_first() =~= exprs@.skip(i + 1));
            assert(occ_refs(acc@) + occ_list(exprs@.skip(i + 1), pat) =~= occ_refs(old(acc)@)
                + occ_list(exprs@, pat));
        }
        i += 1;
    }
    proof {
        assert(exprs@.skip(n as int) =~= Seq::<ExprNode>::empty());
        assert(occ_refs(acc@) =~= occ_refs(acc@) + Seq::<(ExprNode, bool)>::empty());
    }
}

/// Counts occurrences of `v` in the given position kind.
fn count_occs_exec(occs: &Vec<(&ExprNode, bool)>, v: &String, def: bool) -> (r: usize)
    ensures
        r as int == count_occs(occ_refs(occs@), v@, def),
        r <= occs@.len(),
{
    let n = occs.len();
    let mut r: usize = 0;
    let mut i: usize = 0;
    proof {
        assert(occ_refs(occs@).skip(0) =~= occ_refs(occs@));
        lemma_count_split(occ_refs(occs@), v@, def, 0);
    }
    while i < n
        invariant
            n == occs@.len(),
            0 <= i <= n,
            r <= i,
            count_occs(occ_refs(occs@), v@, def) == r + count_occs(
                occ_refs(occs@).skip(i as int),
                v@,
                def,
            ),
        decreases n - i,
    {
        let (node, is_def) = occs[i];
        let is_match = is_def == def && match &node.kind {
            ExprKind::Var(name) => string_is(name, v.as_str()),
            _ => false,
        };
        proof {
            let os = occ_refs(occs@);
            assert(os.skip(i as int)[0] == os[i as int]);
            assert(os.skip(i as int).drop_first() =~= os.skip(i + 1));
            assert(os[i as int].0 == *occs@[i as int].0);
        }
        if is_match {
            r += 1;
        }
        i += 1;
    }
    proof {
        assert(occ_refs(occs@).skip(n as int) =~= Seq::<(ExprNode, bool)>::empty());
    }
    r
}

/// Counting never exceeds the sequence length.
proof fn lemma_count_split(os: Seq<(ExprNode, bool)>, v: Seq<char>, def: bool, i: int)
    requires
        0 <= i <= os.len(),
    ensures
        count_occs(os, v, def) >= 0,
    decreases os.len(),
{
    if os.len() > 0 {
        lemma_count_split(os.drop_first(), v, def, 0);
    }
}

/// Builds the inline edits: one per occurrence of `v` in this file.
fn build_rename_edits(
    occs: &Vec<(&ExprNode, bool)>,
    v: &String,
    rhs_text: &String,
    view: &FileView,
) -> (edits: Vec<TextEdit>)
    ensures
        ({
            let ranges = rename_ranges(occ_refs(occs@), v@, *view);
            &&& edits@.len() == ranges.len()
            &&& forall|i: int|
                0 <= i < edits@.len() ==> (#[trigger] edits@[i]).range == ranges[i]
                    && edits@[i].text@ == rhs_text@
        }),
{
    let ghost os = occ_refs(occs@);
    let ghost ranges = rename_ranges(os, v@, *view);
    let n = occs.len();
    let mut edits: Vec<TextEdit> = Vec::new();
    let mut i: usize = 0;
    let ghost mut done: Seq<TextRange> = Seq::empty();
    proof {
        assert(os.skip(0) =~= os);
        assert(done + rename_ranges(os.skip(0), v@, *view) =~= ranges);
    }
    while i < n
        invariant
            n == occs@.len(),
            0 <= i <= n,
            os == occ_refs(occs@),
            ranges == rename_ranges(os, v@, *view),
            ranges == done + rename_ranges(os.skip(i as int), v@, *view),
            edits@.len() == done.len(),
            forall|k: int|
                0 <= k < edits@.len() ==> (#[trigger] edits@[k]).range == done[k]
                    && edits@[k].text@ == rhs_text@,
        decreases n - i,
    {
        let (node, _is_def) = occs[i];
        proof {
            assert(os.skip(i as int)[0] == os[i as int]);
            assert(os.skip(i as int).drop_first() =~= os.skip(i + 1));
            assert(os[i as int].0 == *occs@[i as int].0);
        }
        let name_match = match &node.kind {
            ExprKind::Var(name) => string_is(name, v.as_str()),
            _ => false,
        };
        if name_match && node.range.file_id == view.file_id && node.range.range.start
            <= node.range.range.end {
            edits.push(TextEdit { range: node.range.range, text: rhs_text.clone() });
            proof {
                done = done.push(node.range.range);
                assert(done + rename_ranges(os.skip(i + 1), v@, *view) =~= ranges);
            }
        }
        i += 1;
    }
    proof {
        assert(os.skip(n as int) =~= Seq::<(ExprNode, bool)>::empty());
        assert(ranges =~= done);
    }
    edits
}

/// Runs the rule over one clause, appending one diagnostic per match.
fn process_clause(diags: &mut Vec<Diagnostic>, view: &FileView, c: &FunctionClause)
    ensures
        ({
            let matched = clause_matched(*c, *view);
            &&& final(diags)@.len() == old(diags)@.len() + matched.len()
            &&& forall|i: int| 0 <= i < old(diags)@.len() ==> final(diags)@[i] == old(diags)@[i]
            &&& forall|j: int|
                0 <= j < matched.len() ==> redundant_diag_ok(
                    #[trigger] final(diags)@[old(diags)@.len() + j],
                    matched[j],
                    *c,
                    *view,
                )
        }),
{
    let strat = Strategy { macros: MacroStrategy::Expand, parens: ParenStrategy::InvisibleParens };
    let occs = collect_clause_occs(c);
    let mut nodes: Vec<&ExprNode> = Vec::new();
    fold_expr_list(&c.body, strat, &mut nodes);
    let ghost all = refs_to_nodes(nodes@);
    let ghost matched = clause_matched(*c, *view);
    proof {
        assert(refs_to_nodes(Seq::<&ExprNode>::empty()) =~= Seq::<ExprNode>::empty());
        assert(Seq::<ExprNode>::empty() + visit_exprs(c.body@, strat) =~= visit_exprs(
            c.body@,
            strat,
        ));
        assert(all == visit_exprs(c.body@, spec_strategy()));
        assert(all.skip(0) =~= all);
    }
    let n = nodes.len();
    let mut i: usize = 0;
    let ghost mut done: Seq<ExprNode> = Seq::empty();
    proof {
        assert(done + matched_of(all.skip(0), *c, *view) =~= matched);
    }
    while i < n
        invariant
            n == nodes@.len(),
            0 <= i <= n,
            all == refs_to_nodes(nodes@),
            occ_refs(occs@) == clause_occs(*c),
            matched == clause_matched(*c, *view),
            matched == done + matched_of(all.skip(i as int), *c, *view),
            diags@.len() == old(diags)@.len() + done.len(),
            forall|k: int| 0 <= k < old(diags)@.len() ==> diags@[k] == old(diags)@[k],
            forall|j: int|
                0 <= j < done.len() ==> redundant_diag_ok(
                    #[trigger] diags@[old(diags)@.len() + j],
                    done[j],
                    *c,
                    *view,
                ),
        decreases n - i,
    {
        let e = nodes[i];
        proof {
            assert(all[i as int] == *e);
            assert(all.skip(i as int)[0] == all[i as int]);
            assert(all.skip(i as int).drop_first() =~= all.skip(i + 1));
        }
        let emitted = try_node(diags, view, c, &occs, e);
        proof {
            if emitted {
                done = done.push(all[i as int]);
            }
            assert(done + matched_of(all.skip(i + 1), *c, *view) =~= matched);
        }
        i += 1;
    }
    proof {
        assert(all.skip(n as int) =~= Seq::<ExprNode>::empty());
        assert(matched =~= done);
    }
}

/// Handles one visited node; reports whether a diagnostic was emitted.
fn try_node(
    diags: &mut Vec<Diagnostic>,
    view: &FileView,
    c: &FunctionClause,
    occs: &Vec<(&ExprNode, bool)>,
    e: &ExprNode,
) -> (emitted: bool)
    requires
        occ_refs(occs@) == clause_occs(*c),
    ensures
        emitted == matches_redundant(*e, *c, *view),
        emitted ==> {
            &&& final(diags)@.len() == old(diags)@.len() + 1
            &&& forall|i: int| 0 <= i < old(diags)@.len() ==> final(diags)@[i] == old(diags)@[i]
            &&& redundant_diag_ok(final(diags)@[old(diags)@.len() as int], *e, *c, *view)
        },
        !emitted ==> final(diags)@ == old(diags)@,
{
    let (lhs, rhs) = match &e.kind {
        ExprKind::Match { lhs, rhs } => (lhs, rhs),
        _ => {
            return false;
        },
    };
    let v = match &lhs.kind {
        ExprKind::Var(name) => name,
        _ => {
            return false;
        },
    };
    match &rhs.kind {
        ExprKind::Var(_) => {},
        _ => {
            return false;
        },
    }
    let defs = count_occs_exec(occs, v, true);
    if defs != 1 {
        return false;
    }
    let refs = count_occs_exec(occs, v, false);
    if refs < 1 {
        return false;
    }
    if rhs.range.file_id != view.file_id {
        return false;
    }
    let rhs_text = match text_at(&view.content, rhs.range.range) {
        Some(t) => t,
        None => {
            return false;
        },
    };
    if !(e.range.file_id == view.file_id && e.range.range.start <= e.range.range.end) {
        return false;
    }
    let edits = build_rename_edits(occs, v, &rhs_text, view);
    let ghost the_ranges = rename_ranges(clause_occs(*c), v@, *view);
    let ghost the_input = edits@;
    if !edits_disjoint_check(&edits) {
        proof {
            lemma_disjoint_transfer(edits@, the_ranges);
            lemma_rename_ranges_wf(clause_occs(*c), v@, *view);
        }
        return false;
    }
    proof {
        lemma_disjoint_transfer(edits@, the_ranges);
    }
    let builder = SourceChangeBuilder { file_id: view.file_id, edits };
    let sc = builder.finish();
    let f = fix(
        "remove_redundant_assignment",
        "Use right-hand of assignment everywhere",
        sc,
        e.range.range,
    );
    let mut fs = Vec::new();
    fs.push(f);
    let d = Diagnostic::new(
        DiagnosticCode::RedundantAssignment,
        "assignment is redundant".to_owned(),
        e.range.range,
    ).with_severity(Severity::WeakWarning).add_category(Category::SimplificationRule).with_fixes(
        fs,
    );
    proof {
        assert(d.categories@ =~= seq![Category::SimplificationRule]);
        lemma_after_sort(
            d.fixes@[0].source_change.edits@,
            the_input,
            the_ranges,
            rhs_text@,
        );
    }
    diags.push(d);
    true
}

/// Edits aligned with the spec spans are pairwise disjoint exactly when
/// the spans are.
proof fn lemma_disjoint_transfer(edits: Seq<TextEdit>, ranges: Seq<TextRange>)
    requires
        edits.len() == ranges.len(),
        forall|i: int| 0 <= i < edits.len() ==> (#[trigger] edits[i]).range == ranges[i],
    ensures
        edits_disjoint_any_order(edits) ==> spec_ranges_disjoint(ranges),
        (spec_ranges_disjoint(ranges) && (forall|i: int|
            0 <= i < ranges.len() ==> (#[trigger] ranges[i]).wf())) ==> edits_disjoint_any_order(
            edits,
        ),
{
    if edits_disjoint_any_order(edits) {
        assert forall|i: int, j: int|
            0 <= i < j < ranges.len() implies (#[trigger] ranges[i]).spec_disjoint(
            #[trigger] ranges[j],
        ) && ranges[i].start != ranges[j].start by {
            assert(edits[i].range == ranges[i]);
            assert(edits[j].range == ranges[j]);
        }
    }
    if spec_ranges_disjoint(ranges) && (forall|i: int|
        0 <= i < ranges.len() ==> (#[trigger] ranges[i]).wf()) {
        assert forall|i: int| 0 <= i < edits.len() implies (#[trigger] edits[i]).wf() by {
            assert(edits[i].range == ranges[i]);
        }
        assert forall|i: int, j: int|
            0 <= i < j < edits.len() implies (#[trigger] edits[i]).range.spec_disjoint(
            (#[trigger] edits[j]).range,
        ) && edits[i].range.start != edits[j].range.start by {
            assert(edits[i].range == ranges[i]);
            assert(edits[j].range == ranges[j]);
        }
    }
}

/// Every rewritten span is well-formed by construction.
proof fn lemma_rename_ranges_wf(occs: Seq<(ExprNode, bool)>, v: Seq<char>, view: FileView)
    ensures
        forall|i: int|
            0 <= i < rename_ranges(occs, v, view).len() ==> (#[trigger] rename_ranges(
                occs,
                v,
                view,
            )[i]).wf(),
    decreases occs.len(),
{
    if occs.len() > 0 {
        lemma_rename_ranges_wf(occs.drop_first(), v, view);
        let rec = rename_ranges(occs.drop_first(), v, view);
        let out = rename_ranges(occs, v, view);
        if occs[0].0.kind is Var && occ_name(occs[0]) == v && occs[0].0.range.file_id
            == view.file_id && occs[0].0.range.range.wf() {
            assert(out =~= seq![occs[0].0.range.range] + rec);
            assert forall|i: int| 0 <= i < out.len() implies (#[trigger] out[i]).wf() by {
                if i > 0 {
                    assert(out[i] == rec[i - 1]);
                }
            }
        } else {
            assert(out =~= rec);
        }
    }
}

/// After sorting, every edit still carries the inline text and one of
/// the occurrence spans.
proof fn lemma_after_sort(
    sorted: Seq<TextEdit>,
    input: Seq<TextEdit>,
    ranges: Seq<TextRange>,
    rhs: Seq<char>,
)
    requires
        sorted.to_multiset() == input.to_multiset(),
        input.len() == ranges.len(),
        forall|i: int|
            0 <= i < input.len() ==> (#[trigger] input[i]).range == ranges[i] && input[i].text@
                == rhs,
    ensures
        forall|i: int|
            0 <= i < sorted.len() ==> (#[trigger] sorted[i]).text@ == rhs && ranges.contains(
                sorted[i].range,
            ),
{
    assert forall|i: int|
        0 <= i < sorted.len() implies (#[trigger] sorted[i]).text@ == rhs && ranges.contains(
        sorted[i].range,
    ) by {
        let x = sorted[i];
        assert(sorted.contains(x)) by {
            assert(0 <= i < sorted.len() && sorted[i] == x);
        }
        assert(sorted.to_multiset().contains(x));
        assert(input.to_multiset().contains(x));
        assert(input.contains(x));
        let j = choose|j: int| 0 <= j < input.len() && input[j] == x;
        assert(input[j].range == ranges[j]);
        assert(ranges.contains(x.range)) by {
            assert(0 <= j < ranges.len() && ranges[j] == x.range);
        }
    }
}

/// Runs the rule over every clause of every function of the file,
/// skipping generated files.
pub fn redundant_assignment(diags: &mut Vec<Diagnostic>, view: &FileView)
    ensures
        ({
            let matched = if view.is_generated {
                Seq::<(FunctionClause, ExprNode)>::empty()
            } else {
                file_matched(all_clauses(view.functions@), *view)
            };
            &&& final(diags)@.len() == old(diags)@.len() + matched.len()
            &&& forall|i: int| 0 <= i < old(diags)@.len() ==> final(diags)@[i] == old(diags)@[i]
            &&& forall|j: int|
                0 <= j < matched.len() ==> redundant_diag_ok(
                    #[trigger] final(diags)@[old(diags)@.len() + j],
                    matched[j].1,
                    matched[j].0,
                    *view,
                )
        }),
{
    if view.is_generated {
        return ;
    }
    let mut clauses: Vec<&FunctionClause> = Vec::new();
    let nf = view.functions.len();
    let mut fi: usize = 0;
    proof {
        assert(view.functions@.skip(0) =~= view.functions@);
        assert(clause_refs(clauses@) =~= Seq::<FunctionClause>::empty());
        assert(clause_refs(clauses@) + all_clauses(view.functions@.skip(0)) =~= all_clauses(
            view.functions@,
        ));
    }
    while fi < nf
        invariant
            nf == view.functions@.len(),
            0 <= fi <= nf,
            clause_refs(clauses@) + all_clauses(view.functions@.skip(fi as int)) == all_clauses(
                view.functions@,
            ),
        decreases nf - fi,
    {
        let f = &view.functions[fi];
        let nc = f.clauses.len();
        let mut ci: usize = 0;
        proof {
            assert(view.functions@.skip(fi as int)[0] == view.functions@[fi as int]);
            assert(view.functions@.skip(fi as int).drop_first() =~= view.functions@.skip(fi + 1));
            assert(f.clauses@.skip(0) =~= f.clauses@);
        }
        while ci < nc
            invariant
                fi < nf,
                nf == view.functions@.len(),
                nc == f.clauses@.len(),
                0 <= ci <= nc,
                f.clauses@ == view.functions@[fi as int].clauses@,
                clause_refs(clauses@) + f.clauses@.skip(ci as int) + all_clauses(
                    view.functions@.skip(fi as int + 1),
                ) == all_clauses(view.functions@),
            decreases nc - ci,
        {
            clauses.push(&f.clauses[ci]);
            proof {
                assert(f.clauses@.skip(ci as int)[0] == f.clauses@[ci as int]);
                assert(f.clauses@.skip(ci as int).drop_first() =~= f.clauses@.skip(ci + 1));
                assert(clause_refs(clauses@) + f.clauses@.skip(ci + 1) + all_clauses(
                    view.functions@.skip(fi as int + 1),
                ) =~= all_clauses(view.functions@));
            }
            ci += 1;
        }
        proof {
            assert(f.clauses@.skip(nc as int) =~= Seq::<FunctionClause>::empty());
            assert(clause_refs(clauses@) + all_clauses(view.functions@.skip(fi + 1))
                =~= all_clauses(view.functions@));
        }
        fi += 1;
    }
    proof {
        assert(view.functions@.skip(nf as int) =~= Seq::<FunctionDef>::empty());
        assert(all_clauses(Seq::empty()) =~= Seq::<FunctionClause>::empty());
        assert(clause_refs(clauses@) =~= all_clauses(view.functions@));
    }
    let ghost cs = clause_refs(clauses@);
    let ghost matched = file_matched(cs, *view);
    let n = clauses.len();
    let mut i: usize = 0;
    let ghost mut done: Seq<(FunctionClause, ExprNode)> = Seq::empty();
    proof {
        assert(cs.skip(0) =~= cs);
        assert(done + file_matched(cs.skip(0), *view) =~= matched);
    }
    while i < n
        invariant
            n == clauses@.len(),
            0 <= i <= n,
            cs == clause_refs(clauses@),
            cs == all_clauses(view.functions@),
            matched == file_matched(cs, *view),
            matched == done + file_matched(cs.skip(i as int), *view),
            diags@.len() == old(diags)@.len() + done.len(),
            forall|k: int| 0 <= k < old(diags)@.len() ==> diags@[k] == old(diags)@[k],
            forall|j: int|
                0 <= j < done.len() ==> redundant_diag_ok(
                    #[trigger] diags@[old(diags)@.len() + j],
                    done[j].1,
                    done[j].0,
                    *view,
                ),
        decreases n - i,
    {
        let c = clauses[i];
        let ghost pre_len = diags@.len();
        proof {
            assert(cs.skip(i as int)[0] == cs[i as int]);
            assert(cs.skip(i as int).drop_first() =~= cs.skip(i + 1));
            assert(cs[i as int] == *c);
        }
        let ghost pre_done = done;
        let ghost pre_len = diags@.len();
        process_clause(diags, view, c);
        proof {
            let cm = clause_matched(*c, *view);
            let pairs = cm.map_values(|nn: ExprNode| (cs[i as int], nn));
            assert(pairs.len() == cm.len());
            done = done + pairs;
            assert(done + file_matched(cs.skip(i + 1), *view) =~= matched);
            assert forall|j: int|
                0 <= j < done.len() implies redundant_diag_ok(
                #[trigger] diags@[old(diags)@.len() + j],
                done[j].1,
                done[j].0,
                *view,
            ) by {
                if j < pre_done.len() {
                    assert(done[j] == pre_done[j]);
                } else {
                    let jj = j - pre_done.len();
                    assert(done[j] == pairs[jj]);
                    assert(pairs[jj] == (cs[i as int], cm[jj]));
                    assert(old(diags)@.len() + j == pre_len + jj);
                    assert(redundant_diag_ok(diags@[pre_len + jj], cm[jj], *c, *view));
                }
            }
        }
        i += 1;
    }
    proof {
        assert(cs.skip(n as int) =~= Seq::<FunctionClause>::empty());
        assert(matched =~= done);
    }
}

/// Reads collected clause references as clause values.
pub open spec fn clause_refs(s: Seq<&FunctionClause>) -> Seq<FunctionClause> {
    s.map_values(|c: &FunctionClause| *c)
}

} // verus!
