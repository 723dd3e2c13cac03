//! Lint/fix: simplify_expression
//!
//! Reports expressions that can be trivially simplified — identity
//! elements of list, arithmetic and short-circuit boolean operators —
//! and offers the simplified text as a fix.  Operands that come from
//! macro call sites are left alone, and so is any occurrence whose
//! resolved range lies outside the file under analysis.

use vstd::prelude::*;

use crate::base::FileId;
use crate::diagnostics::Category;
use crate::diagnostics::Diagnostic;
use crate::diagnostics::DiagnosticCode;
use crate::diagnostics::Severity;
use crate::diagnostics::fix;
use crate::fold::MacroStrategy;
use crate::fold::ParenStrategy;
use crate::fold::Strategy;
use crate::fold::refs_to_nodes;
use crate::fold::fold_file;
use crate::fold::visit_functions;
use crate::source_change::SourceChangeBuilder;
use crate::strutil::concat3;
use crate::strutil::concat2;
use crate::strutil::string_is;
use crate::view::ArithOp;
use crate::view::BinaryOp;
use crate::view::ExprKind;
use crate::view::ExprNode;
use crate::view::FileView;
use crate::view::ListOp;
use crate::view::LogicOp;
use crate::view::UnaryOp;
use crate::view::spec_text_at;
use crate::view::text_at;

verus! {

/// The strategy this rule folds with: macro call sites stay unexpanded,
/// parenthesis wrappers are transparent.
pub open spec fn spec_strategy() -> Strategy {
    Strategy { macros: MacroStrategy::DoNotExpand, parens: ParenStrategy::InvisibleParens }
}

pub open spec fn is_macro_node(e: ExprNode) -> bool {
    e.kind is MacroCall
}

pub open spec fn is_empty_list_expr(e: ExprNode) -> bool {
    match e.kind {
        ExprKind::List { exprs, tail } => exprs@.len() == 0 && tail is None,
        _ => false,
    }
}

pub open spec fn is_integer_lit(n: int, e: ExprNode) -> bool {
    match e.kind {
        ExprKind::IntLit(v) => v as int == n,
        _ => false,
    }
}

pub open spec fn is_literal_atom(name: Seq<char>, e: ExprNode) -> bool {
    match e.kind {
        ExprKind::AtomLit(a) => a@ == name,
        _ => false,
    }
}

/// The source text of an operand, available only when its resolved range
/// lies in the analyzed file and cuts the buffer cleanly.
pub open spec fn operand_text(e: ExprNode, s: Seq<u8>, file_id: FileId) -> Option<Seq<char>> {
    if e.range.file_id == file_id {
        spec_text_at(s, e.range.range)
    } else {
        None
    }
}

/// The replacement a binary operation simplifies to, if any.
pub open spec fn simplify_binary(
    op: BinaryOp,
    lhs: ExprNode,
    rhs: ExprNode,
    s: Seq<u8>,
    file_id: FileId,
) -> Option<Seq<char>> {
    if is_macro_node(lhs) || is_macro_node(rhs) {
        None
    } else if op == BinaryOp::ListOp(ListOp::Append) && is_empty_list_expr(lhs) {
        operand_text(rhs, s, file_id)
    } else if op == BinaryOp::ListOp(ListOp::Append) && is_empty_list_expr(rhs) {
        operand_text(lhs, s, file_id)
    } else if op == BinaryOp::ListOp(ListOp::Subtract) && is_empty_list_expr(lhs) {
        operand_text(lhs, s, file_id)
    } else if op == BinaryOp::ListOp(ListOp::Subtract) && is_empty_list_expr(rhs) {
        operand_text(lhs, s, file_id)
    } else if op == BinaryOp::ArithOp(ArithOp::Add) && is_integer_lit(0, lhs) {
        operand_text(rhs, s, file_id)
    } else if op == BinaryOp::ArithOp(ArithOp::Add) && is_integer_lit(0, rhs) {
        operand_text(lhs, s, file_id)
    } else if op == BinaryOp::ArithOp(ArithOp::Sub) && is_integer_lit(0, lhs) {
        match operand_text(rhs, s, file_id) {
            Some(t) => Some("-"@ + t),
            None => None,
        }
    } else if op == BinaryOp::ArithOp(ArithOp::Sub) && is_integer_lit(0, rhs) {
        operand_text(lhs, s, file_id)
    } else if op == BinaryOp::ArithOp(ArithOp::Mul) && is_integer_lit(1, lhs) {
        operand_text(rhs, s, file_id)
    } else if op == BinaryOp::ArithOp(ArithOp::Mul) && is_integer_lit(1, rhs) {
        operand_text(lhs, s, file_id)
    } else if op == BinaryOp::ArithOp(ArithOp::Div) && is_integer_lit(1, rhs) {
        operand_text(lhs, s, file_id)
    } else if op == BinaryOp::ArithOp(ArithOp::Rem) && is_integer_lit(1, rhs) {
        Some("0"@)
    } else if op == BinaryOp::LogicOp(LogicOp::And { lazy: true }) && is_literal_atom(
        "true"@,
        lhs,
    ) {
        operand_text(rhs, s, file_id)
    } else if op == BinaryOp::LogicOp(LogicOp::Or { lazy: true }) && is_literal_atom(
        "false"@,
        lhs,
    ) {
        operand_text(rhs, s, file_id)
    } else {
        None
    }
}

/// The replacement a unary operation simplifies to, if any.
pub open spec fn simplify_unary(op: UnaryOp, operand: ExprNode) -> Option<Seq<char>> {
    if is_macro_node(operand) {
        None
    } else if op is Not && is_literal_atom("true"@, operand) {
        Some("false"@)
    } else if op is Not && is_literal_atom("false"@, operand) {
        Some("true"@)
    } else {
        None
    }
}

/// The replacement a visited node simplifies to, if any.
pub open spec fn simplify_replacement(e: ExprNode, s: Seq<u8>, file_id: FileId) -> Option<
    Seq<char>,
> {
    match e.kind {
        ExprKind::BinaryOp { op, lhs, rhs } => simplify_binary(op, *lhs, *rhs, s, file_id),
        ExprKind::UnaryOp { op, expr } => simplify_unary(op, *expr),
        _ => None,
    }
}

/// Whether a visited node produces a diagnostic: it simplifies, and its
/// own range lies (well-formed) in the analyzed file.
pub open spec fn matches_simplify(e: ExprNode, s: Seq<u8>, file_id: FileId) -> bool {
    &&& simplify_replacement(e, s, file_id) is Some
    &&& e.range.file_id == file_id
    &&& e.range.range.wf()
}

pub open spec fn simplify_message(r: Seq<char>) -> Seq<char> {
    "Can be simplified to `"@ + r + "`."@
}

pub open spec fn simplify_label(r: Seq<char>) -> Seq<char> {
    "Replace by `"@ + r + "`"@
}

/// Exactly the diagnostic this rule emits for a matching node.
pub open spec fn simplify_diag_ok(d: Diagnostic, e: ExprNode, s: Seq<u8>, file_id: FileId) -> bool {
    let r = simplify_replacement(e, s, file_id)->Some_0;
    &&& d.code == DiagnosticCode::ExpressionCanBeSimplified
    &&& d.message@ == simplify_message(r)
    &&& d.range == e.range.range
    &&& d.severity == Severity::Warning
    &&& d.categories@ == seq![Category::SimplificationRule]
    &&& d.fixes@.len() == 1
    &&& d.fixes@[0].id@ == "simplify_expression"@
    &&& d.fixes@[0].label@ == simplify_label(r)
    &&& d.fixes@[0].trigger_range == e.range.range
    &&& d.fixes@[0].source_change.file_id == file_id
    &&& d.fixes@[0].source_change.edits@.len() == 1
    &&& d.fixes@[0].source_change.edits@[0].range == e.range.range
    &&& d.fixes@[0].source_change.edits@[0].text@ == r
    &&& d.wf()
}

/// The subsequence of visited nodes that produce a diagnostic.
pub open spec fn simplify_matches(nodes: Seq<ExprNode>, s: Seq<u8>, file_id: FileId) -> Seq<
    ExprNode,
>
    decreases nodes.len(),
{
    if nodes.len() == 0 {
        Seq::empty()
    } else {
        (if matches_simplify(nodes[0], s, file_id) {
            seq![nodes[0]]
        } else {
            Seq::empty()
        }) + simplify_matches(nodes.drop_first(), s, file_id)
    }
}

/// Unfolds one step of the match subsequence.
proof fn lemma_matches_step(nodes: Seq<ExprNode>, s: Seq<u8>, file_id: FileId, i: int)
    requires
        0 <= i < nodes.len(),
    ensures
        simplify_matches(nodes.skip(i), s, file_id) == (if matches_simplify(
            nodes[i],
            s,
            file_id,
        ) {
            seq![nodes[i]]
        } else {
            Seq::empty()
        }) + simplify_matches(nodes.skip(i + 1), s, file_id),
{
    assert(nodes.skip(i)[0] == nodes[i]);
    assert(nodes.skip(i).drop_first() =~= nodes.skip(i + 1));
}

/// Mirrors `simplify_replacement` in executable form.
fn check_node(e: &ExprNode, content: &Vec<u8>, file_id: FileId) -> (r: Option<String>)
    ensures
        match r {
            Some(t) => simplify_replacement(*e, content@, file_id) == Some(t@),
            None => simplify_replacement(*e, content@, file_id) is None,
        },
{
    match &e.kind {
        ExprKind::BinaryOp { op, lhs, rhs } => {
            if is_macro_exec(lhs) || is_macro_exec(rhs) {
                return None;
            }
            let op = *op;
            if op == BinaryOp::ListOp(ListOp::Append) && is_empty_list_exec(lhs) {
                operand_text_exec(rhs, content, file_id)
            } else if op == BinaryOp::ListOp(ListOp::Append) && is_empty_list_exec(rhs) {
                operand_text_exec(lhs, content, file_id)
            } else if op == BinaryOp::ListOp(ListOp::Subtract) && is_empty_list_exec(lhs) {
                operand_text_exec(lhs, content, file_id)
            } else if op == BinaryOp::ListOp(ListOp::Subtract) && is_empty_list_exec(rhs) {
                operand_text_exec(lhs, content, file_id)
            } else if op == BinaryOp::ArithOp(ArithOp::Add) && is_integer_exec(0, lhs) {
                operand_text_exec(rhs, content, file_id)
            } else if op == BinaryOp::ArithOp(ArithOp::Add) && is_integer_exec(0, rhs) {
                operand_text_exec(lhs, content, file_id)
            } else if op == BinaryOp::ArithOp(ArithOp::Sub) && is_integer_exec(0, lhs) {
                match operand_text_exec(rhs, content, file_id) {
                    Some(t) => Some(concat2("-", t.as_str())),
                    None => None,
                }
            } else if op == BinaryOp::ArithOp(ArithOp::Sub) && is_integer_exec(0, rhs) {
                operand_text_exec(lhs, content, file_id)
            } else if op == BinaryOp::ArithOp(ArithOp::Mul) && is_integer_exec(1, lhs) {
                operand_text_exec(rhs, content, file_id)
            } else if op == BinaryOp::ArithOp(ArithOp::Mul) && is_integer_exec(1, rhs) {
                operand_text_exec(lhs, content, file_id)
            } else if op == BinaryOp::ArithOp(ArithOp::Div) && is_integer_exec(1, rhs) {
                operand_text_exec(lhs, content, file_id)
            } else if op == BinaryOp::ArithOp(ArithOp::Rem) && is_integer_exec(1, rhs) {
                Some("0".to_owned())
            } else if op == BinaryOp::LogicOp(LogicOp::And { lazy: true }) && is_atom_exec(
                lhs,
                "true",
            ) {
                operand_text_exec(rhs, content, file_id)
            } else if op == BinaryOp::LogicOp(LogicOp::Or { lazy: true }) && is_atom_exec(
                lhs,
                "false",
            ) {
                operand_text_exec(rhs, content, file_id)
            } else {
                None
            }
        },
        ExprKind::UnaryOp { op, expr } => {
            if is_macro_exec(expr) {
                return None;
            }
            let not = matches!(op, UnaryOp::Not);
            if not && is_atom_exec(expr, "true") {
                Some("false".to_owned())
            } else if not && is_atom_exec(expr, "false") {
                Some("true".to_owned())
            } else {
                None
            }
        },
        _ => None,
    }
}

fn is_macro_exec(e: &ExprNode) -> (r: bool)
    ensures
        r == is_macro_node(*e),
{
    matches!(&e.kind, ExprKind::MacroCall { .. })
}

fn is_empty_list_exec(e: &ExprNode) -> (r: bool)
    ensures
        r == is_empty_list_expr(*e),
{
    match &e.kind {
        ExprKind::List { exprs, tail } => exprs.len() == 0 && tail.is_none(),
        _ => false,
    }
}

fn is_integer_exec(n: i128, e: &ExprNode) -> (r: bool)
    ensures
        r == is_integer_lit(n as int, *e),
{
    match &e.kind {
        ExprKind::IntLit(v) => *v == n,
        _ => false,
    }
}

fn is_atom_exec(e: &ExprNode, name: &str) -> (r: bool)
    ensures
        r == is_literal_atom(name@, *e),
{
    match &e.kind {
        ExprKind::AtomLit(a) => string_is(a, name),
        _ => false,
    }
}

fn operand_text_exec(e: &ExprNode, content: &Vec<u8>, file_id: FileId) -> (r: Option<String>)
    ensures
        match r {
            Some(t) => operand_text(*e, content@, file_id) == Some(t@),
            None => operand_text(*e, content@, file_id) is None,
        },
{
    if e.range.file_id == file_id {
        text_at(content, e.range.range)
    } else {
        None
    }
}

/// Runs the rule over a file view, appending one diagnostic per
/// simplifiable occurrence, in traversal order.
pub fn expression_can_be_simplified(diags: &mut Vec<Diagnostic>, view: &FileView)
    ensures
        ({
            let matched = simplify_matches(
                visit_functions(view.functions@, spec_strategy()),
                view.content@,
                view.file_id,
            );
            &&& final(diags)@.len() == old(diags)@.len() + matched.len()
            &&& forall|i: int| 0 <= i < old(diags)@.len() ==> final(diags)@[i] == old(diags)@[i]
            &&& forall|j: int|
                0 <= j < matched.len() ==> simplify_diag_ok(
                    #[trigger] final(diags)@[old(diags)@.len() + j],
                    matched[j],
                    view.content@,
                    view.file_id,
                )
        }),
{
    let strat = Strategy {
        macros: MacroStrategy::DoNotExpand,
        parens: ParenStrategy::InvisibleParens,
    };
    let mut nodes: Vec<&ExprNode> = Vec::new();
    fold_file(&view.functions, strat, &mut nodes);
    let ghost all = refs_to_nodes(nodes@);
    let ghost s = view.content@;
    let ghost matched = simplify_matches(all, s, view.file_id);
    proof {
        assert(refs_to_nodes(Seq::<&ExprNode>::empty()) =~= Seq::<ExprNode>::empty());
        assert(Seq::<ExprNode>::empty() + visit_functions(view.functions@, strat)
            =~= visit_functions(view.functions@, strat));
        assert(all == visit_functions(view.functions@, spec_strategy()));
        assert(all.skip(0) =~= all);
    }
    let n = nodes.len();
    let mut i: usize = 0;
    let ghost mut done: Seq<ExprNode> = Seq::empty();
    proof {
        assert(done + simplify_matches(all.skip(0), s, view.file_id) =~= matched);
    }
    while i < n
        invariant
            n == nodes@.len(),
            0 <= i <= n,
            all == refs_to_nodes(nodes@),
            s == view.content@,
            matched == simplify_matches(all, s, view.file_id),
            matched == done + simplify_matches(all.skip(i as int), s, view.file_id),
            diags@.len() == old(diags)@.len() + done.len(),
            forall|k: int| 0 <= k < old(diags)@.len() ==> diags@[k] == old(diags)@[k],
            forall|j: int|
                0 <= j < done.len() ==> simplify_diag_ok(
                    #[trigger] diags@[old(diags)@.len() + j],
                    done[j],
                    s,
                    view.file_id,
                ),
        decreases n - i,
    {
        let e = nodes[i];
        proof {
            assert(all[i as int] == *e);
            lemma_matches_step(all, s, view.file_id, i as int);
        }
        let range = e.range.range;
        let file_ok = e.range.file_id == view.file_id && range.start <= range.end;
        let rep = if file_ok {
            check_node(e, &view.content, view.file_id)
        } else {
            None
        };
        match rep {
            Some(r) => {
                proof {
                    assert(matches_simplify(all[i as int], s, view.file_id));
                }
                let msg = concat3("Can be simplified to `", r.as_str(), "`.");
                let label = concat3("Replace by `", r.as_str(), "`");
                let mut builder = SourceChangeBuilder::new(view.file_id);
                builder.replace(range, r);
                let sc = builder.finish();
                let f = fix("simplify_expression", label.as_str(), sc, range);
                let mut fs = Vec::new();
                fs.push(f);
                let d = Diagnostic::new(
                    DiagnosticCode::ExpressionCanBeSimplified,
                    msg,
                    range,
                ).with_severity(Severity::Warning).add_category(
                    Category::SimplificationRule,
                ).with_fixes(fs);
                proof {
                    assert(simplify_diag_ok(d, all[i as int], s, view.file_id)) by {
                        assert(d.categories@ =~= seq![Category::SimplificationRule]);
                        assert(d.fixes@.len() == 1);
                    }
                }
                diags.push(d);
                proof {
                    done = done.push(all[i as int]);
                    assert(done + simplify_matches(all.skip(i + 1), s, view.file_id) =~= matched);
                }
            },
            None => {
                proof {
                    if file_ok {
                        assert(!matches_simplify(all[i as int], s, view.file_id));
                    } else {
                        assert(!matches_simplify(all[i as int], s, view.file_id));
                    }
                }
            },
        }
        i += 1;
    }
    proof {
        assert(all.skip(n as int) =~= Seq::<ExprNode>::empty());
        assert(matched =~= done);
    }
}

} // verus!
