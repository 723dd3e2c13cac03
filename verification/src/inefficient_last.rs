//! Lint: list_head_reverse_to_last
//!
//! Warns on taking the head of a reversed list — `hd(lists:reverse(L))`
//! or `[Last | _] = lists:reverse(L)` — and offers `lists:last(L)`
//! instead.  Matching runs over the macro-expanded view; an occurrence
//! that resolves into a different file, or whose span covers a comment,
//! is dropped (fail-closed).

use vstd::prelude::*;

use crate::base::FileId;
use crate::diagnostics::Category;
use crate::diagnostics::Diagnostic;
use crate::diagnostics::DiagnosticCode;
use crate::diagnostics::Severity;
use crate::diagnostics::fix;
use crate::fold::MacroStrategy;
use crate::fold::ParenStrategy;
use crate::fold::Strategy;
use crate::fold::fold_file;
use crate::fold::refs_to_nodes;
use crate::fold::visit_functions;
use crate::safety::spec_occurrence_safe;
use crate::safety::occurrence_is_safe;
use crate::source_change::SourceChangeBuilder;
use crate::strutil::concat3;
use crate::strutil::string_is;
use crate::suppression::ignore_line_text;
use crate::suppression::spec_suppress_offset;
use crate::view::ExprKind;
use crate::view::ExprNode;
use crate::view::FileView;
use crate::view::spec_text_at;
use crate::view::text_at;

verus! {

/// The strategy these matches fold with: macros expanded, parens
/// transparent.
pub open spec fn spec_strategy() -> Strategy {
    Strategy { macros: MacroStrategy::Expand, parens: ParenStrategy::InvisibleParens }
}

/// The list argument of a `hd(lists:reverse(L))` occurrence.
pub open spec fn hd_reverse_arg(e: ExprNode) -> Option<ExprNode> {
    match e.kind {
        ExprKind::Call { module, name, args } => if module is None && name@ == "hd"@ && args@.len()
            == 1 {
            match args@[0].kind {
                ExprKind::Call { module: m2, name: n2, args: args2 } => if m2 is Some && (m2->0)@
                    == "lists"@ && n2@ == "reverse"@ && args2@.len() == 1 {
                    Some(args2@[0])
                } else {
                    None
                },
                _ => None,
            }
        } else {
            None
        },
        _ => None,
    }
}

/// The bound pattern and list argument of a
/// `[Last | _] = lists:reverse(L)` occurrence.
pub open spec fn pat_reverse_parts(e: ExprNode) -> Option<(ExprNode, ExprNode)> {
    match e.kind {
        ExprKind::Match { lhs, rhs } => match (lhs.kind, rhs.kind) {
            (
                ExprKind::List { exprs, tail },
                ExprKind::Call { module, name, args },
            ) => if exprs@.len() == 1 && tail is Some && module is Some && (module->0)@ == "lists"@
                && name@ == "reverse"@ && args@.len() == 1 {
                Some((exprs@[0], args@[0]))
            } else {
                None
            },
            _ => None,
        },
        _ => None,
    }
}

/// Source text of a sub-occurrence, available only within the analyzed
/// file.
pub open spec fn part_text(e: ExprNode, s: Seq<u8>, file_id: FileId) -> Option<Seq<char>> {
    if e.range.file_id == file_id {
        spec_text_at(s, e.range.range)
    } else {
        None
    }
}

/// The rewrite text a `hd`-form occurrence receives, when it passes the
/// safety checks.
pub open spec fn hd_replacement(e: ExprNode, view: FileView) -> Option<Seq<char>> {
    match hd_reverse_arg(e) {
        Some(list_arg) => if spec_occurrence_safe(view.comments@, view.file_id, e.range)
            && e.range.range.wf() {
            match part_text(list_arg, view.content@, view.file_id) {
                Some(t) => Some("lists:last("@ + t + ")"@),
                None => None,
            }
        } else {
            None
        },
        None => None,
    }
}

/// The rewrite text a pattern-form occurrence receives.
pub open spec fn pat_replacement(e: ExprNode, view: FileView) -> Option<Seq<char>> {
    match pat_reverse_parts(e) {
        Some((elem, list_arg)) => if spec_occurrence_safe(view.comments@, view.file_id, e.range)
            && e.range.range.wf() {
            match (part_text(elem, view.content@, view.file_id), part_text(
                list_arg,
                view.content@,
                view.file_id,
            )) {
                (Some(te), Some(tl)) => Some(te + " = lists:last("@ + tl + ")"@),
                _ => None,
            }
        } else {
            None
        },
        None => None,
    }
}

pub open spec fn inefficient_last_message() -> Seq<char> {
    "Unnecessary intermediate reverse list allocated."@
}

/// The diagnostic emitted for one occurrence: the rewrite first, the
/// ignore fix second, both targeting the analyzed file.
pub open spec fn last_diag_ok(
    d: Diagnostic,
    e: ExprNode,
    view: FileView,
    replacement: Seq<char>,
    fix_id: Seq<char>,
    with_category: bool,
) -> bool {
    &&& d.code == DiagnosticCode::UnnecessaryReversalToFindLastElementOfList
    &&& d.message@ == inefficient_last_message()
    &&& d.range == e.range.range
    &&& d.severity == Severity::Warning
    &&& d.categories@ == if with_category {
        seq![Category::SimplificationRule]
    } else {
        Seq::<Category>::empty()
    }
    &&& d.fixes@.len() == 2
    &&& d.fixes@[0].id@ == fix_id
    &&& d.fixes@[0].label@ == "Rewrite to use lists:last/1"@
    &&& d.fixes@[0].trigger_range == e.range.range
    &&& d.fixes@[0].source_change.file_id == view.file_id
    &&& d.fixes@[0].source_change.edits@.len() == 1
    &&& d.fixes@[0].source_change.edits@[0].range == e.range.range
    &&& d.fixes@[0].source_change.edits@[0].text@ == replacement
    &&& d.fixes@[1].id@ == "ignore_problem"@
    &&& d.fixes@[1].label@ == "Ignore problem"@
    &&& d.fixes@[1].source_change.file_id == view.file_id
    &&& d.fixes@[1].source_change.edits@.len() == 1
    &&& d.fixes@[1].source_change.edits@[0].range.start as int == spec_suppress_offset(
        view.content@,
        e.range.range,
        spec_module_attr_end(view),
    )
    &&& d.fixes@[1].source_change.edits@[0].text@ == ignore_line_text(d.code)
    &&& d.wf()
}

/// Where the module declaration ends, if the file has one.
pub open spec fn spec_module_attr_end(view: FileView) -> Option<u32> {
    match view.module_attribute {
        Some(m) => Some(m.range.end),
        None => None,
    }
}

/// The occurrences of one pattern family that produce a diagnostic, in
/// traversal order.  `hd_form` selects which family.
pub open spec fn last_matches(nodes: Seq<ExprNode>, view: FileView, hd_form: bool) -> Seq<ExprNode>
    decreases nodes.len(),
{
    if nodes.len() == 0 {
        Seq::empty()
    } else {
        (if (if hd_form {
            hd_replacement(nodes[0], view)
        } else {
            pat_replacement(nodes[0], view)
        }) is Some {
            seq![nodes[0]]
        } else {
            Seq::empty()
        }) + last_matches(nodes.drop_first(), view, hd_form)
    }
}

proof fn lemma_matches_step(nodes: Seq<ExprNode>, view: FileView, hd_form: bool, i: int)
    requires
        0 <= i < nodes.len(),
    ensures
        last_matches(nodes.skip(i), view, hd_form) == (if (if hd_form {
            hd_replacement(nodes[i], view)
        } else {
            pat_replacement(nodes[i], view)
        }) is Some {
            seq![nodes[i]]
        } else {
            Seq::empty()
        }) + last_matches(nodes.skip(i + 1), view, hd_form),
{
    assert(nodes.skip(i)[0] == nodes[i]);
    assert(nodes.skip(i).drop_first() =~= nodes.skip(i + 1));
}

/// Mirrors `hd_replacement` in executable form.
fn check_hd(e: &ExprNode, view: &FileView) -> (r: Option<String>)
    ensures
        match r {
            Some(t) => hd_replacement(*e, *view) == Some(t@),
            None => hd_replacement(*e, *view) is None,
        },
{
    let arg = match &e.kind {
        ExprKind::Call { module, name, args } => {
            if module.is_none() && string_is(name, "hd") && args.len() == 1 {
                match &args[0].kind {
                    ExprKind::Call { module: m2, name: n2, args: args2 } => {
                        let m_ok = match m2 {
                            Some(m) => string_is(m, "lists"),
                            None => false,
                        };
                        if m_ok && string_is(n2, "reverse") && args2.len() == 1 {
                            Some(&args2[0])
                        } else {
                            None
                        }
                    },
                    _ => None,
                }
            } else {
                None
            }
        },
        _ => None,
    };
    match arg {
        Some(list_arg) => {
            if !(occurrence_is_safe(&view.comments, view.file_id, e.range) && e.range.range.start
                <= e.range.range.end) {
                return None;
            }
            match part_text_exec(list_arg, view) {
                Some(t) => Some(concat3("lists:last(", t.as_str(), ")")),
                None => None,
            }
        },
        None => None,
    }
}

/// Mirrors `pat_replacement` in executable form.
fn check_pat(e: &ExprNode, view: &FileView) -> (r: Option<String>)
    ensures
        match r {
            Some(t) => pat_replacement(*e, *view) == Some(t@),
            None => pat_replacement(*e, *view) is None,
        },
{
    let parts = match &e.kind {
        ExprKind::Match { lhs, rhs } => {
            match (&lhs.kind, &rhs.kind) {
                (
                    ExprKind::List { exprs, tail },
                    ExprKind::Call { module, name, args },
                ) => {
                    let m_ok = match module {
                        Some(m) => string_is(m, "lists"),
                        None => false,
                    };
                    if exprs.len() == 1 && tail.is_some() && m_ok && string_is(name, "reverse")
                        && args.len() == 1 {
                        Some((&exprs[0], &args[0]))
                    } else {
                        None
                    }
                },
                _ => None,
            }
        },
        _ => None,
    };
    match parts {
        Some((elem, list_arg)) => {
            if !(occurrence_is_safe(&view.comments, view.file_id, e.range) && e.range.range.start
                <= e.range.range.end) {
                return None;
            }
            let te = match part_text_exec(elem, view) {
                Some(t) => t,
                None => {
                    return None;
                },
            };
            match part_text_exec(list_arg, view) {
                Some(tl) => {
                    let mid = concat3(" = lists:last(", tl.as_str(), ")");
                    let rep = crate::strutil::concat2(te.as_str(), mid.as_str());
                    proof {
                        assert(rep@ =~= te@ + " = lists:last("@ + tl@ + ")"@);
                    }
                    Some(rep)
                },
                None => None,
            }
        },
        None => None,
    }
}

fn part_text_exec(e: &ExprNode, view: &FileView) -> (r: Option<String>)
    ensures
        match r {
            Some(t) => part_text(*e, view.content@, view.file_id) == Some(t@),
            None => part_text(*e, view.content@, view.file_id) is None,
        },
{
    if e.range.file_id == view.file_id {
        text_at(&view.content, e.range.range)
    } else {
        None
    }
}

/// One matching pass: appends a diagnostic per occurrence of the chosen
/// pattern family.
fn run_pass(diags: &mut Vec<Diagnostic>, view: &FileView, nodes: &Vec<&ExprNode>, hd_form: bool)
    ensures
        ({
            let matched = last_matches(refs_to_nodes(nodes@), *view, hd_form);
            &&& final(diags)@.len() == old(diags)@.len() + matched.len()
            &&& forall|i: int| 0 <= i < old(diags)@.len() ==> final(diags)@[i] == old(diags)@[i]
            &&& forall|j: int|
                0 <= j < matched.len() ==> last_diag_ok(
                    #[trigger] final(diags)@[old(diags)@.len() + j],
                    matched[j],
                    *view,
                    (if hd_form {
                        hd_replacement(matched[j], *view)
                    } else {
                        pat_replacement(matched[j], *view)
                    })->Some_0,
                    if hd_form {
                        "list_head_reverse_to_last"@
                    } else {
                        "unnecessary_reversal_to_find_last_element_of_list"@
                    },
                    !hd_form,
                )
        }),
{
    let ghost all = refs_to_nodes(nodes@);
    let ghost matched = last_matches(all, *view, hd_form);
    let n = nodes.len();
    let mut i: usize = 0;
    let ghost mut done: Seq<ExprNode> = Seq::empty();
    proof {
        assert(all.skip(0) =~= all);
        assert(done + last_matches(all.skip(0), *view, hd_form) =~= matched);
    }
    while i < n
        invariant
            n == nodes@.len(),
            0 <= i <= n,
            all == refs_to_nodes(nodes@),
            matched == last_matches(all, *view, hd_form),
            matched == done + last_matches(all.skip(i as int), *view, hd_form),
            diags@.len() == old(diags)@.len() + done.len(),
            done.len() <= i,
            forall|k: int| 0 <= k < old(diags)@.len() ==> diags@[k] == old(diags)@[k],
            forall|j: int|
                0 <= j < done.len() ==> last_diag_ok(
                    #[trigger] diags@[old(diags)@.len() + j],
                    done[j],
                    *view,
                    (if hd_form {
                        hd_replacement(done[j], *view)
                    } else {
                        pat_replacement(done[j], *view)
                    })->Some_0,
                    if hd_form {
                        "list_head_reverse_to_last"@
                    } else {
                        "unnecessary_reversal_to_find_last_element_of_list"@
                    },
                    !hd_form,
                ),
        decreases n - i,
    {
        let e = nodes[i];
        proof {
            assert(all[i as int] == *e);
            lemma_matches_step(all, *view, hd_form, i as int);
        }
        let rep = if hd_form {
            check_hd(e, view)
        } else {
            check_pat(e, view)
        };
        match rep {
            Some(r) => {
                let range = e.range.range;
                let mut builder = SourceChangeBuilder::new(view.file_id);
                builder.replace(range, r);
                let sc = builder.finish();
                let rewrite = if hd_form {
                    fix("list_head_reverse_to_last", "Rewrite to use lists:last/1", sc, range)
                } else {
                    fix(
                        "unnecessary_reversal_to_find_last_element_of_list",
                        "Rewrite to use lists:last/1",
                        sc,
                        range,
                    )
                };
                let msg = "Unnecessary intermediate reverse list allocated.".to_owned();
                let module_attr_end = match &view.module_attribute {
                    Some(m) => Some(m.range.end),
                    None => None,
                };
                let mut fs = Vec::new();
                fs.push(rewrite);
                // the rewrite is attached first so the suppression fix
                // inherits its target file
                let d = Diagnostic::new(
                    DiagnosticCode::UnnecessaryReversalToFindLastElementOfList,
                    msg,
                    range,
                ).with_severity(Severity::Warning).with_fixes(fs).with_ignore_fix(
                    &view.content,
                    module_attr_end,
                );
                let d = if hd_form {
                    d
                } else {
                    d.add_category(Category::SimplificationRule)
                };
                proof {
                    if hd_form {
                        assert(d.categories@ =~= Seq::<Category>::empty());
                    } else {
                        assert(d.categories@ =~= seq![Category::SimplificationRule]);
                    }
                    assert(d.fixes@.len() == 2);
                }
                diags.push(d);
                proof {
                    done = done.push(all[i as int]);
                    assert(done + last_matches(all.skip(i + 1), *view, hd_form) =~= matched);
                }
            },
            None => {},
        }
        i += 1;
    }
    proof {
        assert(all.skip(n as int) =~= Seq::<ExprNode>::empty());
        assert(matched =~= done);
    }
}

/// Runs both pattern families over the file: first every `hd`-form
/// occurrence, then every pattern-form occurrence.
pub fn inefficient_last(diags: &mut Vec<Diagnostic>, view: &FileView)
    ensures
        ({
            let all = visit_functions(view.functions@, spec_strategy());
            let hd = last_matches(all, *view, true);
            let pat = last_matches(all, *view, false);
            &&& final(diags)@.len() == old(diags)@.len() + hd.len() + pat.len()
            &&& forall|i: int| 0 <= i < old(diags)@.len() ==> final(diags)@[i] == old(diags)@[i]
            &&& forall|j: int|
                0 <= j < hd.len() ==> last_diag_ok(
                    #[trigger] final(diags)@[old(diags)@.len() + j],
                    hd[j],
                    *view,
                    hd_replacement(hd[j], *view)->Some_0,
                    "list_head_reverse_to_last"@,
                    false,
                )
            &&& forall|j: int|
                0 <= j < pat.len() ==> last_diag_ok(
                    #[trigger] final(diags)@[old(diags)@.len() + hd.len() + j],
                    pat[j],
                    *view,
                    pat_replacement(pat[j], *view)->Some_0,
                    "unnecessary_reversal_to_find_last_element_of_list"@,
                    true,
                )
        }),
{
    let strat = Strategy { macros: MacroStrategy::Expand, parens: ParenStrategy::InvisibleParens };
    let mut nodes: Vec<&ExprNode> = Vec::new();
    fold_file(&view.functions, strat, &mut nodes);
    proof {
        assert(refs_to_nodes(Seq::<&ExprNode>::empty()) =~= Seq::<ExprNode>::empty());
        assert(Seq::<ExprNode>::empty() + visit_functions(view.functions@, strat)
            =~= visit_functions(view.functions@, strat));
    }
    run_pass(diags, view, &nodes, true);
    run_pass(diags, view, &nodes, false);
}

} // verus!
