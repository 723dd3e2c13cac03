//! The head-of-reverse rule: detection, fixes and fail-closed safety.

use elp_core::base::FileId;
use elp_core::base::FileRange;
use elp_core::base::TextRange;
use elp_core::diagnostics::Diagnostic;
use elp_core::inefficient_last::inefficient_last;
use elp_core::view::ExprKind;
use elp_core::view::ExprNode;
use elp_core::view::FileKind;
use elp_core::view::FileView;
use elp_core::view::FunctionClause;
use elp_core::view::FunctionDef;

const FILE: FileId = FileId(5);

fn find(s: &str, needle: &str) -> TextRange {
    let at = s.find(needle).expect("needle present");
    TextRange { start: at as u32, end: (at + needle.len()) as u32 }
}

fn at(r: TextRange) -> FileRange {
    FileRange { file_id: FILE, range: r }
}

fn var(name: &str, r: FileRange) -> ExprNode {
    ExprNode { range: r, kind: ExprKind::Var(name.to_string()) }
}

fn hd_reverse(src: &str, whole: &str, list_var: &str) -> ExprNode {
    let w = find(src, whole);
    let inner_start = w.start + "hd(".len() as u32;
    let arg = find(src, list_var);
    let reverse = ExprNode {
        range: at(TextRange { start: inner_start, end: w.end - 1 }),
        kind: ExprKind::Call {
            module: Some("lists".to_string()),
            name: "reverse".to_string(),
            args: vec![var(list_var, at(arg))],
        },
    };
    ExprNode {
        range: at(w),
        kind: ExprKind::Call {
            module: None,
            name: "hd".to_string(),
            args: vec![reverse],
        },
    }
}

fn view_of(content: &str, body: Vec<ExprNode>, comments: Vec<TextRange>) -> FileView {
    FileView {
        file_id: FILE,
        content: content.as_bytes().to_vec(),
        file_kind: FileKind::SrcModule,
        is_generated: false,
        module_attribute: None,
        file_name: "inefficient_last".to_string(),
        compile_attributes: vec![],
        includes: vec![],
        exports: vec![],
        type_aliases: vec![],
        functions: vec![FunctionDef {
            name: "fn".to_string(),
            arity: 1,
            exported: false,
            range: TextRange { start: 0, end: content.len() as u32 },
            clauses: vec![FunctionClause {
                pats: vec![],
                body,
                range: TextRange { start: 0, end: content.len() as u32 },
            }],
            spec_def: None,
        }],
        comments,
    }
}

fn run(view: &FileView) -> Vec<Diagnostic> {
    let mut diags = Vec::new();
    inefficient_last(&mut diags, view);
    diags
}

#[test]
fn detects_inefficient_last_via_hd() {
    let src = "-module(inefficient_last).\n\nfn(List) -> hd(lists:reverse(List)).\n";
    let e = hd_reverse(src, "hd(lists:reverse(List))", "List)");
    // tighten the argument span to the variable itself
    let view = view_of(src, vec![e], vec![]);
    let diags = run(&view);
    assert_eq!(diags.len(), 1);
    assert_eq!(diags[0].message, "Unnecessary intermediate reverse list allocated.");
    assert_eq!(diags[0].range, find(src, "hd(lists:reverse(List))"));
}

#[test]
fn fixes_inefficient_last_via_hd() {
    let src = "-module(inefficient_last).\n\nfn(List) -> hd(lists:reverse(List)).\n";
    let w = find(src, "hd(lists:reverse(List))");
    let list_r = TextRange { start: w.end - 6, end: w.end - 2 };
    let reverse = ExprNode {
        range: at(TextRange { start: w.start + 3, end: w.end - 1 }),
        kind: ExprKind::Call {
            module: Some("lists".to_string()),
            name: "reverse".to_string(),
            args: vec![var("List", at(list_r))],
        },
    };
    let e = ExprNode {
        range: at(w),
        kind: ExprKind::Call { module: None, name: "hd".to_string(), args: vec![reverse] },
    };
    let view = view_of(src, vec![e], vec![]);
    let diags = run(&view);
    assert_eq!(diags.len(), 1);
    // the rewrite is the second fix, after the suppression fix
    let rewrite = diags[0].fixes.iter().find(|f| f.id == "list_head_reverse_to_last").unwrap();
    let fixed = rewrite.source_change.apply(&src.as_bytes().to_vec());
    assert_eq!(
        String::from_utf8(fixed).unwrap(),
        "-module(inefficient_last).\n\nfn(List) -> lists:last(List).\n"
    );
}

fn pat_match(src: &str, whole: &str) -> ExprNode {
    let w = find(src, whole);
    let elem_r = find(src, "LastElem");
    let list_r = TextRange { start: w.end - 5, end: w.end - 1 };
    let lhs = ExprNode {
        range: at(find(src, "[LastElem|_]")),
        kind: ExprKind::List {
            exprs: vec![var("LastElem", at(elem_r))],
            tail: Some(Box::new(var("_", at(TextRange { start: elem_r.end + 1, end: elem_r.end + 2 })))),
        },
    };
    let rhs = ExprNode {
        range: at(find(src, "lists:reverse(List)")),
        kind: ExprKind::Call {
            module: Some("lists".to_string()),
            name: "reverse".to_string(),
            args: vec![var("List", at(list_r))],
        },
    };
    ExprNode {
        range: at(w),
        kind: ExprKind::Match { lhs: Box::new(lhs), rhs: Box::new(rhs) },
    }
}

#[test]
fn detects_inefficient_last_via_pattern() {
    let src = "-module(inefficient_last).\n\nfn(List) -> [LastElem|_] = lists:reverse(List), LastElem.\n";
    let e = pat_match(src, "[LastElem|_] = lists:reverse(List)");
    let view = view_of(src, vec![e], vec![]);
    let diags = run(&view);
    assert_eq!(diags.len(), 1);
    assert_eq!(diags[0].message, "Unnecessary intermediate reverse list allocated.");
    assert_eq!(diags[0].range, find(src, "[LastElem|_] = lists:reverse(List)"));
}

#[test]
fn fixes_inefficient_last_via_pattern() {
    let src = "-module(inefficient_last).\n\nfn(List) -> [LastElem|_] = lists:reverse(List), LastElem.\n";
    let e = pat_match(src, "[LastElem|_] = lists:reverse(List)");
    let view = view_of(src, vec![e], vec![]);
    let diags = run(&view);
    let rewrite = diags[0]
        .fixes
        .iter()
        .find(|f| f.id == "unnecessary_reversal_to_find_last_element_of_list")
        .unwrap();
    let fixed = rewrite.source_change.apply(&src.as_bytes().to_vec());
    assert_eq!(
        String::from_utf8(fixed).unwrap(),
        "-module(inefficient_last).\n\nfn(List) -> LastElem = lists:last(List), LastElem.\n"
    );
}

#[test]
fn cross_file_match_yields_no_diagnostic() {
    // a match whose resolved range leaks into another file — as macro
    // expansion can cause — is dropped entirely (fail-closed)
    let src = "-module(inefficient_last).\n\nfn(List) -> hd(lists:reverse(List)).\n";
    let mut e = hd_reverse(src, "hd(lists:reverse(List))", "List)");
    e.range = FileRange { file_id: FileId(99), range: e.range.range };
    let view = view_of(src, vec![e], vec![]);
    assert_eq!(run(&view).len(), 0);
}

#[test]
fn comment_inside_match_yields_no_diagnostic() {
    let src = "-module(inefficient_last).\n\nfn(List) -> hd(lists:reverse(List)).\n";
    let e = hd_reverse(src, "hd(lists:reverse(List))", "List)");
    let overlapping = find(src, "lists:reverse");
    let view = view_of(src, vec![e], vec![overlapping]);
    assert_eq!(run(&view).len(), 0);
}
