//! The redundant-assignment rule: detection and the inline fix.

use elp_core::base::FileId;
use elp_core::base::FileRange;
use elp_core::base::TextRange;
use elp_core::diagnostics::Diagnostic;
use elp_core::redundant_assignment::redundant_assignment;
use elp_core::view::ExprKind;
use elp_core::view::ExprNode;
use elp_core::view::FileKind;
use elp_core::view::FileView;
use elp_core::view::FunctionClause;
use elp_core::view::FunctionDef;

const FILE: FileId = FileId(4);

fn find_from(s: &str, needle: &str, from: usize) -> TextRange {
    let at = s[from..].find(needle).expect("needle present") + from;
    TextRange { start: at as u32, end: (at + needle.len()) as u32 }
}

fn at(r: TextRange) -> FileRange {
    FileRange { file_id: FILE, range: r }
}

fn var(name: &str, r: TextRange) -> ExprNode {
    ExprNode { range: at(r), kind: ExprKind::Var(name.to_string()) }
}

fn intlit(v: i128, r: TextRange) -> ExprNode {
    ExprNode { range: at(r), kind: ExprKind::IntLit(v) }
}

fn m(lhs: ExprNode, rhs: ExprNode, r: TextRange) -> ExprNode {
    ExprNode {
        range: at(r),
        kind: ExprKind::Match { lhs: Box::new(lhs), rhs: Box::new(rhs) },
    }
}

fn call(name: &str, args: Vec<ExprNode>, r: TextRange) -> ExprNode {
    ExprNode {
        range: at(r),
        kind: ExprKind::Call { module: None, name: name.to_string(), args },
    }
}

fn block(children: Vec<ExprNode>, r: TextRange) -> ExprNode {
    ExprNode { range: at(r), kind: ExprKind::Block { exprs: children } }
}

fn list(items: Vec<ExprNode>, r: TextRange) -> ExprNode {
    ExprNode { range: at(r), kind: ExprKind::List { exprs: items, tail: None } }
}

fn view_of(content: &str, body: Vec<ExprNode>) -> FileView {
    FileView {
        file_id: FILE,
        content: content.as_bytes().to_vec(),
        file_kind: FileKind::SrcModule,
        is_generated: false,
        module_attribute: None,
        file_name: "main".to_string(),
        compile_attributes: vec![],
        includes: vec![],
        exports: vec![],
        type_aliases: vec![],
        functions: vec![FunctionDef {
            name: "do_foo".to_string(),
            arity: 0,
            exported: false,
            range: TextRange { start: 0, end: content.len() as u32 },
            clauses: vec![FunctionClause {
                pats: vec![],
                body,
                range: TextRange { start: 0, end: content.len() as u32 },
            }],
            spec_def: None,
        }],
        comments: vec![],
    }
}

fn run(view: &FileView) -> Vec<Diagnostic> {
    let mut diags = Vec::new();
    redundant_assignment(&mut diags, view);
    diags
}

#[test]
fn produces_diagnostic_lhs_is_var() {
    let src = "-module(main).\n\ndo_foo() ->\n    X = 42,\n    Y = X,\n    bar(Y),\n    Z = Y,\n    g(Z),\n    case Y of\n      [A] -> C = A;\n      B -> C = B\n    end,\n    C.\n";
    let x_def = find_from(src, "X = 42", 0);
    let yx = find_from(src, "Y = X", 0);
    let bar_y = find_from(src, "bar(Y)", 0);
    let zy = find_from(src, "Z = Y", 0);
    let gz = find_from(src, "g(Z)", 0);
    let case_r = find_from(src, "case Y of", 0);
    let ca = find_from(src, "C = A", 0);
    let cb = find_from(src, "C = B", 0);
    let body = vec![
        m(
            var("X", TextRange { start: x_def.start, end: x_def.start + 1 }),
            intlit(42, TextRange { start: x_def.start + 4, end: x_def.end }),
            x_def,
        ),
        m(
            var("Y", TextRange { start: yx.start, end: yx.start + 1 }),
            var("X", TextRange { start: yx.start + 4, end: yx.end }),
            yx,
        ),
        call("bar", vec![var("Y", TextRange { start: bar_y.start + 4, end: bar_y.start + 5 })], bar_y),
        m(
            var("Z", TextRange { start: zy.start, end: zy.start + 1 }),
            var("Y", TextRange { start: zy.start + 4, end: zy.end }),
            zy,
        ),
        call("g", vec![var("Z", TextRange { start: gz.start + 2, end: gz.start + 3 })], gz),
        block(
            vec![
                var("Y", TextRange { start: case_r.start + 5, end: case_r.start + 6 }),
                list(
                    vec![var("A", TextRange { start: ca.start - 5, end: ca.start - 4 })],
                    TextRange { start: ca.start - 6, end: ca.start - 3 },
                ),
                m(
                    var("C", TextRange { start: ca.start, end: ca.start + 1 }),
                    var("A", TextRange { start: ca.start + 4, end: ca.end }),
                    ca,
                ),
                var("B", TextRange { start: cb.start - 5, end: cb.start - 4 }),
                m(
                    var("C", TextRange { start: cb.start, end: cb.start + 1 }),
                    var("B", TextRange { start: cb.start + 4, end: cb.end }),
                    cb,
                ),
            ],
            TextRange { start: case_r.start, end: find_from(src, "end", 0).end },
        ),
        var("C", one(find_from(src, "C.", 0))),
    ];
    let view = view_of(src, body);
    let diags = run(&view);
    assert_eq!(diags.len(), 2);
    assert_eq!(diags[0].message, "assignment is redundant");
    assert_eq!(diags[0].range, yx);
    assert_eq!(diags[1].range, zy);
}

fn one(r: TextRange) -> TextRange {
    TextRange { start: r.start, end: r.start + 1 }
}

#[test]
fn can_fix_lhs_is_var() {
    let src = "-module(main).\n\ndo_foo() ->\n  X = 42,\n  Y = X,\n  bar(Y),\n  Y.\n";
    let x_def = find_from(src, "X = 42", 0);
    let yx = find_from(src, "Y = X", 0);
    let bar_y = find_from(src, "bar(Y)", 0);
    let last_y = find_from(src, "Y.", 0);
    let body = vec![
        m(
            var("X", TextRange { start: x_def.start, end: x_def.start + 1 }),
            intlit(42, TextRange { start: x_def.start + 4, end: x_def.end }),
            x_def,
        ),
        m(
            var("Y", TextRange { start: yx.start, end: yx.start + 1 }),
            var("X", TextRange { start: yx.start + 4, end: yx.end }),
            yx,
        ),
        call("bar", vec![var("Y", TextRange { start: bar_y.start + 4, end: bar_y.start + 5 })], bar_y),
        var("Y", TextRange { start: last_y.start, end: last_y.start + 1 }),
    ];
    let view = view_of(src, body);
    let diags = run(&view);
    assert_eq!(diags.len(), 1);
    let fixed = diags[0].fixes[0].source_change.apply(&src.as_bytes().to_vec());
    assert_eq!(
        String::from_utf8(fixed).unwrap(),
        "-module(main).\n\ndo_foo() ->\n  X = 42,\n  X = X,\n  bar(X),\n  X.\n"
    );
}
