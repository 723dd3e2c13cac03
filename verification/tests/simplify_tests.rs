//! The expression-simplification rule: diagnostics and fixes.

use elp_core::base::FileId;
use elp_core::base::FileRange;
use elp_core::base::TextRange;
use elp_core::diagnostics::Diagnostic;
use elp_core::expression_can_be_simplified::expression_can_be_simplified;
use elp_core::view::ArithOp;
use elp_core::view::BinaryOp;
use elp_core::view::ExprKind;
use elp_core::view::ExprNode;
use elp_core::view::FileKind;
use elp_core::view::FileView;
use elp_core::view::FunctionClause;
use elp_core::view::FunctionDef;
use elp_core::view::ListOp;
use elp_core::view::LogicOp;
use elp_core::view::UnaryOp;

const FILE: FileId = FileId(1);

fn find_from(s: &str, needle: &str, from: usize) -> TextRange {
    let at = s[from..].find(needle).expect("needle present") + from;
    TextRange { start: at as u32, end: (at + needle.len()) as u32 }
}

fn fr(s: &str, needle: &str) -> FileRange {
    FileRange { file_id: FILE, range: find_from(s, needle, 0) }
}

fn fr_from(s: &str, needle: &str, from: usize) -> FileRange {
    FileRange { file_id: FILE, range: find_from(s, needle, from) }
}

// the range of the first `len` characters of the found needle
fn fr_n(s: &str, needle: &str, len: u32) -> FileRange {
    let r = find_from(s, needle, 0);
    FileRange { file_id: FILE, range: TextRange { start: r.start, end: r.start + len } }
}

fn sub_range(r: TextRange, from: u32, len: u32) -> FileRange {
    FileRange {
        file_id: FILE,
        range: TextRange { start: r.start + from, end: r.start + from + len },
    }
}

fn node(kind: ExprKind, range: FileRange) -> ExprNode {
    ExprNode { range, kind }
}

fn empty_list(range: FileRange) -> ExprNode {
    node(ExprKind::List { exprs: vec![], tail: None }, range)
}

fn intlit(v: i128, range: FileRange) -> ExprNode {
    node(ExprKind::IntLit(v), range)
}

fn var(name: &str, range: FileRange) -> ExprNode {
    node(ExprKind::Var(name.to_string()), range)
}

fn atom(name: &str, range: FileRange) -> ExprNode {
    node(ExprKind::AtomLit(name.to_string()), range)
}

fn bin(op: BinaryOp, lhs: ExprNode, rhs: ExprNode, range: FileRange) -> ExprNode {
    node(ExprKind::BinaryOp { op, lhs: Box::new(lhs), rhs: Box::new(rhs) }, range)
}

fn unop(op: UnaryOp, expr: ExprNode, range: FileRange) -> ExprNode {
    node(ExprKind::UnaryOp { op, expr: Box::new(expr) }, range)
}

fn list_of(items: Vec<ExprNode>, range: FileRange) -> ExprNode {
    node(ExprKind::List { exprs: items, tail: None }, range)
}

fn fun(name: &str, body: Vec<ExprNode>) -> FunctionDef {
    FunctionDef {
        name: name.to_string(),
        arity: 1,
        exported: false,
        range: TextRange { start: 0, end: 0 },
        clauses: vec![FunctionClause {
            pats: vec![],
            body,
            range: TextRange { start: 0, end: 0 },
        }],
        spec_def: None,
    }
}

fn view_of(content: &str, functions: Vec<FunctionDef>) -> FileView {
    FileView {
        file_id: FILE,
        content: content.as_bytes().to_vec(),
        file_kind: FileKind::SrcModule,
        is_generated: false,
        module_attribute: None,
        file_name: "main".to_string(),
        compile_attributes: vec![],
        includes: vec![],
        exports: vec![],
        type_aliases: vec![],
        functions,
        comments: vec![],
    }
}

fn run(view: &FileView) -> Vec<Diagnostic> {
    let mut diags = Vec::new();
    expression_can_be_simplified(&mut diags, view);
    diags
}

fn append() -> BinaryOp {
    BinaryOp::ListOp(ListOp::Append)
}

fn subtract() -> BinaryOp {
    BinaryOp::ListOp(ListOp::Subtract)
}

fn add() -> BinaryOp {
    BinaryOp::ArithOp(ArithOp::Add)
}

fn andalso() -> BinaryOp {
    BinaryOp::LogicOp(LogicOp::And { lazy: true })
}

fn orelse() -> BinaryOp {
    BinaryOp::LogicOp(LogicOp::Or { lazy: true })
}

fn msg(d: &Diagnostic) -> String {
    d.message.clone()
}

fn apply_first_fix(content: &str, d: &Diagnostic) -> String {
    let out = d.fixes[0].source_change.apply(&content.as_bytes().to_vec());
    String::from_utf8(out).unwrap()
}

#[test]
fn test_generates_diagnostics() {
    let src = r#"
  -module(main).
  list_ops(X) ->
    f([] ++ [1]),
   %% ^^^^^^^^^ 💡 warning: Can be simplified to `[1]`.
    f([2] ++ [1]),
    f(X ++ [1]),
    ok.

  arith_ops(X) ->
    f(0 + 42),
   %% ^^^^^^ 💡 warning: Can be simplified to `42`.
    f(40 + 2),
    f(X + 42),
    ok.

  short_circuit_boolean_ops(X) ->
    f(true andalso X),
   %% ^^^^^^^^^^^^^^ 💡 warning: Can be simplified to `X`.
    f(false orelse X),
   %% ^^^^^^^^^^^^^^ 💡 warning: Can be simplified to `X`.
    f(not false),
   %% ^^^^^^^^^ 💡 warning: Can be simplified to `true`.
    f(not true),
   %% ^^^^^^^^ 💡 warning: Can be simplified to `false`.

      true andalso X,
   %% ^^^^^^^^^^^^^^ 💡 warning: Can be simplified to `X`.
    ok.


  f(X) -> X.
            "#;
    let one = find_from(src, "[1]", 0);
    let r1 = find_from(src, "[] ++ [1]", 0);
    let r2 = find_from(src, "[2] ++ [1]", 0);
    let r3 = find_from(src, "X ++ [1]", 0);
    let list_ops = fun(
        "list_ops",
        vec![
            bin(
                append(),
                empty_list(sub_range(r1, 0, 2)),
                list_of(vec![intlit(1, sub_range(r1, 7, 1))], sub_range(r1, 6, 3)),
                FileRange { file_id: FILE, range: r1 },
            ),
            bin(
                append(),
                list_of(vec![intlit(2, sub_range(r2, 1, 1))], sub_range(r2, 0, 3)),
                list_of(vec![intlit(1, sub_range(r2, 8, 1))], sub_range(r2, 7, 3)),
                FileRange { file_id: FILE, range: r2 },
            ),
            bin(
                append(),
                var("X", sub_range(r3, 0, 1)),
                list_of(vec![intlit(1, sub_range(r3, 6, 1))], sub_range(r3, 5, 3)),
                FileRange { file_id: FILE, range: r3 },
            ),
            atom("ok", fr(src, "ok.")),
        ],
    );
    let a1 = find_from(src, "0 + 42", 0);
    let a2 = find_from(src, "40 + 2", 0);
    let a3 = find_from(src, "X + 42", 0);
    let arith_ops = fun(
        "arith_ops",
        vec![
            bin(
                add(),
                intlit(0, sub_range(a1, 0, 1)),
                intlit(42, sub_range(a1, 4, 2)),
                FileRange { file_id: FILE, range: a1 },
            ),
            bin(
                add(),
                intlit(40, sub_range(a2, 0, 2)),
                intlit(2, sub_range(a2, 5, 1)),
                FileRange { file_id: FILE, range: a2 },
            ),
            bin(
                add(),
                var("X", sub_range(a3, 0, 1)),
                intlit(42, sub_range(a3, 4, 2)),
                FileRange { file_id: FILE, range: a3 },
            ),
            atom("ok", fr(src, "ok.")),
        ],
    );
    let first_andalso = find_from(src, "true andalso X", 0);
    let second_andalso = find_from(src, "true andalso X", first_andalso.end as usize);
    let ore = find_from(src, "false orelse X", 0);
    let sc = fun(
        "short_circuit_boolean_ops",
        vec![
            bin(
                andalso(),
                atom("true", sub_range(first_andalso, 0, 4)),
                var("X", sub_range(first_andalso, 13, 1)),
                FileRange { file_id: FILE, range: first_andalso },
            ),
            bin(
                orelse(),
                atom("false", sub_range(ore, 0, 5)),
                var("X", sub_range(ore, 13, 1)),
                FileRange { file_id: FILE, range: ore },
            ),
            unop(UnaryOp::Not, atom("false", fr_n(src, "false)", 5)), fr(src, "not false")),
            unop(UnaryOp::Not, atom("true", fr_n(src, "true)", 4)), fr(src, "not true")),
            bin(
                andalso(),
                atom("true", sub_range(second_andalso, 0, 4)),
                var("X", sub_range(second_andalso, 13, 1)),
                FileRange { file_id: FILE, range: second_andalso },
            ),
            atom("ok", fr(src, "ok.")),
        ],
    );
    let f = fun("f", vec![var("X", fr(src, "f(X) -> X."))]);
    let view = view_of(src, vec![list_ops, arith_ops, sc, f]);
    let diags = run(&view);
    assert_eq!(diags.len(), 7);
    assert_eq!(msg(&diags[0]), "Can be simplified to `[1]`.");
    assert_eq!(diags[0].range, find_from(src, "[] ++ [1]", 0));
    assert_eq!(msg(&diags[1]), "Can be simplified to `42`.");
    assert_eq!(diags[1].range, find_from(src, "0 + 42", 0));
    assert_eq!(msg(&diags[2]), "Can be simplified to `X`.");
    assert_eq!(diags[2].range, first_andalso);
    assert_eq!(msg(&diags[3]), "Can be simplified to `X`.");
    assert_eq!(msg(&diags[4]), "Can be simplified to `true`.");
    assert_eq!(msg(&diags[5]), "Can be simplified to `false`.");
    assert_eq!(msg(&diags[6]), "Can be simplified to `X`.");
    assert_eq!(diags[6].range, second_andalso);
}

#[test]
fn not_in_macro() {
    let src = r#"
            -module(main).
            -define(SOME_CONST, 1).

            foo() -> ?SOME_CONST * 1_024.
            "#;
    let mul = bin(
        BinaryOp::ArithOp(ArithOp::Mul),
        node(
            ExprKind::MacroCall {
                name: "SOME_CONST".to_string(),
                expansion: Box::new(intlit(1, fr(src, "1)"))),
            },
            fr(src, "?SOME_CONST"),
        ),
        intlit(1024, fr(src, "1_024")),
        fr(src, "?SOME_CONST * 1_024"),
    );
    let view = view_of(src, vec![fun("foo", vec![mul])]);
    assert_eq!(run(&view).len(), 0);
}

fn check_fix_single(content: &str, e: ExprNode, expected: &str) {
    let view = view_of(content, vec![fun("f", vec![e])]);
    let diags = run(&view);
    assert_eq!(diags.len(), 1);
    assert_eq!(apply_first_fix(content, &diags[0]), expected);
}

#[test]
fn test_fixes_list_ops() {
    let s = "f(X) -> [] ++ X.";
    check_fix_single(
        s,
        bin(append(), empty_list(fr(s, "[]")), var("X", fr_n(s, "X.", 1)), fr(s, "[] ++ X")),
        "f(X) -> X.",
    );
    let s = "f(X) -> X ++ [].";
    check_fix_single(
        s,
        bin(append(), var("X", fr_n(s, "X ++", 1)), empty_list(fr_n(s, "[].", 2)), fr(s, "X ++ []")),
        "f(X) -> X.",
    );
    let s = "f(X) -> [] -- X.";
    check_fix_single(
        s,
        bin(subtract(), empty_list(fr(s, "[]")), var("X", fr_n(s, "X.", 1)), fr(s, "[] -- X")),
        "f(X) -> [].",
    );
    let s = "f(X) -> X -- [].";
    check_fix_single(
        s,
        bin(subtract(), var("X", fr_n(s, "X --", 1)), empty_list(fr_n(s, "[].", 2)), fr(s, "X -- []")),
        "f(X) -> X.",
    );
}

#[test]
fn test_fixes_arith_ops() {
    let s = "f(X) -> 0 + X.";
    check_fix_single(
        s,
        bin(add(), intlit(0, fr_n(s, "0", 1)), var("X", fr_n(s, "X.", 1)), fr(s, "0 + X")),
        "f(X) -> X.",
    );
    let s = "f(X) -> X + 0.";
    check_fix_single(
        s,
        bin(add(), var("X", fr_n(s, "X +", 1)), intlit(0, fr_n(s, "0.", 1)), fr(s, "X + 0")),
        "f(X) -> X.",
    );
    let s = "f(X) -> 0 - X.";
    check_fix_single(
        s,
        bin(
            BinaryOp::ArithOp(ArithOp::Sub),
            intlit(0, fr_n(s, "0", 1)),
            var("X", fr_n(s, "X.", 1)),
            fr(s, "0 - X"),
        ),
        "f(X) -> -X.",
    );
    let s = "f(X) -> X - 0.";
    check_fix_single(
        s,
        bin(
            BinaryOp::ArithOp(ArithOp::Sub),
            var("X", fr_n(s, "X -", 1)),
            intlit(0, fr_n(s, "0.", 1)),
            fr(s, "X - 0"),
        ),
        "f(X) -> X.",
    );
    let s = "f(X) -> 1 * X.";
    check_fix_single(
        s,
        bin(
            BinaryOp::ArithOp(ArithOp::Mul),
            intlit(1, fr_n(s, "1", 1)),
            var("X", fr_n(s, "X.", 1)),
            fr(s, "1 * X"),
        ),
        "f(X) -> X.",
    );
    let s = "f(X) -> X * 1.";
    check_fix_single(
        s,
        bin(
            BinaryOp::ArithOp(ArithOp::Mul),
            var("X", fr_n(s, "X *", 1)),
            intlit(1, fr_n(s, "1.", 1)),
            fr(s, "X * 1"),
        ),
        "f(X) -> X.",
    );
    let s = "f(X) -> X div 1.";
    check_fix_single(
        s,
        bin(
            BinaryOp::ArithOp(ArithOp::Div),
            var("X", fr_n(s, "X div", 1)),
            intlit(1, fr_n(s, "1.", 1)),
            fr(s, "X div 1"),
        ),
        "f(X) -> X.",
    );
    let s = "f(X) -> X rem 1.";
    check_fix_single(
        s,
        bin(
            BinaryOp::ArithOp(ArithOp::Rem),
            var("X", fr_n(s, "X rem", 1)),
            intlit(1, fr_n(s, "1.", 1)),
            fr(s, "X rem 1"),
        ),
        "f(X) -> 0.",
    );
}

#[test]
fn test_fixes_short_circuit_bool_ops() {
    let s = "f(X) -> true andalso X.";
    check_fix_single(
        s,
        bin(
            andalso(),
            atom("true", fr(s, "true")),
            var("X", fr_n(s, "X.", 1)),
            fr(s, "true andalso X"),
        ),
        "f(X) -> X.",
    );
    let s = "f(X) -> false orelse X.";
    check_fix_single(
        s,
        bin(
            orelse(),
            atom("false", fr(s, "false")),
            var("X", fr_n(s, "X.", 1)),
            fr(s, "false orelse X"),
        ),
        "f(X) -> X.",
    );
    let s = "f(X) -> not false.";
    check_fix_single(
        s,
        unop(UnaryOp::Not, atom("false", fr(s, "false")), fr(s, "not false")),
        "f(X) -> true.",
    );
    let s = "f(X) -> not true.";
    check_fix_single(
        s,
        unop(UnaryOp::Not, atom("true", fr(s, "true")), fr(s, "not true")),
        "f(X) -> false.",
    );
}
