//! The oracle adapter and the supplementary oracle analyses.

use elp_core::base::FileId;
use elp_core::base::FileRange;
use elp_core::base::TextRange;
use elp_core::diagnostics::Diagnostic;
use elp_core::diagnostics::DiagnosticCode;
use elp_core::eqwalizer_analyses::ExternalForm;
use elp_core::eqwalizer_analyses::Fixme;
use elp_core::eqwalizer_analyses::Pos;
use elp_core::eqwalizer_analyses::escape_hatches;
use elp_core::eqwalizer_analyses::overloaded_specs;
use elp_core::expected_type::EqwalizerDiagnostic;
use elp_core::expected_type::ExpectedSubtype;
use elp_core::expected_type::StructuredDiagnostic;
use elp_core::expected_type::Type;
use elp_core::expected_type::TypeError;
use elp_core::expected_type::expected_type;
use elp_core::view::FileKind;
use elp_core::view::FileView;
use elp_core::view::FunctionClause;
use elp_core::view::FunctionDef;
use elp_core::view::SpecDef;
use elp_core::view::SpecSig;
use elp_core::view::TypeExprKind;
use elp_core::view::TypeExprNode;

const FILE: FileId = FileId(9);

fn find(s: &str, needle: &str) -> TextRange {
    let at = s.find(needle).expect("needle present");
    TextRange { start: at as u32, end: (at + needle.len()) as u32 }
}

fn view_with_spec(content: &str, fun_decl: &str, result_slot: &str) -> FileView {
    let fun_range = find(content, fun_decl);
    FileView {
        file_id: FILE,
        content: content.as_bytes().to_vec(),
        file_kind: FileKind::SrcModule,
        is_generated: false,
        module_attribute: None,
        file_name: "bar".to_string(),
        compile_attributes: vec![],
        includes: vec![],
        exports: vec![],
        type_aliases: vec![],
        functions: vec![FunctionDef {
            name: "baz".to_string(),
            arity: 0,
            exported: false,
            range: fun_range,
            clauses: vec![FunctionClause { pats: vec![], body: vec![], range: fun_range }],
            spec_def: Some(SpecDef {
                sigs: vec![SpecSig {
                    result: TypeExprNode {
                        range: FileRange { file_id: FILE, range: find(content, result_slot) },
                        kind: TypeExprKind::AtomLit(result_slot.to_string()),
                    },
                }],
                range: find(content, "-spec"),
            }),
        }],
        comments: vec![],
    }
}

fn oracle_diag(src: &str, anchored: &str, expected: Type, got: Type) -> EqwalizerDiagnostic {
    EqwalizerDiagnostic {
        range: find(src, anchored),
        message: "incompatible_types".to_string(),
        uri: String::new(),
        code: "eqwalizer".to_string(),
        expression: None,
        explanation: None,
        diagnostic: Some(StructuredDiagnostic::TypeError {
            error: TypeError::ExpectedSubtype(ExpectedSubtype { expected, got }),
        }),
    }
}

fn mismatched_atom_diag(src: &str) -> Diagnostic {
    let view = view_with_spec(src, "baz() -> something_else.", "spec_atom");
    let d = oracle_diag(
        src,
        "something_else",
        Type::AtomLit("spec_atom".to_string()),
        Type::AtomLit("something_else".to_string()),
    );
    let mut diagnostic = Diagnostic::new(
        DiagnosticCode::ModuleMismatch,
        "eqwalizer: incompatible_types".to_string(),
        d.range,
    );
    expected_type(&view, &d, &mut diagnostic);
    diagnostic
}

const MISMATCHED_ATOM_SRC: &str = "-module(bar).\n\n-spec baz() -> spec_atom.\nbaz() -> something_else.\n";

#[test]
fn mismatched_atom() {
    // oracle: expected atom differs from the actual atom — exactly two
    // fixes: rewrite the returned value, or the declared result type
    let diagnostic = mismatched_atom_diag(MISMATCHED_ATOM_SRC);
    assert_eq!(diagnostic.fixes.len(), 2);
    assert_eq!(diagnostic.fixes[0].label, "Update returned value to 'spec_atom'");
    assert_eq!(diagnostic.fixes[1].label, "Update function spec to return 'something_else'");
}

#[test]
fn mismatched_atom_fix_return() {
    let diagnostic = mismatched_atom_diag(MISMATCHED_ATOM_SRC);
    let returned = diagnostic.fixes[0].source_change.apply(&MISMATCHED_ATOM_SRC.as_bytes().to_vec());
    assert_eq!(
        String::from_utf8(returned).unwrap(),
        "-module(bar).\n\n-spec baz() -> spec_atom.\nbaz() -> spec_atom.\n"
    );
}

#[test]
fn mismatched_atom_fix_spec() {
    let diagnostic = mismatched_atom_diag(MISMATCHED_ATOM_SRC);
    let spec_fixed = diagnostic.fixes[1].source_change.apply(&MISMATCHED_ATOM_SRC.as_bytes().to_vec());
    assert_eq!(
        String::from_utf8(spec_fixed).unwrap(),
        "-module(bar).\n\n-spec baz() -> something_else.\nbaz() -> something_else.\n"
    );
}

#[test]
fn mismatched_tuple_fix_return() {
    let src = "-module(bar).\n\n-spec baz() -> {ok, number()}.\nbaz() -> 53.\n";
    let fun_range = find(src, "baz() -> 53.");
    let view = FileView {
        file_id: FILE,
        content: src.as_bytes().to_vec(),
        file_kind: FileKind::SrcModule,
        is_generated: false,
        module_attribute: None,
        file_name: "bar".to_string(),
        compile_attributes: vec![],
        includes: vec![],
        exports: vec![],
        type_aliases: vec![],
        functions: vec![FunctionDef {
            name: "baz".to_string(),
            arity: 0,
            exported: false,
            range: fun_range,
            clauses: vec![FunctionClause { pats: vec![], body: vec![], range: fun_range }],
            spec_def: Some(SpecDef {
                sigs: vec![SpecSig {
                    result: TypeExprNode {
                        range: FileRange { file_id: FILE, range: find(src, "{ok, number()}") },
                        kind: TypeExprKind::Tuple {
                            args: vec![
                                TypeExprNode {
                                    range: FileRange { file_id: FILE, range: find(src, "ok") },
                                    kind: TypeExprKind::AtomLit("ok".to_string()),
                                },
                                TypeExprNode {
                                    range: FileRange {
                                        file_id: FILE,
                                        range: find(src, "number()"),
                                    },
                                    kind: TypeExprKind::Call { name: "number".to_string() },
                                },
                            ],
                        },
                    },
                }],
                range: find(src, "-spec"),
            }),
        }],
        comments: vec![],
    };
    let d = oracle_diag(
        src,
        "53",
        Type::Tuple(vec![
            Type::AtomLit("ok".to_string()),
            Type::Other("number()".to_string()),
        ]),
        Type::Other("number()".to_string()),
    );
    let mut diagnostic = Diagnostic::new(
        DiagnosticCode::ModuleMismatch,
        "eqwalizer: incompatible_types".to_string(),
        d.range,
    );
    expected_type(&view, &d, &mut diagnostic);
    assert_eq!(diagnostic.fixes.len(), 2);
    assert_eq!(diagnostic.fixes[0].label, "Update returned value to '{ok, 53}'");
    let returned = diagnostic.fixes[0].source_change.apply(&src.as_bytes().to_vec());
    assert_eq!(
        String::from_utf8(returned).unwrap(),
        "-module(bar).\n\n-spec baz() -> {ok, number()}.\nbaz() -> {ok, 53}.\n"
    );
    let spec_fixed = diagnostic.fixes[1].source_change.apply(&src.as_bytes().to_vec());
    assert_eq!(
        String::from_utf8(spec_fixed).unwrap(),
        "-module(bar).\n\n-spec baz() -> number().\nbaz() -> 53.\n"
    );
}

#[test]
fn unshaped_mismatch_offers_no_fix() {
    let src = "-module(bar).\n\n-spec baz() -> [a].\nbaz() -> [b].\n";
    let view = view_with_spec(src, "baz() -> [b].", "[a]");
    let d = oracle_diag(
        src,
        "[b]",
        Type::Other("[a]".to_string()),
        Type::Other("[b]".to_string()),
    );
    let mut diagnostic = Diagnostic::new(
        DiagnosticCode::ModuleMismatch,
        "eqwalizer: incompatible_types".to_string(),
        d.range,
    );
    expected_type(&view, &d, &mut diagnostic);
    assert_eq!(diagnostic.fixes.len(), 0);
}

#[test]
fn escape_hatches_report_markers() {
    let ast = vec![
        ExternalForm::ElpMetadata {
            fixmes: vec![
                Fixme { comment: TextRange { start: 0, end: 17 }, is_ignore: false },
                Fixme { comment: TextRange { start: 20, end: 38 }, is_ignore: true },
            ],
        },
        ExternalForm::Other,
        ExternalForm::EqwalizerNowarnFunction {
            pos: Pos::TextRange(TextRange { start: 40, end: 60 }),
        },
    ];
    let mut diags = Vec::new();
    escape_hatches(&mut diags, &ast);
    assert_eq!(diags.len(), 3);
    assert_eq!(diags[0].message, "%eqwalizer:fixme escape hatch");
    assert_eq!(diags[0].code, "eqwalizer_fixme");
    assert_eq!(diags[1].message, "%eqwalizer:ignore escape hatch");
    assert_eq!(diags[1].code, "eqwalizer_ignore");
    assert_eq!(diags[2].message, "-eqwalizer({nowarn_function, ...}) escape hatch");
    assert_eq!(diags[2].code, "eqwalizer_nowarn");
}

#[test]
fn overloaded_specs_report_multi_signature_functions() {
    let ast = vec![
        ExternalForm::ExternalFunSpec {
            pos: Pos::TextRange(TextRange { start: 5, end: 25 }),
            types_count: 2,
        },
        ExternalForm::ExternalFunSpec {
            pos: Pos::TextRange(TextRange { start: 30, end: 50 }),
            types_count: 1,
        },
        ExternalForm::ExternalFunSpec { pos: Pos::LineAndColumn, types_count: 3 },
    ];
    let mut diags = Vec::new();
    overloaded_specs(&mut diags, &ast);
    assert_eq!(diags.len(), 1);
    assert_eq!(diags[0].message, "overloaded spec");
    assert_eq!(diags[0].code, "eqwalizer_overloaded_spec");
    assert_eq!(diags[0].range, TextRange { start: 5, end: 25 });
}

#[test]
fn mismatched_integer_fix_spec() {
    // anything in the declared result, a literal atom in the body: only
    // the signature rewrite is offered
    let src = "-module(bar).\n\n-spec foo() -> integer().\nfoo() -> ok.\n";
    let fun_range = find(src, "foo() -> ok.");
    let view = FileView {
        file_id: FILE,
        content: src.as_bytes().to_vec(),
        file_kind: FileKind::SrcModule,
        is_generated: false,
        module_attribute: None,
        file_name: "bar".to_string(),
        compile_attributes: vec![],
        includes: vec![],
        exports: vec![],
        type_aliases: vec![],
        functions: vec![FunctionDef {
            name: "foo".to_string(),
            arity: 0,
            exported: false,
            range: fun_range,
            clauses: vec![FunctionClause { pats: vec![], body: vec![], range: fun_range }],
            spec_def: Some(SpecDef {
                sigs: vec![SpecSig {
                    result: TypeExprNode {
                        range: FileRange { file_id: FILE, range: find(src, "integer()") },
                        kind: TypeExprKind::Call { name: "integer".to_string() },
                    },
                }],
                range: find(src, "-spec"),
            }),
        }],
        comments: vec![],
    };
    let d = oracle_diag(
        src,
        "ok.",
        Type::Other("integer()".to_string()),
        Type::AtomLit("ok".to_string()),
    );
    let d = EqwalizerDiagnostic { range: find(src, "ok.\n"), ..d };
    let mut diagnostic = Diagnostic::new(
        DiagnosticCode::ModuleMismatch,
        "eqwalizer: incompatible_types".to_string(),
        d.range,
    );
    expected_type(&view, &d, &mut diagnostic);
    assert_eq!(diagnostic.fixes.len(), 1);
    assert_eq!(diagnostic.fixes[0].label, "Update function spec to return 'ok'");
    let spec_fixed = diagnostic.fixes[0].source_change.apply(&src.as_bytes().to_vec());
    assert_eq!(
        String::from_utf8(spec_fixed).unwrap(),
        "-module(bar).\n\n-spec foo() -> ok.\nfoo() -> ok.\n"
    );
}
