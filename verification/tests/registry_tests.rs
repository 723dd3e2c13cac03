//! The rule registry: applicability, deterministic ordering, filtering.

use elp_core::base::FileId;
use elp_core::base::FileRange;
use elp_core::base::TextRange;
use elp_core::diagnostics::DiagnosticCode;
use elp_core::registry::DiagnosticsConfig;
use elp_core::registry::diagnostics_for_file;
use elp_core::view::ArithOp;
use elp_core::view::BinaryOp;
use elp_core::view::ExprKind;
use elp_core::view::ExprNode;
use elp_core::view::FileKind;
use elp_core::view::FileView;
use elp_core::view::FunctionClause;
use elp_core::view::FunctionDef;

const FILE: FileId = FileId(20);

fn find(s: &str, needle: &str) -> TextRange {
    let at = s.find(needle).expect("needle present");
    TextRange { start: at as u32, end: (at + needle.len()) as u32 }
}

fn simplifiable(src: &str, needle: &str) -> ExprNode {
    let r = find(src, needle);
    let lhs = ExprNode {
        range: FileRange { file_id: FILE, range: TextRange { start: r.start, end: r.start + 1 } },
        kind: ExprKind::IntLit(0),
    };
    let rhs = ExprNode {
        range: FileRange { file_id: FILE, range: TextRange { start: r.start + 4, end: r.end } },
        kind: ExprKind::IntLit(42),
    };
    ExprNode {
        range: FileRange { file_id: FILE, range: r },
        kind: ExprKind::BinaryOp {
            op: BinaryOp::ArithOp(ArithOp::Add),
            lhs: Box::new(lhs),
            rhs: Box::new(rhs),
        },
    }
}

fn view_of(content: &str, body: Vec<ExprNode>, is_generated: bool) -> FileView {
    FileView {
        file_id: FILE,
        content: content.as_bytes().to_vec(),
        file_kind: FileKind::SrcModule,
        is_generated,
        module_attribute: None,
        file_name: "sample".to_string(),
        compile_attributes: vec![],
        includes: vec![],
        exports: vec![],
        type_aliases: vec![],
        functions: vec![FunctionDef {
            name: "go".to_string(),
            arity: 0,
            exported: false,
            range: TextRange { start: 0, end: content.len() as u32 },
            clauses: vec![FunctionClause {
                pats: vec![],
                body,
                range: TextRange { start: 0, end: content.len() as u32 },
            }],
            spec_def: None,
        }],
        comments: vec![],
    }
}

#[test]
fn output_is_sorted_by_range() {
    let src = "go() -> h(0 + 42), g(0 + 41).\n";
    let first = simplifiable(src, "0 + 42");
    let second = simplifiable(src, "0 + 41");
    // present the later occurrence first: the registry still reports in
    // source order
    let view = view_of(src, vec![second, first], false);
    let config = DiagnosticsConfig::new();
    let diags = diagnostics_for_file(&view, &config);
    assert_eq!(diags.len(), 2);
    assert!(diags[0].range.start < diags[1].range.start);
}

#[test]
fn not_in_generated_file() {
    let src = "go() -> h(0 + 42).\n";
    let view = view_of(src, vec![simplifiable(src, "0 + 42")], true);
    let config = DiagnosticsConfig::new();
    let diags = diagnostics_for_file(&view, &config);
    assert!(diags.iter().all(|d| d.code != DiagnosticCode::ExpressionCanBeSimplified));
}

#[test]
fn explicit_disable_silences_a_rule() {
    let src = "go() -> h(0 + 42).\n";
    let view = view_of(src, vec![simplifiable(src, "0 + 42")], false);
    let config = DiagnosticsConfig::new().disable(DiagnosticCode::ExpressionCanBeSimplified);
    let diags = diagnostics_for_file(&view, &config);
    assert!(diags.iter().all(|d| d.code != DiagnosticCode::ExpressionCanBeSimplified));
}
