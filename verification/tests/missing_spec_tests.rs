//! The missing compile-option rule: detection, fixes and suppression.

use elp_core::base::FileId;
use elp_core::base::TextRange;
use elp_core::diagnostics::Diagnostic;
use elp_core::diagnostics::DiagnosticCode;
use elp_core::missing_compile_warn_missing_spec::missing_compile_warn_missing_spec;
use elp_core::registry::DiagnosticsConfig;
use elp_core::registry::diagnostics_for_file;
use elp_core::view::CompileAttribute;
use elp_core::view::FileKind;
use elp_core::view::FileView;
use elp_core::view::ModuleAttribute;
use elp_core::view::Term;

const FILE: FileId = FileId(7);

fn range_of(s: &str, needle: &str) -> TextRange {
    let at = s.find(needle).expect("needle present");
    TextRange { start: at as u32, end: (at + needle.len()) as u32 }
}

fn module_attr(s: &str) -> Option<ModuleAttribute> {
    let r = range_of(s, "-module(main).");
    let name_r = range_of(s, "main");
    Some(ModuleAttribute { name: "main".to_string(), range: r, name_range: name_r })
}

fn atom_term(s: &str, name: &str) -> Term {
    Term::Atom { name: name.to_string(), range: range_of(s, name) }
}

fn view_of(
    content: &str,
    file_kind: FileKind,
    module_attribute: Option<ModuleAttribute>,
    compile_attributes: Vec<CompileAttribute>,
) -> FileView {
    FileView {
        file_id: FILE,
        content: content.as_bytes().to_vec(),
        file_kind,
        is_generated: false,
        module_attribute,
        file_name: "main".to_string(),
        compile_attributes,
        includes: vec![],
        exports: vec![],
        type_aliases: vec![],
        functions: vec![],
        comments: vec![],
    }
}

fn run(view: &FileView) -> Vec<Diagnostic> {
    let mut diags = Vec::new();
    missing_compile_warn_missing_spec(&mut diags, view);
    diags
}

const MSG: &str = "Please add \"-compile(warn_missing_spec_all).\" to the module. If exported functions are not all specced, they need to be specced.";

#[test]
fn no_compile_attribute() {
    let src = "-module(main).\n";
    let view = view_of(src, FileKind::SrcModule, module_attr(src), vec![]);
    let diags = run(&view);
    assert_eq!(diags.len(), 1);
    assert_eq!(diags[0].message, MSG);
    assert_eq!(diags[0].range, TextRange { start: 0, end: 0 });
}

#[test]
fn compile_attribute_missing_setting() {
    let src = "-module(main).\n\n-compile([export_all, nowarn_export_all]).\n";
    let attr_r = range_of(src, "-compile([export_all, nowarn_export_all]).");
    let value_r = range_of(src, "[export_all, nowarn_export_all]");
    let attr = CompileAttribute {
        value: Term::List(vec![atom_term(src, "export_all"), atom_term(src, "nowarn_export_all")]),
        range: attr_r,
        value_range: value_r,
    };
    let view = view_of(src, FileKind::SrcModule, module_attr(src), vec![attr]);
    let diags = run(&view);
    assert_eq!(diags.len(), 1);
    assert_eq!(diags[0].range, attr_r);
    // the fix extends the existing list
    let fixed = diags[0].fixes[0].source_change.apply(&src.as_bytes().to_vec());
    assert_eq!(
        String::from_utf8(fixed).unwrap(),
        "-module(main).\n\n-compile([export_all, nowarn_export_all, warn_missing_spec_all]).\n"
    );
}

#[test]
fn warn_missing_spec_not_ok() {
    let src = "-module(main).\n\n-compile(warn_missing_spec).\n";
    let attr = CompileAttribute {
        value: atom_term(src, "warn_missing_spec"),
        range: range_of(src, "-compile(warn_missing_spec)."),
        value_range: range_of(src, "warn_missing_spec"),
    };
    let view = view_of(src, FileKind::SrcModule, module_attr(src), vec![attr]);
    let diags = run(&view);
    assert_eq!(diags.len(), 1);
    // upgrade fix renames the weak option in place
    let fixed = diags[0].fixes[0].source_change.apply(&src.as_bytes().to_vec());
    assert_eq!(
        String::from_utf8(fixed).unwrap(),
        "-module(main).\n\n-compile(warn_missing_spec_all).\n"
    );
}

#[test]
fn nowarn_missing_spec_not_ok() {
    let src = "-module(main).\n\n-compile(nowarn_missing_spec).\n";
    let attr = CompileAttribute {
        value: atom_term(src, "nowarn_missing_spec"),
        range: range_of(src, "-compile(nowarn_missing_spec)."),
        value_range: range_of(src, "nowarn_missing_spec"),
    };
    let view = view_of(src, FileKind::SrcModule, module_attr(src), vec![attr]);
    assert_eq!(run(&view).len(), 1);
}

#[test]
fn warn_missing_spec_all_ok() {
    let src = "-module(main).\n\n-compile(warn_missing_spec_all).\n";
    let attr = CompileAttribute {
        value: atom_term(src, "warn_missing_spec_all"),
        range: range_of(src, "-compile(warn_missing_spec_all)."),
        value_range: range_of(src, "warn_missing_spec_all"),
    };
    let view = view_of(src, FileKind::SrcModule, module_attr(src), vec![attr]);
    assert_eq!(run(&view).len(), 0);
}

#[test]
fn nowarn_missing_spec_all_ok() {
    let src = "-module(main).\n\n-compile(nowarn_missing_spec_all).\n";
    let attr = CompileAttribute {
        value: atom_term(src, "nowarn_missing_spec_all"),
        range: range_of(src, "-compile(nowarn_missing_spec_all)."),
        value_range: range_of(src, "nowarn_missing_spec_all"),
    };
    let view = view_of(src, FileKind::SrcModule, module_attr(src), vec![attr]);
    assert_eq!(run(&view).len(), 0);
}

#[test]
fn more_than_one_compile_attribute_1() {
    let src = "-module(main).\n\n-compile(warn_missing_spec_all).\n-compile([export_all, nowarn_export_all]).\n";
    let a1 = CompileAttribute {
        value: atom_term(src, "warn_missing_spec_all"),
        range: range_of(src, "-compile(warn_missing_spec_all)."),
        value_range: range_of(src, "warn_missing_spec_all"),
    };
    let a2 = CompileAttribute {
        value: Term::List(vec![atom_term(src, "export_all"), atom_term(src, "nowarn_export_all")]),
        range: range_of(src, "-compile([export_all, nowarn_export_all])."),
        value_range: range_of(src, "[export_all, nowarn_export_all]"),
    };
    let view = view_of(src, FileKind::SrcModule, module_attr(src), vec![a1, a2]);
    assert_eq!(run(&view).len(), 0);
}

#[test]
fn more_than_one_compile_attribute_2() {
    let src = "-module(main).\n\n-compile(export_all).\n-compile(nowarn_export_all).\n";
    let a1 = CompileAttribute {
        value: atom_term(src, "export_all"),
        range: range_of(src, "-compile(export_all)."),
        value_range: range_of(src, "export_all"),
    };
    let a2 = CompileAttribute {
        value: atom_term(src, "nowarn_export_all"),
        range: range_of(src, "-compile(nowarn_export_all)."),
        value_range: range_of(src, "nowarn_export_all"),
    };
    let view = view_of(src, FileKind::SrcModule, module_attr(src), vec![a1, a2]);
    let diags = run(&view);
    assert_eq!(diags.len(), 1);
    // reported on the first compile attribute
    assert_eq!(diags[0].range, range_of(src, "-compile(export_all)."));
}

#[test]
fn more_than_one_compile_attribute_3() {
    let src = "-module(main).\n-compile({nowarn_deprecated_function, {erlang,get_stacktrace,0}}).\n-compile([\n    warn_missing_spec_all,\n    export_all,\n    nowarn_export_all\n    ]).\n";
    let a1 = CompileAttribute {
        value: Term::Tuple(vec![
            atom_term(src, "nowarn_deprecated_function"),
            Term::Tuple(vec![
                atom_term(src, "erlang"),
                atom_term(src, "get_stacktrace"),
                Term::Int(0),
            ]),
        ]),
        range: range_of(src, "-compile({nowarn_deprecated_function, {erlang,get_stacktrace,0}})."),
        value_range: range_of(src, "{nowarn_deprecated_function, {erlang,get_stacktrace,0}}"),
    };
    let a2 = CompileAttribute {
        value: Term::List(vec![
            atom_term(src, "warn_missing_spec_all"),
            atom_term(src, "export_all"),
            atom_term(src, "nowarn_export_all"),
        ]),
        range: range_of(src, "-compile([\n    warn_missing_spec_all,\n    export_all,\n    nowarn_export_all\n    ])."),
        value_range: range_of(src, "[\n    warn_missing_spec_all,\n    export_all,\n    nowarn_export_all\n    ]"),
    };
    let view = view_of(src, FileKind::SrcModule, module_attr(src), vec![a1, a2]);
    assert_eq!(run(&view).len(), 0);
}

#[test]
fn not_in_header_file() {
    let src = "-define(OK, ok).\n";
    let view = view_of(src, FileKind::Header, None, vec![]);
    assert_eq!(run(&view).len(), 0);
}

#[test]
fn not_in_test_or_extra_file() {
    let src = "-module(my_SUITE).\n-export([all/0]).\nall() -> [].\n";
    let view = view_of(src, FileKind::TestModule, None, vec![]);
    // the rule itself would fire, but its registered conditions exclude
    // test files, so the registry never runs it there
    let config = DiagnosticsConfig::new().enable(DiagnosticCode::MissingCompileWarnMissingSpec);
    let diags = diagnostics_for_file(&view, &config);
    assert!(diags.iter().all(|d| d.code != DiagnosticCode::MissingCompileWarnMissingSpec));
}

#[test]
fn compile_attribute_missing_setting_no_explict_enable() {
    let src = "-module(main).\n\n-compile([export_all, nowarn_export_all]).\n";
    let attr = CompileAttribute {
        value: Term::List(vec![atom_term(src, "export_all"), atom_term(src, "nowarn_export_all")]),
        range: range_of(src, "-compile([export_all, nowarn_export_all])."),
        value_range: range_of(src, "[export_all, nowarn_export_all]"),
    };
    let view = view_of(src, FileKind::SrcModule, module_attr(src), vec![attr]);
    // disabled by default: without an explicit enable the registry skips it
    let config = DiagnosticsConfig::new();
    let diags = diagnostics_for_file(&view, &config);
    assert!(diags.iter().all(|d| d.code != DiagnosticCode::MissingCompileWarnMissingSpec));
}

#[test]
fn applies_fix_no_attribute() {
    let src = "-module(main).\n\n%% a comment";
    let view = view_of(src, FileKind::SrcModule, module_attr(src), vec![]);
    let diags = run(&view);
    assert_eq!(diags.len(), 1);
    let fixed = diags[0].fixes[0].source_change.apply(&src.as_bytes().to_vec());
    assert_eq!(
        String::from_utf8(fixed).unwrap(),
        "-module(main).\n\n-compile([warn_missing_spec_all]).\n\n%% a comment"
    );
}

#[test]
fn applies_fix_existing_attribute_atom() {
    let src = "-module(main).\n\n-compile(export_all).\n";
    let attr = CompileAttribute {
        value: atom_term(src, "export_all"),
        range: range_of(src, "-compile(export_all)."),
        value_range: range_of(src, "export_all"),
    };
    let view = view_of(src, FileKind::SrcModule, module_attr(src), vec![attr]);
    let diags = run(&view);
    let fixed = diags[0].fixes[0].source_change.apply(&src.as_bytes().to_vec());
    assert_eq!(
        String::from_utf8(fixed).unwrap(),
        "-module(main).\n\n-compile([export_all, warn_missing_spec_all]).\n"
    );
}

#[test]
fn applies_fix_existing_attribute_tuple() {
    let src = "-module(main).\n\n-compile({foo, bar}).\n";
    let attr = CompileAttribute {
        value: Term::Tuple(vec![atom_term(src, "foo"), atom_term(src, "bar")]),
        range: range_of(src, "-compile({foo, bar})."),
        value_range: range_of(src, "{foo, bar}"),
    };
    let view = view_of(src, FileKind::SrcModule, module_attr(src), vec![attr]);
    let diags = run(&view);
    let fixed = diags[0].fixes[0].source_change.apply(&src.as_bytes().to_vec());
    assert_eq!(
        String::from_utf8(fixed).unwrap(),
        "-module(main).\n\n-compile([{foo, bar}, warn_missing_spec_all]).\n"
    );
}

#[test]
fn applies_fix_upgrade_to_all() {
    let src = "-module(main).\n\n-compile(warn_missing_spec).\n";
    let attr = CompileAttribute {
        value: atom_term(src, "warn_missing_spec"),
        range: range_of(src, "-compile(warn_missing_spec)."),
        value_range: range_of(src, "warn_missing_spec"),
    };
    let view = view_of(src, FileKind::SrcModule, module_attr(src), vec![attr]);
    let diags = run(&view);
    let fixed = diags[0].fixes[0].source_change.apply(&src.as_bytes().to_vec());
    assert_eq!(
        String::from_utf8(fixed).unwrap(),
        "-module(main).\n\n-compile(warn_missing_spec_all).\n"
    );
}

#[test]
fn applies_fix_elp_ignore_module_level() {
    let src = "\n-module(main).\n";
    let view = view_of(src, FileKind::SrcModule, module_attr(src), vec![]);
    let diags = run(&view);
    assert_eq!(diags.len(), 1);
    // the second fix is the suppression annotation, placed right after
    // the module declaration
    let fixed = diags[0].fixes[1].source_change.apply(&src.as_bytes().to_vec());
    assert_eq!(
        String::from_utf8(fixed).unwrap(),
        "\n-module(main).\n% elp:ignore W0012 (compile-warn-missing-spec)\n"
    );
}

#[test]
fn applies_fix_elp_ignore_module_level_header_comments_no_module_attribute() {
    let src = "%% a comment at the\n%% top of the file\n";
    let view = view_of(src, FileKind::SrcModule, None, vec![]);
    let diags = run(&view);
    assert_eq!(diags.len(), 1);
    // without a module declaration the annotation goes after the
    // leading header comments
    let fixed = diags[0].fixes[1].source_change.apply(&src.as_bytes().to_vec());
    assert_eq!(
        String::from_utf8(fixed).unwrap(),
        "%% a comment at the\n%% top of the file\n% elp:ignore W0012 (compile-warn-missing-spec)\n"
    );
}

#[test]
fn ignore_is_honoured() {
    let src = "% elp:ignore W0012 (compile-warn-missing-spec)\n%% a comment at the\n%% top of the file\n";
    let view = view_of(src, FileKind::SrcModule, None, vec![]);
    let config = DiagnosticsConfig::new().enable(DiagnosticCode::MissingCompileWarnMissingSpec);
    let diags = diagnostics_for_file(&view, &config);
    assert!(diags.iter().all(|d| d.code != DiagnosticCode::MissingCompileWarnMissingSpec));
}

#[test]
fn suppression_fix_round_trip() {
    // any reported finding carries a suppression fix; applying it and
    // re-running the analysis yields no finding of that code there
    let src = "-module(main).\n";
    let view = view_of(src, FileKind::SrcModule, module_attr(src), vec![]);
    let config = DiagnosticsConfig::new().enable(DiagnosticCode::MissingCompileWarnMissingSpec);
    let diags = diagnostics_for_file(&view, &config);
    assert!(diags.iter().any(|d| d.code == DiagnosticCode::MissingCompileWarnMissingSpec));
    let d = diags.iter().find(|d| d.code == DiagnosticCode::MissingCompileWarnMissingSpec).unwrap();
    let ignore = d.fixes.iter().find(|f| f.id == "ignore_problem").unwrap();
    let new_src = ignore.source_change.apply(&src.as_bytes().to_vec());
    let new_text = String::from_utf8(new_src).unwrap();
    let module_r = TextRange {
        start: new_text.find("-module(main).").unwrap() as u32,
        end: (new_text.find("-module(main).").unwrap() + "-module(main).".len()) as u32,
    };
    let name_at = new_text.find("main").unwrap() as u32;
    let view2 = view_of(
        &new_text,
        FileKind::SrcModule,
        Some(ModuleAttribute {
            name: "main".to_string(),
            range: module_r,
            name_range: TextRange { start: name_at, end: name_at + 4 },
        }),
        vec![],
    );
    let diags2 = diagnostics_for_file(&view2, &config);
    assert!(diags2.iter().all(|d| d.code != DiagnosticCode::MissingCompileWarnMissingSpec));
}

#[test]
fn applies_fix_existing_attribute_list() {
    let src = "-module(main).\n\n-compile([export_all, nowarn_export_all]).\n";
    let attr = CompileAttribute {
        value: Term::List(vec![atom_term(src, "export_all"), atom_term(src, "nowarn_export_all")]),
        range: range_of(src, "-compile([export_all, nowarn_export_all])."),
        value_range: range_of(src, "[export_all, nowarn_export_all]"),
    };
    let view = view_of(src, FileKind::SrcModule, module_attr(src), vec![attr]);
    let diags = run(&view);
    let fixed = diags[0].fixes[0].source_change.apply(&src.as_bytes().to_vec());
    assert_eq!(
        String::from_utf8(fixed).unwrap(),
        "-module(main).\n\n-compile([export_all, nowarn_export_all, warn_missing_spec_all]).\n"
    );
}

#[test]
fn applies_fix_elp_ignore_module_level_header_comments() {
    let src = "%% a comment at the\n%% top of the file\n\n-module(main).\n";
    let view = view_of(src, FileKind::SrcModule, module_attr(src), vec![]);
    let diags = run(&view);
    assert_eq!(diags.len(), 1);
    // the annotation goes right after the module declaration, below
    // the header comments
    let fixed = diags[0].fixes[1].source_change.apply(&src.as_bytes().to_vec());
    assert_eq!(
        String::from_utf8(fixed).unwrap(),
        "%% a comment at the\n%% top of the file\n\n-module(main).\n% elp:ignore W0012 (compile-warn-missing-spec)\n"
    );
}

#[test]
fn suppression_round_trip_with_header_comments() {
    // a whole-file finding in a file whose module declaration sits
    // below header comments: applying the suppression fix and
    // re-analyzing must silence the finding
    let src = "%% a comment at the\n%% top of the file\n\n-module(main).\n";
    let view = view_of(src, FileKind::SrcModule, module_attr(src), vec![]);
    let config = DiagnosticsConfig::new().enable(DiagnosticCode::MissingCompileWarnMissingSpec);
    let diags = diagnostics_for_file(&view, &config);
    let d = diags.iter().find(|d| d.code == DiagnosticCode::MissingCompileWarnMissingSpec).unwrap();
    let ignore = d.fixes.iter().find(|f| f.id == "ignore_problem").unwrap();
    let new_src = ignore.source_change.apply(&src.as_bytes().to_vec());
    let new_text = String::from_utf8(new_src).unwrap();
    let module_at = new_text.find("-module(main).").unwrap() as u32;
    let name_at = new_text.find("main").unwrap() as u32;
    let view2 = view_of_str(
        &new_text,
        Some(ModuleAttribute {
            name: "main".to_string(),
            range: TextRange { start: module_at, end: module_at + 14 },
            name_range: TextRange { start: name_at, end: name_at + 4 },
        }),
    );
    let diags2 = diagnostics_for_file(&view2, &config);
    assert!(diags2.iter().all(|d| d.code != DiagnosticCode::MissingCompileWarnMissingSpec));
}

fn view_of_str(content: &str, module_attribute: Option<ModuleAttribute>) -> FileView {
    view_of(content, FileKind::SrcModule, module_attribute, vec![])
}
