//! Export-list completion and the include-insertion helper.

use elp_core::base::FileId;
use elp_core::base::FilePosition;
use elp_core::base::TextRange;
use elp_core::completion::Completion;
use elp_core::completion::Contents;
use elp_core::completion::CtxKind;
use elp_core::completion::Fa;
use elp_core::completion::IncludeFile;
use elp_core::completion::Kind;
use elp_core::completion::completions;
use elp_core::view::FileKind;
use elp_core::view::FileView;
use elp_core::view::FunctionClause;
use elp_core::view::FunctionDef;
use elp_core::view::IncludeAttribute;
use elp_core::view::ModuleAttribute;
use elp_core::view::TypeAliasDef;

const FILE: FileId = FileId(12);

fn f(name: &str, arity: u32, exported: bool) -> FunctionDef {
    FunctionDef {
        name: name.to_string(),
        arity,
        exported,
        range: TextRange { start: 0, end: 0 },
        clauses: vec![FunctionClause {
            pats: vec![],
            body: vec![],
            range: TextRange { start: 0, end: 0 },
        }],
        spec_def: None,
    }
}

fn t(name: &str, arity: u32) -> TypeAliasDef {
    TypeAliasDef {
        name: name.to_string(),
        arity,
        exported: false,
        range: TextRange { start: 0, end: 0 },
    }
}

fn view_of(functions: Vec<FunctionDef>, type_aliases: Vec<TypeAliasDef>) -> FileView {
    FileView {
        file_id: FILE,
        content: Vec::new(),
        file_kind: FileKind::SrcModule,
        is_generated: false,
        module_attribute: None,
        file_name: "sample".to_string(),
        compile_attributes: vec![],
        includes: vec![],
        exports: vec![],
        type_aliases,
        functions,
        comments: vec![],
    }
}

fn render(cs: &[Completion]) -> String {
    cs.iter()
        .map(|c| {
            let contents = match &c.contents {
                Contents::SameAsLabel => "SameAsLabel".to_string(),
                Contents::String(s) => format!("String({:?})", s),
                Contents::Snippet(s) => format!("Snippet({:?})", s),
            };
            format!(
                "{{label:{}, kind:{:?}, contents:{}, position:{:?}}}",
                c.label, c.kind, contents, c.position
            )
        })
        .collect::<Vec<_>>()
        .join("\n")
}

fn prefix_fa(prefix: &str) -> Option<Fa> {
    Some(Fa { fun_text: Some(prefix.to_string()), arity: None })
}

fn pos() -> FilePosition {
    FilePosition { file_id: FILE, offset: 0 }
}

#[test]
fn test_exports() {
    assert!(serde_json::to_string(&lsp_types::CompletionItemKind::FUNCTION).unwrap() == "3");

    // -export([ foo… ]) with foo/0, foo/1, foon/0 and bar/0 declared
    let view = view_of(
        vec![f("foo", 0, false), f("foo", 1, false), f("foon", 0, false), f("bar", 0, false)],
        vec![],
    );
    let cs = completions(&view, pos(), None, CtxKind::Export, prefix_fa("foo"), None);
    let actual = render(&cs);
    assert_eq!(
        actual,
        "{label:foo/0, kind:Function, contents:SameAsLabel, position:None}\n\
         {label:foo/1, kind:Function, contents:SameAsLabel, position:None}\n\
         {label:foon/0, kind:Function, contents:SameAsLabel, position:None}"
    );
}

#[test]
fn test_exclude_already_exported_functions() {
    assert!(serde_json::to_string(&lsp_types::CompletionItemKind::FUNCTION).unwrap() == "3");

    let view = view_of(
        vec![f("function_a", 0, true), f("function_b", 1, false), f("my_function", 0, false)],
        vec![],
    );
    let cs = completions(&view, pos(), None, CtxKind::Export, prefix_fa("fun"), None);
    assert_eq!(
        render(&cs),
        "{label:function_b/1, kind:Function, contents:SameAsLabel, position:None}"
    );
}

#[test]
fn export_types_test_exports() {
    assert!(serde_json::to_string(&lsp_types::CompletionItemKind::INTERFACE).unwrap() == "8");

    let view = view_of(
        vec![],
        vec![t("foo", 0), t("foo", 1), t("foon", 0), t("foob", 0), t("bar", 0)],
    );
    let cs = completions(&view, pos(), None, CtxKind::ExportType, prefix_fa("foo"), None);
    assert_eq!(
        render(&cs),
        "{label:foo/0, kind:Type, contents:SameAsLabel, position:None}\n\
         {label:foo/1, kind:Type, contents:SameAsLabel, position:None}\n\
         {label:foob/0, kind:Type, contents:SameAsLabel, position:None}\n\
         {label:foon/0, kind:Type, contents:SameAsLabel, position:None}"
    );
}

#[test]
fn complete_arity_suppresses_completions() {
    let view = view_of(vec![f("foo", 0, false)], vec![]);
    let fa = Some(Fa { fun_text: Some("foo".to_string()), arity: Some(Some(0)) });
    let cs = completions(&view, pos(), None, CtxKind::Export, fa, None);
    assert_eq!(cs.len(), 0);
}

#[test]
fn include_file_as_attribute() {
    let plain = IncludeFile {
        include_lib: false,
        path: "head.hrl".to_string(),
        app_name: "app_a".to_string(),
    };
    assert_eq!(plain.as_attribute(), "-include(\"head.hrl\").\n");
    let lib = IncludeFile {
        include_lib: true,
        path: "app_a/include/head.hrl".to_string(),
        app_name: "app_a".to_string(),
    };
    assert_eq!(lib.as_attribute(), "-include_lib(\"app_a/include/head.hrl\").\n");
}

#[test]
fn include_insert_position() {
    let src = "-module(sample).\n-include(\"one.hrl\").\n";
    let inc_range = {
        let at = src.find("-include(\"one.hrl\").").unwrap();
        TextRange { start: at as u32, end: (at + "-include(\"one.hrl\").".len()) as u32 }
    };
    let module_range = TextRange { start: 0, end: "-module(sample).".len() as u32 };
    let view = FileView {
        file_id: FILE,
        content: src.as_bytes().to_vec(),
        file_kind: FileKind::SrcModule,
        is_generated: false,
        module_attribute: Some(ModuleAttribute {
            name: "sample".to_string(),
            range: module_range,
            name_range: TextRange { start: 8, end: 14 },
        }),
        file_name: "sample".to_string(),
        compile_attributes: vec![],
        includes: vec![IncludeAttribute {
            lib: false,
            path: "one.hrl".to_string(),
            range: inc_range,
            path_range: inc_range,
            resolved: None,
        }],
        exports: vec![],
        type_aliases: vec![],
        functions: vec![],
        comments: vec![],
    };
    let wanted = IncludeFile {
        include_lib: false,
        path: "two.hrl".to_string(),
        app_name: "app_a".to_string(),
    };
    let p = wanted.insert_position_if_needed(&view).unwrap();
    assert_eq!(p.offset, inc_range.end + 1);
    // an include that is already present needs no insertion
    let present = IncludeFile {
        include_lib: false,
        path: "one.hrl".to_string(),
        app_name: "app_a".to_string(),
    };
    assert!(present.insert_position_if_needed(&view).is_none());
}
