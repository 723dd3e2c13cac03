//! The export-type assist.

use elp_core::assists::Assist;
use elp_core::base::FileId;
use elp_core::base::TextRange;
use elp_core::export_type::export_type;
use elp_core::view::ExportAttribute;
use elp_core::view::FileKind;
use elp_core::view::FileView;
use elp_core::view::ModuleAttribute;
use elp_core::view::NameArity;
use elp_core::view::TypeAliasDef;

const FILE: FileId = FileId(6);

fn find(s: &str, needle: &str) -> TextRange {
    let at = s.find(needle).expect("needle present");
    TextRange { start: at as u32, end: (at + needle.len()) as u32 }
}

fn alias(src: &str, decl: &str, name: &str, arity: u32, exported: bool) -> TypeAliasDef {
    TypeAliasDef {
        name: name.to_string(),
        arity,
        exported,
        range: find(src, decl),
    }
}

fn module_attr(src: &str) -> Option<ModuleAttribute> {
    let r = find(src, "-module(life).");
    Some(ModuleAttribute {
        name: "life".to_string(),
        range: r,
        name_range: find(src, "life"),
    })
}

fn view_of(
    content: &str,
    module_attribute: Option<ModuleAttribute>,
    exports: Vec<ExportAttribute>,
    type_aliases: Vec<TypeAliasDef>,
) -> FileView {
    FileView {
        file_id: FILE,
        content: content.as_bytes().to_vec(),
        file_kind: FileKind::SrcModule,
        is_generated: false,
        module_attribute,
        file_name: "life".to_string(),
        compile_attributes: vec![],
        includes: vec![],
        exports,
        type_aliases,
        functions: vec![],
        comments: vec![],
    }
}

fn run(view: &FileView, off: u32) -> Vec<Assist> {
    let mut acc = Vec::new();
    export_type(&mut acc, view, off);
    acc
}

fn apply(src: &str, a: &Assist) -> String {
    String::from_utf8(a.source_change.apply(&src.as_bytes().to_vec())).unwrap()
}

#[test]
fn already_exported_1() {
    let src = "-export_type([heavy_calculations/1]).\n-type heavy_calculations(X) :: X.\n";
    let decl = "-type heavy_calculations(X) :: X.";
    let cursor = find(src, decl).start + 12;
    let exports = vec![ExportAttribute {
        types: true,
        entries: vec![NameArity { name: "heavy_calculations".to_string(), arity: 1 }],
        range: find(src, "-export_type([heavy_calculations/1])."),
        list_insert_offset: find(src, "])").start,
    }];
    let aliases = vec![alias(src, decl, "heavy_calculations", 1, true)];
    let view = view_of(src, None, exports, aliases);
    assert_eq!(run(&view, cursor).len(), 0);
}

#[test]
fn export_with_module_header() {
    let src = "-module(life).\n\n-type heavy_calculations(X) :: X.\n";
    let decl = "-type heavy_calculations(X) :: X.";
    let cursor = find(src, decl).start + 12;
    let aliases = vec![alias(src, decl, "heavy_calculations", 1, false)];
    let view = view_of(src, module_attr(src), vec![], aliases);
    let assists = run(&view, cursor);
    assert_eq!(assists.len(), 1);
    assert_eq!(assists[0].label, "Export the type `heavy_calculations/1`");
    assert_eq!(
        apply(src, &assists[0]),
        "-module(life).\n\n-export_type([heavy_calculations/1]).\n\n-type heavy_calculations(X) :: X.\n"
    );
}

#[test]
fn export_no_module_header() {
    let src = "-type heavy_calculations(X) :: X.\n";
    let decl = "-type heavy_calculations(X) :: X.";
    let cursor = find(src, decl).start + 12;
    let aliases = vec![alias(src, decl, "heavy_calculations", 1, false)];
    let view = view_of(src, None, vec![], aliases);
    let assists = run(&view, cursor);
    assert_eq!(assists.len(), 1);
    assert_eq!(
        apply(src, &assists[0]),
        "\n-export_type([heavy_calculations/1]).\n-type heavy_calculations(X) :: X.\n"
    );
}

#[test]
fn export_into_existing_export_if_only_one() {
    let src = "-module(life).\n\n-export([my_fun/0]).\n\n-type foo() :: ok.\n\nfoo() -> ok.\n";
    let decl = "-type foo() :: ok.";
    let cursor = find(src, decl).start + 7;
    let exports = vec![ExportAttribute {
        types: false,
        entries: vec![NameArity { name: "my_fun".to_string(), arity: 0 }],
        range: find(src, "-export([my_fun/0])."),
        list_insert_offset: find(src, "0]).").start + 1,
    }];
    let aliases = vec![alias(src, decl, "foo", 0, false)];
    let view = view_of(src, module_attr(src), exports, aliases);
    let assists = run(&view, cursor);
    assert_eq!(assists.len(), 1);
    assert_eq!(
        apply(src, &assists[0]),
        "-module(life).\n\n-export([my_fun/0]).\n\n-export_type([foo/0]).\n\n-type foo() :: ok.\n\nfoo() -> ok.\n"
    );
}

#[test]
fn export_after_function_exports() {
    let src = "-module(life).\n-export_type([foo/0]).\n\n-type heavy_calculations(X) :: X.\n-type foo() :: ok.\n";
    let decl = "-type heavy_calculations(X) :: X.";
    let cursor = find(src, decl).start + 12;
    let exports = vec![ExportAttribute {
        types: true,
        entries: vec![NameArity { name: "foo".to_string(), arity: 0 }],
        range: find(src, "-export_type([foo/0])."),
        list_insert_offset: find(src, "0]).").start + 1,
    }];
    let aliases = vec![
        alias(src, decl, "heavy_calculations", 1, false),
        alias(src, "-type foo() :: ok.", "foo", 0, true),
    ];
    let view = view_of(src, module_attr(src), exports, aliases);
    let assists = run(&view, cursor);
    assert_eq!(assists.len(), 1);
    assert_eq!(
        apply(src, &assists[0]),
        "-module(life).\n-export_type([foo/0, heavy_calculations/1]).\n\n-type heavy_calculations(X) :: X.\n-type foo() :: ok.\n"
    );
}

#[test]
fn export_into_existing_empty_export() {
    let src = "-module(life).\n-export_type([]).\n\n-type heavy_calculations(X) :: X.\n";
    let decl = "-type heavy_calculations(X) :: X.";
    let cursor = find(src, decl).start + 12;
    let exports = vec![ExportAttribute {
        types: true,
        entries: vec![],
        range: find(src, "-export_type([])."),
        list_insert_offset: find(src, "]).").start,
    }];
    let aliases = vec![alias(src, decl, "heavy_calculations", 1, false)];
    let view = view_of(src, module_attr(src), exports, aliases);
    let assists = run(&view, cursor);
    assert_eq!(
        apply(src, &assists[0]),
        "-module(life).\n-export_type([heavy_calculations/1]).\n\n-type heavy_calculations(X) :: X.\n"
    );
}

#[test]
fn export_into_new_export_if_multiple_existing() {
    let src = "-module(life).\n-export_type([foo/0]).\n-export_type([bar/0]).\n\n-type heavy_calculations(X) :: X.\n";
    let decl = "-type heavy_calculations(X) :: X.";
    let cursor = find(src, decl).start + 12;
    let exports = vec![
        ExportAttribute {
            types: true,
            entries: vec![NameArity { name: "foo".to_string(), arity: 0 }],
            range: find(src, "-export_type([foo/0])."),
            list_insert_offset: find(src, "foo/0]).").start + 5,
        },
        ExportAttribute {
            types: true,
            entries: vec![NameArity { name: "bar".to_string(), arity: 0 }],
            range: find(src, "-export_type([bar/0])."),
            list_insert_offset: find(src, "bar/0]).").start + 5,
        },
    ];
    let aliases = vec![alias(src, decl, "heavy_calculations", 1, false)];
    let view = view_of(src, module_attr(src), exports, aliases);
    let assists = run(&view, cursor);
    assert_eq!(
        apply(src, &assists[0]),
        "-module(life).\n\n-export_type([heavy_calculations/1]).\n-export_type([foo/0]).\n-export_type([bar/0]).\n\n-type heavy_calculations(X) :: X.\n"
    );
}

#[test]
fn export_quoted_atom_type() {
    let src = "-module(life).\n\n-type 'Code.Navigation.Elixirish'(X) :: X.\n";
    let decl = "-type 'Code.Navigation.Elixirish'(X) :: X.";
    let cursor = find(src, decl).start + 12;
    let aliases = vec![alias(src, decl, "'Code.Navigation.Elixirish'", 1, false)];
    let view = view_of(src, module_attr(src), vec![], aliases);
    let assists = run(&view, cursor);
    assert_eq!(assists[0].label, "Export the type `'Code.Navigation.Elixirish'/1`");
    assert_eq!(
        apply(src, &assists[0]),
        "-module(life).\n\n-export_type(['Code.Navigation.Elixirish'/1]).\n\n-type 'Code.Navigation.Elixirish'(X) :: X.\n"
    );
}
