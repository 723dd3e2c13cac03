//! The module-name/file-name consistency check.

use elp_core::base::FileId;
use elp_core::base::TextRange;
use elp_core::diagnostics::Diagnostic;
use elp_core::module_mismatch::module_mismatch;
use elp_core::view::FileKind;
use elp_core::view::FileView;
use elp_core::view::ModuleAttribute;

fn view_of(content: &str, module_name: &str, file_name: &str) -> FileView {
    let at = content.find(module_name).unwrap();
    FileView {
        file_id: FileId(3),
        content: content.as_bytes().to_vec(),
        file_kind: FileKind::SrcModule,
        is_generated: false,
        module_attribute: Some(ModuleAttribute {
            name: module_name.to_string(),
            range: TextRange {
                start: 0,
                end: content.find(".").map(|p| p + 1).unwrap() as u32,
            },
            name_range: TextRange {
                start: at as u32,
                end: (at + module_name.len()) as u32,
            },
        }),
        file_name: file_name.to_string(),
        compile_attributes: vec![],
        includes: vec![],
        exports: vec![],
        type_aliases: vec![],
        functions: vec![],
        comments: vec![],
    }
}

fn run(view: &FileView) -> Vec<Diagnostic> {
    let mut diags = Vec::new();
    module_mismatch(&mut diags, view);
    diags
}

#[test]
fn test_module_mismatch() {
    let src = "-module(bar).\n";
    let view = view_of(src, "bar", "foo");
    let diags = run(&view);
    assert_eq!(diags.len(), 1);
    assert_eq!(diags[0].message, "Module name (bar) does not match file name (foo)");
    assert_eq!(diags[0].range, TextRange { start: 8, end: 11 });
    let fixed = diags[0].fixes[0].source_change.apply(&src.as_bytes().to_vec());
    assert_eq!(String::from_utf8(fixed).unwrap(), "-module(foo).\n");
    assert_eq!(diags[0].fixes[0].label, "Rename module to: foo");
}

#[test]
fn test_module_mismatch_correct() {
    let src = "-module(foo).\n";
    let view = view_of(src, "foo", "foo");
    assert_eq!(run(&view).len(), 0);
}
