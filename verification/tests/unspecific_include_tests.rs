//! The unspecific-include rule.

use elp_core::base::FileId;
use elp_core::base::TextRange;
use elp_core::diagnostics::Diagnostic;
use elp_core::unspecific_include::check_includes;
use elp_core::view::FileKind;
use elp_core::view::FileView;
use elp_core::view::IncludeAttribute;
use elp_core::view::IncludeTarget;

const FILE: FileId = FileId(10);

fn range_of(s: &str, needle: &str) -> TextRange {
    let at = s.find(needle).expect("needle present");
    TextRange { start: at as u32, end: (at + needle.len()) as u32 }
}

fn view_of(content: &str, includes: Vec<IncludeAttribute>) -> FileView {
    FileView {
        file_id: FILE,
        content: content.as_bytes().to_vec(),
        file_kind: FileKind::SrcModule,
        is_generated: false,
        module_attribute: None,
        file_name: "unspecific_include".to_string(),
        compile_attributes: vec![],
        includes,
        exports: vec![],
        type_aliases: vec![],
        functions: vec![],
        comments: vec![],
    }
}

fn run(view: &FileView) -> Vec<Diagnostic> {
    let mut diags = Vec::new();
    check_includes(&mut diags, view);
    diags
}

#[test]
fn detects_unspecific_include() {
    let src = "-module(unspecific_include).\n-include(\"some_header_from_app_a.hrl\").\n";
    let inc = IncludeAttribute {
        lib: false,
        path: "some_header_from_app_a.hrl".to_string(),
        range: range_of(src, "-include(\"some_header_from_app_a.hrl\")."),
        path_range: range_of(src, "\"some_header_from_app_a.hrl\""),
        resolved: Some(IncludeTarget {
            file_id: FileId(11),
            path: "/app_a/include/some_header_from_app_a.hrl".to_string(),
            app_name: "app_a".to_string(),
        }),
    };
    let view = view_of(src, vec![inc]);
    let diags = run(&view);
    assert_eq!(diags.len(), 1);
    assert_eq!(diags[0].message, "Unspecific include.");
    assert_eq!(diags[0].range, range_of(src, "\"some_header_from_app_a.hrl\""));
}

#[test]
fn no_diagnostic_for_same_dir_include() {
    let src = "-module(unspecific_include).\n-include(\"some_header_from_app_a.hrl\").\n";
    let inc = IncludeAttribute {
        lib: false,
        path: "some_header_from_app_a.hrl".to_string(),
        range: range_of(src, "-include(\"some_header_from_app_a.hrl\")."),
        path_range: range_of(src, "\"some_header_from_app_a.hrl\""),
        resolved: Some(IncludeTarget {
            file_id: FileId(11),
            // the header really lives in a source directory, so the
            // rewrite would not improve anything
            path: "/app_a/src/some_header_from_app_a.hrl".to_string(),
            app_name: "app_a".to_string(),
        }),
    };
    let view = view_of(src, vec![inc]);
    assert_eq!(run(&view).len(), 0);
}

#[test]
fn fixes_unspecific_include() {
    let src = "-module(unspecific_include).\n-include(\"some_header_from_app_a.hrl\").\n";
    let inc = IncludeAttribute {
        lib: false,
        path: "some_header_from_app_a.hrl".to_string(),
        range: range_of(src, "-include(\"some_header_from_app_a.hrl\")."),
        path_range: range_of(src, "\"some_header_from_app_a.hrl\""),
        resolved: Some(IncludeTarget {
            file_id: FileId(11),
            path: "/app_a/include/some_header_from_app_a.hrl".to_string(),
            app_name: "app_a".to_string(),
        }),
    };
    let view = view_of(src, vec![inc]);
    let diags = run(&view);
    assert_eq!(diags.len(), 1);
    let fixed = diags[0].fixes[0].source_change.apply(&src.as_bytes().to_vec());
    assert_eq!(
        String::from_utf8(fixed).unwrap(),
        "-module(unspecific_include).\n-include_lib(\"app_a/include/some_header_from_app_a.hrl\").\n"
    );
}

#[test]
fn fixes_unspecific_include_lib() {
    let src = "-module(unspecific_include).\n-include_lib(\"some_header_from_app_a.hrl\").\n";
    let inc = IncludeAttribute {
        lib: true,
        path: "some_header_from_app_a.hrl".to_string(),
        range: range_of(src, "-include_lib(\"some_header_from_app_a.hrl\")."),
        path_range: range_of(src, "\"some_header_from_app_a.hrl\""),
        resolved: Some(IncludeTarget {
            file_id: FileId(11),
            path: "/app_a/include/some_header_from_app_a.hrl".to_string(),
            app_name: "app_a".to_string(),
        }),
    };
    let view = view_of(src, vec![inc]);
    let diags = run(&view);
    assert_eq!(diags.len(), 1);
    let fixed = diags[0].fixes[0].source_change.apply(&src.as_bytes().to_vec());
    assert_eq!(
        String::from_utf8(fixed).unwrap(),
        "-module(unspecific_include).\n-include_lib(\"app_a/include/some_header_from_app_a.hrl\").\n"
    );
}

#[test]
fn include_resolving_to_same_file_is_skipped() {
    let src = "-include(\"self.hrl\").\n";
    let inc = IncludeAttribute {
        lib: false,
        path: "self.hrl".to_string(),
        range: range_of(src, "-include(\"self.hrl\")."),
        path_range: range_of(src, "\"self.hrl\""),
        resolved: Some(IncludeTarget {
            file_id: FILE,
            path: "/app_a/include/self.hrl".to_string(),
            app_name: "app_a".to_string(),
        }),
    };
    let view = view_of(src, vec![inc]);
    assert_eq!(run(&view).len(), 0);
}

#[test]
fn path_with_slash_is_specific_enough() {
    let src = "-include(\"app_b/foo.hrl\").\n";
    let inc = IncludeAttribute {
        lib: false,
        path: "app_b/foo.hrl".to_string(),
        range: range_of(src, "-include(\"app_b/foo.hrl\")."),
        path_range: range_of(src, "\"app_b/foo.hrl\""),
        resolved: Some(IncludeTarget {
            file_id: FileId(12),
            path: "/app_b/include/foo.hrl".to_string(),
            app_name: "app_b".to_string(),
        }),
    };
    let view = view_of(src, vec![inc]);
    assert_eq!(run(&view).len(), 0);
}
