//! Diagnostic: module-mismatch
//!
//! Reports a module identity declaration whose name differs from the
//! file's base name, and offers renaming the declaration to match.

use vstd::prelude::*;

use crate::diagnostics::Diagnostic;
use crate::diagnostics::DiagnosticCode;
use crate::diagnostics::Severity;
use crate::diagnostics::fix;
use crate::source_change::SourceChangeBuilder;
use crate::strutil::concat2;
use crate::strutil::concat5;
use crate::strutil::string_is;
use crate::view::FileView;

verus! {

/// Whether the file's declaration disagrees with its file name.
pub open spec fn spec_mismatch(view: FileView) -> bool {
    &&& view.module_attribute is Some
    &&& view.module_attribute->Some_0.name@ != view.file_name@
    &&& view.module_attribute->Some_0.name_range.wf()
}

pub open spec fn mismatch_message(view: FileView) -> Seq<char> {
    "Module name ("@ + view.module_attribute->Some_0.name@ + ") does not match file name ("@
        + view.file_name@ + ")"@
}

/// Exactly the diagnostic this rule reports.
pub open spec fn mismatch_diag_ok(d: Diagnostic, view: FileView) -> bool {
    let m = view.module_attribute->Some_0;
    &&& d.code == DiagnosticCode::ModuleMismatch
    &&& d.message@ == mismatch_message(view)
    &&& d.range == m.name_range
    &&& d.severity == Severity::Error
    &&& d.fixes@.len() == 1
    &&& d.fixes@[0].id@ == "rename_module_to_match_filename"@
    &&& d.fixes@[0].label@ == "Rename module to: "@ + view.file_name@
    &&& d.fixes@[0].trigger_range == m.name_range
    &&& d.fixes@[0].source_change.file_id == view.file_id
    &&& d.fixes@[0].source_change.edits@.len() == 1
    &&& d.fixes@[0].source_change.edits@[0].range == m.name_range
    &&& d.fixes@[0].source_change.edits@[0].text@ == view.file_name@
    &&& d.wf()
}

/// Compares the declared module name to the file name; on mismatch,
/// appends one diagnostic with the rename fix.
pub fn module_mismatch(diags: &mut Vec<Diagnostic>, view: &FileView)
    ensures
        spec_mismatch(*view) ==> {
            &&& final(diags)@.len() == old(diags)@.len() + 1
            &&& forall|i: int| 0 <= i < old(diags)@.len() ==> final(diags)@[i] == old(diags)@[i]
            &&& mismatch_diag_ok(final(diags)@[old(diags)@.len() as int], *view)
        },
        !spec_mismatch(*view) ==> final(diags)@ == old(diags)@,
{
    let m = match &view.module_attribute {
        Some(m) => m,
        None => {
            return ;
        },
    };
    if string_is(&m.name, view.file_name.as_str()) {
        return ;
    }
    if !(m.name_range.start <= m.name_range.end) {
        return ;
    }
    let msg = concat5(
        "Module name (",
        m.name.as_str(),
        ") does not match file name (",
        view.file_name.as_str(),
        ")",
    );
    let label = concat2("Rename module to: ", view.file_name.as_str());
    let mut builder = SourceChangeBuilder::new(view.file_id);
    builder.replace(m.name_range, view.file_name.clone());
    let sc = builder.finish();
    let f = fix("rename_module_to_match_filename", label.as_str(), sc, m.name_range);
    let mut fs = Vec::new();
    fs.push(f);
    let d = Diagnostic::new(DiagnosticCode::ModuleMismatch, msg, m.name_range).with_fixes(fs);
    diags.push(d);
}

} // verus!
