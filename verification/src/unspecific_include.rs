//! Diagnostic: unspecific_include
//!
//! Reports an include whose path names a bare header file even though
//! the header lives in another application's include directory, and
//! offers the full `app/include/...` path — rewriting the attribute to
//! `-include_lib` when needed.

use vstd::prelude::*;
use vstd::utf8::encode_utf8;

use crate::diagnostics::Diagnostic;
use crate::diagnostics::DiagnosticCode;
use crate::diagnostics::Severity;
use crate::diagnostics::fix;
use crate::source_change::SourceChangeBuilder;
use crate::strutil::concat2;
use crate::strutil::concat3;
use crate::strutil::str_contains;
use crate::strutil::contains_seq;
use crate::view::FileView;
use crate::view::IncludeAttribute;

verus! {

/// The canonical `app/include/...` replacement for a resolved include:
/// its absolute path without the leading slash, provided the path lies
/// directly under the owning application's directory.
pub open spec fn spec_lib_replacement(inc: IncludeAttribute) -> Option<Seq<char>> {
    let target = inc.resolved->Some_0;
    if target.path@.len() > target.app_name@.len() && target.path@[0] == '/'
        && target.path@.skip(1).take(target.app_name@.len() as int) == target.app_name@ {
        Some(target.path@.skip(1))
    } else {
        None
    }
}

/// Whether an include produces a diagnostic: a bare (slash-free) path
/// that resolves into a different file whose real location is not a
/// source directory, and for which a canonical replacement exists.
pub open spec fn spec_include_matches(inc: IncludeAttribute, view: FileView) -> bool {
    &&& !contains_seq(encode_utf8(inc.path@), encode_utf8("/"@))
    &&& inc.resolved is Some
    &&& inc.resolved->Some_0.file_id != view.file_id
    &&& !contains_seq(encode_utf8(inc.resolved->Some_0.path@), encode_utf8("/src/"@))
    &&& spec_lib_replacement(inc) is Some
    &&& inc.path_range.wf()
    &&& inc.range.wf()
}

/// The fix's single edit: rewrite the whole attribute to `-include_lib`
/// for a plain include, or just the quoted path for an existing one.
pub open spec fn spec_include_edit(inc: IncludeAttribute) -> (crate::base::TextRange, Seq<char>) {
    let rep = spec_lib_replacement(inc)->Some_0;
    if inc.lib {
        (inc.path_range, "\""@ + rep + "\""@)
    } else {
        (inc.range, "-include_lib(\""@ + rep + "\")."@)
    }
}

/// Exactly the diagnostic reported for one unspecific include.
pub open spec fn include_diag_ok(d: Diagnostic, inc: IncludeAttribute, view: FileView) -> bool {
    let rep = spec_lib_replacement(inc)->Some_0;
    let edit = spec_include_edit(inc);
    &&& d.code == DiagnosticCode::UnspecificInclude
    &&& d.message@ == "Unspecific include."@
    &&& d.range == inc.path_range
    &&& d.severity == Severity::WeakWarning
    &&& d.fixes@.len() == 1
    &&& d.fixes@[0].id@ == "replace_unspecific_include"@
    &&& d.fixes@[0].label@ == "Replace include path with: "@ + rep
    &&& d.fixes@[0].trigger_range == inc.path_range
    &&& d.fixes@[0].source_change.file_id == view.file_id
    &&& d.fixes@[0].source_change.edits@.len() == 1
    &&& d.fixes@[0].source_change.edits@[0].range == edit.0
    &&& d.fixes@[0].source_change.edits@[0].text@ == edit.1
    &&& d.wf()
}

/// The includes that produce a diagnostic, in order.
pub open spec fn include_matches(incs: Seq<IncludeAttribute>, view: FileView) -> Seq<
    IncludeAttribute,
>
    decreases incs.len(),
{
    if incs.len() == 0 {
        Seq::empty()
    } else {
        (if spec_include_matches(incs[0], view) {
            seq![incs[0]]
        } else {
            Seq::empty()
        }) + include_matches(incs.drop_first(), view)
    }
}

/// Computes the canonical replacement for a resolved include.
fn lib_replacement(inc: &IncludeAttribute) -> (r: Option<String>)
    requires
        inc.resolved is Some,
    ensures
        match r {
            Some(t) => spec_lib_replacement(*inc) == Some(t@),
            None => spec_lib_replacement(*inc) is None,
        },
{
    let target = match &inc.resolved {
        Some(t) => t,
        None => {
            return None;
        },
    };
    let pn = target.path.as_str().unicode_len();
    let an = target.app_name.as_str().unicode_len();
    if pn == 0 {
        return None;
    }
    let first = target.path.as_str().get_char(0);
    if first != '/' {
        return None;
    }
    let rest = target.path.as_str().substring_char(1, pn);
    let rest_len = pn - 1;
    if rest_len < an {
        return None;
    }
    let prefix = rest.substring_char(0, an);
    proof {
        assert(rest@ =~= target.path@.skip(1));
        assert(prefix@ =~= target.path@.skip(1).take(target.app_name@.len() as int));
    }
    if prefix.to_owned() == target.app_name {
        Some(rest.to_owned())
    } else {
        None
    }
}

/// Checks one include and computes its replacement.
fn check_include(inc: &IncludeAttribute, view: &FileView) -> (r: Option<String>)
    ensures
        match r {
            Some(t) => spec_include_matches(*inc, *view) && spec_lib_replacement(*inc) == Some(
                t@,
            ),
            None => !spec_include_matches(*inc, *view),
        },
{
    if str_contains(&inc.path, "/") {
        return None;
    }
    let target = match &inc.resolved {
        Some(t) => t,
        None => {
            return None;
        },
    };
    if target.file_id == view.file_id {
        return None;
    }
    if str_contains(&target.path, "/src/") {
        return None;
    }
    if !(inc.path_range.start <= inc.path_range.end && inc.range.start <= inc.range.end) {
        return None;
    }
    lib_replacement(inc)
}

proof fn lemma_matches_step(incs: Seq<IncludeAttribute>, view: FileView, i: int)
    requires
        0 <= i < incs.len(),
    ensures
        include_matches(incs.skip(i), view) == (if spec_include_matches(incs[i], view) {
            seq![incs[i]]
        } else {
            Seq::empty()
        }) + include_matches(incs.skip(i + 1), view),
{
    assert(incs.skip(i)[0] == incs[i]);
    assert(incs.skip(i).drop_first() =~= incs.skip(i + 1));
}

/// Walks the file's includes and reports each unspecific one.
pub fn check_includes(diags: &mut Vec<Diagnostic>, view: &FileView)
    ensures
        ({
            let matched = include_matches(view.includes@, *view);
            &&& final(diags)@.len() == old(diags)@.len() + matched.len()
            &&& forall|i: int| 0 <= i < old(diags)@.len() ==> final(diags)@[i] == old(diags)@[i]
            &&& forall|j: int|
                0 <= j < matched.len() ==> include_diag_ok(
                    #[trigger] final(diags)@[old(diags)@.len() + j],
                    matched[j],
                    *view,
                )
        }),
{
    let ghost all = view.includes@;
    let ghost matched = include_matches(all, *view);
    let n = view.includes.len();
    let mut i: usize = 0;
    let ghost mut done: Seq<IncludeAttribute> = Seq::empty();
    proof {
        assert(all.skip(0) =~= all);
        assert(done + include_matches(all.skip(0), *view) =~= matched);
    }
    while i < n
        invariant
            n == all.len(),
            all == view.includes@,
            0 <= i <= n,
            matched == include_matches(all, *view),
            matched == done + include_matches(all.skip(i as int), *view),
            diags@.len() == old(diags)@.len() + done.len(),
            forall|k: int| 0 <= k < old(diags)@.len() ==> diags@[k] == old(diags)@[k],
            forall|j: int|
                0 <= j < done.len() ==> include_diag_ok(
                    #[trigger] diags@[old(diags)@.len() + j],
                    done[j],
                    *view,
                ),
        decreases n - i,
    {
        let inc = &view.includes[i];
        proof {
            lemma_matches_step(all, *view, i as int);
        }
        match check_include(inc, view) {
            Some(rep) => {
                let label = concat2("Replace include path with: ", rep.as_str());
                let mut builder = SourceChangeBuilder::new(view.file_id);
                if inc.lib {
                    let text = concat3("\"", rep.as_str(), "\"");
                    builder.replace(inc.path_range, text);
                } else {
                    let text = concat3("-include_lib(\"", rep.as_str(), "\").");
                    builder.replace(inc.range, text);
                }
                let sc = builder.finish();
                let f = fix("replace_unspecific_include", label.as_str(), sc, inc.path_range);
                let mut fs = Vec::new();
                fs.push(f);
                let d = Diagnostic::new(
                    DiagnosticCode::UnspecificInclude,
                    "Unspecific include.".to_owned(),
                    inc.path_range,
                ).with_severity(Severity::WeakWarning).with_fixes(fs);
                diags.push(d);
                proof {
                    done = done.push(all[i as int]);
                    assert(done + include_matches(all.skip(i + 1), *view) =~= matched);
                }
            },
            None => {},
        }
        i += 1;
    }
    proof {
        assert(all.skip(n as int) =~= Seq::<IncludeAttribute>::empty());
        assert(matched =~= done);
    }
}

} // verus!
