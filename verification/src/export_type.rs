//! Assist: export_type
//!
//! Exports the type alias under the cursor: into the single existing
//! `-export_type` list when there is exactly one, or through a fresh
//! attribute placed after the function exports (or the module
//! declaration, or at the top of the file).

use vstd::prelude::*;

use crate::assists::Assist;
use crate::assists::AssistKind;
use crate::base::FileId;
use crate::base::TextRange;
use crate::source_change::SourceChangeBuilder;
use crate::strutil::concat2;
use crate::strutil::concat3;
use crate::strutil::spec_decimal;
use crate::strutil::u32_to_string;
use crate::view::ExportAttribute;
use crate::view::FileView;
use crate::view::TypeAliasDef;

verus! {

/// The first type alias whose span contains the offset.
pub open spec fn spec_alias_at(aliases: Seq<TypeAliasDef>, off: u32) -> Option<TypeAliasDef>
    decreases aliases.len(),
{
    if aliases.len() == 0 {
        None
    } else if aliases[0].range.spec_contains_offset(off as int) {
        Some(aliases[0])
    } else {
        spec_alias_at(aliases.drop_first(), off)
    }
}

/// The number of `-export_type` attributes.
pub open spec fn count_type_exports(es: Seq<ExportAttribute>) -> int
    decreases es.len(),
{
    if es.len() == 0 {
        0
    } else {
        (if es[0].types {
            1int
        } else {
            0int
        }) + count_type_exports(es.drop_first())
    }
}

/// The single `-export_type` attribute, assuming there is exactly one.
pub open spec fn spec_single_type_export(es: Seq<ExportAttribute>) -> Option<ExportAttribute>
    decreases es.len(),
{
    if es.len() == 0 {
        None
    } else if es[0].types {
        Some(es[0])
    } else {
        spec_single_type_export(es.drop_first())
    }
}

/// The printed `name/arity` entry of the alias.
pub open spec fn spec_entry_text(t: TypeAliasDef) -> Seq<char> {
    t.name@ + "/"@ + spec_decimal(t.arity as int)
}

/// The edit that exports the alias, if one can be built.
pub open spec fn spec_export_edit(view: FileView, t: TypeAliasDef) -> Option<
    (TextRange, Seq<char>),
> {
    spec_export_edit_for(view, spec_entry_text(t))
}

/// The span end of the last function-export attribute, if any.
pub open spec fn spec_last_function_export_end(es: Seq<ExportAttribute>) -> Option<u32>
    decreases es.len(),
{
    if es.len() == 0 {
        None
    } else {
        let rest = spec_last_function_export_end(es.drop_first());
        match rest {
            Some(e) => Some(e),
            None => if !es[0].types {
                Some(es[0].range.end)
            } else {
                None
            },
        }
    }
}

/// Whether the assist applies: an unexported alias under the cursor with
/// a buildable edit.
pub open spec fn spec_export_applies(view: FileView, off: u32) -> Option<
    (TypeAliasDef, TextRange, Seq<char>),
> {
    match spec_alias_at(view.type_aliases@, off) {
        Some(t) => if !t.exported {
            match spec_export_edit(view, t) {
                Some((r, text)) => Some((t, r, text)),
                None => None,
            }
        } else {
            None
        },
        None => None,
    }
}

/// Offers exporting the type alias under the cursor.
pub fn export_type(acc: &mut Vec<Assist>, view: &FileView, off: u32) -> (applied: bool)
    ensures
        applied == spec_export_applies(*view, off) is Some,
        match spec_export_applies(*view, off) {
            Some((t, r, text)) => {
                &&& final(acc)@.len() == old(acc)@.len() + 1
                &&& forall|i: int| 0 <= i < old(acc)@.len() ==> final(acc)@[i] == old(acc)@[i]
                &&& ({
                    let a = final(acc)@[old(acc)@.len() as int];
                    &&& a.id@ == "export_type"@
                    &&& a.kind == AssistKind::QuickFix
                    &&& a.label@ == "Export the type `"@ + spec_entry_text(t) + "`"@
                    &&& a.target == t.range
                    &&& a.source_change.file_id == view.file_id
                    &&& a.source_change.edits@.len() == 1
                    &&& a.source_change.edits@[0].range == r
                    &&& a.source_change.edits@[0].text@ == text
                    &&& a.wf()
                })
            },
            None => final(acc)@ == old(acc)@,
        },
{
    let t = match alias_at(&view.type_aliases, off) {
        Some(t) => t,
        None => {
            return false;
        },
    };
    if t.exported {
        return false;
    }
    let ar = u32_to_string(t.arity);
    let entry = concat3(t.name.as_str(), "/", ar.as_str());
    let edit = match compute_export_edit(view, &entry) {
        Some(e) => e,
        None => {
            return false;
        },
    };
    proof {
        assert(entry@ == spec_entry_text(*t));
    }
    let label = concat3("Export the type `", entry.as_str(), "`");
    let mut builder = SourceChangeBuilder::new(view.file_id);
    let (r, text) = edit;
    builder.replace(r, text);
    let sc = builder.finish();
    let a = Assist {
        id: "export_type".to_owned(),
        kind: AssistKind::QuickFix,
        label,
        target: t.range,
        source_change: sc,
    };
    acc.push(a);
    true
}

/// Finds the first alias whose span contains the offset.
fn alias_at<'a>(aliases: &'a Vec<TypeAliasDef>, off: u32) -> (r: Option<&'a TypeAliasDef>)
    ensures
        match r {
            Some(t) => spec_alias_at(aliases@, off) == Some(*t),
            None => spec_alias_at(aliases@, off) is None,
        },
{
    let n = aliases.len();
    let mut i: usize = 0;
    proof {
        assert(aliases@.skip(0) =~= aliases@);
    }
    while i < n
        invariant
            n == aliases@.len(),
            0 <= i <= n,
            spec_alias_at(aliases@, off) == spec_alias_at(aliases@.skip(i as int), off),
        decreases n - i,
    {
        proof {
            assert(aliases@.skip(i as int)[0] == aliases@[i as int]);
            assert(aliases@.skip(i as int).drop_first() =~= aliases@.skip(i + 1));
        }
        if aliases[i].range.contains_offset(off) {
            return Some(&aliases[i]);
        }
        i += 1;
    }
    proof {
        assert(aliases@.skip(n as int) =~= Seq::<TypeAliasDef>::empty());
    }
    None
}

/// Mirrors `spec_export_edit` in executable form, for the alias whose
/// printed entry is `entry`.
fn compute_export_edit(view: &FileView, entry: &String) -> (r: Option<(TextRange, String)>)
    ensures
        match r {
            Some((range, text)) => spec_export_edit_for(*view, entry@) == Some((range, text@)),
            None => spec_export_edit_for(*view, entry@) is None,
        },
{
    let n = view.exports.len();
    let mut type_count: usize = 0;
    let mut single: Option<&ExportAttribute> = None;
    let mut i: usize = 0;
    proof {
        assert(view.exports@.skip(0) =~= view.exports@);
        lemma_count_split(view.exports@, 0);
    }
    while i < n
        invariant
            n == view.exports@.len(),
            0 <= i <= n,
            type_count as int + count_type_exports(view.exports@.skip(i as int))
                == count_type_exports(view.exports@),
            type_count <= i,
            type_count > 0 ==> {
                &&& single is Some
                &&& spec_single_type_export(view.exports@) is Some
                &&& *single->Some_0 == spec_single_type_export_value(view.exports@)
            },
            type_count == 0 ==> spec_single_type_export(view.exports@)
                == spec_single_type_export(view.exports@.skip(i as int)),
        decreases n - i,
    {
        proof {
            assert(view.exports@.skip(i as int)[0] == view.exports@[i as int]);
            assert(view.exports@.skip(i as int).drop_first() =~= view.exports@.skip(i + 1));
        }
        if view.exports[i].types {
            if type_count == 0 {
                single = Some(&view.exports[i]);
            }
            type_count += 1;
        }
        i += 1;
    }
    proof {
        assert(view.exports@.skip(n as int) =~= Seq::<ExportAttribute>::empty());
    }
    if type_count == 1 {
        let ex = match single {
            Some(ex) => ex,
            None => {
                return None;
            },
        };
        let at = ex.list_insert_offset;
        let text = if ex.entries.len() == 0 {
            entry.clone()
        } else {
            concat2(", ", entry.as_str())
        };
        Some((TextRange { start: at, end: at }, text))
    } else {
        let attr_text = concat3("\n-export_type([", entry.as_str(), "]).\n");
        match last_function_export_end(&view.exports) {
            Some(e) => {
                if e < 0xffff_ffff_u32 {
                    let at = e + 1;
                    Some((TextRange { start: at, end: at }, attr_text))
                } else {
                    None
                }
            },
            None => {
                match &view.module_attribute {
                    Some(m) => {
                        if m.range.end < 0xffff_ffff_u32 {
                            let at = m.range.end + 1;
                            Some((TextRange { start: at, end: at }, attr_text))
                        } else {
                            None
                        }
                    },
                    None => Some((TextRange { start: 0, end: 0 }, attr_text)),
                }
            },
        }
    }
}

/// The value form of the single type export, for invariants.
pub open spec fn spec_single_type_export_value(es: Seq<ExportAttribute>) -> ExportAttribute {
    spec_single_type_export(es)->Some_0
}

/// `spec_export_edit` phrased over the printed entry text.
/// `spec_export_edit` phrased over the printed entry text.
pub open spec fn spec_export_edit_for(view: FileView, entry: Seq<char>) -> Option<
    (TextRange, Seq<char>),
> {
    if count_type_exports(view.exports@) == 1 {
        let ex = spec_single_type_export(view.exports@)->Some_0;
        let at = ex.list_insert_offset;
        Some(
            (
                TextRange { start: at, end: at },
                if ex.entries@.len() == 0 {
                    entry
                } else {
                    ", "@ + entry
                },
            ),
        )
    } else {
        let attr_text = "\n-export_type(["@ + entry + "]).\n"@;
        match spec_last_function_export_end(view.exports@) {
            Some(e) => if e < 0xffff_ffff {
                Some((TextRange { start: (e + 1) as u32, end: (e + 1) as u32 }, attr_text))
            } else {
                None
            },
            None => match view.module_attribute {
                Some(m) => if m.range.end < 0xffff_ffff {
                    Some(
                        (
                            TextRange {
                                start: (m.range.end + 1) as u32,
                                end: (m.range.end + 1) as u32,
                            },
                            attr_text,
                        ),
                    )
                } else {
                    None
                },
                None => Some((TextRange { start: 0, end: 0 }, attr_text)),
            },
        }
    }
}

proof fn lemma_count_split(es: Seq<ExportAttribute>, i: int)
    ensures
        count_type_exports(es) >= 0,
    decreases es.len(),
{
    if es.len() > 0 {
        lemma_count_split(es.drop_first(), 0);
    }
}

/// Finds the end of the last function-export attribute.
fn last_function_export_end(es: &Vec<ExportAttribute>) -> (r: Option<u32>)
    ensures
        r == spec_last_function_export_end(es@),
{
    let n = es.len();
    let mut r: Option<u32> = None;
    let mut i: usize = 0;
    proof {
        assert(es@.take(0) =~= Seq::<ExportAttribute>::empty());
    }
    while i < n
        invariant
            n == es@.len(),
            0 <= i <= n,
            r == spec_last_function_export_end(es@.take(i as int)),
        decreases n - i,
    {
        if !es[i].types {
            r = Some(es[i].range.end);
        }
        proof {
            assert(es@.take(i + 1) =~= es@.take(i as int).push(es@[i as int]));
            lemma_last_fn_export_push(es@.take(i as int), es@[i as int]);
        }
        i += 1;
    }
    proof {
        assert(es@.take(n as int) =~= es@);
    }
    r
}

proof fn lemma_last_fn_export_push(es: Seq<ExportAttribute>, e: ExportAttribute)
    ensures
        spec_last_function_export_end(es.push(e)) == if !e.types {
            Some(e.range.end)
        } else {
            spec_last_function_export_end(es)
        },
    decreases es.len(),
{
    if es.len() == 0 {
        assert(es.push(e)[0] == e);
        assert(es.push(e).drop_first() =~= Seq::<ExportAttribute>::empty());
        assert(spec_last_function_export_end(Seq::<ExportAttribute>::empty()) is None);
    } else {
        assert(es.push(e)[0] == es[0]);
        assert(es.push(e).drop_first() =~= es.drop_first().push(e));
        lemma_last_fn_export_push(es.drop_first(), e);
        assert(spec_last_function_export_end(es.push(e)) == match spec_last_function_export_end(
            es.drop_first().push(e),
        ) {
            Some(x) => Some(x),
            None => if !es[0].types {
                Some(es[0].range.end)
            } else {
                None
            },
        });
    }
}

} // verus!
