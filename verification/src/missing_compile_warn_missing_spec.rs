//! Lint/fix: missing_compile_warn_missing_spec
//!
//! Reports a source module whose compile attributes do not request
//! warnings for missing type signatures with the strong (`_all`) option,
//! and offers a fix that adds the option — or upgrades a weaker existing
//! one.  Header files, files outside the project model and test files
//! are skipped.

use vstd::prelude::*;

use crate::base::TextRange;
use crate::diagnostics::Diagnostic;
use crate::diagnostics::DiagnosticCode;
use crate::diagnostics::Severity;
use crate::diagnostics::fix;
use crate::diagnostics::whole_file_range;
use crate::source_change::SourceChangeBuilder;
use crate::strutil::concat3;
use crate::strutil::string_is;
use crate::suppression::ignore_line_text;
use crate::suppression::spec_suppress_offset;
use crate::view::CompileAttribute;
use crate::view::FileKind;
use crate::view::FileView;
use crate::view::Term;
use crate::view::spec_text_at;
use crate::view::text_at;

verus! {

/// What a scan of the compile attributes found.
#[derive(Clone, Copy, PartialEq, Eq, Structural, Debug)]
pub enum Found {
    No,
    WarnMissingSpec,
    WarnMissingSpecAll,
}

/// How one atom counts towards the scan.
pub open spec fn atom_class(name: Seq<char>) -> Found {
    if name == "warn_missing_spec_all"@ || name == "nowarn_missing_spec_all"@ {
        Found::WarnMissingSpecAll
    } else if name == "warn_missing_spec"@ || name == "nowarn_missing_spec"@ {
        Found::WarnMissingSpec
    } else {
        Found::No
    }
}

/// The atom sub-terms of a term, in source order.
pub open spec fn term_atoms(t: Term) -> Seq<Term>
    decreases t,
{
    match t {
        Term::Atom { name, range } => seq![t],
        Term::Int(_) => Seq::empty(),
        Term::Tuple(ts) => terms_atoms(ts@),
        Term::List(ts) => terms_atoms(ts@),
    }
}

/// The atom sub-terms of a sequence of terms.
pub open spec fn terms_atoms(ts: Seq<Term>) -> Seq<Term>
    decreases ts, ts.len(),
{
    if ts.len() == 0 {
        Seq::empty()
    } else {
        term_atoms(ts[0]) + terms_atoms(ts.drop_first())
    }
}

/// The scan result of one attribute: the last classified atom wins.
pub open spec fn attr_found(atoms: Seq<Term>) -> Found
    decreases atoms.len(),
{
    if atoms.len() == 0 {
        Found::No
    } else {
        let c = match atoms.last() {
            Term::Atom { name, range } => atom_class(name@),
            _ => Found::No,
        };
        if c != Found::No {
            c
        } else {
            attr_found(atoms.drop_last())
        }
    }
}

/// The overall scan: the first attribute with a finding wins.
pub open spec fn spec_overall(attrs: Seq<CompileAttribute>) -> (Found, Option<int>)
    decreases attrs.len(),
{
    if attrs.len() == 0 {
        (Found::No, None)
    } else {
        let f = attr_found(term_atoms(attrs[0].value));
        if f != Found::No {
            (f, Some(0int))
        } else {
            let (g, idx) = spec_overall(attrs.drop_first());
            (
                g,
                match idx {
                    Some(i) => Some(i + 1),
                    None => None,
                },
            )
        }
    }
}

/// Whether the rule skips the file entirely.
pub open spec fn spec_skipped(view: FileView) -> bool {
    ||| view.file_kind is Header
    ||| view.file_kind is Other
    ||| view.file_kind is OutsideProjectModel
}

pub open spec fn missing_spec_message() -> Seq<char> {
    "Please add \"-compile(warn_missing_spec_all).\" to the module. If exported functions are not all specced, they need to be specced."@
}

/// The edit of the fix that adds the compile option: extend the first
/// compile attribute when there is one, else insert a new attribute
/// after the module declaration (or at the top of the file).
pub open spec fn spec_add_option_edit(view: FileView) -> Option<(TextRange, Seq<char>)> {
    if view.compile_attributes@.len() > 0 {
        let attr = view.compile_attributes@[0];
        match spec_text_at(view.content@, attr.value_range) {
            Some(t) => match attr.value {
                Term::List(_) => if t.len() > 0 {
                    Some((attr.value_range, t.drop_last() + ", warn_missing_spec_all]"@))
                } else {
                    None
                },
                _ => Some((attr.value_range, "["@ + t + ", warn_missing_spec_all]"@)),
            },
            None => None,
        }
    } else {
        match view.module_attribute {
            Some(m) => if m.range.end < 0xffff_ffff {
                Some(
                    (
                        TextRange { start: (m.range.end + 1) as u32, end: (m.range.end + 1) as u32 },
                        "\n-compile([warn_missing_spec_all]).\n"@,
                    ),
                )
            } else {
                None
            },
            None => Some(
                (TextRange { start: 0, end: 0 }, "-compile([warn_missing_spec_all]).\n\n"@),
            ),
        }
    }
}

/// The first atom spelled `warn_missing_spec` in a term, if any: the
/// upgrade fix rewrites exactly that occurrence.
pub open spec fn spec_upgrade_atom(atoms: Seq<Term>) -> Option<Term>
    decreases atoms.len(),
{
    if atoms.len() == 0 {
        None
    } else {
        match atoms[0] {
            Term::Atom { name, range } => if name@ == "warn_missing_spec"@ {
                Some(atoms[0])
            } else {
                spec_upgrade_atom(atoms.drop_first())
            },
            _ => spec_upgrade_atom(atoms.drop_first()),
        }
    }
}

/// The edit of the main fix, by scan outcome.
pub open spec fn spec_fix_edit(view: FileView, found: Found, idx: Option<int>) -> Option<
    (TextRange, Seq<char>),
> {
    if found is No {
        spec_add_option_edit(view)
    } else {
        match idx {
            Some(i) => if 0 <= i < view.compile_attributes@.len() {
                match spec_upgrade_atom(term_atoms(view.compile_attributes@[i].value)) {
                    Some(t) => match t {
                        Term::Atom { name, range } => if range.wf() {
                            Some((range, "warn_missing_spec_all"@))
                        } else {
                            None
                        },
                        _ => None,
                    },
                    None => None,
                }
            } else {
                None
            },
            None => None,
        }
    }
}

/// Exactly the diagnostic the rule reports.
pub open spec fn missing_spec_diag_ok(d: Diagnostic, view: FileView, range: TextRange) -> bool {
    let scan = spec_overall(view.compile_attributes@);
    let edit = spec_fix_edit(view, scan.0, scan.1);
    &&& d.code == DiagnosticCode::MissingCompileWarnMissingSpec
    &&& d.message@ == missing_spec_message()
    &&& d.range == range
    &&& d.severity == Severity::Error
    &&& d.fixes@.len() == 2
    &&& d.fixes@[0].id@ == "add_warn_missing_spec_all"@
    &&& d.fixes@[0].label@ == "Add compile option 'warn_missing_spec_all'"@
    &&& d.fixes@[0].trigger_range == range
    &&& d.fixes@[0].source_change.file_id == view.file_id
    &&& (match edit {
        Some((r, t)) => {
            &&& d.fixes@[0].source_change.edits@.len() == 1
            &&& d.fixes@[0].source_change.edits@[0].range == r
            &&& d.fixes@[0].source_change.edits@[0].text@ == t
        },
        None => d.fixes@[0].source_change.edits@.len() == 0,
    })
    &&& d.fixes@[1].id@ == "ignore_problem"@
    &&& d.fixes@[1].source_change.file_id == view.file_id
    &&& d.fixes@[1].source_change.edits@.len() == 1
    &&& d.fixes@[1].source_change.edits@[0].range.start as int == spec_suppress_offset(
        view.content@,
        range,
        crate::inefficient_last::spec_module_attr_end(view),
    )
    &&& d.fixes@[1].source_change.edits@[0].text@ == ignore_line_text(d.code)
    &&& d.wf()
}

/// How many diagnostics the rule emits, and where.
pub open spec fn spec_report_range(view: FileView) -> Option<TextRange> {
    if spec_skipped(view) {
        None
    } else if view.compile_attributes@.len() == 0 {
        Some(TextRange { start: 0, end: 0 })
    } else if spec_overall(view.compile_attributes@).0 != Found::WarnMissingSpecAll {
        Some(view.compile_attributes@[0].range)
    } else {
        None
    }
}

/// Scans one term for the class of its last classified atom.
fn scan_term(t: &Term) -> (r: Found)
    ensures
        r == attr_found(term_atoms(*t)),
    decreases *t,
{
    match t {
        Term::Atom { name, range } => {
            proof {
                assert(term_atoms(*t) =~= seq![*t]);
                assert(term_atoms(*t).drop_last() =~= Seq::<Term>::empty());
                assert(attr_found(Seq::<Term>::empty()) == Found::No);
                assert(term_atoms(*t).last() == *t);
            }
            if string_is(name, "warn_missing_spec_all") || string_is(
                name,
                "nowarn_missing_spec_all",
            ) {
                Found::WarnMissingSpecAll
            } else if string_is(name, "warn_missing_spec") || string_is(
                name,
                "nowarn_missing_spec",
            ) {
                Found::WarnMissingSpec
            } else {
                Found::No
            }
        },
        Term::Int(_) => Found::No,
        Term::Tuple(ts) => scan_terms(t, ts),
        Term::List(ts) => scan_terms(t, ts),
    }
}

/// Scans a list of terms: the last finding wins.
fn scan_terms(parent: &Term, ts: &Vec<Term>) -> (r: Found)
    requires
        decreases_to!(*parent => ts@),
    ensures
        r == attr_found(terms_atoms(ts@)),
    decreases *parent, 0int,
{
    let n = ts.len();
    let mut r = Found::No;
    let mut i: usize = 0;
    proof {
        assert(terms_atoms(ts@.subrange(0, 0)) =~= Seq::<Term>::empty());
    }
    while i < n
        invariant
            n == ts@.len(),
            0 <= i <= n,
            decreases_to!(*parent => ts@),
            r == attr_found(terms_atoms(ts@.subrange(0, i as int))),
        decreases n - i,
    {
        proof {
            assert(decreases_to!(ts@ => ts@[i as int]));
        }
        let c = scan_term(&ts[i]);
        if !matches!(c, Found::No) {
            r = c;
        }
        proof {
            assert(ts@.subrange(0, i + 1) =~= ts@.subrange(0, i as int).push(ts@[i as int]));
            lemma_terms_atoms_push(ts@.subrange(0, i as int), ts@[i as int]);
            lemma_attr_found_append(
                terms_atoms(ts@.subrange(0, i as int)),
                term_atoms(ts@[i as int]),
            );
        }
        i += 1;
    }
    proof {
        assert(ts@.subrange(0, n as int) =~= ts@);
    }
    r
}

/// Appending one term appends its atoms.
proof fn lemma_terms_atoms_push(ts: Seq<Term>, t: Term)
    ensures
        terms_atoms(ts.push(t)) == terms_atoms(ts) + term_atoms(t),
    decreases ts.len(),
{
    if ts.len() == 0 {
        assert(ts.push(t)[0] == t);
        assert(ts.push(t).drop_first() =~= Seq::<Term>::empty());
        assert(terms_atoms(Seq::<Term>::empty()) =~= Seq::<Term>::empty());
        assert(terms_atoms(ts.push(t)) =~= terms_atoms(ts) + term_atoms(t));
    } else {
        assert(ts.push(t)[0] == ts[0]);
        assert(ts.push(t).drop_first() =~= ts.drop_first().push(t));
        lemma_terms_atoms_push(ts.drop_first(), t);
        assert(terms_atoms(ts.push(t)) =~= terms_atoms(ts) + term_atoms(t));
    }
}

/// The last finding of a concatenation: the right part wins if it has
/// one.
proof fn lemma_attr_found_append(a: Seq<Term>, b: Seq<Term>)
    ensures
        attr_found(a + b) == if attr_found(b) != Found::No {
            attr_found(b)
        } else {
            attr_found(a)
        },
    decreases b.len(),
{
    if b.len() == 0 {
        assert(a + b =~= a);
    } else {
        assert((a + b).last() == b.last());
        assert((a + b).drop_last() =~= a + b.drop_last());
        lemma_attr_found_append(a, b.drop_last());
    }
}

/// Finds the first atom spelled `warn_missing_spec` in a term.
fn find_upgrade_atom(t: &Term) -> (r: Option<TextRange>)
    ensures
        match r {
            Some(range) => {
                &&& spec_upgrade_atom(term_atoms(*t)) is Some
                &&& spec_upgrade_atom(term_atoms(*t))->Some_0->Atom_range == range
            },
            None => spec_upgrade_atom(term_atoms(*t)) is None,
        },
    decreases *t,
{
    match t {
        Term::Atom { name, range } => {
            proof {
                assert(term_atoms(*t) =~= seq![*t]);
                assert(term_atoms(*t).drop_first() =~= Seq::<Term>::empty());
                assert(spec_upgrade_atom(Seq::<Term>::empty()) is None);
                assert(term_atoms(*t)[0] == *t);
            }
            if string_is(name, "warn_missing_spec") {
                Some(*range)
            } else {
                None
            }
        },
        Term::Int(_) => None,
        Term::Tuple(ts) => find_upgrade_terms(t, ts),
        Term::List(ts) => find_upgrade_terms(t, ts),
    }
}

fn find_upgrade_terms(parent: &Term, ts: &Vec<Term>) -> (r: Option<TextRange>)
    requires
        decreases_to!(*parent => ts@),
    ensures
        match r {
            Some(range) => {
                &&& spec_upgrade_atom(terms_atoms(ts@)) is Some
                &&& spec_upgrade_atom(terms_atoms(ts@))->Some_0->Atom_range == range
            },
            None => spec_upgrade_atom(terms_atoms(ts@)) is None,
        },
    decreases *parent, 0int,
{
    let n = ts.len();
    let mut i: usize = 0;
    proof {
        assert(terms_atoms(ts@).skip(0) =~= terms_atoms(ts@));
        lemma_upgrade_split(ts@, 0);
    }
    while i < n
        invariant
            n == ts@.len(),
            0 <= i <= n,
            decreases_to!(*parent => ts@),
            spec_upgrade_atom(terms_atoms(ts@)) == spec_upgrade_atom(
                terms_atoms(ts@.subrange(i as int, n as int)),
            ),
        decreases n - i,
    {
        proof {
            assert(decreases_to!(ts@ => ts@[i as int]));
        }
        let r = find_upgrade_atom(&ts[i]);
        proof {
            assert(ts@.subrange(i as int, n as int)[0] == ts@[i as int]);
            assert(ts@.subrange(i as int, n as int).drop_first() =~= ts@.subrange(
                i + 1,
                n as int,
            ));
            lemma_upgrade_append(
                term_atoms(ts@[i as int]),
                terms_atoms(ts@.subrange(i + 1, n as int)),
            );
            assert(terms_atoms(ts@.subrange(i as int, n as int)) == term_atoms(ts@[i as int])
                + terms_atoms(ts@.subrange(i + 1, n as int)));
        }
        match r {
            Some(range) => {
                return Some(range);
            },
            None => {},
        }
        i += 1;
    }
    proof {
        assert(ts@.subrange(n as int, n as int) =~= Seq::<Term>::empty());
        assert(terms_atoms(Seq::<Term>::empty()) =~= Seq::<Term>::empty());
    }
    None
}

/// Splitting a term sequence splits its atom sequence.
proof fn lemma_upgrade_split(ts: Seq<Term>, i: int)
    requires
        0 <= i <= ts.len(),
    ensures
        terms_atoms(ts) == terms_atoms(ts.subrange(0, i)) + terms_atoms(
            ts.subrange(i, ts.len() as int),
        ),
    decreases i,
{
    if i == 0 {
        assert(ts.subrange(0, 0) =~= Seq::<Term>::empty());
        assert(terms_atoms(Seq::<Term>::empty()) =~= Seq::<Term>::empty());
        assert(ts.subrange(0, ts.len() as int) =~= ts);
        assert(terms_atoms(ts) =~= terms_atoms(ts.subrange(0, 0)) + terms_atoms(
            ts.subrange(0, ts.len() as int),
        ));
    } else {
        assert(ts.len() > 0) by {
            assert(i <= ts.len() && i > 0);
        }
        lemma_upgrade_split(ts.drop_first(), i - 1);
        assert(ts.subrange(0, i).drop_first() =~= ts.drop_first().subrange(0, i - 1));
        assert(ts.subrange(0, i)[0] == ts[0]);
        assert(ts.subrange(i, ts.len() as int) =~= ts.drop_first().subrange(
            i - 1,
            ts.drop_first().len() as int,
        ));
        assert(terms_atoms(ts.subrange(0, i)) =~= term_atoms(ts[0]) + terms_atoms(
            ts.drop_first().subrange(0, i - 1),
        ));
        assert(terms_atoms(ts) =~= terms_atoms(ts.subrange(0, i)) + terms_atoms(
            ts.subrange(i, ts.len() as int),
        ));
    }
}

/// The first upgrade atom of a concatenation comes from the left part
/// when it has one.
proof fn lemma_upgrade_append(a: Seq<Term>, b: Seq<Term>)
    ensures
        spec_upgrade_atom(a + b) == if spec_upgrade_atom(a) is Some {
            spec_upgrade_atom(a)
        } else {
            spec_upgrade_atom(b)
        },
    decreases a.len(),
{
    if a.len() == 0 {
        assert(a + b =~= b);
    } else {
        assert((a + b)[0] == a[0]);
        assert((a + b).drop_first() =~= a.drop_first() + b);
        lemma_upgrade_append(a.drop_first(), b);
    }
}

/// Runs the rule: at most one diagnostic per file, reported on the first
/// compile attribute, or as a whole-file finding when there is none.
pub fn missing_compile_warn_missing_spec(diags: &mut Vec<Diagnostic>, view: &FileView)
    ensures
        match spec_report_range(*view) {
            Some(range) => {
                &&& final(diags)@.len() == old(diags)@.len() + 1
                &&& forall|i: int| 0 <= i < old(diags)@.len() ==> final(diags)@[i] == old(diags)@[i]
                &&& missing_spec_diag_ok(final(diags)@[old(diags)@.len() as int], *view, range)
            },
            None => final(diags)@ == old(diags)@,
        },
{
    match view.file_kind {
        FileKind::Header | FileKind::Other | FileKind::OutsideProjectModel => {
            return ;
        },
        _ => {},
    }
    let range = if view.compile_attributes.len() == 0 {
        whole_file_range()
    } else {
        let mut scan = Found::No;
        let ghost attrs = view.compile_attributes@;
        let n = view.compile_attributes.len();
        let mut i: usize = 0;
        let mut found_idx: usize = 0;
        proof {
            assert(attrs.skip(0) =~= attrs);
        }
        while i < n && matches!(scan, Found::No)
            invariant
                n == attrs.len(),
                attrs == view.compile_attributes@,
                0 <= i <= n,
                scan == Found::No ==> spec_overall(attrs).0 == spec_overall(
                    attrs.skip(i as int),
                ).0,
                scan == Found::No ==> (match spec_overall(attrs).1 {
                    Some(k) => {
                        &&& spec_overall(attrs.skip(i as int)).1 is Some
                        &&& k == i + spec_overall(attrs.skip(i as int)).1->Some_0
                    },
                    None => spec_overall(attrs.skip(i as int)).1 is None,
                }),
                scan != Found::No ==> {
                    &&& i <= n
                    &&& found_idx < n
                    &&& spec_overall(attrs).0 == scan
                    &&& spec_overall(attrs).1 == Some(found_idx as int)
                },
            decreases n - i,
        {
            proof {
                assert(attrs.skip(i as int)[0] == attrs[i as int]);
                assert(attrs.skip(i as int).drop_first() =~= attrs.skip(i + 1));
            }
            let c = scan_term(&view.compile_attributes[i].value);
            if !matches!(c, Found::No) {
                scan = c;
                found_idx = i;
            }
            i += 1;
        }
        proof {
            if matches!(scan, Found::No) {
                if i == n {
                    assert(attrs.skip(n as int) =~= Seq::<CompileAttribute>::empty());
                }
            }
        }
        if matches!(scan, Found::WarnMissingSpecAll) {
            return ;
        }
        let range = view.compile_attributes[0].range;
        emit(diags, view, range, scan, found_idx);
        return ;
    };
    let scan = Found::No;
    emit(diags, view, range, scan, 0);
}

/// Builds and appends the diagnostic for the given scan outcome.
fn emit(diags: &mut Vec<Diagnostic>, view: &FileView, range: TextRange, scan: Found, idx: usize)
    requires
        spec_overall(view.compile_attributes@).0 == scan,
        scan != Found::WarnMissingSpecAll,
        scan != Found::No ==> {
            &&& spec_overall(view.compile_attributes@).1 == Some(idx as int)
            &&& idx < view.compile_attributes@.len()
        },
        scan == Found::No ==> spec_overall(view.compile_attributes@).1 is None,
    ensures
        final(diags)@.len() == old(diags)@.len() + 1,
        forall|i: int| 0 <= i < old(diags)@.len() ==> final(diags)@[i] == old(diags)@[i],
        missing_spec_diag_ok(final(diags)@[old(diags)@.len() as int], *view, range),
{
    let ghost scan_idx = spec_overall(view.compile_attributes@).1;
    let edit_opt = compute_fix_edit(view, scan, idx);
    let mut builder = SourceChangeBuilder::new(view.file_id);
    match edit_opt {
        Some((r, t)) => {
            proof {
                assert(spec_fix_edit(*view, scan, scan_idx) is Some);
                assert(r.wf()) by {
                    lemma_fix_edit_wf(*view, scan, scan_idx);
                }
            }
            builder.replace(r, t);
        },
        None => {},
    }
    proof {
        assert(crate::source_change::edits_disjoint_any_order(builder.edits@)) by {
            assert(builder.edits@.len() <= 1);
        }
    }
    let sc = builder.finish();
    let main_fix = fix(
        "add_warn_missing_spec_all",
        "Add compile option 'warn_missing_spec_all'",
        sc,
        range,
    );
    let msg =
        "Please add \"-compile(warn_missing_spec_all).\" to the module. If exported functions are not all specced, they need to be specced.".to_owned();
    let mut fs = Vec::new();
    fs.push(main_fix);
    let module_attr_end = match &view.module_attribute {
        Some(m) => Some(m.range.end),
        None => None,
    };
    let d = Diagnostic::new(DiagnosticCode::MissingCompileWarnMissingSpec, msg, range).with_fixes(
        fs,
    ).with_ignore_fix(&view.content, module_attr_end);
    diags.push(d);
}

/// An available fix edit always has a well-formed span.
proof fn lemma_fix_edit_wf(view: FileView, scan: Found, idx: Option<int>)
    requires
        spec_fix_edit(view, scan, idx) is Some,
    ensures
        spec_fix_edit(view, scan, idx)->Some_0.0.wf(),
{
    if scan is No {
        if view.compile_attributes@.len() > 0 {
            let attr = view.compile_attributes@[0];
            assert(spec_text_at(view.content@, attr.value_range) is Some);
        }
    }
}

/// Mirrors `spec_fix_edit` in executable form.
fn compute_fix_edit(view: &FileView, scan: Found, idx: usize) -> (r: Option<(TextRange, String)>)
    requires
        scan != Found::WarnMissingSpecAll,
        scan != Found::No ==> {
            &&& spec_overall(view.compile_attributes@).1 == Some(idx as int)
            &&& idx < view.compile_attributes@.len()
        },
        scan == Found::No ==> spec_overall(view.compile_attributes@).1 is None,
    ensures
        match r {
            Some((range, t)) => spec_fix_edit(
                *view,
                scan,
                spec_overall(view.compile_attributes@).1,
            ) == Some((range, t@)),
            None => spec_fix_edit(*view, scan, spec_overall(view.compile_attributes@).1) is None,
        },
{
    if matches!(scan, Found::No) {
        if view.compile_attributes.len() > 0 {
            let attr = &view.compile_attributes[0];
            match text_at(&view.content, attr.value_range) {
                Some(t) => {
                    let is_list = matches!(&attr.value, Term::List(_));
                    if is_list {
                        if t.as_str().unicode_len() > 0 {
                            let stripped = strip_last_char(t.as_str());
                            let new_text = crate::strutil::concat2(
                                stripped.as_str(),
                                ", warn_missing_spec_all]",
                            );
                            proof {
                                assert(new_text@ =~= t@.drop_last() + ", warn_missing_spec_all]"@);
                            }
                            Some((attr.value_range, new_text))
                        } else {
                            None
                        }
                    } else {
                        let new_text = concat3("[", t.as_str(), ", warn_missing_spec_all]");
                        Some((attr.value_range, new_text))
                    }
                },
                None => None,
            }
        } else {
            match &view.module_attribute {
                Some(m) => {
                    if m.range.end < 0xffff_ffff_u32 {
                        let at = m.range.end + 1;
                        Some(
                            (
                                TextRange { start: at, end: at },
                                "\n-compile([warn_missing_spec_all]).\n".to_owned(),
                            ),
                        )
                    } else {
                        None
                    }
                },
                None => Some(
                    (
                        TextRange { start: 0, end: 0 },
                        "-compile([warn_missing_spec_all]).\n\n".to_owned(),
                    ),
                ),
            }
        }
    } else {
        proof {
            let atoms = term_atoms(view.compile_attributes@[idx as int].value);
            if spec_upgrade_atom(atoms) is Some {
                lemma_upgrade_is_atom(atoms);
            }
        }
        match find_upgrade_atom(&view.compile_attributes[idx].value) {
            Some(atom_range) => {
                if atom_range.start <= atom_range.end {
                    Some((atom_range, "warn_missing_spec_all".to_owned()))
                } else {
                    None
                }
            },
            None => None,
        }
    }
}

/// The first upgrade atom is always an atom term.
proof fn lemma_upgrade_is_atom(atoms: Seq<Term>)
    requires
        spec_upgrade_atom(atoms) is Some,
    ensures
        spec_upgrade_atom(atoms)->Some_0 is Atom,
    decreases atoms.len(),
{
    if atoms.len() > 0 {
        match atoms[0] {
            Term::Atom { name, range } => {
                if name@ == "warn_missing_spec"@ {
                } else {
                    lemma_upgrade_is_atom(atoms.drop_first());
                }
            },
            _ => {
                lemma_upgrade_is_atom(atoms.drop_first());
            },
        }
    }
}

/// The string without its final character.
fn strip_last_char(s: &str) -> (r: String)
    requires
        s@.len() > 0,
    ensures
        r@ == s@.drop_last(),
{
    let n = s.unicode_len();
    let r = s.substring_char(0, n - 1);
    proof {
        assert(r@ =~= s@.drop_last());
    }
    r.to_owned()
}

} // verus!
