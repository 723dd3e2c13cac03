//! Oracle adapter: turns a structured type-mismatch finding of the
//! external type checker into canned rewrites.
//!
//! Shape-matching on `(expected, actual)` decides the offers: two
//! mismatched literal atoms get both a returned-value rewrite and a
//! signature rewrite; a two-element tuple whose tail equals the actual
//! type gets a wrapping rewrite plus the signature rewrite; an arbitrary
//! expectation against a literal atom gets only the signature rewrite.
//! A signature rewrite is withheld when the signature is overloaded or
//! its result slot lives in another file.

use vstd::prelude::*;

use crate::base::FileId;
use crate::base::TextRange;
use crate::diagnostics::Diagnostic;
use crate::diagnostics::fix;
use crate::source_change::SourceChange;
use crate::source_change::TextEdit;
use crate::strutil::concat3;
use crate::strutil::string_is;
use crate::view::FileView;
use crate::view::FunctionDef;
use crate::view::SpecDef;
use crate::view::TypeExprKind;
use crate::view::spec_text_at;
use crate::view::text_at;

verus! {

/// A type as the oracle reports it: a literal atom, a tuple, or some
/// other type carried as its printed form.
#[derive(Debug)]
pub enum Type {
    AtomLit(String),
    Tuple(Vec<Type>),
    Other(String),
}

/// A type-mismatch finding.
#[derive(Debug)]
pub struct ExpectedSubtype {
    pub expected: Type,
    pub got: Type,
}

/// The classified errors of the oracle.
#[derive(Debug)]
pub enum TypeError {
    ExpectedSubtype(ExpectedSubtype),
    Other,
}

/// A structured finding attached to an oracle diagnostic.
#[derive(Debug)]
pub enum StructuredDiagnostic {
    TypeError { error: TypeError },
}

/// One diagnostic of the external type checker.
#[derive(Debug)]
pub struct EqwalizerDiagnostic {
    pub range: TextRange,
    pub message: String,
    pub uri: String,
    pub code: String,
    pub expression: Option<String>,
    pub explanation: Option<String>,
    pub diagnostic: Option<StructuredDiagnostic>,
}

/// Structural equality of oracle types.
pub open spec fn spec_type_eq(a: Type, b: Type) -> bool
    decreases a, 1int,
{
    match (a, b) {
        (Type::AtomLit(x), Type::AtomLit(y)) => x@ == y@,
        (Type::Other(x), Type::Other(y)) => x@ == y@,
        (Type::Tuple(xs), Type::Tuple(ys)) => spec_types_eq(xs@, ys@),
        _ => false,
    }
}

pub open spec fn spec_types_eq(a: Seq<Type>, b: Seq<Type>) -> bool
    decreases a, a.len(),
{
    if a.len() != b.len() {
        false
    } else if a.len() == 0 {
        true
    } else {
        spec_type_eq(a[0], b[0]) && spec_types_eq(a.drop_first(), b.drop_first())
    }
}

/// The printed form of an oracle type.
pub open spec fn spec_type_text(t: Type) -> Seq<char>
    decreases t, 1int,
{
    match t {
        Type::AtomLit(s) => s@,
        Type::Other(s) => s@,
        Type::Tuple(ts) => "{"@ + spec_types_text(ts@) + "}"@,
    }
}

pub open spec fn spec_types_text(ts: Seq<Type>) -> Seq<char>
    decreases ts, ts.len() + 1,
{
    spec_types_text_from(ts, 0)
}

/// The printed elements from index `i` on, comma-separated.
pub open spec fn spec_types_text_from(ts: Seq<Type>, i: int) -> Seq<char>
    decreases ts, ts.len() - i,
    when 0 <= i
{
    if i >= ts.len() {
        Seq::empty()
    } else {
        (if i > 0 {
            ", "@
        } else {
            Seq::empty()
        }) + spec_type_text(ts[i]) + spec_types_text_from(ts, i + 1)
    }
}

/// Checks structural equality of oracle types.
pub fn type_eq(a: &Type, b: &Type) -> (r: bool)
    ensures
        r == spec_type_eq(*a, *b),
    decreases *a,
{
    match (a, b) {
        (Type::AtomLit(x), Type::AtomLit(y)) => string_is(x, y.as_str()),
        (Type::Other(x), Type::Other(y)) => string_is(x, y.as_str()),
        (Type::Tuple(xs), Type::Tuple(ys)) => {
            if xs.len() != ys.len() {
                proof {
                    assert(!spec_types_eq(xs@, ys@));
                }
                return false;
            }
            let n = xs.len();
            let mut i: usize = 0;
            proof {
                assert(xs@.skip(0) =~= xs@);
                assert(ys@.skip(0) =~= ys@);
            }
            while i < n
                invariant
                    n == xs@.len(),
                    n == ys@.len(),
                    0 <= i <= n,
                    a.kind_is_tuple_with(xs@),
                    b.kind_is_tuple_with(ys@),
                    spec_types_eq(xs@, ys@) == spec_types_eq(
                        xs@.skip(i as int),
                        ys@.skip(i as int),
                    ),
                decreases n - i,
            {
                proof {
                    assert(decreases_to!(*a => a->Tuple_0));
                    assert(decreases_to!(a->Tuple_0 => a->Tuple_0@));
                    assert(decreases_to!(a->Tuple_0@ => a->Tuple_0@[i as int]));
                    assert(a->Tuple_0@[i as int] == xs@[i as int]);
                }
                let eq = type_eq(&xs[i], &ys[i]);
                proof {
                    assert(xs@.skip(i as int)[0] == xs@[i as int]);
                    assert(ys@.skip(i as int)[0] == ys@[i as int]);
                    assert(xs@.skip(i as int).drop_first() =~= xs@.skip(i + 1));
                    assert(ys@.skip(i as int).drop_first() =~= ys@.skip(i + 1));
                }
                if !eq {
                    proof {
                        assert(!spec_types_eq(xs@.skip(i as int), ys@.skip(i as int)));
                    }
                    return false;
                }
                i += 1;
            }
            proof {
                assert(xs@.skip(n as int) =~= Seq::<Type>::empty());
                assert(ys@.skip(n as int) =~= Seq::<Type>::empty());
            }
            true
        },
        _ => false,
    }
}

impl Type {
    /// Helper for loop invariants: the value is this tuple.
    pub open spec fn kind_is_tuple_with(&self, xs: Seq<Type>) -> bool {
        self is Tuple && self->Tuple_0@ == xs
    }
}

/// Prints an oracle type.
pub fn type_text(t: &Type) -> (r: String)
    ensures
        r@ == spec_type_text(*t),
    decreases *t,
{
    match t {
        Type::AtomLit(s) => s.clone(),
        Type::Other(s) => s.clone(),
        Type::Tuple(ts) => {
            let n = ts.len();
            let mut inner = String::new();
            let mut i: usize = 0;
            proof {
                assert(inner@ =~= Seq::<char>::empty());
                assert(inner@ + spec_types_text_from(ts@, 0) =~= spec_types_text_from(ts@, 0));
            }
            while i < n
                invariant
                    n == ts@.len(),
                    0 <= i <= n,
                    t.kind_is_tuple_with(ts@),
                    inner@ + spec_types_text_from(ts@, i as int) == spec_types_text_from(ts@, 0),
                decreases n - i,
            {
                proof {
                    assert(decreases_to!(*t => t->Tuple_0));
                    assert(decreases_to!(t->Tuple_0 => t->Tuple_0@));
                    assert(decreases_to!(t->Tuple_0@ => t->Tuple_0@[i as int]));
                    assert(t->Tuple_0@[i as int] == ts@[i as int]);
                }
                let piece = type_text(&ts[i]);
                let next = if i > 0 {
                    concat3(inner.as_str(), ", ", piece.as_str())
                } else {
                    crate::strutil::concat2(inner.as_str(), piece.as_str())
                };
                proof {
                    assert(next@ + spec_types_text_from(ts@, i + 1) =~= spec_types_text_from(
                        ts@,
                        0,
                    ));
                }
                inner = next;
                i += 1;
            }
            proof {
                assert(spec_types_text_from(ts@, n as int) =~= Seq::<char>::empty());
                assert(inner@ =~= spec_types_text_from(ts@, 0));
            }
            let out = concat3("{", inner.as_str(), "}");
            out
        },
    }
}

/// The enclosing function of an offset: the first whose span contains it.
pub open spec fn spec_enclosing_function(fs: Seq<FunctionDef>, off: u32) -> Option<FunctionDef>
    decreases fs.len(),
{
    if fs.len() == 0 {
        None
    } else if fs[0].range.spec_contains_offset(off as int) {
        Some(fs[0])
    } else {
        spec_enclosing_function(fs.drop_first(), off)
    }
}

/// Locates the enclosing function's type signature at an offset: only
/// functions with a declared type qualify.
pub open spec fn spec_get_spec(view: FileView, off: u32) -> Option<SpecDef> {
    match spec_enclosing_function(view.functions@, off) {
        Some(f) => f.spec_def,
        None => None,
    }
}

/// Finds the enclosing function of an offset.
fn enclosing_function<'a>(fs: &'a Vec<FunctionDef>, off: u32) -> (r: Option<&'a FunctionDef>)
    ensures
        match r {
            Some(f) => spec_enclosing_function(fs@, off) == Some(*f),
            None => spec_enclosing_function(fs@, off) is None,
        },
{
    let n = fs.len();
    let mut i: usize = 0;
    proof {
        assert(fs@.skip(0) =~= fs@);
    }
    while i < n
        invariant
            n == fs@.len(),
            0 <= i <= n,
            spec_enclosing_function(fs@, off) == spec_enclosing_function(fs@.skip(i as int), off),
        decreases n - i,
    {
        proof {
            assert(fs@.skip(i as int)[0] == fs@[i as int]);
            assert(fs@.skip(i as int).drop_first() =~= fs@.skip(i + 1));
        }
        if fs[i].range.contains_offset(off) {
            return Some(&fs[i]);
        }
        i += 1;
    }
    proof {
        assert(fs@.skip(n as int) =~= Seq::<FunctionDef>::empty());
    }
    None
}

/// The signature-rewrite edit for the actual type `got`, when the
/// enclosing function has exactly one signature whose result slot has a
/// rewritable shape and lies well-formed in the analyzed file.
pub open spec fn spec_spec_fix_edit(view: FileView, d_range: TextRange, got: Type) -> Option<
    (TextRange, Seq<char>),
> {
    match spec_get_spec(view, d_range.start) {
        Some(sd) => if sd.sigs@.len() == 1 {
            let res = sd.sigs@[0].result;
            let shape_ok = match res.kind {
                TypeExprKind::AtomLit(_) => true,
                TypeExprKind::Tuple { args } => args@.len() == 2,
                TypeExprKind::Call { name: _ } => got is AtomLit,
                TypeExprKind::Other => false,
            };
            if shape_ok && res.range.file_id == view.file_id && res.range.range.wf() {
                Some((res.range.range, spec_type_text(got)))
            } else {
                None
            }
        } else {
            None
        },
        None => None,
    }
}

/// One added fix: its identity, label, and single edit.
pub open spec fn fix_ok(
    f: crate::diagnostics::Fix,
    file_id: FileId,
    label: Seq<char>,
    trigger: TextRange,
    edit_range: TextRange,
    edit_text: Seq<char>,
) -> bool {
    &&& f.id@ == "fix_expected_type"@
    &&& f.label@ == label
    &&& f.trigger_range == trigger
    &&& f.source_change.file_id == file_id
    &&& f.source_change.edits@.len() == 1
    &&& f.source_change.edits@[0].range == edit_range
    &&& f.source_change.edits@[0].text@ == edit_text
    &&& f.wf()
}

/// The returned-value rewrite, by mismatch shape.
pub open spec fn spec_return_fix(view: FileView, d: EqwalizerDiagnostic, es: ExpectedSubtype) -> Option<
    (TextRange, Seq<char>),
> {
    match (es.expected, es.got) {
        (Type::AtomLit(_), Type::AtomLit(_)) => if d.range.wf() {
            Some((d.range, spec_type_text(es.expected)))
        } else {
            None
        },
        (Type::Tuple(arg_tys), other2) => if arg_tys@.len() == 2 && arg_tys@[0] is AtomLit
            && spec_type_eq(arg_tys@[1], other2) && d.range.wf() && spec_text_at(
            view.content@,
            d.range,
        ) is Some {
            Some(
                (
                    d.range,
                    "{"@ + spec_type_text(arg_tys@[0]) + ", "@ + spec_text_at(
                        view.content@,
                        d.range,
                    )->Some_0 + "}"@,
                ),
            )
        } else {
            None
        },
        _ => None,
    }
}

/// Appends the signature rewrite when it is available.
fn add_spec_fix(view: &FileView, d_range: TextRange, got: &Type, diagnostic: &mut Diagnostic)
    requires
        old(diagnostic).wf(),
    ensures
        final(diagnostic).wf(),
        final(diagnostic).code == old(diagnostic).code,
        final(diagnostic).message == old(diagnostic).message,
        final(diagnostic).range == old(diagnostic).range,
        final(diagnostic).severity == old(diagnostic).severity,
        final(diagnostic).categories == old(diagnostic).categories,
        match spec_spec_fix_edit(*view, d_range, *got) {
            Some((r, t)) => {
                &&& final(diagnostic).fixes@.len() == old(diagnostic).fixes@.len() + 1
                &&& (forall|i: int|
                    0 <= i < old(diagnostic).fixes@.len() ==> final(diagnostic).fixes@[i] == old(
                        diagnostic,
                    ).fixes@[i])
                &&& fix_ok(
                    final(diagnostic).fixes@[old(diagnostic).fixes@.len() as int],
                    view.file_id,
                    "Update function spec to return '"@ + spec_type_text(*got) + "'"@,
                    old(diagnostic).range,
                    r,
                    t,
                )
            },
            None => final(diagnostic).fixes == old(diagnostic).fixes,
        },
{
    let sd = match enclosing_function(&view.functions, d_range.start) {
        Some(f) => match &f.spec_def {
            Some(sd) => sd,
            None => {
                return ;
            },
        },
        None => {
            return ;
        },
    };
    if sd.sigs.len() != 1 {
        return ;
    }
    let res = &sd.sigs[0].result;
    let shape_ok = match &res.kind {
        TypeExprKind::AtomLit(_) => true,
        TypeExprKind::Tuple { args } => args.len() == 2,
        TypeExprKind::Call { name: _ } => matches!(got, Type::AtomLit(_)),
        TypeExprKind::Other => false,
    };
    if !shape_ok {
        return ;
    }
    if !(res.range.file_id == view.file_id && res.range.range.start <= res.range.range.end) {
        return ;
    }
    let got_text = type_text(got);
    let label = concat3("Update function spec to return '", got_text.as_str(), "'");
    let edit = TextEdit { range: res.range.range, text: got_text };
    let sc = SourceChange::from_text_edit(view.file_id, edit);
    let f = fix("fix_expected_type", label.as_str(), sc, diagnostic.range);
    diagnostic.add_fix(f);
}

/// Shape-matches one oracle finding and appends the offered rewrites to
/// the diagnostic: the returned-value rewrite first (when its shape
/// offers one), the signature rewrite second.
pub fn expected_type(
    view: &FileView,
    d: &EqwalizerDiagnostic,
    diagnostic: &mut Diagnostic,
)
    requires
        old(diagnostic).wf(),
    ensures
        final(diagnostic).wf(),
        final(diagnostic).code == old(diagnostic).code,
        final(diagnostic).message == old(diagnostic).message,
        final(diagnostic).range == old(diagnostic).range,
        match d.diagnostic {
            Some(sd) => {
                let es = sd->TypeError_error->ExpectedSubtype_0;
                if sd->TypeError_error is ExpectedSubtype {
                    ({
                        let rf = spec_return_fix(*view, *d, es);
                        let sf_gate = match (es.expected, es.got) {
                            (Type::AtomLit(_), Type::AtomLit(_)) => true,
                            (Type::Tuple(_), _) => rf is Some,
                            (_, Type::AtomLit(_)) => true,
                            _ => false,
                        };
                        let sf = if sf_gate {
                            spec_spec_fix_edit(*view, d.range, es.got)
                        } else {
                            None
                        };
                        let added: int = (if rf is Some {
                            1int
                        } else {
                            0int
                        }) + (if sf is Some {
                            1int
                        } else {
                            0int
                        });
                        &&& final(diagnostic).fixes@.len() == old(diagnostic).fixes@.len() + added
                        &&& (forall|i: int|
                            0 <= i < old(diagnostic).fixes@.len() ==> final(diagnostic).fixes@[i]
                                == old(diagnostic).fixes@[i])
                        &&& (rf is Some ==> fix_ok(
                            final(diagnostic).fixes@[old(diagnostic).fixes@.len() as int],
                            view.file_id,
                            "Update returned value to '"@ + rf->Some_0.1 + "'"@,
                            d.range,
                            rf->Some_0.0,
                            rf->Some_0.1,
                        ))
                        &&& (sf is Some ==> fix_ok(
                            final(diagnostic).fixes@[final(diagnostic).fixes@.len() - 1],
                            view.file_id,
                            "Update function spec to return '"@ + spec_type_text(es.got) + "'"@,
                            old(diagnostic).range,
                            sf->Some_0.0,
                            sf->Some_0.1,
                        ))
                    })
                } else {
                    final(diagnostic).fixes == old(diagnostic).fixes
                }
            },
            None => final(diagnostic).fixes == old(diagnostic).fixes,
        },
{
    let es = match &d.diagnostic {
        Some(StructuredDiagnostic::TypeError { error: TypeError::ExpectedSubtype(es) }) => es,
        _ => {
            return ;
        },
    };
    match (&es.expected, &es.got) {
        (Type::AtomLit(_), Type::AtomLit(_)) => {
            if d.range.start <= d.range.end {
                let expected_text = type_text(&es.expected);
                let label = concat3("Update returned value to '", expected_text.as_str(), "'");
                let edit = TextEdit { range: d.range, text: expected_text };
                let sc = SourceChange::from_text_edit(view.file_id, edit);
                let f = fix("fix_expected_type", label.as_str(), sc, d.range);
                diagnostic.add_fix(f);
            }
            add_spec_fix(view, d.range, &es.got, diagnostic);
        },
        (Type::Tuple(arg_tys), other2) => {
            let applicable = arg_tys.len() == 2 && matches!(&arg_tys[0], Type::AtomLit(_))
                && type_eq(&arg_tys[1], other2) && d.range.start <= d.range.end;
            if applicable {
                match text_at(&view.content, d.range) {
                    Some(current) => {
                        let atom_text = type_text(&arg_tys[0]);
                        let mid = concat3(atom_text.as_str(), ", ", current.as_str());
                        let replacement = concat3("{", mid.as_str(), "}");
                        proof {
                            assert(replacement@ =~= "{"@ + spec_type_text(arg_tys@[0]) + ", "@
                                + spec_text_at(view.content@, d.range)->Some_0 + "}"@);
                        }
                        let label = concat3(
                            "Update returned value to '",
                            replacement.as_str(),
                            "'",
                        );
                        let edit = TextEdit { range: d.range, text: replacement };
                        let sc = SourceChange::from_text_edit(view.file_id, edit);
                        let f = fix("fix_expected_type", label.as_str(), sc, d.range);
                        diagnostic.add_fix(f);
                        add_spec_fix(view, d.range, &es.got, diagnostic);
                    },
                    None => {},
                }
            }
        },
        (_, Type::AtomLit(_)) => {
            add_spec_fix(view, d.range, &es.got, diagnostic);
        },
        _ => {},
    }
}

} // verus!
