//! Supplementary analyses over the oracle's resolved forms: reporting
//! escape hatches (fixme and ignore markers, per-function opt-outs) and
//! overloaded type signatures.

use vstd::prelude::*;

use crate::base::TextRange;
use crate::expected_type::EqwalizerDiagnostic;

verus! {

/// A position as the oracle reports it.
#[derive(Clone, Copy, PartialEq, Eq, Structural, Debug)]
pub enum Pos {
    TextRange(TextRange),
    LineAndColumn,
}

/// One escape-hatch marker comment.
#[derive(Clone, Copy, PartialEq, Eq, Structural, Debug)]
pub struct Fixme {
    pub comment: TextRange,
    pub is_ignore: bool,
}

/// The forms of the oracle's resolved module that these analyses read.
#[derive(Debug)]
pub enum ExternalForm {
    ElpMetadata { fixmes: Vec<Fixme> },
    EqwalizerNowarnFunction { pos: Pos },
    /// A function type declaration; `types_count` is how many signature
    /// schemes it carries.
    ExternalFunSpec { pos: Pos, types_count: usize },
    Other,
}

/// The findings these analyses produce, by kind and position.
#[derive(Clone, Copy, PartialEq, Eq, Structural, Debug)]
pub enum EscapeKind {
    Fixme,
    Ignore,
    Nowarn,
}

/// The escape-hatch findings of one form, in order.
pub open spec fn form_events(f: ExternalForm) -> Seq<(TextRange, EscapeKind)> {
    match f {
        ExternalForm::ElpMetadata { fixmes } => fixmes@.map_values(
            |fx: Fixme|
                (
                    fx.comment,
                    if fx.is_ignore {
                        EscapeKind::Ignore
                    } else {
                        EscapeKind::Fixme
                    },
                ),
        ),
        ExternalForm::EqwalizerNowarnFunction { pos } => match pos {
            Pos::TextRange(r) => seq![(r, EscapeKind::Nowarn)],
            Pos::LineAndColumn => Seq::empty(),
        },
        _ => Seq::empty(),
    }
}

/// The escape-hatch findings of a module.
pub open spec fn escape_events(forms: Seq<ExternalForm>) -> Seq<(TextRange, EscapeKind)>
    decreases forms.len(),
{
    if forms.len() == 0 {
        Seq::empty()
    } else {
        form_events(forms[0]) + escape_events(forms.drop_first())
    }
}

/// Exactly the diagnostic one escape-hatch finding produces.
pub open spec fn escape_diag_ok(d: EqwalizerDiagnostic, ev: (TextRange, EscapeKind)) -> bool {
    &&& d.range == ev.0
    &&& d.message@ == match ev.1 {
        EscapeKind::Fixme => "%eqwalizer:fixme escape hatch"@,
        EscapeKind::Ignore => "%eqwalizer:ignore escape hatch"@,
        EscapeKind::Nowarn => "-eqwalizer({nowarn_function, ...}) escape hatch"@,
    }
    &&& d.uri@ == match ev.1 {
        EscapeKind::Fixme => "https://fb.me/eqwalizer_stats#eqwalizer_fixme"@,
        EscapeKind::Ignore => "https://fb.me/eqwalizer_stats#eqwalizer_ignore"@,
        EscapeKind::Nowarn => "https://fb.me/eqwalizer_stats#eqwalizer_nowarn"@,
    }
    &&& d.code@ == match ev.1 {
        EscapeKind::Fixme => "eqwalizer_fixme"@,
        EscapeKind::Ignore => "eqwalizer_ignore"@,
        EscapeKind::Nowarn => "eqwalizer_nowarn"@,
    }
    &&& d.expression is None
    &&& d.explanation is None
    &&& d.diagnostic is None
}

/// Builds the diagnostic for one finding.
fn escape_diag(range: TextRange, kind: EscapeKind) -> (d: EqwalizerDiagnostic)
    ensures
        escape_diag_ok(d, (range, kind)),
{
    let (message, uri, code) = match kind {
        EscapeKind::Fixme => (
            "%eqwalizer:fixme escape hatch",
            "https://fb.me/eqwalizer_stats#eqwalizer_fixme",
            "eqwalizer_fixme",
        ),
        EscapeKind::Ignore => (
            "%eqwalizer:ignore escape hatch",
            "https://fb.me/eqwalizer_stats#eqwalizer_ignore",
            "eqwalizer_ignore",
        ),
        EscapeKind::Nowarn => (
            "-eqwalizer({nowarn_function, ...}) escape hatch",
            "https://fb.me/eqwalizer_stats#eqwalizer_nowarn",
            "eqwalizer_nowarn",
        ),
    };
    EqwalizerDiagnostic {
        range,
        message: message.to_owned(),
        uri: uri.to_owned(),
        code: code.to_owned(),
        expression: None,
        explanation: None,
        diagnostic: None,
    }
}

/// Walks the module's forms and reports every escape hatch.
pub fn escape_hatches(diagnostics: &mut Vec<EqwalizerDiagnostic>, ast: &Vec<ExternalForm>)
    ensures
        ({
            let evs = escape_events(ast@);
            &&& final(diagnostics)@.len() == old(diagnostics)@.len() + evs.len()
            &&& forall|i: int|
                0 <= i < old(diagnostics)@.len() ==> final(diagnostics)@[i] == old(
                    diagnostics,
                )@[i]
            &&& forall|j: int|
                0 <= j < evs.len() ==> escape_diag_ok(
                    #[trigger] final(diagnostics)@[old(diagnostics)@.len() + j],
                    evs[j],
                )
        }),
{
    let ghost all = ast@;
    let ghost evs = escape_events(all);
    let n = ast.len();
    let mut i: usize = 0;
    let ghost mut done: Seq<(TextRange, EscapeKind)> = Seq::empty();
    proof {
        assert(all.skip(0) =~= all);
        assert(done + escape_events(all.skip(0)) =~= evs);
    }
    while i < n
        invariant
            n == all.len(),
            all == ast@,
            0 <= i <= n,
            evs == escape_events(all),
            evs == done + escape_events(all.skip(i as int)),
            diagnostics@.len() == old(diagnostics)@.len() + done.len(),
            forall|k: int|
                0 <= k < old(diagnostics)@.len() ==> diagnostics@[k] == old(diagnostics)@[k],
            forall|j: int|
                0 <= j < done.len() ==> escape_diag_ok(
                    #[trigger] diagnostics@[old(diagnostics)@.len() + j],
                    done[j],
                ),
        decreases n - i,
    {
        proof {
            assert(all.skip(i as int)[0] == all[i as int]);
            assert(all.skip(i as int).drop_first() =~= all.skip(i + 1));
        }
        match &ast[i] {
            ExternalForm::ElpMetadata { fixmes } => {
                let m = fixmes.len();
                let mut k: usize = 0;
                let ghost fes = form_events(all[i as int]);
                proof {
                    assert(fes.len() == fixmes@.len());
                }
                while k < m
                    invariant
                        m == fixmes@.len(),
                        0 <= k <= m,
                        all[i as int] is ElpMetadata,
                        all[i as int]->ElpMetadata_fixmes@ == fixmes@,
                        fes == form_events(all[i as int]),
                        fes.len() == m,
                        diagnostics@.len() == old(diagnostics)@.len() + done.len() + k,
                        forall|k2: int|
                            0 <= k2 < old(diagnostics)@.len() ==> diagnostics@[k2] == old(
                                diagnostics,
                            )@[k2],
                        forall|j: int|
                            0 <= j < done.len() ==> escape_diag_ok(
                                #[trigger] diagnostics@[old(diagnostics)@.len() + j],
                                done[j],
                            ),
                        forall|j: int|
                            0 <= j < k ==> escape_diag_ok(
                                #[trigger] diagnostics@[old(diagnostics)@.len() + done.len() + j],
                                fes[j],
                            ),
                    decreases m - k,
                {
                    let fx = fixmes[k];
                    let kind = if fx.is_ignore {
                        EscapeKind::Ignore
                    } else {
                        EscapeKind::Fixme
                    };
                    let d = escape_diag(fx.comment, kind);
                    proof {
                        assert(fes[k as int] == (fx.comment, kind));
                    }
                    diagnostics.push(d);
                    k += 1;
                }
                proof {
                    let pre = done;
                    done = done + fes;
                    assert forall|j: int|
                        0 <= j < done.len() implies escape_diag_ok(
                        #[trigger] diagnostics@[old(diagnostics)@.len() + j],
                        done[j],
                    ) by {
                        if j < pre.len() {
                            assert(done[j] == pre[j]);
                        } else {
                            let jj = j - pre.len();
                            assert(done[j] == fes[jj]);
                            assert(escape_diag_ok(
                                diagnostics@[old(diagnostics)@.len() + pre.len() + jj],
                                fes[jj],
                            ));
                            assert(old(diagnostics)@.len() + j == old(diagnostics)@.len()
                                + pre.len() + jj);
                        }
                    }
                    assert(done + escape_events(all.skip(i + 1)) =~= evs);
                }
            },
            ExternalForm::EqwalizerNowarnFunction { pos } => {
                match pos {
                    Pos::TextRange(r) => {
                        let d = escape_diag(*r, EscapeKind::Nowarn);
                        diagnostics.push(d);
                        proof {
                            done = done.push((*r, EscapeKind::Nowarn));
                            assert(form_events(all[i as int]) =~= seq![
                                (*r, EscapeKind::Nowarn),
                            ]);
                            assert(done + escape_events(all.skip(i + 1)) =~= evs);
                        }
                    },
                    Pos::LineAndColumn => {
                        proof {
                            assert(form_events(all[i as int]) =~= Seq::<
                                (TextRange, EscapeKind),
                            >::empty());
                            assert(done + escape_events(all.skip(i + 1)) =~= evs);
                        }
                    },
                }
            },
            _ => {
                proof {
                    assert(form_events(all[i as int]) =~= Seq::<(TextRange, EscapeKind)>::empty());
                    assert(done + escape_events(all.skip(i + 1)) =~= evs);
                }
            },
        }
        i += 1;
    }
    proof {
        assert(all.skip(n as int) =~= Seq::<ExternalForm>::empty());
        assert(evs =~= done);
    }
}

/// The overloaded signatures of a module: those with more than one
/// scheme and a concrete position.
pub open spec fn overloaded_events(forms: Seq<ExternalForm>) -> Seq<TextRange>
    decreases forms.len(),
{
    if forms.len() == 0 {
        Seq::empty()
    } else {
        (match forms[0] {
            ExternalForm::ExternalFunSpec { pos, types_count } => if types_count > 1 && pos
                is TextRange {
                seq![pos->TextRange_0]
            } else {
                Seq::empty()
            },
            _ => Seq::empty(),
        }) + overloaded_events(forms.drop_first())
    }
}

/// Exactly the diagnostic an overloaded signature produces.
pub open spec fn overloaded_diag_ok(d: EqwalizerDiagnostic, r: TextRange) -> bool {
    &&& d.range == r
    &&& d.message@ == "overloaded spec"@
    &&& d.uri@ == "https://fb.me/eqwalizer_stats#overloaded_spec"@
    &&& d.code@ == "eqwalizer_overloaded_spec"@
    &&& d.expression is None
    &&& d.explanation is None
    &&& d.diagnostic is None
}

/// Walks the module's forms and reports every overloaded signature.
pub fn overloaded_specs(diagnostics: &mut Vec<EqwalizerDiagnostic>, ast: &Vec<ExternalForm>)
    ensures
        ({
            let evs = overloaded_events(ast@);
            &&& final(diagnostics)@.len() == old(diagnostics)@.len() + evs.len()
            &&& forall|i: int|
                0 <= i < old(diagnostics)@.len() ==> final(diagnostics)@[i] == old(
                    diagnostics,
                )@[i]
            &&& forall|j: int|
                0 <= j < evs.len() ==> overloaded_diag_ok(
                    #[trigger] final(diagnostics)@[old(diagnostics)@.len() + j],
                    evs[j],
                )
        }),
{
    let ghost all = ast@;
    let ghost evs = overloaded_events(all);
    let n = ast.len();
    let mut i: usize = 0;
    let ghost mut done: Seq<TextRange> = Seq::empty();
    proof {
        assert(all.skip(0) =~= all);
        assert(done + overloaded_events(all.skip(0)) =~= evs);
    }
    while i < n
        invariant
            n == all.len(),
            all == ast@,
            0 <= i <= n,
            evs == overloaded_events(all),
            evs == done + overloaded_events(all.skip(i as int)),
            diagnostics@.len() == old(diagnostics)@.len() + done.len(),
            forall|k: int|
                0 <= k < old(diagnostics)@.len() ==> diagnostics@[k] == old(diagnostics)@[k],
            forall|j: int|
                0 <= j < done.len() ==> overloaded_diag_ok(
                    #[trigger] diagnostics@[old(diagnostics)@.len() + j],
                    done[j],
                ),
        decreases n - i,
    {
        proof {
            assert(all.skip(i as int)[0] == all[i as int]);
            assert(all.skip(i as int).drop_first() =~= all.skip(i + 1));
        }
        match &ast[i] {
            ExternalForm::ExternalFunSpec { pos, types_count } => {
                if *types_count > 1 {
                    match pos {
                        Pos::TextRange(r) => {
                            let d = EqwalizerDiagnostic {
                                range: *r,
                                message: "overloaded spec".to_owned(),
                                uri: "https://fb.me/eqwalizer_stats#overloaded_spec".to_owned(),
                                code: "eqwalizer_overloaded_spec".to_owned(),
                                expression: None,
                                explanation: None,
                                diagnostic: None,
                            };
                            diagnostics.push(d);
                            proof {
                                done = done.push(*r);
                            }
                        },
                        Pos::LineAndColumn => {},
                    }
                }
            },
            _ => {},
        }
        proof {
            assert(done + overloaded_events(all.skip(i + 1)) =~= evs);
        }
        i += 1;
    }
    proof {
        assert(all.skip(n as int) =~= Seq::<ExternalForm>::empty());
        assert(evs =~= done);
    }
}

} // verus!
