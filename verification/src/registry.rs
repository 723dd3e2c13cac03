//! The rule registry: the fixed table of diagnostic rules, their
//! applicability conditions, the deterministic ordering of results, and
//! the suppression filter.
//!
//! Each applicable rule runs once per file and appends to one
//! accumulator.  The full set is then sorted — primarily by source
//! range, secondarily by rule code — and diagnostics covered by an
//! ignore annotation are dropped, so output is stable across runs for
//! identical input.

use vstd::prelude::*;

use crate::diagnostics::Diagnostic;
use crate::diagnostics::DiagnosticCode;
use crate::expression_can_be_simplified::expression_can_be_simplified;
use crate::inefficient_last::inefficient_last;
use crate::missing_compile_warn_missing_spec::missing_compile_warn_missing_spec;
use crate::module_mismatch::module_mismatch;
use crate::redundant_assignment::redundant_assignment;
use crate::suppression::filter_suppressed;
use crate::suppression::spec_filter_suppressed;
use crate::suppression::spec_suppressed;
use crate::unspecific_include::check_includes;
use crate::view::FileKind;
use crate::view::FileView;

verus! {

broadcast use vstd::seq_lib::group_to_multiset_ensures, vstd::multiset::group_multiset_axioms;

/// When a rule applies to a file.
#[derive(Clone, Copy, PartialEq, Eq, Structural, Debug)]
pub struct DiagnosticConditions {
    pub experimental: bool,
    pub include_generated: bool,
    pub include_tests: bool,
    pub default_disabled: bool,
}

/// The registered rules, in registry order.
#[derive(Clone, Copy, PartialEq, Eq, Structural, Debug)]
pub enum RuleId {
    ExpressionCanBeSimplified,
    UnnecessaryReversalToFindLastElementOfList,
    MissingCompileWarnMissingSpec,
    RedundantAssignment,
    UnspecificInclude,
}

/// One registered rule with its applicability conditions.
#[derive(Clone, Copy, PartialEq, Eq, Structural, Debug)]
pub struct DiagnosticDescriptor {
    pub conditions: DiagnosticConditions,
    pub rule: RuleId,
}

/// Global configuration of a diagnostics run.
#[derive(Debug)]
pub struct DiagnosticsConfig {
    pub experimental_enabled: bool,
    pub include_generated: bool,
    pub enabled: Vec<DiagnosticCode>,
    pub disabled: Vec<DiagnosticCode>,
}

impl DiagnosticsConfig {
    /// The default configuration: nothing extra enabled or disabled.
    pub fn new() -> (c: DiagnosticsConfig)
        ensures
            !c.experimental_enabled,
            !c.include_generated,
            c.enabled@.len() == 0,
            c.disabled@.len() == 0,
    {
        DiagnosticsConfig {
            experimental_enabled: false,
            include_generated: false,
            enabled: Vec::new(),
            disabled: Vec::new(),
        }
    }

    /// Explicitly enables a rule that is disabled by default.
    pub fn enable(self, code: DiagnosticCode) -> (c: DiagnosticsConfig)
        ensures
            c.enabled@ == self.enabled@.push(code),
            c.disabled == self.disabled,
            c.experimental_enabled == self.experimental_enabled,
            c.include_generated == self.include_generated,
    {
        let mut enabled = self.enabled;
        enabled.push(code);
        DiagnosticsConfig { enabled, ..self }
    }

    /// Explicitly disables a rule.
    pub fn disable(self, code: DiagnosticCode) -> (c: DiagnosticsConfig)
        ensures
            c.disabled@ == self.disabled@.push(code),
            c.enabled == self.enabled,
            c.experimental_enabled == self.experimental_enabled,
            c.include_generated == self.include_generated,
    {
        let mut disabled = self.disabled;
        disabled.push(code);
        DiagnosticsConfig { disabled, ..self }
    }
}

/// The diagnostic code a registered rule reports under.
pub open spec fn rule_code(r: RuleId) -> DiagnosticCode {
    match r {
        RuleId::ExpressionCanBeSimplified => DiagnosticCode::ExpressionCanBeSimplified,
        RuleId::UnnecessaryReversalToFindLastElementOfList => DiagnosticCode::UnnecessaryReversalToFindLastElementOfList,
        RuleId::MissingCompileWarnMissingSpec => DiagnosticCode::MissingCompileWarnMissingSpec,
        RuleId::RedundantAssignment => DiagnosticCode::RedundantAssignment,
        RuleId::UnspecificInclude => DiagnosticCode::UnspecificInclude,
    }
}

/// The fixed table of registered rules.
pub open spec fn spec_descriptors() -> Seq<DiagnosticDescriptor> {
    seq![
        DiagnosticDescriptor {
            conditions: DiagnosticConditions {
                experimental: false,
                include_generated: false,
                include_tests: true,
                default_disabled: false,
            },
            rule: RuleId::ExpressionCanBeSimplified,
        },
        DiagnosticDescriptor {
            conditions: DiagnosticConditions {
                experimental: false,
                include_generated: false,
                include_tests: true,
                default_disabled: false,
            },
            rule: RuleId::UnnecessaryReversalToFindLastElementOfList,
        },
        DiagnosticDescriptor {
            conditions: DiagnosticConditions {
                experimental: false,
                include_generated: false,
                include_tests: false,
                default_disabled: true,
            },
            rule: RuleId::MissingCompileWarnMissingSpec,
        },
        DiagnosticDescriptor {
            conditions: DiagnosticConditions {
                experimental: true,
                include_generated: false,
                include_tests: true,
                default_disabled: false,
            },
            rule: RuleId::RedundantAssignment,
        },
        DiagnosticDescriptor {
            conditions: DiagnosticConditions {
                experimental: false,
                include_generated: false,
                include_tests: true,
                default_disabled: false,
            },
            rule: RuleId::UnspecificInclude,
        },
    ]
}

/// Whether a code is listed.
pub open spec fn spec_listed(codes: Seq<DiagnosticCode>, code: DiagnosticCode) -> bool {
    exists|i: int| 0 <= i < codes.len() && codes[i] == code
}

fn listed(codes: &Vec<DiagnosticCode>, code: DiagnosticCode) -> (r: bool)
    ensures
        r == spec_listed(codes@, code),
{
    let n = codes.len();
    let mut i: usize = 0;
    while i < n
        invariant
            n == codes@.len(),
            0 <= i <= n,
            forall|k: int| 0 <= k < i ==> codes@[k] != code,
        decreases n - i,
    {
        if codes[i] == code {
            return true;
        }
        i += 1;
    }
    false
}

/// Whether one registered rule runs on this file under this
/// configuration: generated files only when asked, test files only for
/// rules that include them, disabled-by-default rules only when
/// explicitly enabled, experimental rules only in experimental mode,
/// and never when explicitly disabled.
pub open spec fn spec_applicable(
    d: DiagnosticDescriptor,
    view: FileView,
    config: DiagnosticsConfig,
) -> bool {
    &&& (!view.is_generated || d.conditions.include_generated || config.include_generated)
    &&& (!(view.file_kind is TestModule) || d.conditions.include_tests)
    &&& (!d.conditions.default_disabled || spec_listed(config.enabled@, rule_code(d.rule)))
    &&& (!d.conditions.experimental || config.experimental_enabled)
    &&& !spec_listed(config.disabled@, rule_code(d.rule))
}

fn applicable(d: &DiagnosticDescriptor, view: &FileView, config: &DiagnosticsConfig) -> (r: bool)
    ensures
        r == spec_applicable(*d, *view, *config),
{
    (!view.is_generated || d.conditions.include_generated || config.include_generated)
        && (!matches!(view.file_kind, FileKind::TestModule) || d.conditions.include_tests) && (
    !d.conditions.default_disabled || listed(&config.enabled, rule_code_exec(d.rule))) && (
    !d.conditions.experimental || config.experimental_enabled) && !listed(
        &config.disabled,
        rule_code_exec(d.rule),
    )
}

fn rule_code_exec(r: RuleId) -> (c: DiagnosticCode)
    ensures
        c == rule_code(r),
{
    match r {
        RuleId::ExpressionCanBeSimplified => DiagnosticCode::ExpressionCanBeSimplified,
        RuleId::UnnecessaryReversalToFindLastElementOfList => DiagnosticCode::UnnecessaryReversalToFindLastElementOfList,
        RuleId::MissingCompileWarnMissingSpec => DiagnosticCode::MissingCompileWarnMissingSpec,
        RuleId::RedundantAssignment => DiagnosticCode::RedundantAssignment,
        RuleId::UnspecificInclude => DiagnosticCode::UnspecificInclude,
    }
}

/// Whether the registered rule with the given identity runs on this
/// file under this configuration.
pub open spec fn rule_runs(r: RuleId, view: FileView, config: DiagnosticsConfig) -> bool {
    spec_applicable(
        DiagnosticDescriptor { conditions: spec_conditions(r), rule: r },
        view,
        config,
    )
}

/// The occurrences the simplification rule owes (none when it is not
/// run here).
pub open spec fn owed_simplify(view: FileView, config: DiagnosticsConfig) -> Seq<
    crate::view::ExprNode,
> {
    if rule_runs(RuleId::ExpressionCanBeSimplified, view, config) {
        crate::expression_can_be_simplified::simplify_matches(
            crate::fold::visit_functions(
                view.functions@,
                crate::expression_can_be_simplified::spec_strategy(),
            ),
            view.content@,
            view.file_id,
        )
    } else {
        Seq::empty()
    }
}

/// The occurrences the head-of-reverse rule owes, by pattern family.
pub open spec fn owed_last(view: FileView, config: DiagnosticsConfig, hd_form: bool) -> Seq<
    crate::view::ExprNode,
> {
    if rule_runs(RuleId::UnnecessaryReversalToFindLastElementOfList, view, config) {
        crate::inefficient_last::last_matches(
            crate::fold::visit_functions(
                view.functions@,
                crate::inefficient_last::spec_strategy(),
            ),
            view,
            hd_form,
        )
    } else {
        Seq::empty()
    }
}

/// How many findings the missing-compile-option rule owes.
pub open spec fn owed_missing_spec(view: FileView, config: DiagnosticsConfig) -> int {
    if rule_runs(RuleId::MissingCompileWarnMissingSpec, view, config)
        && crate::missing_compile_warn_missing_spec::spec_report_range(view) is Some {
        1int
    } else {
        0int
    }
}

/// The assignments the redundant-assignment rule owes, with their
/// clauses.
pub open spec fn owed_redundant(view: FileView, config: DiagnosticsConfig) -> Seq<
    (crate::view::FunctionClause, crate::view::ExprNode),
> {
    if rule_runs(RuleId::RedundantAssignment, view, config) && !view.is_generated {
        crate::redundant_assignment::file_matched(
            crate::redundant_assignment::all_clauses(view.functions@),
            view,
        )
    } else {
        Seq::empty()
    }
}

/// The includes the unspecific-include rule owes.
pub open spec fn owed_includes(view: FileView, config: DiagnosticsConfig) -> Seq<
    crate::view::IncludeAttribute,
> {
    if rule_runs(RuleId::UnspecificInclude, view, config) {
        crate::unspecific_include::include_matches(view.includes@, view)
    } else {
        Seq::empty()
    }
}

/// How many findings the module-name check owes.
pub open spec fn owed_mismatch(view: FileView, config: DiagnosticsConfig) -> int {
    if !spec_listed(config.disabled@, DiagnosticCode::ModuleMismatch)
        && crate::module_mismatch::spec_mismatch(view) {
        1int
    } else {
        0int
    }
}

/// Where each rule's segment starts in the collected accumulator, in
/// registry order.
pub open spec fn off_last_hd(view: FileView, config: DiagnosticsConfig) -> int {
    owed_simplify(view, config).len() as int
}

pub open spec fn off_last_pat(view: FileView, config: DiagnosticsConfig) -> int {
    off_last_hd(view, config) + owed_last(view, config, true).len()
}

pub open spec fn off_missing_spec(view: FileView, config: DiagnosticsConfig) -> int {
    off_last_pat(view, config) + owed_last(view, config, false).len()
}

pub open spec fn off_redundant(view: FileView, config: DiagnosticsConfig) -> int {
    off_missing_spec(view, config) + owed_missing_spec(view, config)
}

pub open spec fn off_includes(view: FileView, config: DiagnosticsConfig) -> int {
    off_redundant(view, config) + owed_redundant(view, config).len()
}

pub open spec fn off_mismatch(view: FileView, config: DiagnosticsConfig) -> int {
    off_includes(view, config) + owed_includes(view, config).len()
}

pub open spec fn total_owed(view: FileView, config: DiagnosticsConfig) -> int {
    off_mismatch(view, config) + owed_mismatch(view, config)
}

/// The collected accumulator holds exactly the owed findings: each
/// applicable rule's matched occurrences in registry order, then the
/// module-name check, every element pinned by its rule's own
/// diagnostic-shape predicate.
pub open spec fn spec_collected(
    out: Seq<Diagnostic>,
    view: FileView,
    config: DiagnosticsConfig,
) -> bool {
    &&& out.len() == total_owed(view, config)
    &&& (forall|j: int|
        0 <= j < owed_simplify(view, config).len()
            ==> crate::expression_can_be_simplified::simplify_diag_ok(
            #[trigger] out[j],
            owed_simplify(view, config)[j],
            view.content@,
            view.file_id,
        ))
    &&& (forall|j: int|
        0 <= j < owed_last(view, config, true).len()
            ==> crate::inefficient_last::last_diag_ok(
            #[trigger] out[off_last_hd(view, config) + j],
            owed_last(view, config, true)[j],
            view,
            crate::inefficient_last::hd_replacement(
                owed_last(view, config, true)[j],
                view,
            )->Some_0,
            "list_head_reverse_to_last"@,
            false,
        ))
    &&& (forall|j: int|
        0 <= j < owed_last(view, config, false).len()
            ==> crate::inefficient_last::last_diag_ok(
            #[trigger] out[off_last_pat(view, config) + j],
            owed_last(view, config, false)[j],
            view,
            crate::inefficient_last::pat_replacement(
                owed_last(view, config, false)[j],
                view,
            )->Some_0,
            "unnecessary_reversal_to_find_last_element_of_list"@,
            true,
        ))
    &&& (owed_missing_spec(view, config) == 1
        ==> crate::missing_compile_warn_missing_spec::missing_spec_diag_ok(
        out[off_missing_spec(view, config)],
        view,
        crate::missing_compile_warn_missing_spec::spec_report_range(view)->Some_0,
    ))
    &&& (forall|j: int|
        0 <= j < owed_redundant(view, config).len()
            ==> crate::redundant_assignment::redundant_diag_ok(
            #[trigger] out[off_redundant(view, config) + j],
            owed_redundant(view, config)[j].1,
            owed_redundant(view, config)[j].0,
            view,
        ))
    &&& (forall|j: int|
        0 <= j < owed_includes(view, config).len()
            ==> crate::unspecific_include::include_diag_ok(
            #[trigger] out[off_includes(view, config) + j],
            owed_includes(view, config)[j],
            view,
        ))
    &&& (owed_mismatch(view, config) == 1 ==> crate::module_mismatch::mismatch_diag_ok(
        out[off_mismatch(view, config)],
        view,
    ))
}

/// Runs every applicable registered rule, in registry order, then the
/// module-name check; every rule only appends to the shared accumulator,
/// and the result holds exactly the owed findings.
/// Stage one: the simplification rule, when applicable.
fn run_simplify_stage(out: &mut Vec<Diagnostic>, view: &FileView, config: &DiagnosticsConfig, d:
    &DiagnosticDescriptor)
    requires
        old(out)@.len() == 0,
        *d == (DiagnosticDescriptor {
            conditions: spec_conditions(RuleId::ExpressionCanBeSimplified),
            rule: RuleId::ExpressionCanBeSimplified,
        }),
    ensures
        final(out)@.len() == owed_simplify(*view, *config).len(),
        forall|j: int|
            0 <= j < owed_simplify(*view, *config).len()
                ==> crate::expression_can_be_simplified::simplify_diag_ok(
                #[trigger] final(out)@[j],
                owed_simplify(*view, *config)[j],
                view.content@,
                view.file_id,
            ),
        forall|i: int|
            old(out)@.len() <= i < final(out)@.len() ==> (#[trigger] final(out)@[i]).code
                == DiagnosticCode::ExpressionCanBeSimplified && final(out)@[i].wf(),
{
    let ghost pre = out@;
    if applicable(d, view, config) {
        proof {
            assert(rule_runs(RuleId::ExpressionCanBeSimplified, *view, *config));
        }
        expression_can_be_simplified(out, view);
        proof {
            let matched = owed_simplify(*view, *config);
            assert(matched == crate::expression_can_be_simplified::simplify_matches(
                crate::fold::visit_functions(
                    view.functions@,
                    crate::expression_can_be_simplified::spec_strategy(),
                ),
                view.content@,
                view.file_id,
            ));
            assert forall|j: int|
                0 <= j < matched.len() implies crate::expression_can_be_simplified::simplify_diag_ok(
                #[trigger] out@[j],
                matched[j],
                view.content@,
                view.file_id,
            ) by {
                assert(crate::expression_can_be_simplified::simplify_diag_ok(
                    out@[pre.len() + j],
                    matched[j],
                    view.content@,
                    view.file_id,
                ));
            }
            assert forall|i: int|
                pre.len() <= i < out@.len() implies (#[trigger] out@[i]).code
                == DiagnosticCode::ExpressionCanBeSimplified && out@[i].wf() by {
                let j = i - pre.len();
                assert(crate::expression_can_be_simplified::simplify_diag_ok(
                    out@[pre.len() + j],
                    matched[j],
                    view.content@,
                    view.file_id,
                ));
            }
        }
    } else {
        proof {
            assert(!rule_runs(RuleId::ExpressionCanBeSimplified, *view, *config));
            assert(owed_simplify(*view, *config).len() == 0);
        }
    }
}

/// Stage two: the head-of-reverse rule, when applicable.
fn run_last_stage(out: &mut Vec<Diagnostic>, view: &FileView, config: &DiagnosticsConfig, d:
    &DiagnosticDescriptor)
    requires
        *d == (DiagnosticDescriptor {
            conditions: spec_conditions(RuleId::UnnecessaryReversalToFindLastElementOfList),
            rule: RuleId::UnnecessaryReversalToFindLastElementOfList,
        }),
    ensures
        final(out)@.len() == old(out)@.len() + owed_last(*view, *config, true).len() + owed_last(
            *view,
            *config,
            false,
        ).len(),
        forall|i: int| 0 <= i < old(out)@.len() ==> final(out)@[i] == old(out)@[i],
        forall|j: int|
            0 <= j < owed_last(*view, *config, true).len()
                ==> crate::inefficient_last::last_diag_ok(
                #[trigger] final(out)@[old(out)@.len() + j],
                owed_last(*view, *config, true)[j],
                *view,
                crate::inefficient_last::hd_replacement(
                    owed_last(*view, *config, true)[j],
                    *view,
                )->Some_0,
                "list_head_reverse_to_last"@,
                false,
            ),
        forall|j: int|
            0 <= j < owed_last(*view, *config, false).len()
                ==> crate::inefficient_last::last_diag_ok(
                #[trigger] final(out)@[old(out)@.len() + owed_last(*view, *config, true).len()
                    + j],
                owed_last(*view, *config, false)[j],
                *view,
                crate::inefficient_last::pat_replacement(
                    owed_last(*view, *config, false)[j],
                    *view,
                )->Some_0,
                "unnecessary_reversal_to_find_last_element_of_list"@,
                true,
            ),
        forall|i: int|
            old(out)@.len() <= i < final(out)@.len() ==> (#[trigger] final(out)@[i]).code
                == DiagnosticCode::UnnecessaryReversalToFindLastElementOfList
                && final(out)@[i].wf(),
{
    let ghost pre = out@;
    if applicable(d, view, config) {
        proof {
            assert(rule_runs(
                RuleId::UnnecessaryReversalToFindLastElementOfList,
                *view,
                *config,
            ));
        }
        inefficient_last(out, view);
        proof {
            let hd = owed_last(*view, *config, true);
            let pat = owed_last(*view, *config, false);
            let all = crate::fold::visit_functions(
                view.functions@,
                crate::inefficient_last::spec_strategy(),
            );
            assert(hd == crate::inefficient_last::last_matches(all, *view, true));
            assert(pat == crate::inefficient_last::last_matches(all, *view, false));
            assert forall|i: int|
                pre.len() <= i < out@.len() implies (#[trigger] out@[i]).code
                == DiagnosticCode::UnnecessaryReversalToFindLastElementOfList && out@[i].wf() by {
                if i < pre.len() + hd.len() {
                    let j = i - pre.len();
                    assert(crate::inefficient_last::last_diag_ok(
                        out@[pre.len() + j],
                        hd[j],
                        *view,
                        crate::inefficient_last::hd_replacement(hd[j], *view)->Some_0,
                        "list_head_reverse_to_last"@,
                        false,
                    ));
                } else {
                    let j = i - pre.len() - hd.len();
                    assert(crate::inefficient_last::last_diag_ok(
                        out@[pre.len() + hd.len() + j],
                        pat[j],
                        *view,
                        crate::inefficient_last::pat_replacement(pat[j], *view)->Some_0,
                        "unnecessary_reversal_to_find_last_element_of_list"@,
                        true,
                    ));
                }
            }
        }
    } else {
        proof {
            assert(!rule_runs(
                RuleId::UnnecessaryReversalToFindLastElementOfList,
                *view,
                *config,
            ));
            assert(owed_last(*view, *config, true).len() == 0);
            assert(owed_last(*view, *config, false).len() == 0);
        }
    }
}

/// Stage three: the missing-compile-option rule, when applicable.
fn run_missing_spec_stage(out: &mut Vec<Diagnostic>, view: &FileView, config: &DiagnosticsConfig, d:
    &DiagnosticDescriptor)
    requires
        *d == (DiagnosticDescriptor {
            conditions: spec_conditions(RuleId::MissingCompileWarnMissingSpec),
            rule: RuleId::MissingCompileWarnMissingSpec,
        }),
    ensures
        final(out)@.len() == old(out)@.len() + owed_missing_spec(*view, *config),
        forall|i: int| 0 <= i < old(out)@.len() ==> final(out)@[i] == old(out)@[i],
        owed_missing_spec(*view, *config) == 1
            ==> crate::missing_compile_warn_missing_spec::missing_spec_diag_ok(
            final(out)@[old(out)@.len() as int],
            *view,
            crate::missing_compile_warn_missing_spec::spec_report_range(*view)->Some_0,
        ),
        forall|i: int|
            old(out)@.len() <= i < final(out)@.len() ==> (#[trigger] final(out)@[i]).code
                == DiagnosticCode::MissingCompileWarnMissingSpec && final(out)@[i].wf(),
{
    let ghost pre = out@;
    if applicable(d, view, config) {
        proof {
            assert(rule_runs(RuleId::MissingCompileWarnMissingSpec, *view, *config));
        }
        missing_compile_warn_missing_spec(out, view);
        proof {
            assert forall|i: int|
                pre.len() <= i < out@.len() implies (#[trigger] out@[i]).code
                == DiagnosticCode::MissingCompileWarnMissingSpec && out@[i].wf() by {
                assert(i == pre.len());
            }
        }
    } else {
        proof {
            assert(!rule_runs(RuleId::MissingCompileWarnMissingSpec, *view, *config));
            assert(owed_missing_spec(*view, *config) == 0);
        }
    }
}

/// Stage four: the redundant-assignment rule, when applicable.
fn run_redundant_stage(out: &mut Vec<Diagnostic>, view: &FileView, config: &DiagnosticsConfig, d:
    &DiagnosticDescriptor)
    requires
        *d == (DiagnosticDescriptor {
            conditions: spec_conditions(RuleId::RedundantAssignment),
            rule: RuleId::RedundantAssignment,
        }),
    ensures
        final(out)@.len() == old(out)@.len() + owed_redundant(*view, *config).len(),
        forall|i: int| 0 <= i < old(out)@.len() ==> final(out)@[i] == old(out)@[i],
        forall|j: int|
            0 <= j < owed_redundant(*view, *config).len()
                ==> crate::redundant_assignment::redundant_diag_ok(
                #[trigger] final(out)@[old(out)@.len() + j],
                owed_redundant(*view, *config)[j].1,
                owed_redundant(*view, *config)[j].0,
                *view,
            ),
        forall|i: int|
            old(out)@.len() <= i < final(out)@.len() ==> (#[trigger] final(out)@[i]).code
                == DiagnosticCode::RedundantAssignment && final(out)@[i].wf(),
{
    let ghost pre = out@;
    if applicable(d, view, config) {
        proof {
            assert(rule_runs(RuleId::RedundantAssignment, *view, *config));
        }
        redundant_assignment(out, view);
        proof {
            let matched = owed_redundant(*view, *config);
            if !view.is_generated {
                assert(matched == crate::redundant_assignment::file_matched(
                    crate::redundant_assignment::all_clauses(view.functions@),
                    *view,
                ));
            }
            assert forall|i: int|
                pre.len() <= i < out@.len() implies (#[trigger] out@[i]).code
                == DiagnosticCode::RedundantAssignment && out@[i].wf() by {
                let j = i - pre.len();
                assert(crate::redundant_assignment::redundant_diag_ok(
                    out@[pre.len() + j],
                    matched[j].1,
                    matched[j].0,
                    *view,
                ));
            }
        }
    } else {
        proof {
            assert(!rule_runs(RuleId::RedundantAssignment, *view, *config));
            assert(owed_redundant(*view, *config).len() == 0);
        }
    }
}

/// Stage five: the unspecific-include rule, when applicable.
fn run_includes_stage(out: &mut Vec<Diagnostic>, view: &FileView, config: &DiagnosticsConfig, d:
    &DiagnosticDescriptor)
    requires
        *d == (DiagnosticDescriptor {
            conditions: spec_conditions(RuleId::UnspecificInclude),
            rule: RuleId::UnspecificInclude,
        }),
    ensures
        final(out)@.len() == old(out)@.len() + owed_includes(*view, *config).len(),
        forall|i: int| 0 <= i < old(out)@.len() ==> final(out)@[i] == old(out)@[i],
        forall|j: int|
            0 <= j < owed_includes(*view, *config).len()
                ==> crate::unspecific_include::include_diag_ok(
                #[trigger] final(out)@[old(out)@.len() + j],
                owed_includes(*view, *config)[j],
                *view,
            ),
        forall|i: int|
            old(out)@.len() <= i < final(out)@.len() ==> (#[trigger] final(out)@[i]).code
                == DiagnosticCode::UnspecificInclude && final(out)@[i].wf(),
{
    let ghost pre = out@;
    if applicable(d, view, config) {
        proof {
            assert(rule_runs(RuleId::UnspecificInclude, *view, *config));
        }
        check_includes(out, view);
        proof {
            let matched = owed_includes(*view, *config);
            assert(matched == crate::unspecific_include::include_matches(view.includes@, *view));
            assert forall|i: int|
                pre.len() <= i < out@.len() implies (#[trigger] out@[i]).code
                == DiagnosticCode::UnspecificInclude && out@[i].wf() by {
                let j = i - pre.len();
                assert(crate::unspecific_include::include_diag_ok(
                    out@[pre.len() + j],
                    matched[j],
                    *view,
                ));
            }
        }
    } else {
        proof {
            assert(!rule_runs(RuleId::UnspecificInclude, *view, *config));
            assert(owed_includes(*view, *config).len() == 0);
        }
    }
}

/// Final stage: the module-name check, unless disabled.
fn run_mismatch_stage(out: &mut Vec<Diagnostic>, view: &FileView, config: &DiagnosticsConfig)
    ensures
        final(out)@.len() == old(out)@.len() + owed_mismatch(*view, *config),
        forall|i: int| 0 <= i < old(out)@.len() ==> final(out)@[i] == old(out)@[i],
        owed_mismatch(*view, *config) == 1 ==> crate::module_mismatch::mismatch_diag_ok(
            final(out)@[old(out)@.len() as int],
            *view,
        ),
        forall|i: int|
            old(out)@.len() <= i < final(out)@.len() ==> (#[trigger] final(out)@[i]).code
                == DiagnosticCode::ModuleMismatch && final(out)@[i].wf(),
{
    let ghost pre = out@;
    if !listed(&config.disabled, DiagnosticCode::ModuleMismatch) {
        module_mismatch(out, view);
        proof {
            assert forall|i: int|
                pre.len() <= i < out@.len() implies (#[trigger] out@[i]).code
                == DiagnosticCode::ModuleMismatch && out@[i].wf() by {
                assert(i == pre.len());
                assert(crate::module_mismatch::mismatch_diag_ok(out@[pre.len() as int], *view));
            }
        }
    } else {
        proof {
            assert(owed_mismatch(*view, *config) == 0);
        }
    }
}

/// Runs every applicable registered rule, in registry order, then the
/// module-name check; every rule only appends to the shared accumulator,
/// and the result holds exactly the owed findings.
pub fn collect_diagnostics(view: &FileView, config: &DiagnosticsConfig) -> (out: Vec<Diagnostic>)
    ensures
        spec_collected(out@, *view, *config),
        forall|r: RuleId|
            !spec_applicable(
                DiagnosticDescriptor { conditions: spec_conditions(r), rule: r },
                *view,
                *config,
            ) ==> forall|i: int|
                0 <= i < out@.len() ==> (#[trigger] out@[i]).code != rule_code(r)
                    || out@[i].code == DiagnosticCode::ModuleMismatch,
        forall|i: int| 0 <= i < out@.len() ==> (#[trigger] out@[i]).wf(),
        spec_listed(config.disabled@, DiagnosticCode::ModuleMismatch) ==> forall|i: int|
            0 <= i < out@.len() ==> (#[trigger] out@[i]).code != DiagnosticCode::ModuleMismatch,
{
    let mut out: Vec<Diagnostic> = Vec::new();
    let ds = descriptors();
    proof {
        assert(out@.len() == 0);
    }
    run_simplify_stage(&mut out, view, config, &ds[0]);
    let ghost snap1 = out@;
    proof {
        assert(snap1.len() == off_last_hd(*view, *config));
    }
    run_last_stage(&mut out, view, config, &ds[1]);
    let ghost snap2 = out@;
    proof {
        assert(snap2.len() == off_missing_spec(*view, *config));
    }
    run_missing_spec_stage(&mut out, view, config, &ds[2]);
    let ghost snap3 = out@;
    proof {
        assert(snap3.len() == off_redundant(*view, *config));
    }
    run_redundant_stage(&mut out, view, config, &ds[3]);
    let ghost snap4 = out@;
    proof {
        assert(snap4.len() == off_includes(*view, *config));
    }
    run_includes_stage(&mut out, view, config, &ds[4]);
    let ghost snap5 = out@;
    proof {
        assert(snap5.len() == off_mismatch(*view, *config));
    }
    run_mismatch_stage(&mut out, view, config);
    proof {
        lemma_collected_assembled(out@, snap1, snap2, snap3, snap4, snap5, *view, *config);
        lemma_collected_consequences(out@, *view, *config);
    }
    out
}

/// Stitches the per-stage snapshots into the collected-output shape:
/// every earlier segment is unchanged by the later appends.
proof fn lemma_collected_assembled(
    out: Seq<Diagnostic>,
    snap1: Seq<Diagnostic>,
    snap2: Seq<Diagnostic>,
    snap3: Seq<Diagnostic>,
    snap4: Seq<Diagnostic>,
    snap5: Seq<Diagnostic>,
    view: FileView,
    config: DiagnosticsConfig,
)
    requires
        snap1.len() == off_last_hd(view, config),
        snap2.len() == off_missing_spec(view, config),
        snap3.len() == off_redundant(view, config),
        snap4.len() == off_includes(view, config),
        snap5.len() == off_mismatch(view, config),
        out.len() == total_owed(view, config),
        forall|i: int| 0 <= i < snap1.len() ==> snap2[i] == snap1[i],
        forall|i: int| 0 <= i < snap2.len() ==> snap3[i] == snap2[i],
        forall|i: int| 0 <= i < snap3.len() ==> snap4[i] == snap3[i],
        forall|i: int| 0 <= i < snap4.len() ==> snap5[i] == snap4[i],
        forall|i: int| 0 <= i < snap5.len() ==> out[i] == snap5[i],
        forall|j: int|
            0 <= j < owed_simplify(view, config).len()
                ==> crate::expression_can_be_simplified::simplify_diag_ok(
                #[trigger] snap1[j],
                owed_simplify(view, config)[j],
                view.content@,
                view.file_id,
            ),
        forall|j: int|
            0 <= j < owed_last(view, config, true).len()
                ==> crate::inefficient_last::last_diag_ok(
                #[trigger] snap2[off_last_hd(view, config) + j],
                owed_last(view, config, true)[j],
                view,
                crate::inefficient_last::hd_replacement(
                    owed_last(view, config, true)[j],
                    view,
                )->Some_0,
                "list_head_reverse_to_last"@,
                false,
            ),
        forall|j: int|
            0 <= j < owed_last(view, config, false).len()
                ==> crate::inefficient_last::last_diag_ok(
                #[trigger] snap2[off_last_pat(view, config) + j],
                owed_last(view, config, false)[j],
                view,
                crate::inefficient_last::pat_replacement(
                    owed_last(view, config, false)[j],
                    view,
                )->Some_0,
                "unnecessary_reversal_to_find_last_element_of_list"@,
                true,
            ),
        owed_missing_spec(view, config) == 1
            ==> crate::missing_compile_warn_missing_spec::missing_spec_diag_ok(
            snap3[off_missing_spec(view, config)],
            view,
            crate::missing_compile_warn_missing_spec::spec_report_range(view)->Some_0,
        ),
        forall|j: int|
            0 <= j < owed_redundant(view, config).len()
                ==> crate::redundant_assignment::redundant_diag_ok(
                #[trigger] snap4[off_redundant(view, config) + j],
                owed_redundant(view, config)[j].1,
                owed_redundant(view, config)[j].0,
                view,
            ),
        forall|j: int|
            0 <= j < owed_includes(view, config).len()
                ==> crate::unspecific_include::include_diag_ok(
                #[trigger] snap5[off_includes(view, config) + j],
                owed_includes(view, config)[j],
                view,
            ),
        owed_mismatch(view, config) == 1 ==> crate::module_mismatch::mismatch_diag_ok(
            out[off_mismatch(view, config)],
            view,
        ),
    ensures
        spec_collected(out, view, config),
{
    assert forall|i: int| 0 <= i < snap1.len() implies out[i] == snap1[i] by {
        assert(snap2[i] == snap1[i]);
        assert(snap3[i] == snap2[i]);
        assert(snap4[i] == snap3[i]);
        assert(snap5[i] == snap4[i]);
    }
    assert forall|i: int| 0 <= i < snap2.len() implies out[i] == snap2[i] by {
        assert(snap3[i] == snap2[i]);
        assert(snap4[i] == snap3[i]);
        assert(snap5[i] == snap4[i]);
    }
    assert forall|i: int| 0 <= i < snap3.len() implies out[i] == snap3[i] by {
        assert(snap4[i] == snap3[i]);
        assert(snap5[i] == snap4[i]);
    }
    assert forall|i: int| 0 <= i < snap4.len() implies out[i] == snap4[i] by {
        assert(snap5[i] == snap4[i]);
    }
}

/// The code the collected element at position `i` carries, by segment.
pub open spec fn seg_code(view: FileView, config: DiagnosticsConfig, i: int) -> DiagnosticCode {
    if i < off_last_hd(view, config) {
        DiagnosticCode::ExpressionCanBeSimplified
    } else if i < off_missing_spec(view, config) {
        DiagnosticCode::UnnecessaryReversalToFindLastElementOfList
    } else if i < off_redundant(view, config) {
        DiagnosticCode::MissingCompileWarnMissingSpec
    } else if i < off_includes(view, config) {
        DiagnosticCode::RedundantAssignment
    } else if i < off_mismatch(view, config) {
        DiagnosticCode::UnspecificInclude
    } else {
        DiagnosticCode::ModuleMismatch
    }
}

/// What the collected shape already decides: every element is
/// well-formed and carries its segment's code, so rules that do not run
/// contribute nothing.
proof fn lemma_collected_consequences(out: Seq<Diagnostic>, view: FileView, config: DiagnosticsConfig)
    requires
        spec_collected(out, view, config),
    ensures
        forall|i: int| 0 <= i < out.len() ==> (#[trigger] out[i]).wf(),
        forall|i: int| 0 <= i < out.len() ==> (#[trigger] out[i]).code == seg_code(view, config, i),
        forall|r: RuleId|
            !rule_runs(r, view, config) ==> forall|i: int|
                0 <= i < out.len() ==> (#[trigger] out[i]).code != rule_code(r) || out[i].code
                    == DiagnosticCode::ModuleMismatch,
        spec_listed(config.disabled@, DiagnosticCode::ModuleMismatch) ==> forall|i: int|
            0 <= i < out.len() ==> (#[trigger] out[i]).code != DiagnosticCode::ModuleMismatch,
{
    assert forall|i: int|
        0 <= i < out.len() implies (#[trigger] out[i]).wf() && out[i].code == seg_code(
        view,
        config,
        i,
    ) by {
        if i < off_last_hd(view, config) {
            assert(crate::expression_can_be_simplified::simplify_diag_ok(
                out[i],
                owed_simplify(view, config)[i],
                view.content@,
                view.file_id,
            ));
        } else if i < off_last_pat(view, config) {
            let j = i - off_last_hd(view, config);
            assert(crate::inefficient_last::last_diag_ok(
                out[off_last_hd(view, config) + j],
                owed_last(view, config, true)[j],
                view,
                crate::inefficient_last::hd_replacement(
                    owed_last(view, config, true)[j],
                    view,
                )->Some_0,
                "list_head_reverse_to_last"@,
                false,
            ));
        } else if i < off_missing_spec(view, config) {
            let j = i - off_last_pat(view, config);
            assert(crate::inefficient_last::last_diag_ok(
                out[off_last_pat(view, config) + j],
                owed_last(view, config, false)[j],
                view,
                crate::inefficient_last::pat_replacement(
                    owed_last(view, config, false)[j],
                    view,
                )->Some_0,
                "unnecessary_reversal_to_find_last_element_of_list"@,
                true,
            ));
        } else if i < off_redundant(view, config) {
            assert(i == off_missing_spec(view, config));
            assert(owed_missing_spec(view, config) == 1);
        } else if i < off_includes(view, config) {
            let j = i - off_redundant(view, config);
            assert(crate::redundant_assignment::redundant_diag_ok(
                out[off_redundant(view, config) + j],
                owed_redundant(view, config)[j].1,
                owed_redundant(view, config)[j].0,
                view,
            ));
        } else if i < off_mismatch(view, config) {
            let j = i - off_includes(view, config);
            assert(crate::unspecific_include::include_diag_ok(
                out[off_includes(view, config) + j],
                owed_includes(view, config)[j],
                view,
            ));
        } else {
            assert(i == off_mismatch(view, config));
            assert(owed_mismatch(view, config) == 1);
        }
    }
    assert forall|r: RuleId|
        !rule_runs(r, view, config) implies forall|i: int|
        0 <= i < out.len() ==> (#[trigger] out[i]).code != rule_code(r) || out[i].code
            == DiagnosticCode::ModuleMismatch by {
        assert forall|i: int|
            0 <= i < out.len() implies (#[trigger] out[i]).code != rule_code(r) || out[i].code
            == DiagnosticCode::ModuleMismatch by {
            if out[i].code == rule_code(r) && out[i].code != DiagnosticCode::ModuleMismatch {
                assert(seg_code(view, config, i) == rule_code(r));
                if i < off_last_hd(view, config) {
                    assert(owed_simplify(view, config).len() > 0);
                } else if i < off_missing_spec(view, config) {
                    assert(rule_runs(
                        RuleId::UnnecessaryReversalToFindLastElementOfList,
                        view,
                        config,
                    ));
                } else if i < off_redundant(view, config) {
                    assert(owed_missing_spec(view, config) == 1);
                } else if i < off_includes(view, config) {
                    assert(owed_redundant(view, config).len() > 0);
                } else if i < off_mismatch(view, config) {
                    assert(owed_includes(view, config).len() > 0);
                }
            }
        }
    }
    if spec_listed(config.disabled@, DiagnosticCode::ModuleMismatch) {
        assert(owed_mismatch(view, config) == 0);
    }
}

/// The registered conditions of each rule.
pub open spec fn spec_conditions(r: RuleId) -> DiagnosticConditions {
    match r {
        RuleId::ExpressionCanBeSimplified => DiagnosticConditions {
            experimental: false,
            include_generated: false,
            include_tests: true,
            default_disabled: false,
        },
        RuleId::UnnecessaryReversalToFindLastElementOfList => DiagnosticConditions {
            experimental: false,
            include_generated: false,
            include_tests: true,
            default_disabled: false,
        },
        RuleId::MissingCompileWarnMissingSpec => DiagnosticConditions {
            experimental: false,
            include_generated: false,
            include_tests: false,
            default_disabled: true,
        },
        RuleId::RedundantAssignment => DiagnosticConditions {
            experimental: true,
            include_generated: false,
            include_tests: true,
            default_disabled: false,
        },
        RuleId::UnspecificInclude => DiagnosticConditions {
            experimental: false,
            include_generated: false,
            include_tests: true,
            default_disabled: false,
        },
    }
}

/// The fixed table, as a value.
pub fn descriptors() -> (ds: Vec<DiagnosticDescriptor>)
    ensures
        ds@ == spec_descriptors(),
{
    let mut ds: Vec<DiagnosticDescriptor> = Vec::new();
    ds.push(
        DiagnosticDescriptor {
            conditions: DiagnosticConditions {
                experimental: false,
                include_generated: false,
                include_tests: true,
                default_disabled: false,
            },
            rule: RuleId::ExpressionCanBeSimplified,
        },
    );
    ds.push(
        DiagnosticDescriptor {
            conditions: DiagnosticConditions {
                experimental: false,
                include_generated: false,
                include_tests: true,
                default_disabled: false,
            },
            rule: RuleId::UnnecessaryReversalToFindLastElementOfList,
        },
    );
    ds.push(
        DiagnosticDescriptor {
            conditions: DiagnosticConditions {
                experimental: false,
                include_generated: false,
                include_tests: false,
                default_disabled: true,
            },
            rule: RuleId::MissingCompileWarnMissingSpec,
        },
    );
    ds.push(
        DiagnosticDescriptor {
            conditions: DiagnosticConditions {
                experimental: true,
                include_generated: false,
                include_tests: true,
                default_disabled: false,
            },
            rule: RuleId::RedundantAssignment,
        },
    );
    ds.push(
        DiagnosticDescriptor {
            conditions: DiagnosticConditions {
                experimental: false,
                include_generated: false,
                include_tests: true,
                default_disabled: false,
            },
            rule: RuleId::UnspecificInclude,
        },
    );
    proof {
        assert(ds@ =~= spec_descriptors());
    }
    ds
}

/// Each rule appends only diagnostics under its own code; the checks of
/// that fact come from the rules' own contracts, which pin each
/// appended diagnostic's code.
proof fn lemma_new_entries_have_code(
    pre: Seq<Diagnostic>,
    post: Seq<Diagnostic>,
    code: DiagnosticCode,
)
    requires
        pre.len() <= post.len(),
        forall|i: int| 0 <= i < pre.len() ==> post[i] == pre[i],
        forall|i: int| pre.len() <= i < post.len() ==> (#[trigger] post[i]).code == code,
        forall|i: int| pre.len() <= i < post.len() ==> (#[trigger] post[i]).wf(),
    ensures
        forall|i: int|
            0 <= i < post.len() ==> ((#[trigger] post[i]).code != code ==> exists|j: int|
                0 <= j < pre.len() && pre[j] == post[i]),
{
    assert forall|i: int|
        0 <= i < post.len() implies ((#[trigger] post[i]).code != code ==> exists|j: int|
        0 <= j < pre.len() && pre[j] == post[i]) by {
        if post[i].code != code {
            assert(i < pre.len());
            assert(pre[i] == post[i]);
        }
    }
}

/// Ordering of the final output: primarily by source range, secondarily
/// by rule code.
pub open spec fn code_rank(c: DiagnosticCode) -> int {
    match c {
        DiagnosticCode::ModuleMismatch => 0,
        DiagnosticCode::MissingCompileWarnMissingSpec => 1,
        DiagnosticCode::UnspecificInclude => 2,
        DiagnosticCode::RedundantAssignment => 3,
        DiagnosticCode::ExpressionCanBeSimplified => 4,
        DiagnosticCode::UnnecessaryReversalToFindLastElementOfList => 5,
    }
}

pub open spec fn diag_le(a: Diagnostic, b: Diagnostic) -> bool {
    ||| a.range.start < b.range.start
    ||| (a.range.start == b.range.start && a.range.end < b.range.end)
    ||| (a.range.start == b.range.start && a.range.end == b.range.end && code_rank(a.code)
        <= code_rank(b.code))
}

pub open spec fn sorted_diags(ds: Seq<Diagnostic>) -> bool {
    forall|i: int, j: int| 0 <= i < j < ds.len() ==> diag_le(#[trigger] ds[i], #[trigger] ds[j])
}

fn diag_le_exec(a: &Diagnostic, b: &Diagnostic) -> (r: bool)
    ensures
        r == diag_le(*a, *b),
{
    if a.range.start < b.range.start {
        true
    } else if a.range.start == b.range.start && a.range.end < b.range.end {
        true
    } else if a.range.start == b.range.start && a.range.end == b.range.end {
        code_rank_exec(&a.code) <= code_rank_exec(&b.code)
    } else {
        false
    }
}

fn code_rank_exec(c: &DiagnosticCode) -> (r: u32)
    ensures
        r as int == code_rank(*c),
{
    match *c {
        DiagnosticCode::ModuleMismatch => 0,
        DiagnosticCode::MissingCompileWarnMissingSpec => 1,
        DiagnosticCode::UnspecificInclude => 2,
        DiagnosticCode::RedundantAssignment => 3,
        DiagnosticCode::ExpressionCanBeSimplified => 4,
        DiagnosticCode::UnnecessaryReversalToFindLastElementOfList => 5,
    }
}

/// Sorts the collected diagnostics deterministically, keeping exactly
/// the same findings.
#[verifier::rlimit(100)]
#[verifier::spinoff_prover]
pub fn sort_diagnostics(v: &mut Vec<Diagnostic>)
    ensures
        final(v)@.len() == old(v)@.len(),
        final(v)@.to_multiset() == old(v)@.to_multiset(),
        sorted_diags(final(v)@),
{
    let n = v.len();
    if n == 0 {
        return ;
    }
    let mut i: usize = 1;
    while i < n
        invariant
            v@.len() == n,
            n == old(v)@.len(),
            n >= 1,
            1 <= i <= n,
            v@.to_multiset() == old(v)@.to_multiset(),
            sorted_diags(v@.subrange(0, i as int)),
        decreases n - i,
    {
        let ghost before = v@;
        let e = v.remove(i);
        proof {
            assert(before.remove(i as int).to_multiset() =~= before.to_multiset().remove(
                before[i as int],
            ));
            assert(v@ =~= before.remove(i as int));
            assert(forall|p: int| 0 <= p < i ==> v@[p] == before[p]);
        }
        let mut j: usize = i;
        while j > 0 && !diag_le_exec(&v[j - 1], &e)
            invariant
                v@.len() == n - 1,
                0 <= j <= i <= n - 1,
                e == before[i as int],
                forall|p: int| 0 <= p < i ==> v@[p] == before[p],
                forall|p: int| j <= p < i ==> !diag_le(#[trigger] v@[p], e),
            decreases j,
        {
            j -= 1;
        }
        let ghost mid = v@;
        v.insert(j, e);
        proof {
            lemma_to_multiset_insert_diag(mid, j as int, e);
            assert(mid.to_multiset().insert(e) =~= before.to_multiset()) by {
                assert(mid.to_multiset() == before.to_multiset().remove(before[i as int]));
                assert(before.to_multiset().contains(before[i as int])) by {
                    assert(before[i as int] == before[i as int] && 0 <= i < before.len());
                }
            }
            mid.insert_ensures(j as int, e);
            assert(sorted_diags(v@.subrange(0, i + 1))) by {
                let w = v@.subrange(0, i + 1);
                assert forall|p: int, q: int|
                    0 <= p < q < w.len() implies diag_le(#[trigger] w[p], #[trigger] w[q]) by {
                    let vp = if p < j {
                        mid[p]
                    } else if p == j {
                        e
                    } else {
                        mid[p - 1]
                    };
                    assert(w[p] == vp);
                    let vq = if q < j {
                        mid[q]
                    } else if q == j {
                        e
                    } else {
                        mid[q - 1]
                    };
                    assert(w[q] == vq);
                    assert(j > 0 ==> diag_le(mid[j - 1], e));
                    assert(sorted_diags(before.subrange(0, i as int)));
                    assert(forall|p2: int|
                        0 <= p2 < i ==> mid[p2] == before.subrange(0, i as int)[p2]);
                }
            }
        }
        i += 1;
    }
    proof {
        assert(v@.subrange(0, n as int) =~= v@);
    }
}

proof fn lemma_to_multiset_insert_diag(s: Seq<Diagnostic>, i: int, a: Diagnostic)
    requires
        0 <= i <= s.len(),
    ensures
        s.insert(i, a).to_multiset() == s.to_multiset().insert(a),
{
    let pre = s.subrange(0, i);
    let suf = s.subrange(i, s.len() as int);
    assert(s.insert(i, a) =~= pre + (seq![a] + suf));
    vstd::seq_lib::lemma_multiset_commutative(pre, seq![a] + suf);
    vstd::seq_lib::lemma_multiset_commutative(seq![a], suf);
    assert(s =~= pre + suf);
    vstd::seq_lib::lemma_multiset_commutative(pre, suf);
    assert(seq![a].to_multiset() =~= vstd::multiset::Multiset::empty().insert(a)) by {
        assert(seq![a] =~= Seq::<Diagnostic>::empty().push(a));
        assert(Seq::<Diagnostic>::empty().to_multiset() =~= vstd::multiset::Multiset::<
            Diagnostic,
        >::empty());
    }
    assert(s.insert(i, a).to_multiset() =~= s.to_multiset().insert(a));
}

/// The filter keeps a subsequence: every kept element was present.
proof fn lemma_filter_elems(ds: Seq<Diagnostic>, s: Seq<u8>)
    ensures
        forall|i: int|
            0 <= i < spec_filter_suppressed(ds, s).len() ==> ds.contains(
                #[trigger] spec_filter_suppressed(ds, s)[i],
            ),
    decreases ds.len(),
{
    if ds.len() > 0 {
        lemma_filter_elems(ds.drop_first(), s);
        let rec = spec_filter_suppressed(ds.drop_first(), s);
        let out = spec_filter_suppressed(ds, s);
        assert forall|i: int| 0 <= i < out.len() implies ds.contains(out[i]) by {
            if spec_suppressed(s, ds[0]) {
                assert(out =~= rec);
                assert(ds.drop_first().contains(out[i]));
                let j = choose|j: int|
                    0 <= j < ds.drop_first().len() && ds.drop_first()[j] == out[i];
                assert(ds[j + 1] == out[i]);
            } else {
                assert(out =~= seq![ds[0]] + rec);
                if i == 0 {
                    assert(ds[0] == out[0]);
                } else {
                    assert(rec[i - 1] == out[i]);
                    assert(ds.drop_first().contains(out[i]));
                    let j = choose|j: int|
                        0 <= j < ds.drop_first().len() && ds.drop_first()[j] == out[i];
                    assert(ds[j + 1] == out[i]);
                }
            }
        }
    }
}

/// Filtering a sorted run keeps it sorted.
proof fn lemma_filter_sorted(ds: Seq<Diagnostic>, s: Seq<u8>)
    requires
        sorted_diags(ds),
    ensures
        sorted_diags(spec_filter_suppressed(ds, s)),
    decreases ds.len(),
{
    if ds.len() > 0 {
        assert(sorted_diags(ds.drop_first())) by {
            assert forall|i: int, j: int|
                0 <= i < j < ds.drop_first().len() implies diag_le(
                #[trigger] ds.drop_first()[i],
                #[trigger] ds.drop_first()[j],
            ) by {
                assert(ds.drop_first()[i] == ds[i + 1]);
                assert(ds.drop_first()[j] == ds[j + 1]);
            }
        }
        lemma_filter_sorted(ds.drop_first(), s);
        lemma_filter_elems(ds.drop_first(), s);
        let rec = spec_filter_suppressed(ds.drop_first(), s);
        let out = spec_filter_suppressed(ds, s);
        if spec_suppressed(s, ds[0]) {
            assert(out =~= rec);
        } else {
            assert(out =~= seq![ds[0]] + rec);
            assert forall|i: int, j: int|
                0 <= i < j < out.len() implies diag_le(#[trigger] out[i], #[trigger] out[j]) by {
                if i == 0 {
                    assert(out[j] == rec[j - 1]);
                    assert(ds.drop_first().contains(rec[j - 1]));
                    let k = choose|k: int|
                        0 <= k < ds.drop_first().len() && ds.drop_first()[k] == rec[j - 1];
                    assert(ds[k + 1] == rec[j - 1]);
                    assert(diag_le(ds[0], ds[k + 1]));
                } else {
                    assert(out[i] == rec[i - 1] && out[j] == rec[j - 1]);
                }
            }
        }
    }
}

/// The whole pipeline, step by step: `mid` is the collected owed set,
/// `smid` its deterministic rearrangement, and the output is `smid`
/// with the suppressed findings dropped.
pub open spec fn spec_pipeline(
    out: Seq<Diagnostic>,
    mid: Seq<Diagnostic>,
    smid: Seq<Diagnostic>,
    view: FileView,
    config: DiagnosticsConfig,
) -> bool {
    &&& spec_collected(mid, view, config)
    &&& smid.to_multiset() == mid.to_multiset()
    &&& smid.len() == mid.len()
    &&& sorted_diags(smid)
    &&& out == spec_filter_suppressed(smid, view.content@)
}

/// Runs the whole pipeline on one file: every applicable rule, the
/// deterministic sort, and the suppression filter.  The output is the
/// suppression-filtered, sorted content of exactly the owed findings.
pub fn diagnostics_for_file(view: &FileView, config: &DiagnosticsConfig) -> (out: Vec<Diagnostic>)
    ensures
        sorted_diags(out@),
        forall|i: int| 0 <= i < out@.len() ==> !spec_suppressed(view.content@, #[trigger] out@[i]),
        forall|i: int| 0 <= i < out@.len() ==> (#[trigger] out@[i]).wf(),
        exists|mid: Seq<Diagnostic>, smid: Seq<Diagnostic>|
            #[trigger] spec_pipeline(out@, mid, smid, *view, *config),
{
    let mut collected = collect_diagnostics(view, config);
    let ghost pre_sort = collected@;
    sort_diagnostics(&mut collected);
    let ghost sorted = collected@;
    proof {
        assert forall|i: int| 0 <= i < sorted.len() implies (#[trigger] sorted[i]).wf() by {
            assert(sorted.contains(sorted[i])) by {
                assert(0 <= i < sorted.len() && sorted[i] == sorted[i]);
            }
            assert(sorted.to_multiset().contains(sorted[i]));
            assert(pre_sort.to_multiset().contains(sorted[i]));
            assert(pre_sort.contains(sorted[i]));
            let j = choose|j: int| 0 <= j < pre_sort.len() && pre_sort[j] == sorted[i];
            assert(pre_sort[j].wf());
        }
        lemma_filter_sorted(sorted, view.content@);
        crate::suppression::lemma_filter_honours_annotations(sorted, view.content@);
        lemma_filter_elems(sorted, view.content@);
    }
    let out = filter_suppressed(collected, &view.content);
    proof {
        assert forall|i: int| 0 <= i < out@.len() implies (#[trigger] out@[i]).wf() by {
            assert(sorted.contains(out@[i]));
            let j = choose|j: int| 0 <= j < sorted.len() && sorted[j] == out@[i];
            assert(sorted[j].wf());
        }
        assert(spec_pipeline(out@, pre_sort, sorted, *view, *config));
    }
    out
}

} // verus!
