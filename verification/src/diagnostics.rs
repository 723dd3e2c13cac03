//! The shared diagnostic and fix model produced by every rule.

use vstd::prelude::*;
use vstd::string::StrSliceExecFns;
use vstd::string::StringExecFns;

use crate::base::FileId;
use crate::base::TextRange;
use crate::source_change::SourceChange;
use crate::source_change::TextEdit;

verus! {

/// How prominently a finding is reported.
#[derive(Clone, Copy, PartialEq, Eq, Structural, Debug)]
pub enum Severity {
    Error,
    Warning,
    WeakWarning,
}

/// Classification tags a rule can attach to its findings.
#[derive(Clone, Copy, PartialEq, Eq, Structural, Debug)]
pub enum Category {
    SimplificationRule,
    Experimental,
}

/// Stable identity of each diagnostic rule.
#[derive(Clone, Copy, PartialEq, Eq, Structural, Debug)]
pub enum DiagnosticCode {
    ExpressionCanBeSimplified,
    UnnecessaryReversalToFindLastElementOfList,
    MissingCompileWarnMissingSpec,
    ModuleMismatch,
    RedundantAssignment,
    UnspecificInclude,
}

impl DiagnosticCode {
    /// The short code used in suppression annotations.
    pub open spec fn spec_code(self) -> Seq<char> {
        match self {
            DiagnosticCode::ExpressionCanBeSimplified => "W0024"@,
            DiagnosticCode::UnnecessaryReversalToFindLastElementOfList => "W0036"@,
            DiagnosticCode::MissingCompileWarnMissingSpec => "W0012"@,
            DiagnosticCode::ModuleMismatch => "W0001"@,
            DiagnosticCode::RedundantAssignment => "W0023"@,
            DiagnosticCode::UnspecificInclude => "W0020"@,
        }
    }

    /// The human-readable label used in suppression annotations.
    pub open spec fn spec_label(self) -> Seq<char> {
        match self {
            DiagnosticCode::ExpressionCanBeSimplified => "expression-can-be-simplified"@,
            DiagnosticCode::UnnecessaryReversalToFindLastElementOfList => "unnecessary-reversal-to-find-last-element-of-list"@,
            DiagnosticCode::MissingCompileWarnMissingSpec => "compile-warn-missing-spec"@,
            DiagnosticCode::ModuleMismatch => "module-mismatch"@,
            DiagnosticCode::RedundantAssignment => "redundant-assignment"@,
            DiagnosticCode::UnspecificInclude => "unspecific-include"@,
        }
    }

    pub fn as_code(&self) -> (r: String)
        ensures
            r@ == self.spec_code(),
    {
        match *self {
            DiagnosticCode::ExpressionCanBeSimplified => "W0024".to_owned(),
            DiagnosticCode::UnnecessaryReversalToFindLastElementOfList => "W0036".to_owned(),
            DiagnosticCode::MissingCompileWarnMissingSpec => "W0012".to_owned(),
            DiagnosticCode::ModuleMismatch => "W0001".to_owned(),
            DiagnosticCode::RedundantAssignment => "W0023".to_owned(),
            DiagnosticCode::UnspecificInclude => "W0020".to_owned(),
        }
    }

    pub fn as_label(&self) -> (r: String)
        ensures
            r@ == self.spec_label(),
    {
        match *self {
            DiagnosticCode::ExpressionCanBeSimplified => "expression-can-be-simplified".to_owned(),
            DiagnosticCode::UnnecessaryReversalToFindLastElementOfList => "unnecessary-reversal-to-find-last-element-of-list".to_owned(),
            DiagnosticCode::MissingCompileWarnMissingSpec => "compile-warn-missing-spec".to_owned(),
            DiagnosticCode::ModuleMismatch => "module-mismatch".to_owned(),
            DiagnosticCode::RedundantAssignment => "redundant-assignment".to_owned(),
            DiagnosticCode::UnspecificInclude => "unspecific-include".to_owned(),
        }
    }
}

/// A labeled, user-triggerable rewrite bundled with a diagnostic.
#[derive(Debug)]
pub struct Fix {
    pub id: String,
    pub label: String,
    pub source_change: SourceChange,
    pub trigger_range: TextRange,
}

impl Fix {
    /// A fix only ever carries a well-formed (non-overlapping) rewrite.
    pub open spec fn wf(self) -> bool {
        self.source_change.wf()
    }
}

/// Builds a fix from its identifier, label and rewrite.
pub fn fix(id: &str, label: &str, source_change: SourceChange, trigger_range: TextRange) -> (f: Fix)
    requires
        source_change.wf(),
    ensures
        f.wf(),
        f.id@ == id@,
        f.label@ == label@,
        f.source_change == source_change,
        f.trigger_range == trigger_range,
{
    Fix { id: id.to_owned(), label: label.to_owned(), source_change, trigger_range }
}

/// A positioned problem report with severity and optional fixes.
#[derive(Debug)]
pub struct Diagnostic {
    pub code: DiagnosticCode,
    pub message: String,
    pub range: TextRange,
    pub severity: Severity,
    pub categories: Vec<Category>,
    pub fixes: Vec<Fix>,
}

impl Diagnostic {
    /// Every fix attached to a diagnostic carries a well-formed rewrite.
    pub open spec fn wf(self) -> bool {
        forall|i: int| 0 <= i < self.fixes@.len() ==> (#[trigger] self.fixes@[i]).wf()
    }

    /// A fresh report with `Error` severity, no categories and no fixes.
    pub fn new(code: DiagnosticCode, message: String, range: TextRange) -> (d: Diagnostic)
        ensures
            d.wf(),
            d.code == code,
            d.message == message,
            d.range == range,
            d.severity == Severity::Error,
            d.categories@.len() == 0,
            d.fixes@.len() == 0,
    {
        Diagnostic {
            code,
            message,
            range,
            severity: Severity::Error,
            categories: Vec::new(),
            fixes: Vec::new(),
        }
    }

    pub fn with_severity(self, severity: Severity) -> (d: Diagnostic)
        ensures
            d == (Diagnostic { severity, ..self }),
    {
        Diagnostic { severity, ..self }
    }

    /// Appends one category tag.
    pub fn add_category(self, category: Category) -> (d: Diagnostic)
        ensures
            d.categories@ == self.categories@.push(category),
            d.code == self.code,
            d.message == self.message,
            d.range == self.range,
            d.severity == self.severity,
            d.fixes == self.fixes,
    {
        let mut categories = self.categories;
        categories.push(category);
        Diagnostic { categories, ..self }
    }

    /// Appends the given fixes.
    pub fn with_fixes(self, fixes: Vec<Fix>) -> (d: Diagnostic)
        requires
            forall|i: int| 0 <= i < fixes@.len() ==> (#[trigger] fixes@[i]).wf(),
            self.wf(),
        ensures
            d.wf(),
            d.fixes@ == self.fixes@ + fixes@,
            d.code == self.code,
            d.message == self.message,
            d.range == self.range,
            d.severity == self.severity,
            d.categories == self.categories,
    {
        let ghost orig = self.fixes@;
        let ghost added = fixes@;
        let mut all = self.fixes;
        let mut rest = fixes;
        proof {
            assert(all@ + rest@ =~= orig + added);
        }
        while rest.len() > 0
            invariant
                all@ + rest@ == orig + added,
                forall|j: int| 0 <= j < all@.len() ==> (#[trigger] all@[j]).wf(),
                forall|j: int| 0 <= j < rest@.len() ==> (#[trigger] rest@[j]).wf(),
            decreases rest@.len(),
        {
            let ghost all_pre = all@;
            let ghost rest_pre = rest@;
            let f = rest.remove(0);
            all.push(f);
            proof {
                assert(all@ + rest@ =~= all_pre + rest_pre);
            }
        }
        proof {
            assert(all@ =~= all@ + rest@);
        }
        Diagnostic { fixes: all, ..self }
    }

    /// Appends one fix.
    pub fn add_fix(&mut self, f: Fix)
        requires
            f.wf(),
            old(self).wf(),
        ensures
            final(self).wf(),
            final(self).fixes@ == old(self).fixes@.push(f),
            final(self).code == old(self).code,
            final(self).message == old(self).message,
            final(self).range == old(self).range,
            final(self).severity == old(self).severity,
            final(self).categories == old(self).categories,
    {
        self.fixes.push(f);
    }
}

/// Fix non-overlap: every fix carried by a well-formed diagnostic holds
/// an ordered, mutually non-overlapping edit set.
pub proof fn lemma_fix_edits_non_overlapping(d: Diagnostic, i: int)
    requires
        d.wf(),
        0 <= i < d.fixes@.len(),
    ensures
        crate::source_change::edits_non_overlapping(d.fixes@[i].source_change.edits@),
{
}

/// The empty span given to diagnostics that concern a whole file.
pub fn whole_file_range() -> (r: TextRange)
    ensures
        r.start == 0 && r.end == 0,
{
    TextRange { start: 0, end: 0 }
}

} // verus!
