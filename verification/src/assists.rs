//! The shared shapes of user-triggerable assists and their settings.

use vstd::prelude::*;

use crate::base::TextRange;
use crate::source_change::SourceChange;

verus! {

/// Families of assists a client can restrict to.
#[derive(Clone, Copy, PartialEq, Eq, Structural, Debug)]
pub enum AssistKind {
    QuickFix,
    Generate,
    Refactor,
    RefactorExtract,
    RefactorInline,
    RefactorRewrite,
}

/// A labeled, user-triggerable rewrite.
#[derive(Debug)]
pub struct Assist {
    pub id: String,
    pub kind: AssistKind,
    pub label: String,
    pub target: TextRange,
    pub source_change: SourceChange,
}

impl Assist {
    pub open spec fn wf(self) -> bool {
        self.source_change.wf()
    }
}

/// Marker that a client accepts snippet edits; only constructed here.
#[derive(Clone, Copy, PartialEq, Eq, Debug)]
pub struct SnippetCap {
    _private: (),
}

impl SnippetCap {
    /// The capability exists exactly when the client allows snippets.
    pub fn new(allow_snippets: bool) -> (r: Option<SnippetCap>)
        ensures
            r is Some <==> allow_snippets,
    {
        if allow_snippets {
            Some(SnippetCap { _private: () })
        } else {
            None
        }
    }
}

/// Settings for tweaking assists: the snippet capability and an optional
/// allow-list of assist families.
#[derive(Debug)]
pub struct AssistConfig {
    pub snippet_cap: Option<SnippetCap>,
    pub allowed: Option<Vec<AssistKind>>,
}

} // verus!
