//! The resolved structural view of one file, as the rules see it.
//!
//! Parsing and name resolution are collaborators outside this crate; what
//! they produce is modeled here as a closed sum of node kinds.  Every
//! node carries its resolved source range — which, after macro expansion,
//! may lie in a different file than the one under analysis.

use vstd::prelude::*;
use vstd::utf8::decode_utf8;
use vstd::utf8::valid_utf8;
use vstd::utf8::valid_utf8_split;

use crate::base::FileId;
use crate::base::FileRange;
use crate::base::TextRange;
use crate::decode::bytes_to_string;
use crate::decode::is_utf8;

verus! {

/// Arithmetic operators of the source language.
#[derive(Clone, Copy, PartialEq, Eq, Structural, Debug)]
pub enum ArithOp {
    Add,
    Sub,
    Mul,
    Div,
    Rem,
}

/// List operators.
#[derive(Clone, Copy, PartialEq, Eq, Structural, Debug)]
pub enum ListOp {
    Append,
    Subtract,
}

/// Boolean operators; `lazy` marks the short-circuit forms.
#[derive(Clone, Copy, PartialEq, Eq, Structural, Debug)]
pub enum LogicOp {
    And { lazy: bool },
    Or { lazy: bool },
}

/// Binary operators grouped by family.
#[derive(Clone, Copy, PartialEq, Eq, Structural, Debug)]
pub enum BinaryOp {
    ArithOp(ArithOp),
    ListOp(ListOp),
    LogicOp(LogicOp),
}

/// Unary operators.
#[derive(Clone, Copy, PartialEq, Eq, Structural, Debug)]
pub enum UnaryOp {
    Plus,
    Minus,
    Not,
    Bnot,
}

/// One node of the resolved expression tree.
#[derive(Debug)]
pub struct ExprNode {
    /// Resolved source range of the node; macro-expanded nodes may point
    /// into the file that defines the macro.
    pub range: FileRange,
    pub kind: ExprKind,
}

/// The closed sum of node kinds a rule can see.
#[derive(Debug)]
pub enum ExprKind {
    AtomLit(String),
    IntLit(i128),
    Var(String),
    List { exprs: Vec<ExprNode>, tail: Option<Box<ExprNode>> },
    Tuple { exprs: Vec<ExprNode> },
    BinaryOp { op: BinaryOp, lhs: Box<ExprNode>, rhs: Box<ExprNode> },
    UnaryOp { op: UnaryOp, expr: Box<ExprNode> },
    Call { module: Option<String>, name: String, args: Vec<ExprNode> },
    Match { lhs: Box<ExprNode>, rhs: Box<ExprNode> },
    MacroCall { name: String, expansion: Box<ExprNode> },
    Paren { inner: Box<ExprNode> },
    Block { exprs: Vec<ExprNode> },
}

/// One clause of a function definition: head patterns and body.
#[derive(Debug)]
pub struct FunctionClause {
    pub pats: Vec<ExprNode>,
    pub body: Vec<ExprNode>,
    pub range: TextRange,
}

/// A type expression inside a function type signature.
#[derive(Debug)]
pub struct TypeExprNode {
    pub range: FileRange,
    pub kind: TypeExprKind,
}

/// Kinds of type expressions the oracle adapter distinguishes.
#[derive(Debug)]
pub enum TypeExprKind {
    AtomLit(String),
    Tuple { args: Vec<TypeExprNode> },
    Call { name: String },
    Other,
}

/// One signature of a function type declaration.
#[derive(Debug)]
pub struct SpecSig {
    pub result: TypeExprNode,
}

/// A function's declared type: one or more signatures.
#[derive(Debug)]
pub struct SpecDef {
    pub sigs: Vec<SpecSig>,
    pub range: TextRange,
}

/// A resolved function definition.
#[derive(Debug)]
pub struct FunctionDef {
    pub name: String,
    pub arity: u32,
    pub exported: bool,
    pub range: TextRange,
    pub clauses: Vec<FunctionClause>,
    pub spec_def: Option<SpecDef>,
}

/// A plain attribute term, as found in compile attributes.  Atoms carry
/// their source range so fixes can rewrite them in place.
#[derive(Debug)]
pub enum Term {
    Atom { name: String, range: TextRange },
    Int(i128),
    Tuple(Vec<Term>),
    List(Vec<Term>),
}

/// A `-compile(...)` attribute and its term.
#[derive(Debug)]
pub struct CompileAttribute {
    pub value: Term,
    /// The whole attribute form.
    pub range: TextRange,
    /// The term between the attribute's parentheses.
    pub value_range: TextRange,
}

/// Where an include resolves to, as reported by the project model.
#[derive(Debug)]
pub struct IncludeTarget {
    pub file_id: FileId,
    /// Absolute path of the included file.
    pub path: String,
    /// The application that owns the included file.
    pub app_name: String,
}

/// An `-include` or `-include_lib` attribute.
#[derive(Debug)]
pub struct IncludeAttribute {
    pub lib: bool,
    pub path: String,
    /// The whole attribute form.
    pub range: TextRange,
    /// The quoted path inside it.
    pub path_range: TextRange,
    pub resolved: Option<IncludeTarget>,
}

/// The module identity declaration.
#[derive(Debug)]
pub struct ModuleAttribute {
    pub name: String,
    pub range: TextRange,
    /// The name token inside the attribute.
    pub name_range: TextRange,
}

/// A name together with an arity.
#[derive(Debug)]
pub struct NameArity {
    pub name: String,
    pub arity: u32,
}

/// A type alias declaration.
#[derive(Debug)]
pub struct TypeAliasDef {
    pub name: String,
    pub arity: u32,
    pub exported: bool,
    pub range: TextRange,
}

/// An `-export(...)` or `-export_type(...)` attribute.
#[derive(Debug)]
pub struct ExportAttribute {
    /// Whether this is an `-export_type` attribute.
    pub types: bool,
    pub entries: Vec<NameArity>,
    /// The whole attribute form.
    pub range: TextRange,
    /// The position just before the list's closing bracket.
    pub list_insert_offset: u32,
}

/// How a file is classified by the project model.
#[derive(Clone, Copy, PartialEq, Eq, Structural, Debug)]
pub enum FileKind {
    SrcModule,
    TestModule,
    Header,
    Other,
    OutsideProjectModel,
}

/// Everything resolution hands a diagnostic rule about one file.
#[derive(Debug)]
pub struct FileView {
    pub file_id: FileId,
    /// Snapshot of the buffer the view was built from.
    pub content: Vec<u8>,
    pub file_kind: FileKind,
    pub is_generated: bool,
    pub module_attribute: Option<ModuleAttribute>,
    /// Base name of the file, without directory or extension.
    pub file_name: String,
    pub compile_attributes: Vec<CompileAttribute>,
    pub includes: Vec<IncludeAttribute>,
    pub exports: Vec<ExportAttribute>,
    pub type_aliases: Vec<TypeAliasDef>,
    pub functions: Vec<FunctionDef>,
    /// Spans of comments in this file.
    pub comments: Vec<TextRange>,
}

impl FileView {
    /// The buffer snapshot is always a total decoded text.
    pub open spec fn wf(self) -> bool {
        valid_utf8(self.content@)
    }
}

/// The source text inside `range`, when the span lies within the content
/// and cuts it at character boundaries.
pub open spec fn spec_text_at(s: Seq<u8>, range: TextRange) -> Option<Seq<char>> {
    if range.in_bounds(s.len() as int) && valid_utf8(
        s.subrange(range.start as int, range.end as int),
    ) {
        Some(decode_utf8(s.subrange(range.start as int, range.end as int)))
    } else {
        None
    }
}

/// Extracts the source text inside `range` from the buffer.
pub fn text_at(content: &Vec<u8>, range: TextRange) -> (r: Option<String>)
    ensures
        match r {
            Some(t) => spec_text_at(content@, range) == Some(t@),
            None => spec_text_at(content@, range) is None,
        },
{
    if !(range.start <= range.end && (range.end as usize) <= content.len()) {
        return None;
    }
    let mut v: Vec<u8> = Vec::new();
    let a = range.start as usize;
    let b = range.end as usize;
    let mut i: usize = a;
    proof {
        assert(v@ =~= content@.subrange(a as int, a as int));
    }
    while i < b
        invariant
            a <= i <= b <= content@.len(),
            v@ == content@.subrange(a as int, i as int),
        decreases b - i,
    {
        v.push(content[i]);
        proof {
            assert(v@ =~= content@.subrange(a as int, i + 1));
        }
        i += 1;
    }
    if is_utf8(v.as_slice()) {
        Some(bytes_to_string(v))
    } else {
        None
    }
}

} // verus!
