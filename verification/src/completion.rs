//! Code completion: context-dispatched providers over the resolved view.
//!
//! Only the export-list providers are part of this core: completing
//! not-yet-exported functions inside `-export([...])` and type aliases
//! inside `-export_type([...])`.  Results are sorted by label so output
//! is stable across runs.

use vstd::prelude::*;
use vstd::utf8::encode_utf8;

use crate::base::FilePosition;
use crate::strutil::concat3;
use crate::strutil::spec_decimal;
use crate::strutil::str_le;
use crate::strutil::spec_bytes_le;
use crate::strutil::u32_to_string;
use crate::syntax::SyntaxElement;
use crate::syntax::SyntaxKind;
use crate::view::FileView;
use crate::view::FunctionDef;
use crate::view::TypeAliasDef;

verus! {

broadcast use vstd::seq_lib::group_to_multiset_ensures, vstd::multiset::group_multiset_axioms;

/// What a completion inserts.
#[derive(Debug)]
pub enum Contents {
    SameAsLabel,
    String(String),
    Snippet(String),
}

/// The completion item kinds of the source language.
#[derive(Clone, Copy, PartialEq, Eq, Structural, Debug)]
pub enum Kind {
    Function,
    Keyword,
    Module,
    RecordField,
    Type,
    Behavior,
    Macro,
    Operator,
    Record,
    Variable,
    Attribute,
    AiAssist,
    Maps,
}

/// An include attribute a completion may additionally insert.
#[derive(Debug)]
pub struct IncludeFile {
    pub include_lib: bool,
    pub path: String,
    pub app_name: String,
}

/// One completion item.
#[derive(Debug)]
pub struct Completion {
    pub label: String,
    pub kind: Kind,
    pub contents: Contents,
    pub position: Option<FilePosition>,
    pub sort_text: Option<String>,
    pub deprecated: bool,
    pub additional_edit: Option<(FilePosition, IncludeFile)>,
}

/// The syntactic context a completion request is made in.
#[derive(Clone, Copy, PartialEq, Eq, Structural, Debug)]
pub enum CtxKind {
    Comment,
    Expr,
    Type,
    Export,
    ExportType,
    Spec,
    Dialyzer,
    Other,
}

/// The name-with-arity fragment under the cursor, when the request sits
/// inside an export entry.
#[derive(Debug)]
pub struct Fa {
    pub fun_text: Option<String>,
    /// `None`: no arity written; `Some(None)`: an arity slot without a
    /// value; `Some(Some(n))`: a complete arity.
    pub arity: Option<Option<u32>>,
}

impl IncludeFile {
    /// The include attribute this file is inserted with.
    pub fn as_attribute(&self) -> (r: String)
        ensures
            r@ == if self.include_lib {
                "-include_lib(\""@ + self.path@ + "\").\n"@
            } else {
                "-include(\""@ + self.path@ + "\").\n"@
            },
    {
        if self.include_lib {
            concat3("-include_lib(\"", self.path.as_str(), "\").\n")
        } else {
            concat3("-include(\"", self.path.as_str(), "\").\n")
        }
    }

    /// Where the include attribute would be inserted, unless the file
    /// already includes this path: after the last include, or at the top
    /// insert position.
    pub fn insert_position_if_needed(&self, view: &FileView) -> (r: Option<FilePosition>)
        ensures
            match r {
                Some(p) => {
                    &&& !spec_has_include(view.includes@, self.path@)
                    &&& p.file_id == view.file_id
                    &&& p.offset as int == spec_include_insert_offset(*view)
                },
                None => spec_has_include(view.includes@, self.path@) || spec_include_insert_offset(
                    *view,
                ) > 0xffff_ffff,
            },
    {
        let n = view.includes.len();
        let mut i: usize = 0;
        proof {
            assert(view.includes@.skip(0) =~= view.includes@);
        }
        while i < n
            invariant
                n == view.includes@.len(),
                0 <= i <= n,
                spec_has_include(view.includes@, self.path@) == spec_has_include(
                    view.includes@.skip(i as int),
                    self.path@,
                ),
            decreases n - i,
        {
            proof {
                assert(view.includes@.skip(i as int)[0] == view.includes@[i as int]);
                assert(view.includes@.skip(i as int).drop_first() =~= view.includes@.skip(i + 1));
            }
            if crate::strutil::string_is(&view.includes[i].path, self.path.as_str()) {
                return None;
            }
            i += 1;
        }
        proof {
            assert(view.includes@.skip(n as int) =~= Seq::<crate::view::IncludeAttribute>::empty());
        }
        let offset: u32 = if view.includes.len() > 0 {
            let last = &view.includes[view.includes.len() - 1];
            if last.range.end < 0xffff_ffff_u32 {
                last.range.end + 1
            } else {
                return None;
            }
        } else {
            crate::helpers::top_insert_position(view)
        };
        Some(FilePosition { file_id: view.file_id, offset })
    }
}

/// Whether an include of this path is already present.
pub open spec fn spec_has_include(incs: Seq<crate::view::IncludeAttribute>, path: Seq<char>) -> bool
    decreases incs.len(),
{
    if incs.len() == 0 {
        false
    } else {
        incs[0].path@ == path || spec_has_include(incs.drop_first(), path)
    }
}

/// Where a fresh include attribute goes: after the last include, or at
/// the file's top insert position.
pub open spec fn spec_include_insert_offset(view: FileView) -> int {
    if view.includes@.len() > 0 {
        view.includes@.last().range.end + 1
    } else {
        crate::helpers::spec_top_insert_position(view) as int
    }
}

/// The label `name/arity`.
pub open spec fn spec_label(name: Seq<char>, arity: u32) -> Seq<char> {
    name + "/"@ + spec_decimal(arity as int)
}

/// Whether `prefix` is a prefix of `name`, byte-wise.
pub open spec fn spec_name_has_prefix(name: Seq<char>, prefix: Seq<char>) -> bool {
    encode_utf8(prefix).is_prefix_of(encode_utf8(name))
}

/// A `name/arity` completion of the given kind, offered when the name
/// starts with the typed prefix.
fn name_slash_arity_completion(name: &String, arity: u32, prefix: &String, kind: Kind) -> (r:
    Option<Completion>)
    ensures
        r is Some <==> spec_name_has_prefix(name@, prefix@),
        match r {
            Some(c) => {
                &&& c.label@ == spec_label(name@, arity)
                &&& c.kind == kind
                &&& c.contents is SameAsLabel
                &&& c.position is None
                &&& c.sort_text is None
                &&& !c.deprecated
                &&& c.additional_edit is None
            },
            None => true,
        },
{
    let nb = name.as_str().as_bytes();
    let pb = prefix.as_str().as_bytes();
    if pb.len() > nb.len() {
        proof {
            assert(!spec_name_has_prefix(name@, prefix@));
        }
        return None;
    }
    if !crate::strutil::match_at(nb, pb, 0) {
        proof {
            assert(encode_utf8(name@).subrange(0, encode_utf8(prefix@).len() as int)
                != encode_utf8(prefix@));
            assert(!spec_name_has_prefix(name@, prefix@));
        }
        return None;
    }
    proof {
        assert(encode_utf8(prefix@).is_prefix_of(encode_utf8(name@)));
    }
    let ar = u32_to_string(arity);
    let label = concat3(name.as_str(), "/", ar.as_str());
    Some(
        Completion {
            label,
            kind,
            contents: Contents::SameAsLabel,
            position: None,
            sort_text: None,
            deprecated: false,
            additional_edit: None,
        },
    )
}

/// The typed prefix of the request: the name fragment of the export
/// entry under the cursor, or the text of the nearest token.  `None`
/// when the entry already carries a complete arity (nothing to offer).
pub open spec fn spec_prefix(fa: Option<Fa>, token_text: Option<String>) -> Option<Seq<char>> {
    match fa {
        Some(f) => if f.arity is Some && f.arity->Some_0 is Some {
            None
        } else {
            match f.fun_text {
                Some(t) => Some(t@),
                None => Some(Seq::empty()),
            }
        },
        None => match token_text {
            Some(t) => Some(t@),
            None => Some(Seq::empty()),
        },
    }
}

/// The functions offered for an export list: those not yet exported
/// whose name starts with the prefix, in declaration order.
pub open spec fn spec_export_function_labels(fs: Seq<FunctionDef>, prefix: Seq<char>) -> Seq<
    (Seq<char>, u32),
>
    decreases fs.len(),
{
    if fs.len() == 0 {
        Seq::empty()
    } else {
        (if !fs[0].exported && spec_name_has_prefix(fs[0].name@, prefix) {
            seq![(fs[0].name@, fs[0].arity)]
        } else {
            Seq::empty()
        }) + spec_export_function_labels(fs.drop_first(), prefix)
    }
}

/// The type aliases offered for an export-type list.
pub open spec fn spec_export_type_labels(ts: Seq<TypeAliasDef>, prefix: Seq<char>) -> Seq<
    (Seq<char>, u32),
>
    decreases ts.len(),
{
    if ts.len() == 0 {
        Seq::empty()
    } else {
        (if spec_name_has_prefix(ts[0].name@, prefix) {
            seq![(ts[0].name@, ts[0].arity)]
        } else {
            Seq::empty()
        }) + spec_export_type_labels(ts.drop_first(), prefix)
    }
}

/// One offered completion for each entry of the label list.
pub open spec fn completions_match(cs: Seq<Completion>, labels: Seq<(Seq<char>, u32)>, kind: Kind) -> bool {
    &&& cs.len() == labels.len()
    &&& forall|i: int|
        0 <= i < cs.len() ==> {
            &&& (#[trigger] cs[i]).label@ == spec_label(labels[i].0, labels[i].1)
            &&& cs[i].kind == kind
            &&& cs[i].contents is SameAsLabel
            &&& cs[i].position is None
            &&& cs[i].sort_text is None
            &&& !cs[i].deprecated
            &&& cs[i].additional_edit is None
        }
}

/// Offers the not-yet-exported functions for an export list.
fn add_export_function_completions(acc: &mut Vec<Completion>, view: &FileView, prefix: &String)
    ensures
        ({
            let labels = spec_export_function_labels(view.functions@, prefix@);
            &&& final(acc)@.len() == old(acc)@.len() + labels.len()
            &&& forall|i: int| 0 <= i < old(acc)@.len() ==> final(acc)@[i] == old(acc)@[i]
            &&& completions_match(
                final(acc)@.skip(old(acc)@.len() as int),
                labels,
                Kind::Function,
            )
        }),
{
    let ghost labels = spec_export_function_labels(view.functions@, prefix@);
    let n = view.functions.len();
    let mut i: usize = 0;
    let ghost mut done: Seq<(Seq<char>, u32)> = Seq::empty();
    proof {
        assert(view.functions@.skip(0) =~= view.functions@);
        assert(done + spec_export_function_labels(view.functions@.skip(0), prefix@) =~= labels);
    }
    while i < n
        invariant
            n == view.functions@.len(),
            0 <= i <= n,
            labels == spec_export_function_labels(view.functions@, prefix@),
            labels == done + spec_export_function_labels(
                view.functions@.skip(i as int),
                prefix@,
            ),
            acc@.len() == old(acc)@.len() + done.len(),
            forall|k: int| 0 <= k < old(acc)@.len() ==> acc@[k] == old(acc)@[k],
            completions_match(acc@.skip(old(acc)@.len() as int), done, Kind::Function),
        decreases n - i,
    {
        let f = &view.functions[i];
        proof {
            assert(view.functions@.skip(i as int)[0] == view.functions@[i as int]);
            assert(view.functions@.skip(i as int).drop_first() =~= view.functions@.skip(i + 1));
        }
        if !f.exported {
            match name_slash_arity_completion(&f.name, f.arity, prefix, Kind::Function) {
                Some(c) => {
                    let ghost pre = acc@;
                    acc.push(c);
                    proof {
                        done = done.push((f.name@, f.arity));
                        assert(acc@.skip(old(acc)@.len() as int) =~= pre.skip(
                            old(acc)@.len() as int,
                        ).push(c));
                    }
                },
                None => {},
            }
        }
        proof {
            assert(done + spec_export_function_labels(view.functions@.skip(i + 1), prefix@)
                =~= labels);
        }
        i += 1;
    }
    proof {
        assert(view.functions@.skip(n as int) =~= Seq::<FunctionDef>::empty());
        assert(labels =~= done);
    }
}

/// Offers the type aliases for an export-type list.
fn add_export_type_completions(acc: &mut Vec<Completion>, view: &FileView, prefix: &String)
    ensures
        ({
            let labels = spec_export_type_labels(view.type_aliases@, prefix@);
            &&& final(acc)@.len() == old(acc)@.len() + labels.len()
            &&& forall|i: int| 0 <= i < old(acc)@.len() ==> final(acc)@[i] == old(acc)@[i]
            &&& completions_match(final(acc)@.skip(old(acc)@.len() as int), labels, Kind::Type)
        }),
{
    let ghost labels = spec_export_type_labels(view.type_aliases@, prefix@);
    let n = view.type_aliases.len();
    let mut i: usize = 0;
    let ghost mut done: Seq<(Seq<char>, u32)> = Seq::empty();
    proof {
        assert(view.type_aliases@.skip(0) =~= view.type_aliases@);
        assert(done + spec_export_type_labels(view.type_aliases@.skip(0), prefix@) =~= labels);
    }
    while i < n
        invariant
            n == view.type_aliases@.len(),
            0 <= i <= n,
            labels == spec_export_type_labels(view.type_aliases@, prefix@),
            labels == done + spec_export_type_labels(
                view.type_aliases@.skip(i as int),
                prefix@,
            ),
            acc@.len() == old(acc)@.len() + done.len(),
            forall|k: int| 0 <= k < old(acc)@.len() ==> acc@[k] == old(acc)@[k],
            completions_match(acc@.skip(old(acc)@.len() as int), done, Kind::Type),
        decreases n - i,
    {
        let t = &view.type_aliases[i];
        proof {
            assert(view.type_aliases@.skip(i as int)[0] == view.type_aliases@[i as int]);
            assert(view.type_aliases@.skip(i as int).drop_first() =~= view.type_aliases@.skip(
                i + 1,
            ));
        }
        match name_slash_arity_completion(&t.name, t.arity, prefix, Kind::Type) {
            Some(c) => {
                let ghost pre = acc@;
                acc.push(c);
                proof {
                    done = done.push((t.name@, t.arity));
                    assert(acc@.skip(old(acc)@.len() as int) =~= pre.skip(
                        old(acc)@.len() as int,
                    ).push(c));
                }
            },
            None => {},
        }
        proof {
            assert(done + spec_export_type_labels(view.type_aliases@.skip(i + 1), prefix@)
                =~= labels);
        }
        i += 1;
    }
    proof {
        assert(view.type_aliases@.skip(n as int) =~= Seq::<TypeAliasDef>::empty());
        assert(labels =~= done);
    }
}

/// Labels in non-decreasing byte-wise order.
pub open spec fn sorted_by_label(cs: Seq<Completion>) -> bool {
    forall|i: int, j: int|
        0 <= i < j < cs.len() ==> spec_bytes_le(
            encode_utf8((#[trigger] cs[i]).label@),
            encode_utf8((#[trigger] cs[j]).label@),
        )
}

/// Sorts completions by label, keeping exactly the same items.
fn sort_completions(v: &mut Vec<Completion>)
    ensures
        final(v)@.len() == old(v)@.len(),
        final(v)@.to_multiset() == old(v)@.to_multiset(),
        sorted_by_label(final(v)@),
{
    let n = v.len();
    if n == 0 {
        return ;
    }
    let mut i: usize = 1;
    while i < n
        invariant
            v@.len() == n,
            n == old(v)@.len(),
            n >= 1,
            1 <= i <= n,
            v@.to_multiset() == old(v)@.to_multiset(),
            sorted_by_label(v@.subrange(0, i as int)),
        decreases n - i,
    {
        let ghost before = v@;
        let e = v.remove(i);
        proof {
            assert(before.remove(i as int).to_multiset() =~= before.to_multiset().remove(
                before[i as int],
            ));
            assert(v@ =~= before.remove(i as int));
            assert(forall|p: int| 0 <= p < i ==> v@[p] == before[p]);
        }
        let mut j: usize = i;
        while j > 0 && !str_le(v[j - 1].label.as_str(), e.label.as_str())
            invariant
                v@.len() == n - 1,
                0 <= j <= i <= n - 1,
                e == before[i as int],
                forall|p: int| 0 <= p < i ==> v@[p] == before[p],
                forall|p: int|
                    j <= p < i ==> !spec_bytes_le(
                        encode_utf8((#[trigger] v@[p]).label@),
                        encode_utf8(e.label@),
                    ),
            decreases j,
        {
            j -= 1;
        }
        let ghost mid = v@;
        v.insert(j, e);
        proof {
            lemma_to_multiset_insert_completion(mid, j as int, e);
            assert(mid.to_multiset().insert(e) =~= before.to_multiset()) by {
                assert(mid.to_multiset() == before.to_multiset().remove(before[i as int]));
                assert(before.to_multiset().contains(before[i as int])) by {
                    assert(before[i as int] == before[i as int] && 0 <= i < before.len());
                }
            }
            mid.insert_ensures(j as int, e);
            assert(sorted_by_label(v@.subrange(0, i + 1))) by {
                let w = v@.subrange(0, i + 1);
                assert forall|p: int, q: int|
                    0 <= p < q < w.len() implies spec_bytes_le(
                    encode_utf8((#[trigger] w[p]).label@),
                    encode_utf8((#[trigger] w[q]).label@),
                ) by {
                    let vp = if p < j {
                        mid[p]
                    } else if p == j {
                        e
                    } else {
                        mid[p - 1]
                    };
                    assert(w[p] == vp);
                    let vq = if q < j {
                        mid[q]
                    } else if q == j {
                        e
                    } else {
                        mid[q - 1]
                    };
                    assert(w[q] == vq);
                    assert(j > 0 ==> spec_bytes_le(
                        encode_utf8(mid[j - 1].label@),
                        encode_utf8(e.label@),
                    ));
                    assert(sorted_by_label(before.subrange(0, i as int)));
                    assert(forall|p2: int|
                        0 <= p2 < i ==> mid[p2] == before.subrange(0, i as int)[p2]);
                    if q == j && p + 1 < j {
                        lemma_bytes_le_trans(
                            encode_utf8(mid[p].label@),
                            encode_utf8(mid[j - 1].label@),
                            encode_utf8(e.label@),
                        );
                    }
                    if p == j && q > j {
                        lemma_bytes_le_total(encode_utf8(e.label@), encode_utf8(mid[q - 1].label@));
                    }
                    lemma_bytes_le_total(encode_utf8(vp.label@), encode_utf8(vq.label@));
                }
            }
        }
        i += 1;
    }
    proof {
        assert(v@.subrange(0, n as int) =~= v@);
    }
}

proof fn lemma_to_multiset_insert_completion(s: Seq<Completion>, i: int, a: Completion)
    requires
        0 <= i <= s.len(),
    ensures
        s.insert(i, a).to_multiset() == s.to_multiset().insert(a),
{
    let pre = s.subrange(0, i);
    let suf = s.subrange(i, s.len() as int);
    assert(s.insert(i, a) =~= pre + (seq![a] + suf));
    vstd::seq_lib::lemma_multiset_commutative(pre, seq![a] + suf);
    vstd::seq_lib::lemma_multiset_commutative(seq![a], suf);
    assert(s =~= pre + suf);
    vstd::seq_lib::lemma_multiset_commutative(pre, suf);
    assert(seq![a].to_multiset() =~= vstd::multiset::Multiset::empty().insert(a)) by {
        assert(seq![a] =~= Seq::<Completion>::empty().push(a));
        assert(Seq::<Completion>::empty().to_multiset() =~= vstd::multiset::Multiset::<
            Completion,
        >::empty());
    }
    assert(s.insert(i, a).to_multiset() =~= s.to_multiset().insert(a));
}

/// Byte-wise order is transitive.
proof fn lemma_bytes_le_trans(a: Seq<u8>, b: Seq<u8>, c: Seq<u8>)
    requires
        spec_bytes_le(a, b),
        spec_bytes_le(b, c),
    ensures
        spec_bytes_le(a, c),
    decreases a.len(),
{
    if a.len() > 0 && b.len() > 0 && c.len() > 0 && a[0] == b[0] && b[0] == c[0] {
        lemma_bytes_le_trans(a.drop_first(), b.drop_first(), c.drop_first());
    }
}

/// Byte-wise order is total: two labels compare one way or the other.
proof fn lemma_bytes_le_total(a: Seq<u8>, b: Seq<u8>)
    ensures
        spec_bytes_le(a, b) || spec_bytes_le(b, a),
    decreases a.len(),
{
    if a.len() > 0 && b.len() > 0 && a[0] == b[0] {
        lemma_bytes_le_total(a.drop_first(), b.drop_first());
    }
}

/// The labels the dispatcher owes for one request.
pub open spec fn spec_completion_labels(
    view: FileView,
    fa: Option<Fa>,
    token_text: Option<String>,
    ctx_kind: CtxKind,
) -> Seq<(Seq<char>, u32)> {
    match spec_prefix(fa, token_text) {
        Some(p) => match ctx_kind {
            CtxKind::Export => spec_export_function_labels(view.functions@, p),
            CtxKind::ExportType => spec_export_type_labels(view.type_aliases@, p),
            _ => Seq::empty(),
        },
        None => Seq::empty(),
    }
}

/// The completion kind of one request's items.
pub open spec fn spec_completion_kind(ctx_kind: CtxKind) -> Kind {
    if ctx_kind is ExportType {
        Kind::Type
    } else {
        Kind::Function
    }
}

/// The dispatcher's contract: the result holds, in some order, exactly
/// the owed completions.
pub open spec fn completions_post(
    acc: Seq<Completion>,
    view: FileView,
    fa: Option<Fa>,
    token_text: Option<String>,
    ctx_kind: CtxKind,
) -> bool {
    exists|pre: Seq<Completion>|
        {
            &&& acc.to_multiset() == pre.to_multiset()
            &&& #[trigger] completions_match(
                pre,
                spec_completion_labels(view, fa, token_text, ctx_kind),
                spec_completion_kind(ctx_kind),
            )
        }
}

/// Computes the completions for one request: dispatch on the syntactic
/// context, then sort by label for stable output.  Contexts other than
/// the export lists are served by collaborating providers outside this
/// core and yield nothing here.
pub fn completions(
    view: &FileView,
    position: FilePosition,
    trigger: Option<char>,
    ctx_kind: CtxKind,
    fa: Option<Fa>,
    token_text: Option<String>,
) -> (acc: Vec<Completion>)
    ensures
        sorted_by_label(acc@),
        completions_post(acc@, *view, fa, token_text, ctx_kind),
{
    let mut acc: Vec<Completion> = Vec::new();
    let prefix: Option<String> = match fa {
        Some(f) => {
            let complete = match &f.arity {
                Some(inner) => inner.is_some(),
                None => false,
            };
            if complete {
                None
            } else {
                match f.fun_text {
                    Some(t) => Some(t),
                    None => Some(String::new()),
                }
            }
        },
        None => match token_text {
            Some(t) => Some(t),
            None => Some(String::new()),
        },
    };
    proof {
        if prefix is Some {
            assert(spec_prefix(fa, token_text) == Some(prefix->Some_0@));
        } else {
            assert(spec_prefix(fa, token_text) is None);
        }
    }
    match prefix {
        Some(p) => {
            match ctx_kind {
                CtxKind::Export => {
                    add_export_function_completions(&mut acc, view, &p);
                },
                CtxKind::ExportType => {
                    add_export_type_completions(&mut acc, view, &p);
                },
                _ => {},
            }
        },
        None => {},
    }
    let ghost witness = acc@;
    proof {
        let labels = spec_completion_labels(*view, fa, token_text, ctx_kind);
        let kind = spec_completion_kind(ctx_kind);
        assert(witness.skip(0) =~= witness);
        assert(completions_match(witness, labels, kind)) by {
            if labels.len() == 0 {
                assert(witness.len() == 0);
            }
        }
    }
    sort_completions(&mut acc);
    proof {
        let labels = spec_completion_labels(*view, fa, token_text, ctx_kind);
        let kind = spec_completion_kind(ctx_kind);
        assert(acc@.to_multiset() == witness.to_multiset());
        assert(completions_match(witness, labels, kind));
        assert(completions_post(acc@, *view, fa, token_text, ctx_kind));
    }
    acc
}

} // verus!
