//! Composing sets of text edits into atomic, non-overlapping rewrites.
//!
//! A `SourceChange` is one atomic rewrite of one file: its edits are
//! sorted by start offset and mutually non-overlapping, so applying it
//! yields the new content with no partially-applied state observable.

use vstd::prelude::*;
use vstd::multiset::Multiset;
use vstd::seq_lib::lemma_multiset_commutative;
use vstd::utf8::encode_utf8;

use crate::base::FileId;
use crate::base::TextRange;
use crate::document::spec_splice;
use crate::document::splice_bytes;

verus! {

broadcast use vstd::seq_lib::group_to_multiset_ensures, vstd::multiset::group_multiset_axioms;

/// A single atomic substitution: the byte span is replaced by the text.
#[derive(Debug)]
pub struct TextEdit {
    pub range: TextRange,
    pub text: String,
}

impl TextEdit {
    pub open spec fn wf(self) -> bool {
        self.range.wf()
    }

    pub fn replace(range: TextRange, text: String) -> (e: TextEdit)
        ensures
            e.range == range,
            e.text == text,
    {
        TextEdit { range, text }
    }
}

/// Edits ordered by start offset and pairwise non-overlapping: each edit
/// ends no later than the next one starts.
pub open spec fn edits_non_overlapping(es: Seq<TextEdit>) -> bool {
    &&& forall|i: int| 0 <= i < es.len() ==> (#[trigger] es[i]).wf()
    &&& forall|i: int| 0 <= i && i + 1 < es.len() ==> (#[trigger] es[i]).range.end <= es[i
        + 1].range.start
}

/// Every edit lies within text of the given length.
pub open spec fn edits_in_bounds(es: Seq<TextEdit>, len: int) -> bool {
    forall|i: int| 0 <= i < es.len() ==> (#[trigger] es[i]).range.end <= len
}

/// Pairwise disjoint spans with pairwise distinct start offsets, in any
/// order: the condition under which sorting yields a non-overlapping set.
pub open spec fn edits_disjoint_any_order(es: Seq<TextEdit>) -> bool {
    &&& forall|i: int| 0 <= i < es.len() ==> (#[trigger] es[i]).wf()
    &&& forall|i: int, j: int|
        0 <= i < j < es.len() ==> (#[trigger] es[i]).range.spec_disjoint(
            (#[trigger] es[j]).range,
        ) && es[i].range.start != es[j].range.start
}

/// The content after all edits are substituted, later spans first, so
/// that every span is interpreted against the original content.
pub open spec fn spec_apply_edits(s: Seq<u8>, es: Seq<TextEdit>) -> Seq<u8>
    decreases es.len(),
{
    if es.len() == 0 {
        s
    } else {
        let e = es.last();
        spec_apply_edits(
            spec_splice(s, e.range.start as int, e.range.end as int, encode_utf8(e.text@)),
            es.drop_last(),
        )
    }
}

/// Peeling the first (earliest) edit off a set applies it last.
proof fn lemma_apply_edits_prepend(s: Seq<u8>, e: TextEdit, es: Seq<TextEdit>)
    ensures
        spec_apply_edits(s, seq![e] + es) == spec_splice(
            spec_apply_edits(s, es),
            e.range.start as int,
            e.range.end as int,
            encode_utf8(e.text@),
        ),
    decreases es.len(),
{
    if es.len() == 0 {
        let sp = spec_splice(s, e.range.start as int, e.range.end as int, encode_utf8(e.text@));
        assert((seq![e] + es) =~= seq![e]);
        assert((seq![e]).last() == e);
        assert((seq![e]).drop_last() =~= Seq::<TextEdit>::empty());
        assert(spec_apply_edits(s, seq![e]) == spec_apply_edits(sp, (seq![e]).drop_last()));
        assert(spec_apply_edits(sp, Seq::<TextEdit>::empty()) == sp);
        assert(spec_apply_edits(s, Seq::<TextEdit>::empty()) == s);
    } else {
        assert((seq![e] + es).last() == es.last());
        assert((seq![e] + es).drop_last() =~= seq![e] + es.drop_last());
        let s1 = spec_splice(
            s,
            es.last().range.start as int,
            es.last().range.end as int,
            encode_utf8(es.last().text@),
        );
        assert(spec_apply_edits(s, seq![e] + es) == spec_apply_edits(
            s1,
            (seq![e] + es).drop_last(),
        ));
        assert(spec_apply_edits(s, es) == spec_apply_edits(s1, es.drop_last()));
        lemma_apply_edits_prepend(s1, e, es.drop_last());
    }
}

/// One atomic rewrite of one file.
#[derive(Debug)]
pub struct SourceChange {
    pub file_id: FileId,
    pub edits: Vec<TextEdit>,
}

impl SourceChange {
    /// Invariant established at construction: the edit set is sorted by
    /// start offset and mutually non-overlapping.
    pub open spec fn wf(self) -> bool {
        edits_non_overlapping(self.edits@)
    }

    /// A change holding a single edit.
    pub fn from_text_edit(file_id: FileId, edit: TextEdit) -> (sc: SourceChange)
        requires
            edit.wf(),
        ensures
            sc.wf(),
            sc.file_id == file_id,
            sc.edits@.len() == 1,
            sc.edits@[0] == edit,
    {
        let mut edits: Vec<TextEdit> = Vec::new();
        edits.push(edit);
        SourceChange { file_id, edits }
    }

    /// Applies the rewrite: every edit replaces its span of the original
    /// content, later spans first, yielding the new content whole.
    pub fn apply(&self, content: &Vec<u8>) -> (out: Vec<u8>)
        requires
            self.wf(),
            edits_in_bounds(self.edits@, content@.len() as int),
        ensures
            out@ == spec_apply_edits(content@, self.edits@),
    {
        let ghost s = content@;
        let ghost es = self.edits@;
        let mut out: Vec<u8> = Vec::new();
        let n = content.len();
        let mut i: usize = 0;
        while i < n
            invariant
                n == s.len(),
                s == content@,
                0 <= i <= n,
                out@ == s.subrange(0, i as int),
            decreases n - i,
        {
            out.push(content[i]);
            proof {
                assert(out@ =~= s.subrange(0, i + 1));
            }
            i += 1;
        }
        proof {
            assert(out@ =~= s);
        }
        let m = self.edits.len();
        let mut k: usize = m;
        proof {
            assert(es.subrange(m as int, m as int) =~= Seq::<TextEdit>::empty());
        }
        while k > 0
            invariant
                es == self.edits@,
                m == es.len(),
                0 <= k <= m,
                self.wf(),
                edits_in_bounds(es, s.len() as int),
                s == content@,
                out@ == spec_apply_edits(s, es.subrange(k as int, m as int)),
                out@.len() >= spec_bound(es, s.len() as int, k as int),
                out@.subrange(0, spec_bound(es, s.len() as int, k as int)) == s.subrange(
                    0,
                    spec_bound(es, s.len() as int, k as int),
                ),
            decreases k,
        {
            let e = &self.edits[k - 1];
            let a = e.range.start as usize;
            let b = e.range.end as usize;
            proof {
                assert(es[k - 1].wf());
                if k < m {
                    assert(es[k - 1].range.end <= es[k as int].range.start);
                }
                assert(b <= spec_bound(es, s.len() as int, k as int));
            }
            let new_out = splice_bytes(&out, a, b, e.text.as_str());
            proof {
                let ghost prev = out@;
                assert(new_out@ == spec_splice(
                    prev,
                    a as int,
                    b as int,
                    encode_utf8(es[k - 1].text@),
                ));
                assert(es.subrange(k - 1, m as int) =~= seq![es[k - 1]] + es.subrange(
                    k as int,
                    m as int,
                ));
                lemma_apply_edits_prepend(s, es[k - 1], es.subrange(k as int, m as int));
                // the prefix below the next-lower bound is still original content
                let nb = spec_bound(es, s.len() as int, k - 1);
                assert(nb <= a);
                assert forall|p: int| 0 <= p < nb implies new_out@[p] == s[p] by {
                    assert(new_out@[p] == prev.subrange(0, a as int)[p]);
                    assert(prev[p] == s.subrange(
                        0,
                        spec_bound(es, s.len() as int, k as int),
                    )[p]);
                }
                assert(new_out@.subrange(0, nb) =~= s.subrange(0, nb));
            }
            out = new_out;
            k -= 1;
        }
        proof {
            assert(es.subrange(0, m as int) =~= es);
        }
        out
    }
}

/// The largest prefix of the original content that the edits at indices
/// `k..` cannot have touched: up to the start of edit `k`.
pub open spec fn spec_bound(es: Seq<TextEdit>, len: int, k: int) -> int {
    if k < es.len() {
        es[k].range.start as int
    } else {
        len
    }
}

/// Whether the edits at `i` and `i + 1` are ordered and non-overlapping.
pub open spec fn sorted_by_start(es: Seq<TextEdit>) -> bool {
    forall|i: int, j: int|
        0 <= i < j < es.len() ==> (#[trigger] es[i]).range.start <= (#[trigger] es[j]).range.start
}

/// `Seq::insert` adds one occurrence to the multiset, wherever it lands.
proof fn lemma_to_multiset_insert(s: Seq<TextEdit>, i: int, a: TextEdit)
    requires
        0 <= i <= s.len(),
    ensures
        s.insert(i, a).to_multiset() == s.to_multiset().insert(a),
{
    let pre = s.subrange(0, i);
    let suf = s.subrange(i, s.len() as int);
    assert(s.insert(i, a) =~= pre + (seq![a] + suf));
    lemma_multiset_commutative(pre, seq![a] + suf);
    lemma_multiset_commutative(seq![a], suf);
    assert(s =~= pre + suf);
    lemma_multiset_commutative(pre, suf);
    assert(seq![a].to_multiset() =~= Multiset::empty().insert(a)) by {
        assert(seq![a] =~= Seq::<TextEdit>::empty().push(a));
        assert(Seq::<TextEdit>::empty().to_multiset() =~= Multiset::<TextEdit>::empty());
    }
    assert(s.insert(i, a).to_multiset() =~= s.to_multiset().insert(a));
}

/// Sorts edits in place by start offset, keeping exactly the same edits.
fn sort_edits_by_start(v: &mut Vec<TextEdit>)
    ensures
        final(v)@.len() == old(v)@.len(),
        final(v)@.to_multiset() == old(v)@.to_multiset(),
        sorted_by_start(final(v)@),
        old(v)@.len() <= 1 ==> final(v)@ == old(v)@,
{
    let n = v.len();
    if n == 0 {
        return ;
    }
    let mut i: usize = 1;
    while i < n
        invariant
            v@.len() == n,
            n == old(v)@.len(),
            n >= 1,
            1 <= i <= n,
            v@.to_multiset() == old(v)@.to_multiset(),
            sorted_by_start(v@.subrange(0, i as int)),
            n <= 1 ==> v@ == old(v)@,
        decreases n - i,
    {
        let ghost before = v@;
        let e = v.remove(i);
        proof {
            assert(before.remove(i as int).to_multiset() =~= before.to_multiset().remove(
                before[i as int],
            ));
            assert(v@ =~= before.remove(i as int));
            assert(forall|p: int| 0 <= p < i ==> v@[p] == before[p]);
        }
        let mut j: usize = i;
        while j > 0 && v[j - 1].range.start > e.range.start
            invariant
                v@.len() == n - 1,
                0 <= j <= i <= n - 1,
                e == before[i as int],
                forall|p: int| 0 <= p < i ==> v@[p] == before[p],
                forall|p: int| j <= p < i ==> (#[trigger] v@[p]).range.start > e.range.start,
            decreases j,
        {
            j -= 1;
        }
        let ghost mid = v@;
        v.insert(j, e);
        proof {
            lemma_to_multiset_insert(mid, j as int, e);
            assert(mid.to_multiset().insert(e) =~= before.to_multiset()) by {
                assert(mid.to_multiset() == before.to_multiset().remove(before[i as int]));
                assert(before.to_multiset().contains(before[i as int])) by {
                    assert(before[i as int] == before[i as int] && 0 <= i < before.len());
                }
            }
            mid.insert_ensures(j as int, e);
            assert(sorted_by_start(v@.subrange(0, i + 1))) by {
                let w = v@.subrange(0, i + 1);
                assert forall|p: int, q: int|
                    0 <= p < q < w.len() implies (#[trigger] w[p]).range.start <= (
                #[trigger] w[q]).range.start by {
                    let vp = if p < j {
                        mid[p]
                    } else if p == j {
                        e
                    } else {
                        mid[p - 1]
                    };
                    assert(w[p] == vp);
                    let vq = if q < j {
                        mid[q]
                    } else if q == j {
                        e
                    } else {
                        mid[q - 1]
                    };
                    assert(w[q] == vq);
                    assert(j > 0 ==> mid[j - 1].range.start <= e.range.start);
                    assert(sorted_by_start(before.subrange(0, i as int)));
                    assert(forall|p2: int|
                        0 <= p2 < i ==> mid[p2] == before.subrange(0, i as int)[p2]);
                }
            }
        }
        i += 1;
    }
    proof {
        assert(v@.subrange(0, n as int) =~= v@);
    }
}

/// Checks at run time that a set of recorded edits is pairwise
/// non-overlapping with distinct starts, in any order.
pub fn edits_disjoint_check(es: &Vec<TextEdit>) -> (r: bool)
    ensures
        r == edits_disjoint_any_order(es@),
{
    let n = es.len();
    let mut i: usize = 0;
    while i < n
        invariant
            n == es@.len(),
            0 <= i <= n,
            forall|k: int| 0 <= k < i ==> (#[trigger] es@[k]).wf(),
            forall|k: int, l: int|
                0 <= k < l < es@.len() && k < i ==> (#[trigger] es@[k]).range.spec_disjoint(
                    (#[trigger] es@[l]).range,
                ) && es@[k].range.start != es@[l].range.start,
        decreases n - i,
    {
        if !(es[i].range.start <= es[i].range.end) {
            return false;
        }
        let mut j: usize = i + 1;
        while j < n
            invariant
                n == es@.len(),
                0 <= i < j <= n,
                forall|l: int|
                    i < l < j ==> (#[trigger] es@[l]).range.spec_disjoint(es@[i as int].range)
                        && es@[i as int].range.start != es@[l].range.start,
            decreases n - j,
        {
            if !(es[i].range.disjoint(&es[j].range)) || es[i].range.start == es[j].range.start {
                return false;
            }
            j += 1;
        }
        i += 1;
    }
    true
}

/// Accumulates `(range, replacement)` operations scoped to one file.
#[derive(Debug)]
pub struct SourceChangeBuilder {
    pub file_id: FileId,
    pub edits: Vec<TextEdit>,
}

impl SourceChangeBuilder {
    pub fn new(file_id: FileId) -> (b: SourceChangeBuilder)
        ensures
            b.file_id == file_id,
            b.edits@.len() == 0,
    {
        SourceChangeBuilder { file_id, edits: Vec::new() }
    }

    /// Records one substitution.
    pub fn replace(&mut self, range: TextRange, text: String)
        ensures
            final(self).file_id == old(self).file_id,
            final(self).edits@ == old(self).edits@.push(TextEdit { range, text }),
    {
        self.edits.push(TextEdit { range, text });
    }

    /// Sorts the recorded edits by start offset and yields the atomic
    /// rewrite.  The edits must be pairwise non-overlapping — the
    /// construction-time invariant of every `SourceChange`.
    pub fn finish(self) -> (sc: SourceChange)
        requires
            edits_disjoint_any_order(self.edits@),
        ensures
            sc.wf(),
            sc.file_id == self.file_id,
            sc.edits@.len() == self.edits@.len(),
            sc.edits@.to_multiset() == self.edits@.to_multiset(),
            self.edits@.len() <= 1 ==> sc.edits@ == self.edits@,
    {
        let SourceChangeBuilder { file_id, edits } = self;
        let ghost orig = edits@;
        let mut edits = edits;
        sort_edits_by_start(&mut edits);
        proof {
            lemma_sorted_disjoint_non_overlapping(orig, edits@);
        }
        SourceChange { file_id, edits }
    }
}

/// A sorted rearrangement of pairwise disjoint edits with distinct starts
/// is non-overlapping in order.
proof fn lemma_sorted_disjoint_non_overlapping(orig: Seq<TextEdit>, sorted: Seq<TextEdit>)
    requires
        edits_disjoint_any_order(orig),
        sorted.to_multiset() == orig.to_multiset(),
        sorted.len() == orig.len(),
        sorted_by_start(sorted),
    ensures
        edits_non_overlapping(sorted),
{
    assert(orig.no_duplicates()) by {
        assert forall|i: int, j: int|
            0 <= i < orig.len() && 0 <= j < orig.len() && i != j implies orig[i] != orig[j] by {
            if i < j {
                assert(orig[i].range.start != orig[j].range.start);
            } else {
                assert(orig[j].range.start != orig[i].range.start);
            }
        }
    }
    orig.lemma_multiset_has_no_duplicates();
    sorted.lemma_multiset_has_no_duplicates_conv();
    assert forall|i: int| 0 <= i < sorted.len() implies (#[trigger] sorted[i]).wf() by {
        assert(sorted.to_multiset().contains(sorted[i])) by {
            assert(0 <= i < sorted.len() && sorted[i] == sorted[i]);
        }
        assert(orig.to_multiset().contains(sorted[i]));
        assert(orig.contains(sorted[i]));
        let k = choose|k: int| 0 <= k < orig.len() && orig[k] == sorted[i];
        assert(orig[k].wf());
    }
    assert forall|i: int|
        0 <= i && i + 1 < sorted.len() implies (#[trigger] sorted[i]).range.end <= sorted[i
        + 1].range.start by {
        let x = sorted[i];
        let y = sorted[i + 1];
        assert(x != y);
        assert(sorted.to_multiset().contains(x)) by {
            assert(0 <= i < sorted.len() && sorted[i] == x);
        }
        assert(sorted.to_multiset().contains(y)) by {
            assert(0 <= i + 1 < sorted.len() && sorted[i + 1] == y);
        }
        assert(orig.contains(x));
        assert(orig.contains(y));
        let kx = choose|k: int| 0 <= k < orig.len() && orig[k] == x;
        let ky = choose|k: int| 0 <= k < orig.len() && orig[k] == y;
        assert(kx != ky);
        if kx < ky {
            assert(x.range.spec_disjoint(y.range) && x.range.start != y.range.start);
        } else {
            assert(y.range.spec_disjoint(x.range) && y.range.start != x.range.start);
        }
        assert(x.range.start <= y.range.start);
        assert(x.range.start < y.range.start);
        if !(x.range.end <= y.range.start) {
            assert(y.range.end <= x.range.start);
            assert(y.range.start <= y.range.end);
            assert(false);
        }
    }
}

} // verus!
