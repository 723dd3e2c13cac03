//! Suppression annotations: every diagnostic gets an automatic fix that
//! inserts a line-scoped ignore annotation, and analysis honours such
//! annotations by dropping the diagnostics they name.

use vstd::prelude::*;
use vstd::utf8::encode_utf8;

use crate::diagnostics::Diagnostic;
use crate::diagnostics::DiagnosticCode;
use crate::diagnostics::fix;
use crate::source_change::SourceChange;
use crate::source_change::TextEdit;
use crate::base::TextRange;
use crate::base::FileId;
use crate::strutil::concat5;

verus! {

/// Offset where the line containing `off` begins.
pub open spec fn spec_line_begin(s: Seq<u8>, off: int) -> int
    decreases off,
    when off >= 0
{
    if off <= 0 {
        0
    } else if off - 1 < s.len() && s[off - 1] == 0x0a {
        off
    } else {
        spec_line_begin(s, off - 1)
    }
}

/// Finds the start of the line containing `off`.
pub fn line_begin(content: &Vec<u8>, off: u32) -> (r: u32)
    ensures
        r as int == spec_line_begin(content@, off as int),
        r <= off,
{
    let mut p = off;
    while p > 0
        invariant
            spec_line_begin(content@, off as int) == spec_line_begin(content@, p as int),
            p <= off,
        decreases p,
    {
        let q = (p - 1) as usize;
        if q < content.len() && content[q] == 0x0a {
            return p;
        }
        p -= 1;
    }
    p
}

/// The text of the annotation line that silences `code`.
pub open spec fn ignore_line_text(code: DiagnosticCode) -> Seq<char> {
    "% elp:ignore "@ + code.spec_code() + " ("@ + code.spec_label() + ")\n"@
}

/// Where the suppression annotation is inserted: for a whole-file
/// finding, at the top of the file — after the module declaration when
/// there is one, else after the leading header comments; for any other
/// finding, at the start of the offending construct's line.
pub open spec fn spec_suppress_offset(
    s: Seq<u8>,
    range: TextRange,
    module_attr_end: Option<u32>,
) -> int {
    if range.start == 0 && range.end == 0 {
        match module_attr_end {
            Some(e) => if e < 0xffff_ffff {
                e as int + 1
            } else {
                e as int
            },
            None => {
                let p = spec_after_leading_comments(s, 0);
                if p < 0xffff_ffff {
                    p
                } else {
                    0xffff_ffff
                }
            },
        }
    } else {
        spec_line_begin(s, range.start as int)
    }
}

impl Diagnostic {
    /// Attaches the automatic "Ignore problem" fix, which inserts a
    /// line-scoped suppression annotation above the offending construct
    /// (or, for a whole-file finding, after the module declaration or
    /// the leading header comments).
    pub fn with_ignore_fix(self, content: &Vec<u8>, module_attr_end: Option<u32>) -> (d:
        Diagnostic)
        requires
            self.wf(),
        ensures
            d.wf(),
            d.code == self.code,
            d.message == self.message,
            d.range == self.range,
            d.severity == self.severity,
            d.categories == self.categories,
            d.fixes@.len() == self.fixes@.len() + 1,
            forall|i: int| 0 <= i < self.fixes@.len() ==> d.fixes@[i] == self.fixes@[i],
            ({
                let f = d.fixes@[self.fixes@.len() as int];
                let at = spec_suppress_offset(content@, self.range, module_attr_end);
                &&& f.id@ == "ignore_problem"@
                &&& f.label@ == "Ignore problem"@
                &&& f.trigger_range == self.range
                &&& f.source_change.file_id == if self.fixes@.len() > 0 {
                    self.fixes@[0].source_change.file_id
                } else {
                    FileId(0)
                }
                &&& f.source_change.edits@.len() == 1
                &&& f.source_change.edits@[0].range.start as int == at
                &&& f.source_change.edits@[0].range.end as int == at
                &&& f.source_change.edits@[0].text@ == ignore_line_text(self.code)
            }),
    {
        let at: u32 = if self.range.start == 0 && self.range.end == 0 {
            match module_attr_end {
                Some(e) => {
                    if e < 0xffff_ffff_u32 {
                        e + 1
                    } else {
                        e
                    }
                },
                None => after_leading_comments(content),
            }
        } else {
            line_begin(content, self.range.start)
        };
        let code_str = self.code.as_code();
        let label_str = self.code.as_label();
        let text = concat5("% elp:ignore ", code_str.as_str(), " (", label_str.as_str(), ")\n");
        let range = TextRange { start: at, end: at };
        let edit = TextEdit { range, text };
        let sc = SourceChange::from_text_edit(FileId(0), edit);
        let sc = SourceChange { file_id: self.file_id_of_fixes(), ..sc };
        let f = fix("ignore_problem", "Ignore problem", sc, self.range);
        let mut d = self;
        d.add_fix(f);
        d
    }

    /// The file the diagnostic's rewrites target: taken from an existing
    /// fix when there is one.
    fn file_id_of_fixes(&self) -> (r: FileId)
        ensures
            r == if self.fixes@.len() > 0 {
                self.fixes@[0].source_change.file_id
            } else {
                FileId(0)
            },
    {
        if self.fixes.len() > 0 {
            self.fixes[0].source_change.file_id
        } else {
            FileId(0)
        }
    }
}

// ------------------------------------------------------------------
// Honouring annotations
// ------------------------------------------------------------------

/// First position at or after `i` that ends the line (a newline byte or
/// the end of the buffer).
pub open spec fn spec_line_end(s: Seq<u8>, i: int) -> int
    decreases s.len() - i,
    when 0 <= i <= s.len()
{
    if i >= s.len() {
        i
    } else if s[i] == 0x0a {
        i
    } else {
        spec_line_end(s, i + 1)
    }
}

/// Position after any run of spaces and tabs starting at `i`.
pub open spec fn spec_skip_spaces(s: Seq<u8>, i: int) -> int
    decreases s.len() - i,
    when 0 <= i <= s.len()
{
    if i < s.len() && (s[i] == 0x20 || s[i] == 0x09) {
        spec_skip_spaces(s, i + 1)
    } else {
        i
    }
}

/// Position after any run of `%` signs starting at `i`.
pub open spec fn spec_skip_percents(s: Seq<u8>, i: int) -> int
    decreases s.len() - i,
    when 0 <= i <= s.len()
{
    if i < s.len() && s[i] == 0x25 {
        spec_skip_percents(s, i + 1)
    } else {
        i
    }
}

/// Whether `sub` occurs at position `k` of `s`.
pub open spec fn seq_at(s: Seq<u8>, k: int, sub: Seq<u8>) -> bool {
    0 <= k && k + sub.len() <= s.len() && s.subrange(k, k + sub.len() as int) =~= sub
}

/// Whether a code token, delimited by spaces or parentheses, occurs in
/// `s` between `from` and `to`.
pub open spec fn has_code_token(s: Seq<u8>, from: int, to: int, code: Seq<u8>) -> bool {
    exists|k: int|
        {
            &&& from <= k && k + code.len() <= to
            &&& #[trigger] s.subrange(k, k + code.len() as int) =~= code
            &&& (k == from || s[k - 1] == 0x20 || s[k - 1] == 0x28)
            &&& (k + code.len() == to || s[k + code.len()] == 0x20 || s[k + code.len()] == 0x29)
        }
}

/// Whether the line starting at `lb` is a suppression annotation that
/// names `code`: optional indentation, one or more `%`, optional spaces,
/// the marker `elp:ignore`, and the code among the listed tokens.
pub open spec fn spec_is_ignore_annotation(s: Seq<u8>, lb: int, code: DiagnosticCode) -> bool {
    let i1 = spec_skip_spaces(s, lb);
    let i2 = spec_skip_percents(s, i1);
    let i3 = spec_skip_spaces(s, i2);
    let marker = encode_utf8("elp:ignore"@);
    &&& 0 <= lb <= s.len()
    &&& i2 > i1
    &&& seq_at(s, i3, marker)
    &&& has_code_token(
        s,
        i3 + marker.len(),
        spec_line_end(s, i3 + marker.len() as int),
        encode_utf8(code.spec_code()),
    )
}

/// Whether the line starting at `lb` is a comment line: its first
/// non-blank character is a `%` sign.
pub open spec fn spec_is_comment_line(s: Seq<u8>, lb: int) -> bool {
    0 <= lb <= s.len() && {
        let i = spec_skip_spaces(s, lb);
        i < s.len() && s[i] == 0x25
    }
}

/// Whether the line starting at `lb` is the module identity declaration.
pub open spec fn spec_is_module_line(s: Seq<u8>, lb: int) -> bool {
    0 <= lb <= s.len() && seq_at(s, spec_skip_spaces(s, lb), encode_utf8("-module("@))
}

/// Whether the line starting at `lb` holds nothing but blanks.
pub open spec fn spec_is_blank_line(s: Seq<u8>, lb: int) -> bool {
    0 <= lb <= s.len() && {
        let i = spec_skip_spaces(s, lb);
        i >= s.len() || s[i] == 0x0a
    }
}

/// Every line end lies between its line start and the end of the buffer.
pub proof fn lemma_line_end_ge(s: Seq<u8>, i: int)
    requires
        0 <= i <= s.len(),
    ensures
        i <= spec_line_end(s, i) <= s.len(),
    decreases s.len() - i,
{
    if i < s.len() && s[i] != 0x0a {
        lemma_line_end_ge(s, i + 1);
    }
}

/// Offset just past the leading run of header comment lines.
pub open spec fn spec_after_leading_comments(s: Seq<u8>, lb: int) -> int
    decreases s.len() - lb,
    when 0 <= lb <= s.len()
    via after_leading_comments_decreases
{
    if spec_is_comment_line(s, lb) {
        let le = spec_line_end(s, lb);
        if le < s.len() {
            spec_after_leading_comments(s, le + 1)
        } else {
            s.len() as int
        }
    } else {
        lb
    }
}

#[via_fn]
proof fn after_leading_comments_decreases(s: Seq<u8>, lb: int) {
    if 0 <= lb <= s.len() && spec_is_comment_line(s, lb) {
        lemma_line_end_ge(s, lb);
    }
}

/// Whether an annotation naming `code` stands in the file's header
/// block: the leading run of comment, blank and module-declaration
/// lines, and the line that follows it — exactly where the whole-file
/// suppression fix inserts.
pub open spec fn spec_header_has_annotation(s: Seq<u8>, lb: int, code: DiagnosticCode) -> bool
    decreases s.len() - lb,
    when 0 <= lb <= s.len()
    via header_has_annotation_decreases
{
    if lb >= s.len() {
        false
    } else if spec_is_ignore_annotation(s, lb, code) {
        true
    } else if spec_is_comment_line(s, lb) || spec_is_module_line(s, lb) || spec_is_blank_line(
        s,
        lb,
    ) {
        let le = spec_line_end(s, lb);
        if le < s.len() {
            spec_header_has_annotation(s, le + 1, code)
        } else {
            false
        }
    } else {
        false
    }
}

#[via_fn]
proof fn header_has_annotation_decreases(s: Seq<u8>, lb: int, code: DiagnosticCode) {
    if 0 <= lb <= s.len() {
        lemma_line_end_ge(s, lb);
    }
}

/// A diagnostic is suppressed when its own line or the line just above
/// it carries an ignore annotation naming its code; a whole-file
/// finding is also suppressed by an annotation anywhere in the file's
/// header block, where its own suppression fix inserts one.
pub open spec fn spec_suppressed(s: Seq<u8>, d: Diagnostic) -> bool {
    let lb = spec_line_begin(s, d.range.start as int);
    ||| spec_is_ignore_annotation(s, lb, d.code)
    ||| (lb > 0 && spec_is_ignore_annotation(s, spec_line_begin(s, lb - 1), d.code))
    ||| (d.range.start == 0 && d.range.end == 0 && spec_header_has_annotation(s, 0, d.code))
}

fn skip_spaces(content: &Vec<u8>, i: usize) -> (r: usize)
    requires
        i <= content@.len(),
    ensures
        r as int == spec_skip_spaces(content@, i as int),
        i <= r <= content@.len(),
{
    let n = content.len();
    let mut p = i;
    while p < n && (content[p] == 0x20 || content[p] == 0x09)
        invariant
            n == content@.len(),
            i <= p <= n,
            spec_skip_spaces(content@, i as int) == spec_skip_spaces(content@, p as int),
        decreases n - p,
    {
        p += 1;
    }
    p
}

fn skip_percents(content: &Vec<u8>, i: usize) -> (r: usize)
    requires
        i <= content@.len(),
    ensures
        r as int == spec_skip_percents(content@, i as int),
        i <= r <= content@.len(),
{
    let n = content.len();
    let mut p = i;
    while p < n && content[p] == 0x25
        invariant
            n == content@.len(),
            i <= p <= n,
            spec_skip_percents(content@, i as int) == spec_skip_percents(content@, p as int),
        decreases n - p,
    {
        p += 1;
    }
    p
}

fn line_end(content: &Vec<u8>, i: usize) -> (r: usize)
    requires
        i <= content@.len(),
    ensures
        r as int == spec_line_end(content@, i as int),
        i <= r <= content@.len(),
{
    let n = content.len();
    let mut p = i;
    while p < n && content[p] != 0x0a
        invariant
            n == content@.len(),
            i <= p <= n,
            spec_line_end(content@, i as int) == spec_line_end(content@, p as int),
        decreases n - p,
    {
        p += 1;
    }
    p
}

/// The short code of every rule is a non-empty byte string.
proof fn lemma_code_bytes_nonempty(code: DiagnosticCode)
    ensures
        encode_utf8(code.spec_code()).len() > 0,
{
    match code {
        DiagnosticCode::ExpressionCanBeSimplified => reveal_strlit("W0024"),
        DiagnosticCode::UnnecessaryReversalToFindLastElementOfList => reveal_strlit("W0036"),
        DiagnosticCode::MissingCompileWarnMissingSpec => reveal_strlit("W0012"),
        DiagnosticCode::ModuleMismatch => reveal_strlit("W0001"),
        DiagnosticCode::RedundantAssignment => reveal_strlit("W0023"),
        DiagnosticCode::UnspecificInclude => reveal_strlit("W0020"),
    }
    assert(code.spec_code().len() == 5);
    assert(encode_utf8(code.spec_code()).len() >= 1) by {
        assert(code.spec_code().len() != 0);
        assert(vstd::utf8::encode_scalar(code.spec_code()[0] as u32).len() >= 1);
    }
}

/// Checks whether the line starting at `lb` is an ignore annotation
/// naming `code`.
pub fn is_ignore_annotation(content: &Vec<u8>, lb: usize, code: DiagnosticCode) -> (r: bool)
    ensures
        r == spec_is_ignore_annotation(content@, lb as int, code),
{
    let ghost s = content@;
    let n = content.len();
    if !(lb <= n) {
        return false;
    }
    let i1 = skip_spaces(content, lb);
    let i2 = skip_percents(content, i1);
    if !(i2 > i1) {
        return false;
    }
    let i3 = skip_spaces(content, i2);
    let marker = "elp:ignore";
    let mb = marker.as_bytes();
    let ml = mb.len();
    if !(n - i3 >= ml) {
        proof {
            assert(!seq_at(s, i3 as int, encode_utf8("elp:ignore"@)));
        }
        return false;
    }
    if !crate::strutil::match_at(content.as_slice(), mb, i3) {
        return false;
    }
    let i4 = i3 + ml;
    let le = line_end(content, i4);
    let code_string = code.as_code();
    let cb = code_string.as_str().as_bytes();
    let m = cb.len();
    let ghost cbs = encode_utf8(code.spec_code());
    proof {
        lemma_code_bytes_nonempty(code);
    }
    if le - i4 < m {
        proof {
            assert(!has_code_token(s, i4 as int, le as int, cbs));
        }
        return false;
    }
    let mut k: usize = i4;
    while le - k >= m
        invariant
            s == content@,
            n == s.len(),
            cbs == cb@,
            cbs == encode_utf8(code.spec_code()),
            m == cbs.len(),
            i4 <= k <= le,
            i4 + m <= le <= n,
            m >= 1,
            lb as int <= s.len(),
            i1 as int == spec_skip_spaces(s, lb as int),
            i2 as int == spec_skip_percents(s, i1 as int),
            i3 as int == spec_skip_spaces(s, i2 as int),
            i2 > i1,
            seq_at(s, i3 as int, encode_utf8("elp:ignore"@)),
            i4 as int == i3 + encode_utf8("elp:ignore"@).len(),
            le as int == spec_line_end(s, i4 as int),
            forall|k2: int|
                i4 <= k2 < k ==> !({
                    &&& #[trigger] s.subrange(k2, k2 + cbs.len() as int) =~= cbs
                    &&& (k2 == i4 || s[k2 - 1] == 0x20 || s[k2 - 1] == 0x28)
                    &&& (k2 + cbs.len() == le || s[k2 + cbs.len()] == 0x20 || s[k2 + cbs.len()]
                        == 0x29)
                }),
        decreases le - k,
    {
        let front_ok = k == i4 || content[k - 1] == 0x20 || content[k - 1] == 0x28;
        let back_ok = k + m == le || content[k + m] == 0x20 || content[k + m] == 0x29;
        if front_ok && back_ok && crate::strutil::match_at(content.as_slice(), cb, k) {
            proof {
                assert(s.subrange(k as int, k + cbs.len() as int) =~= cbs);
                assert(has_code_token(s, i4 as int, le as int, cbs));
                assert(seq_at(s, i3 as int, encode_utf8("elp:ignore"@)));
            }
            return true;
        }
        k += 1;
    }
    proof {
        assert forall|k2: int|
            i4 <= k2 && k2 + cbs.len() <= le implies !({
            &&& #[trigger] s.subrange(k2, k2 + cbs.len() as int) =~= cbs
            &&& (k2 == i4 || s[k2 - 1] == 0x20 || s[k2 - 1] == 0x28)
            &&& (k2 + cbs.len() == le || s[k2 + cbs.len()] == 0x20 || s[k2 + cbs.len()] == 0x29)
        }) by {
            assert(k2 < k);
        }
        assert(!has_code_token(s, i4 as int, le as int, cbs));
    }
    false
}

/// Checks whether the line starting at `lb` is a comment line.
fn is_comment_line(content: &Vec<u8>, lb: usize) -> (r: bool)
    requires
        lb <= content@.len(),
    ensures
        r == spec_is_comment_line(content@, lb as int),
{
    let i = skip_spaces(content, lb);
    i < content.len() && content[i] == 0x25
}

/// Checks whether the line starting at `lb` is the module declaration.
fn is_module_line(content: &Vec<u8>, lb: usize) -> (r: bool)
    requires
        lb <= content@.len(),
    ensures
        r == spec_is_module_line(content@, lb as int),
{
    let i = skip_spaces(content, lb);
    let marker = "-module(";
    let mb = marker.as_bytes();
    if content.len() - i < mb.len() {
        proof {
            assert(!seq_at(content@, i as int, encode_utf8("-module("@)));
        }
        return false;
    }
    crate::strutil::match_at(content.as_slice(), mb, i)
}

/// Finds the position just past the leading run of header comments.
fn after_leading_comments(content: &Vec<u8>) -> (r: u32)
    ensures
        r as int == if spec_after_leading_comments(content@, 0) < 0xffff_ffff {
            spec_after_leading_comments(content@, 0)
        } else {
            0xffff_ffff
        },
{
    let ghost s = content@;
    let n = content.len();
    let mut lb: usize = 0;
    while lb < n && is_comment_line(content, lb)
        invariant
            s == content@,
            n == s.len(),
            0 <= lb <= n,
            spec_after_leading_comments(s, 0) == spec_after_leading_comments(s, lb as int),
        decreases n - lb,
    {
        proof {
            lemma_line_end_ge(s, lb as int);
        }
        let le = line_end(content, lb);
        if le >= n {
            proof {
                assert(spec_after_leading_comments(s, lb as int) == s.len() as int);
            }
            lb = n;
        } else {
            lb = le + 1;
        }
    }
    proof {
        if lb < n {
            assert(spec_after_leading_comments(s, lb as int) == lb as int);
        } else {
            assert(spec_after_leading_comments(s, lb as int) == lb as int);
        }
    }
    if lb < 0xffff_ffff {
        lb as u32
    } else {
        0xffff_ffff
    }
}

/// Checks whether the line starting at `lb` holds nothing but blanks.
fn is_blank_line(content: &Vec<u8>, lb: usize) -> (r: bool)
    requires
        lb <= content@.len(),
    ensures
        r == spec_is_blank_line(content@, lb as int),
{
    let i = skip_spaces(content, lb);
    i >= content.len() || content[i] == 0x0a
}

/// Scans the file's header block for an annotation naming `code`.
fn header_has_annotation(content: &Vec<u8>, code: DiagnosticCode) -> (r: bool)
    ensures
        r == spec_header_has_annotation(content@, 0, code),
{
    let ghost s = content@;
    let n = content.len();
    let mut lb: usize = 0;
    while lb < n
        invariant
            s == content@,
            n == s.len(),
            0 <= lb <= n,
            spec_header_has_annotation(s, 0, code) == spec_header_has_annotation(
                s,
                lb as int,
                code,
            ),
        decreases n - lb,
    {
        if is_ignore_annotation(content, lb, code) {
            return true;
        }
        if !(is_comment_line(content, lb) || is_module_line(content, lb) || is_blank_line(
            content,
            lb,
        )) {
            return false;
        }
        proof {
            lemma_line_end_ge(s, lb as int);
        }
        let le = line_end(content, lb);
        if le >= n {
            return false;
        }
        lb = le + 1;
    }
    false
}

/// Blank-skipping never moves backwards.
proof fn lemma_skip_spaces_ge(s: Seq<u8>, i: int)
    requires
        0 <= i <= s.len(),
    ensures
        i <= spec_skip_spaces(s, i) <= s.len(),
    decreases s.len() - i,
{
    if i < s.len() && (s[i] == 0x20 || s[i] == 0x09) {
        lemma_skip_spaces_ge(s, i + 1);
    }
}

/// Checks whether analysis must drop the diagnostic because an ignore
/// annotation covers its location.
pub fn suppressed(content: &Vec<u8>, d: &Diagnostic) -> (r: bool)
    ensures
        r == spec_suppressed(content@, *d),
{
    let lb = line_begin(content, d.range.start);
    if is_ignore_annotation(content, lb as usize, d.code) {
        return true;
    }
    if lb > 0 {
        let prev = line_begin(content, lb - 1);
        if is_ignore_annotation(content, prev as usize, d.code) {
            return true;
        }
    }
    if d.range.start == 0 && d.range.end == 0 {
        return header_has_annotation(content, d.code);
    }
    false
}

/// The diagnostics that survive the suppression annotations in `s`.
pub open spec fn spec_filter_suppressed(ds: Seq<Diagnostic>, s: Seq<u8>) -> Seq<Diagnostic>
    decreases ds.len(),
{
    if ds.len() == 0 {
        Seq::empty()
    } else {
        (if spec_suppressed(s, ds[0]) {
            Seq::empty()
        } else {
            seq![ds[0]]
        }) + spec_filter_suppressed(ds.drop_first(), s)
    }
}

/// Drops every diagnostic covered by an ignore annotation.
pub fn filter_suppressed(ds: Vec<Diagnostic>, content: &Vec<u8>) -> (out: Vec<Diagnostic>)
    ensures
        out@ == spec_filter_suppressed(ds@, content@),
{
    let ghost all = ds@;
    let mut out: Vec<Diagnostic> = Vec::new();
    let mut rest = ds;
    proof {
        assert(all.skip(0) =~= all);
        assert(out@ + spec_filter_suppressed(all.skip(0), content@) =~= spec_filter_suppressed(
            all,
            content@,
        ));
    }
    let ghost mut i: int = 0;
    while rest.len() > 0
        invariant
            0 <= i <= all.len(),
            rest@ == all.skip(i),
            spec_filter_suppressed(all, content@) == out@ + spec_filter_suppressed(
                all.skip(i),
                content@,
            ),
        decreases rest@.len(),
    {
        let d = rest.remove(0);
        proof {
            assert(all.skip(i)[0] == all[i]);
            assert(all.skip(i).drop_first() =~= all.skip(i + 1));
            assert(rest@ =~= all.skip(i + 1));
        }
        let is_sup = suppressed(content, &d);
        if !is_sup {
            out.push(d);
        }
        proof {
            assert(out@ + spec_filter_suppressed(all.skip(i + 1), content@)
                =~= spec_filter_suppressed(all, content@));
            i = i + 1;
        }
    }
    proof {
        assert(all.skip(all.len() as int) =~= Seq::<Diagnostic>::empty());
        assert(out@ =~= spec_filter_suppressed(all, content@));
    }
    out
}

/// The filter keeps no diagnostic that an annotation covers: whatever
/// survives is not suppressed.
pub proof fn lemma_filter_honours_annotations(ds: Seq<Diagnostic>, s: Seq<u8>)
    ensures
        forall|i: int|
            0 <= i < spec_filter_suppressed(ds, s).len() ==> !spec_suppressed(
                s,
                #[trigger] spec_filter_suppressed(ds, s)[i],
            ),
    decreases ds.len(),
{
    if ds.len() > 0 {
        lemma_filter_honours_annotations(ds.drop_first(), s);
        let rec = spec_filter_suppressed(ds.drop_first(), s);
        let out = spec_filter_suppressed(ds, s);
        if spec_suppressed(s, ds[0]) {
            assert(out =~= rec);
        } else {
            assert(out =~= seq![ds[0]] + rec);
            assert forall|i: int| 0 <= i < out.len() implies !spec_suppressed(s, out[i]) by {
                if i > 0 {
                    assert(out[i] == rec[i - 1]);
                }
            }
        }
    }
}

} // verus!
