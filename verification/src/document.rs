//! The document: a text buffer kept consistent with editor change events.
//!
//! A batch of changes is applied strictly in order.  Each ranged event is
//! mapped from line/UTF-16-column coordinates to a byte span of the
//! current content; an event whose range is out of bounds, inverted, or
//! not aligned to character boundaries is discarded, leaving the buffer
//! untouched.  A range-less event replaces the whole buffer.  A line
//! index is cached and only rebuilt when an event reaches beyond the
//! lines it still describes correctly.

use vstd::prelude::*;
use vstd::utf8::decode_utf8;
use vstd::utf8::encode_utf8;
use vstd::utf8::encode_utf8_valid_utf8;
use vstd::utf8::is_char_boundary;
use vstd::utf8::valid_utf8;
use vstd::utf8::valid_utf8_concat;
use vstd::utf8::valid_utf8_split;

use crate::decode::is_utf8;
use crate::decode::latin1_fallback;
use crate::decode::lemma_latin1_valid;
use crate::decode::spec_decode_file;
use crate::lines::col_offset;
use crate::lines::lemma_col_offset_boundary;
use crate::lines::lemma_line_start_boundary;
use crate::lines::lemma_line_start_prefix;
use crate::lines::lemma_line_start_props;
use crate::lines::lemma_next_props;
use crate::lines::lemma_step_boundary;
use crate::lines::next_line_start;
use crate::lines::spec_col_offset;
use crate::lines::spec_line_start;
use crate::lines::LineIndex;

verus! {

/// A position as the editor reports it: 0-based line, column counted in
/// UTF-16 code units.
#[derive(Clone, Copy, PartialEq, Eq, Structural, Debug)]
pub struct LineCol {
    pub line: u32,
    pub col: u32,
}

/// The span of an editor change, in editor coordinates.
#[derive(Clone, Copy, PartialEq, Eq, Structural, Debug)]
pub struct EventRange {
    pub start: LineCol,
    pub end: LineCol,
}

/// One editor change: replace `range` with `text`, or the whole buffer
/// when `range` is absent.
#[derive(Clone, Debug)]
pub struct ChangeEvent {
    pub range: Option<EventRange>,
    pub text: String,
}

/// The replacement text of an event, as buffer bytes.
pub open spec fn event_text(e: ChangeEvent) -> Seq<u8> {
    encode_utf8(e.text@)
}

/// Byte offset of an editor position in the buffer, when the position
/// names an existing line and lands on a character boundary of it.
pub open spec fn spec_position_offset(s: Seq<u8>, p: LineCol) -> Option<int> {
    match spec_line_start(s, p.line as int) {
        Some(ls) => spec_col_offset(s, ls, p.col as int),
        None => None,
    }
}

/// Byte span of an editor range: both endpoints must resolve and must not
/// be inverted.
pub open spec fn spec_resolve_range(s: Seq<u8>, r: EventRange) -> Option<(int, int)> {
    match spec_position_offset(s, r.start) {
        Some(a) => match spec_position_offset(s, r.end) {
            Some(b) => if a <= b {
                Some((a, b))
            } else {
                None
            },
            None => None,
        },
        None => None,
    }
}

/// The buffer with the byte span `a..b` replaced by `t`.
pub open spec fn spec_splice(s: Seq<u8>, a: int, b: int, t: Seq<u8>) -> Seq<u8> {
    s.subrange(0, a) + t + s.subrange(b, s.len() as int)
}

/// The buffer after one change event: full replacement, a splice at the
/// resolved span, or — for an unresolvable range — the buffer unchanged.
pub open spec fn spec_apply_event(s: Seq<u8>, e: ChangeEvent) -> Seq<u8> {
    match e.range {
        None => event_text(e),
        Some(r) => match spec_resolve_range(s, r) {
            Some((a, b)) => spec_splice(s, a, b, event_text(e)),
            None => s,
        },
    }
}

/// The buffer after a whole batch, applied strictly in order.
pub open spec fn spec_apply_batch(s: Seq<u8>, evs: Seq<ChangeEvent>) -> Seq<u8>
    decreases evs.len(),
{
    if evs.len() == 0 {
        s
    } else {
        spec_apply_batch(spec_apply_event(s, evs[0]), evs.drop_first())
    }
}

/// Line starts never decrease with the line number.
proof fn lemma_line_start_monotone(s: Seq<u8>, l: int, m: int)
    requires
        0 <= l <= m,
        spec_line_start(s, m) is Some,
    ensures
        spec_line_start(s, l) is Some,
        spec_line_start(s, l)->Some_0 <= spec_line_start(s, m)->Some_0,
    decreases m - l,
{
    if l < m {
        lemma_line_start_props(s, m);
        lemma_line_start_monotone(s, l, m - 1);
    }
}

/// A successful column walk stays strictly before the next line start
/// (and within the buffer).
proof fn lemma_col_offset_within_line(s: Seq<u8>, pos: int, col: int)
    requires
        valid_utf8(s),
        0 <= pos <= s.len(),
        is_char_boundary(s, pos),
        col >= 0,
    ensures
        match spec_col_offset(s, pos, col) {
            Some(q) => match next_line_start(s, pos) {
                Some(nl) => q < nl,
                None => q <= s.len(),
            },
            None => true,
        },
    decreases col,
{
    lemma_next_props(s, pos);
    if col == 0 {
    } else if !(0 <= pos < s.len()) {
    } else if s[pos] == 0x0a {
    } else if col < crate::lines::lead_utf16_len(s[pos]) {
    } else {
        lemma_step_boundary(s, pos);
        let w = crate::lines::lead_byte_len(s[pos]);
        let suffix = s.subrange(pos, s.len() as int);
        valid_utf8_split(s, pos);
        assert(forall|j: int|
            pos < j < pos + w ==> vstd::utf8::is_continuation_byte(#[trigger] s[j])) by {
            assert(vstd::utf8::valid_first_scalar(suffix));
            assert forall|j: int|
                pos < j < pos + w implies vstd::utf8::is_continuation_byte(#[trigger] s[j]) by {
                assert(s[j] == suffix[j - pos]);
            }
        }
        assert(next_line_start(s, pos) == next_line_start(s, pos + w)) by {
            assert forall|j: int| pos <= j < pos + w implies s[j] != 0x0a by {
                if j > pos {
                    assert(vstd::utf8::is_continuation_byte(s[j]));
                }
            }
            lemma_next_skip_no_newline(s, pos, pos + w);
        }
        lemma_col_offset_within_line(s, pos + w, col - crate::lines::lead_utf16_len(s[pos]));
    }
}

/// Scanning for a newline may start anywhere inside a newline-free stretch.
proof fn lemma_next_skip_no_newline(s: Seq<u8>, from: int, to: int)
    requires
        0 <= from <= to <= s.len(),
        forall|j: int| from <= j < to ==> s[j] != 0x0a,
    ensures
        next_line_start(s, from) == next_line_start(s, to),
    decreases to - from,
{
    if from < to {
        lemma_next_skip_no_newline(s, from + 1, to);
    }
}

/// A range whose start line lies beyond its end line never resolves: if
/// both endpoints exist, the start offset is strictly greater.
proof fn lemma_inverted_lines_unresolved(s: Seq<u8>, r: EventRange)
    requires
        valid_utf8(s),
        r.start.line > r.end.line,
    ensures
        spec_resolve_range(s, r) is None,
{
    if spec_position_offset(s, r.start) is Some && spec_position_offset(s, r.end) is Some {
        let sl = r.start.line as int;
        let el = r.end.line as int;
        let ps = spec_line_start(s, sl)->Some_0;
        let pe = spec_line_start(s, el)->Some_0;
        lemma_line_start_boundary(s, sl);
        lemma_line_start_boundary(s, el);
        let a = spec_position_offset(s, r.start)->Some_0;
        let b = spec_position_offset(s, r.end)->Some_0;
        lemma_col_offset_boundary(s, ps, r.start.col as int);
        lemma_col_offset_within_line(s, pe, r.end.col as int);
        // the line after the end line exists because the start line does
        lemma_line_start_monotone(s, el + 1, sl);
        lemma_line_start_props(s, el + 1);
        assert(spec_line_start(s, el + 1) == next_line_start(s, pe));
        let nl = spec_line_start(s, el + 1)->Some_0;
        assert(b < nl);
        lemma_line_start_monotone(s, el + 1, sl);
        assert(nl <= ps);
        assert(ps <= a);
        assert(a > b);
    }
}

/// Splicing valid replacement text between character boundaries of a
/// valid buffer yields a valid buffer.
proof fn lemma_splice_valid(s: Seq<u8>, a: int, b: int, t: Seq<u8>)
    requires
        valid_utf8(s),
        valid_utf8(t),
        0 <= a <= b <= s.len(),
        is_char_boundary(s, a),
        is_char_boundary(s, b),
    ensures
        valid_utf8(spec_splice(s, a, b, t)),
{
    valid_utf8_split(s, a);
    valid_utf8_split(s, b);
    let prefix = s.subrange(0, a);
    let suffix = s.subrange(b, s.len() as int);
    valid_utf8_concat(t, suffix);
    valid_utf8_concat(prefix, t + suffix);
    assert(spec_splice(s, a, b, t) =~= prefix + (t + suffix));
}

/// Unfolds one step of batch application.
proof fn lemma_apply_batch_step(s: Seq<u8>, evs: Seq<ChangeEvent>, k: int)
    requires
        0 <= k < evs.len(),
    ensures
        spec_apply_batch(s, evs.skip(k)) == spec_apply_batch(
            spec_apply_event(s, evs[k]),
            evs.skip(k + 1),
        ),
{
    assert(evs.skip(k)[0] == evs[k]);
    assert(evs.skip(k).drop_first() =~= evs.skip(k + 1));
}

/// How far the cached line index is still correct: everywhere, or only
/// for lines strictly before a watermark.
enum IndexValid {
    All,
    UpToLineExclusive(u32),
}

impl IndexValid {
    spec fn spec_covers(self, line: u32) -> bool {
        match self {
            IndexValid::UpToLineExclusive(to) => to > line,
            IndexValid::All => true,
        }
    }

    /// The index answers correctly for every line this marker covers.
    spec fn ok_for(self, idx: LineIndex, s: Seq<u8>) -> bool {
        match self {
            IndexValid::All => idx.matches_all(s),
            IndexValid::UpToLineExclusive(to) => idx.matches_upto(s, to as int),
        }
    }

    fn covers(&self, line: u32) -> (r: bool)
        ensures
            r == self.spec_covers(line),
    {
        match *self {
            IndexValid::UpToLineExclusive(to) => to > line,
            IndexValid::All => true,
        }
    }

    /// Narrows the marker so it covers no line at or past `line`.
    fn narrow(self, line: u32) -> (r: IndexValid)
        ensures
            r is UpToLineExclusive,
            r->UpToLineExclusive_0 <= line,
            forall|l: u32| r.spec_covers(l) ==> self.spec_covers(l) && l < line,
    {
        match self {
            IndexValid::All => IndexValid::UpToLineExclusive(line),
            IndexValid::UpToLineExclusive(to) => if to < line {
                IndexValid::UpToLineExclusive(to)
            } else {
                IndexValid::UpToLineExclusive(line)
            },
        }
    }
}

/// Resolves an editor range against the current content, using cached
/// line starts that are known correct up to the range's end line.
fn resolve_event_range(idx: &LineIndex, content: &Vec<u8>, r: EventRange) -> (res: Option<
    (usize, usize),
>)
    requires
        valid_utf8(content@),
        idx.matches_upto(content@, r.end.line as int + 1),
    ensures
        match res {
            Some((a, b)) => {
                &&& spec_resolve_range(content@, r) == Some((a as int, b as int))
                &&& a <= b <= content@.len()
                &&& is_char_boundary(content@, a as int)
                &&& is_char_boundary(content@, b as int)
            },
            None => spec_resolve_range(content@, r) is None,
        },
{
    let ghost s = content@;
    if r.start.line > r.end.line {
        proof {
            lemma_inverted_lines_unresolved(s, r);
        }
        return None;
    }
    let a = match idx.lookup(r.start.line) {
        Some(ls) => {
            proof {
                lemma_line_start_boundary(s, r.start.line as int);
            }
            match col_offset(content, ls, r.start.col) {
                Some(a) => a,
                None => {
                    return None;
                },
            }
        },
        None => {
            return None;
        },
    };
    let b = match idx.lookup(r.end.line) {
        Some(ls) => {
            proof {
                lemma_line_start_boundary(s, r.end.line as int);
            }
            match col_offset(content, ls, r.end.col) {
                Some(b) => b,
                None => {
                    return None;
                },
            }
        },
        None => {
            return None;
        },
    };
    if a <= b {
        Some((a, b))
    } else {
        None
    }
}

/// Copies `content[..a] + text + content[b..]` into a fresh buffer.
pub(crate) fn splice_bytes(content: &Vec<u8>, a: usize, b: usize, text: &str) -> (v: Vec<u8>)
    requires
        a <= b <= content@.len(),
    ensures
        v@ == spec_splice(content@, a as int, b as int, encode_utf8(text@)),
{
    let ghost s = content@;
    let mut v: Vec<u8> = Vec::new();
    let mut i: usize = 0;
    while i < a
        invariant
            s == content@,
            a <= b <= s.len(),
            0 <= i <= a,
            v@ == s.subrange(0, i as int),
        decreases a - i,
    {
        v.push(content[i]);
        proof {
            assert(v@ =~= s.subrange(0, i + 1));
        }
        i += 1;
    }
    push_str_bytes(&mut v, text);
    let mut j: usize = b;
    let n = content.len();
    while j < n
        invariant
            s == content@,
            a <= b <= s.len(),
            n == s.len(),
            b <= j <= n,
            v@ == s.subrange(0, a as int) + encode_utf8(text@) + s.subrange(b as int, j as int),
        decreases n - j,
    {
        v.push(content[j]);
        proof {
            assert(v@ =~= s.subrange(0, a as int) + encode_utf8(text@) + s.subrange(
                b as int,
                j + 1,
            ));
        }
        j += 1;
    }
    proof {
        assert(s.subrange(b as int, b as int) =~= Seq::<u8>::empty());
        assert(v@ =~= spec_splice(s, a as int, b as int, encode_utf8(text@)));
    }
    v
}

/// Appends the UTF-8 bytes of `text` to `out`.
fn push_str_bytes(out: &mut Vec<u8>, text: &str)
    ensures
        final(out)@ == old(out)@ + encode_utf8(text@),
{
    let bs = text.as_bytes();
    let n = bs.len();
    let mut i: usize = 0;
    proof {
        assert(out@ =~= old(out)@ + bs@.subrange(0, 0));
    }
    while i < n
        invariant
            n == bs@.len(),
            bs@ == encode_utf8(text@),
            0 <= i <= n,
            out@ == old(out)@ + bs@.subrange(0, i as int),
        decreases n - i,
    {
        out.push(bs[i]);
        proof {
            assert(out@ =~= old(out)@ + bs@.subrange(0, i + 1));
        }
        i += 1;
    }
    proof {
        assert(bs@.subrange(0, n as int) =~= bs@);
    }
}

/// Detected line-ending convention of a loaded file.
#[derive(Clone, Copy, PartialEq, Eq, Structural, Debug)]
pub enum LineEndings {
    Unix,
    Dos,
}

/// The buffer with every `\r\n` pair collapsed to `\n`.
pub open spec fn strip_crlf(s: Seq<u8>) -> Seq<u8>
    decreases s.len(),
{
    if s.len() == 0 {
        Seq::empty()
    } else if s.len() >= 2 && s[0] == 0x0d && s[1] == 0x0a {
        seq![0x0au8] + strip_crlf(s.subrange(2, s.len() as int))
    } else {
        seq![s[0]] + strip_crlf(s.drop_first())
    }
}

/// Whether the buffer contains a `\r\n` pair.
pub open spec fn has_crlf(s: Seq<u8>) -> bool
    decreases s.len(),
{
    if s.len() < 2 {
        false
    } else if s[0] == 0x0d && s[1] == 0x0a {
        true
    } else {
        has_crlf(s.drop_first())
    }
}

/// Multi-byte characters contain no carriage-return or newline bytes, so
/// `strip_crlf` copies them whole.
proof fn lemma_strip_crlf_scalar_step(s: Seq<u8>)
    requires
        valid_utf8(s),
        s.len() > 0,
        !(s.len() >= 2 && s[0] == 0x0d && s[1] == 0x0a),
    ensures
        strip_crlf(s) == s.subrange(0, vstd::utf8::length_of_first_scalar(s)) + strip_crlf(
            s.subrange(vstd::utf8::length_of_first_scalar(s), s.len() as int),
        ),
{
    let w = vstd::utf8::length_of_first_scalar(s);
    assert(vstd::utf8::valid_first_scalar(s));
    assert(forall|j: int| 0 < j < w ==> vstd::utf8::is_continuation_byte(#[trigger] s[j]));
    if w == 1 {
        assert(s.drop_first() =~= s.subrange(1, s.len() as int));
        assert(strip_crlf(s) =~= s.subrange(0, 1) + strip_crlf(s.subrange(1, s.len() as int)));
    } else {
        // each continuation byte is at least 0x80, so never 0x0d or 0x0a
        assert(s.drop_first() =~= s.subrange(1, s.len() as int));
        lemma_strip_crlf_cont_run(s, 1, w);
        assert(strip_crlf(s) == seq![s[0]] + (s.subrange(1, w) + strip_crlf(
            s.subrange(w, s.len() as int),
        )));
        assert(strip_crlf(s) =~= s.subrange(0, w) + strip_crlf(s.subrange(w, s.len() as int)));
    }
}

/// Copying a run of continuation bytes, one at a time.
proof fn lemma_strip_crlf_cont_run(s: Seq<u8>, from: int, to: int)
    requires
        0 < from <= to <= s.len(),
        forall|j: int| from <= j < to ==> vstd::utf8::is_continuation_byte(#[trigger] s[j]),
    ensures
        strip_crlf(s.subrange(from, s.len() as int)) == s.subrange(from, to) + strip_crlf(
            s.subrange(to, s.len() as int),
        ),
    decreases to - from,
{
    if from == to {
        assert(s.subrange(from, to) =~= Seq::<u8>::empty());
        assert(s.subrange(from, to) + strip_crlf(s.subrange(to, s.len() as int)) =~= strip_crlf(
            s.subrange(from, s.len() as int),
        ));
    } else {
        let rest = s.subrange(from, s.len() as int);
        assert(rest[0] == s[from]);
        assert(vstd::utf8::is_continuation_byte(s[from]));
        assert(rest[0] != 0x0d);
        assert(rest.drop_first() =~= s.subrange(from + 1, s.len() as int));
        lemma_strip_crlf_cont_run(s, from + 1, to);
        assert(strip_crlf(rest) == seq![s[from]] + (s.subrange(from + 1, to) + strip_crlf(
            s.subrange(to, s.len() as int),
        )));
        assert(strip_crlf(rest) =~= s.subrange(from, to) + strip_crlf(
            s.subrange(to, s.len() as int),
        ));
    }
}

/// Collapsing line endings preserves UTF-8 validity.
proof fn lemma_strip_crlf_valid(s: Seq<u8>)
    requires
        valid_utf8(s),
    ensures
        valid_utf8(strip_crlf(s)),
    decreases s.len(),
{
    if s.len() == 0 {
        assert(strip_crlf(s) =~= Seq::<u8>::empty());
    } else if s.len() >= 2 && s[0] == 0x0d && s[1] == 0x0a {
        assert(vstd::utf8::valid_first_scalar(s));
        assert(vstd::utf8::length_of_first_scalar(s) == 1);
        assert(vstd::utf8::pop_first_scalar(s) =~= s.subrange(1, s.len() as int));
        let s1 = s.subrange(1, s.len() as int);
        assert(valid_utf8(s1));
        assert(s1[0] == 0x0a);
        assert(vstd::utf8::valid_first_scalar(s1));
        assert(vstd::utf8::pop_first_scalar(s1) =~= s.subrange(2, s.len() as int));
        assert(valid_utf8(s.subrange(2, s.len() as int)));
        lemma_strip_crlf_valid(s.subrange(2, s.len() as int));
        let tail = strip_crlf(s.subrange(2, s.len() as int));
        assert(vstd::utf8::valid_first_scalar(seq![0x0au8] + tail)) by {
            assert((seq![0x0au8] + tail)[0] == 0x0a);
        }
        assert(vstd::utf8::pop_first_scalar(seq![0x0au8] + tail) =~= tail);
        assert(valid_utf8(seq![0x0au8] + tail));
    } else {
        let w = vstd::utf8::length_of_first_scalar(s);
        lemma_strip_crlf_scalar_step(s);
        assert(is_char_boundary(s, w)) by {
            assert(is_char_boundary(vstd::utf8::pop_first_scalar(s), 0));
        }
        valid_utf8_split(s, w);
        lemma_strip_crlf_valid(s.subrange(w, s.len() as int));
        valid_utf8_concat(s.subrange(0, w), strip_crlf(s.subrange(w, s.len() as int)));
    }
}

/// Scans the buffer once, collapsing `\r\n` to `\n` and reporting whether
/// any such pair was present.
fn normalize_endings(content: &Vec<u8>) -> (res: (Vec<u8>, bool))
    ensures
        res.0@ == strip_crlf(content@),
        res.1 == has_crlf(content@),
{
    let ghost s = content@;
    let n = content.len();
    let mut out: Vec<u8> = Vec::new();
    let mut found = false;
    let mut i: usize = 0;
    proof {
        assert(s.subrange(0, n as int) =~= s);
    }
    while i < n
        invariant
            s == content@,
            n == s.len(),
            0 <= i <= n,
            strip_crlf(s) == out@ + strip_crlf(s.subrange(i as int, n as int)),
            has_crlf(s) == (found || has_crlf(s.subrange(i as int, n as int))),
        decreases n - i,
    {
        let ghost rest = s.subrange(i as int, n as int);
        let b = content[i];
        proof {
            assert(rest[0] == b);
        }
        if b == 0x0d && i + 1 < n && content[i + 1] == 0x0a {
            proof {
                assert(rest.len() >= 2 && rest[1] == s[i + 1]);
                assert(rest.subrange(2, rest.len() as int) =~= s.subrange(i + 2, n as int));
            }
            out.push(0x0a);
            found = true;
            i += 2;
        } else {
            proof {
                assert(rest.drop_first() =~= s.subrange(i + 1, n as int));
                if rest.len() >= 2 {
                    assert(rest[1] == s[i + 1]);
                }
            }
            out.push(b);
            i += 1;
        }
    }
    proof {
        assert(s.subrange(n as int, n as int) =~= Seq::<u8>::empty());
        assert(strip_crlf(Seq::<u8>::empty()) =~= Seq::<u8>::empty());
        assert(strip_crlf(s) =~= out@);
    }
    (out, found)
}

/// The in-memory document owning the current text of one open file.
///
/// `content` is exposed for analysis, but its validity invariant (`wf`)
/// is what `apply_changes` requires: construct documents through
/// `from_bytes` and mutate them only through `apply_changes`, and the
/// invariant holds throughout.
pub struct Document {
    pub content: Vec<u8>,
}

impl Document {
    /// The buffer always holds a total, validly decoded text.
    pub open spec fn wf(self) -> bool {
        valid_utf8(self.content@)
    }

    /// Opens a file.  Never fails: bytes that are not valid UTF-8 are
    /// decoded through the one-byte-per-character fallback.
    pub fn from_bytes(bytes: &[u8]) -> (d: Document)
        ensures
            d.wf(),
            d.content@ == spec_decode_file(bytes@),
    {
        if is_utf8(bytes) {
            let mut v: Vec<u8> = Vec::new();
            let n = bytes.len();
            let mut i: usize = 0;
            while i < n
                invariant
                    n == bytes@.len(),
                    0 <= i <= n,
                    v@ == bytes@.subrange(0, i as int),
                decreases n - i,
            {
                v.push(bytes[i]);
                proof {
                    assert(v@ =~= bytes@.subrange(0, i + 1));
                }
                i += 1;
            }
            proof {
                assert(v@ =~= bytes@);
            }
            Document { content: v }
        } else {
            proof {
                lemma_latin1_valid(bytes@);
            }
            Document { content: latin1_fallback(bytes) }
        }
    }

    /// Exports the buffer bytes.  A pure projection of the content.
    pub fn into_bytes(self) -> (v: Vec<u8>)
        ensures
            v@ == self.content@,
    {
        self.content
    }

    /// Hands the buffer to the analysis database: line endings are
    /// normalized to `\n` and the convention found is reported alongside.
    pub fn vfs_to_salsa(self) -> (r: (String, LineEndings))
        requires
            self.wf(),
        ensures
            r.0@ == decode_utf8(strip_crlf(self.content@)),
            r.1 == if has_crlf(self.content@) {
                LineEndings::Dos
            } else {
                LineEndings::Unix
            },
    {
        proof {
            lemma_strip_crlf_valid(self.content@);
        }
        let (v, dos) = normalize_endings(&self.content);
        let text = crate::decode::bytes_to_string(v);
        let endings = if dos {
            LineEndings::Dos
        } else {
            LineEndings::Unix
        };
        (text, endings)
    }

    /// Applies a batch of editor changes strictly in order.
    pub fn apply_changes(&mut self, changes: Vec<ChangeEvent>)
        requires
            old(self).wf(),
        ensures
            final(self).wf(),
            final(self).content@ == spec_apply_batch(old(self).content@, changes@),
    {
        let ghost orig = self.content@;
        let ghost evs = changes@;
        let mut line_index = LineIndex::new(&self.content);
        let mut index_valid = IndexValid::All;
        let n = changes.len();
        let mut k: usize = 0;
        proof {
            assert(evs.skip(0) =~= evs);
        }
        while k < n
            invariant
                evs == changes@,
                n == evs.len(),
                0 <= k <= n,
                valid_utf8(self.content@),
                spec_apply_batch(orig, evs) == spec_apply_batch(self.content@, evs.skip(k as int)),
                index_valid.ok_for(line_index, self.content@),
            decreases n - k,
        {
            let ghost pre = self.content@;
            let ghost ev = evs[k as int];
            let change = &changes[k];
            match change.range {
                Some(r) => {
                    if !index_valid.covers(r.end.line) {
                        line_index = LineIndex::new(&self.content);
                        index_valid = IndexValid::All;
                    }
                    proof {
                        assert(line_index.matches_upto(pre, r.end.line as int + 1));
                    }
                    let ghost old_marker = index_valid;
                    index_valid = index_valid.narrow(r.start.line);
                    match resolve_event_range(&line_index, &self.content, r) {
                        Some((a, b)) => {
                            let new_content = splice_bytes(&self.content, a, b, &change.text);
                            proof {
                                encode_utf8_valid_utf8(change.text@);
                                lemma_splice_valid(
                                    pre,
                                    a as int,
                                    b as int,
                                    encode_utf8(change.text@),
                                );
                            }
                            self.content = new_content;
                            proof {
                                let s2 = self.content@;
                                let w = index_valid->UpToLineExclusive_0 as int;
                                lemma_line_start_boundary(pre, r.start.line as int);
                                let ps = spec_line_start(pre, r.start.line as int)->Some_0;
                                lemma_col_offset_boundary(pre, ps, r.start.col as int);
                                assert(ps <= a as int);
                                assert(pre.subrange(0, a as int) =~= s2.subrange(0, a as int));
                                assert forall|l: int|
                                    0 <= l < w implies line_index.spec_lookup(l)
                                    == spec_line_start(s2, l) by {
                                    assert(old_marker.spec_covers(l as u32));
                                    assert(line_index.spec_lookup(l) == spec_line_start(pre, l));
                                    lemma_line_start_monotone(pre, l, r.start.line as int);
                                    lemma_line_start_props(pre, r.start.line as int);
                                    assert(spec_line_start(pre, l)->Some_0 <= ps <= a as int);
                                    lemma_line_start_prefix(pre, s2, l, a as int);
                                }
                                assert(index_valid.ok_for(line_index, s2));
                            }
                        },
                        None => {
                            proof {
                                assert(self.content@ == spec_apply_event(pre, ev));
                                assert forall|l: int|
                                    0 <= l < index_valid->UpToLineExclusive_0 as int implies line_index.spec_lookup(
                                    l,
                                ) == spec_line_start(pre, l) by {
                                    assert(old_marker.spec_covers(l as u32));
                                }
                            }
                        },
                    }
                },
                None => {
                    let mut v: Vec<u8> = Vec::new();
                    push_str_bytes(&mut v, &change.text);
                    self.content = v;
                    index_valid = IndexValid::UpToLineExclusive(0);
                    proof {
                        encode_utf8_valid_utf8(change.text@);
                        assert(v@ =~= Seq::<u8>::empty() + encode_utf8(change.text@));
                        assert(self.content@ == event_text(ev));
                    }
                },
            }
            proof {
                assert(self.content@ == spec_apply_event(pre, ev));
                lemma_apply_batch_step(pre, evs, k as int);
            }
            k += 1;
        }
        proof {
            assert(evs.skip(n as int) =~= Seq::<ChangeEvent>::empty());
        }
    }
}

// ------------------------------------------------------------------
// Laws of change application
// ------------------------------------------------------------------

/// Applying an empty change batch leaves the content unchanged.
pub proof fn lemma_empty_batch_identity(s: Seq<u8>, evs: Seq<ChangeEvent>)
    requires
        evs.len() == 0,
    ensures
        spec_apply_batch(s, evs) == s,
{
}

/// A batch ending in a whole-buffer replacement always yields exactly the
/// replacement text, whatever the prior content and earlier events.
pub proof fn lemma_full_replace_round_trip(s: Seq<u8>, evs: Seq<ChangeEvent>, e: ChangeEvent)
    requires
        e.range is None,
    ensures
        spec_apply_batch(s, evs + seq![e]) == encode_utf8(e.text@),
    decreases evs.len(),
{
    if evs.len() == 0 {
        assert((evs + seq![e])[0] == e);
        assert((evs + seq![e]).drop_first() =~= Seq::<ChangeEvent>::empty());
        assert(spec_apply_batch(s, evs + seq![e]) == spec_apply_batch(
            spec_apply_event(s, e),
            Seq::<ChangeEvent>::empty(),
        ));
        assert(spec_apply_event(s, e) == event_text(e));
    } else {
        assert((evs + seq![e])[0] == evs[0]);
        assert((evs + seq![e]).drop_first() =~= evs.drop_first() + seq![e]);
        assert(spec_apply_batch(s, evs + seq![e]) == spec_apply_batch(
            spec_apply_event(s, evs[0]),
            evs.drop_first() + seq![e],
        ));
        lemma_full_replace_round_trip(spec_apply_event(s, evs[0]), evs.drop_first(), e);
    }
}

/// A successful column walk starts no earlier than its starting point.
proof fn lemma_col_lower(s: Seq<u8>, pos: int, col: int)
    requires
        col >= 0,
        spec_col_offset(s, pos, col) is Some,
    ensures
        pos <= spec_col_offset(s, pos, col)->Some_0,
    decreases col,
{
    if col == 0 {
    } else if !(0 <= pos < s.len()) {
    } else if s[pos] == 0x0a {
    } else if col < crate::lines::lead_utf16_len(s[pos]) {
    } else {
        lemma_col_lower(
            s,
            pos + crate::lines::lead_byte_len(s[pos]),
            col - crate::lines::lead_utf16_len(s[pos]),
        );
    }
}

/// The bytes a successful column walk passes over contain no newline.
proof fn lemma_col_walk_bytes(s: Seq<u8>, pos: int, col: int)
    requires
        valid_utf8(s),
        0 <= pos <= s.len(),
        is_char_boundary(s, pos),
        col >= 0,
        spec_col_offset(s, pos, col) is Some,
    ensures
        forall|j: int| pos <= j < spec_col_offset(s, pos, col)->Some_0 ==> s[j] != 0x0a,
    decreases col,
{
    if col == 0 {
    } else {
        lemma_step_boundary(s, pos);
        let w = crate::lines::lead_byte_len(s[pos]);
        let suffix = s.subrange(pos, s.len() as int);
        valid_utf8_split(s, pos);
        assert(vstd::utf8::valid_first_scalar(suffix));
        assert(forall|j: int|
            pos < j < pos + w ==> vstd::utf8::is_continuation_byte(#[trigger] s[j])) by {
            assert forall|j: int|
                pos < j < pos + w implies vstd::utf8::is_continuation_byte(#[trigger] s[j]) by {
                assert(s[j] == suffix[j - pos]);
            }
        }
        lemma_col_walk_bytes(s, pos + w, col - crate::lines::lead_utf16_len(s[pos]));
        lemma_col_lower(s, pos + w, col - crate::lines::lead_utf16_len(s[pos]));
        assert forall|j: int|
            pos <= j < spec_col_offset(s, pos, col)->Some_0 implies s[j] != 0x0a by {
            if j == pos {
            } else if j < pos + w {
                assert(vstd::utf8::is_continuation_byte(s[j]));
            }
        }
    }
}

/// A successful column walk is unchanged on a buffer sharing the prefix
/// it reads.
proof fn lemma_col_offset_prefix(s: Seq<u8>, s2: Seq<u8>, pos: int, col: int, k: int)
    requires
        0 <= pos <= k,
        col >= 0,
        spec_col_offset(s, pos, col) is Some,
        spec_col_offset(s, pos, col)->Some_0 <= k,
        k <= s.len(),
        k <= s2.len(),
        s.subrange(0, k) == s2.subrange(0, k),
    ensures
        spec_col_offset(s2, pos, col) == spec_col_offset(s, pos, col),
    decreases col,
{
    if col == 0 {
    } else {
        let q = spec_col_offset(s, pos, col)->Some_0;
        lemma_col_lower(s, pos, col);
        assert(0 <= pos < s.len());
        lemma_col_lower(
            s,
            pos + crate::lines::lead_byte_len(s[pos]),
            col - crate::lines::lead_utf16_len(s[pos]),
        );
        assert(pos < q);
        assert(s.subrange(0, k)[pos] == s[pos]);
        assert(s2.subrange(0, k)[pos] == s2[pos]);
        assert(0 <= pos < s2.len());
        lemma_col_offset_prefix(
            s,
            s2,
            pos + crate::lines::lead_byte_len(s[pos]),
            col - crate::lines::lead_utf16_len(s[pos]),
            k,
        );
    }
}

/// Buffers that agree, shifted, from `base` on.
spec fn suffix_shifted(s: Seq<u8>, s2: Seq<u8>, base: int, d: int) -> bool {
    &&& s2.len() == s.len() + d
    &&& 0 <= base <= s.len()
    &&& 0 <= base + d
    &&& forall|x: int| base <= x < s.len() ==> s2[x + d] == s[x]
}

/// Scanning for a newline shifts along with a shifted suffix.
proof fn lemma_next_shift(s: Seq<u8>, s2: Seq<u8>, base: int, d: int, from: int)
    requires
        suffix_shifted(s, s2, base, d),
        base <= from <= s.len(),
    ensures
        next_line_start(s2, from + d) == match next_line_start(s, from) {
            Some(q) => Some(q + d),
            None => None,
        },
    decreases s.len() - from,
{
    if from >= s.len() {
    } else {
        assert(s2[from + d] == s[from]);
        if s[from] == 0x0a {
        } else {
            lemma_next_shift(s, s2, base, d, from + 1);
        }
    }
}

/// A column walk shifts along with a shifted suffix.
proof fn lemma_col_shift(s: Seq<u8>, s2: Seq<u8>, base: int, d: int, pos: int, col: int)
    requires
        suffix_shifted(s, s2, base, d),
        base <= pos,
        col >= 0,
    ensures
        spec_col_offset(s2, pos + d, col) == match spec_col_offset(s, pos, col) {
            Some(q) => Some(q + d),
            None => None,
        },
    decreases col,
{
    if col == 0 {
    } else if !(0 <= pos < s.len()) {
        assert(!(0 <= pos + d < s2.len()));
    } else {
        assert(s2[pos + d] == s[pos]);
        if s[pos] == 0x0a {
        } else if col < crate::lines::lead_utf16_len(s[pos]) {
        } else {
            lemma_col_shift(
                s,
                s2,
                base,
                d,
                pos + crate::lines::lead_byte_len(s[pos]),
                col - crate::lines::lead_utf16_len(s[pos]),
            );
        }
    }
}

/// Line starts after an edit confined to the newline-free tail of one
/// line shift with the edit, line by line.
proof fn lemma_line_start_after_edit(
    s: Seq<u8>,
    s2: Seq<u8>,
    a: int,
    b: int,
    d: int,
    x0: int,
    l1: int,
    l: int,
)
    requires
        s.subrange(0, a) == s2.subrange(0, a),
        suffix_shifted(s, s2, b, d),
        0 <= x0 <= a <= b <= s.len(),
        spec_line_start(s, l1) == Some(x0),
        forall|j: int| x0 <= j < b ==> s[j] != 0x0a,
        forall|j: int| a <= j < a + (b - a + d) ==> s2[j] != 0x0a,
        b - a + d >= 0,
        l1 < l,
        spec_line_start(s, l) is Some,
        l1 >= 0,
    ensures
        spec_line_start(s2, l) == Some(spec_line_start(s, l)->Some_0 + d),
    decreases l - l1,
{
    lemma_line_start_props(s, l);
    assert(s2.len() == s.len() + d);
    assert(s2.len() >= b + d >= a);
    if l == l1 + 1 {
        lemma_line_start_prefix(s, s2, l1, a);
        // scanning from the line start reaches the same break, shifted
        let q = spec_line_start(s, l)->Some_0;
        assert(next_line_start(s, x0) == Some(q));
        lemma_next_skip_no_newline(s, x0, b);
        assert forall|j: int| x0 <= j < a implies s2[j] != 0x0a by {
            assert(s2.subrange(0, a)[j] == s2[j]);
            assert(s.subrange(0, a)[j] == s[j]);
        }
        lemma_next_skip2(s2, x0, a, a + (b - a + d));
        lemma_next_shift(s, s2, b, d, b);
        assert(next_line_start(s2, x0) == next_line_start(s2, a + (b - a + d)));
        assert(a + (b - a + d) == b + d);
        assert(next_line_start(s2, b + d) == Some(q + d));
    } else {
        lemma_line_start_after_edit(s, s2, a, b, d, x0, l1, l - 1);
        let p = spec_line_start(s, l - 1)->Some_0;
        // the previous line already starts past the edited span
        assert(p >= b) by {
            lemma_line_start_monotone_pub(s, l1 + 1, l - 1);
            lemma_line_start_props(s, l1 + 1);
            lemma_line_start_props(s, l - 1);
            if p < b {
                assert(p > x0);
                assert(s[p - 1] == 0x0a);
                assert(x0 <= p - 1 < b);
            }
        }
        lemma_next_shift(s, s2, b, d, p);
    }
}

proof fn lemma_next_skip2(s: Seq<u8>, from: int, mid: int, to: int)
    requires
        0 <= from <= mid <= to <= s.len(),
        forall|j: int| from <= j < mid ==> s[j] != 0x0a,
        forall|j: int| mid <= j < to ==> s[j] != 0x0a,
    ensures
        next_line_start(s, from) == next_line_start(s, to),
{
    lemma_next_skip_no_newline(s, from, mid);
    lemma_next_skip_no_newline(s, mid, to);
}

/// Line starts never decrease with the line number (public form).
proof fn lemma_line_start_monotone_pub(s: Seq<u8>, l: int, m: int)
    requires
        0 <= l <= m,
        spec_line_start(s, m) is Some,
    ensures
        spec_line_start(s, l) is Some,
        spec_line_start(s, l)->Some_0 <= spec_line_start(s, m)->Some_0,
    decreases m - l,
{
    if l < m {
        lemma_line_start_props(s, m);
        lemma_line_start_monotone_pub(s, l, m - 1);
    }
}

/// Commutativity of disjoint single-line edits: two resolved range
/// events confined to distinct lines, each replacing part of its line
/// with newline-free text, yield the same content in either order.
/// (An edit whose replacement adds or removes line breaks shifts the
/// lines the other event's coordinates name, so for such inputs the two
/// orders can differ and the batch order is authoritative.)
pub proof fn lemma_disjoint_line_edits_commute(s: Seq<u8>, e1: ChangeEvent, e2: ChangeEvent)
    requires
        valid_utf8(s),
        e1.range is Some,
        e2.range is Some,
        e1.range->Some_0.start.line == e1.range->Some_0.end.line,
        e2.range->Some_0.start.line == e2.range->Some_0.end.line,
        e1.range->Some_0.start.line != e2.range->Some_0.start.line,
        forall|i: int| 0 <= i < event_text(e1).len() ==> event_text(e1)[i] != 0x0a,
        forall|i: int| 0 <= i < event_text(e2).len() ==> event_text(e2)[i] != 0x0a,
        spec_resolve_range(s, e1.range->Some_0) is Some,
        spec_resolve_range(s, e2.range->Some_0) is Some,
    ensures
        spec_apply_batch(s, seq![e1, e2]) == spec_apply_batch(s, seq![e2, e1]),
{
    if e1.range->Some_0.start.line < e2.range->Some_0.start.line {
        lemma_commute_ordered(s, e1, e2);
    } else {
        lemma_commute_ordered(s, e2, e1);
    }
}

/// The core of the commutation argument, for the earlier-line event
/// named first.
#[verifier::rlimit(100)]
proof fn lemma_commute_ordered(s: Seq<u8>, e1: ChangeEvent, e2: ChangeEvent)
    requires
        valid_utf8(s),
        e1.range is Some,
        e2.range is Some,
        e1.range->Some_0.start.line == e1.range->Some_0.end.line,
        e2.range->Some_0.start.line == e2.range->Some_0.end.line,
        e1.range->Some_0.start.line < e2.range->Some_0.start.line,
        forall|i: int| 0 <= i < event_text(e1).len() ==> event_text(e1)[i] != 0x0a,
        forall|i: int| 0 <= i < event_text(e2).len() ==> event_text(e2)[i] != 0x0a,
        spec_resolve_range(s, e1.range->Some_0) is Some,
        spec_resolve_range(s, e2.range->Some_0) is Some,
    ensures
        spec_apply_batch(s, seq![e1, e2]) == spec_apply_batch(s, seq![e2, e1]),
{
    let r1 = e1.range->Some_0;
    let r2 = e2.range->Some_0;
    let l1 = r1.start.line as int;
    let l2 = r2.start.line as int;
    let t1 = event_text(e1);
    let t2 = event_text(e2);
    let n = s.len() as int;
    let ab1 = spec_resolve_range(s, r1)->Some_0;
    let ab2 = spec_resolve_range(s, r2)->Some_0;
    let a1 = ab1.0;
    let b1 = ab1.1;
    let a2 = ab2.0;
    let b2 = ab2.1;
    let p1 = spec_line_start(s, l1)->Some_0;
    let p2 = spec_line_start(s, l2)->Some_0;
    lemma_line_start_boundary(s, l1);
    lemma_line_start_boundary(s, l2);
    lemma_col_offset_boundary(s, p1, r1.start.col as int);
    lemma_col_offset_boundary(s, p1, r1.end.col as int);
    lemma_col_offset_boundary(s, p2, r2.start.col as int);
    lemma_col_offset_boundary(s, p2, r2.end.col as int);
    lemma_col_lower(s, p1, r1.start.col as int);
    lemma_col_lower(s, p1, r1.end.col as int);
    lemma_col_lower(s, p2, r2.start.col as int);
    lemma_col_walk_bytes(s, p1, r1.end.col as int);
    lemma_col_walk_bytes(s, p2, r2.end.col as int);
    // the earlier line ends strictly before the later line starts
    lemma_col_offset_within_line(s, p1, r1.end.col as int);
    lemma_line_start_monotone_pub(s, l1 + 1, l2);
    lemma_line_start_props(s, l1 + 1);
    assert(spec_line_start(s, l1 + 1) == next_line_start(s, p1));
    let nl1 = spec_line_start(s, l1 + 1)->Some_0;
    assert(b1 < nl1);
    assert(nl1 <= p2);
    assert(b1 < p2);
    assert(p2 <= a2);
    let d1 = t1.len() - (b1 - a1);
    // order [e1, e2]: the earlier edit first, then the later one shifted
    let s1 = spec_splice(s, a1, b1, t1);
    assert(spec_apply_event(s, e1) == s1);
    assert(suffix_shifted(s, s1, b1, d1)) by {
        assert forall|x: int| b1 <= x < n implies s1[x + d1] == s[x] by {
            assert(s1[x + d1] == s.subrange(b1, n)[x - b1]);
        }
    }
    assert(s.subrange(0, a1) =~= s1.subrange(0, a1));
    assert(forall|j: int| p1 <= j < b1 ==> s[j] != 0x0a);
    assert(forall|j: int| a1 <= j < a1 + (b1 - a1 + d1) ==> s1[j] != 0x0a) by {
        assert forall|j: int| a1 <= j < a1 + t1.len() implies s1[j] != 0x0a by {
            assert(s1[j] == t1[j - a1]);
        }
    }
    lemma_line_start_after_edit(s, s1, a1, b1, d1, p1, l1, l2);
    assert(spec_line_start(s1, l2) == Some(p2 + d1));
    lemma_col_shift(s, s1, b1, d1, p2, r2.start.col as int);
    lemma_col_shift(s, s1, b1, d1, p2, r2.end.col as int);
    assert(spec_position_offset(s1, r2.start) == Some(a2 + d1));
    assert(spec_position_offset(s1, r2.end) == Some(b2 + d1));
    assert(spec_resolve_range(s1, r2) == Some((a2 + d1, b2 + d1)));
    let final_a = spec_splice(s1, a2 + d1, b2 + d1, t2);
    assert(spec_apply_event(s1, e2) == final_a);
    // order [e2, e1]: the later edit first leaves the earlier line alone
    let s2b = spec_splice(s, a2, b2, t2);
    assert(spec_apply_event(s, e2) == s2b);
    assert(s.subrange(0, a2) =~= s2b.subrange(0, a2));
    lemma_line_start_prefix(s, s2b, l1, a2);
    lemma_col_offset_prefix(s, s2b, p1, r1.start.col as int, a2);
    lemma_col_offset_prefix(s, s2b, p1, r1.end.col as int, a2);
    assert(spec_position_offset(s2b, r1.start) == Some(a1));
    assert(spec_position_offset(s2b, r1.end) == Some(b1));
    assert(spec_resolve_range(s2b, r1) == Some((a1, b1)));
    let final_b = spec_splice(s2b, a1, b1, t1);
    assert(spec_apply_event(s2b, e1) == final_b);
    // both orders interleave the same five pieces
    let glued = s.subrange(0, a1) + t1 + s.subrange(b1, a2) + t2 + s.subrange(b2, n);
    assert(final_a =~= glued) by {
        assert forall|x: int| 0 <= x < a2 + d1 implies s1.subrange(0, a2 + d1)[x] == (s.subrange(
            0,
            a1,
        ) + t1 + s.subrange(b1, a2))[x] by {
            if x < a1 {
            } else if x < a1 + t1.len() {
                assert(s1[x] == t1[x - a1]);
            } else {
                assert(s1[x] == s.subrange(b1, n)[x - (a1 + t1.len())]);
            }
        }
        assert(s1.subrange(0, a2 + d1) =~= s.subrange(0, a1) + t1 + s.subrange(b1, a2));
        assert forall|x: int| 0 <= x < n - b2 implies s1.subrange(
            b2 + d1,
            s1.len() as int,
        )[x] == s.subrange(b2, n)[x] by {
            assert(s1[b2 + d1 + x] == s[b2 + x]);
        }
        assert(s1.subrange(b2 + d1, s1.len() as int) =~= s.subrange(b2, n));
    }
    assert(final_b =~= glued) by {
        assert(s2b.subrange(0, a1) =~= s.subrange(0, a1));
        assert forall|x: int| 0 <= x < s2b.len() - b1 implies s2b.subrange(
            b1,
            s2b.len() as int,
        )[x] == (s.subrange(b1, a2) + t2 + s.subrange(b2, n))[x] by {
            if x < a2 - b1 {
                assert(s2b[b1 + x] == s.subrange(0, a2)[b1 + x]);
            } else if x < a2 - b1 + t2.len() {
                assert(s2b[b1 + x] == t2[x - (a2 - b1)]);
            } else {
                assert(s2b[b1 + x] == s.subrange(b2, n)[x - (a2 - b1) - t2.len()]);
            }
        }
        assert(s2b.subrange(b1, s2b.len() as int) =~= s.subrange(b1, a2) + t2 + s.subrange(
            b2,
            n,
        ));
    }
    // unfold both batches
    assert((seq![e1, e2]).drop_first() =~= seq![e2]);
    assert((seq![e2, e1]).drop_first() =~= seq![e1]);
    assert((seq![e2]).drop_first() =~= Seq::<ChangeEvent>::empty());
    assert((seq![e1]).drop_first() =~= Seq::<ChangeEvent>::empty());
    assert(spec_apply_batch(s, seq![e1, e2]) == spec_apply_batch(s1, seq![e2]));
    assert(spec_apply_batch(s1, seq![e2]) == spec_apply_batch(
        final_a,
        Seq::<ChangeEvent>::empty(),
    ));
    assert(spec_apply_batch(s, seq![e2, e1]) == spec_apply_batch(s2b, seq![e1]));
    assert(spec_apply_batch(s2b, seq![e1]) == spec_apply_batch(
        final_b,
        Seq::<ChangeEvent>::empty(),
    ));
}

/// Boundary safety: a ranged event either fails to resolve — and then the
/// content is exactly unchanged — or it splices replacement text between
/// two character boundaries of the old content.
pub proof fn lemma_event_boundary_safety(s: Seq<u8>, e: ChangeEvent)
    requires
        valid_utf8(s),
        e.range is Some,
    ensures
        match spec_resolve_range(s, e.range->Some_0) {
            None => spec_apply_event(s, e) == s,
            Some((a, b)) => {
                &&& 0 <= a <= b <= s.len()
                &&& is_char_boundary(s, a)
                &&& is_char_boundary(s, b)
                &&& spec_apply_event(s, e) == spec_splice(s, a, b, event_text(e))
            },
        },
{
    let r = e.range->Some_0;
    if spec_resolve_range(s, r) is Some {
        lemma_line_start_boundary(s, r.start.line as int);
        lemma_line_start_boundary(s, r.end.line as int);
        let ps = spec_line_start(s, r.start.line as int)->Some_0;
        let pe = spec_line_start(s, r.end.line as int)->Some_0;
        lemma_col_offset_boundary(s, ps, r.start.col as int);
        lemma_col_offset_boundary(s, pe, r.end.col as int);
    }
}

} // verus!
