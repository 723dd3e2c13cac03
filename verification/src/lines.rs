//! Line and column arithmetic over buffer bytes.
//!
//! Editor positions arrive as a 0-based line plus a column counted in
//! UTF-16 code units; the buffer is indexed by byte offsets.  This module
//! defines the translation and a rebuildable line index that caches line
//! start offsets.

use vstd::prelude::*;
use vstd::utf8::is_char_boundary;
use vstd::utf8::is_char_boundary_iff_is_leading_byte;
use vstd::utf8::is_char_boundary_iff_not_is_continuation_byte;
use vstd::utf8::is_char_boundary_start_end_of_seq;
use vstd::utf8::is_continuation_byte;
use vstd::utf8::length_of_first_scalar;
use vstd::utf8::pop_first_scalar;
use vstd::utf8::valid_utf8;
use vstd::utf8::valid_utf8_split;

verus! {

/// Byte offset of the start of the line that follows the next newline at
/// or after `from`, when the buffer has one.
pub open spec fn next_line_start(s: Seq<u8>, from: int) -> Option<int>
    decreases s.len() - from,
    when 0 <= from <= s.len()
{
    if from >= s.len() {
        None
    } else if s[from] == 0x0a {
        Some(from + 1)
    } else {
        next_line_start(s, from + 1)
    }
}

/// Byte offset where the given 0-based line starts, when the buffer has
/// that many lines.
pub open spec fn spec_line_start(s: Seq<u8>, line: int) -> Option<int>
    decreases line,
    when line >= 0
{
    if line <= 0 {
        Some(0)
    } else {
        match spec_line_start(s, line - 1) {
            Some(p) => next_line_start(s, p),
            None => None,
        }
    }
}

/// Byte width of the character whose encoding starts with this byte.
pub open spec fn lead_byte_len(b: u8) -> int {
    if b < 0x80 {
        1
    } else if b < 0xe0 {
        2
    } else if b < 0xf0 {
        3
    } else {
        4
    }
}

/// UTF-16 width of the character whose encoding starts with this byte:
/// two code units for the four-byte characters, one otherwise.
pub open spec fn lead_utf16_len(b: u8) -> int {
    if b >= 0xf0 {
        2
    } else {
        1
    }
}

/// Byte offset reached by walking `col` UTF-16 code units from `pos`
/// along the current line.  The walk fails when it would run past the end
/// of the line or stop in the middle of a character.
pub open spec fn spec_col_offset(s: Seq<u8>, pos: int, col: int) -> Option<int>
    decreases col,
    when col >= 0
{
    if col == 0 {
        Some(pos)
    } else if !(0 <= pos < s.len()) {
        None
    } else if s[pos] == 0x0a {
        None
    } else if col < lead_utf16_len(s[pos]) {
        None
    } else {
        spec_col_offset(s, pos + lead_byte_len(s[pos]), col - lead_utf16_len(s[pos]))
    }
}

/// A found line break lies past `from`, within the buffer, right after a
/// newline byte.
pub proof fn lemma_next_props(s: Seq<u8>, from: int)
    requires
        0 <= from <= s.len(),
    ensures
        match next_line_start(s, from) {
            Some(q) => from < q <= s.len() && s[q - 1] == 0x0a,
            None => true,
        },
    decreases s.len() - from,
{
    if from >= s.len() {
    } else if s[from] == 0x0a {
    } else {
        lemma_next_props(s, from + 1);
    }
}

/// Line starts exist for every line up to an existing one, lie within the
/// buffer, and strictly increase with the line number.
pub proof fn lemma_line_start_props(s: Seq<u8>, line: int)
    requires
        line >= 0,
    ensures
        match spec_line_start(s, line) {
            Some(p) => {
                &&& 0 <= p <= s.len()
                &&& (line > 0 ==> p > 0 && s[p - 1] == 0x0a)
                &&& (line > 0 ==> {
                    &&& spec_line_start(s, line - 1) is Some
                    &&& spec_line_start(s, line - 1)->Some_0 < p
                })
            },
            None => true,
        },
    decreases line,
{
    if line > 0 {
        lemma_line_start_props(s, line - 1);
        if spec_line_start(s, line - 1) is Some {
            lemma_next_props(s, spec_line_start(s, line - 1)->Some_0);
        }
    }
}

/// Once a line number has no start, no later line has one.
pub proof fn lemma_line_start_none_beyond(s: Seq<u8>, m: int, l: int)
    requires
        0 <= m <= l,
        spec_line_start(s, m) is None,
    ensures
        spec_line_start(s, l) is None,
    decreases l - m,
{
    if l > m {
        lemma_line_start_none_beyond(s, m, l - 1);
    }
}

/// Scanning for the next line break only reads bytes below the break, so
/// it is unchanged on a buffer that shares that prefix.
pub proof fn lemma_next_prefix(s: Seq<u8>, s2: Seq<u8>, from: int, k: int)
    requires
        0 <= from,
        0 <= k <= s.len(),
        k <= s2.len(),
        s.subrange(0, k) == s2.subrange(0, k),
        next_line_start(s, from) is Some,
        next_line_start(s, from)->Some_0 <= k,
        from <= s.len(),
    ensures
        next_line_start(s2, from) == next_line_start(s, from),
    decreases s.len() - from,
{
    lemma_next_props(s, from);
    let q = next_line_start(s, from)->Some_0;
    assert(s.subrange(0, k)[from] == s[from]);
    assert(s2.subrange(0, k)[from] == s2[from]);
    if s[from] == 0x0a {
    } else {
        lemma_next_prefix(s, s2, from + 1, k);
    }
}

/// A line start below `k` is the same in any buffer sharing the first `k`
/// bytes.
pub proof fn lemma_line_start_prefix(s: Seq<u8>, s2: Seq<u8>, l: int, k: int)
    requires
        l >= 0,
        0 <= k <= s.len(),
        k <= s2.len(),
        s.subrange(0, k) == s2.subrange(0, k),
        spec_line_start(s, l) is Some,
        spec_line_start(s, l)->Some_0 <= k,
    ensures
        spec_line_start(s2, l) == spec_line_start(s, l),
    decreases l,
{
    if l > 0 {
        lemma_line_start_props(s, l);
        lemma_line_start_props(s, l - 1);
        lemma_line_start_prefix(s, s2, l - 1, k);
        lemma_next_prefix(s, s2, spec_line_start(s, l - 1)->Some_0, k);
    }
}

/// At a character boundary inside valid UTF-8 text, the byte there leads a
/// whole character that fits in the buffer, and the position after that
/// character is a boundary again.
pub proof fn lemma_step_boundary(s: Seq<u8>, pos: int)
    requires
        valid_utf8(s),
        0 <= pos < s.len(),
        is_char_boundary(s, pos),
    ensures
        !is_continuation_byte(s[pos]),
        pos + lead_byte_len(s[pos]) <= s.len(),
        is_char_boundary(s, pos + lead_byte_len(s[pos])),
{
    let suffix = s.subrange(pos, s.len() as int);
    valid_utf8_split(s, pos);
    assert(valid_utf8(suffix));
    is_char_boundary_iff_not_is_continuation_byte(s, pos);
    is_char_boundary_iff_is_leading_byte(s, pos);
    assert(suffix[0] == s[pos]);
    assert(suffix.len() > 0);
    let w = length_of_first_scalar(suffix);
    assert(w == lead_byte_len(s[pos]));
    assert(pos + w <= s.len()) by {
        assert(w <= suffix.len());
    }
    assert(is_char_boundary(suffix, w)) by {
        assert(is_char_boundary(pop_first_scalar(suffix), 0));
    }
    if pos + w == s.len() {
        is_char_boundary_start_end_of_seq(s);
    } else {
        assert(w < suffix.len());
        is_char_boundary_iff_not_is_continuation_byte(suffix, w);
        assert(suffix[w] == s[pos + w]);
        is_char_boundary_iff_not_is_continuation_byte(s, pos + w);
    }
}

/// The position a successful column walk reaches is a character boundary
/// between its starting point and the end of the buffer.
pub proof fn lemma_col_offset_boundary(s: Seq<u8>, pos: int, col: int)
    requires
        valid_utf8(s),
        0 <= pos <= s.len(),
        is_char_boundary(s, pos),
        col >= 0,
    ensures
        match spec_col_offset(s, pos, col) {
            Some(q) => pos <= q <= s.len() && is_char_boundary(s, q),
            None => true,
        },
    decreases col,
{
    if col == 0 {
    } else if !(0 <= pos < s.len()) {
    } else if s[pos] == 0x0a {
    } else if col < lead_utf16_len(s[pos]) {
    } else {
        lemma_step_boundary(s, pos);
        lemma_col_offset_boundary(s, pos + lead_byte_len(s[pos]), col - lead_utf16_len(s[pos]));
    }
}

/// Every line start in valid UTF-8 text is a character boundary.
pub proof fn lemma_line_start_boundary(s: Seq<u8>, line: int)
    requires
        valid_utf8(s),
        line >= 0,
        spec_line_start(s, line) is Some,
    ensures
        is_char_boundary(s, spec_line_start(s, line)->Some_0),
        0 <= spec_line_start(s, line)->Some_0 <= s.len(),
{
    lemma_line_start_props(s, line);
    let p = spec_line_start(s, line)->Some_0;
    if p == 0 {
        is_char_boundary_start_end_of_seq(s);
    } else {
        assert(s[p - 1] == 0x0a);
        is_char_boundary_iff_not_is_continuation_byte(s, p - 1);
        lemma_step_boundary(s, p - 1);
        assert(lead_byte_len(s[p - 1]) == 1);
    }
}

/// Cache of line start offsets, rebuilt on demand from buffer contents.
pub struct LineIndex {
    pub line_breaks: Vec<usize>,
}

impl LineIndex {
    /// The answer the cache gives for a line number: offset 0 for line 0,
    /// the recorded offset after the `line`-th newline otherwise.
    pub open spec fn spec_lookup(self, line: int) -> Option<int> {
        if line == 0 {
            Some(0int)
        } else if 1 <= line <= self.line_breaks@.len() {
            Some(self.line_breaks@[line - 1] as int)
        } else {
            None
        }
    }

    /// The cache answers correctly for every line before `upto`.
    pub open spec fn matches_upto(self, s: Seq<u8>, upto: int) -> bool {
        forall|l: int| 0 <= l < upto ==> self.spec_lookup(l) == spec_line_start(s, l)
    }

    /// The cache answers correctly for every line.
    pub open spec fn matches_all(self, s: Seq<u8>) -> bool {
        forall|l: int| l >= 0 ==> self.spec_lookup(l) == spec_line_start(s, l)
    }

    /// Scans the whole buffer and records each line start.
    pub fn new(content: &Vec<u8>) -> (idx: LineIndex)
        ensures
            idx.matches_all(content@),
    {
        let ghost s = content@;
        let n = content.len();
        let mut breaks: Vec<usize> = Vec::new();
        let mut i: usize = 0;
        let ghost mut cur: int = 0;
        while i < n
            invariant
                s == content@,
                n == s.len(),
                0 <= i <= n,
                0 <= cur <= i,
                forall|j: int|
                    0 <= j < breaks@.len() ==> spec_line_start(s, j + 1) == Some(
                        breaks@[j] as int,
                    ),
                spec_line_start(s, breaks@.len() as int) == Some(cur),
                cur == if breaks@.len() == 0 {
                    0int
                } else {
                    breaks@[breaks@.len() - 1] as int
                },
                next_line_start(s, cur) == next_line_start(s, i as int),
            decreases n - i,
        {
            if content[i] == 0x0a {
                breaks.push(i + 1);
                proof {
                    assert(next_line_start(s, i as int) == Some(i + 1));
                    cur = i + 1;
                }
            } else {
                proof {
                    assert(next_line_start(s, i as int) == next_line_start(s, i + 1));
                }
            }
            i += 1;
        }
        let idx = LineIndex { line_breaks: breaks };
        proof {
            assert(next_line_start(s, cur) is None);
            assert(spec_line_start(s, idx.line_breaks@.len() as int + 1) is None);
            assert forall|l: int| l >= 0 implies idx.spec_lookup(l) == spec_line_start(s, l) by {
                if l > idx.line_breaks@.len() {
                    lemma_line_start_none_beyond(s, idx.line_breaks@.len() as int + 1, l);
                }
            }
        }
        idx
    }

    /// Reads one cached line start.
    pub fn lookup(&self, line: u32) -> (r: Option<usize>)
        ensures
            match r {
                Some(p) => self.spec_lookup(line as int) == Some(p as int),
                None => self.spec_lookup(line as int) is None,
            },
    {
        if line == 0 {
            Some(0)
        } else {
            let k = (line - 1) as usize;
            if k < self.line_breaks.len() {
                Some(self.line_breaks[k])
            } else {
                None
            }
        }
    }
}

/// Walks `col` UTF-16 code units along the line starting at `pos`.
pub fn col_offset(content: &Vec<u8>, pos: usize, col: u32) -> (r: Option<usize>)
    requires
        valid_utf8(content@),
        pos <= content@.len(),
        is_char_boundary(content@, pos as int),
    ensures
        match r {
            Some(q) => {
                &&& spec_col_offset(content@, pos as int, col as int) == Some(q as int)
                &&& pos <= q <= content@.len()
                &&& is_char_boundary(content@, q as int)
            },
            None => spec_col_offset(content@, pos as int, col as int) is None,
        },
{
    let ghost s = content@;
    let n = content.len();
    let mut p: usize = pos;
    let mut c: u32 = col;
    while c > 0
        invariant
            s == content@,
            n == s.len(),
            valid_utf8(s),
            pos <= p <= n,
            is_char_boundary(s, p as int),
            spec_col_offset(s, pos as int, col as int) == spec_col_offset(s, p as int, c as int),
        decreases c,
    {
        if p >= n {
            return None;
        }
        let b = content[p];
        if b == 0x0a {
            return None;
        }
        proof {
            lemma_step_boundary(s, p as int);
        }
        let w16: u32 = if b >= 0xf0 {
            2
        } else {
            1
        };
        if c < w16 {
            return None;
        }
        let w8: usize = if b < 0x80 {
            1
        } else if b < 0xe0 {
            2
        } else if b < 0xf0 {
            3
        } else {
            4
        };
        p += w8;
        c -= w16;
    }
    Some(p)
}

} // verus!
