//! Positions, ranges and file identities shared by every component.

use vstd::prelude::*;

verus! {

/// Identity of one file in the project model.
#[derive(Clone, Copy, PartialEq, Eq, Structural, Debug, Hash)]
pub struct FileId(pub u32);

/// A half-open span `start..end` of byte offsets within one file's text.
#[derive(Clone, Copy, PartialEq, Eq, Structural, Debug)]
pub struct TextRange {
    pub start: u32,
    pub end: u32,
}

/// A span together with the file it lies in.
#[derive(Clone, Copy, PartialEq, Eq, Structural, Debug)]
pub struct FileRange {
    pub file_id: FileId,
    pub range: TextRange,
}

/// A single byte offset within one file.
#[derive(Clone, Copy, PartialEq, Eq, Structural, Debug)]
pub struct FilePosition {
    pub file_id: FileId,
    pub offset: u32,
}

impl TextRange {
    /// A well-formed span does not end before it starts.
    pub open spec fn wf(self) -> bool {
        self.start <= self.end
    }

    pub open spec fn spec_len(self) -> int {
        self.end - self.start
    }

    pub open spec fn spec_contains_offset(self, offset: int) -> bool {
        self.start <= offset < self.end
    }

    /// Whether the span lies entirely inside text of the given length.
    pub open spec fn in_bounds(self, text_len: int) -> bool {
        self.wf() && self.end <= text_len
    }

    /// Two spans are non-overlapping when one ends no later than the
    /// other starts; touching spans count as non-overlapping.
    pub open spec fn spec_disjoint(self, other: TextRange) -> bool {
        self.end <= other.start || other.end <= self.start
    }

    pub fn new(start: u32, end: u32) -> (r: TextRange)
        requires
            start <= end,
        ensures
            r.start == start,
            r.end == end,
            r.wf(),
    {
        TextRange { start, end }
    }

    pub fn empty(offset: u32) -> (r: TextRange)
        ensures
            r.start == offset,
            r.end == offset,
            r.wf(),
    {
        TextRange { start: offset, end: offset }
    }

    pub fn len(&self) -> (n: u32)
        requires
            self.wf(),
        ensures
            n == self.spec_len(),
    {
        self.end - self.start
    }

    pub fn contains_offset(&self, offset: u32) -> (r: bool)
        ensures
            r == self.spec_contains_offset(offset as int),
    {
        self.start <= offset && offset < self.end
    }

    pub fn disjoint(&self, other: &TextRange) -> (r: bool)
        ensures
            r == self.spec_disjoint(*other),
    {
        self.end <= other.start || other.end <= self.start
    }
}

} // verus!
