//! Source locations for diagnostics and node extents.

use vstd::prelude::*;

verus! {

/// A contiguous range of the source text, together with the line number and
/// the column where the range begins.  Line and column are derived once at
/// construction from the absolute offset and the offset of the start of that
/// line; they are never recomputed.  Offsets count characters of the source.
///
/// A slice is never mutated after creation; two slices are only ever combined
/// into a new one with [`CodeSlice::create_from`].
#[derive(Clone, Copy, PartialEq, Eq, Structural, Debug)]
pub struct CodeSlice {
    pub abs_start: usize,
    pub abs_end: usize,
    pub line_no: usize,
    pub start: usize,
    pub end: usize,
}

impl CodeSlice {
    /// The range is not reversed: the slice describes zero or more characters.
    pub open spec fn wf(self) -> bool {
        self.abs_start <= self.abs_end
    }

    /// The combination of two slices: from the start of `s1` to the end of
    /// `s2`, keeping the line and column of `s1`.
    pub open spec fn combined(s1: CodeSlice, s2: CodeSlice) -> CodeSlice {
        CodeSlice {
            abs_start: s1.abs_start,
            abs_end: s2.abs_end,
            line_no: s1.line_no,
            start: s1.start,
            end: s2.end,
        }
    }

    /// The empty slice at the origin.
    pub fn empty() -> (r: CodeSlice)
        ensures
            r == (CodeSlice { abs_start: 0, abs_end: 0, line_no: 0, start: 0, end: 0 }),
    {
        CodeSlice { abs_start: 0, abs_end: 0, line_no: 0, start: 0, end: 0 }
    }

    /// A slice for the absolute character range `abs_start .. abs_end`, on
    /// line `line`; `line_start_pos` is the absolute offset of the first
    /// character of that line, from which the one-based column is derived.
    pub fn new(abs_start: usize, abs_end: usize, line: usize, line_start_pos: usize) -> (r:
        CodeSlice)
        requires
            abs_start <= abs_end,
            line_start_pos <= abs_start,
            abs_end - line_start_pos < usize::MAX,
        ensures
            r == (CodeSlice {
                abs_start,
                abs_end,
                line_no: line,
                start: (abs_start - line_start_pos + 1) as usize,
                end: (abs_end - line_start_pos + 1) as usize,
            }),
            r.wf(),
    {
        CodeSlice {
            abs_start,
            abs_end,
            line_no: line,
            start: abs_start - line_start_pos + 1,
            end: abs_end - line_start_pos + 1,
        }
    }

    /// Combines two slices into one spanning from `slice1`'s start to
    /// `slice2`'s end; used whenever two adjacent elements merge into a
    /// compound node.
    pub fn create_from(slice1: &CodeSlice, slice2: &CodeSlice) -> (r: CodeSlice)
        ensures
            r == CodeSlice::combined(*slice1, *slice2),
    {
        CodeSlice {
            abs_start: slice1.abs_start,
            abs_end: slice2.abs_end,
            line_no: slice1.line_no,
            start: slice1.start,
            end: slice2.end,
        }
    }

    /// The absolute character range covered by this slice.
    pub fn get_range(&self) -> (r: (usize, usize))
        ensures
            r == (self.abs_start, self.abs_end),
    {
        (self.abs_start, self.abs_end)
    }

    /// The line number where the slice begins.
    pub fn get_line(&self) -> (r: usize)
        ensures
            r == self.line_no,
    {
        self.line_no
    }

    /// The one-based column where the slice begins.
    pub fn get_column(&self) -> (r: usize)
        ensures
            r == self.start,
    {
        self.start
    }

    /// The text of the source covered by this slice.
    pub fn slice_code<'a>(&self, raw_code: &'a str) -> (r: &'a str)
        requires
            self.wf(),
            self.abs_end <= raw_code@.len(),
        ensures
            r@ == raw_code@.subrange(self.abs_start as int, self.abs_end as int),
    {
        raw_code.substring_char(self.abs_start, self.abs_end)
    }
}

impl Default for CodeSlice {
    /// The same slice as [`CodeSlice::empty`].
    fn default() -> (r: CodeSlice)
        ensures
            r == (CodeSlice { abs_start: 0, abs_end: 0, line_no: 0, start: 0, end: 0 }),
    {
        CodeSlice { abs_start: 0, abs_end: 0, line_no: 0, start: 0, end: 0 }
    }
}

} // verus!
