use vstd::prelude::*;

verus! {

/// A region of the source text, counted in bytes.
///
/// The start is stored as a `u32` and the length as a `u16`,
/// so a single token can be at most 65535 bytes long.
#[derive(Debug, Clone, Copy, PartialEq, Eq, Structural)]
pub struct Span(pub u32, pub u16);

impl Span {
    /// Byte index at which the span starts.
    pub open spec fn spec_start(self) -> u32 {
        self.0
    }

    /// Number of bytes covered by the span.
    pub open spec fn spec_len(self) -> u16 {
        self.1
    }

    /// Byte index one past the end of the span.
    pub open spec fn spec_end(self) -> int {
        self.0 + self.1
    }

    /// Builds a span from a start index and a length; both are truncated
    /// to the width of their fields.
    pub fn init(start: usize, len: usize) -> (s: Span)
        ensures
            s.spec_start() == start as u32,
            s.spec_len() == len as u16,
    {
        Span(start as u32, len as u16)
    }

    /// The span of length zero at index zero.
    pub fn zero() -> (s: Span)
        ensures
            s.spec_start() == 0,
            s.spec_len() == 0,
    {
        Span(0, 0)
    }

    /// Same as [`Span::init`]: a span from its start and its length.
    pub fn start_len(start: usize, len: usize) -> (s: Span)
        ensures
            s.spec_start() == start as u32,
            s.spec_len() == len as u16,
    {
        Span(start as u32, len as u16)
    }

    /// The span from `start` (inclusive) to `end` (exclusive).
    pub fn start_end(start: usize, end: usize) -> (s: Span)
        requires
            start <= end,
        ensures
            s.spec_start() == start as u32,
            s.spec_len() == (end - start) as u16,
    {
        Span(start as u32, (end - start) as u16)
    }

    pub fn start(&self) -> (r: usize)
        ensures
            r == self.spec_start(),
    {
        self.0 as usize
    }

    pub fn start_u32(&self) -> (r: u32)
        ensures
            r == self.spec_start(),
    {
        self.0
    }

    pub fn len(&self) -> (r: usize)
        ensures
            r == self.spec_len(),
    {
        self.1 as usize
    }

    pub fn end(&self) -> (r: usize)
        requires
            self.spec_end() <= usize::MAX,
        ensures
            r == self.spec_end(),
    {
        self.0 as usize + self.1 as usize
    }

    /// Moves the span to `curr` (truncated to `u32`) and gives it length one.
    pub fn set1(&mut self, curr: usize)
        ensures
            final(self).spec_start() == curr as u32,
            final(self).spec_len() == 1,
    {
        self.0 = curr as u32;
        self.1 = 1;
    }
}

} // verus!
