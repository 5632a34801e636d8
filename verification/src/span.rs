use vstd::prelude::*;

verus! {

/// Half-open byte-offset range `[start, end)` into the source buffer.
#[allow(non_camel_case_types)]
#[derive(Clone, Copy, Debug, PartialEq, Eq, Structural)]
pub struct Span(pub usize, pub usize);

impl Span {
    /// A span is well formed when it does not run backwards.
    pub open spec fn wf(self) -> bool {
        self.0 <= self.1
    }

    /// Number of bytes covered by the span.
    pub open spec fn spec_len(self) -> int {
        self.1 - self.0
    }

    pub fn new(start: usize, end: usize) -> (s: Span)
        ensures
            s.0 == start,
            s.1 == end,
    {
        Span(start, end)
    }

    pub fn start(&self) -> (r: usize)
        ensures
            r == self.0,
    {
        self.0
    }

    pub fn end(&self) -> (r: usize)
        ensures
            r == self.1,
    {
        self.1
    }

    /// Byte length of the span, for well-formed spans.
    pub fn len(&self) -> (r: usize)
        requires
            self.wf(),
        ensures
            r == self.spec_len(),
    {
        self.1 - self.0
    }
}

} // verus!
