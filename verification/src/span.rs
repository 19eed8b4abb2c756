use vstd::prelude::*;

verus! {

/// A byte-offset range into one source buffer. Spans are never mutated,
/// only copied; they join syntax-tree nodes, diagnostics and edits to the
/// text they speak about.
#[derive(Clone, Copy, Debug, PartialEq, Eq, Structural)]
pub struct Span {
    pub start: usize,
    pub end: usize,
}

impl Span {
    /// A span is well formed when it does not end before it starts.
    pub open spec fn wf(self) -> bool {
        self.start <= self.end
    }

    /// A span lies inside a buffer of `len` bytes when it is well formed
    /// and its end does not pass the end of the buffer.
    pub open spec fn within(self, len: int) -> bool {
        self.wf() && self.end <= len
    }

    pub fn new(start: usize, end: usize) -> (r: Span)
        requires
            start <= end,
        ensures
            r == (Span { start, end }),
            r.wf(),
    {
        Span { start, end }
    }

    pub open spec fn spec_len(self) -> int {
        self.end - self.start
    }

    /// The number of bytes the span covers.
    pub fn len(&self) -> (r: usize)
        requires
            self.wf(),
        ensures
            r == self.spec_len(),
    {
        self.end - self.start
    }
}

/// Two half-open byte ranges conflict when no output buffer could honour
/// both: either they share a byte, or one is an insertion point strictly
/// inside the range the other replaces. An insertion at the boundary of a
/// replaced range composes with it and is no conflict.
pub open spec fn conflicts(a: Span, b: Span) -> bool {
    ||| (a.start < b.end && b.start < a.end)
    ||| (b.start == b.end && a.start < b.start && b.start < a.end)
    ||| (a.start == a.end && b.start < a.start && a.start < b.end)
}

} // verus!
