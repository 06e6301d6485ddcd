//! Pieces of source text.

use vstd::prelude::*;

verus! {

/// A Span is the information of a piece of source code inside a file.
///
/// `Span`s are only meaningful when indexing the file it is originated from.
#[derive(Debug, Clone, Copy, PartialEq, Eq, Structural)]
pub struct Span {
    /// The start index (in bytes or other meaningful item index)
    /// in the file of this span
    pub idx: usize,
    /// The length of the span
    pub len: usize,
}

impl Span {
    /// Whether the end of the span is an index.
    pub open spec fn wf(self) -> bool {
        self.idx + self.len <= usize::MAX
    }

    /// The end of the span, as a number.
    pub open spec fn spec_end(self) -> int {
        self.idx + self.len
    }

    /// The index at which the span starts.
    pub fn start(&self) -> (r: usize)
        ensures
            r == self.idx,
    {
        self.idx
    }

    /// The index behind the span.
    pub fn end(&self) -> (r: usize)
        requires
            self.wf(),
        ensures
            r == self.spec_end(),
    {
        self.idx + self.len
    }

    /// The span of `len` items from `idx` on.
    pub fn new(idx: usize, len: usize) -> (s: Span)
        ensures
            s == (Span { idx, len }),
    {
        Span { idx, len }
    }

    /// The span between two indices, whichever is the lower.
    pub fn new_idx(lo: usize, hi: usize) -> (s: Span)
        ensures
            s.wf(),
            s.idx == if lo > hi {
                hi
            } else {
                lo
            },
            s.spec_end() == if lo > hi {
                lo
            } else {
                hi
            },
    {
        let (lo, hi) = if lo > hi {
            (hi, lo)
        } else {
            (lo, hi)
        };
        let len = hi - lo;
        Span { idx: lo, len }
    }

    /// The empty span at the end of the input.
    pub fn eof() -> (s: Span)
        ensures
            s == (Span { idx: usize::MAX, len: 0 }),
            s.wf(),
    {
        Span { idx: usize::MAX, len: 0 }
    }

    /// The least span that holds both spans.
    pub fn merge(self, rhs: Span) -> (s: Span)
        requires
            self.wf(),
            rhs.wf(),
        ensures
            s.wf(),
            s == merged(self, rhs),
            s.idx == if self.idx <= rhs.idx {
                self.idx
            } else {
                rhs.idx
            },
            s.spec_end() == if self.spec_end() >= rhs.spec_end() {
                self.spec_end()
            } else {
                rhs.spec_end()
            },
    {
        let start = if self.start() <= rhs.start() {
            self.start()
        } else {
            rhs.start()
        };
        let end = if self.end() >= rhs.end() {
            self.end()
        } else {
            rhs.end()
        };
        Span::new_idx(start, end)
    }
}

/// The least span that holds both spans.
pub open spec fn merged(a: Span, b: Span) -> Span {
    let idx = if a.idx <= b.idx {
        a.idx
    } else {
        b.idx
    };
    let end = if a.spec_end() >= b.spec_end() {
        a.spec_end()
    } else {
        b.spec_end()
    };
    Span { idx, len: (end - idx) as usize }
}

impl Default for Span {
    /// The span of nodes that stand for no source text.
    fn default() -> (s: Span)
        ensures
            s == (Span { idx: 0, len: 0 }),
    {
        Span { idx: 0, len: 0 }
    }
}

} // verus!
