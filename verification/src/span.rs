//! Source locations.

use vstd::prelude::*;

verus! {

/// A half-open interval `[start, end)` of offsets into the source text.
#[derive(Copy, Clone, Debug, PartialEq, Eq, Structural)]
pub struct Span {
    start: usize,
    end: usize,
}

impl Span {
    pub closed spec fn spec_start(&self) -> usize {
        self.start
    }

    pub closed spec fn spec_end(&self) -> usize {
        self.end
    }

    /// The well-formedness predicate of a span: it is never empty.
    pub open spec fn wf(&self) -> bool {
        self.spec_start() < self.spec_end()
    }

    /// The span from `start` to `end`.
    pub closed spec fn at(start: usize, end: usize) -> Span {
        Span { start, end }
    }

    /// The bounds of a span are the ones it was made with.
    pub broadcast proof fn lemma_at(start: usize, end: usize)
        ensures
            (#[trigger] Span::at(start, end)).spec_start() == start,
            Span::at(start, end).spec_end() == end,
    {
    }

    /// The smallest interval that encloses both `a` and `b`.
    pub open spec fn enclosing(a: Span, b: Span) -> (usize, usize) {
        (
            if a.spec_start() <= b.spec_start() { a.spec_start() } else { b.spec_start() },
            if a.spec_end() >= b.spec_end() { a.spec_end() } else { b.spec_end() },
        )
    }

    /// The span from the start of `a` to the end of `b`: what two spans met in reading
    /// order, first `a` and then `b`, cover together.
    pub open spec fn merged(a: Span, b: Span) -> Span {
        Span::at(a.spec_start(), b.spec_end())
    }

    pub fn new(start: usize, end: usize) -> (s: Span)
        requires
            start < end,
        ensures
            s == Span::at(start, end),
    {
        Span { start, end }
    }

    #[verifier::when_used_as_spec(spec_start)]
    pub fn start(&self) -> (r: usize)
        ensures
            r == self.spec_start(),
    {
        self.start
    }

    #[verifier::when_used_as_spec(spec_end)]
    pub fn end(&self) -> (r: usize)
        ensures
            r == self.spec_end(),
    {
        self.end
    }

    /// Combines this span with one that was met after it: the result runs from the
    /// start of this span to the end of the other.
    pub fn merge(&self, other: Span) -> (r: Span)
        requires
            self.wf(),
            other.wf(),
            self.spec_start() < other.spec_end(),
        ensures
            r == Span::at(self.spec_start(), other.spec_end()),
            r == Span::merged(*self, other),
    {
        Span::new(self.start, other.end)
    }

    /// For spans met in reading order the two ways to merge agree: the smallest span
    /// that encloses both is the span from the start of the first to the end of the
    /// second.
    pub proof fn lemma_merge_left_to_right(a: Span, b: Span)
        requires
            a.wf(),
            b.wf(),
            a.spec_start() <= b.spec_start(),
            a.spec_end() <= b.spec_end(),
        ensures
            Span::enclosing(a, b) == (a.spec_start(), b.spec_end()),
            Span::merged(a, b) == Span::at(Span::enclosing(a, b).0, Span::enclosing(a, b).1),
            Span::merged(a, b).wf(),
    {
        Span::lemma_at(a.spec_start(), b.spec_end());
    }
}

} // verus!
