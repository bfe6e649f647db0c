//! Byte ranges in a source text.

use vstd::prelude::*;

verus! {

/// A byte range in a source text: where it starts and how many bytes it
/// covers.
#[derive(Clone, Copy, Debug, PartialEq, Eq, Structural)]
pub struct Span {
    pub offset: usize,
    pub length: usize,
}

/// A byte range over the mathematical integers.
pub struct SpanView {
    pub offset: nat,
    pub length: nat,
}

impl View for Span {
    type V = SpanView;

    open spec fn view(&self) -> SpanView {
        SpanView { offset: self.offset as nat, length: self.length as nat }
    }
}

impl Span {
    /// The range of `length` bytes that starts at `offset`.
    pub fn new(offset: usize, length: usize) -> (r: Span)
        ensures
            r.offset == offset,
            r.length == length,
    {
        Span { offset, length }
    }

    /// Whether two ranges start at the same byte and cover as many bytes.
    pub fn same(&self, other: &Span) -> (b: bool)
        ensures
            b == (self@ == other@),
    {
        self.offset == other.offset && self.length == other.length
    }
}

} // verus!
