//! The location utility that goes with a generated tree.

use crate::code_gen::CodeGen;
use vstd::prelude::*;

verus! {

/// The text of the span module.
pub const SPAN: &'static str = r#"#[derive(Copy, Clone, Debug, Eq, PartialEq)]
pub struct Span {
    start: usize,
    end: usize,
}

impl Span {
    pub fn new(start: usize, end: usize) -> Self {
        assert!(start < end, "span start must less then end");
        Span { start, end }
    }

    pub fn start(&self) -> usize {
        self.start
    }

    pub fn end(&self) -> usize {
        self.end
    }

    pub fn merge(&self, other: Span) -> Span {
        let start = self.start;
        let end = other.end;
        Self::new(start, end)
    }
}
"#;

impl<'ast> CodeGen<'ast> {
    /// The span module, which is the same for every grammar.
    pub fn gen_span(&self) -> (r: String)
        ensures
            r@ == SPAN@,
    {
        SPAN.to_owned()
    }
}

} // verus!
