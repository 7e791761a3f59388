//! Node identity and the wrapper that attaches it, with a location, to a payload.

use crate::span::Span;
use vstd::prelude::*;
use vstd::std_specs::cmp::PartialEqSpec;

verus! {

/// The identifier of a node; no two nodes of one parse share it.
#[derive(Debug, Clone, Copy, PartialEq, Eq, Structural)]
pub struct NodeId(pub usize);

impl NodeId {
    pub open spec fn spec_index(&self) -> usize {
        self.0
    }

    #[verifier::when_used_as_spec(spec_index)]
    pub fn index(&self) -> (r: usize)
        ensures
            r == self.spec_index(),
    {
        self.0
    }
}

/// A payload with the span it was read from and the identifier it was given.
#[derive(Clone, Debug)]
pub struct N<T> {
    pub span: Span,
    pub id: NodeId,
    pub t: T,
}

/// The mathematical form of a node: the same span and identifier around the view of
/// the payload.
pub struct NodeView<V> {
    pub span: Span,
    pub id: NodeId,
    pub t: V,
}

impl<T: View> View for N<T> {
    type V = NodeView<T::V>;

    open spec fn view(&self) -> NodeView<T::V> {
        NodeView { span: self.span, id: self.id, t: self.t@ }
    }
}

impl<T: PartialEq> PartialEq for N<T> {
    /// Two nodes are equal when their payloads are: where a node was read and which
    /// identifier it was given is its provenance, not its identity.
    fn eq(&self, other: &Self) -> (r: bool) {
        self.t == other.t
    }
}

impl<T: PartialEq> vstd::std_specs::cmp::PartialEqSpecImpl for N<T> {
    open spec fn obeys_eq_spec() -> bool {
        T::obeys_eq_spec()
    }

    open spec fn eq_spec(&self, other: &Self) -> bool {
        self.t.eq_spec(&other.t)
    }
}

impl<T: Eq> Eq for N<T> {

}

impl<T> N<T> {
    /// The payload, without its provenance.
    pub fn get(&self) -> (r: &T)
        ensures
            *r == self.t,
    {
        &self.t
    }
}

} // verus!
