//! The errors that the engine and the analyser report.

use vstd::prelude::*;

verus! {

/// Why an operation of the library failed.
#[derive(Debug, Clone, PartialEq, Eq)]
pub enum Error {
    /// The graph is malformed: a node names an input that does not exist or
    /// an output slot beyond its producer's arity, or an attribute has not
    /// the kind that the operator reads.
    InvalidGraph,
    /// The inputs of the graph's nodes form a cycle.
    CyclicGraph,
    /// No node has the name or the id that was looked up.
    UnknownNode,
    /// A node was evaluated whose operator the engine does not implement;
    /// the payload is the operator's name.
    UnimplementedOperator(String),
    /// An input has not the element type that the operator works on.
    TypeMismatch,
    /// The shapes of the inputs do not fit each other or the operator.
    ShapeMismatch,
    /// An attribute or argument has a value outside the supported subset.
    UnsupportedAttribute,
    /// A node was evaluated before one of its inputs had a value.
    PrecondMissing,
    /// The analyser learnt two facts about one edge that contradict each other.
    InferenceConflict,
    /// A type, a shape or a value that is only partly known was asked for
    /// in full.
    NotConcrete,
}

} // verus!
