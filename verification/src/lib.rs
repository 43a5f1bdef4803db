//! A lightweight inference engine for dataflow graphs of tensor operators,
//! together with a static analyser that propagates partial knowledge about
//! the tensors flowing through a graph.
//!
//! A graph is loaded from serialized nodes into a [`model::Model`].  A
//! [`state::ModelState`] holds the outputs that the nodes have so far: the
//! caller binds the placeholders, asks for a node, and the state evaluates
//! the nodes of the execution plan that have no outputs yet.  The analyser
//! in [`analyser`] goes through the same graph with abstract tensors in
//! place of tensors.
//!
//! A tensor ([`matrix::Matrix`]) holds its elements as integers: an integer
//! element is its value, a floating-point element is its bit pattern.  The
//! operators in [`ops`] move elements and compute on integers; what needs
//! floating-point arithmetic is left to the caller.
//!
//! Every function states what it computes over mathematical views of its
//! arguments, and is proved to do so.

pub mod analyser;
pub mod errors;
pub mod matrix;
pub mod model;
pub mod ops;
pub mod size;
pub mod state;
pub mod tfpb;
