//! `Identity`: the input as it is.

use vstd::prelude::*;
use crate::analyser::types::{ATensor, ATensorView};
use crate::errors::Error;
use crate::matrix::MatrixView;
use crate::ops::{Input, Op, facts_of, facts_of_refs};
use crate::tfpb::node_def::NodeDef;

verus! {

/// What `Identity` infers in either direction: what is known of the one
/// tensor on one side holds of the one tensor on the other side.
pub open spec fn identity_infer_spec(facts: Seq<ATensorView>) -> Result<Seq<ATensorView>, Error> {
    if facts.len() != 1 {
        Err(Error::InvalidGraph)
    } else {
        Ok(facts)
    }
}

/// The operator `Identity`.
#[derive(Debug)]
pub struct Identity;

impl Identity {
    /// Makes the operator of a node; it reads no attribute.
    pub fn build(_pb: &NodeDef) -> (r: Result<Identity, Error>)
        ensures
            r is Ok,
    {
        Ok(Identity)
    }

    /// Copies the one abstract tensor of a list.
    fn copied(facts: Vec<&ATensor>) -> (r: Result<Vec<ATensor>, Error>)
        ensures
            crate::ops::infer_gives(identity_infer_spec(facts_of_refs(facts@)), r),
    {
        if facts.len() != 1 {
            return Err(Error::InvalidGraph);
        }
        let mut copies: Vec<ATensor> = Vec::new();
        copies.push(facts[0].clone());
        assert(facts_of(copies@) =~= facts_of_refs(facts@));
        Ok(copies)
    }
}

impl Op for Identity {
    open spec fn eval_spec(&self, inputs: Seq<MatrixView>) -> Result<Seq<MatrixView>, Error> {
        Ok(inputs)
    }

    open spec fn infer_forward_spec(&self, inputs: Seq<ATensorView>) -> Result<
        Seq<ATensorView>,
        Error,
    > {
        identity_infer_spec(inputs)
    }

    open spec fn infer_backward_spec(&self, outputs: Seq<ATensorView>) -> Result<
        Seq<ATensorView>,
        Error,
    > {
        identity_infer_spec(outputs)
    }

    /// Evaluates the operation given the input tensors.
    fn eval(&self, inputs: Vec<Input>) -> (r: Result<Vec<Input>, Error>) {
        Ok(inputs)
    }

    /// Infers properties about the output tensors from the input tensors.
    fn infer_forward(&self, inputs: Vec<&ATensor>) -> (r: Result<Vec<ATensor>, Error>) {
        Identity::copied(inputs)
    }

    /// Infers properties about the input tensors from the output tensors.
    fn infer_backward(&self, outputs: Vec<&ATensor>) -> (r: Result<Vec<ATensor>, Error>) {
        Identity::copied(outputs)
    }
}

/// `Identity` gives back what it is given: the tensor when it evaluates,
/// and what is known of the tensor when it infers, in either direction.
pub proof fn lemma_identity(op: Identity, x: MatrixView, fact: ATensorView)
    ensures
        op.eval_spec(seq![x]) == Ok::<Seq<MatrixView>, Error>(seq![x]),
        op.infer_forward_spec(seq![fact]) == Ok::<Seq<ATensorView>, Error>(seq![fact]),
        op.infer_backward_spec(seq![fact]) == Ok::<Seq<ATensorView>, Error>(seq![fact]),
{
}

} // verus!
