//! `Placeholder`: a node whose value the caller supplies.

use vstd::prelude::*;
use crate::analyser::types::{AShape, AShapeView, ATensor, ATensorView, AType};
use crate::errors::Error;
use crate::matrix::MatrixView;
use crate::ops::{Input, Op, fact, facts_of};
use crate::tfpb::node_def::{NodeDef, attr_datatype_of};
use crate::tfpb::types::DataType;

verus! {

/// The operator `Placeholder`, with the element type of the tensors that it
/// stands for.
#[derive(Debug)]
pub struct Placeholder {
    pub datatype: DataType,
}

impl Placeholder {
    /// Makes the operator of a node from the node's attribute `dtype`.
    /// Fails with `InvalidGraph` where the node has no such element type.
    pub fn build(node: &NodeDef) -> (r: Result<Placeholder, Error>)
        ensures
            match attr_datatype_of(node.attr@, "dtype"@) {
                Ok(datatype) => r == Ok::<Placeholder, Error>(Placeholder { datatype }),
                Err(e) => r == Err::<Placeholder, Error>(e),
            },
    {
        match node.get_attr_datatype("dtype") {
            Ok(datatype) => Ok(Placeholder { datatype }),
            Err(e) => Err(e),
        }
    }
}

impl Op for Placeholder {
    /// A placeholder has no value of its own: to evaluate it is to find
    /// that the caller has not supplied one.
    open spec fn eval_spec(&self, inputs: Seq<MatrixView>) -> Result<Seq<MatrixView>, Error> {
        Err(Error::PrecondMissing)
    }

    /// Of the output only the type is known.
    open spec fn infer_forward_spec(&self, inputs: Seq<ATensorView>) -> Result<
        Seq<ATensorView>,
        Error,
    > {
        Ok(
            seq![
                ATensorView {
                    datatype: AType::Only(self.datatype),
                    shape: AShapeView::any(),
                    value: None,
                },
            ],
        )
    }

    /// A placeholder is a leaf: there is no input to infer anything of.
    open spec fn infer_backward_spec(&self, outputs: Seq<ATensorView>) -> Result<
        Seq<ATensorView>,
        Error,
    > {
        Err(Error::InvalidGraph)
    }

    /// Evaluates the operation given the input tensors.
    fn eval(&self, inputs: Vec<Input>) -> (r: Result<Vec<Input>, Error>) {
        Err(Error::PrecondMissing)
    }

    /// Infers properties about the output tensors from the input tensors.
    fn infer_forward(&self, inputs: Vec<&ATensor>) -> (r: Result<Vec<ATensor>, Error>) {
        let mut facts: Vec<ATensor> = Vec::new();
        facts.push(fact(AType::Only(self.datatype), AShape::any()));
        assert(facts_of(facts@) =~= seq![facts@[0]@]);
        Ok(facts)
    }

    /// Infers properties about the input tensors from the output tensors.
    fn infer_backward(&self, outputs: Vec<&ATensor>) -> (r: Result<Vec<ATensor>, Error>) {
        Err(Error::InvalidGraph)
    }
}

} // verus!
