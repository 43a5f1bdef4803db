//! `Const`: a tensor that the graph itself holds.

use vstd::prelude::*;
use crate::analyser::types::{ATensor, ATensorView};
use crate::errors::Error;
use crate::matrix::{Matrix, MatrixView, tensor_of};
use crate::ops::{
    Input, Op, OpKind, OpRegister, concrete_fact, concrete_outputs, facts_of, single,
};
use crate::tfpb::node_def::{NodeDef, attr_tensor_of};

verus! {

/// Enters the operators of this file into a register.
pub fn register_all_ops(reg: &mut OpRegister)
    ensures
        final(reg)@ == old(reg)@.push(("Const"@, OpKind::Const)),
{
    reg.insert("Const", OpKind::Const);
}

/// The operator `Const`, with the tensor that it returns.
#[derive(Debug)]
pub struct Const {
    pub value: Matrix,
}

/// The tensor of a constant node: what its attribute `value` stands for.  A
/// node without such a tensor is an `InvalidGraph`.
pub open spec fn const_value_of(pb: NodeDef) -> Result<MatrixView, Error> {
    match attr_tensor_of(pb.attr@, "value"@) {
        Ok(t) => tensor_of(t),
        Err(e) => Err(e),
    }
}

impl Const {
    /// Makes the operator of a node from the node's tensor attribute `value`.
    pub fn build(pb: &NodeDef) -> (r: Result<Const, Error>)
        ensures
            match r {
                Ok(op) => const_value_of(*pb) == Ok::<MatrixView, Error>(op.value@),
                Err(e) => const_value_of(*pb) == Err::<MatrixView, Error>(e),
            },
    {
        let tensor = match pb.get_attr_tensor("value") {
            Ok(tensor) => tensor,
            Err(e) => {
                return Err(e);
            },
        };
        match Matrix::from_pb(tensor) {
            Ok(value) => Ok(Const { value }),
            Err(e) => Err(e),
        }
    }
}

impl Op for Const {
    /// A constant evaluates to its tensor, whatever it is given.
    open spec fn eval_spec(&self, inputs: Seq<MatrixView>) -> Result<Seq<MatrixView>, Error> {
        Ok(seq![self.value@])
    }

    /// Everything is known of the output.
    open spec fn infer_forward_spec(&self, inputs: Seq<ATensorView>) -> Result<
        Seq<ATensorView>,
        Error,
    > {
        Ok(seq![concrete_fact(self.value@)])
    }

    /// A constant is a leaf: it has no input to infer anything of.
    open spec fn infer_backward_spec(&self, outputs: Seq<ATensorView>) -> Result<
        Seq<ATensorView>,
        Error,
    > {
        Ok(Seq::empty())
    }

    /// Evaluates the operation given the input tensors.
    fn eval(&self, inputs: Vec<Input>) -> (r: Result<Vec<Input>, Error>) {
        Ok(single(self.value.clone()))
    }

    /// Infers properties about the output tensors from the input tensors.
    fn infer_forward(&self, inputs: Vec<&ATensor>) -> (r: Result<Vec<ATensor>, Error>) {
        let known = concrete_outputs(single(self.value.clone()));
        assert(facts_of(known@) =~= seq![concrete_fact(self.value@)]);
        Ok(known)
    }

    /// Infers properties about the input tensors from the output tensors.
    fn infer_backward(&self, outputs: Vec<&ATensor>) -> (r: Result<Vec<ATensor>, Error>) {
        let facts: Vec<ATensor> = Vec::new();
        assert(facts_of(facts@) =~= Seq::<ATensorView>::empty());
        Ok(facts)
    }
}

} // verus!
