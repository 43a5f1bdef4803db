//! `Pack`: tensors of one shape laid one after the other along a new axis.

use vstd::prelude::*;
use vstd::slice::slice_to_vec;
use crate::analyser::types::{AShape, ATensor, ATensorView, AType};
use crate::errors::Error;
use crate::matrix::{MatrixView, same_shape};
use crate::ops::array::concat::{
    ConcatV2, datas_of, joined, leading_datas, same_types, shapes_of,
};
use crate::ops::array::expand_dims::lemma_insert_one;
use crate::ops::{
    Input, Op, all_known, concrete_inference, concrete_outputs, fact, facts_of, known_inputs,
    known_values, single, views_of,
};
use crate::tfpb::node_def::{NodeDef, attr_int_of, attr_signed_of};

verus! {

/// Whether the first `n` tensors of a list have the shape of the first.
pub open spec fn same_shapes(inputs: Seq<MatrixView>, n: int) -> bool {
    forall|k: int| 0 <= k < n ==> (#[trigger] inputs[k]).shape == inputs[0].shape
}

/// The shapes of the first `n` tensors of a list, each with an axis of size
/// one inserted at `axis`.
pub open spec fn widened_shapes(inputs: Seq<MatrixView>, n: int, axis: int) -> Seq<Seq<usize>> {
    Seq::new(n as nat, |k: int| inputs[k].shape.insert(axis, 1))
}

/// What `Pack` computes from `n` tensors of one element type and one shape:
/// each gets an axis of size one at `axis`, and along this axis they are
/// concatenated.  A negative axis is an `UnsupportedAttribute`; an axis
/// beyond the rank of the tensors is a `ShapeMismatch`.
pub open spec fn pack_spec(n: usize, axis: i64, inputs: Seq<MatrixView>) -> Result<
    Seq<MatrixView>,
    Error,
> {
    if inputs.len() != n {
        Err(Error::InvalidGraph)
    } else if axis < 0 {
        Err(Error::UnsupportedAttribute)
    } else if !same_types(inputs, n as int) {
        Err(Error::TypeMismatch)
    } else if n == 0 || !same_shapes(inputs, n as int) || axis > inputs[0].shape.len() {
        Err(Error::ShapeMismatch)
    } else {
        match joined(
            inputs[0].datatype,
            axis as usize,
            widened_shapes(inputs, n as int, axis as int),
            leading_datas(inputs, n as int),
        ) {
            Ok(m) => Ok(seq![m]),
            Err(e) => Err(e),
        }
    }
}

/// What `Pack` infers of its output: the output itself where all inputs are
/// known, and nothing else.
pub open spec fn pack_forward_spec(n: usize, axis: i64, inputs: Seq<ATensorView>) -> Result<
    Seq<ATensorView>,
    Error,
> {
    if inputs.len() != n {
        Err(Error::InvalidGraph)
    } else if all_known(inputs) {
        concrete_inference(pack_spec(n, axis, known_values(inputs)))
    } else {
        Ok(seq![ATensorView::any()])
    }
}

/// What `Pack` infers of its inputs: nothing.
pub open spec fn pack_backward_spec(n: usize, outputs: Seq<ATensorView>) -> Result<
    Seq<ATensorView>,
    Error,
> {
    if outputs.len() != 1 {
        Err(Error::InvalidGraph)
    } else {
        Ok(Seq::new(n as nat, |i: int| ATensorView::any()))
    }
}

/// The operator `Pack`, with the number of tensors that it packs and the
/// place of the new axis.
#[derive(Debug)]
pub struct Pack {
    pub n: usize,
    pub axis: i64,
}

impl Pack {
    /// Makes the operator of a node from the node's integer attributes `N`
    /// and `axis`; a node without `axis` packs along the first axis.
    pub fn build(pb: &NodeDef) -> (r: Result<Pack, Error>)
        ensures
            match (attr_int_of(pb.attr@, "N"@), attr_signed_of(pb.attr@, "axis"@, 0)) {
                (Ok(n), Ok(axis)) => r == Ok::<Pack, Error>(Pack { n, axis }),
                (Err(e), _) => r == Err::<Pack, Error>(e),
                (_, Err(e)) => r == Err::<Pack, Error>(e),
            },
    {
        let n = match pb.get_attr_int("N") {
            Ok(n) => n,
            Err(e) => {
                return Err(e);
            },
        };
        match pb.get_attr_signed("axis", 0) {
            Ok(axis) => Ok(Pack { n, axis }),
            Err(e) => Err(e),
        }
    }
}

impl Op for Pack {
    open spec fn eval_spec(&self, inputs: Seq<MatrixView>) -> Result<Seq<MatrixView>, Error> {
        pack_spec(self.n, self.axis, inputs)
    }

    open spec fn infer_forward_spec(&self, inputs: Seq<ATensorView>) -> Result<
        Seq<ATensorView>,
        Error,
    > {
        pack_forward_spec(self.n, self.axis, inputs)
    }

    open spec fn infer_backward_spec(&self, outputs: Seq<ATensorView>) -> Result<
        Seq<ATensorView>,
        Error,
    > {
        pack_backward_spec(self.n, outputs)
    }

    /// Evaluates the operation given the input tensors.
    fn eval(&self, inputs: Vec<Input>) -> (r: Result<Vec<Input>, Error>) {
        let n = self.n;
        if inputs.len() != n {
            return Err(Error::InvalidGraph);
        }
        if self.axis < 0 {
            return Err(Error::UnsupportedAttribute);
        }
        let ghost given = views_of(inputs@);
        let mut shapes: Vec<Vec<usize>> = Vec::new();
        let mut datas: Vec<Vec<i64>> = Vec::new();
        let mut alike = true;
        let mut k: usize = 0;
        while k < n
            invariant
                k <= n,
                n == self.n,
                n == inputs@.len(),
                self.axis >= 0,
                given == views_of(inputs@),
                shapes@.len() == k,
                datas@.len() == k,
                forall|t: int| 0 <= t < k ==> (#[trigger] given[t]).datatype == given[0].datatype,
                alike == ((forall|t: int|
                    0 <= t < k ==> (#[trigger] given[t]).shape == given[0].shape) && (k > 0
                    ==> self.axis <= given[0].shape.len())),
                alike ==> forall|t: int|
                    0 <= t < k ==> #[trigger] shapes@[t]@ == given[t].shape.insert(
                        self.axis as int,
                        1,
                    ),
                forall|t: int| 0 <= t < k ==> #[trigger] datas@[t]@ == given[t].data,
                forall|t: int| 0 <= t < k ==> (#[trigger] given[t]).valid(),
            decreases n - k,
        {
            let m = inputs[k].as_matrix();
            proof {
                use_type_invariant(m);
                assert(m@ == given[k as int]);
                assert(inputs@[0]@ == given[0]);
            }
            if m.datatype() != inputs[0].as_matrix().datatype() {
                assert(!same_types(given, n as int));
                return Err(Error::TypeMismatch);
            }
            let mut shape = slice_to_vec(m.shape());
            if alike && same_shape(m.shape(), inputs[0].as_matrix().shape())
                && self.axis as u64 <= shape.len() as u64 {
                shape.insert(self.axis as usize, 1);
            } else {
                alike = false;
            }
            shapes.push(shape);
            datas.push(slice_to_vec(m.values()));
            k += 1;
        }
        assert(same_types(given, n as int));
        if n == 0 || !alike {
            return Err(Error::ShapeMismatch);
        }
        assert(same_shapes(given, n as int));
        assert(shapes_of(shapes@) =~= widened_shapes(given, n as int, self.axis as int));
        assert(datas_of(datas@) =~= leading_datas(given, n as int));
        let datatype = inputs[0].as_matrix().datatype();
        proof {
            assert(inputs@[0]@ == given[0]);
            assert forall|t: int| 0 <= t < shapes@.len() implies (MatrixView {
                datatype,
                shape: #[trigger] shapes@[t]@,
                data: datas@[t]@,
            }).valid() by {
                assert(given[t].valid());
                assert(given[t].datatype == given[0].datatype);
                assert(given[t].shape == given[0].shape);
                lemma_insert_one(given[t].shape, self.axis as int);
            }
        }
        match ConcatV2::join(datatype, self.axis as usize, &shapes, &datas) {
            Ok(m) => Ok(single(m)),
            Err(e) => Err(e),
        }
    }

    /// Infers properties about the output tensors from the input tensors.
    fn infer_forward(&self, inputs: Vec<&ATensor>) -> (r: Result<Vec<ATensor>, Error>) {
        if inputs.len() != self.n {
            return Err(Error::InvalidGraph);
        }
        if let Some(values) = known_inputs(&inputs) {
            return match self.eval(values) {
                Ok(outputs) => Ok(concrete_outputs(outputs)),
                Err(e) => Err(e),
            };
        }
        let mut facts: Vec<ATensor> = Vec::new();
        facts.push(fact(AType::Any, AShape::any()));
        assert(facts_of(facts@) =~= seq![ATensorView::any()]);
        Ok(facts)
    }

    /// Infers properties about the input tensors from the output tensors.
    fn infer_backward(&self, outputs: Vec<&ATensor>) -> (r: Result<Vec<ATensor>, Error>) {
        if outputs.len() != 1 {
            return Err(Error::InvalidGraph);
        }
        let n = self.n;
        let mut facts: Vec<ATensor> = Vec::new();
        let mut i: usize = 0;
        while i < n
            invariant
                i <= n,
                facts@.len() == i,
                forall|j: int| 0 <= j < i ==> (#[trigger] facts@[j])@ == ATensorView::any(),
            decreases n - i,
        {
            facts.push(fact(AType::Any, AShape::any()));
            i += 1;
        }
        assert(facts_of(facts@) =~= Seq::new(n as nat, |i: int| ATensorView::any()));
        Ok(facts)
    }
}

} // verus!
