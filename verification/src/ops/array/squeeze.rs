//! `Squeeze`: the same elements with axes of size one removed.

use vstd::prelude::*;
use crate::analyser::types::{AShape, ATensor, ATensorView, closed_shape};
use crate::errors::Error;
use crate::matrix::{MatrixView, nonzero_size, shape_size};
use crate::ops::{
    Input, Op, all_known, any_negative, concrete_inference, concrete_outputs, fact, facts_of,
    facts_of_refs, has_negative, holds_axis, known_inputs, listed, known_values, single, typed_backward,
    typed_backward_spec, views_of,
};
use crate::ops::array::expand_dims::{expand_dims_spec, expanded_shape, least_at};
use crate::tfpb::node_def::{NodeDef, attr_list_int_of};
use crate::tfpb::types::DataType;

verus! {

/// The dimensions of `shape` whose positions `dims` does not list.
pub open spec fn squeeze_keep(shape: Seq<usize>, dims: Seq<i64>) -> Seq<usize>
    decreases shape.len(),
{
    if shape.len() == 0 {
        shape
    } else if listed(dims, shape.len() - 1) {
        squeeze_keep(shape.drop_last(), dims)
    } else {
        squeeze_keep(shape.drop_last(), dims).push(shape.last())
    }
}

/// Whether every position that `dims` lists is an axis of `shape` of size
/// one.
pub open spec fn squeezable(shape: Seq<usize>, dims: Seq<i64>) -> bool {
    forall|i: int|
        0 <= i < dims.len() ==> 0 <= #[trigger] dims[i] < shape.len() && shape[dims[i] as int] == 1
}

/// The shape without the axes at the positions of `dims`.  A negative
/// position is an `UnsupportedAttribute`; a position that is no axis of the
/// shape, or an axis of another size than one, is a `ShapeMismatch`.
pub open spec fn squeezed_shape(shape: Seq<usize>, dims: Seq<i64>) -> Result<Seq<usize>, Error> {
    if has_negative(dims) {
        Err(Error::UnsupportedAttribute)
    } else if !squeezable(shape, dims) {
        Err(Error::ShapeMismatch)
    } else {
        Ok(squeeze_keep(shape, dims))
    }
}

/// What `Squeeze` computes: its one input without the axes at the positions
/// of `dims`.
pub open spec fn squeeze_spec(dims: Seq<i64>, inputs: Seq<MatrixView>) -> Result<
    Seq<MatrixView>,
    Error,
> {
    if inputs.len() != 1 {
        Err(Error::InvalidGraph)
    } else {
        match squeezed_shape(inputs[0].shape, dims) {
            Err(e) => Err(e),
            Ok(target) => Ok(seq![MatrixView { shape: target, ..inputs[0] }]),
        }
    }
}

/// What `Squeeze` infers of its output.  Where the input is known, the
/// output is known.  Else the shape of the input must be known in full: the
/// output then has the type of the input and the squeezed shape.
pub open spec fn squeeze_forward_spec(dims: Seq<i64>, inputs: Seq<ATensorView>) -> Result<
    Seq<ATensorView>,
    Error,
> {
    if inputs.len() != 1 {
        Err(Error::InvalidGraph)
    } else if all_known(inputs) {
        concrete_inference(squeeze_spec(dims, known_values(inputs)))
    } else if !inputs[0].shape.is_concrete() {
        Err(Error::NotConcrete)
    } else {
        match squeezed_shape(inputs[0].shape.sizes(), dims) {
            Err(e) => Err(e),
            Ok(target) => Ok(
                seq![
                    ATensorView {
                        datatype: inputs[0].datatype,
                        shape: closed_shape(target),
                        value: None,
                    },
                ],
            ),
        }
    }
}

/// Removing axes of size one changes neither the number of elements of a
/// shape nor the product of its non-zero dimensions.
pub proof fn lemma_squeezed_size(shape: Seq<usize>, dims: Seq<i64>)
    requires
        forall|i: int| 0 <= i < shape.len() && listed(dims, i) ==> #[trigger] shape[i] == 1,
    ensures
        shape_size(squeeze_keep(shape, dims)) == shape_size(shape),
        nonzero_size(squeeze_keep(shape, dims)) == nonzero_size(shape),
    decreases shape.len(),
{
    if shape.len() > 0 {
        let rest = shape.drop_last();
        assert forall|i: int| 0 <= i < rest.len() && listed(dims, i) implies #[trigger] rest[i]
            == 1 by {
            assert(rest[i] == shape[i]);
        }
        lemma_squeezed_size(rest, dims);
        if listed(dims, shape.len() - 1) {
            assert(shape[shape.len() - 1] == 1);
        } else {
            let kept = squeeze_keep(rest, dims).push(shape.last());
            assert(kept.drop_last() == squeeze_keep(rest, dims));
            assert(kept.last() == shape.last());
        }
    }
}

/// Where every listed position is an axis of size one, every axis at a
/// listed position has size one.
pub proof fn lemma_squeezable(shape: Seq<usize>, dims: Seq<i64>)
    requires
        squeezable(shape, dims),
    ensures
        forall|i: int| 0 <= i < shape.len() && listed(dims, i) ==> #[trigger] shape[i] == 1,
{
    assert forall|i: int| 0 <= i < shape.len() && listed(dims, i) implies #[trigger] shape[i]
        == 1 by {
        let k = choose|k: int| 0 <= k < dims.len() && #[trigger] dims[k] == i;
        assert(0 <= dims[k] < shape.len() && shape[dims[k] as int] == 1);
    }
}

/// The operator `Squeeze`, with the positions of the axes that it removes.
/// The order of the positions does not matter.
#[derive(Debug)]
pub struct Squeeze {
    pub dims: Vec<i64>,
}

impl Squeeze {
    /// Makes the operator of a node from the node's list attribute
    /// `squeeze_dims`.  Fails with `InvalidGraph` where the node has no such
    /// list.
    pub fn build(pb: &NodeDef) -> (r: Result<Squeeze, Error>)
        ensures
            match r {
                Ok(op) => attr_list_int_of(pb.attr@, "squeeze_dims"@) == Ok::<Seq<i64>, Error>(
                    op.dims@,
                ),
                Err(e) => attr_list_int_of(pb.attr@, "squeeze_dims"@) == Err::<Seq<i64>, Error>(e),
            },
    {
        match pb.get_attr_list_int("squeeze_dims") {
            Ok(dims) => Ok(Squeeze { dims }),
            Err(e) => Err(e),
        }
    }

    /// Whether every position that the operator lists is an axis of `shape`
    /// of size one; the positions are not negative.
    fn can_squeeze(&self, shape: &Vec<usize>) -> (r: bool)
        requires
            !has_negative(self.dims@),
        ensures
            r == squeezable(shape@, self.dims@),
    {
        let mut i: usize = 0;
        while i < self.dims.len()
            invariant
                i <= self.dims.len(),
                !has_negative(self.dims@),
                forall|j: int|
                    0 <= j < i ==> 0 <= #[trigger] self.dims@[j] < shape@.len()
                        && shape@[self.dims@[j] as int] == 1,
            decreases self.dims.len() - i,
        {
            let d = self.dims[i];
            assert(self.dims@[i as int] >= 0);
            if d as u64 >= shape.len() as u64 {
                return false;
            }
            if shape[d as usize] != 1 {
                return false;
            }
            i += 1;
        }
        true
    }

    /// Removes from the given shape the axes of size one at the positions
    /// that the operator lists.
    pub fn squeeze_shape(&self, shape: Vec<usize>) -> (r: Result<Vec<usize>, Error>)
        ensures
            match r {
                Ok(target) => squeezed_shape(shape@, self.dims@) == Ok::<Seq<usize>, Error>(
                    target@,
                ),
                Err(e) => squeezed_shape(shape@, self.dims@) == Err::<Seq<usize>, Error>(e),
            },
    {
        if any_negative(self.dims.as_slice()) {
            return Err(Error::UnsupportedAttribute);
        }
        if !self.can_squeeze(&shape) {
            return Err(Error::ShapeMismatch);
        }
        let mut target: Vec<usize> = Vec::new();
        let mut i: usize = 0;
        assert(shape@.take(0).len() == 0);
        while i < shape.len()
            invariant
                i <= shape.len(),
                target@ == squeeze_keep(shape@.take(i as int), self.dims@),
            decreases shape.len() - i,
        {
            proof {
                assert(shape@.take(i + 1).drop_last() == shape@.take(i as int));
                assert(shape@.take(i + 1).last() == shape@[i as int]);
            }
            if !holds_axis(self.dims.as_slice(), i) {
                target.push(shape[i]);
            }
            i += 1;
        }
        assert(shape@.take(shape.len() as int) == shape@);
        Ok(target)
    }
}

impl Op for Squeeze {
    open spec fn eval_spec(&self, inputs: Seq<MatrixView>) -> Result<Seq<MatrixView>, Error> {
        squeeze_spec(self.dims@, inputs)
    }

    open spec fn infer_forward_spec(&self, inputs: Seq<ATensorView>) -> Result<
        Seq<ATensorView>,
        Error,
    > {
        squeeze_forward_spec(self.dims@, inputs)
    }

    open spec fn infer_backward_spec(&self, outputs: Seq<ATensorView>) -> Result<
        Seq<ATensorView>,
        Error,
    > {
        typed_backward_spec(outputs, false)
    }

    /// Evaluates the operation given the input tensors.
    fn eval(&self, inputs: Vec<Input>) -> (r: Result<Vec<Input>, Error>) {
        let mut inputs = inputs;
        if inputs.len() != 1 {
            return Err(Error::InvalidGraph);
        }
        let ghost given = views_of(inputs@);
        let data = inputs.pop().unwrap();
        assert(data@ == given[0]);
        let data = data.into_matrix();
        let shape = vstd::slice::slice_to_vec(data.shape());
        let target = match self.squeeze_shape(shape) {
            Ok(target) => target,
            Err(e) => {
                return Err(e);
            },
        };
        proof {
            use_type_invariant(&data);
            lemma_squeezable(data@.shape, self.dims@);
            lemma_squeezed_size(data@.shape, self.dims@);
        }
        match data.into_shape(&target) {
            Ok(m) => Ok(single(m)),
            Err(e) => Err(e),
        }
    }

    /// Infers properties about the output tensors from the input tensors.
    fn infer_forward(&self, inputs: Vec<&ATensor>) -> (r: Result<Vec<ATensor>, Error>) {
        if inputs.len() != 1 {
            return Err(Error::InvalidGraph);
        }
        if let Some(values) = known_inputs(&inputs) {
            return match self.eval(values) {
                Ok(outputs) => Ok(concrete_outputs(outputs)),
                Err(e) => Err(e),
            };
        }
        let ghost facts = facts_of_refs(inputs@);
        assert(facts[0] == inputs@[0]@);
        let shape = match inputs[0].shape.concretize() {
            Ok(shape) => shape,
            Err(e) => {
                return Err(e);
            },
        };
        let target = match self.squeeze_shape(shape) {
            Ok(target) => target,
            Err(e) => {
                return Err(e);
            },
        };
        let mut facts: Vec<ATensor> = Vec::new();
        facts.push(fact(inputs[0].datatype, AShape::from_sizes(target.as_slice())));
        assert(facts_of(facts@) =~= seq![facts@[0]@]);
        Ok(facts)
    }

    /// Infers properties about the input tensors from the output tensors.
    fn infer_backward(&self, outputs: Vec<&ATensor>) -> (r: Result<Vec<ATensor>, Error>) {
        typed_backward(&outputs, false)
    }
}

/// Where `dims` lists no axis of a shape, nothing is removed.
pub proof fn lemma_keep_unlisted(shape: Seq<usize>, dims: Seq<i64>)
    requires
        forall|i: int| 0 <= i < shape.len() ==> !listed(dims, i),
    ensures
        squeeze_keep(shape, dims) == shape,
    decreases shape.len(),
{
    if shape.len() > 0 {
        lemma_keep_unlisted(shape.drop_last(), dims);
        assert(!listed(dims, shape.len() - 1));
        assert(shape.drop_last().push(shape.last()) =~= shape);
    }
}

/// To remove the axis at the place where an axis of size one was inserted
/// gives the shape back.
pub proof fn lemma_keep_after_insert(shape: Seq<usize>, k: i64)
    requires
        0 <= k <= shape.len(),
    ensures
        squeeze_keep(shape.insert(k as int, 1), seq![k]) == shape,
    decreases shape.len(),
{
    let dims = seq![k];
    let wider = shape.insert(k as int, 1);
    assert(dims[0] == k);
    assert(listed(dims, k as int));
    assert forall|i: int| i != k implies !listed(dims, i) by {
        if listed(dims, i) {
            let j = choose|j: int| 0 <= j < dims.len() && #[trigger] dims[j] == i;
            assert(dims[j] == k);
        }
    }
    if k == shape.len() {
        assert(wider.drop_last() =~= shape);
        lemma_keep_unlisted(shape, dims);
    } else {
        assert(wider.drop_last() =~= shape.drop_last().insert(k as int, 1));
        assert(wider.last() == shape.last());
        lemma_keep_after_insert(shape.drop_last(), k);
        assert(!listed(dims, wider.len() - 1));
        assert(shape.drop_last().push(shape.last()) =~= shape);
    }
}

/// `Squeeze` undoes `ExpandDims`: to insert an axis of size one at a
/// position of a tensor and then to remove the axis at this position gives
/// the tensor.
pub proof fn lemma_squeeze_undoes_expand_dims(x: MatrixView, k: i64)
    requires
        x.valid(),
        0 <= k <= x.shape.len(),
        k <= i32::MAX,
    ensures
        ({
            let axes = MatrixView { datatype: DataType::DT_INT32, shape: seq![1usize], data: seq![k] };
            let wider = MatrixView { shape: x.shape.insert(k as int, 1), ..x };
            &&& expand_dims_spec(seq![x, axes]) == Ok::<Seq<MatrixView>, Error>(seq![wider])
            &&& squeeze_spec(seq![k], seq![wider]) == Ok::<Seq<MatrixView>, Error>(seq![x])
        }),
{
    let axes = seq![k];
    let wider = x.shape.insert(k as int, 1);
    assert(axes[0] == k);
    assert(!has_negative(axes)) by {
        if has_negative(axes) {
            let i = choose|i: int| 0 <= i < axes.len() && #[trigger] axes[i] < 0;
            assert(axes[i] == k);
        }
    }
    assert(least_at(axes) == 0);
    assert(axes.remove(0) =~= Seq::<i64>::empty());
    assert(expanded_shape(wider, axes.remove(0)) == Ok::<Seq<usize>, Error>(wider));
    assert(expanded_shape(x.shape, axes) == Ok::<Seq<usize>, Error>(wider));
    assert(squeezable(wider, axes)) by {
        assert forall|i: int| 0 <= i < axes.len() implies 0 <= #[trigger] axes[i] < wider.len()
            && wider[axes[i] as int] == 1 by {
            assert(axes[i] == k);
        }
    }
    lemma_keep_after_insert(x.shape, k);
}

/// A `Squeeze` with a negative position is an `UnsupportedAttribute`.
pub proof fn lemma_squeeze_rejects_negative(dims: Seq<i64>, x: MatrixView)
    requires
        has_negative(dims),
    ensures
        squeeze_spec(dims, seq![x]) == Err::<Seq<MatrixView>, Error>(Error::UnsupportedAttribute),
{
}

} // verus!
