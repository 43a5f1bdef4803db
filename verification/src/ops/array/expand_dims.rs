//! `ExpandDims`: the same elements with axes of size one added.

use vstd::prelude::*;
use vstd::slice::slice_to_vec;
use crate::analyser::types::{ADimension, AShape, AShapeView, ATensor, ATensorView};
use crate::errors::Error;
use crate::matrix::{MatrixView, all_hold, nonzero_size, shape_size};
use crate::ops::{
    Input, Op, all_known, any_negative, concrete_inference, concrete_outputs, fact, facts_of,
    facts_of_refs, has_negative, holds_axis, known_inputs, listed, known_values, single, typed_backward,
    typed_backward_spec, views_of,
};
use crate::tfpb::node_def::NodeDef;
use crate::tfpb::types::DataType;

verus! {

/// The place of the least entry of `axes`, the first one among equals.
pub open spec fn least_at(axes: Seq<i64>) -> int
    decreases axes.len(),
{
    if axes.len() <= 1 {
        0
    } else {
        let rest = least_at(axes.drop_last());
        if axes.last() < axes[rest] {
            axes.len() - 1
        } else {
            rest
        }
    }
}

/// The shape after an axis of size one has been inserted at every position
/// of `axes`, in ascending order of the positions.  A position beyond the
/// rank that the shape has when its turn comes is a `ShapeMismatch`.
pub open spec fn expanded_shape(shape: Seq<usize>, axes: Seq<i64>) -> Result<Seq<usize>, Error>
    decreases axes.len(),
{
    if axes.len() == 0 {
        Ok(shape)
    } else {
        let k = least_at(axes);
        if 0 <= k < axes.len() && 0 <= axes[k] <= shape.len() {
            expanded_shape(shape.insert(axes[k] as int, 1), axes.remove(k))
        } else {
            Err(Error::ShapeMismatch)
        }
    }
}

/// What `ExpandDims` computes: the first input with an axis of size one
/// inserted at every position that the second input lists.  The second
/// input is a tensor of 32-bit integers, none of them negative.
pub open spec fn expand_dims_spec(inputs: Seq<MatrixView>) -> Result<Seq<MatrixView>, Error> {
    if inputs.len() != 2 {
        Err(Error::InvalidGraph)
    } else if inputs[1].datatype != DataType::DT_INT32 {
        Err(Error::TypeMismatch)
    } else if has_negative(inputs[1].data) {
        Err(Error::UnsupportedAttribute)
    } else {
        match expanded_shape(inputs[0].shape, inputs[1].data) {
            Err(e) => Err(e),
            Ok(target) => Ok(seq![MatrixView { shape: target, ..inputs[0] }]),
        }
    }
}

/// The greatest entry of `axes`, or `-1` for an empty list.
pub open spec fn highest(axes: Seq<i64>) -> int
    decreases axes.len(),
{
    if axes.len() == 0 {
        -1
    } else {
        let rest = highest(axes.drop_last());
        if axes.last() > rest {
            axes.last() as int
        } else {
            rest
        }
    }
}

/// The dimensions that are known of a shape after axes of size one have been
/// inserted at the positions of `axes`: size one at these positions, and
/// nothing in between.
pub open spec fn marked_axes(axes: Seq<i64>) -> Seq<ADimension> {
    Seq::new(
        (highest(axes) + 1) as nat,
        |p: int|
            if listed(axes, p) {
                ADimension::Only(1)
            } else {
                ADimension::Any
            },
    )
}

/// What `ExpandDims` infers of its output.  Where both inputs are known, the
/// output is known.  Else the positions must be known: the output then has
/// the type of the first input and an open shape with size one at these
/// positions.
pub open spec fn expand_dims_forward_spec(inputs: Seq<ATensorView>) -> Result<
    Seq<ATensorView>,
    Error,
> {
    if inputs.len() != 2 {
        Err(Error::InvalidGraph)
    } else if all_known(inputs) {
        concrete_inference(expand_dims_spec(known_values(inputs)))
    } else if inputs[1].value is None {
        Err(Error::NotConcrete)
    } else {
        let axes = inputs[1].value.unwrap();
        if axes.datatype != DataType::DT_INT32 {
            Err(Error::TypeMismatch)
        } else if has_negative(axes.data) {
            Err(Error::UnsupportedAttribute)
        } else {
            Ok(
                seq![
                    ATensorView {
                        datatype: inputs[0].datatype,
                        shape: AShapeView { open: true, dims: marked_axes(axes.data) },
                        value: None,
                    },
                ],
            )
        }
    }
}

/// An axis of size one changes neither the number of elements of a shape nor
/// the product of its non-zero dimensions.
pub proof fn lemma_insert_one(shape: Seq<usize>, at: int)
    requires
        0 <= at <= shape.len(),
    ensures
        shape_size(shape.insert(at, 1)) == shape_size(shape),
        nonzero_size(shape.insert(at, 1)) == nonzero_size(shape),
    decreases shape.len(),
{
    let wider = shape.insert(at, 1);
    if at == shape.len() {
        assert(wider.drop_last() == shape);
        assert(wider.last() == 1);
    } else {
        assert(wider.drop_last() == shape.drop_last().insert(at, 1));
        assert(wider.last() == shape.last());
        lemma_insert_one(shape.drop_last(), at);
    }
}

/// Expanding a shape changes neither its number of elements nor the product
/// of its non-zero dimensions.
pub proof fn lemma_expanded_size(shape: Seq<usize>, axes: Seq<i64>)
    requires
        expanded_shape(shape, axes) is Ok,
    ensures
        shape_size(expanded_shape(shape, axes)->Ok_0) == shape_size(shape),
        nonzero_size(expanded_shape(shape, axes)->Ok_0) == nonzero_size(shape),
    decreases axes.len(),
{
    if axes.len() > 0 {
        let k = least_at(axes);
        lemma_least_at(axes);
        lemma_insert_one(shape, axes[k] as int);
        lemma_expanded_size(shape.insert(axes[k] as int, 1), axes.remove(k));
    }
}

/// The least entry is in the list and no entry is below it.
pub proof fn lemma_least_at(axes: Seq<i64>)
    requires
        axes.len() > 0,
    ensures
        0 <= least_at(axes) < axes.len(),
        forall|i: int| 0 <= i < axes.len() ==> axes[least_at(axes)] <= #[trigger] axes[i],
    decreases axes.len(),
{
    if axes.len() > 1 {
        lemma_least_at(axes.drop_last());
        let rest = least_at(axes.drop_last());
        assert forall|i: int| 0 <= i < axes.len() implies axes[least_at(axes)] <= #[trigger] axes[i] by {
            if i < axes.len() - 1 {
                assert(axes.drop_last()[i] == axes[i]);
                assert(axes.drop_last()[rest] == axes[rest]);
            }
        }
    }
}

/// The operator `ExpandDims`.
#[derive(Debug)]
pub struct ExpandDims;

impl ExpandDims {
    /// Makes the operator of a node; it reads no attribute.
    pub fn build(_pb: &NodeDef) -> (r: Result<ExpandDims, Error>)
        ensures
            r is Ok,
    {
        Ok(ExpandDims)
    }

    /// The place of the least entry of a list that is not empty.
    fn index_of_least(axes: &Vec<i64>) -> (r: usize)
        requires
            axes@.len() > 0,
        ensures
            r == least_at(axes@),
            r < axes@.len(),
    {
        let mut best: usize = 0;
        let mut i: usize = 1;
        assert(axes@.take(1).len() == 1);
        while i < axes.len()
            invariant
                1 <= i <= axes.len(),
                best == least_at(axes@.take(i as int)),
                best < i,
            decreases axes.len() - i,
        {
            proof {
                assert(axes@.take(i + 1).drop_last() == axes@.take(i as int));
                assert(axes@.take(i + 1).last() == axes@[i as int]);
                assert(axes@.take(i + 1)[best as int] == axes@[best as int]);
            }
            if axes[i] < axes[best] {
                best = i;
            }
            i += 1;
        }
        assert(axes@.take(axes.len() as int) == axes@);
        best
    }

    /// The shape with an axis of size one inserted at every position of
    /// `axes`, in ascending order of the positions.
    pub fn expand_shape(shape: &[usize], axes: &[i64]) -> (r: Result<Vec<usize>, Error>)
        ensures
            match r {
                Ok(target) => expanded_shape(shape@, axes@) == Ok::<Seq<usize>, Error>(target@),
                Err(e) => expanded_shape(shape@, axes@) == Err::<Seq<usize>, Error>(e),
            },
    {
        let mut target = slice_to_vec(shape);
        let mut left = slice_to_vec(axes);
        while left.len() > 0
            invariant
                expanded_shape(shape@, axes@) == expanded_shape(target@, left@),
            decreases left.len(),
        {
            let k = Self::index_of_least(&left);
            let axis = left.remove(k);
            if axis < 0 || axis as u64 > target.len() as u64 {
                return Err(Error::ShapeMismatch);
            }
            target.insert(axis as usize, 1);
        }
        Ok(target)
    }

    /// The greatest entry of a list without negative entries, or nothing for
    /// an empty list.
    fn greatest(axes: &[i64]) -> (r: Option<i64>)
        requires
            !has_negative(axes@),
            all_hold(DataType::DT_INT32, axes@),
        ensures
            match r {
                Some(top) => top == highest(axes@) && 0 <= top <= i32::MAX,
                None => highest(axes@) == -1,
            },
    {
        let n = axes.len();
        let mut top: Option<i64> = None;
        let mut i: usize = 0;
        assert(axes@.take(0).len() == 0);
        while i < n
            invariant
                i <= n,
                n == axes@.len(),
                !has_negative(axes@),
                all_hold(DataType::DT_INT32, axes@),
                match top {
                    Some(top) => top == highest(axes@.take(i as int)) && 0 <= top <= i32::MAX,
                    None => highest(axes@.take(i as int)) == -1,
                },
            decreases n - i,
        {
            let axis = axes[i];
            proof {
                assert(axes@.take(i + 1).drop_last() == axes@.take(i as int));
                assert(axes@.take(i + 1).last() == axis);
                assert(axes@[i as int] >= 0);
                assert(DataType::DT_INT32.holds(axes@[i as int]));
            }
            top = match top {
                Some(old) => if axis > old {
                    Some(axis)
                } else {
                    Some(old)
                },
                None => Some(axis),
            };
            i += 1;
        }
        assert(axes@.take(n as int) == axes@);
        top
    }

    /// The dimensions that are known of a shape after axes of size one have
    /// been inserted at the positions of `axes`.
    fn mark_axes(axes: &[i64]) -> (r: Vec<ADimension>)
        requires
            !has_negative(axes@),
            all_hold(DataType::DT_INT32, axes@),
        ensures
            r@ == marked_axes(axes@),
    {
        let mut dims: Vec<ADimension> = Vec::new();
        let top = match Self::greatest(axes) {
            Some(top) => top,
            None => {
                assert(dims@ =~= marked_axes(axes@));
                return dims;
            },
        };
        let top = top as usize;
        let mut p: usize = 0;
        while p <= top
            invariant
                0 <= p <= top + 1,
                top == highest(axes@),
                dims@.len() == p,
                forall|q: int| 0 <= q < p ==> #[trigger] dims@[q] == marked_axes(axes@)[q],
            decreases top + 1 - p,
        {
            if holds_axis(axes, p) {
                dims.push(ADimension::Only(1));
            } else {
                dims.push(ADimension::Any);
            }
            if p == top {
                assert(dims@ =~= marked_axes(axes@));
                return dims;
            }
            p += 1;
        }
        assert(dims@ =~= marked_axes(axes@));
        dims
    }
}

impl Op for ExpandDims {
    open spec fn eval_spec(&self, inputs: Seq<MatrixView>) -> Result<Seq<MatrixView>, Error> {
        expand_dims_spec(inputs)
    }

    open spec fn infer_forward_spec(&self, inputs: Seq<ATensorView>) -> Result<
        Seq<ATensorView>,
        Error,
    > {
        expand_dims_forward_spec(inputs)
    }

    open spec fn infer_backward_spec(&self, outputs: Seq<ATensorView>) -> Result<
        Seq<ATensorView>,
        Error,
    > {
        typed_backward_spec(outputs, true)
    }

    /// Evaluates the operation given the input tensors.
    fn eval(&self, inputs: Vec<Input>) -> (r: Result<Vec<Input>, Error>) {
        let mut inputs = inputs;
        if inputs.len() != 2 {
            return Err(Error::InvalidGraph);
        }
        let ghost given = views_of(inputs@);
        let dims = inputs.pop().unwrap();
        let data = inputs.pop().unwrap();
        assert(dims@ == given[1] && data@ == given[0]);
        let dims = dims.as_matrix();
        if dims.datatype() != DataType::DT_INT32 {
            return Err(Error::TypeMismatch);
        }
        if any_negative(dims.values()) {
            return Err(Error::UnsupportedAttribute);
        }
        let data = data.into_matrix();
        let target = match ExpandDims::expand_shape(data.shape(), dims.values()) {
            Ok(target) => target,
            Err(e) => {
                return Err(e);
            },
        };
        proof {
            use_type_invariant(&data);
            lemma_expanded_size(data@.shape, dims@.data);
        }
        match data.into_shape(&target) {
            Ok(m) => Ok(single(m)),
            Err(e) => Err(e),
        }
    }

    /// Infers properties about the output tensors from the input tensors.
    fn infer_forward(&self, inputs: Vec<&ATensor>) -> (r: Result<Vec<ATensor>, Error>) {
        if inputs.len() != 2 {
            return Err(Error::InvalidGraph);
        }
        if let Some(values) = known_inputs(&inputs) {
            return match self.eval(values) {
                Ok(outputs) => Ok(concrete_outputs(outputs)),
                Err(e) => Err(e),
            };
        }
        let ghost facts = facts_of_refs(inputs@);
        assert(facts[0] == inputs@[0]@ && facts[1] == inputs@[1]@);
        let axes = match inputs[1].value.concretize() {
            Ok(axes) => axes,
            Err(e) => {
                return Err(e);
            },
        };
        if axes.datatype() != DataType::DT_INT32 {
            return Err(Error::TypeMismatch);
        }
        if any_negative(axes.values()) {
            return Err(Error::UnsupportedAttribute);
        }
        proof {
            use_type_invariant(axes);
        }
        let mut facts: Vec<ATensor> = Vec::new();
        facts.push(fact(inputs[0].datatype, AShape::Open(ExpandDims::mark_axes(axes.values()))));
        assert(facts_of(facts@) =~= seq![facts@[0]@]);
        Ok(facts)
    }

    /// Infers properties about the input tensors from the output tensors.
    fn infer_backward(&self, outputs: Vec<&ATensor>) -> (r: Result<Vec<ATensor>, Error>) {
        typed_backward(&outputs, true)
    }
}

} // verus!
