//! `Shape`: the dimensions of a tensor as a tensor.

use vstd::prelude::*;
use crate::analyser::types::{
    ADimension, AShape, AShapeView, ATensor, ATensorView, AType, AValue, closed_shape,
};
use crate::errors::Error;
use crate::matrix::{Matrix, MatrixView, dims_of_sizes, sizes_of_dims};
use crate::ops::{
    Input, Op, any_negative, concrete_fact, concrete_outputs, fact, facts_of, facts_of_refs,
    has_negative, single, views_of,
};
use crate::tfpb::node_def::NodeDef;
use crate::tfpb::types::DataType;

verus! {

/// Whether the dimensions of `shape` can be the elements of a tensor of
/// 32-bit integers: each is such an integer, and a list of their number can
/// be addressed.
pub open spec fn shape_fits(shape: Seq<usize>) -> bool {
    &&& forall|i: int| 0 <= i < shape.len() ==> #[trigger] shape[i] <= i32::MAX
    &&& shape.len() <= isize::MAX
}

/// The tensor that holds the dimensions of `shape`: a list of 32-bit
/// integers.
pub open spec fn shape_tensor(shape: Seq<usize>) -> MatrixView {
    MatrixView {
        datatype: DataType::DT_INT32,
        shape: seq![shape.len() as usize],
        data: dims_of_sizes(shape),
    }
}

/// What `Shape` computes: the dimensions of its one input as a list of
/// 32-bit integers.  A shape that does not fit such a list is a
/// `ShapeMismatch`.
pub open spec fn shape_spec(inputs: Seq<MatrixView>) -> Result<Seq<MatrixView>, Error> {
    if inputs.len() != 1 {
        Err(Error::InvalidGraph)
    } else if !shape_fits(inputs[0].shape) {
        Err(Error::ShapeMismatch)
    } else {
        Ok(seq![shape_tensor(inputs[0].shape)])
    }
}

/// What `Shape` infers of its output, a list of 32-bit integers: the list
/// itself where the shape of the input is known in full, its length where
/// the rank of the input is known, and else that it is a list.
pub open spec fn shape_forward_spec(inputs: Seq<ATensorView>) -> Result<Seq<ATensorView>, Error> {
    if inputs.len() != 1 {
        Err(Error::InvalidGraph)
    } else if inputs[0].shape.is_concrete() {
        if shape_fits(inputs[0].shape.sizes()) {
            Ok(seq![concrete_fact(shape_tensor(inputs[0].shape.sizes()))])
        } else {
            Err(Error::ShapeMismatch)
        }
    } else {
        Ok(
            seq![
                ATensorView {
                    datatype: AType::Only(DataType::DT_INT32),
                    shape: AShapeView {
                        open: false,
                        dims: seq![
                            if inputs[0].shape.open {
                                ADimension::Any
                            } else {
                                ADimension::Only(inputs[0].shape.dims.len() as usize)
                            },
                        ],
                    },
                    value: None,
                },
            ],
        )
    }
}

/// A closed shape of the given rank of which no dimension is known.
pub open spec fn unknown_dims(rank: usize) -> AShapeView {
    AShapeView { open: false, dims: Seq::new(rank as nat, |i: int| ADimension::Any) }
}

/// What `Shape` infers of its input.  From a known output, a list of 32-bit
/// integers none of which is negative, it infers the shape of the input.
/// Else the shape of the output must be known in full, and be that of a
/// list: its length is the rank of the input.
pub open spec fn shape_backward_spec(outputs: Seq<ATensorView>) -> Result<Seq<ATensorView>, Error> {
    if outputs.len() != 1 {
        Err(Error::InvalidGraph)
    } else {
        match outputs[0].value {
            Some(v) => if v.datatype != DataType::DT_INT32 {
                Err(Error::TypeMismatch)
            } else if v.shape.len() != 1 || has_negative(v.data) {
                Err(Error::ShapeMismatch)
            } else {
                Ok(
                    seq![
                        ATensorView {
                            datatype: AType::Any,
                            shape: closed_shape(sizes_of_dims(v.data)),
                            value: None,
                        },
                    ],
                )
            },
            None => if !outputs[0].shape.is_concrete() {
                Err(Error::NotConcrete)
            } else if outputs[0].shape.dims.len() != 1 {
                Err(Error::ShapeMismatch)
            } else {
                Ok(
                    seq![
                        ATensorView {
                            datatype: AType::Any,
                            shape: unknown_dims(outputs[0].shape.sizes()[0]),
                            value: None,
                        },
                    ],
                )
            },
        }
    }
}

/// The operator `Shape`.
#[derive(Debug)]
pub struct Shape;

impl Shape {
    /// Makes the operator of a node; it reads no attribute.
    pub fn build(_pb: &NodeDef) -> (r: Result<Shape, Error>)
        ensures
            r is Ok,
    {
        Ok(Shape)
    }

    /// The tensor that holds the dimensions of `shape`.
    pub fn tensor_of_shape(shape: &[usize]) -> (r: Result<Matrix, Error>)
        ensures
            match r {
                Ok(m) => shape_fits(shape@) && m@ == shape_tensor(shape@),
                Err(e) => !shape_fits(shape@) && e == Error::ShapeMismatch,
            },
    {
        let n = shape.len();
        let mut data: Vec<i64> = Vec::new();
        let mut i: usize = 0;
        while i < n
            invariant
                i <= n,
                n == shape@.len(),
                data@.len() == i,
                forall|j: int| 0 <= j < i ==> #[trigger] shape@[j] <= i32::MAX,
                forall|j: int| 0 <= j < i ==> #[trigger] data@[j] == shape@[j] as i64,
            decreases n - i,
        {
            let d = shape[i];
            if d > 0x7fff_ffff {
                return Err(Error::ShapeMismatch);
            }
            data.push(d as i64);
            i += 1;
        }
        assert(data@ =~= dims_of_sizes(shape@));
        let mut rank: Vec<usize> = Vec::new();
        rank.push(n);
        assert(rank@ =~= seq![n]);
        proof {
            crate::matrix::lemma_list_shape(n);
            assert(crate::matrix::all_hold(DataType::DT_INT32, data@));
        }
        match Matrix::new(DataType::DT_INT32, rank, data) {
            Ok(m) => Ok(m),
            Err(_) => Err(Error::ShapeMismatch),
        }
    }
}

impl Op for Shape {
    open spec fn eval_spec(&self, inputs: Seq<MatrixView>) -> Result<Seq<MatrixView>, Error> {
        shape_spec(inputs)
    }

    open spec fn infer_forward_spec(&self, inputs: Seq<ATensorView>) -> Result<
        Seq<ATensorView>,
        Error,
    > {
        shape_forward_spec(inputs)
    }

    open spec fn infer_backward_spec(&self, outputs: Seq<ATensorView>) -> Result<
        Seq<ATensorView>,
        Error,
    > {
        shape_backward_spec(outputs)
    }

    /// Evaluates the operation given the input tensors.
    fn eval(&self, inputs: Vec<Input>) -> (r: Result<Vec<Input>, Error>) {
        if inputs.len() != 1 {
            return Err(Error::InvalidGraph);
        }
        let ghost given = views_of(inputs@);
        assert(given[0] == inputs@[0]@);
        match Shape::tensor_of_shape(inputs[0].as_matrix().shape()) {
            Ok(m) => Ok(single(m)),
            Err(e) => Err(e),
        }
    }

    /// Infers properties about the output tensors from the input tensors.
    fn infer_forward(&self, inputs: Vec<&ATensor>) -> (r: Result<Vec<ATensor>, Error>) {
        if inputs.len() != 1 {
            return Err(Error::InvalidGraph);
        }
        let ghost facts = facts_of_refs(inputs@);
        assert(facts[0] == inputs@[0]@);
        match inputs[0].shape.concretize() {
            Ok(sizes) => match Shape::tensor_of_shape(sizes.as_slice()) {
                Ok(m) => {
                    let known = concrete_outputs(single(m));
                    assert(facts_of(known@) =~= seq![concrete_fact(m@)]);
                    Ok(known)
                },
                Err(e) => Err(e),
            },
            Err(_) => {
                let mut dims: Vec<ADimension> = Vec::new();
                if inputs[0].shape.is_open() {
                    dims.push(ADimension::Any);
                } else {
                    dims.push(ADimension::Only(inputs[0].shape.inner().len()));
                }
                let mut facts: Vec<ATensor> = Vec::new();
                facts.push(fact(AType::Only(DataType::DT_INT32), AShape::Closed(dims)));
                assert(facts@[0]@.shape.dims =~= seq![
                    if inputs@[0]@.shape.open {
                        ADimension::Any
                    } else {
                        ADimension::Only(inputs@[0]@.shape.dims.len() as usize)
                    },
                ]);
                assert(facts_of(facts@) =~= seq![facts@[0]@]);
                Ok(facts)
            },
        }
    }

    /// Infers properties about the input tensors from the output tensors.
    fn infer_backward(&self, outputs: Vec<&ATensor>) -> (r: Result<Vec<ATensor>, Error>) {
        if outputs.len() != 1 {
            return Err(Error::InvalidGraph);
        }
        let ghost given = facts_of_refs(outputs@);
        assert(given[0] == outputs@[0]@);
        let shape = match &outputs[0].value {
            // If we know the output value, we can infer the shape of the input.
            AValue::Only(v) => {
                if v.datatype() != DataType::DT_INT32 {
                    return Err(Error::TypeMismatch);
                }
                if v.rank() != 1 || any_negative(v.values()) {
                    return Err(Error::ShapeMismatch);
                }
                let values = v.values();
                proof {
                    use_type_invariant(v);
                }
                let mut dims: Vec<ADimension> = Vec::new();
                let mut i: usize = 0;
                while i < values.len()
                    invariant
                        i <= values.len(),
                        !has_negative(values@),
                        v@.datatype == DataType::DT_INT32,
                        v@.valid(),
                        values@ == v@.data,
                        dims@.len() == i,
                        forall|j: int|
                            0 <= j < i ==> #[trigger] dims@[j] == ADimension::Only(
                                values@[j] as usize,
                            ),
                    decreases values.len() - i,
                {
                    assert(values@[i as int] >= 0);
                    assert(v@.datatype.holds(v@.data[i as int]));
                    dims.push(ADimension::Only(values[i] as usize));
                    i += 1;
                }
                assert(dims@ =~= closed_shape(sizes_of_dims(v@.data)).dims);
                AShape::Closed(dims)
            },
            // Otherwise, we can only infer the rank of the input.
            AValue::Any => {
                let sizes = match outputs[0].shape.concretize() {
                    Ok(sizes) => sizes,
                    Err(e) => {
                        return Err(e);
                    },
                };
                if sizes.len() != 1 {
                    return Err(Error::ShapeMismatch);
                }
                let rank = sizes[0];
                let mut dims: Vec<ADimension> = Vec::new();
                let mut i: usize = 0;
                while i < rank
                    invariant
                        i <= rank,
                        dims@.len() == i,
                        forall|j: int| 0 <= j < i ==> #[trigger] dims@[j] == ADimension::Any,
                    decreases rank - i,
                {
                    dims.push(ADimension::Any);
                    i += 1;
                }
                assert(dims@ =~= unknown_dims(rank).dims);
                AShape::Closed(dims)
            },
        };
        let mut facts: Vec<ATensor> = Vec::new();
        facts.push(fact(AType::Any, shape));
        assert(facts_of(facts@) =~= seq![facts@[0]@]);
        Ok(facts)
    }
}

/// The tensor that `Shape` makes of a tensor holds the dimensions of the
/// tensor, one integer for each and in their order.
pub proof fn lemma_shape_value(x: MatrixView)
    requires
        shape_spec(seq![x]) is Ok,
    ensures
        ({
            let outputs = shape_spec(seq![x])->Ok_0;
            &&& outputs.len() == 1
            &&& outputs[0].data.len() == x.shape.len()
            &&& forall|i: int| 0 <= i < x.shape.len() ==> #[trigger] outputs[0].data[i] == x.shape[i]
            &&& sizes_of_dims(outputs[0].data) == x.shape
        }),
{
    let outputs = shape_spec(seq![x])->Ok_0;
    assert forall|i: int| 0 <= i < x.shape.len() implies #[trigger] outputs[0].data[i]
        == x.shape[i] by {
        assert(x.shape[i] <= i32::MAX);
    }
    assert(sizes_of_dims(outputs[0].data) =~= x.shape);
}

} // verus!
