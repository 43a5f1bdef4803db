//! `Reshape`: the same elements under another shape.

use vstd::prelude::*;
use crate::analyser::types::{AShape, ATensor, ATensorView, closed_shape};
use crate::errors::Error;
use crate::matrix::{MatrixView, addressable, shape_size, size_of_shape};
use crate::ops::{
    Input, Op, facts_of, facts_of_refs, views_of, all_known, concrete_inference, concrete_outputs, fact, known_inputs, known_values,
    single, typed_backward, typed_backward_spec,
};
use crate::tfpb::node_def::NodeDef;
use crate::ops::array::shape::{shape_fits, shape_tensor};
use crate::tfpb::types::DataType;

verus! {

/// How many entries of `dims` are `-1`, the sign of a dimension that is to
/// be computed from the others.
pub open spec fn wild_count(dims: Seq<i64>) -> nat
    decreases dims.len(),
{
    if dims.len() == 0 {
        0
    } else {
        wild_count(dims.drop_last()) + if dims.last() == -1 {
            1nat
        } else {
            0nat
        }
    }
}

/// The product of the entries of `dims` other than `-1`.
pub open spec fn known_product(dims: Seq<i64>) -> int
    decreases dims.len(),
{
    if dims.len() == 0 {
        1
    } else if dims.last() == -1 {
        known_product(dims.drop_last())
    } else {
        known_product(dims.drop_last()) * dims.last()
    }
}

/// Whether every entry of `dims` is a size or `-1`.
pub open spec fn all_sizes_or_wild(dims: Seq<i64>) -> bool {
    forall|i: int| 0 <= i < dims.len() ==> -1 <= #[trigger] dims[i] <= usize::MAX
}

/// Whether `dims` holds a zero.
pub open spec fn has_zero(dims: Seq<i64>) -> bool {
    exists|i: int| 0 <= i < dims.len() && #[trigger] dims[i] == 0
}

/// The requested dimensions with `-1` replaced by `inferred`.
pub open spec fn filled_dims(dims: Seq<i64>, inferred: int) -> Seq<usize> {
    Seq::new(
        dims.len(),
        |i: int|
            if dims[i] == -1 {
                inferred as usize
            } else {
                dims[i] as usize
            },
    )
}

/// The dimensions that a reshape to `dims` asks for, given the number of
/// elements.  More than one `-1` is an `UnsupportedAttribute`.  A single
/// `-1` stands for the number of elements divided by the product of the
/// other dimensions; it cannot be computed where one of them is zero, which
/// is a `ShapeMismatch`, as is any other negative entry.
pub open spec fn resolve_dims(count: nat, dims: Seq<i64>) -> Result<Seq<usize>, Error> {
    if wild_count(dims) > 1 {
        Err(Error::UnsupportedAttribute)
    } else if !all_sizes_or_wild(dims) {
        Err(Error::ShapeMismatch)
    } else if wild_count(dims) == 1 && has_zero(dims) {
        Err(Error::ShapeMismatch)
    } else {
        Ok(filled_dims(dims, count as int / known_product(dims)))
    }
}

/// What `Reshape` computes: the first input under the shape that the second
/// input asks for.  The second input is a tensor of 32-bit integers; the
/// shape it asks for must have as many elements as the first input.
pub open spec fn reshape_spec(inputs: Seq<MatrixView>) -> Result<Seq<MatrixView>, Error> {
    if inputs.len() != 2 {
        Err(Error::InvalidGraph)
    } else if inputs[1].datatype != DataType::DT_INT32 {
        Err(Error::TypeMismatch)
    } else {
        match resolve_dims(inputs[0].data.len(), inputs[1].data) {
            Err(e) => Err(e),
            Ok(target) => if addressable(target) && shape_size(target) == inputs[0].data.len() {
                Ok(seq![MatrixView { shape: target, ..inputs[0] }])
            } else {
                Err(Error::ShapeMismatch)
            },
        }
    }
}

/// The product of entries that are all at least one is at least one, and it
/// does not shrink when a further entry is multiplied in.
proof fn lemma_known_product_grows(dims: Seq<i64>)
    requires
        all_sizes_or_wild(dims),
        !has_zero(dims),
    ensures
        known_product(dims) >= 1,
        dims.len() > 0 ==> known_product(dims) >= known_product(dims.drop_last()),
    decreases dims.len(),
{
    if dims.len() > 0 {
        let rest = dims.drop_last();
        assert forall|i: int| 0 <= i < rest.len() implies -1 <= #[trigger] rest[i] <= usize::MAX by {
            assert(rest[i] == dims[i]);
        }
        assert(!has_zero(rest)) by {
            if has_zero(rest) {
                let i = choose|i: int| 0 <= i < rest.len() && #[trigger] rest[i] == 0;
                assert(dims[i] == 0);
            }
        }
        lemma_known_product_grows(rest);
        let last = dims.last();
        assert(dims[dims.len() - 1] == last);
        if last != -1 {
            assert(last >= 1);
            assert(known_product(rest) * last >= known_product(rest)) by (nonlinear_arith)
                requires
                    known_product(rest) >= 1,
                    last >= 1,
            ;
        }
    }
}

/// The operator `Reshape`.
#[derive(Debug)]
pub struct Reshape {}

impl Reshape {
    /// Computes the dimensions that a reshape to `dims` asks for.  This is
    /// needed because `dims` might contain a `-1`, in which case the
    /// dimension at that place is computed from `input_length`, the number
    /// of elements of the tensor to reshape.
    pub fn true_dims(dims: &[i64], input_length: usize) -> (r: Result<Vec<usize>, Error>)
        ensures
            match r {
                Ok(target) => resolve_dims(input_length as nat, dims@) == Ok::<Seq<usize>, Error>(
                    target@,
                ),
                Err(e) => resolve_dims(input_length as nat, dims@) == Err::<Seq<usize>, Error>(e),
            },
    {
        let n = dims.len();
        // A first pass counts the `-1` entries, looks for entries that are no
        // sizes, and looks for a zero.
        let mut wild: usize = 0;
        let mut sizes = true;
        let mut zero = false;
        let mut i: usize = 0;
        while i < n
            invariant
                i <= n,
                n == dims@.len(),
                wild == wild_count(dims@.take(i as int)),
                wild <= i,
                sizes == all_sizes_or_wild(dims@.take(i as int)),
                zero == has_zero(dims@.take(i as int)),
            decreases n - i,
        {
            let d = dims[i];
            proof {
                let now = dims@.take(i as int);
                let next = dims@.take(i + 1);
                assert(next.drop_last() == now);
                assert(next.last() == d);
                if all_sizes_or_wild(now) && -1 <= d <= usize::MAX {
                    assert forall|j: int| 0 <= j < next.len() implies -1 <= #[trigger] next[j]
                        <= usize::MAX by {
                        if j < i {
                            assert(next[j] == now[j]);
                        }
                    }
                }
                if all_sizes_or_wild(next) {
                    assert forall|j: int| 0 <= j < now.len() implies -1 <= #[trigger] now[j]
                        <= usize::MAX by {
                        assert(now[j] == next[j]);
                    }
                    assert(next[i as int] == d);
                }
                if has_zero(now) {
                    let j = choose|j: int| 0 <= j < now.len() && #[trigger] now[j] == 0;
                    assert(next[j] == 0);
                }
                if d == 0 {
                    assert(next[i as int] == 0);
                }
                if has_zero(next) && d != 0 {
                    let j = choose|j: int| 0 <= j < next.len() && #[trigger] next[j] == 0;
                    assert(now[j] == 0);
                }
            }
            if d == -1 {
                wild += 1;
            }
            if d < -1 || (d >= 0 && d as u64 > usize::MAX as u64) {
                sizes = false;
            }
            if d == 0 {
                zero = true;
            }
            i += 1;
        }
        assert(dims@.take(n as int) == dims@);
        if wild > 1 {
            return Err(Error::UnsupportedAttribute);
        }
        if !sizes {
            return Err(Error::ShapeMismatch);
        }
        if wild == 1 && zero {
            return Err(Error::ShapeMismatch);
        }
        // A second pass multiplies the known dimensions, and stops counting
        // once their product is beyond the number of elements: the computed
        // dimension is zero then.
        let mut product: usize = 1;
        let mut beyond = input_length == 0;
        if wild == 1 {
            let mut k: usize = 0;
            assert(dims@.take(0).len() == 0);
            while k < n
                invariant
                    k <= n,
                    n == dims@.len(),
                    all_sizes_or_wild(dims@),
                    !has_zero(dims@),
                    wild == 1,
                    !beyond ==> product == known_product(dims@.take(k as int)) && product
                        <= input_length,
                    beyond ==> known_product(dims@.take(k as int)) > input_length,
                    product >= 1 || beyond,
                decreases n - k,
            {
                let d = dims[k];
                proof {
                    let now = dims@.take(k as int);
                    let next = dims@.take(k + 1);
                    assert(next.drop_last() == now);
                    assert(next.last() == d);
                    assert(dims@[k as int] == d);
                    assert forall|j: int| 0 <= j < next.len() implies -1 <= #[trigger] next[j]
                        <= usize::MAX by {
                        assert(next[j] == dims@[j]);
                    }
                    assert(!has_zero(next)) by {
                        if has_zero(next) {
                            let j = choose|j: int| 0 <= j < next.len() && #[trigger] next[j] == 0;
                            assert(dims@[j] == 0);
                        }
                    }
                    lemma_known_product_grows(next);
                }
                if d != -1 && !beyond {
                    let wide: u128 = product as u128;
                    let factor: u128 = d as u128;
                    assert(wide * factor <= 0xffff_ffff_ffff_ffff * 0xffff_ffff_ffff_ffff)
                        by (nonlinear_arith)
                        requires
                            0 <= wide <= 0xffff_ffff_ffff_ffff,
                            0 <= factor <= 0xffff_ffff_ffff_ffff,
                    ;
                    let next_product: u128 = wide * factor;
                    if next_product > input_length as u128 {
                        beyond = true;
                    } else {
                        product = next_product as usize;
                    }
                }
                k += 1;
            }
            assert(dims@.take(n as int) == dims@);
        }
        let inferred: usize = if wild == 1 && !beyond {
            input_length / product
        } else {
            0
        };
        proof {
            if wild == 1 && beyond {
                let kp = known_product(dims@);
                assert(input_length as int / kp == 0) by (nonlinear_arith)
                    requires
                        0 <= input_length < kp,
                ;
            }
        }
        let ghost wanted = input_length as int / known_product(dims@);
        let mut target: Vec<usize> = Vec::new();
        let mut j: usize = 0;
        while j < n
            invariant
                j <= n,
                n == dims@.len(),
                all_sizes_or_wild(dims@),
                wild == wild_count(dims@),
                wild <= 1,
                wild == 1 ==> inferred == wanted,
                target@.len() == j,
                forall|t: int| 0 <= t < j ==> #[trigger] target@[t] == filled_dims(dims@, wanted)[t],
            decreases n - j,
        {
            let d = dims[j];
            assert(-1 <= dims@[j as int] <= usize::MAX);
            if d == -1 {
                proof {
                    lemma_wild_present(dims@, j as int);
                }
                target.push(inferred);
            } else {
                target.push(d as usize);
            }
            j += 1;
        }
        assert(target@ =~= filled_dims(dims@, wanted));
        Ok(target)
    }
}

/// A list that holds `-1` at some place counts at least one `-1`.
pub proof fn lemma_wild_present(dims: Seq<i64>, at: int)
    requires
        0 <= at < dims.len(),
        dims[at] == -1,
    ensures
        wild_count(dims) >= 1,
    decreases dims.len(),
{
    if at < dims.len() - 1 {
        assert(dims.drop_last()[at] == -1);
        lemma_wild_present(dims.drop_last(), at);
    }
}

/// What `Reshape` infers of its output.  Where both inputs are known, the
/// output is known.  Else the requested dimensions must be known: with the
/// shape of the first input known as well the output shape is computed and
/// checked against it; without it the output shape is the requested one,
/// which must then hold no `-1`.
pub open spec fn reshape_forward_spec(inputs: Seq<ATensorView>) -> Result<Seq<ATensorView>, Error> {
    if inputs.len() != 2 {
        Err(Error::InvalidGraph)
    } else if all_known(inputs) {
        concrete_inference(reshape_spec(known_values(inputs)))
    } else if inputs[1].value is None {
        Err(Error::NotConcrete)
    } else {
        let dims = inputs[1].value.unwrap();
        if dims.datatype != DataType::DT_INT32 {
            Err(Error::TypeMismatch)
        } else if inputs[0].shape.is_concrete() {
            let count = shape_size(inputs[0].shape.sizes());
            if count > usize::MAX {
                Err(Error::ShapeMismatch)
            } else {
                match resolve_dims(count, dims.data) {
                    Err(e) => Err(e),
                    Ok(target) => if shape_size(target) == count {
                        Ok(
                            seq![
                                ATensorView {
                                    datatype: inputs[0].datatype,
                                    shape: closed_shape(target),
                                    value: None,
                                },
                            ],
                        )
                    } else {
                        Err(Error::ShapeMismatch)
                    },
                }
            }
        } else if wild_count(dims.data) == 0 {
            match resolve_dims(0, dims.data) {
                Err(e) => Err(e),
                Ok(target) => Ok(
                    seq![
                        ATensorView {
                            datatype: inputs[0].datatype,
                            shape: closed_shape(target),
                            value: None,
                        },
                    ],
                ),
            }
        } else {
            Err(Error::NotConcrete)
        }
    }
}

/// Whether `dims` holds a `-1`.
fn has_wild(dims: &[i64]) -> (r: bool)
    ensures
        r == (wild_count(dims@) > 0),
{
    let n = dims.len();
    let mut i: usize = 0;
    assert(dims@.take(0).len() == 0);
    while i < n
        invariant
            i <= n,
            n == dims@.len(),
            wild_count(dims@.take(i as int)) == 0,
        decreases n - i,
    {
        if dims[i] == -1 {
            proof {
                lemma_wild_present(dims@, i as int);
            }
            return true;
        }
        assert(dims@.take(i + 1).drop_last() == dims@.take(i as int));
        i += 1;
    }
    assert(dims@.take(n as int) == dims@);
    false
}

impl Reshape {
    /// Makes the operator of a node; it reads no attribute.
    pub fn build(_pb: &NodeDef) -> (r: Result<Reshape, Error>)
        ensures
            r is Ok,
    {
        Ok(Reshape {  })
    }
}

impl Op for Reshape {
    open spec fn eval_spec(&self, inputs: Seq<MatrixView>) -> Result<Seq<MatrixView>, Error> {
        reshape_spec(inputs)
    }

    open spec fn infer_forward_spec(&self, inputs: Seq<ATensorView>) -> Result<
        Seq<ATensorView>,
        Error,
    > {
        reshape_forward_spec(inputs)
    }

    open spec fn infer_backward_spec(&self, outputs: Seq<ATensorView>) -> Result<
        Seq<ATensorView>,
        Error,
    > {
        typed_backward_spec(outputs, true)
    }

    /// Evaluates the operation given the input tensors.
    fn eval(&self, inputs: Vec<Input>) -> (r: Result<Vec<Input>, Error>) {
        let mut inputs = inputs;
        if inputs.len() != 2 {
            return Err(Error::InvalidGraph);
        }
        let ghost given = views_of(inputs@);
        let dims = inputs.pop().unwrap();
        let data = inputs.pop().unwrap();
        assert(dims@ == given[1] && data@ == given[0]);
        let dims = dims.as_matrix();
        if dims.datatype() != DataType::DT_INT32 {
            return Err(Error::TypeMismatch);
        }
        let data = data.into_matrix();
        let target = match Reshape::true_dims(dims.values(), data.len()) {
            Ok(target) => target,
            Err(e) => {
                return Err(e);
            },
        };
        match data.into_shape(&target) {
            Ok(m) => Ok(single(m)),
            Err(e) => Err(e),
        }
    }

    /// Infers properties about the output tensors from the input tensors.
    fn infer_forward(&self, inputs: Vec<&ATensor>) -> (r: Result<Vec<ATensor>, Error>) {
        if inputs.len() != 2 {
            return Err(Error::InvalidGraph);
        }
        if let Some(values) = known_inputs(&inputs) {
            return match self.eval(values) {
                Ok(outputs) => Ok(concrete_outputs(outputs)),
                Err(e) => Err(e),
            };
        }
        let ghost facts = facts_of_refs(inputs@);
        assert(facts[0] == inputs@[0]@ && facts[1] == inputs@[1]@);
        let dims = match inputs[1].value.concretize() {
            Ok(dims) => dims,
            Err(e) => {
                return Err(e);
            },
        };
        if dims.datatype() != DataType::DT_INT32 {
            return Err(Error::TypeMismatch);
        }
        let target = match inputs[0].shape.concretize() {
            Ok(sizes) => {
                let count = match size_of_shape(sizes.as_slice()) {
                    Some(count) => count,
                    None => {
                        return Err(Error::ShapeMismatch);
                    },
                };
                let target = match Reshape::true_dims(dims.values(), count) {
                    Ok(target) => target,
                    Err(e) => {
                        return Err(e);
                    },
                };
                match size_of_shape(target.as_slice()) {
                    Some(size) => {
                        if size != count {
                            return Err(Error::ShapeMismatch);
                        }
                    },
                    None => {
                        return Err(Error::ShapeMismatch);
                    },
                }
                target
            },
            Err(_) => {
                if has_wild(dims.values()) {
                    return Err(Error::NotConcrete);
                }
                match Reshape::true_dims(dims.values(), 0) {
                    Ok(target) => target,
                    Err(e) => {
                        return Err(e);
                    },
                }
            },
        };
        let mut facts: Vec<ATensor> = Vec::new();
        facts.push(fact(inputs[0].datatype, AShape::from_sizes(target.as_slice())));
        assert(facts_of(facts@) =~= seq![facts@[0]@]);
        Ok(facts)
    }

    /// Infers properties about the input tensors from the output tensors.
    fn infer_backward(&self, outputs: Vec<&ATensor>) -> (r: Result<Vec<ATensor>, Error>) {
        typed_backward(&outputs, true)
    }
}

/// A list without negative entries holds no `-1`.
pub proof fn lemma_no_wild(dims: Seq<i64>)
    requires
        forall|i: int| 0 <= i < dims.len() ==> #[trigger] dims[i] >= 0,
    ensures
        wild_count(dims) == 0,
    decreases dims.len(),
{
    if dims.len() > 0 {
        assert forall|i: int| 0 <= i < dims.drop_last().len() implies #[trigger] dims.drop_last()[i]
            >= 0 by {
            assert(dims.drop_last()[i] == dims[i]);
        }
        lemma_no_wild(dims.drop_last());
        assert(dims[dims.len() - 1] >= 0);
    }
}

/// To reshape a tensor to its own shape gives the tensor: with the tensor
/// that `Shape` makes of it as the second input, `Reshape` returns the first.
pub proof fn lemma_reshape_to_own_shape(x: MatrixView)
    requires
        x.valid(),
        shape_fits(x.shape),
    ensures
        reshape_spec(seq![x, shape_tensor(x.shape)]) == Ok::<Seq<MatrixView>, Error>(seq![x]),
{
    let dims = shape_tensor(x.shape).data;
    assert forall|i: int| 0 <= i < dims.len() implies 0 <= #[trigger] dims[i] <= usize::MAX by {
        assert(x.shape[i] <= i32::MAX);
    }
    lemma_no_wild(dims);
    let target = filled_dims(dims, x.data.len() as int / known_product(dims));
    assert(target =~= x.shape) by {
        assert forall|i: int| 0 <= i < x.shape.len() implies target[i] == x.shape[i] by {
            assert(x.shape[i] <= i32::MAX);
            assert(dims[i] >= 0);
        }
    }
}

/// A reshape that asks for more than one dimension to be computed is an
/// `UnsupportedAttribute`.
pub proof fn lemma_reshape_rejects_wilds(x: MatrixView, dims: MatrixView)
    requires
        dims.datatype == DataType::DT_INT32,
        wild_count(dims.data) > 1,
    ensures
        reshape_spec(seq![x, dims]) == Err::<Seq<MatrixView>, Error>(Error::UnsupportedAttribute),
{
}

/// A reshape to dimensions whose product is not the number of elements is a
/// `ShapeMismatch`.
pub proof fn lemma_reshape_rejects_mismatch(x: MatrixView, dims: MatrixView)
    requires
        dims.datatype == DataType::DT_INT32,
        wild_count(dims.data) <= 1,
        resolve_dims(x.data.len(), dims.data) matches Ok(target) ==> shape_size(target)
            != x.data.len(),
    ensures
        reshape_spec(seq![x, dims]) == Err::<Seq<MatrixView>, Error>(Error::ShapeMismatch),
{
}

} // verus!
