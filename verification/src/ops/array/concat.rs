//! `ConcatV2`: tensors laid one after the other along an axis.

use vstd::prelude::*;
use vstd::slice::slice_to_vec;
use crate::analyser::types::{AShape, AShapeView, ATensor, ATensorView, AType};
use crate::errors::Error;
use crate::matrix::{Matrix, MatrixView, addressable, all_hold, is_addressable, shape_size};
use crate::ops::{
    Input, Op, all_known, concrete_inference, concrete_outputs, fact, facts_of, facts_of_refs,
    known_inputs, known_values, single, views_of,
};
use crate::tfpb::node_def::{NodeDef, attr_int_of};
use crate::tfpb::types::DataType;

verus! {

/// The elements, in row-major order, of the array that `ndarray::concatenate`
/// makes along `axis` from arrays of the given shapes whose elements, in
/// row-major order, are `datas`.
pub uninterp spec fn concatenated(axis: usize, shapes: Seq<Seq<usize>>, datas: Seq<Seq<i64>>) -> Seq<i64>;

/// The shapes that a list of vectors holds.
pub open spec fn shapes_of(shapes: Seq<Vec<usize>>) -> Seq<Seq<usize>> {
    Seq::new(shapes.len(), |k: int| shapes[k]@)
}

/// The element lists that a list of vectors holds.
pub open spec fn datas_of(datas: Seq<Vec<i64>>) -> Seq<Seq<i64>> {
    Seq::new(datas.len(), |k: int| datas[k]@)
}

/// The sum of the sizes that the shapes have along `axis`.
pub open spec fn axis_total(axis: int, shapes: Seq<Seq<usize>>) -> nat
    decreases shapes.len(),
{
    if shapes.len() == 0 {
        0
    } else {
        axis_total(axis, shapes.drop_last()) + shapes.last()[axis] as nat
    }
}

/// Whether two shapes have the same rank and the same sizes apart from the
/// size along `axis`.
pub open spec fn agree_apart(axis: int, a: Seq<usize>, b: Seq<usize>) -> bool {
    &&& a.len() == b.len()
    &&& forall|j: int| 0 <= j < a.len() && j != axis ==> a[j] == #[trigger] b[j]
}

/// Whether arrays of these shapes can be concatenated along `axis`: there is
/// at least one, `axis` is one of its axes, and all agree with it apart from
/// the size along `axis`.
pub open spec fn compatible(axis: int, shapes: Seq<Seq<usize>>) -> bool {
    &&& shapes.len() > 0
    &&& 0 <= axis < shapes[0].len()
    &&& forall|k: int| 0 <= k < shapes.len() ==> agree_apart(axis, shapes[0], #[trigger] shapes[k])
}

/// The shape of the concatenation: that of the first array, with the sum of
/// all sizes along `axis` in place of its own.
pub open spec fn concat_shape(axis: int, shapes: Seq<Seq<usize>>) -> Seq<usize> {
    shapes[0].update(axis, axis_total(axis, shapes) as usize)
}

/// Whether `v` is an element of one of the lists.
pub open spec fn comes_from(v: i64, datas: Seq<Seq<i64>>) -> bool {
    exists|k: int, i: int| 0 <= k < datas.len() && 0 <= i < datas[k].len() && #[trigger] datas[k][i] == v
}

/// The shapes of the first `n` tensors of a list.
pub open spec fn leading_shapes(inputs: Seq<MatrixView>, n: int) -> Seq<Seq<usize>> {
    Seq::new(n as nat, |k: int| inputs[k].shape)
}

/// The elements of the first `n` tensors of a list.
pub open spec fn leading_datas(inputs: Seq<MatrixView>, n: int) -> Seq<Seq<i64>> {
    Seq::new(n as nat, |k: int| inputs[k].data)
}

/// Whether the first `n` tensors of a list have the same element type.
pub open spec fn same_types(inputs: Seq<MatrixView>, n: int) -> bool {
    forall|k: int| 0 <= k < n ==> (#[trigger] inputs[k]).datatype == inputs[0].datatype
}

/// The concatenation along `axis` of arrays of one element type, given by
/// their shapes and elements.  The shapes must agree apart from the size
/// along the axis, and the concatenation must be a shape that can be
/// addressed; else it is a `ShapeMismatch`.
pub open spec fn joined(
    datatype: DataType,
    axis: usize,
    shapes: Seq<Seq<usize>>,
    datas: Seq<Seq<i64>>,
) -> Result<MatrixView, Error> {
    if !compatible(axis as int, shapes) || axis_total(axis as int, shapes) > usize::MAX
        || !addressable(concat_shape(axis as int, shapes)) {
        Err(Error::ShapeMismatch)
    } else {
        Ok(
            MatrixView {
                datatype,
                shape: concat_shape(axis as int, shapes),
                data: concatenated(axis, shapes, datas),
            },
        )
    }
}

/// What `ConcatV2` computes from `n` tensors and an axis.  The last input
/// holds the axis as a 32-bit integer.  The tensors have one element type
/// and shapes that agree apart from the size along the axis; the output has
/// the sum of these sizes along the axis.
pub open spec fn concat_spec(n: usize, inputs: Seq<MatrixView>) -> Result<Seq<MatrixView>, Error> {
    if inputs.len() != n + 1 {
        Err(Error::InvalidGraph)
    } else if inputs[n as int].datatype != DataType::DT_INT32 {
        Err(Error::TypeMismatch)
    } else if inputs[n as int].data.len() == 0 {
        Err(Error::ShapeMismatch)
    } else if !same_types(inputs, n as int) {
        Err(Error::TypeMismatch)
    } else if inputs[n as int].data[0] < 0 {
        Err(Error::UnsupportedAttribute)
    } else {
        match joined(
            inputs[0].datatype,
            inputs[n as int].data[0] as usize,
            leading_shapes(inputs, n as int),
            leading_datas(inputs, n as int),
        ) {
            Ok(m) => Ok(seq![m]),
            Err(e) => Err(e),
        }
    }
}

/// What `ConcatV2` infers of its output: the output itself where all inputs
/// are known, and nothing else.
pub open spec fn concat_forward_spec(n: usize, inputs: Seq<ATensorView>) -> Result<
    Seq<ATensorView>,
    Error,
> {
    if inputs.len() != n + 1 {
        Err(Error::InvalidGraph)
    } else if all_known(inputs) {
        concrete_inference(concat_spec(n, known_values(inputs)))
    } else {
        Ok(seq![ATensorView::any()])
    }
}

/// What `ConcatV2` infers of its inputs: that the last one, the axis, holds
/// 32-bit integers.
pub open spec fn concat_backward_spec(n: usize, outputs: Seq<ATensorView>) -> Result<
    Seq<ATensorView>,
    Error,
> {
    if outputs.len() != 1 {
        Err(Error::InvalidGraph)
    } else {
        Ok(
            Seq::new(
                (n + 1) as nat,
                |i: int|
                    if i < n {
                        ATensorView::any()
                    } else {
                        ATensorView {
                            datatype: AType::Only(DataType::DT_INT32),
                            shape: AShapeView::any(),
                            value: None,
                        }
                    },
            ),
        )
    }
}

/// Calls `ndarray::concatenate` along `axis` on arrays made from `shapes`
/// and `datas` in row-major order, and hands back the elements of the
/// result in row-major order.  The contract names this list; it claims that
/// the list has as many elements as the shape of the concatenation, and that
/// each of them is an element of one of the arrays.  The caller sees to it
/// that the arrays exist and can be concatenated, outside of which the
/// outside function fails.
#[verifier::external_body]
fn array_concatenate(axis: usize, shapes: &Vec<Vec<usize>>, datas: &Vec<Vec<i64>>) -> (r: Vec<i64>)
    requires
        shapes@.len() == datas@.len(),
        compatible(axis as int, shapes_of(shapes@)),
        forall|k: int|
            0 <= k < shapes@.len() ==> addressable(#[trigger] shapes@[k]@) && shape_size(
                shapes@[k]@,
            ) == datas@[k]@.len(),
        axis_total(axis as int, shapes_of(shapes@)) <= usize::MAX,
        addressable(concat_shape(axis as int, shapes_of(shapes@))),
    ensures
        r@ == concatenated(axis, shapes_of(shapes@), datas_of(datas@)),
        r@.len() == shape_size(concat_shape(axis as int, shapes_of(shapes@))),
        forall|j: int| 0 <= j < r@.len() ==> comes_from(#[trigger] r@[j], datas_of(datas@)),
{
    let arrays: Vec<ndarray::ArrayD<i64>> = shapes.iter().zip(datas.iter()).map(
        |(s, d)| ndarray::ArrayD::from_shape_vec(ndarray::IxDyn(s), d.clone()).unwrap(),
    ).collect();
    let views: Vec<ndarray::ArrayViewD<i64>> = arrays.iter().map(|a| a.view()).collect();
    ndarray::concatenate(ndarray::Axis(axis), &views).unwrap().iter().cloned().collect()
}

/// The operator `ConcatV2`, with the number of tensors that it concatenates.
#[derive(Debug)]
pub struct ConcatV2 {
    pub n: usize,
}

impl ConcatV2 {
    /// Makes the operator of a node from the node's integer attribute `N`.
    /// Fails with `InvalidGraph` where the node has no such count.
    pub fn build(pb: &NodeDef) -> (r: Result<ConcatV2, Error>)
        ensures
            match attr_int_of(pb.attr@, "N"@) {
                Ok(n) => r == Ok::<ConcatV2, Error>(ConcatV2 { n }),
                Err(e) => r == Err::<ConcatV2, Error>(e),
            },
    {
        match pb.get_attr_int("N") {
            Ok(n) => Ok(ConcatV2 { n }),
            Err(e) => Err(e),
        }
    }

    /// Whether two shapes have the same rank and the same sizes apart from
    /// the size along `axis`.
    fn agrees_apart(axis: usize, a: &[usize], b: &[usize]) -> (r: bool)
        ensures
            r == agree_apart(axis as int, a@, b@),
    {
        if a.len() != b.len() {
            return false;
        }
        let n = a.len();
        let mut j: usize = 0;
        while j < n
            invariant
                j <= n,
                n == a@.len(),
                n == b@.len(),
                forall|t: int| 0 <= t < j && t != axis ==> a@[t] == #[trigger] b@[t],
            decreases n - j,
        {
            if j != axis && a[j] != b[j] {
                return false;
            }
            j += 1;
        }
        true
    }

    /// The tensor that the operator makes from the elements that the
    /// concatenation gave.
    pub fn assemble(datatype: DataType, shape: Vec<usize>, data: Vec<i64>) -> (r: Result<
        Matrix,
        Error,
    >)
        ensures
            match r {
                Ok(m) => m@ == (MatrixView { datatype, shape: shape@, data: data@ }),
                Err(e) => e == Error::ShapeMismatch || e == Error::TypeMismatch,
            },
            r.is_ok() <==> (MatrixView { datatype, shape: shape@, data: data@ }).valid(),
    {
        Matrix::new(datatype, shape, data)
    }

    /// Concatenates along `axis` arrays of one element type, given by their
    /// shapes and their elements in row-major order.
    pub fn join(datatype: DataType, axis: usize, shapes: &Vec<Vec<usize>>, datas: &Vec<Vec<i64>>) -> (r:
        Result<Matrix, Error>)
        requires
            shapes@.len() == datas@.len(),
            forall|k: int|
                0 <= k < shapes@.len() ==> (MatrixView {
                    datatype,
                    shape: #[trigger] shapes@[k]@,
                    data: datas@[k]@,
                }).valid(),
        ensures
            match r {
                Ok(m) => joined(datatype, axis, shapes_of(shapes@), datas_of(datas@)) == Ok::<
                    MatrixView,
                    Error,
                >(m@),
                Err(e) => joined(datatype, axis, shapes_of(shapes@), datas_of(datas@)) == Err::<
                    MatrixView,
                    Error,
                >(e),
            },
    {
        let n = shapes.len();
        let ghost all = shapes_of(shapes@);
        if n == 0 || axis >= shapes[0].len() {
            return Err(Error::ShapeMismatch);
        }
        // All shapes agree with the first apart from the axis, and the sizes
        // along the axis add up.
        let mut total: usize = 0;
        let mut t: usize = 0;
        assert(all.take(0).len() == 0);
        while t < n
            invariant
                t <= n,
                n == shapes@.len(),
                n > 0,
                all == shapes_of(shapes@),
                axis < shapes@[0]@.len(),
                forall|q: int| 0 <= q < t ==> agree_apart(axis as int, all[0], #[trigger] all[q]),
                total == axis_total(axis as int, all.take(t as int)),
            decreases n - t,
        {
            if !Self::agrees_apart(axis, shapes[0].as_slice(), shapes[t].as_slice()) {
                assert(!agree_apart(axis as int, all[0], all[t as int]));
                assert(!compatible(axis as int, all));
                return Err(Error::ShapeMismatch);
            }
            proof {
                assert(all.take(t + 1).drop_last() == all.take(t as int));
                assert(all.take(t + 1).last() == all[t as int]);
            }
            let size = shapes[t][axis];
            if size > usize::MAX - total {
                proof {
                    lemma_axis_total_grows(axis as int, all, t + 1);
                    assert(axis_total(axis as int, all) > usize::MAX);
                }
                return Err(Error::ShapeMismatch);
            }
            total += size;
            t += 1;
        }
        assert(all.take(n as int) == all);
        assert(compatible(axis as int, all));
        let mut target = shapes[0].clone();
        target.set(axis, total);
        assert(target@ == concat_shape(axis as int, all));
        if !is_addressable(target.as_slice()) {
            return Err(Error::ShapeMismatch);
        }
        proof {
            assert forall|k: int| 0 <= k < shapes@.len() implies addressable(#[trigger] shapes@[k]@)
                && shape_size(shapes@[k]@) == datas@[k]@.len() by {
                assert((MatrixView { datatype, shape: shapes@[k]@, data: datas@[k]@ }).valid());
            }
        }
        let data = array_concatenate(axis, shapes, datas);
        proof {
            assert forall|j: int| 0 <= j < data@.len() implies datatype.holds(#[trigger] data@[j]) by {
                assert(comes_from(data@[j], datas_of(datas@)));
                let (q, i) = choose|q: int, i: int|
                    0 <= q < datas_of(datas@).len() && 0 <= i < datas_of(datas@)[q].len()
                        && #[trigger] datas_of(datas@)[q][i] == data@[j];
                assert((MatrixView { datatype, shape: shapes@[q]@, data: datas@[q]@ }).valid());
                assert(datatype.holds(datas@[q]@[i]));
            }
            assert(all_hold(datatype, data@));
        }
        ConcatV2::assemble(datatype, target, data)
    }
}

impl Op for ConcatV2 {
    open spec fn eval_spec(&self, inputs: Seq<MatrixView>) -> Result<Seq<MatrixView>, Error> {
        concat_spec(self.n, inputs)
    }

    open spec fn infer_forward_spec(&self, inputs: Seq<ATensorView>) -> Result<
        Seq<ATensorView>,
        Error,
    > {
        concat_forward_spec(self.n, inputs)
    }

    open spec fn infer_backward_spec(&self, outputs: Seq<ATensorView>) -> Result<
        Seq<ATensorView>,
        Error,
    > {
        concat_backward_spec(self.n, outputs)
    }

    /// Evaluates the operation given the input tensors.
    fn eval(&self, inputs: Vec<Input>) -> (r: Result<Vec<Input>, Error>) {
        let n = self.n;
        if inputs.len() == 0 || inputs.len() - 1 != n {
            return Err(Error::InvalidGraph);
        }
        let ghost given = views_of(inputs@);
        let last = inputs[n].as_matrix();
        assert(last@ == given[n as int]);
        if last.datatype() != DataType::DT_INT32 {
            return Err(Error::TypeMismatch);
        }
        if last.len() == 0 {
            return Err(Error::ShapeMismatch);
        }
        // The tensors to concatenate, as shapes and element lists.
        let mut shapes: Vec<Vec<usize>> = Vec::new();
        let mut datas: Vec<Vec<i64>> = Vec::new();
        let mut k: usize = 0;
        while k < n
            invariant
                k <= n,
                n == self.n,
                n + 1 == inputs@.len(),
                given == views_of(inputs@),
                given[n as int].datatype == DataType::DT_INT32,
                given[n as int].data.len() != 0,
                shapes@.len() == k,
                datas@.len() == k,
                forall|t: int| 0 <= t < k ==> (#[trigger] given[t]).datatype == given[0].datatype,
                forall|t: int| 0 <= t < k ==> #[trigger] shapes@[t]@ == given[t].shape,
                forall|t: int| 0 <= t < k ==> #[trigger] datas@[t]@ == given[t].data,
                forall|t: int| 0 <= t < k ==> (#[trigger] given[t]).valid(),
            decreases n - k,
        {
            let m = inputs[k].as_matrix();
            proof {
                use_type_invariant(m);
                assert(m@ == given[k as int]);
                assert(inputs@[0]@ == given[0]);
            }
            if m.datatype() != inputs[0].as_matrix().datatype() {
                assert(!same_types(given, n as int));
                return Err(Error::TypeMismatch);
            }
            shapes.push(slice_to_vec(m.shape()));
            datas.push(slice_to_vec(m.values()));
            k += 1;
        }
        assert(same_types(given, n as int));
        assert(shapes_of(shapes@) =~= leading_shapes(given, n as int));
        assert(datas_of(datas@) =~= leading_datas(given, n as int));
        let wanted = last.values()[0];
        if wanted < 0 {
            return Err(Error::UnsupportedAttribute);
        }
        proof {
            use_type_invariant(last);
            assert(last@.datatype.holds(last@.data[0]));
        }
        let axis = wanted as usize;
        let datatype = if n > 0 {
            inputs[0].as_matrix().datatype()
        } else {
            last.datatype()
        };
        proof {
            if n > 0 {
                assert(inputs@[0]@ == given[0]);
            }
            assert forall|k: int| 0 <= k < shapes@.len() implies (MatrixView {
                datatype,
                shape: #[trigger] shapes@[k]@,
                data: datas@[k]@,
            }).valid() by {
                assert(given[k].valid());
                assert(given[k].datatype == given[0].datatype);
            }
        }
        match ConcatV2::join(datatype, axis, &shapes, &datas) {
            Ok(m) => {
                assert(n > 0);
                Ok(single(m))
            },
            Err(e) => Err(e),
        }
    }

    /// Infers properties about the output tensors from the input tensors.
    fn infer_forward(&self, inputs: Vec<&ATensor>) -> (r: Result<Vec<ATensor>, Error>) {
        if inputs.len() == 0 || inputs.len() - 1 != self.n {
            return Err(Error::InvalidGraph);
        }
        if let Some(values) = known_inputs(&inputs) {
            return match self.eval(values) {
                Ok(outputs) => Ok(concrete_outputs(outputs)),
                Err(e) => Err(e),
            };
        }
        let mut facts: Vec<ATensor> = Vec::new();
        facts.push(fact(AType::Any, AShape::any()));
        assert(facts_of(facts@) =~= seq![ATensorView::any()]);
        Ok(facts)
    }

    /// Infers properties about the input tensors from the output tensors.
    fn infer_backward(&self, outputs: Vec<&ATensor>) -> (r: Result<Vec<ATensor>, Error>) {
        if outputs.len() != 1 {
            return Err(Error::InvalidGraph);
        }
        let n = self.n;
        let mut facts: Vec<ATensor> = Vec::new();
        let mut i: usize = 0;
        while i < n
            invariant
                i <= n,
                facts@.len() == i,
                forall|j: int| 0 <= j < i ==> (#[trigger] facts@[j])@ == ATensorView::any(),
            decreases n - i,
        {
            facts.push(fact(AType::Any, AShape::any()));
            i += 1;
        }
        facts.push(fact(AType::Only(DataType::DT_INT32), AShape::any()));
        assert(facts_of(facts@) =~= concat_backward_spec(n, facts_of_refs(outputs@))->Ok_0);
        Ok(facts)
    }
}

/// The sum of the sizes along an axis does not shrink when more shapes are
/// added.
pub proof fn lemma_axis_total_grows(axis: int, shapes: Seq<Seq<usize>>, k: int)
    requires
        0 <= k <= shapes.len(),
    ensures
        axis_total(axis, shapes.take(k)) <= axis_total(axis, shapes),
    decreases shapes.len() - k,
{
    if k == shapes.len() {
        assert(shapes.take(k) == shapes);
    } else {
        lemma_axis_total_grows(axis, shapes, k + 1);
        assert(shapes.take(k + 1).drop_last() == shapes.take(k));
    }
}

} // verus!
