//! Arithmetic on tensors of integers, element by element, with broadcasting.
//!
//! Two shapes are broadcast by aligning them at their last axes.  Where one
//! tensor has no axis, or an axis of size one, its elements are repeated
//! along the axis of the other.

use vstd::prelude::*;
use vstd::slice::slice_to_vec;
use crate::analyser::types::{AShape, AShapeView, ATensor, ATensorView, closed_shape};
use crate::errors::Error;
use crate::matrix::{
    Matrix, MatrixView, addressable, all_hold, is_addressable, lemma_size_grows,
    lemma_zero_dimension, shape_size, size_of_shape,
};
use crate::ops::nn::{lemma_group_of, lemma_place_in};
use crate::ops::{
    Input, Op, OpKind, OpRegister, all_known, concrete_inference, concrete_outputs, fact,
    facts_of, facts_of_refs, known_inputs, known_values, single, views_of,
};
use crate::tfpb::node_def::NodeDef;
use crate::tfpb::types::DataType;

verus! {

/// Enters the operators of this file into a register.
pub fn register_all_ops(reg: &mut OpRegister)
    ensures
        final(reg)@ == old(reg)@.push(("Add"@, OpKind::Add)).push(("Mul"@, OpKind::Mul)).push(
            ("Sub"@, OpKind::Sub),
        ),
{
    reg.insert("Add", OpKind::Add);
    reg.insert("Mul", OpKind::Mul);
    reg.insert("Sub", OpKind::Sub);
}

/// The operations of arithmetic.
#[derive(Debug, Clone, Copy, PartialEq, Eq, Structural)]
pub enum Arith {
    Add,
    Mul,
    Sub,
}

/// The shape `shape` with axes of size one in front, so that it has `rank`
/// axes.
pub open spec fn padded(shape: Seq<usize>, rank: nat) -> Seq<usize> {
    Seq::new(
        rank,
        |i: int|
            if i < rank - shape.len() {
                1usize
            } else {
                shape[i - (rank - shape.len())]
            },
    )
}

/// The greater of two ranks.
pub open spec fn joint_rank(a: Seq<usize>, b: Seq<usize>) -> nat {
    if a.len() >= b.len() {
        a.len()
    } else {
        b.len()
    }
}

/// Whether two shapes can be broadcast: aligned at their last axes, their
/// sizes are the same along each axis, or one of them is one.
pub open spec fn broadcastable(a: Seq<usize>, b: Seq<usize>) -> bool {
    let rank = joint_rank(a, b);
    forall|i: int|
        0 <= i < rank ==> {
            let x = #[trigger] padded(a, rank)[i];
            let y = padded(b, rank)[i];
            x == y || x == 1 || y == 1
        }
}

/// The shape that two shapes are broadcast to: along each axis the size
/// that is not one, if there is one.
pub open spec fn broadcast_shape(a: Seq<usize>, b: Seq<usize>) -> Seq<usize> {
    let rank = joint_rank(a, b);
    Seq::new(
        rank,
        |i: int|
            if padded(a, rank)[i] == 1 {
                padded(b, rank)[i]
            } else {
                padded(a, rank)[i]
            },
    )
}

/// The place among the elements of a tensor of shape `from` of the element
/// that is repeated at the place `j` of a tensor of shape `to`, where
/// `from` has as many axes as `to`, each of the same size or of size one.
pub open spec fn source(to: Seq<usize>, from: Seq<usize>, j: int) -> int
    decreases to.len(),
{
    if to.len() == 0 {
        0
    } else {
        let outer = source(to.drop_last(), from.drop_last(), j / (to.last() as int));
        if from.last() == 1 {
            outer
        } else {
            outer * (from.last() as int) + j % (to.last() as int)
        }
    }
}

/// The number in the range of 32-bit integers that differs from `v` by a
/// multiple of 2 to the 32.
pub open spec fn wrapped(v: int) -> i64 {
    ((v + 0x8000_0000) % 0x1_0000_0000 - 0x8000_0000) as i64
}

/// What an operation of arithmetic makes of two integers, in 32 bits.
pub open spec fn combined(kind: Arith, a: i64, b: i64) -> i64 {
    match kind {
        Arith::Add => wrapped(a + b),
        Arith::Mul => wrapped(a * b),
        Arith::Sub => wrapped(a - b),
    }
}

/// What an operation of arithmetic computes from two tensors of 32-bit
/// integers whose shapes can be broadcast: a tensor of the broadcast shape,
/// each element made of the two elements that are repeated at its place.
pub open spec fn arith_spec(kind: Arith, inputs: Seq<MatrixView>) -> Result<Seq<MatrixView>, Error> {
    if inputs.len() != 2 {
        Err(Error::InvalidGraph)
    } else if inputs[0].datatype != DataType::DT_INT32 || inputs[1].datatype
        != DataType::DT_INT32 {
        Err(Error::TypeMismatch)
    } else if !broadcastable(inputs[0].shape, inputs[1].shape) {
        Err(Error::ShapeMismatch)
    } else {
        let out = broadcast_shape(inputs[0].shape, inputs[1].shape);
        if !addressable(out) || shape_size(out) > usize::MAX {
            Err(Error::ShapeMismatch)
        } else {
            let rank = out.len();
            Ok(
                seq![
                    MatrixView {
                        datatype: DataType::DT_INT32,
                        shape: out,
                        data: Seq::new(
                            shape_size(out),
                            |j: int|
                                combined(
                                    kind,
                                    inputs[0].data[source(out, padded(inputs[0].shape, rank), j)],
                                    inputs[1].data[source(out, padded(inputs[1].shape, rank), j)],
                                ),
                        ),
                    },
                ],
            )
        }
    }
}

/// What an operation of arithmetic infers of its output.  Where both inputs
/// are known, the output is known.  Where both shapes are known in full,
/// the output has the broadcast shape.  Else only the type is known, which
/// is that of the first input.
pub open spec fn arith_forward_spec(kind: Arith, inputs: Seq<ATensorView>) -> Result<
    Seq<ATensorView>,
    Error,
> {
    if inputs.len() != 2 {
        Err(Error::InvalidGraph)
    } else if all_known(inputs) {
        concrete_inference(arith_spec(kind, known_values(inputs)))
    } else if inputs[0].shape.is_concrete() && inputs[1].shape.is_concrete() {
        if broadcastable(inputs[0].shape.sizes(), inputs[1].shape.sizes()) {
            Ok(
                seq![
                    ATensorView {
                        datatype: inputs[0].datatype,
                        shape: closed_shape(
                            broadcast_shape(inputs[0].shape.sizes(), inputs[1].shape.sizes()),
                        ),
                        value: None,
                    },
                ],
            )
        } else {
            Err(Error::ShapeMismatch)
        }
    } else {
        Ok(seq![ATensorView { datatype: inputs[0].datatype, shape: AShapeView::any(), value: None }])
    }
}

/// What an operation of arithmetic infers of its inputs: both have the type
/// of the output.
pub open spec fn arith_backward_spec(outputs: Seq<ATensorView>) -> Result<Seq<ATensorView>, Error> {
    if outputs.len() != 1 {
        Err(Error::InvalidGraph)
    } else {
        let input = ATensorView {
            datatype: outputs[0].datatype,
            shape: AShapeView::any(),
            value: None,
        };
        Ok(seq![input, input])
    }
}

/// Whether `from` has as many axes as `to`, each of the same size or of
/// size one.
pub open spec fn repeats_into(from: Seq<usize>, to: Seq<usize>) -> bool {
    &&& from.len() == to.len()
    &&& forall|i: int| 0 <= i < to.len() ==> (#[trigger] from[i]) == to[i] || from[i] == 1
}

/// The place of the repeated element is a place of the tensor that it is
/// repeated from.
pub proof fn lemma_source_in_range(to: Seq<usize>, from: Seq<usize>, j: int)
    requires
        repeats_into(from, to),
        0 <= j < shape_size(to),
    ensures
        0 <= source(to, from, j) < shape_size(from),
    decreases to.len(),
{
    if to.len() > 0 {
        let d = to.last() as int;
        let rest = shape_size(to.drop_last()) as int;
        assert(from[from.len() - 1] == to[to.len() - 1] || from[from.len() - 1] == 1);
        if d == 0 {
            assert(rest * d == 0) by (nonlinear_arith)
                requires
                    d == 0,
            ;
        }
        assert(j < rest * d);
        lemma_group_of(j, rest, d);
        assert(repeats_into(from.drop_last(), to.drop_last())) by {
            assert forall|i: int| 0 <= i < to.drop_last().len() implies (
            #[trigger] from.drop_last()[i]) == to.drop_last()[i] || from.drop_last()[i] == 1 by {
                assert(from[i] == to[i] || from[i] == 1);
            }
        }
        lemma_source_in_range(to.drop_last(), from.drop_last(), j / d);
        let outer = source(to.drop_last(), from.drop_last(), j / d);
        let size = shape_size(from.drop_last()) as int;
        if from.last() == 1 {
            assert(size * 1 == size);
        } else {
            lemma_place_in(outer, size, j % d, d);
        }
    }
}

/// A shape with axes of size one in front has the elements of the shape.
pub proof fn lemma_padded_size(shape: Seq<usize>, rank: nat)
    requires
        shape.len() <= rank,
    ensures
        shape_size(padded(shape, rank)) == shape_size(shape),
    decreases rank,
{
    let wide = padded(shape, rank);
    if shape.len() == 0 {
        lemma_ones_size(wide);
        assert(shape_size(shape) == 1);
    } else {
        assert(wide.drop_last() =~= padded(shape.drop_last(), (rank - 1) as nat));
        assert(wide.last() == shape.last());
        lemma_padded_size(shape.drop_last(), (rank - 1) as nat);
    }
}

/// A shape of axes of size one has one element.
pub proof fn lemma_ones_size(shape: Seq<usize>)
    requires
        forall|i: int| 0 <= i < shape.len() ==> #[trigger] shape[i] == 1,
    ensures
        shape_size(shape) == 1,
    decreases shape.len(),
{
    if shape.len() > 0 {
        assert forall|i: int| 0 <= i < shape.drop_last().len() implies #[trigger] shape.drop_last()[i]
            == 1 by {
            assert(shape.drop_last()[i] == shape[i]);
        }
        lemma_ones_size(shape.drop_last());
        assert(shape[shape.len() - 1] == 1);
    }
}

/// An operator of arithmetic on two tensors.
#[derive(Debug)]
pub struct Binary {
    pub kind: Arith,
}

impl Binary {
    /// Makes the operator of a node; it reads no attribute.
    pub fn build(kind: Arith, _pb: &NodeDef) -> (r: Result<Binary, Error>)
        ensures
            r == Ok::<Binary, Error>(Binary { kind }),
    {
        Ok(Binary { kind })
    }

    /// The shape with axes of size one in front.
    fn pad(shape: &[usize], rank: usize) -> (r: Vec<usize>)
        requires
            shape@.len() <= rank,
        ensures
            r@ == padded(shape@, rank as nat),
    {
        let lead = rank - shape.len();
        let mut wide: Vec<usize> = Vec::new();
        let mut i: usize = 0;
        while i < rank
            invariant
                i <= rank,
                lead == rank - shape@.len(),
                shape@.len() <= rank,
                wide@.len() == i,
                forall|t: int| 0 <= t < i ==> #[trigger] wide@[t] == padded(shape@, rank as nat)[t],
            decreases rank - i,
        {
            if i < lead {
                wide.push(1);
            } else {
                wide.push(shape[i - lead]);
            }
            i += 1;
        }
        assert(wide@ =~= padded(shape@, rank as nat));
        wide
    }

    /// The shape that two shapes are broadcast to, or nothing where they
    /// cannot be broadcast.
    pub fn broadcast(a: &[usize], b: &[usize]) -> (r: Option<Vec<usize>>)
        ensures
            match r {
                Some(out) => broadcastable(a@, b@) && out@ == broadcast_shape(a@, b@),
                None => !broadcastable(a@, b@),
            },
    {
        let rank = if a.len() >= b.len() {
            a.len()
        } else {
            b.len()
        };
        let wide_a = Self::pad(a, rank);
        let wide_b = Self::pad(b, rank);
        let mut out: Vec<usize> = Vec::new();
        let mut i: usize = 0;
        while i < rank
            invariant
                i <= rank,
                rank == joint_rank(a@, b@),
                wide_a@ == padded(a@, rank as nat),
                wide_b@ == padded(b@, rank as nat),
                out@.len() == i,
                forall|t: int|
                    0 <= t < i ==> {
                        let x = #[trigger] padded(a@, rank as nat)[t];
                        let y = padded(b@, rank as nat)[t];
                        x == y || x == 1 || y == 1
                    },
                forall|t: int| 0 <= t < i ==> #[trigger] out@[t] == broadcast_shape(a@, b@)[t],
            decreases rank - i,
        {
            let x = wide_a[i];
            let y = wide_b[i];
            if x != y && x != 1 && y != 1 {
                assert(padded(a@, rank as nat)[i as int] == x);
                return None;
            }
            if x == 1 {
                out.push(y);
            } else {
                out.push(x);
            }
            i += 1;
        }
        assert(out@ =~= broadcast_shape(a@, b@));
        Some(out)
    }

    /// The place among the elements of a tensor of shape `from` of the
    /// element that is repeated at the place `j` of a tensor of shape `to`,
    /// the first `k` axes of both counted.
    fn source_index(to: &Vec<usize>, from: &Vec<usize>, j: usize, k: usize) -> (r: usize)
        requires
            k <= to@.len(),
            repeats_into(from@, to@),
            forall|i: int| 0 <= i < to@.len() ==> #[trigger] to@[i] != 0,
            forall|i: int| 0 <= i < from@.len() ==> #[trigger] from@[i] != 0,
            shape_size(from@) <= usize::MAX,
            j < shape_size(to@.take(k as int)),
        ensures
            r == source(to@.take(k as int), from@.take(k as int), j as int),
            r < shape_size(from@.take(k as int)),
        decreases k,
    {
        if k == 0 {
            assert(to@.take(0).len() == 0);
            assert(from@.take(0).len() == 0);
            return 0;
        }
        let d = to[k - 1];
        let f = from[k - 1];
        proof {
            assert(to@.take(k as int).drop_last() == to@.take(k - 1));
            assert(from@.take(k as int).drop_last() == from@.take(k - 1));
            assert(to@.take(k as int).last() == d);
            assert(from@.take(k as int).last() == f);
            assert(from@[k - 1] == to@[k - 1] || from@[k - 1] == 1);
            lemma_group_of(j as int, shape_size(to@.take(k - 1)) as int, d as int);
            assert(repeats_into(from@.take(k as int), to@.take(k as int))) by {
                assert forall|i: int| 0 <= i < k implies (#[trigger] from@.take(k as int)[i])
                    == to@.take(k as int)[i] || from@.take(k as int)[i] == 1 by {
                    assert(from@[i] == to@[i] || from@[i] == 1);
                }
            }
            lemma_source_in_range(to@.take(k as int), from@.take(k as int), j as int);
            lemma_size_grows(from@, k as int);
        }
        let outer = Self::source_index(to, from, j / d, k - 1);
        if f == 1 {
            outer
        } else {
            proof {
                lemma_place_in(
                    outer as int,
                    shape_size(from@.take(k - 1)) as int,
                    (j % d) as int,
                    d as int,
                );
                assert(0 <= outer * f) by (nonlinear_arith)
                    requires
                        outer >= 0,
                        f >= 0,
                ;
            }
            outer * f + j % d
        }
    }

    /// What the operation makes of two 32-bit integers.
    fn combine(kind: Arith, a: i64, b: i64) -> (r: i64)
        requires
            DataType::DT_INT32.holds(a),
            DataType::DT_INT32.holds(b),
        ensures
            r == combined(kind, a, b),
            DataType::DT_INT32.holds(r),
    {
        let wide: i128 = match kind {
            Arith::Add => a as i128 + b as i128,
            Arith::Sub => a as i128 - b as i128,
            Arith::Mul => {
                assert(-0x4000_0000_0000_0000 <= a * b <= 0x4000_0000_0000_0000) by (nonlinear_arith)
                    requires
                        -0x8000_0000 <= a <= 0x7fff_ffff,
                        -0x8000_0000 <= b <= 0x7fff_ffff,
                ;
                a as i128 * b as i128
            },
        };
        let shifted: i128 = wide + 0x8000_0000 + 0x1_0000_0000_0000_0000;
        let low: i128 = shifted % 0x1_0000_0000;
        assert(low == (wide + 0x8000_0000) % 0x1_0000_0000) by {
            assert((wide + 0x8000_0000 + 0x1_0000_0000 * 0x1_0000_0000) % 0x1_0000_0000 == (wide
                + 0x8000_0000) % 0x1_0000_0000) by (nonlinear_arith);
        }
        (low - 0x8000_0000) as i64
    }
}

impl Op for Binary {
    open spec fn eval_spec(&self, inputs: Seq<MatrixView>) -> Result<Seq<MatrixView>, Error> {
        arith_spec(self.kind, inputs)
    }

    open spec fn infer_forward_spec(&self, inputs: Seq<ATensorView>) -> Result<
        Seq<ATensorView>,
        Error,
    > {
        arith_forward_spec(self.kind, inputs)
    }

    open spec fn infer_backward_spec(&self, outputs: Seq<ATensorView>) -> Result<
        Seq<ATensorView>,
        Error,
    > {
        arith_backward_spec(outputs)
    }

    /// Evaluates the operation given the input tensors.
    fn eval(&self, inputs: Vec<Input>) -> (r: Result<Vec<Input>, Error>) {
        if inputs.len() != 2 {
            return Err(Error::InvalidGraph);
        }
        let ghost given = views_of(inputs@);
        let a = inputs[0].as_matrix();
        let b = inputs[1].as_matrix();
        proof {
            use_type_invariant(a);
            use_type_invariant(b);
            assert(a@ == given[0] && b@ == given[1]);
        }
        if a.datatype() != DataType::DT_INT32 || b.datatype() != DataType::DT_INT32 {
            return Err(Error::TypeMismatch);
        }
        let out = match Binary::broadcast(a.shape(), b.shape()) {
            Some(out) => out,
            None => {
                return Err(Error::ShapeMismatch);
            },
        };
        if !is_addressable(out.as_slice()) {
            return Err(Error::ShapeMismatch);
        }
        let total = match size_of_shape(out.as_slice()) {
            Some(total) => total,
            None => {
                return Err(Error::ShapeMismatch);
            },
        };
        let rank = out.len();
        let from_a = Binary::pad(a.shape(), rank);
        let from_b = Binary::pad(b.shape(), rank);
        let kind = self.kind;
        let count_a = a.len();
        let count_b = b.len();
        proof {
            lemma_padded_size(a@.shape, rank as nat);
            lemma_padded_size(b@.shape, rank as nat);
            assert(repeats_into(from_a@, out@)) by {
                assert forall|i: int| 0 <= i < out@.len() implies (#[trigger] from_a@[i]) == out@[i]
                    || from_a@[i] == 1 by {
                    assert(padded(a@.shape, rank as nat)[i] == from_a@[i]);
                }
            }
            assert(repeats_into(from_b@, out@)) by {
                assert forall|i: int| 0 <= i < out@.len() implies (#[trigger] from_b@[i]) == out@[i]
                    || from_b@[i] == 1 by {
                    assert(padded(b@.shape, rank as nat)[i] == from_b@[i]);
                }
            }
        }
        let mut data: Vec<i64> = Vec::new();
        let mut j: usize = 0;
        while j < total
            invariant
                j <= total,
                kind == self.kind,
                a@.valid(),
                b@.valid(),
                a@.datatype == DataType::DT_INT32,
                b@.datatype == DataType::DT_INT32,
                rank == out@.len(),
                total == shape_size(out@),
                from_a@ == padded(a@.shape, rank as nat),
                from_b@ == padded(b@.shape, rank as nat),
                shape_size(from_a@) == a@.data.len(),
                shape_size(from_b@) == b@.data.len(),
                count_a == a@.data.len(),
                count_b == b@.data.len(),
                repeats_into(from_a@, out@),
                repeats_into(from_b@, out@),
                data@.len() == j,
                forall|q: int|
                    0 <= q < j ==> #[trigger] data@[q] == combined(
                        kind,
                        a@.data[source(out@, from_a@, q)],
                        b@.data[source(out@, from_b@, q)],
                    ),
                forall|q: int| 0 <= q < j ==> DataType::DT_INT32.holds(#[trigger] data@[q]),
            decreases total - j,
        {
            proof {
                // There is an element, so no axis is empty.
                assert forall|i: int| 0 <= i < out@.len() implies #[trigger] out@[i] != 0 by {
                    if out@[i] == 0 {
                        lemma_zero_dimension(out@, i);
                    }
                }
                assert forall|i: int| 0 <= i < from_a@.len() implies #[trigger] from_a@[i] != 0 by {
                    assert(from_a@[i] == out@[i] || from_a@[i] == 1);
                    assert(out@[i] != 0);
                }
                assert forall|i: int| 0 <= i < from_b@.len() implies #[trigger] from_b@[i] != 0 by {
                    assert(from_b@[i] == out@[i] || from_b@[i] == 1);
                    assert(out@[i] != 0);
                }
                assert(out@.take(rank as int) == out@);
                assert(from_a@.take(rank as int) == from_a@);
                assert(from_b@.take(rank as int) == from_b@);
            }
            let at_a = Binary::source_index(&out, &from_a, j, rank);
            let at_b = Binary::source_index(&out, &from_b, j, rank);
            let x = a.values()[at_a];
            let y = b.values()[at_b];
            assert(a@.datatype.holds(a@.data[at_a as int]));
            assert(b@.datatype.holds(b@.data[at_b as int]));
            data.push(Binary::combine(kind, x, y));
            j += 1;
        }
        proof {
            assert(data@ =~= arith_spec(kind, given)->Ok_0[0].data);
            assert(all_hold(DataType::DT_INT32, data@));
        }
        match Matrix::new(DataType::DT_INT32, out, data) {
            Ok(m) => Ok(single(m)),
            Err(e) => Err(e),
        }
    }

    /// Infers properties about the output tensors from the input tensors.
    fn infer_forward(&self, inputs: Vec<&ATensor>) -> (r: Result<Vec<ATensor>, Error>) {
        if inputs.len() != 2 {
            return Err(Error::InvalidGraph);
        }
        if let Some(values) = known_inputs(&inputs) {
            return match self.eval(values) {
                Ok(outputs) => Ok(concrete_outputs(outputs)),
                Err(e) => Err(e),
            };
        }
        let ghost facts = facts_of_refs(inputs@);
        assert(facts[0] == inputs@[0]@ && facts[1] == inputs@[1]@);
        let shape = match (inputs[0].shape.concretize(), inputs[1].shape.concretize()) {
            (Ok(a), Ok(b)) => match Binary::broadcast(a.as_slice(), b.as_slice()) {
                Some(out) => AShape::from_sizes(out.as_slice()),
                None => {
                    return Err(Error::ShapeMismatch);
                },
            },
            _ => AShape::any(),
        };
        let mut facts: Vec<ATensor> = Vec::new();
        facts.push(fact(inputs[0].datatype, shape));
        assert(facts_of(facts@) =~= seq![facts@[0]@]);
        Ok(facts)
    }

    /// Infers properties about the input tensors from the output tensors.
    fn infer_backward(&self, outputs: Vec<&ATensor>) -> (r: Result<Vec<ATensor>, Error>) {
        if outputs.len() != 1 {
            return Err(Error::InvalidGraph);
        }
        let mut facts: Vec<ATensor> = Vec::new();
        facts.push(fact(outputs[0].datatype, AShape::any()));
        facts.push(fact(outputs[0].datatype, AShape::any()));
        assert(facts_of(facts@) =~= seq![facts@[0]@, facts@[1]@]);
        Ok(facts)
    }
}

} // verus!
