//! Forward inference never weakens: an operator that is told more about
//! its inputs says at least as much about its outputs.

use vstd::prelude::*;
use crate::analyser::types::{
    AShapeView, ATensorView, closed_shape, refines, refines_dim, refines_shape,
};
use crate::matrix::MatrixView;
use crate::ops::array::expand_dims::{
    expanded_shape, highest, least_at, lemma_least_at, marked_axes,
};
use crate::matrix::shape_size;
use crate::ops::array::expand_dims::expand_dims_forward_spec;
use crate::ops::array::reshape::{
    filled_dims, known_product, lemma_wild_present, reshape_forward_spec, wild_count,
};
use crate::ops::array::shape::shape_forward_spec;
use crate::ops::array::squeeze::squeeze_forward_spec;
use crate::ops::math::{Arith, arith_forward_spec};
use crate::ops::nn::{Pool, max_pool_forward_spec};
use crate::ops::{Op, Operator, all_known, concrete_fact, has_negative, known_values, listed};

verus! {

/// Whether what an abstract tensor says of the type and the shape fits the
/// value that it knows, and the value is a tensor.
pub open spec fn consistent(t: ATensorView) -> bool {
    t.value matches Some(v) ==> v.valid() && refines(concrete_fact(v), t)
}

/// Whether each abstract tensor of `x` says at least what the one of `y` at
/// its place says.
pub open spec fn all_refine(x: Seq<ATensorView>, y: Seq<ATensorView>) -> bool {
    &&& x.len() == y.len()
    &&& forall|i: int| 0 <= i < x.len() ==> refines(#[trigger] x[i], y[i])
}

/// Where all values of a list are known, a list that says at least as much
/// knows the same values.
proof fn lemma_known_alike(x: Seq<ATensorView>, y: Seq<ATensorView>)
    requires
        all_refine(x, y),
        all_known(y),
    ensures
        all_known(x),
        known_values(x) == known_values(y),
{
    assert forall|i: int| 0 <= i < x.len() implies (#[trigger] x[i]).value is Some && x[i].value
        == y[i].value by {
        assert(refines(x[i], y[i]));
        assert(y[i].value is Some);
    }
    assert(known_values(x) =~= known_values(y));
}

/// A shape that says at least what a shape known in full says is that shape.
proof fn lemma_refines_concrete(x: AShapeView, y: AShapeView)
    requires
        refines_shape(x, y),
        y.is_concrete(),
    ensures
        x == y,
{
    assert forall|i: int| 0 <= i < y.dims.len() implies x.dims[i] == y.dims[i] by {
        assert(refines_dim(x.dims[i], y.dims[i]));
        assert(y.dims[i] is Only);
    }
    assert(x.dims =~= y.dims);
}

/// The closed shape of the sizes of a shape known in full is that shape, so
/// that a tensor whose shape refines it has these sizes.
proof fn lemma_value_shape(v: MatrixView, s: AShapeView)
    requires
        refines_shape(closed_shape(v.shape), s),
        s.is_concrete(),
    ensures
        v.shape == s.sizes(),
{
    lemma_refines_concrete(closed_shape(v.shape), s);
    assert(v.shape =~= s.sizes());
}

/// The greatest entry of a list that is not empty is listed.
proof fn lemma_highest_listed(axes: Seq<i64>)
    requires
        axes.len() > 0,
        !has_negative(axes),
    ensures
        listed(axes, highest(axes)),
        highest(axes) >= 0,
    decreases axes.len(),
{
    assert(axes[axes.len() - 1] >= 0);
    if axes.len() > 1 {
        let rest = axes.drop_last();
        assert(!has_negative(rest)) by {
            if has_negative(rest) {
                let i = choose|i: int| 0 <= i < rest.len() && #[trigger] rest[i] < 0;
                assert(axes[i] < 0);
            }
        }
        lemma_highest_listed(rest);
        if axes.last() > highest(rest) {
            assert(axes[axes.len() - 1] == highest(axes));
        } else {
            let k = choose|k: int| 0 <= k < rest.len() && #[trigger] rest[k] == highest(rest);
            assert(axes[k] == highest(axes));
        }
    } else {
        assert(axes.drop_last().len() == 0);
        assert(highest(axes.drop_last()) == -1);
        assert(axes[0] == highest(axes));
    }
}

/// An axis of size one stays where it is while axes are inserted at its
/// position or behind it.
proof fn lemma_one_stays(shape: Seq<usize>, axes: Seq<i64>, at: int)
    requires
        0 <= at < shape.len(),
        shape[at] == 1,
        forall|i: int| 0 <= i < axes.len() ==> #[trigger] axes[i] >= at,
        expanded_shape(shape, axes) is Ok,
    ensures
        at < expanded_shape(shape, axes)->Ok_0.len(),
        expanded_shape(shape, axes)->Ok_0[at] == 1,
    decreases axes.len(),
{
    if axes.len() > 0 {
        let k = least_at(axes);
        lemma_least_at(axes);
        let m = axes[k];
        assert(m >= at);
        let wider = shape.insert(m as int, 1);
        let rest = axes.remove(k);
        assert forall|i: int| 0 <= i < rest.len() implies #[trigger] rest[i] >= at by {
            if i < k {
                assert(rest[i] == axes[i]);
            } else {
                assert(rest[i] == axes[i + 1]);
            }
        }
        lemma_one_stays(wider, rest, at);
    }
}

/// After axes of size one have been inserted at the listed positions, in
/// ascending order, the shape has size one at each of these positions.
proof fn lemma_expanded_ones(shape: Seq<usize>, axes: Seq<i64>, p: int)
    requires
        !has_negative(axes),
        expanded_shape(shape, axes) is Ok,
        listed(axes, p),
    ensures
        0 <= p < expanded_shape(shape, axes)->Ok_0.len(),
        expanded_shape(shape, axes)->Ok_0[p] == 1,
    decreases axes.len(),
{
    let j = choose|j: int| 0 <= j < axes.len() && #[trigger] axes[j] == p;
    assert(axes[j] >= 0);
    let k = least_at(axes);
    lemma_least_at(axes);
    let m = axes[k];
    assert(m >= 0);
    let wider = shape.insert(m as int, 1);
    let rest = axes.remove(k);
    assert forall|i: int| 0 <= i < rest.len() implies #[trigger] rest[i] >= m && rest[i] >= 0 by {
        if i < k {
            assert(rest[i] == axes[i]);
        } else {
            assert(rest[i] == axes[i + 1]);
        }
    }
    assert(!has_negative(rest)) by {
        if has_negative(rest) {
            let i = choose|i: int| 0 <= i < rest.len() && #[trigger] rest[i] < 0;
            assert(rest[i] >= 0);
        }
    }
    if j == k {
        lemma_one_stays(wider, rest, m as int);
    } else {
        if j < k {
            assert(rest[j] == axes[j]);
        } else {
            assert(rest[j - 1] == axes[j]);
        }
        assert(listed(rest, p));
        lemma_expanded_ones(wider, rest, p);
    }
}

/// Where no dimension is to be computed, the value for it does not matter.
proof fn lemma_filled_alike(dims: Seq<i64>, a: int, b: int)
    requires
        wild_count(dims) == 0,
    ensures
        filled_dims(dims, a) == filled_dims(dims, b),
{
    assert forall|i: int| 0 <= i < dims.len() implies filled_dims(dims, a)[i] == filled_dims(
        dims,
        b,
    )[i] by {
        if dims[i] == -1 {
            lemma_wild_present(dims, i);
        }
    }
    assert(filled_dims(dims, a) =~= filled_dims(dims, b));
}

/// Whether `x` and `y` are lists that the inference of an operator can be
/// compared on: `x` says at least what `y` says, and is consistent.
pub open spec fn comparable(x: Seq<ATensorView>, y: Seq<ATensorView>) -> bool {
    &&& all_refine(x, y)
    &&& forall|i: int| 0 <= i < x.len() ==> consistent(#[trigger] x[i])
}

/// The forward inference of `Shape` is monotone.
proof fn lemma_monotone_shape(x: Seq<ATensorView>, y: Seq<ATensorView>)
    requires
        comparable(x, y),
        shape_forward_spec(x) is Ok,
        shape_forward_spec(y) is Ok,
    ensures
        all_refine(shape_forward_spec(x)->Ok_0, shape_forward_spec(y)->Ok_0),
{
    let out_x = shape_forward_spec(x)->Ok_0;
    let out_y = shape_forward_spec(y)->Ok_0;
    assert(refines(x[0], y[0]));
    if y[0].shape.is_concrete() {
        lemma_refines_concrete(x[0].shape, y[0].shape);
    } else {
        assert(out_y[0].shape.dims.len() == 1);
        assert(out_x[0].shape.dims.len() == 1);
    }
}

/// The forward inference of `Squeeze` is monotone.
proof fn lemma_monotone_squeeze(dims: Seq<i64>, x: Seq<ATensorView>, y: Seq<ATensorView>)
    requires
        comparable(x, y),
        squeeze_forward_spec(dims, x) is Ok,
        squeeze_forward_spec(dims, y) is Ok,
    ensures
        all_refine(squeeze_forward_spec(dims, x)->Ok_0, squeeze_forward_spec(dims, y)->Ok_0),
{
    assert(refines(x[0], y[0]));
    if all_known(y) {
        lemma_known_alike(x, y);
    } else {
        lemma_refines_concrete(x[0].shape, y[0].shape);
        if all_known(x) {
            assert(x[0].value is Some);
            assert(consistent(x[0]));
            lemma_value_shape(x[0].value.unwrap(), x[0].shape);
            assert(known_values(x)[0] == x[0].value.unwrap());
        }
    }
}

/// The forward inference of `Reshape` is monotone.
proof fn lemma_monotone_reshape(x: Seq<ATensorView>, y: Seq<ATensorView>)
    requires
        comparable(x, y),
        reshape_forward_spec(x) is Ok,
        reshape_forward_spec(y) is Ok,
    ensures
        all_refine(reshape_forward_spec(x)->Ok_0, reshape_forward_spec(y)->Ok_0),
{
    assert(refines(x[0], y[0]));
    assert(refines(x[1], y[1]));
    if all_known(y) {
        lemma_known_alike(x, y);
    } else {
        let dims = y[1].value.unwrap();
        assert(x[1].value == y[1].value);
        if all_known(x) {
            assert(x[0].value is Some);
            assert(consistent(x[0]));
            assert(known_values(x)[0] == x[0].value.unwrap());
            assert(known_values(x)[1] == dims);
        }
        if y[0].shape.is_concrete() {
            lemma_refines_concrete(x[0].shape, y[0].shape);
            if all_known(x) {
                lemma_value_shape(x[0].value.unwrap(), x[0].shape);
            }
        } else {
            let v = x[0].value.unwrap();
            lemma_filled_alike(
                dims.data,
                0int / known_product(dims.data),
                v.data.len() as int / known_product(dims.data),
            );
            if x[0].shape.is_concrete() {
                lemma_filled_alike(
                    dims.data,
                    0int / known_product(dims.data),
                    shape_size(x[0].shape.sizes()) as int / known_product(dims.data),
                );
            }
        }
    }
}

/// The forward inference of `ExpandDims` is monotone.
proof fn lemma_monotone_expand_dims(x: Seq<ATensorView>, y: Seq<ATensorView>)
    requires
        comparable(x, y),
        expand_dims_forward_spec(x) is Ok,
        expand_dims_forward_spec(y) is Ok,
    ensures
        all_refine(expand_dims_forward_spec(x)->Ok_0, expand_dims_forward_spec(y)->Ok_0),
{
    assert(refines(x[0], y[0]));
    assert(refines(x[1], y[1]));
    if all_known(y) {
        lemma_known_alike(x, y);
    } else {
        let axes = y[1].value.unwrap();
        assert(x[1].value == y[1].value);
        if all_known(x) {
            assert(x[0].value is Some);
            assert(consistent(x[0]));
            let v = x[0].value.unwrap();
            assert(known_values(x)[0] == v);
            assert(known_values(x)[1] == axes);
            let target = expanded_shape(v.shape, axes.data)->Ok_0;
            let marked = marked_axes(axes.data);
            if axes.data.len() > 0 {
                lemma_highest_listed(axes.data);
                lemma_expanded_ones(v.shape, axes.data, highest(axes.data));
            } else {
                assert(highest(axes.data) == -1);
            }
            assert forall|p: int| 0 <= p < marked.len() implies refines_dim(
                closed_shape(target).dims[p],
                #[trigger] marked[p],
            ) by {
                if listed(axes.data, p) {
                    lemma_expanded_ones(v.shape, axes.data, p);
                }
            }
        }
    }
}

/// The forward inference of `MaxPool` is monotone.
proof fn lemma_monotone_max_pool(pool: Pool, x: Seq<ATensorView>, y: Seq<ATensorView>)
    requires
        comparable(x, y),
        max_pool_forward_spec(pool, x) is Ok,
        max_pool_forward_spec(pool, y) is Ok,
    ensures
        all_refine(max_pool_forward_spec(pool, x)->Ok_0, max_pool_forward_spec(pool, y)->Ok_0),
{
    let out_x = max_pool_forward_spec(pool, x)->Ok_0;
    assert(refines(x[0], y[0]));
    if all_known(y) {
        lemma_known_alike(x, y);
    } else {
        if all_known(x) {
            assert(x[0].value is Some);
            assert(consistent(x[0]));
            assert(known_values(x)[0] == x[0].value.unwrap());
        }
        if y[0].shape.is_concrete() {
            lemma_refines_concrete(x[0].shape, y[0].shape);
            if all_known(x) {
                lemma_value_shape(x[0].value.unwrap(), x[0].shape);
            }
        } else {
            assert(out_x[0].shape.dims.len() == 4);
        }
    }
}

/// The forward inference of the operators of arithmetic is monotone.
proof fn lemma_monotone_arith(kind: Arith, x: Seq<ATensorView>, y: Seq<ATensorView>)
    requires
        comparable(x, y),
        arith_forward_spec(kind, x) is Ok,
        arith_forward_spec(kind, y) is Ok,
    ensures
        all_refine(arith_forward_spec(kind, x)->Ok_0, arith_forward_spec(kind, y)->Ok_0),
{
    assert(refines(x[0], y[0]));
    assert(refines(x[1], y[1]));
    if all_known(y) {
        lemma_known_alike(x, y);
    } else {
        if all_known(x) {
            assert(x[0].value is Some && x[1].value is Some);
            assert(consistent(x[0]) && consistent(x[1]));
            assert(known_values(x)[0] == x[0].value.unwrap());
            assert(known_values(x)[1] == x[1].value.unwrap());
        }
        if y[0].shape.is_concrete() && y[1].shape.is_concrete() {
            lemma_refines_concrete(x[0].shape, y[0].shape);
            lemma_refines_concrete(x[1].shape, y[1].shape);
            if all_known(x) {
                lemma_value_shape(x[0].value.unwrap(), x[0].shape);
                lemma_value_shape(x[1].value.unwrap(), x[1].shape);
            }
        }
    }
}

/// The forward inference of the operators that know their output in full or
/// not at all is monotone.
proof fn lemma_monotone_joining(op: Operator, x: Seq<ATensorView>, y: Seq<ATensorView>)
    requires
        comparable(x, y),
        op is ConcatV2 || op is Pack,
        op.infer_forward_spec(x) is Ok,
        op.infer_forward_spec(y) is Ok,
    ensures
        all_refine(op.infer_forward_spec(x)->Ok_0, op.infer_forward_spec(y)->Ok_0),
{
    if all_known(y) {
        lemma_known_alike(x, y);
    }
}

/// Forward inference is monotone: where an operator infers from `x` and
/// from `y`, and `x` says at least what `y` says, what it infers from `x`
/// says at least what it infers from `y`.  The abstract tensors of `x` are
/// consistent: what they say of type and shape fits the values they know.
pub proof fn lemma_forward_monotone(op: Operator, x: Seq<ATensorView>, y: Seq<ATensorView>)
    requires
        all_refine(x, y),
        forall|i: int| 0 <= i < x.len() ==> consistent(#[trigger] x[i]),
        op.infer_forward_spec(x) is Ok,
        op.infer_forward_spec(y) is Ok,
    ensures
        all_refine(op.infer_forward_spec(x)->Ok_0, op.infer_forward_spec(y)->Ok_0),
{
    match op {
        Operator::Binary(b) => lemma_monotone_arith(b.kind, x, y),
        Operator::ConcatV2(_) => lemma_monotone_joining(op, x, y),
        Operator::Const(_) => {},
        Operator::ExpandDims(_) => lemma_monotone_expand_dims(x, y),
        Operator::Identity(_) => {},
        Operator::MaxPool(p) => lemma_monotone_max_pool(p.pool, x, y),
        Operator::Pack(_) => lemma_monotone_joining(op, x, y),
        Operator::Placeholder(_) => {},
        Operator::Reshape(_) => lemma_monotone_reshape(x, y),
        Operator::Shape(_) => lemma_monotone_shape(x, y),
        Operator::Squeeze(s) => lemma_monotone_squeeze(s.dims@, x, y),
        Operator::Unimplemented(_) => {},
    }
}

} // verus!
