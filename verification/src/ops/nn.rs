//! Pooling over the two spatial axes of a batch of images.
//!
//! The images lie in a tensor of four axes: the batch, the height, the
//! width and the channels.  A window of `ksize` slides over height and
//! width in steps of `strides`.  With `VALID` padding only the windows that
//! lie within the image count; with `SAME` padding the image is padded so
//! that every step has a window.

use vstd::prelude::*;
use vstd::string::StringExecFns;
use crate::analyser::types::{ADimension, AShape, AShapeView, ATensor, ATensorView, closed_shape};
use crate::errors::Error;
use crate::matrix::{
    Matrix, MatrixView, addressable, all_hold, is_addressable, lemma_zero_dimension, shape_size,
    size_of_shape,
};
use crate::ops::{
    Input, Op, OpKind, OpRegister, all_known, concrete_inference, concrete_outputs, fact,
    facts_of, facts_of_refs, known_inputs, known_values, single, typed_backward,
    typed_backward_spec, views_of,
};
use crate::tfpb::node_def::{NodeDef, attr_list_int_of, attr_str_of};
use crate::tfpb::types::DataType;

verus! {

/// How the border of an image is treated.
#[derive(Debug, Clone, Copy, PartialEq, Eq, Structural)]
pub enum Padding {
    /// Windows that reach over the border are dropped.
    Valid,
    /// The image is padded with zeros on both sides.
    Same,
}

/// The size of a spatial axis after pooling: with `SAME` padding the size
/// of the input divided by the stride, rounded up; with `VALID` padding the
/// number of windows that lie within the input.
pub open spec fn pooled_size(padding: Padding, input: nat, kernel: nat, stride: nat) -> nat {
    match padding {
        Padding::Same => input / stride + if input % stride == 0 {
            0nat
        } else {
            1nat
        },
        Padding::Valid => if input < kernel {
            0
        } else {
            (input - kernel) as nat / stride + 1
        },
    }
}

/// With `SAME` padding the size after pooling is the size of the input
/// divided by the stride, rounded up: the least number of steps of the
/// stride that cover the input.
pub proof fn lemma_same_rounds_up(input: nat, kernel: nat, stride: nat)
    requires
        stride > 0,
    ensures
        pooled_size(Padding::Same, input, kernel, stride) * stride >= input,
        input > 0 ==> (pooled_size(Padding::Same, input, kernel, stride) - 1) * stride < input,
        input == 0 ==> pooled_size(Padding::Same, input, kernel, stride) == 0,
{
    let q = input / stride;
    let r = input % stride;
    assert(input == q * stride + r && 0 <= r < stride) by (nonlinear_arith)
        requires
            stride > 0,
            q == input / stride,
            r == input % stride,
    ;
    if r == 0 {
        assert((q - 1) * stride == q * stride - stride) by (nonlinear_arith);
    } else {
        assert((q + 1) * stride == q * stride + stride) by (nonlinear_arith);
        assert((q + 1 - 1) * stride == q * stride) by (nonlinear_arith);
    }
}

/// With `VALID` padding every window lies within the input, and a further
/// step would reach over its border.
pub proof fn lemma_valid_fits(input: nat, kernel: nat, stride: nat)
    requires
        stride > 0,
        kernel <= input,
    ensures
        (pooled_size(Padding::Valid, input, kernel, stride) - 1) * stride + kernel <= input,
        pooled_size(Padding::Valid, input, kernel, stride) * stride + kernel > input,
{
    let span = (input - kernel) as nat;
    let q = span / stride;
    let r = span % stride;
    assert(span == q * stride + r && 0 <= r < stride) by (nonlinear_arith)
        requires
            stride > 0,
            q == span / stride,
            r == span % stride,
    ;
    assert((q + 1 - 1) * stride == q * stride) by (nonlinear_arith);
    assert((q + 1) * stride == q * stride + stride) by (nonlinear_arith);
}

/// Pooling does not make a spatial axis longer.
pub proof fn lemma_pooled_shrinks(padding: Padding, input: nat, kernel: nat, stride: nat)
    requires
        stride > 0,
        kernel > 0,
    ensures
        pooled_size(padding, input, kernel, stride) <= input,
{
    match padding {
        Padding::Same => {
            let q = input / stride;
            assert(q * stride <= input && (input % stride != 0 ==> q < input)) by (nonlinear_arith)
                requires
                    stride > 0,
                    q == input / stride,
            ;
        },
        Padding::Valid => {
            if input >= kernel {
                let span = (input - kernel) as nat;
                let q = span / stride;
                assert(q <= span) by (nonlinear_arith)
                    requires
                        stride > 0,
                        q == span / stride,
                ;
            }
        },
    }
}

/// The attributes of a pooling operator: the window and the stride along
/// height and width, and the padding.
#[derive(Debug, Clone, Copy)]
pub struct Pool {
    pub ksize: (usize, usize),
    pub strides: (usize, usize),
    pub padding: Padding,
}

/// The window or the stride along height and width that a list attribute
/// of four entries gives.  A list of another length is an `InvalidGraph`;
/// an entry for batch or channels other than one, or an entry for height or
/// width that is no positive size, is an `UnsupportedAttribute`.
pub open spec fn spatial_pair(list: Seq<i64>) -> Result<(usize, usize), Error> {
    if list.len() != 4 {
        Err(Error::InvalidGraph)
    } else if list[0] != 1 || list[3] != 1 || !(1 <= list[1] <= usize::MAX) || !(1 <= list[2]
        <= usize::MAX) {
        Err(Error::UnsupportedAttribute)
    } else {
        Ok((list[1] as usize, list[2] as usize))
    }
}

/// The padding that a string attribute names.
pub open spec fn padding_of(name: Seq<char>) -> Result<Padding, Error> {
    if name == "VALID"@ {
        Ok(Padding::Valid)
    } else if name == "SAME"@ {
        Ok(Padding::Same)
    } else {
        Err(Error::UnsupportedAttribute)
    }
}

/// The pooling attributes of a serialized node: `ksize`, `strides` and
/// `padding`, read in this order.  A window with more cells than can be
/// counted is an `UnsupportedAttribute`.
pub open spec fn pool_of(pb: NodeDef) -> Result<Pool, Error> {
    match attr_list_int_of(pb.attr@, "ksize"@) {
        Err(e) => Err(e),
        Ok(ksize) => match spatial_pair(ksize) {
            Err(e) => Err(e),
            Ok(ksize) => match attr_list_int_of(pb.attr@, "strides"@) {
                Err(e) => Err(e),
                Ok(strides) => match spatial_pair(strides) {
                    Err(e) => Err(e),
                    Ok(strides) => match attr_str_of(pb.attr@, "padding"@) {
                        Err(e) => Err(e),
                        Ok(name) => match padding_of(name) {
                            Err(e) => Err(e),
                            Ok(padding) => if ksize.0 * ksize.1 <= usize::MAX {
                                Ok(Pool { ksize, strides, padding })
                            } else {
                                Err(Error::UnsupportedAttribute)
                            },
                        },
                    },
                },
            },
        },
    }
}

/// The shape of the output of a pooling over an input of the given shape.
/// An input of another rank than four is a `ShapeMismatch`.
pub open spec fn pooled_shape(pool: Pool, input: Seq<usize>) -> Result<Seq<usize>, Error> {
    if input.len() != 4 {
        Err(Error::ShapeMismatch)
    } else {
        Ok(
            seq![
                input[0],
                pooled_size(
                    pool.padding,
                    input[1] as nat,
                    pool.ksize.0 as nat,
                    pool.strides.0 as nat,
                ) as usize,
                pooled_size(
                    pool.padding,
                    input[2] as nat,
                    pool.ksize.1 as nat,
                    pool.strides.1 as nat,
                ) as usize,
                input[3],
            ],
        )
    }
}

/// The size of a spatial axis after pooling.
pub fn pool_size(padding: Padding, input: usize, kernel: usize, stride: usize) -> (r: usize)
    requires
        stride > 0,
        kernel > 0,
    ensures
        r == pooled_size(padding, input as nat, kernel as nat, stride as nat),
        r <= input,
{
    match padding {
        Padding::Same => {
            let q = input / stride;
            assert(q * stride <= input && (input % stride != 0 ==> q < input)) by (nonlinear_arith)
                requires
                    stride > 0,
                    q == input / stride,
            ;
            if input % stride == 0 {
                q
            } else {
                q + 1
            }
        },
        Padding::Valid => {
            if input < kernel {
                0
            } else {
                let span = input - kernel;
                let q = span / stride;
                assert(q <= span) by (nonlinear_arith)
                    requires
                        stride > 0,
                        q == span / stride,
                ;
                q + 1
            }
        },
    }
}

impl Pool {
    /// What holds of the attributes that `build` reads: the window and the
    /// stride are positive.
    pub open spec fn well_formed(&self) -> bool {
        &&& self.ksize.0 > 0
        &&& self.ksize.1 > 0
        &&& self.strides.0 > 0
        &&& self.strides.1 > 0
        &&& self.ksize.0 * self.ksize.1 <= usize::MAX
    }

    /// Whether the window and the stride are positive and the window has a
    /// number of cells that can be counted.
    pub fn is_well_formed(&self) -> (r: bool)
        ensures
            r == self.well_formed(),
    {
        if self.ksize.0 == 0 || self.ksize.1 == 0 || self.strides.0 == 0 || self.strides.1 == 0 {
            return false;
        }
        let a: u128 = self.ksize.0 as u128;
        let b: u128 = self.ksize.1 as u128;
        assert(a * b <= 0xffff_ffff_ffff_ffff * 0xffff_ffff_ffff_ffff) by (nonlinear_arith)
            requires
                0 <= a <= 0xffff_ffff_ffff_ffff,
                0 <= b <= 0xffff_ffff_ffff_ffff,
        ;
        a * b <= usize::MAX as u128
    }

    /// The window or the stride along height and width from a list
    /// attribute.
    fn pair(list: &Vec<i64>) -> (r: Result<(usize, usize), Error>)
        ensures
            r == spatial_pair(list@),
    {
        if list.len() != 4 {
            return Err(Error::InvalidGraph);
        }
        let a = list[1];
        let b = list[2];
        if list[0] != 1 || list[3] != 1 || a < 1 || b < 1 || a as u64 > usize::MAX as u64 || b as u64
            > usize::MAX as u64 {
            return Err(Error::UnsupportedAttribute);
        }
        Ok((a as usize, b as usize))
    }

    /// Reads the pooling attributes of a node.
    pub fn build(pb: &NodeDef) -> (r: Result<Pool, Error>)
        ensures
            r == pool_of(*pb),
            r matches Ok(pool) ==> pool.well_formed(),
    {
        let ksize = match pb.get_attr_list_int("ksize") {
            Ok(list) => match Self::pair(&list) {
                Ok(pair) => pair,
                Err(e) => {
                    return Err(e);
                },
            },
            Err(e) => {
                return Err(e);
            },
        };
        let strides = match pb.get_attr_list_int("strides") {
            Ok(list) => match Self::pair(&list) {
                Ok(pair) => pair,
                Err(e) => {
                    return Err(e);
                },
            },
            Err(e) => {
                return Err(e);
            },
        };
        let name = match pb.get_attr_str("padding") {
            Ok(name) => name,
            Err(e) => {
                return Err(e);
            },
        };
        let padding = if *name == String::from_str("VALID") {
            Padding::Valid
        } else if *name == String::from_str("SAME") {
            Padding::Same
        } else {
            return Err(Error::UnsupportedAttribute);
        };
        let pool = Pool { ksize, strides, padding };
        if !pool.is_well_formed() {
            return Err(Error::UnsupportedAttribute);
        }
        Ok(pool)
    }

    /// The shape of the output for an input of the given shape.
    pub fn output_shape(&self, input: &[usize]) -> (r: Result<Vec<usize>, Error>)
        requires
            self.well_formed(),
        ensures
            match r {
                Ok(shape) => pooled_shape(*self, input@) == Ok::<Seq<usize>, Error>(shape@),
                Err(e) => pooled_shape(*self, input@) == Err::<Seq<usize>, Error>(e),
            },
    {
        if input.len() != 4 {
            return Err(Error::ShapeMismatch);
        }
        let mut shape: Vec<usize> = Vec::new();
        shape.push(input[0]);
        shape.push(pool_size(self.padding, input[1], self.ksize.0, self.strides.0));
        shape.push(pool_size(self.padding, input[2], self.ksize.1, self.strides.1));
        shape.push(input[3]);
        assert(shape@ =~= pooled_shape(*self, input@)->Ok_0);
        Ok(shape)
    }
}


/// Enters the operators of this file into a register.
pub fn register_all_ops(reg: &mut OpRegister)
    ensures
        final(reg)@ == old(reg)@.push(("MaxPool"@, OpKind::MaxPool)),
{
    reg.insert("MaxPool", OpKind::MaxPool);
}

/// How many places of padding lie before the input along a spatial axis:
/// with `SAME` padding half of what the windows need beyond the input,
/// rounded down; with `VALID` padding none.
pub open spec fn pad_before(padding: Padding, input: nat, kernel: nat, stride: nat) -> nat {
    match padding {
        Padding::Valid => 0,
        Padding::Same => {
            let out = pooled_size(Padding::Same, input, kernel, stride);
            if out == 0 || (out - 1) * stride + kernel <= input {
                0
            } else {
                (((out - 1) * stride + kernel - input) / 2) as nat
            }
        },
    }
}

/// The element in the cell `t` of the window for the output at batch `b`,
/// row `y`, column `x` and channel `ch`.  The cells of a window are counted
/// row by row; a cell that lies in the padding holds zero.
pub open spec fn window_value(m: MatrixView, pool: Pool, b: int, y: int, x: int, ch: int, t: int) -> i64 {
    let h = m.shape[1] as int;
    let w = m.shape[2] as int;
    let c = m.shape[3] as int;
    let iy = y * pool.strides.0 + t / (pool.ksize.1 as int) - pad_before(
        pool.padding,
        h as nat,
        pool.ksize.0 as nat,
        pool.strides.0 as nat,
    );
    let ix = x * pool.strides.1 + t % (pool.ksize.1 as int) - pad_before(
        pool.padding,
        w as nat,
        pool.ksize.1 as nat,
        pool.strides.1 as nat,
    );
    if 0 <= iy < h && 0 <= ix < w {
        m.data[((b * h + iy) * w + ix) * c + ch]
    } else {
        0
    }
}

/// A number by which elements are ordered as the numbers that they stand
/// for: an integer is ordered by its value; a floating-point number by its
/// bit pattern, turned round for the negative numbers, so that negative zero
/// comes before zero and each infinity before the patterns that are no
/// numbers of its sign.
pub open spec fn order_key(datatype: DataType, v: i64) -> int {
    if datatype == DataType::DT_FLOAT && v >= 0x8000_0000 {
        0x7fff_ffff - v
    } else {
        v as int
    }
}

/// The greater of two elements; the first where neither is greater.
pub open spec fn larger(datatype: DataType, a: i64, b: i64) -> i64 {
    if order_key(datatype, b) > order_key(datatype, a) {
        b
    } else {
        a
    }
}

/// The greatest element in the first `count` cells of a window.
pub open spec fn window_max(
    m: MatrixView,
    pool: Pool,
    b: int,
    y: int,
    x: int,
    ch: int,
    count: nat,
) -> i64
    decreases count,
{
    if count <= 1 {
        window_value(m, pool, b, y, x, ch, 0)
    } else {
        larger(
            m.datatype,
            window_max(m, pool, b, y, x, ch, (count - 1) as nat),
            window_value(m, pool, b, y, x, ch, count - 1),
        )
    }
}

/// The element at place `j` of the output of a max pooling whose output has
/// the shape `out`: the greatest element of the window for that place.
pub open spec fn pooled_cell(m: MatrixView, pool: Pool, out: Seq<usize>, j: int) -> i64 {
    let c = out[3] as int;
    let ow = out[2] as int;
    let oh = out[1] as int;
    window_max(
        m,
        pool,
        j / c / ow / oh,
        (j / c / ow) % oh,
        (j / c) % ow,
        j % c,
        (pool.ksize.0 * pool.ksize.1) as nat,
    )
}

/// What `MaxPool` computes from its one input, a batch of images of 32-bit
/// floating-point numbers or 32-bit integers: for each image and channel,
/// the greatest element of each window.
pub open spec fn max_pool_spec(pool: Pool, inputs: Seq<MatrixView>) -> Result<
    Seq<MatrixView>,
    Error,
> {
    if inputs.len() != 1 {
        Err(Error::InvalidGraph)
    } else if !pool.well_formed() {
        Err(Error::UnsupportedAttribute)
    } else if inputs[0].datatype != DataType::DT_FLOAT && inputs[0].datatype
        != DataType::DT_INT32 {
        Err(Error::TypeMismatch)
    } else {
        match pooled_shape(pool, inputs[0].shape) {
            Err(e) => Err(e),
            Ok(out) => if !addressable(out) || shape_size(out) > usize::MAX {
                Err(Error::ShapeMismatch)
            } else {
                Ok(
                    seq![
                        MatrixView {
                            datatype: inputs[0].datatype,
                            shape: out,
                            data: Seq::new(
                                shape_size(out),
                                |j: int| pooled_cell(inputs[0], pool, out, j),
                            ),
                        },
                    ],
                )
            },
        }
    }
}

/// A closed shape of four axes of which nothing is known.
pub open spec fn four_axes() -> AShapeView {
    AShapeView { open: false, dims: Seq::new(4, |i: int| ADimension::Any) }
}

/// What `MaxPool` infers of its output.  Where the input is known, the
/// output is known.  Where the shape of the input is known in full, the
/// output has the pooled shape.  Else the output has four axes.
pub open spec fn max_pool_forward_spec(pool: Pool, inputs: Seq<ATensorView>) -> Result<
    Seq<ATensorView>,
    Error,
> {
    if inputs.len() != 1 {
        Err(Error::InvalidGraph)
    } else if !pool.well_formed() {
        Err(Error::UnsupportedAttribute)
    } else if all_known(inputs) {
        concrete_inference(max_pool_spec(pool, known_values(inputs)))
    } else if inputs[0].shape.is_concrete() {
        match pooled_shape(pool, inputs[0].shape.sizes()) {
            Err(e) => Err(e),
            Ok(out) => Ok(
                seq![
                    ATensorView {
                        datatype: inputs[0].datatype,
                        shape: closed_shape(out),
                        value: None,
                    },
                ],
            ),
        }
    } else {
        Ok(seq![ATensorView { datatype: inputs[0].datatype, shape: four_axes(), value: None }])
    }
}

/// A place in a list of `x` groups of `y` places lies in one of the groups.
pub proof fn lemma_group_of(a: int, x: int, y: int)
    requires
        0 <= a < x * y,
        y > 0,
    ensures
        0 <= a / y < x,
        0 <= a % y < y,
{
    assert(0 <= a / y < x && 0 <= a % y < y) by (nonlinear_arith)
        requires
            0 <= a < x * y,
            y > 0,
    ;
}

/// The place `k` in the group `i` of `n` groups of `m` places is a place of
/// the list.
pub proof fn lemma_place_in(i: int, n: int, k: int, m: int)
    requires
        0 <= i < n,
        0 <= k < m,
    ensures
        0 <= i * m + k < n * m,
{
    assert(0 <= i * m + k < n * m) by (nonlinear_arith)
        requires
            0 <= i < n,
            0 <= k < m,
    ;
}

/// The number of elements of a shape of four axes is the product of the
/// four.
pub proof fn lemma_size_of_four(shape: Seq<usize>)
    requires
        shape.len() == 4,
    ensures
        shape_size(shape) == ((shape[0] as nat * shape[1] as nat) * shape[2] as nat)
            * shape[3] as nat,
{
    let three = shape.drop_last();
    let two = three.drop_last();
    let one = two.drop_last();
    assert(one.drop_last().len() == 0);
    assert(shape_size(one.drop_last()) == 1);
    assert(one.last() == shape[0]);
    assert(shape_size(one) == 1 * shape[0] as nat);
    assert(two.last() == shape[1]);
    assert(shape_size(two) == shape_size(one) * shape[1] as nat);
    assert(three.last() == shape[2]);
    assert(shape_size(three) == shape_size(two) * shape[2] as nat);
    assert(shape.last() == shape[3]);
    assert(shape_size(shape) == shape_size(three) * shape[3] as nat);
    assert(1 * shape[0] as nat == shape[0] as nat);
}

/// The operator `MaxPool`, with its pooling attributes.
#[derive(Debug)]
pub struct MaxPool {
    pub pool: Pool,
}

impl MaxPool {
    /// Makes the operator of a node from the node's pooling attributes.
    pub fn build(pb: &NodeDef) -> (r: Result<MaxPool, Error>)
        ensures
            match pool_of(*pb) {
                Ok(pool) => r == Ok::<MaxPool, Error>(MaxPool { pool }),
                Err(e) => r == Err::<MaxPool, Error>(e),
            },
    {
        match Pool::build(pb) {
            Ok(pool) => Ok(MaxPool { pool }),
            Err(e) => Err(e),
        }
    }

    /// How many places of padding lie before the input along a spatial axis
    /// whose size after pooling is `out`.
    fn padding_before(padding: Padding, input: usize, kernel: usize, stride: usize, out: usize) -> (r:
        u128)
        requires
            stride > 0,
            kernel > 0,
            out == pooled_size(padding, input as nat, kernel as nat, stride as nat),
        ensures
            r == pad_before(padding, input as nat, kernel as nat, stride as nat),
    {
        match padding {
            Padding::Valid => 0,
            Padding::Same => {
                if out == 0 {
                    return 0;
                }
                let steps: u128 = (out - 1) as u128;
                let wide: u128 = stride as u128;
                assert(steps * wide <= 0xffff_ffff_ffff_fffe * 0xffff_ffff_ffff_ffff)
                    by (nonlinear_arith)
                    requires
                        0 <= steps <= 0xffff_ffff_ffff_fffe,
                        0 <= wide <= 0xffff_ffff_ffff_ffff,
                ;
                let need: u128 = steps * wide + kernel as u128;
                if need <= input as u128 {
                    0
                } else {
                    (need - input as u128) / 2
                }
            },
        }
    }

    /// The element in the cell `t` of the window for the output at batch
    /// `b`, row `y`, column `x` and channel `ch`.
    fn cell(&self, m: &Matrix, pads: (u128, u128), b: usize, y: usize, x: usize, ch: usize, t: usize) -> (r:
        i64)
        requires
            self.pool.well_formed(),
            m@.valid(),
            m@.shape.len() == 4,
            b < m@.shape[0],
            ch < m@.shape[3],
            pads.0 == pad_before(
                self.pool.padding,
                m@.shape[1] as nat,
                self.pool.ksize.0 as nat,
                self.pool.strides.0 as nat,
            ),
            pads.1 == pad_before(
                self.pool.padding,
                m@.shape[2] as nat,
                self.pool.ksize.1 as nat,
                self.pool.strides.1 as nat,
            ),
        ensures
            r == window_value(m@, self.pool, b as int, y as int, x as int, ch as int, t as int),
            m@.datatype.holds(r) || r == 0,
    {
        let shape = m.shape();
        let h = shape[1];
        let w = shape[2];
        let c = shape[3];
        let ky = t / self.pool.ksize.1;
        let kx = t % self.pool.ksize.1;
        let ys: u128 = y as u128;
        let sy: u128 = self.pool.strides.0 as u128;
        let xs: u128 = x as u128;
        let sx: u128 = self.pool.strides.1 as u128;
        assert(ys * sy <= 0xffff_ffff_ffff_ffff * 0xffff_ffff_ffff_ffff) by (nonlinear_arith)
            requires
                0 <= ys <= 0xffff_ffff_ffff_ffff,
                0 <= sy <= 0xffff_ffff_ffff_ffff,
        ;
        assert(xs * sx <= 0xffff_ffff_ffff_ffff * 0xffff_ffff_ffff_ffff) by (nonlinear_arith)
            requires
                0 <= xs <= 0xffff_ffff_ffff_ffff,
                0 <= sx <= 0xffff_ffff_ffff_ffff,
        ;
        let py: u128 = ys * sy + ky as u128;
        let px: u128 = xs * sx + kx as u128;
        if py < pads.0 || px < pads.1 {
            return 0;
        }
        let iy: u128 = py - pads.0;
        let ix: u128 = px - pads.1;
        if iy >= h as u128 || ix >= w as u128 {
            return 0;
        }
        let iy = iy as usize;
        let ix = ix as usize;
        let count = m.len();
        proof {
            lemma_size_of_four(m@.shape);
            let n = m@.shape[0] as int;
            lemma_place_in(b as int, n, iy as int, h as int);
            lemma_place_in(b * h + iy, n * h, ix as int, w as int);
            lemma_place_in((b * h + iy) * w + ix, (n * h) * w, ch as int, c as int);
            let rows = n * h;
            let places = rows * w;
            assert(rows <= places && places <= places * c && 0 <= b * h && 0 <= (b * h + iy) * w
                && 0 <= ((b * h + iy) * w + ix) * c) by (nonlinear_arith)
                requires
                    rows == n * h,
                    places == rows * w,
                    0 <= b < n,
                    0 <= iy < h,
                    0 <= ix < w,
                    0 <= ch < c,
            ;
            assert(count == places * c);
            assert(b * h + iy < rows);
            assert((b * h + iy) * w + ix < places);
            assert(((b * h + iy) * w + ix) * c + ch < count);
        }
        let at = ((b * h + iy) * w + ix) * c + ch;
        let values = m.values();
        assert(m@.datatype.holds(m@.data[at as int]));
        values[at]
    }

    /// The greater of two elements.
    fn greater(datatype: DataType, a: i64, b: i64) -> (r: i64)
        ensures
            r == larger(datatype, a, b),
    {
        let key_a: i128 = match datatype {
            DataType::DT_FLOAT => if a >= 0x8000_0000 {
                0x7fff_ffff - a as i128
            } else {
                a as i128
            },
            _ => a as i128,
        };
        let key_b: i128 = match datatype {
            DataType::DT_FLOAT => if b >= 0x8000_0000 {
                0x7fff_ffff - b as i128
            } else {
                b as i128
            },
            _ => b as i128,
        };
        if key_b > key_a {
            b
        } else {
            a
        }
    }
}

impl Op for MaxPool {
    open spec fn eval_spec(&self, inputs: Seq<MatrixView>) -> Result<Seq<MatrixView>, Error> {
        max_pool_spec(self.pool, inputs)
    }

    open spec fn infer_forward_spec(&self, inputs: Seq<ATensorView>) -> Result<
        Seq<ATensorView>,
        Error,
    > {
        max_pool_forward_spec(self.pool, inputs)
    }

    open spec fn infer_backward_spec(&self, outputs: Seq<ATensorView>) -> Result<
        Seq<ATensorView>,
        Error,
    > {
        typed_backward_spec(outputs, false)
    }

    /// Evaluates the operation given the input tensors.
    fn eval(&self, inputs: Vec<Input>) -> (r: Result<Vec<Input>, Error>) {
        if inputs.len() != 1 {
            return Err(Error::InvalidGraph);
        }
        if !self.pool.is_well_formed() {
            return Err(Error::UnsupportedAttribute);
        }
        let ghost given = views_of(inputs@);
        let m = inputs[0].as_matrix();
        proof {
            use_type_invariant(m);
            assert(m@ == given[0]);
        }
        let datatype = m.datatype();
        if datatype != DataType::DT_FLOAT && datatype != DataType::DT_INT32 {
            return Err(Error::TypeMismatch);
        }
        let out = match self.pool.output_shape(m.shape()) {
            Ok(out) => out,
            Err(e) => {
                return Err(e);
            },
        };
        if !is_addressable(out.as_slice()) {
            return Err(Error::ShapeMismatch);
        }
        let total = match size_of_shape(out.as_slice()) {
            Some(total) => total,
            None => {
                return Err(Error::ShapeMismatch);
            },
        };
        let shape = m.shape();
        proof {
            lemma_pooled_shrinks(
                self.pool.padding,
                shape@[1] as nat,
                self.pool.ksize.0 as nat,
                self.pool.strides.0 as nat,
            );
            lemma_pooled_shrinks(
                self.pool.padding,
                shape@[2] as nat,
                self.pool.ksize.1 as nat,
                self.pool.strides.1 as nat,
            );
            assert(self.pool.ksize.0 * self.pool.ksize.1 > 0) by (nonlinear_arith)
                requires
                    self.pool.ksize.0 > 0,
                    self.pool.ksize.1 > 0,
            ;
        }
        let pads = (
            Self::padding_before(
                self.pool.padding,
                shape[1],
                self.pool.ksize.0,
                self.pool.strides.0,
                out[1],
            ),
            Self::padding_before(
                self.pool.padding,
                shape[2],
                self.pool.ksize.1,
                self.pool.strides.1,
                out[2],
            ),
        );
        let cells = self.pool.ksize.0 * self.pool.ksize.1;
        let oh = out[1];
        let ow = out[2];
        let c = out[3];
        let ghost pool = self.pool;
        let mut data: Vec<i64> = Vec::new();
        let mut j: usize = 0;
        while j < total
            invariant
                j <= total,
                pool == self.pool,
                pool.well_formed(),
                m@.valid(),
                m@.shape.len() == 4,
                out@.len() == 4,
                out@[0] == m@.shape[0],
                out@[3] == m@.shape[3],
                oh == out@[1],
                ow == out@[2],
                c == out@[3],
                total == shape_size(out@),
                cells == pool.ksize.0 * pool.ksize.1,
                cells > 0,
                pads.0 == pad_before(
                    pool.padding,
                    m@.shape[1] as nat,
                    pool.ksize.0 as nat,
                    pool.strides.0 as nat,
                ),
                pads.1 == pad_before(
                    pool.padding,
                    m@.shape[2] as nat,
                    pool.ksize.1 as nat,
                    pool.strides.1 as nat,
                ),
                datatype == m@.datatype,
                datatype == DataType::DT_FLOAT || datatype == DataType::DT_INT32,
                data@.len() == j,
                forall|q: int| 0 <= q < j ==> #[trigger] data@[q] == pooled_cell(m@, pool, out@, q),
                forall|q: int| 0 <= q < j ==> datatype.holds(#[trigger] data@[q]),
            decreases total - j,
        {
            proof {
                lemma_size_of_four(out@);
                let n = out@[0] as int;
                if c == 0 {
                    lemma_zero_dimension(out@, 3);
                }
                if ow == 0 {
                    lemma_zero_dimension(out@, 2);
                }
                if oh == 0 {
                    lemma_zero_dimension(out@, 1);
                }
                lemma_group_of(j as int, (n * oh) * ow, c as int);
                lemma_group_of(j as int / c as int, n * oh, ow as int);
                lemma_group_of(j as int / c as int / ow as int, n, oh as int);
            }
            let ch = j % c;
            let x = (j / c) % ow;
            let y = (j / c / ow) % oh;
            let b = j / c / ow / oh;
            let mut best = self.cell(m, pads, b, y, x, ch, 0);
            let mut t: usize = 1;
            while t < cells
                invariant
                    1 <= t <= cells,
                    pool == self.pool,
                    pool.well_formed(),
                    m@.valid(),
                    m@.shape.len() == 4,
                    b < m@.shape[0],
                    ch < m@.shape[3],
                    pads.0 == pad_before(
                        pool.padding,
                        m@.shape[1] as nat,
                        pool.ksize.0 as nat,
                        pool.strides.0 as nat,
                    ),
                    pads.1 == pad_before(
                        pool.padding,
                        m@.shape[2] as nat,
                        pool.ksize.1 as nat,
                        pool.strides.1 as nat,
                    ),
                    datatype == m@.datatype,
                    datatype == DataType::DT_FLOAT || datatype == DataType::DT_INT32,
                    best == window_max(m@, pool, b as int, y as int, x as int, ch as int, t as nat),
                    datatype.holds(best),
                decreases cells - t,
            {
                let next = self.cell(m, pads, b, y, x, ch, t);
                best = Self::greater(datatype, best, next);
                t += 1;
            }
            data.push(best);
            j += 1;
        }
        proof {
            assert(data@ =~= Seq::new(shape_size(out@), |q: int| pooled_cell(m@, pool, out@, q)));
            assert(all_hold(datatype, data@));
        }
        match Matrix::new(datatype, out, data) {
            Ok(pooled) => Ok(single(pooled)),
            Err(e) => Err(e),
        }
    }

    /// Infers properties about the output tensors from the input tensors.
    fn infer_forward(&self, inputs: Vec<&ATensor>) -> (r: Result<Vec<ATensor>, Error>) {
        if inputs.len() != 1 {
            return Err(Error::InvalidGraph);
        }
        if !self.pool.is_well_formed() {
            return Err(Error::UnsupportedAttribute);
        }
        if let Some(values) = known_inputs(&inputs) {
            return match self.eval(values) {
                Ok(outputs) => Ok(concrete_outputs(outputs)),
                Err(e) => Err(e),
            };
        }
        let ghost facts = facts_of_refs(inputs@);
        assert(facts[0] == inputs@[0]@);
        let shape = match inputs[0].shape.concretize() {
            Ok(sizes) => match self.pool.output_shape(sizes.as_slice()) {
                Ok(out) => AShape::from_sizes(out.as_slice()),
                Err(e) => {
                    return Err(e);
                },
            },
            Err(_) => {
                let mut dims: Vec<ADimension> = Vec::new();
                dims.push(ADimension::Any);
                dims.push(ADimension::Any);
                dims.push(ADimension::Any);
                dims.push(ADimension::Any);
                assert(dims@ =~= four_axes().dims);
                AShape::Closed(dims)
            },
        };
        let mut facts: Vec<ATensor> = Vec::new();
        facts.push(fact(inputs[0].datatype, shape));
        assert(facts_of(facts@) =~= seq![facts@[0]@]);
        Ok(facts)
    }

    /// Infers properties about the input tensors from the output tensors.
    fn infer_backward(&self, outputs: Vec<&ATensor>) -> (r: Result<Vec<ATensor>, Error>) {
        typed_backward(&outputs, false)
    }
}

} // verus!
