//! `Matrix` is the tensor of the engine: an element type, a shape, and the
//! elements in row-major order.

use vstd::prelude::*;
use vstd::slice::slice_to_vec;
use vstd::std_specs::cmp::PartialEqSpecImpl;
use crate::errors::Error;
use crate::tfpb::tensor::{TensorProto, TensorProtoView};
use crate::tfpb::types::DataType;

verus! {

/// Number of elements of a tensor of the given shape: the product of its
/// dimensions, which is one for a scalar.
pub open spec fn shape_size(shape: Seq<usize>) -> nat
    decreases shape.len(),
{
    if shape.len() == 0 {
        1
    } else {
        shape_size(shape.drop_last()) * (shape.last() as nat)
    }
}

/// Product of the dimensions of `shape` that are not zero.
pub open spec fn nonzero_size(shape: Seq<usize>) -> nat
    decreases shape.len(),
{
    if shape.len() == 0 {
        1
    } else if shape.last() == 0 {
        nonzero_size(shape.drop_last())
    } else {
        nonzero_size(shape.drop_last()) * (shape.last() as nat)
    }
}

/// Whether an array of this shape can be addressed: the product of its
/// non-zero dimensions is at most `isize::MAX`.
pub open spec fn addressable(shape: Seq<usize>) -> bool {
    nonzero_size(shape) <= isize::MAX
}

/// The 64-bit pattern `bits` read as a signed number in two's complement.
pub open spec fn signed_of_bits(bits: u64) -> i64 {
    if bits > i64::MAX as u64 {
        (bits - 0x1_0000_0000_0000_0000) as i64
    } else {
        bits as i64
    }
}

/// The signed number `v` written as a 64-bit pattern in two's complement.
pub open spec fn bits_of_signed(v: i64) -> u64 {
    if v < 0 {
        (v + 0x1_0000_0000_0000_0000) as u64
    } else {
        v as u64
    }
}

/// Reads a 64-bit pattern as a signed number in two's complement.
pub fn signed_from_bits(bits: u64) -> (r: i64)
    ensures
        r == signed_of_bits(bits),
        bits_of_signed(r) == bits,
{
    if bits > 0x7fff_ffff_ffff_ffff {
        let low: u64 = bits - 0x8000_0000_0000_0000;
        (low as i64) + i64::MIN
    } else {
        bits as i64
    }
}

/// Writes a signed number as a 64-bit pattern in two's complement.
pub fn bits_from_signed(v: i64) -> (r: u64)
    ensures
        r == bits_of_signed(v),
        signed_of_bits(r) == v,
{
    if v < 0 {
        let low: i64 = v - i64::MIN;
        (low as u64) + 0x8000_0000_0000_0000
    } else {
        v as u64
    }
}

/// The values of 32-bit signed integers as elements.
pub open spec fn elements_of_i32s(values: Seq<i32>) -> Seq<i64> {
    values.map_values(|v: i32| v as i64)
}

/// The values of 8-bit unsigned integers as elements.
pub open spec fn elements_of_u8s(values: Seq<u8>) -> Seq<i64> {
    values.map_values(|v: u8| v as i64)
}

/// The values of 8-bit signed integers as elements.
pub open spec fn elements_of_i8s(values: Seq<i8>) -> Seq<i64> {
    values.map_values(|v: i8| v as i64)
}

/// The bit patterns of 32-bit floating-point numbers as elements.
pub open spec fn elements_of_u32s(values: Seq<u32>) -> Seq<i64> {
    values.map_values(|v: u32| v as i64)
}

/// The bit patterns of 64-bit floating-point numbers as elements.
pub open spec fn elements_of_u64s(values: Seq<u64>) -> Seq<i64> {
    values.map_values(|v: u64| signed_of_bits(v))
}

/// Elements as the bit patterns of 32-bit floating-point numbers.
pub open spec fn u32s_of_elements(data: Seq<i64>) -> Seq<u32> {
    data.map_values(|v: i64| v as u32)
}

/// Elements as the bit patterns of 64-bit floating-point numbers.
pub open spec fn u64s_of_elements(data: Seq<i64>) -> Seq<u64> {
    data.map_values(|v: i64| bits_of_signed(v))
}

/// Elements as 32-bit signed integers.
pub open spec fn i32s_of_elements(data: Seq<i64>) -> Seq<i32> {
    data.map_values(|v: i64| v as i32)
}

/// Serialized dimensions as sizes.
pub open spec fn sizes_of_dims(dims: Seq<i64>) -> Seq<usize> {
    dims.map_values(|d: i64| d as usize)
}

/// Sizes as serialized dimensions.
pub open spec fn dims_of_sizes(sizes: Seq<usize>) -> Seq<i64> {
    sizes.map_values(|d: usize| d as i64)
}

/// Whether every element of `data` is one of type `datatype`.
pub open spec fn all_hold(datatype: DataType, data: Seq<i64>) -> bool {
    forall|i: int| 0 <= i < data.len() ==> datatype.holds(#[trigger] data[i])
}

/// A tensor as mathematical data.  An integer element is its value; a
/// floating-point element is its bit pattern (see `DataType::holds`).
pub struct MatrixView {
    pub datatype: DataType,
    pub shape: Seq<usize>,
    pub data: Seq<i64>,
}

impl MatrixView {
    /// What holds of every tensor: the shape can be addressed, the number of
    /// elements is the product of the shape, and every element is one of the
    /// tensor's type.
    pub open spec fn valid(self) -> bool {
        &&& addressable(self.shape)
        &&& self.data.len() == shape_size(self.shape)
        &&& all_hold(self.datatype, self.data)
    }

    /// Number of dimensions.
    pub open spec fn rank(self) -> nat {
        self.shape.len()
    }

    /// Number of elements.
    pub open spec fn element_count(self) -> nat {
        self.data.len()
    }
}

/// The number that `bytes` spell in little-endian order.
pub open spec fn le_value(bytes: Seq<u8>) -> nat
    decreases bytes.len(),
{
    if bytes.len() == 0 {
        0
    } else {
        bytes[0] as nat + 256 * le_value(bytes.skip(1))
    }
}

/// The element of type `datatype` that `chunk` holds in little-endian order,
/// where `chunk` has as many bytes as the type is wide.
pub open spec fn element_of_bytes(datatype: DataType, chunk: Seq<u8>) -> i64 {
    let v = le_value(chunk);
    match datatype {
        DataType::DT_FLOAT => v as i64,
        DataType::DT_DOUBLE => signed_of_bits(v as u64),
        DataType::DT_INT32 => if v >= 0x8000_0000 {
            (v - 0x1_0000_0000) as i64
        } else {
            v as i64
        },
        DataType::DT_UINT8 => v as i64,
        DataType::DT_INT8 | DataType::DT_STRING => if v >= 0x80 {
            (v - 0x100) as i64
        } else {
            v as i64
        },
    }
}

/// The elements that packed bytes hold: one for each whole group of as many
/// bytes as the type is wide; bytes left over at the end are ignored.
pub open spec fn decode_content(datatype: DataType, content: Seq<u8>) -> Seq<i64> {
    let width = datatype.spec_byte_width() as int;
    Seq::new(
        (content.len() / width as nat) as nat,
        |i: int| element_of_bytes(datatype, content.subrange(i * width, (i + 1) * width)),
    )
}

/// The elements that the typed lists of a serialized tensor hold for its
/// element type.
pub open spec fn listed_values(t: TensorProtoView) -> Seq<i64> {
    match t.dtype {
        DataType::DT_FLOAT => elements_of_u32s(t.float_val),
        DataType::DT_DOUBLE => elements_of_u64s(t.double_val),
        _ => elements_of_i32s(t.int_val),
    }
}

/// Whether a serialized dimension is a size.
pub open spec fn fits_usize(d: i64) -> bool {
    0 <= d <= usize::MAX
}

/// The tensor that a serialized tensor stands for.  A byte-string tensor is
/// a `TypeMismatch`; so is a listed element outside the element type.  A
/// negative dimension, one beyond `usize`, or a shape whose size is not the
/// number of elements is a `ShapeMismatch`.
pub open spec fn tensor_of(t: TensorProtoView) -> Result<MatrixView, Error> {
    if t.dtype == DataType::DT_STRING {
        Err(Error::TypeMismatch)
    } else if exists|i: int| 0 <= i < t.tensor_shape.len() && !fits_usize(#[trigger] t.tensor_shape[i]) {
        Err(Error::ShapeMismatch)
    } else {
        let m = MatrixView {
            datatype: t.dtype,
            shape: sizes_of_dims(t.tensor_shape),
            data: if t.tensor_content.len() != 0 {
                decode_content(t.dtype, t.tensor_content)
            } else {
                listed_values(t)
            },
        };
        if m.valid() {
            Ok(m)
        } else if !all_hold(m.datatype, m.data) {
            Err(Error::TypeMismatch)
        } else {
            Err(Error::ShapeMismatch)
        }
    }
}

/// The serialized form of a tensor: its type, its dimensions, no packed
/// bytes, and its elements in the list for its type.
pub open spec fn proto_of(m: MatrixView) -> TensorProtoView {
    TensorProtoView {
        dtype: m.datatype,
        tensor_shape: dims_of_sizes(m.shape),
        tensor_content: Seq::empty(),
        float_val: if m.datatype == DataType::DT_FLOAT {
            u32s_of_elements(m.data)
        } else {
            Seq::empty()
        },
        double_val: if m.datatype == DataType::DT_DOUBLE {
            u64s_of_elements(m.data)
        } else {
            Seq::empty()
        },
        int_val: if m.datatype == DataType::DT_FLOAT || m.datatype == DataType::DT_DOUBLE {
            Seq::empty()
        } else {
            i32s_of_elements(m.data)
        },
    }
}

/// The `n`-th power of 256.
pub open spec fn pow256(n: nat) -> nat
    decreases n,
{
    if n == 0 {
        1
    } else {
        256 * pow256((n - 1) as nat)
    }
}

proof fn lemma_pow256_values()
    ensures
        pow256(0) == 1,
        pow256(1) == 0x100,
        pow256(4) == 0x1_0000_0000,
        pow256(8) == 0x1_0000_0000_0000_0000,
{
    reveal_with_fuel(pow256, 10);
}

/// Every dimension of a shape that can be addressed is at most `isize::MAX`.
pub proof fn lemma_dims_bounded(shape: Seq<usize>)
    requires
        addressable(shape),
    ensures
        forall|j: int| 0 <= j < shape.len() ==> #[trigger] shape[j] <= isize::MAX,
    decreases shape.len(),
{
    if shape.len() > 0 {
        lemma_nonzero_size_positive(shape.drop_last());
        let rest = nonzero_size(shape.drop_last());
        let last = shape.last() as nat;
        if last != 0 {
            assert(rest * last >= rest && rest * last >= last) by (nonlinear_arith)
                requires
                    rest >= 1,
                    last >= 1,
            ;
        }
        lemma_dims_bounded(shape.drop_last());
        assert forall|j: int| 0 <= j < shape.len() implies #[trigger] shape[j] <= isize::MAX by {
            if j < shape.len() - 1 {
                assert(shape[j] == shape.drop_last()[j]);
            }
        }
    }
}

/// The product of the non-zero dimensions of a shape is at least one.
pub proof fn lemma_nonzero_size_positive(shape: Seq<usize>)
    ensures
        nonzero_size(shape) >= 1,
    decreases shape.len(),
{
    if shape.len() > 0 {
        lemma_nonzero_size_positive(shape.drop_last());
        let rest = nonzero_size(shape.drop_last());
        let last = shape.last() as nat;
        if last != 0 {
            assert(rest * last >= 1) by (nonlinear_arith)
                requires
                    rest >= 1,
                    last >= 1,
            ;
        }
    }
}

/// Serializing a tensor and reading the result back gives the tensor again.
pub proof fn lemma_pb_round_trip(m: MatrixView)
    requires
        m.valid(),
        m.datatype != DataType::DT_STRING,
    ensures
        tensor_of(proto_of(m)) == Ok::<MatrixView, Error>(m),
{
    let t = proto_of(m);
    lemma_dims_bounded(m.shape);
    assert forall|i: int| 0 <= i < t.tensor_shape.len() implies fits_usize(
        #[trigger] t.tensor_shape[i],
    ) by {
        assert(m.shape[i] <= isize::MAX);
    }
    assert(sizes_of_dims(t.tensor_shape) =~= m.shape) by {
        assert forall|i: int| 0 <= i < m.shape.len() implies sizes_of_dims(t.tensor_shape)[i]
            == m.shape[i] by {
            assert(m.shape[i] <= isize::MAX);
        }
    }
    assert(listed_values(t) =~= m.data) by {
        assert forall|i: int| 0 <= i < m.data.len() implies listed_values(t)[i] == m.data[i] by {
            assert(m.datatype.holds(m.data[i]));
        }
    }
}

/// The element count of a valid tensor is the product of its dimensions.
pub proof fn lemma_element_count(m: MatrixView)
    requires
        m.valid(),
    ensures
        m.element_count() == shape_size(m.shape),
{
}

/// A shape with a zero dimension has no elements.
pub proof fn lemma_zero_dimension(shape: Seq<usize>, at: int)
    requires
        0 <= at < shape.len(),
        shape[at] == 0,
    ensures
        shape_size(shape) == 0,
    decreases shape.len(),
{
    if at < shape.len() - 1 {
        assert(shape.drop_last()[at] == 0);
        lemma_zero_dimension(shape.drop_last(), at);
        assert(shape_size(shape.drop_last()) * (shape.last() as nat) == 0) by (nonlinear_arith)
            requires
                shape_size(shape.drop_last()) == 0,
        ;
    } else {
        assert(shape_size(shape.drop_last()) * (shape.last() as nat) == 0) by (nonlinear_arith)
            requires
                shape.last() == 0,
        ;
    }
}

/// Where no dimension is zero, the size is the product of the non-zero
/// dimensions, and it is at least one.
pub proof fn lemma_no_zero_dimension(shape: Seq<usize>)
    requires
        forall|i: int| 0 <= i < shape.len() ==> #[trigger] shape[i] != 0,
    ensures
        shape_size(shape) == nonzero_size(shape),
        shape_size(shape) >= 1,
    decreases shape.len(),
{
    lemma_nonzero_size_positive(shape);
    if shape.len() > 0 {
        assert forall|i: int| 0 <= i < shape.drop_last().len() implies #[trigger] shape.drop_last()[i]
            != 0 by {
            assert(shape.drop_last()[i] == shape[i]);
        }
        lemma_no_zero_dimension(shape.drop_last());
        assert(shape[shape.len() - 1] != 0);
    }
}

/// The number of elements of a tensor of the given shape, or nothing where
/// it is beyond `usize`.
pub fn size_of_shape(shape: &[usize]) -> (r: Option<usize>)
    ensures
        match r {
            Some(n) => n == shape_size(shape@),
            None => shape_size(shape@) > usize::MAX,
        },
{
    let n = shape.len();
    let mut i: usize = 0;
    while i < n
        invariant
            i <= n,
            n == shape@.len(),
            forall|j: int| 0 <= j < i ==> #[trigger] shape@[j] != 0,
        decreases n - i,
    {
        if shape[i] == 0 {
            proof {
                lemma_zero_dimension(shape@, i as int);
            }
            return Some(0);
        }
        i += 1;
    }
    let mut product: usize = 1;
    let mut k: usize = 0;
    assert(shape@.take(0).len() == 0);
    while k < n
        invariant
            k <= n,
            n == shape@.len(),
            forall|j: int| 0 <= j < n ==> #[trigger] shape@[j] != 0,
            product == shape_size(shape@.take(k as int)),
        decreases n - k,
    {
        let d = shape[k];
        let wide: u128 = product as u128;
        let factor: u128 = d as u128;
        assert(wide * factor <= 0xffff_ffff_ffff_ffff * 0xffff_ffff_ffff_ffff) by (nonlinear_arith)
            requires
                0 <= wide <= 0xffff_ffff_ffff_ffff,
                0 <= factor <= 0xffff_ffff_ffff_ffff,
        ;
        let next: u128 = wide * factor;
        proof {
            assert(shape@.take(k + 1).drop_last() == shape@.take(k as int));
            assert(shape@.take(k + 1).last() == d);
        }
        if next > usize::MAX as u128 {
            proof {
                lemma_size_grows(shape@, k + 1);
            }
            return None;
        }
        product = next as usize;
        k += 1;
    }
    assert(shape@.take(n as int) == shape@);
    Some(product)
}

/// Where no dimension is zero, the size of a shape is at least the size of
/// each of its prefixes.
pub proof fn lemma_size_grows(shape: Seq<usize>, k: int)
    requires
        0 <= k <= shape.len(),
        forall|j: int| 0 <= j < shape.len() ==> #[trigger] shape[j] != 0,
    ensures
        shape_size(shape.take(k)) <= shape_size(shape),
    decreases shape.len() - k,
{
    if k == shape.len() {
        assert(shape.take(k) == shape);
    } else {
        lemma_size_grows(shape, k + 1);
        assert(shape.take(k + 1).drop_last() == shape.take(k));
        assert(shape.take(k + 1).last() == shape[k]);
        let a = shape_size(shape.take(k));
        let d = shape[k] as nat;
        assert(a * d >= a) by (nonlinear_arith)
            requires
                d >= 1,
        ;
    }
}

/// A list of `n` elements has the shape of one dimension `n`.
pub proof fn lemma_list_shape(n: usize)
    ensures
        shape_size(seq![n]) == n,
        nonzero_size(seq![n]) == if n == 0 {
            1nat
        } else {
            n as nat
        },
{
    let list = seq![n];
    assert(list.drop_last().len() == 0);
    assert(shape_size(list.drop_last()) == 1);
    assert(nonzero_size(list.drop_last()) == 1);
    assert(list.last() == n);
    assert(shape_size(list) == shape_size(list.drop_last()) * (list.last() as nat));
}

/// Where a prefix of a shape cannot be addressed, the shape cannot either.
pub proof fn lemma_nonzero_size_grows(shape: Seq<usize>, k: int)
    requires
        0 <= k <= shape.len(),
    ensures
        nonzero_size(shape.take(k)) <= nonzero_size(shape),
    decreases shape.len() - k,
{
    if k == shape.len() {
        assert(shape.take(k) == shape);
    } else {
        lemma_nonzero_size_grows(shape, k + 1);
        assert(shape.take(k + 1).drop_last() == shape.take(k));
        assert(shape.take(k + 1).last() == shape[k]);
        let a = nonzero_size(shape.take(k));
        let d = shape[k] as nat;
        if d != 0 {
            assert(a * d >= a) by (nonlinear_arith)
                requires
                    d >= 1,
            ;
        }
    }
}

/// Whether an array of this shape can be addressed.
pub fn is_addressable(shape: &[usize]) -> (r: bool)
    ensures
        r == addressable(shape@),
{
    let n = shape.len();
    let mut product: usize = 1;
    let mut k: usize = 0;
    assert(shape@.take(0).len() == 0);
    while k < n
        invariant
            k <= n,
            n == shape@.len(),
            product == nonzero_size(shape@.take(k as int)),
            product <= isize::MAX,
        decreases n - k,
    {
        let d = shape[k];
        proof {
            assert(shape@.take(k + 1).drop_last() == shape@.take(k as int));
            assert(shape@.take(k + 1).last() == d);
        }
        if d != 0 {
            let wide: u128 = product as u128;
            let factor: u128 = d as u128;
            assert(wide * factor <= 0xffff_ffff_ffff_ffff * 0xffff_ffff_ffff_ffff)
                by (nonlinear_arith)
                requires
                    0 <= wide <= 0xffff_ffff_ffff_ffff,
                    0 <= factor <= 0xffff_ffff_ffff_ffff,
            ;
            let next: u128 = wide * factor;
            if next > isize::MAX as u128 {
                proof {
                    lemma_nonzero_size_grows(shape@, k + 1);
                }
                return false;
            }
            product = next as usize;
        }
        k += 1;
    }
    assert(shape@.take(n as int) == shape@);
    true
}

/// A typed multi-dimensional array.
#[derive(Debug)]
pub struct Matrix {
    datatype: DataType,
    shape: Vec<usize>,
    data: Vec<i64>,
}

impl View for Matrix {
    type V = MatrixView;

    closed spec fn view(&self) -> MatrixView {
        MatrixView { datatype: self.datatype, shape: self.shape@, data: self.data@ }
    }
}

/// Calls `ndarray::ArrayD::from_shape_vec` with a shape in default (row-major)
/// order and hands back the vector that the array holds.  The contract claims
/// that the call succeeds exactly when the shape can be addressed and its
/// size is the length of `data`, and that the vector comes back unchanged.
#[verifier::external_body]
fn array_from_shape_vec(shape: &Vec<usize>, data: Vec<i64>) -> (r: Result<Vec<i64>, ndarray::ShapeError>)
    ensures
        r.is_ok() == (addressable(shape@) && shape_size(shape@) == data@.len()),
        r matches Ok(d) ==> d@ == data@,
{
    Ok(ndarray::ArrayD::from_shape_vec(ndarray::IxDyn(shape), data)?.into_raw_vec())
}

/// Calls `into_shape` of an `ndarray::ArrayD` that was made from `shape` and
/// `data` in row-major order, and hands back the vector of the reshaped
/// array.  The contract claims that the call succeeds exactly when the new
/// shape can be addressed and has as many elements as the array, and that
/// the elements keep their order.
#[verifier::external_body]
fn array_into_shape(shape: &Vec<usize>, data: Vec<i64>, dims: &Vec<usize>) -> (r: Result<Vec<i64>, ndarray::ShapeError>)
    requires
        addressable(shape@),
        shape_size(shape@) == data@.len(),
    ensures
        r.is_ok() == (addressable(dims@) && shape_size(dims@) == data@.len()),
        r matches Ok(d) ==> d@ == data@,
{
    let array = ndarray::ArrayD::from_shape_vec(ndarray::IxDyn(shape), data).unwrap();
    Ok(array.into_shape(ndarray::IxDyn(dims))?.into_raw_vec())
}

/// The error that `ndarray` reports for shapes that do not fit.
#[verifier::external_type_specification]
#[verifier::external_body]
pub struct ExShapeError(ndarray::ShapeError);

impl Matrix {
    /// What holds of every tensor.
    #[verifier::type_invariant]
    pub open spec fn well_formed(&self) -> bool {
        self@.valid()
    }

    /// Whether every element of `data` is one of type `datatype`.
    fn all_admitted(datatype: DataType, data: &Vec<i64>) -> (r: bool)
        ensures
            r <==> all_hold(datatype, data@),
    {
        let mut i: usize = 0;
        while i < data.len()
            invariant
                i <= data.len(),
                forall|j: int| 0 <= j < i ==> datatype.holds(#[trigger] data@[j]),
            decreases data.len() - i,
        {
            if !datatype.admits(data[i]) {
                return false;
            }
            i += 1;
        }
        true
    }

    /// Makes a tensor from its element type, its shape and its elements in
    /// row-major order.  Fails with `TypeMismatch` where an element is not
    /// one of the type, else with `ShapeMismatch` where the shape cannot be
    /// addressed or its size is not the number of elements.
    pub fn new(datatype: DataType, shape: Vec<usize>, data: Vec<i64>) -> (r: Result<Matrix, Error>)
        ensures
            match r {
                Ok(m) => m@ == (MatrixView { datatype, shape: shape@, data: data@ }),
                Err(e) => if all_hold(datatype, data@) {
                    e == Error::ShapeMismatch
                } else {
                    e == Error::TypeMismatch
                },
            },
            r.is_ok() <==> (MatrixView { datatype, shape: shape@, data: data@ }).valid(),
    {
        if !Self::all_admitted(datatype, &data) {
            return Err(Error::TypeMismatch);
        }
        match array_from_shape_vec(&shape, data) {
            Ok(data) => Ok(Matrix { datatype, shape, data }),
            Err(_) => Err(Error::ShapeMismatch),
        }
    }

    /// Makes a tensor of 32-bit signed integers.  Fails with
    /// `ShapeMismatch` unless `shape` can be addressed and its size is the
    /// number of values.
    pub fn i32s(shape: &[usize], values: &[i32]) -> (r: Result<Matrix, Error>)
        ensures
            match r {
                Ok(m) => m@ == (MatrixView {
                    datatype: DataType::DT_INT32,
                    shape: shape@,
                    data: elements_of_i32s(values@),
                }),
                Err(e) => e == Error::ShapeMismatch,
            },
            r.is_ok() <==> addressable(shape@) && shape_size(shape@) == values@.len(),
    {
        let mut data: Vec<i64> = Vec::new();
        let mut i: usize = 0;
        while i < values.len()
            invariant
                i <= values.len(),
                data@ == elements_of_i32s(values@.take(i as int)),
            decreases values.len() - i,
        {
            data.push(values[i] as i64);
            assert(values@.take(i + 1).drop_last() == values@.take(i as int));
            i += 1;
        }
        assert(values@.take(i as int) == values@);
        Matrix::new(DataType::DT_INT32, slice_to_vec(shape), data)
    }

    /// The elements as 32-bit signed integers, or nothing where the
    /// tensor has another element type.
    pub fn as_i32s(&self) -> (r: Option<Vec<i32>>)
        ensures
            r.is_some() <==> self@.datatype == DataType::DT_INT32,
            r matches Some(values) ==> elements_of_i32s(values@) == self@.data,
    {
        proof {
            use_type_invariant(self);
        }
        if self.datatype != DataType::DT_INT32 {
            return None;
        }
        let mut values: Vec<i32> = Vec::new();
        let mut i: usize = 0;
        while i < self.data.len()
            invariant
                i <= self.data.len(),
                self@.valid(),
                self@.datatype == DataType::DT_INT32,
                values@.len() == i,
                forall|j: int| 0 <= j < i ==> (#[trigger] values@[j]) as i64 == self@.data[j],
            decreases self.data.len() - i,
        {
            assert(self@.datatype.holds(self@.data[i as int]));
            values.push(self.data[i] as i32);
            i += 1;
        }
        assert(elements_of_i32s(values@) =~= self@.data);
        Some(values)
    }

    /// Makes a tensor of 8-bit unsigned integers.  Fails with
    /// `ShapeMismatch` unless `shape` can be addressed and its size is the
    /// number of values.
    pub fn u8s(shape: &[usize], values: &[u8]) -> (r: Result<Matrix, Error>)
        ensures
            match r {
                Ok(m) => m@ == (MatrixView {
                    datatype: DataType::DT_UINT8,
                    shape: shape@,
                    data: elements_of_u8s(values@),
                }),
                Err(e) => e == Error::ShapeMismatch,
            },
            r.is_ok() <==> addressable(shape@) && shape_size(shape@) == values@.len(),
    {
        let mut data: Vec<i64> = Vec::new();
        let mut i: usize = 0;
        while i < values.len()
            invariant
                i <= values.len(),
                data@ == elements_of_u8s(values@.take(i as int)),
            decreases values.len() - i,
        {
            data.push(values[i] as i64);
            assert(values@.take(i + 1).drop_last() == values@.take(i as int));
            i += 1;
        }
        assert(values@.take(i as int) == values@);
        Matrix::new(DataType::DT_UINT8, slice_to_vec(shape), data)
    }

    /// The elements as 8-bit unsigned integers, or nothing where the
    /// tensor has another element type.
    pub fn as_u8s(&self) -> (r: Option<Vec<u8>>)
        ensures
            r.is_some() <==> self@.datatype == DataType::DT_UINT8,
            r matches Some(values) ==> elements_of_u8s(values@) == self@.data,
    {
        proof {
            use_type_invariant(self);
        }
        if self.datatype != DataType::DT_UINT8 {
            return None;
        }
        let mut values: Vec<u8> = Vec::new();
        let mut i: usize = 0;
        while i < self.data.len()
            invariant
                i <= self.data.len(),
                self@.valid(),
                self@.datatype == DataType::DT_UINT8,
                values@.len() == i,
                forall|j: int| 0 <= j < i ==> (#[trigger] values@[j]) as i64 == self@.data[j],
            decreases self.data.len() - i,
        {
            assert(self@.datatype.holds(self@.data[i as int]));
            values.push(self.data[i] as u8);
            i += 1;
        }
        assert(elements_of_u8s(values@) =~= self@.data);
        Some(values)
    }

    /// Makes a tensor of 8-bit signed integers.  Fails with
    /// `ShapeMismatch` unless `shape` can be addressed and its size is the
    /// number of values.
    pub fn i8s(shape: &[usize], values: &[i8]) -> (r: Result<Matrix, Error>)
        ensures
            match r {
                Ok(m) => m@ == (MatrixView {
                    datatype: DataType::DT_INT8,
                    shape: shape@,
                    data: elements_of_i8s(values@),
                }),
                Err(e) => e == Error::ShapeMismatch,
            },
            r.is_ok() <==> addressable(shape@) && shape_size(shape@) == values@.len(),
    {
        let mut data: Vec<i64> = Vec::new();
        let mut i: usize = 0;
        while i < values.len()
            invariant
                i <= values.len(),
                data@ == elements_of_i8s(values@.take(i as int)),
            decreases values.len() - i,
        {
            data.push(values[i] as i64);
            assert(values@.take(i + 1).drop_last() == values@.take(i as int));
            i += 1;
        }
        assert(values@.take(i as int) == values@);
        Matrix::new(DataType::DT_INT8, slice_to_vec(shape), data)
    }

    /// The elements as 8-bit signed integers, or nothing where the
    /// tensor has another element type.
    pub fn as_i8s(&self) -> (r: Option<Vec<i8>>)
        ensures
            r.is_some() <==> self@.datatype == DataType::DT_INT8,
            r matches Some(values) ==> elements_of_i8s(values@) == self@.data,
    {
        proof {
            use_type_invariant(self);
        }
        if self.datatype != DataType::DT_INT8 {
            return None;
        }
        let mut values: Vec<i8> = Vec::new();
        let mut i: usize = 0;
        while i < self.data.len()
            invariant
                i <= self.data.len(),
                self@.valid(),
                self@.datatype == DataType::DT_INT8,
                values@.len() == i,
                forall|j: int| 0 <= j < i ==> (#[trigger] values@[j]) as i64 == self@.data[j],
            decreases self.data.len() - i,
        {
            assert(self@.datatype.holds(self@.data[i as int]));
            values.push(self.data[i] as i8);
            i += 1;
        }
        assert(elements_of_i8s(values@) =~= self@.data);
        Some(values)
    }

    /// Makes a tensor of 32-bit floating-point numbers, each given by its bit pattern.  Fails with
    /// `ShapeMismatch` unless `shape` can be addressed and its size is the
    /// number of values.
    pub fn f32s(shape: &[usize], values: &[u32]) -> (r: Result<Matrix, Error>)
        ensures
            match r {
                Ok(m) => m@ == (MatrixView {
                    datatype: DataType::DT_FLOAT,
                    shape: shape@,
                    data: elements_of_u32s(values@),
                }),
                Err(e) => e == Error::ShapeMismatch,
            },
            r.is_ok() <==> addressable(shape@) && shape_size(shape@) == values@.len(),
    {
        let mut data: Vec<i64> = Vec::new();
        let mut i: usize = 0;
        while i < values.len()
            invariant
                i <= values.len(),
                data@ == elements_of_u32s(values@.take(i as int)),
            decreases values.len() - i,
        {
            data.push(values[i] as i64);
            assert(values@.take(i + 1).drop_last() == values@.take(i as int));
            i += 1;
        }
        assert(values@.take(i as int) == values@);
        Matrix::new(DataType::DT_FLOAT, slice_to_vec(shape), data)
    }

    /// The elements as 32-bit floating-point numbers, each given by its bit pattern, or nothing where the
    /// tensor has another element type.
    pub fn as_f32s(&self) -> (r: Option<Vec<u32>>)
        ensures
            r.is_some() <==> self@.datatype == DataType::DT_FLOAT,
            r matches Some(values) ==> elements_of_u32s(values@) == self@.data,
    {
        proof {
            use_type_invariant(self);
        }
        if self.datatype != DataType::DT_FLOAT {
            return None;
        }
        let mut values: Vec<u32> = Vec::new();
        let mut i: usize = 0;
        while i < self.data.len()
            invariant
                i <= self.data.len(),
                self@.valid(),
                self@.datatype == DataType::DT_FLOAT,
                values@.len() == i,
                forall|j: int| 0 <= j < i ==> (#[trigger] values@[j]) as i64 == self@.data[j],
            decreases self.data.len() - i,
        {
            assert(self@.datatype.holds(self@.data[i as int]));
            values.push(self.data[i] as u32);
            i += 1;
        }
        assert(elements_of_u32s(values@) =~= self@.data);
        Some(values)
    }

    /// Makes a tensor of 64-bit floating-point numbers, each given by its bit
    /// pattern.  Fails with `ShapeMismatch` unless `shape` can be addressed
    /// and its size is the number of values.
    pub fn f64s(shape: &[usize], values: &[u64]) -> (r: Result<Matrix, Error>)
        ensures
            match r {
                Ok(m) => m@ == (MatrixView {
                    datatype: DataType::DT_DOUBLE,
                    shape: shape@,
                    data: elements_of_u64s(values@),
                }),
                Err(e) => e == Error::ShapeMismatch,
            },
            r.is_ok() <==> addressable(shape@) && shape_size(shape@) == values@.len(),
    {
        let mut data: Vec<i64> = Vec::new();
        let mut i: usize = 0;
        while i < values.len()
            invariant
                i <= values.len(),
                data@ == elements_of_u64s(values@.take(i as int)),
            decreases values.len() - i,
        {
            data.push(signed_from_bits(values[i]));
            assert(values@.take(i + 1).drop_last() == values@.take(i as int));
            i += 1;
        }
        assert(values@.take(i as int) == values@);
        Matrix::new(DataType::DT_DOUBLE, slice_to_vec(shape), data)
    }

    /// The elements as the bit patterns of 64-bit floating-point numbers, or
    /// nothing where the tensor has another element type.
    pub fn as_f64s(&self) -> (r: Option<Vec<u64>>)
        ensures
            r.is_some() <==> self@.datatype == DataType::DT_DOUBLE,
            r matches Some(values) ==> elements_of_u64s(values@)
                == self@.data,
    {
        if self.datatype != DataType::DT_DOUBLE {
            return None;
        }
        let mut values: Vec<u64> = Vec::new();
        let mut i: usize = 0;
        while i < self.data.len()
            invariant
                i <= self.data.len(),
                values@.len() == i,
                forall|j: int| 0 <= j < i ==> signed_of_bits(#[trigger] values@[j]) == self@.data[j],
            decreases self.data.len() - i,
        {
            values.push(bits_from_signed(self.data[i]));
            i += 1;
        }
        assert(elements_of_u64s(values@) =~= self@.data);
        Some(values)
    }

    /// Reads one element of type `datatype` from the bytes of `content` that
    /// start at `start`.
    fn element_from_bytes(datatype: DataType, content: &[u8], start: usize) -> (r: i64)
        requires
            start + datatype.spec_byte_width() <= content@.len(),
        ensures
            r == element_of_bytes(
                datatype,
                content@.subrange(start as int, start + datatype.spec_byte_width()),
            ),
            datatype.holds(r),
    {
        let width = datatype.byte_width();
        let n = content.len();
        let ghost chunk = content@.subrange(start as int, start + width);
        let mut v: u64 = 0;
        let mut k: usize = width;
        while k > 0
            invariant
                k <= width <= 8,
                width == datatype.spec_byte_width(),
                n == content@.len(),
                start + width <= n,
                chunk == content@.subrange(start as int, start + width),
                v == le_value(chunk.skip(k as int)),
                v < pow256((width - k) as nat),
            decreases k,
        {
            k -= 1;
            proof {
                assert(chunk.skip(k as int).skip(1) == chunk.skip(k + 1));
                assert(chunk.skip(k as int)[0] == content@[start + k]);
                reveal_with_fuel(pow256, 10);
            }
            v = content[start + k] as u64 + 256 * v;
        }
        proof {
            assert(chunk.skip(0) == chunk);
            lemma_pow256_values();
        }
        match datatype {
            DataType::DT_FLOAT => v as i64,
            DataType::DT_DOUBLE => signed_from_bits(v),
            DataType::DT_INT32 => if v >= 0x8000_0000 {
                v as i64 - 0x1_0000_0000
            } else {
                v as i64
            },
            DataType::DT_UINT8 => v as i64,
            DataType::DT_INT8 | DataType::DT_STRING => if v >= 0x80 {
                v as i64 - 0x100
            } else {
                v as i64
            },
        }
    }

    /// Makes a tensor of the given type and dimensions from elements packed
    /// in little-endian order.  Bytes left over after the last whole element
    /// are ignored.  Fails with `ShapeMismatch` unless the dimensions can be
    /// addressed and their size is the number of whole elements.
    pub fn from_content(datatype: DataType, dims: Vec<usize>, content: &[u8]) -> (r: Result<
        Matrix,
        Error,
    >)
        ensures
            match r {
                Ok(m) => m@ == (MatrixView {
                    datatype,
                    shape: dims@,
                    data: decode_content(datatype, content@),
                }),
                Err(e) => e == Error::ShapeMismatch,
            },
            r.is_ok() <==> addressable(dims@) && shape_size(dims@) == decode_content(
                datatype,
                content@,
            ).len(),
            all_hold(datatype, decode_content(datatype, content@)),
    {
        let width = datatype.byte_width();
        let n = content.len();
        let count = n / width;
        let mut data: Vec<i64> = Vec::new();
        let mut i: usize = 0;
        while i < count
            invariant
                i <= count,
                1 <= width <= 8,
                width == datatype.spec_byte_width(),
                n == content@.len(),
                count == content@.len() / width as nat,
                data@.len() == i,
                forall|j: int|
                    0 <= j < i ==> #[trigger] data@[j] == element_of_bytes(
                        datatype,
                        content@.subrange(j * width, (j + 1) * width),
                    ),
                forall|j: int| 0 <= j < i ==> datatype.holds(#[trigger] data@[j]),
            decreases count - i,
        {
            assert((i + 1) * width <= content@.len()) by (nonlinear_arith)
                requires
                    i < count,
                    count == content@.len() / width as nat,
                    1 <= width,
            ;
            assert(i * width + width == (i + 1) * width) by (nonlinear_arith);
            assert(i * width <= (i + 1) * width) by (nonlinear_arith);
            let v = Self::element_from_bytes(datatype, content, i * width);
            data.push(v);
            i += 1;
        }
        assert(data@ =~= decode_content(datatype, content@));
        match array_from_shape_vec(&dims, data) {
            Ok(data) => Ok(Matrix { datatype, shape: dims, data }),
            Err(_) => Err(Error::ShapeMismatch),
        }
    }

    /// The dimensions of a serialized tensor as sizes, or nothing where one
    /// of them is negative or beyond `usize`.
    fn dims_from_pb(t: &TensorProto) -> (r: Option<Vec<usize>>)
        ensures
            r.is_none() <==> exists|i: int|
                0 <= i < t@.tensor_shape.len() && !fits_usize(#[trigger] t@.tensor_shape[i]),
            r matches Some(dims) ==> dims@ == sizes_of_dims(t@.tensor_shape),
    {
        let mut dims: Vec<usize> = Vec::new();
        let mut i: usize = 0;
        while i < t.tensor_shape.len()
            invariant
                i <= t.tensor_shape.len(),
                dims@.len() == i,
                forall|j: int| 0 <= j < i ==> fits_usize(#[trigger] t@.tensor_shape[j]),
                forall|j: int| 0 <= j < i ==> #[trigger] dims@[j] == t@.tensor_shape[j] as usize,
            decreases t.tensor_shape.len() - i,
        {
            let d = t.tensor_shape[i];
            if d < 0 || d as u64 > usize::MAX as u64 {
                assert(!fits_usize(t@.tensor_shape[i as int]));
                return None;
            }
            dims.push(d as usize);
            i += 1;
        }
        assert(dims@ =~= sizes_of_dims(t@.tensor_shape));
        Some(dims)
    }

    /// The elements that the typed lists of a serialized tensor hold for its
    /// element type.
    fn listed_from_pb(t: &TensorProto) -> (r: Vec<i64>)
        ensures
            r@ == listed_values(t@),
    {
        let mut data: Vec<i64> = Vec::new();
        let mut i: usize = 0;
        match t.dtype {
            DataType::DT_FLOAT => {
                while i < t.float_val.len()
                    invariant
                        i <= t.float_val.len(),
                        data@.len() == i,
                        forall|j: int| 0 <= j < i ==> #[trigger] data@[j] == t@.float_val[j] as i64,
                    decreases t.float_val.len() - i,
                {
                    data.push(t.float_val[i] as i64);
                    i += 1;
                }
                assert(data@ =~= listed_values(t@));
            },
            DataType::DT_DOUBLE => {
                while i < t.double_val.len()
                    invariant
                        i <= t.double_val.len(),
                        data@.len() == i,
                        forall|j: int|
                            0 <= j < i ==> #[trigger] data@[j] == signed_of_bits(t@.double_val[j]),
                    decreases t.double_val.len() - i,
                {
                    data.push(signed_from_bits(t.double_val[i]));
                    i += 1;
                }
                assert(data@ =~= listed_values(t@));
            },
            _ => {
                while i < t.int_val.len()
                    invariant
                        i <= t.int_val.len(),
                        data@.len() == i,
                        forall|j: int| 0 <= j < i ==> #[trigger] data@[j] == t@.int_val[j] as i64,
                    decreases t.int_val.len() - i,
                {
                    data.push(t.int_val[i] as i64);
                    i += 1;
                }
                assert(data@ =~= listed_values(t@));
            },
        }
        data
    }

    /// Makes the tensor that a serialized tensor stands for: the packed bytes
    /// where there are any, else the list for the element type.
    pub fn from_pb(t: &TensorProto) -> (r: Result<Matrix, Error>)
        ensures
            match r {
                Ok(m) => tensor_of(t@) == Ok::<MatrixView, Error>(m@),
                Err(e) => tensor_of(t@) == Err::<MatrixView, Error>(e),
            },
    {
        let dtype = t.dtype;
        if dtype == DataType::DT_STRING {
            return Err(Error::TypeMismatch);
        }
        let dims = match Self::dims_from_pb(t) {
            Some(dims) => dims,
            None => {
                return Err(Error::ShapeMismatch);
            },
        };
        let ghost shape = dims@;
        if t.tensor_content.len() != 0 {
            let r = Self::from_content(dtype, dims, t.tensor_content.as_slice());
            proof {
                let m = MatrixView {
                    datatype: dtype,
                    shape,
                    data: decode_content(dtype, t@.tensor_content),
                };
                assert(r.is_ok() == m.valid());
            }
            r
        } else {
            let r = Matrix::new(dtype, dims, Self::listed_from_pb(t));
            proof {
                let m = MatrixView { datatype: dtype, shape, data: listed_values(t@) };
                assert(r.is_ok() == m.valid());
            }
            r
        }
    }

    /// The serialized form of the tensor, with the elements in the list for
    /// their type.  Fails with `TypeMismatch` for a byte-string tensor.
    pub fn to_pb(&self) -> (r: Result<TensorProto, Error>)
        ensures
            match r {
                Ok(t) => t@ == proto_of(self@),
                Err(e) => e == Error::TypeMismatch,
            },
            r.is_ok() <==> self@.datatype != DataType::DT_STRING,
    {
        proof {
            use_type_invariant(self);
            lemma_dims_bounded(self@.shape);
        }
        if self.datatype == DataType::DT_STRING {
            return Err(Error::TypeMismatch);
        }
        let mut tensor = TensorProto::new(self.datatype);
        let mut i: usize = 0;
        while i < self.shape.len()
            invariant
                i <= self.shape.len(),
                tensor.tensor_shape@.len() == i,
                forall|j: int| 0 <= j < self@.shape.len() ==> #[trigger] self@.shape[j] <= isize::MAX,
                forall|j: int| 0 <= j < i ==> #[trigger] tensor.tensor_shape@[j] == self@.shape[j] as i64,
                tensor.dtype == self@.datatype,
                tensor.tensor_content@ == Seq::<u8>::empty(),
                tensor.float_val@ == Seq::<u32>::empty(),
                tensor.double_val@ == Seq::<u64>::empty(),
                tensor.int_val@ == Seq::<i32>::empty(),
            decreases self.shape.len() - i,
        {
            assert(self@.shape[i as int] <= isize::MAX);
            tensor.tensor_shape.push(self.shape[i] as i64);
            i += 1;
        }
        assert(tensor.tensor_shape@ =~= dims_of_sizes(self@.shape));
        let mut k: usize = 0;
        while k < self.data.len()
            invariant
                k <= self.data.len(),
                self@.valid(),
                self@.datatype != DataType::DT_STRING,
                tensor.dtype == self@.datatype,
                tensor.tensor_shape@ == dims_of_sizes(self@.shape),
                tensor.tensor_content@ == Seq::<u8>::empty(),
                tensor.float_val@ == proto_of(self@).float_val.take(
                    if self@.datatype == DataType::DT_FLOAT {
                        k as int
                    } else {
                        0
                    },
                ),
                tensor.double_val@ == proto_of(self@).double_val.take(
                    if self@.datatype == DataType::DT_DOUBLE {
                        k as int
                    } else {
                        0
                    },
                ),
                tensor.int_val@ == proto_of(self@).int_val.take(
                    if self@.datatype == DataType::DT_FLOAT || self@.datatype
                        == DataType::DT_DOUBLE {
                        0
                    } else {
                        k as int
                    },
                ),
            decreases self.data.len() - k,
        {
            let v = self.data[k];
            assert(self@.datatype.holds(self@.data[k as int]));
            match self.datatype {
                DataType::DT_FLOAT => {
                    tensor.float_val.push(v as u32);
                    assert(tensor.float_val@ =~= proto_of(self@).float_val.take(k + 1));
                },
                DataType::DT_DOUBLE => {
                    tensor.double_val.push(bits_from_signed(v));
                    assert(tensor.double_val@ =~= proto_of(self@).double_val.take(k + 1));
                },
                _ => {
                    tensor.int_val.push(v as i32);
                    assert(tensor.int_val@ =~= proto_of(self@).int_val.take(k + 1));
                },
            }
            k += 1;
        }
        assert(tensor.float_val@ =~= proto_of(self@).float_val);
        assert(tensor.double_val@ =~= proto_of(self@).double_val);
        assert(tensor.int_val@ =~= proto_of(self@).int_val);
        Ok(tensor)
    }

    /// The dimensions of the tensor.
    pub fn shape(&self) -> (r: &[usize])
        ensures
            r@ == self@.shape,
    {
        self.shape.as_slice()
    }

    /// The element type of the tensor.
    pub fn datatype(&self) -> (r: DataType)
        ensures
            r == self@.datatype,
    {
        self.datatype
    }

    /// The number of dimensions.
    pub fn rank(&self) -> (r: usize)
        ensures
            r == self@.rank(),
    {
        self.shape.len()
    }

    /// The number of elements, which is the product of the dimensions.
    pub fn len(&self) -> (r: usize)
        ensures
            r == self@.element_count(),
            r == shape_size(self@.shape),
            self@.valid(),
    {
        proof {
            use_type_invariant(self);
        }
        self.data.len()
    }

    /// The elements in row-major order.
    pub fn values(&self) -> (r: &[i64])
        ensures
            r@ == self@.data,
    {
        self.data.as_slice()
    }

    /// The same elements under another shape.  Fails with `ShapeMismatch`
    /// unless the new shape can be addressed and has as many elements as the
    /// tensor.
    pub fn into_shape(self, dims: &Vec<usize>) -> (r: Result<Matrix, Error>)
        ensures
            match r {
                Ok(m) => m@ == (MatrixView { shape: dims@, ..self@ }),
                Err(e) => e == Error::ShapeMismatch,
            },
            r.is_ok() <==> addressable(dims@) && shape_size(dims@) == self@.element_count(),
    {
        proof {
            use_type_invariant(&self);
        }
        let datatype = self.datatype;
        match array_into_shape(&self.shape, self.data, dims) {
            Ok(data) => Ok(Matrix { datatype, shape: dims.clone(), data }),
            Err(_) => Err(Error::ShapeMismatch),
        }
    }
}

impl Clone for Matrix {
    fn clone(&self) -> (r: Matrix)
        ensures
            r@ == self@,
    {
        proof {
            use_type_invariant(self);
        }
        Matrix { datatype: self.datatype, shape: self.shape.clone(), data: self.data.clone() }
    }
}

/// Whether two shapes have the same dimensions.
pub fn same_shape(a: &[usize], b: &[usize]) -> (r: bool)
    ensures
        r == (a@ == b@),
{
    if a.len() != b.len() {
        return false;
    }
    let mut i: usize = 0;
    while i < a.len()
        invariant
            i <= a.len(),
            a.len() == b.len(),
            forall|j: int| 0 <= j < i ==> a@[j] == b@[j],
        decreases a.len() - i,
    {
        if a[i] != b[i] {
            return false;
        }
        i += 1;
    }
    assert(a@ =~= b@);
    true
}

/// Whether two lists of elements are the same.
fn same_elements(a: &Vec<i64>, b: &Vec<i64>) -> (r: bool)
    ensures
        r == (a@ == b@),
{
    if a.len() != b.len() {
        return false;
    }
    let mut i: usize = 0;
    while i < a.len()
        invariant
            i <= a.len(),
            a.len() == b.len(),
            forall|j: int| 0 <= j < i ==> a@[j] == b@[j],
        decreases a.len() - i,
    {
        if a[i] != b[i] {
            return false;
        }
        i += 1;
    }
    assert(a@ =~= b@);
    true
}

impl PartialEq for Matrix {
    fn eq(&self, other: &Matrix) -> (r: bool) {
        self.datatype == other.datatype && same_shape(self.shape.as_slice(), other.shape.as_slice())
            && same_elements(&self.data, &other.data)
    }
}

impl PartialEqSpecImpl for Matrix {
    open spec fn obeys_eq_spec() -> bool {
        true
    }

    open spec fn eq_spec(&self, other: &Matrix) -> bool {
        self@ == other@
    }
}

} // verus!
