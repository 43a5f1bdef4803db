//! The serialized form of a tensor.

use vstd::prelude::*;
use crate::tfpb::types::DataType;

verus! {

/// A serialized tensor: its element type, its dimensions, and its elements
/// either packed into bytes or listed by type.  Where the packed bytes are
/// present they are authoritative; else the list for the element type is.
#[derive(Debug, Clone)]
pub struct TensorProto {
    /// The element type.
    pub dtype: DataType,
    /// The size of each dimension.
    pub tensor_shape: Vec<i64>,
    /// The elements packed in little-endian order, or empty.
    pub tensor_content: Vec<u8>,
    /// The elements of a `DT_FLOAT` tensor, each by its bit pattern.
    pub float_val: Vec<u32>,
    /// The elements of a `DT_DOUBLE` tensor, each by its bit pattern.
    pub double_val: Vec<u64>,
    /// The elements of a `DT_INT32`, `DT_INT8` or `DT_UINT8` tensor.
    pub int_val: Vec<i32>,
}

/// A serialized tensor as mathematical data.
pub struct TensorProtoView {
    pub dtype: DataType,
    pub tensor_shape: Seq<i64>,
    pub tensor_content: Seq<u8>,
    pub float_val: Seq<u32>,
    pub double_val: Seq<u64>,
    pub int_val: Seq<i32>,
}

impl View for TensorProto {
    type V = TensorProtoView;

    open spec fn view(&self) -> TensorProtoView {
        TensorProtoView {
            dtype: self.dtype,
            tensor_shape: self.tensor_shape@,
            tensor_content: self.tensor_content@,
            float_val: self.float_val@,
            double_val: self.double_val@,
            int_val: self.int_val@,
        }
    }
}

impl TensorProto {
    /// A serialized tensor of the given type with no dimension and no element.
    pub fn new(dtype: DataType) -> (r: TensorProto)
        ensures
            r@ == (TensorProtoView {
                dtype,
                tensor_shape: Seq::empty(),
                tensor_content: Seq::empty(),
                float_val: Seq::empty(),
                double_val: Seq::empty(),
                int_val: Seq::empty(),
            }),
    {
        TensorProto {
            dtype,
            tensor_shape: Vec::new(),
            tensor_content: Vec::new(),
            float_val: Vec::new(),
            double_val: Vec::new(),
            int_val: Vec::new(),
        }
    }
}

} // verus!
