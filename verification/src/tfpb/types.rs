//! Element types of tensors.

use vstd::prelude::*;

verus! {

/// The scalar types that a tensor's elements can have.
#[allow(non_camel_case_types)]
#[derive(Debug, Clone, Copy, PartialEq, Eq, Structural)]
pub enum DataType {
    /// 32-bit floating point.
    DT_FLOAT,
    /// 64-bit floating point.
    DT_DOUBLE,
    /// 32-bit signed integer.
    DT_INT32,
    /// 8-bit unsigned integer.
    DT_UINT8,
    /// 8-bit signed integer.
    DT_INT8,
    /// Byte string, held byte by byte.
    DT_STRING,
}

impl DataType {
    /// Number of bytes of one element.
    pub open spec fn spec_byte_width(self) -> nat {
        match self {
            DataType::DT_FLOAT => 4,
            DataType::DT_DOUBLE => 8,
            DataType::DT_INT32 => 4,
            DataType::DT_UINT8 => 1,
            DataType::DT_INT8 => 1,
            DataType::DT_STRING => 1,
        }
    }

    /// Number of bytes of one element.
    pub fn byte_width(self) -> (r: usize)
        ensures
            r == self.spec_byte_width(),
    {
        match self {
            DataType::DT_FLOAT => 4,
            DataType::DT_DOUBLE => 8,
            DataType::DT_INT32 => 4,
            DataType::DT_UINT8 => 1,
            DataType::DT_INT8 => 1,
            DataType::DT_STRING => 1,
        }
    }

    /// Whether `v` stands for an element of this type.  An integer element
    /// is its value; a floating-point element is its bit pattern, read as an
    /// unsigned number for 32 bits and as a signed one for 64 bits.
    pub open spec fn holds(self, v: i64) -> bool {
        match self {
            DataType::DT_FLOAT => 0 <= v <= u32::MAX,
            DataType::DT_DOUBLE => true,
            DataType::DT_INT32 => i32::MIN <= v <= i32::MAX,
            DataType::DT_UINT8 => 0 <= v <= u8::MAX,
            DataType::DT_INT8 => i8::MIN <= v <= i8::MAX,
            DataType::DT_STRING => i8::MIN <= v <= i8::MAX,
        }
    }

    /// Whether `v` stands for an element of this type.
    pub fn admits(self, v: i64) -> (r: bool)
        ensures
            r == self.holds(v),
    {
        match self {
            DataType::DT_FLOAT => 0 <= v && v <= 0xffff_ffff,
            DataType::DT_DOUBLE => true,
            DataType::DT_INT32 => -0x8000_0000 <= v && v <= 0x7fff_ffff,
            DataType::DT_UINT8 => 0 <= v && v <= 255,
            DataType::DT_INT8 => -128 <= v && v <= 127,
            DataType::DT_STRING => -128 <= v && v <= 127,
        }
    }
}

} // verus!
