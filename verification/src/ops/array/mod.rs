//! Operators that rearrange tensors without computing on their elements.

pub mod concat;
pub mod expand_dims;
pub mod identity;
pub mod pack;
pub mod placeholder;
pub mod reshape;
pub mod shape;
pub mod squeeze;

use vstd::prelude::*;
use crate::ops::{OpKind, OpRegister};

verus! {

/// The names and kinds of the operators of this directory, in the order in
/// which `register_all_ops` enters them.
pub open spec fn array_ops() -> Seq<(Seq<char>, OpKind)> {
    seq![
        ("ConcatV2"@, OpKind::ConcatV2),
        ("ExpandDims"@, OpKind::ExpandDims),
        ("Identity"@, OpKind::Identity),
        ("Pack"@, OpKind::Pack),
        ("Placeholder"@, OpKind::Placeholder),
        ("Reshape"@, OpKind::Reshape),
        ("Shape"@, OpKind::Shape),
        ("Squeeze"@, OpKind::Squeeze),
    ]
}

/// Enters the operators of this directory into a register.
pub fn register_all_ops(reg: &mut OpRegister)
    ensures
        final(reg)@ == old(reg)@ + array_ops(),
{
    reg.insert("ConcatV2", OpKind::ConcatV2);
    reg.insert("ExpandDims", OpKind::ExpandDims);
    reg.insert("Identity", OpKind::Identity);
    reg.insert("Pack", OpKind::Pack);
    reg.insert("Placeholder", OpKind::Placeholder);
    reg.insert("Reshape", OpKind::Reshape);
    reg.insert("Shape", OpKind::Shape);
    reg.insert("Squeeze", OpKind::Squeeze);
    assert(reg@ =~= old(reg)@ + array_ops());
}

} // verus!
