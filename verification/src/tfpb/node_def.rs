//! The serialized form of a node of the graph.

use vstd::prelude::*;
use vstd::string::StringExecFns;
use crate::errors::Error;
use crate::tfpb::tensor::{TensorProto, TensorProtoView};
use crate::tfpb::types::DataType;

verus! {

/// The value of an attribute of a node.
#[derive(Debug, Clone)]
pub enum AttrValue {
    /// An integer.
    I(i64),
    /// A list of integers.
    List(Vec<i64>),
    /// A string.
    S(String),
    /// A tensor.
    Tensor(TensorProto),
    /// An element type.
    Type(DataType),
}

/// A named attribute of a node.
#[derive(Debug, Clone)]
pub struct Attr {
    pub key: String,
    pub value: AttrValue,
}

/// A reference to an output of another node: the producer's name and the
/// slot among its outputs.
#[derive(Debug, Clone)]
pub struct InputDef {
    pub node: String,
    pub slot: usize,
}

/// A node as the serialized graph describes it.
#[derive(Debug, Clone)]
pub struct NodeDef {
    /// The unique name of the node.
    pub name: String,
    /// The name of the node's operator.
    pub op: String,
    /// The outputs of other nodes that the node reads, in order.
    pub input: Vec<InputDef>,
    /// The attributes of the node, in the order of the serialized graph.
    pub attr: Vec<Attr>,
}

/// The value of an attribute as mathematical data.
pub enum AttrValueView {
    I(i64),
    List(Seq<i64>),
    S(Seq<char>),
    Tensor(TensorProtoView),
    Type(DataType),
}

impl View for AttrValue {
    type V = AttrValueView;

    open spec fn view(&self) -> AttrValueView {
        match self {
            AttrValue::I(v) => AttrValueView::I(*v),
            AttrValue::List(v) => AttrValueView::List(v@),
            AttrValue::S(v) => AttrValueView::S(v@),
            AttrValue::Tensor(v) => AttrValueView::Tensor(v@),
            AttrValue::Type(v) => AttrValueView::Type(*v),
        }
    }
}

/// The value of the first attribute in `attrs` whose key is `key`.
pub open spec fn attr_of(attrs: Seq<Attr>, key: Seq<char>) -> Option<AttrValueView>
    decreases attrs.len(),
{
    if attrs.len() == 0 {
        None
    } else if attrs[0].key@ == key {
        Some(attrs[0].value@)
    } else {
        attr_of(attrs.skip(1), key)
    }
}

/// The integer attribute `key` as a count.  Missing, of another kind, or
/// not a count, it is an `InvalidGraph`.
pub open spec fn attr_int_of(attrs: Seq<Attr>, key: Seq<char>) -> Result<usize, Error> {
    match attr_of(attrs, key) {
        Some(AttrValueView::I(v)) => if 0 <= v <= usize::MAX {
            Ok(v as usize)
        } else {
            Err(Error::InvalidGraph)
        },
        _ => Err(Error::InvalidGraph),
    }
}

/// The integer attribute `key`, or `default` where the node has no such
/// attribute.  Of another kind, it is an `InvalidGraph`.
pub open spec fn attr_signed_of(attrs: Seq<Attr>, key: Seq<char>, default: i64) -> Result<
    i64,
    Error,
> {
    match attr_of(attrs, key) {
        Some(AttrValueView::I(v)) => Ok(v),
        None => Ok(default),
        _ => Err(Error::InvalidGraph),
    }
}

/// The integer-list attribute `key`.  Missing or of another kind, it is an
/// `InvalidGraph`.
pub open spec fn attr_list_int_of(attrs: Seq<Attr>, key: Seq<char>) -> Result<Seq<i64>, Error> {
    match attr_of(attrs, key) {
        Some(AttrValueView::List(v)) => Ok(v),
        _ => Err(Error::InvalidGraph),
    }
}

/// The element-type attribute `key`.  Missing or of another kind, it is an
/// `InvalidGraph`.
pub open spec fn attr_datatype_of(attrs: Seq<Attr>, key: Seq<char>) -> Result<DataType, Error> {
    match attr_of(attrs, key) {
        Some(AttrValueView::Type(v)) => Ok(v),
        _ => Err(Error::InvalidGraph),
    }
}

/// The string attribute `key`.  Missing or of another kind, it is an
/// `InvalidGraph`.
pub open spec fn attr_str_of(attrs: Seq<Attr>, key: Seq<char>) -> Result<Seq<char>, Error> {
    match attr_of(attrs, key) {
        Some(AttrValueView::S(v)) => Ok(v),
        _ => Err(Error::InvalidGraph),
    }
}

/// The tensor attribute `key`.  Missing or of another kind, it is an
/// `InvalidGraph`.
pub open spec fn attr_tensor_of(attrs: Seq<Attr>, key: Seq<char>) -> Result<
    TensorProtoView,
    Error,
> {
    match attr_of(attrs, key) {
        Some(AttrValueView::Tensor(v)) => Ok(v),
        _ => Err(Error::InvalidGraph),
    }
}

impl NodeDef {
    /// The name of the node's operator.
    pub fn get_op(&self) -> (r: &str)
        ensures
            r@ == self.op@,
    {
        self.op.as_str()
    }

    /// The value of the first attribute whose key is `key`, if there is one.
    pub fn get_attr(&self, key: &str) -> (r: Option<&AttrValue>)
        ensures
            match r {
                Some(v) => attr_of(self.attr@, key@) == Some(v@),
                None => attr_of(self.attr@, key@) is None,
            },
    {
        let wanted = String::from_str(key);
        let mut i: usize = 0;
        assert(self.attr@.skip(0) == self.attr@);
        while i < self.attr.len()
            invariant
                i <= self.attr.len(),
                wanted@ == key@,
                attr_of(self.attr@, key@) == attr_of(self.attr@.skip(i as int), key@),
            decreases self.attr.len() - i,
        {
            if self.attr[i].key == wanted {
                assert(self.attr@.skip(i as int)[0] == self.attr@[i as int]);
                return Some(&self.attr[i].value);
            }
            assert(self.attr@.skip(i as int).skip(1) == self.attr@.skip(i + 1));
            i += 1;
        }
        None
    }

    /// The integer attribute `key` as a count.
    pub fn get_attr_int(&self, key: &str) -> (r: Result<usize, Error>)
        ensures
            r == attr_int_of(self.attr@, key@),
    {
        match self.get_attr(key) {
            Some(AttrValue::I(v)) => {
                if *v < 0 || *v as u64 > usize::MAX as u64 {
                    Err(Error::InvalidGraph)
                } else {
                    Ok(*v as usize)
                }
            },
            _ => Err(Error::InvalidGraph),
        }
    }

    /// The integer attribute `key`, or `default` where the node has no such
    /// attribute.
    pub fn get_attr_signed(&self, key: &str, default: i64) -> (r: Result<i64, Error>)
        ensures
            r == attr_signed_of(self.attr@, key@, default),
    {
        match self.get_attr(key) {
            Some(AttrValue::I(v)) => Ok(*v),
            None => Ok(default),
            _ => Err(Error::InvalidGraph),
        }
    }

    /// The integer-list attribute `key`.
    pub fn get_attr_list_int(&self, key: &str) -> (r: Result<Vec<i64>, Error>)
        ensures
            match r {
                Ok(v) => attr_list_int_of(self.attr@, key@) == Ok::<Seq<i64>, Error>(v@),
                Err(e) => attr_list_int_of(self.attr@, key@) == Err::<Seq<i64>, Error>(e),
            },
    {
        match self.get_attr(key) {
            Some(AttrValue::List(v)) => Ok(v.clone()),
            _ => Err(Error::InvalidGraph),
        }
    }

    /// The element-type attribute `key`.
    pub fn get_attr_datatype(&self, key: &str) -> (r: Result<DataType, Error>)
        ensures
            r == attr_datatype_of(self.attr@, key@),
    {
        match self.get_attr(key) {
            Some(AttrValue::Type(v)) => Ok(*v),
            _ => Err(Error::InvalidGraph),
        }
    }

    /// The string attribute `key`.
    pub fn get_attr_str(&self, key: &str) -> (r: Result<&String, Error>)
        ensures
            match r {
                Ok(v) => attr_str_of(self.attr@, key@) == Ok::<Seq<char>, Error>(v@),
                Err(e) => attr_str_of(self.attr@, key@) == Err::<Seq<char>, Error>(e),
            },
    {
        match self.get_attr(key) {
            Some(AttrValue::S(v)) => Ok(v),
            _ => Err(Error::InvalidGraph),
        }
    }

    /// The tensor attribute `key`.
    pub fn get_attr_tensor(&self, key: &str) -> (r: Result<&TensorProto, Error>)
        ensures
            match r {
                Ok(v) => attr_tensor_of(self.attr@, key@) == Ok::<TensorProtoView, Error>(v@),
                Err(e) => attr_tensor_of(self.attr@, key@) == Err::<TensorProtoView, Error>(e),
            },
    {
        match self.get_attr(key) {
            Some(AttrValue::Tensor(v)) => Ok(v),
            _ => Err(Error::InvalidGraph),
        }
    }
}

} // verus!
