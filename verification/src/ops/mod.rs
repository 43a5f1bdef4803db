//! The operators of the engine and what they have in common.

pub mod array;
pub mod konst;
pub mod math;
pub mod nn;
pub mod refinement;

use std::sync::Arc;
use vstd::prelude::*;
use vstd::std_specs::cmp::PartialEqSpecImpl;
use vstd::std_specs::convert::FromSpecImpl;
use vstd::string::StringExecFns;
use crate::analyser::types::{
    AShape, AShapeView, ATensor, ATensorView, AType, AValue, closed_shape,
};
use crate::errors::Error;
use crate::matrix::{Matrix, MatrixView};
use crate::ops::array::concat::ConcatV2;
use crate::ops::array::expand_dims::ExpandDims;
use crate::ops::array::identity::Identity;
use crate::ops::array::pack::Pack;
use crate::ops::array::placeholder::Placeholder;
use crate::ops::array::reshape::Reshape;
use crate::ops::array::shape::Shape;
use crate::ops::array::squeeze::Squeeze;
use crate::ops::konst::{Const, const_value_of};
use crate::ops::math::{Arith, Binary};
use crate::ops::nn::{MaxPool, pool_of};
use crate::tfpb::node_def::{
    NodeDef, attr_datatype_of, attr_int_of, attr_list_int_of, attr_signed_of,
};
use crate::tfpb::types::DataType;

verus! {

/// A tensor on its way into or out of an operator: owned by the caller, or
/// shared with the other consumers of the edge it came from.
#[derive(Debug)]
pub enum Input {
    Owned(Matrix),
    Shared(Arc<Matrix>),
}

impl View for Input {
    type V = MatrixView;

    open spec fn view(&self) -> MatrixView {
        match self {
            Input::Owned(m) => m@,
            Input::Shared(m) => m@,
        }
    }
}

/// The tensors of a list of inputs or outputs.
pub open spec fn views_of(inputs: Seq<Input>) -> Seq<MatrixView> {
    Seq::new(inputs.len(), |i: int| inputs[i]@)
}

/// The abstract tensors of a list, as mathematical data.
pub open spec fn facts_of(tensors: Seq<ATensor>) -> Seq<ATensorView> {
    Seq::new(tensors.len(), |i: int| tensors[i]@)
}

/// The abstract tensors that a list of references points to, as mathematical
/// data.
pub open spec fn facts_of_refs(tensors: Seq<&ATensor>) -> Seq<ATensorView> {
    Seq::new(tensors.len(), |i: int| tensors[i]@)
}

/// Whether the outcome `r` of an evaluation is the outcome `expected`.
pub open spec fn eval_gives(
    expected: Result<Seq<MatrixView>, Error>,
    r: Result<Vec<Input>, Error>,
) -> bool {
    match r {
        Ok(outputs) => expected == Ok::<Seq<MatrixView>, Error>(views_of(outputs@)),
        Err(e) => expected == Err::<Seq<MatrixView>, Error>(e),
    }
}

/// Whether the outcome `r` of an inference is the outcome `expected`.
pub open spec fn infer_gives(
    expected: Result<Seq<ATensorView>, Error>,
    r: Result<Vec<ATensor>, Error>,
) -> bool {
    match r {
        Ok(tensors) => expected == Ok::<Seq<ATensorView>, Error>(facts_of(tensors@)),
        Err(e) => expected == Err::<Seq<ATensorView>, Error>(e),
    }
}

/// Calls `Arc::clone`, which makes another handle on the same tensor.  The
/// contract claims that the new handle points to an equal tensor.
#[verifier::external_body]
pub(crate) fn share(m: &Arc<Matrix>) -> (r: Arc<Matrix>)
    ensures
        r == *m,
{
    m.clone()
}

impl Input {
    /// The tensor itself: moved out where it is owned, copied where it is
    /// shared.
    pub fn into_matrix(self) -> (r: Matrix)
        ensures
            r@ == self@,
    {
        match self {
            Input::Owned(m) => m,
            Input::Shared(m) => (*m).clone(),
        }
    }

    /// A reference to the tensor.
    pub fn as_matrix(&self) -> (r: &Matrix)
        ensures
            r@ == self@,
    {
        match self {
            Input::Owned(m) => m,
            Input::Shared(m) => &**m,
        }
    }
}

impl Clone for Input {
    fn clone(&self) -> (r: Input)
        ensures
            r@ == self@,
    {
        match self {
            Input::Owned(m) => Input::Owned(m.clone()),
            Input::Shared(m) => Input::Shared(share(m)),
        }
    }
}

impl From<Matrix> for Input {
    fn from(m: Matrix) -> (r: Input) {
        Input::Owned(m)
    }
}

impl FromSpecImpl<Matrix> for Input {
    open spec fn obeys_from_spec() -> bool {
        true
    }

    open spec fn from_spec(m: Matrix) -> Input {
        Input::Owned(m)
    }
}

impl From<Arc<Matrix>> for Input {
    fn from(m: Arc<Matrix>) -> (r: Input) {
        Input::Shared(m)
    }
}

impl FromSpecImpl<Arc<Matrix>> for Input {
    open spec fn obeys_from_spec() -> bool {
        true
    }

    open spec fn from_spec(m: Arc<Matrix>) -> Input {
        Input::Shared(m)
    }
}

impl PartialEq for Input {
    fn eq(&self, other: &Input) -> (r: bool) {
        self.as_matrix().eq(other.as_matrix())
    }
}

impl PartialEqSpecImpl for Input {
    open spec fn obeys_eq_spec() -> bool {
        true
    }

    open spec fn eq_spec(&self, other: &Input) -> bool {
        self@ == other@
    }
}

/// Whether the value of every abstract tensor of the list is known.
pub open spec fn all_known(facts: Seq<ATensorView>) -> bool {
    forall|i: int| 0 <= i < facts.len() ==> (#[trigger] facts[i]).value is Some
}

/// The values of a list of abstract tensors whose values are known.
pub open spec fn known_values(facts: Seq<ATensorView>) -> Seq<MatrixView> {
    Seq::new(facts.len(), |i: int| facts[i].value.unwrap())
}

/// Everything that is known of a given tensor: its type, its shape, itself.
pub open spec fn concrete_fact(m: MatrixView) -> ATensorView {
    ATensorView {
        datatype: AType::Only(m.datatype),
        shape: closed_shape(m.shape),
        value: Some(m),
    }
}

/// Everything that is known of given tensors.
pub open spec fn concrete_facts(tensors: Seq<MatrixView>) -> Seq<ATensorView> {
    Seq::new(tensors.len(), |i: int| concrete_fact(tensors[i]))
}

/// What follows for the outputs of an operator from an evaluation on known
/// inputs: the outputs are known, or the evaluation fails.
pub open spec fn concrete_inference(evaluated: Result<Seq<MatrixView>, Error>) -> Result<
    Seq<ATensorView>,
    Error,
> {
    match evaluated {
        Ok(outputs) => Ok(concrete_facts(outputs)),
        Err(e) => Err(e),
    }
}

/// The values of the abstract tensors as inputs for an evaluation, or
/// nothing where one of them is unknown.
pub fn known_inputs(facts: &Vec<&ATensor>) -> (r: Option<Vec<Input>>)
    ensures
        r is Some <==> all_known(facts_of_refs(facts@)),
        r matches Some(inputs) ==> views_of(inputs@) == known_values(facts_of_refs(facts@)),
{
    let mut inputs: Vec<Input> = Vec::new();
    let mut i: usize = 0;
    while i < facts.len()
        invariant
            i <= facts.len(),
            inputs@.len() == i,
            forall|j: int| 0 <= j < i ==> (#[trigger] facts_of_refs(facts@)[j]).value is Some,
            forall|j: int| 0 <= j < i ==> (#[trigger] inputs@[j])@ == facts@[j]@.value.unwrap(),
        decreases facts.len() - i,
    {
        match &facts[i].value {
            AValue::Any => {
                assert(facts_of_refs(facts@)[i as int].value is None);
                return None;
            },
            AValue::Only(m) => {
                inputs.push(Input::Owned(m.clone()));
            },
        }
        i += 1;
    }
    assert(views_of(inputs@) =~= known_values(facts_of_refs(facts@)));
    Some(inputs)
}

/// Everything that is known of given tensors.
pub fn concrete_outputs(outputs: Vec<Input>) -> (r: Vec<ATensor>)
    ensures
        facts_of(r@) == concrete_facts(views_of(outputs@)),
{
    let mut facts: Vec<ATensor> = Vec::new();
    let mut i: usize = 0;
    while i < outputs.len()
        invariant
            i <= outputs.len(),
            facts@.len() == i,
            forall|j: int| 0 <= j < i ==> (#[trigger] facts@[j])@ == concrete_fact(outputs@[j]@),
        decreases outputs.len() - i,
    {
        let m = outputs[i].as_matrix();
        facts.push(
            ATensor {
                datatype: AType::Only(m.datatype()),
                shape: AShape::from_sizes(m.shape()),
                value: AValue::Only(m.clone()),
            },
        );
        i += 1;
    }
    assert(facts_of(facts@) =~= concrete_facts(views_of(outputs@)));
    facts
}

/// An abstract tensor of which the type and the shape are known as given,
/// and the value is not.
pub fn fact(datatype: AType, shape: AShape) -> (r: ATensor)
    ensures
        r@ == (ATensorView { datatype, shape: shape@, value: None }),
{
    ATensor { datatype, shape, value: AValue::Any }
}

/// The list that holds one tensor.
pub fn single(m: Matrix) -> (r: Vec<Input>)
    ensures
        views_of(r@) == seq![m@],
{
    let mut outputs: Vec<Input> = Vec::new();
    outputs.push(Input::Owned(m));
    assert(views_of(outputs@) =~= seq![m@]);
    outputs
}

/// What an operator infers of its inputs when all it knows is that its first
/// input has the type of its output and, where it has one, that its second
/// input holds 32-bit integers.
pub open spec fn typed_backward_spec(outputs: Seq<ATensorView>, with_argument: bool) -> Result<
    Seq<ATensorView>,
    Error,
> {
    if outputs.len() != 1 {
        Err(Error::InvalidGraph)
    } else {
        let data = ATensorView {
            datatype: outputs[0].datatype,
            shape: AShapeView::any(),
            value: None,
        };
        if with_argument {
            Ok(
                seq![
                    data,
                    ATensorView {
                        datatype: AType::Only(DataType::DT_INT32),
                        shape: AShapeView::any(),
                        value: None,
                    },
                ],
            )
        } else {
            Ok(seq![data])
        }
    }
}

/// Infers of the inputs that the first has the type of the output and,
/// where there is a second, that it holds 32-bit integers.
pub fn typed_backward(outputs: &Vec<&ATensor>, with_argument: bool) -> (r: Result<
    Vec<ATensor>,
    Error,
>)
    ensures
        infer_gives(typed_backward_spec(facts_of_refs(outputs@), with_argument), r),
{
    if outputs.len() != 1 {
        return Err(Error::InvalidGraph);
    }
    let mut facts: Vec<ATensor> = Vec::new();
    facts.push(fact(outputs[0].datatype, AShape::any()));
    if with_argument {
        facts.push(fact(AType::Only(DataType::DT_INT32), AShape::any()));
        assert(facts_of(facts@) =~= seq![facts@[0]@, facts@[1]@]);
    } else {
        assert(facts_of(facts@) =~= seq![facts@[0]@]);
    }
    Ok(facts)
}

/// Whether `axes` holds a negative entry.
pub open spec fn has_negative(axes: Seq<i64>) -> bool {
    exists|i: int| 0 <= i < axes.len() && #[trigger] axes[i] < 0
}

/// Whether `axes` holds a negative entry.
pub fn any_negative(axes: &[i64]) -> (r: bool)
    ensures
        r == has_negative(axes@),
{
    let n = axes.len();
    let mut i: usize = 0;
    while i < n
        invariant
            i <= n,
            n == axes@.len(),
            forall|j: int| 0 <= j < i ==> #[trigger] axes@[j] >= 0,
        decreases n - i,
    {
        if axes[i] < 0 {
            return true;
        }
        i += 1;
    }
    false
}

/// Whether `axes` lists the position `p`.
pub open spec fn listed(axes: Seq<i64>, p: int) -> bool {
    exists|k: int| 0 <= k < axes.len() && #[trigger] axes[k] == p
}

/// Whether `axes` lists the position `axis`.
pub fn holds_axis(axes: &[i64], axis: usize) -> (r: bool)
    ensures
        r == listed(axes@, axis as int),
{
    if axis as u64 > 0x7fff_ffff_ffff_ffff {
        return false;
    }
    let wanted = axis as i64;
    let n = axes.len();
    let mut i: usize = 0;
    while i < n
        invariant
            i <= n,
            n == axes@.len(),
            wanted == axis,
            forall|j: int| 0 <= j < i ==> #[trigger] axes@[j] != axis,
        decreases n - i,
    {
        if axes[i] == wanted {
            assert(axes@[i as int] == axis);
            return true;
        }
        i += 1;
    }
    false
}

/// What every operator offers: evaluation on tensors, and inference on
/// abstract tensors in both directions.  Each method does what the spec
/// function beside it says.
pub trait Op {
    /// The outputs for the given inputs, or the error that evaluation ends in.
    spec fn eval_spec(&self, inputs: Seq<MatrixView>) -> Result<Seq<MatrixView>, Error>;

    /// What is known of the outputs given what is known of the inputs.
    spec fn infer_forward_spec(&self, inputs: Seq<ATensorView>) -> Result<Seq<ATensorView>, Error>;

    /// What is known of the inputs given what is known of the outputs.
    spec fn infer_backward_spec(&self, outputs: Seq<ATensorView>) -> Result<
        Seq<ATensorView>,
        Error,
    >;

    /// Evaluates the operation given the input tensors.
    fn eval(&self, inputs: Vec<Input>) -> (r: Result<Vec<Input>, Error>)
        ensures
            eval_gives(self.eval_spec(views_of(inputs@)), r),
    ;

    /// Infers properties about the output tensors from the input tensors.
    fn infer_forward(&self, inputs: Vec<&ATensor>) -> (r: Result<Vec<ATensor>, Error>)
        ensures
            infer_gives(self.infer_forward_spec(facts_of_refs(inputs@)), r),
    ;

    /// Infers properties about the input tensors from the output tensors.
    fn infer_backward(&self, outputs: Vec<&ATensor>) -> (r: Result<Vec<ATensor>, Error>)
        ensures
            infer_gives(self.infer_backward_spec(facts_of_refs(outputs@)), r),
    ;
}

/// An operator that the engine does not implement: its name, and the node
/// that asked for it.
#[derive(Debug)]
pub struct UnimplementedOp(pub String, pub NodeDef);

impl UnimplementedOp {
    /// What the operator reports when it is evaluated.
    pub fn message(&self) -> (r: String)
        ensures
            r@ == "unimplemented operation: "@ + self.0@,
    {
        String::from_str("unimplemented operation: ").concat(self.0.as_str())
    }
}

impl Op for UnimplementedOp {
    /// To evaluate the operator is to find that it is not implemented.
    open spec fn eval_spec(&self, inputs: Seq<MatrixView>) -> Result<Seq<MatrixView>, Error> {
        Err(Error::UnimplementedOperator(self.0))
    }

    open spec fn infer_forward_spec(&self, inputs: Seq<ATensorView>) -> Result<
        Seq<ATensorView>,
        Error,
    > {
        Err(Error::UnimplementedOperator(self.0))
    }

    open spec fn infer_backward_spec(&self, outputs: Seq<ATensorView>) -> Result<
        Seq<ATensorView>,
        Error,
    > {
        Err(Error::UnimplementedOperator(self.0))
    }

    /// Evaluates the operation given the input tensors.
    fn eval(&self, inputs: Vec<Input>) -> (r: Result<Vec<Input>, Error>) {
        Err(Error::UnimplementedOperator(self.0.clone()))
    }

    /// Infers properties about the output tensors from the input tensors.
    fn infer_forward(&self, inputs: Vec<&ATensor>) -> (r: Result<Vec<ATensor>, Error>) {
        Err(Error::UnimplementedOperator(self.0.clone()))
    }

    /// Infers properties about the input tensors from the output tensors.
    fn infer_backward(&self, outputs: Vec<&ATensor>) -> (r: Result<Vec<ATensor>, Error>) {
        Err(Error::UnimplementedOperator(self.0.clone()))
    }
}

/// The operator of a node: one of those that the engine implements, or a
/// stand-in for one that it does not.
#[derive(Debug)]
pub enum Operator {
    Binary(Binary),
    ConcatV2(ConcatV2),
    Const(Const),
    ExpandDims(ExpandDims),
    Identity(Identity),
    MaxPool(MaxPool),
    Pack(Pack),
    Placeholder(Placeholder),
    Reshape(Reshape),
    Shape(Shape),
    Squeeze(Squeeze),
    Unimplemented(UnimplementedOp),
}

impl Op for Operator {
    open spec fn eval_spec(&self, inputs: Seq<MatrixView>) -> Result<Seq<MatrixView>, Error> {
        match self {
            Operator::Binary(op) => op.eval_spec(inputs),
            Operator::ConcatV2(op) => op.eval_spec(inputs),
            Operator::Const(op) => op.eval_spec(inputs),
            Operator::ExpandDims(op) => op.eval_spec(inputs),
            Operator::Identity(op) => op.eval_spec(inputs),
            Operator::MaxPool(op) => op.eval_spec(inputs),
            Operator::Pack(op) => op.eval_spec(inputs),
            Operator::Placeholder(op) => op.eval_spec(inputs),
            Operator::Reshape(op) => op.eval_spec(inputs),
            Operator::Shape(op) => op.eval_spec(inputs),
            Operator::Squeeze(op) => op.eval_spec(inputs),
            Operator::Unimplemented(op) => op.eval_spec(inputs),
        }
    }

    open spec fn infer_forward_spec(&self, inputs: Seq<ATensorView>) -> Result<
        Seq<ATensorView>,
        Error,
    > {
        match self {
            Operator::Binary(op) => op.infer_forward_spec(inputs),
            Operator::ConcatV2(op) => op.infer_forward_spec(inputs),
            Operator::Const(op) => op.infer_forward_spec(inputs),
            Operator::ExpandDims(op) => op.infer_forward_spec(inputs),
            Operator::Identity(op) => op.infer_forward_spec(inputs),
            Operator::MaxPool(op) => op.infer_forward_spec(inputs),
            Operator::Pack(op) => op.infer_forward_spec(inputs),
            Operator::Placeholder(op) => op.infer_forward_spec(inputs),
            Operator::Reshape(op) => op.infer_forward_spec(inputs),
            Operator::Shape(op) => op.infer_forward_spec(inputs),
            Operator::Squeeze(op) => op.infer_forward_spec(inputs),
            Operator::Unimplemented(op) => op.infer_forward_spec(inputs),
        }
    }

    open spec fn infer_backward_spec(&self, outputs: Seq<ATensorView>) -> Result<
        Seq<ATensorView>,
        Error,
    > {
        match self {
            Operator::Binary(op) => op.infer_backward_spec(outputs),
            Operator::ConcatV2(op) => op.infer_backward_spec(outputs),
            Operator::Const(op) => op.infer_backward_spec(outputs),
            Operator::ExpandDims(op) => op.infer_backward_spec(outputs),
            Operator::Identity(op) => op.infer_backward_spec(outputs),
            Operator::MaxPool(op) => op.infer_backward_spec(outputs),
            Operator::Pack(op) => op.infer_backward_spec(outputs),
            Operator::Placeholder(op) => op.infer_backward_spec(outputs),
            Operator::Reshape(op) => op.infer_backward_spec(outputs),
            Operator::Shape(op) => op.infer_backward_spec(outputs),
            Operator::Squeeze(op) => op.infer_backward_spec(outputs),
            Operator::Unimplemented(op) => op.infer_backward_spec(outputs),
        }
    }

    /// Evaluates the operation given the input tensors.
    fn eval(&self, inputs: Vec<Input>) -> (r: Result<Vec<Input>, Error>) {
        match self {
            Operator::Binary(op) => op.eval(inputs),
            Operator::ConcatV2(op) => op.eval(inputs),
            Operator::Const(op) => op.eval(inputs),
            Operator::ExpandDims(op) => op.eval(inputs),
            Operator::Identity(op) => op.eval(inputs),
            Operator::MaxPool(op) => op.eval(inputs),
            Operator::Pack(op) => op.eval(inputs),
            Operator::Placeholder(op) => op.eval(inputs),
            Operator::Reshape(op) => op.eval(inputs),
            Operator::Shape(op) => op.eval(inputs),
            Operator::Squeeze(op) => op.eval(inputs),
            Operator::Unimplemented(op) => op.eval(inputs),
        }
    }

    /// Infers properties about the output tensors from the input tensors.
    fn infer_forward(&self, inputs: Vec<&ATensor>) -> (r: Result<Vec<ATensor>, Error>) {
        match self {
            Operator::Binary(op) => op.infer_forward(inputs),
            Operator::ConcatV2(op) => op.infer_forward(inputs),
            Operator::Const(op) => op.infer_forward(inputs),
            Operator::ExpandDims(op) => op.infer_forward(inputs),
            Operator::Identity(op) => op.infer_forward(inputs),
            Operator::MaxPool(op) => op.infer_forward(inputs),
            Operator::Pack(op) => op.infer_forward(inputs),
            Operator::Placeholder(op) => op.infer_forward(inputs),
            Operator::Reshape(op) => op.infer_forward(inputs),
            Operator::Shape(op) => op.infer_forward(inputs),
            Operator::Squeeze(op) => op.infer_forward(inputs),
            Operator::Unimplemented(op) => op.infer_forward(inputs),
        }
    }

    /// Infers properties about the input tensors from the output tensors.
    fn infer_backward(&self, outputs: Vec<&ATensor>) -> (r: Result<Vec<ATensor>, Error>) {
        match self {
            Operator::Binary(op) => op.infer_backward(outputs),
            Operator::ConcatV2(op) => op.infer_backward(outputs),
            Operator::Const(op) => op.infer_backward(outputs),
            Operator::ExpandDims(op) => op.infer_backward(outputs),
            Operator::Identity(op) => op.infer_backward(outputs),
            Operator::MaxPool(op) => op.infer_backward(outputs),
            Operator::Pack(op) => op.infer_backward(outputs),
            Operator::Placeholder(op) => op.infer_backward(outputs),
            Operator::Reshape(op) => op.infer_backward(outputs),
            Operator::Shape(op) => op.infer_backward(outputs),
            Operator::Squeeze(op) => op.infer_backward(outputs),
            Operator::Unimplemented(op) => op.infer_backward(outputs),
        }
    }
}

/// The kinds of operators that the engine implements.
#[derive(Debug, Clone, Copy, PartialEq, Eq, Structural)]
pub enum OpKind {
    Add,
    ConcatV2,
    Const,
    ExpandDims,
    Identity,
    MaxPool,
    Mul,
    Pack,
    Placeholder,
    Reshape,
    Shape,
    Squeeze,
    Sub,
}

/// An entry of the register: the name of an operator and its kind.
#[derive(Debug)]
pub struct OpEntry {
    pub name: String,
    pub kind: OpKind,
}

/// The register of operators: which name stands for which kind.
#[derive(Debug)]
pub struct OpRegister {
    entries: Vec<OpEntry>,
}

impl View for OpRegister {
    type V = Seq<(Seq<char>, OpKind)>;

    closed spec fn view(&self) -> Seq<(Seq<char>, OpKind)> {
        Seq::new(self.entries@.len(), |i: int| (self.entries@[i].name@, self.entries@[i].kind))
    }
}

/// The kind that a register has for a name: that of the entry made last
/// under this name, if there is one.
pub open spec fn kind_of(entries: Seq<(Seq<char>, OpKind)>, name: Seq<char>) -> Option<OpKind>
    decreases entries.len(),
{
    if entries.len() == 0 {
        None
    } else if entries.last().0 == name {
        Some(entries.last().1)
    } else {
        kind_of(entries.drop_last(), name)
    }
}

impl OpRegister {
    /// A register without entries.
    pub fn new() -> (r: OpRegister)
        ensures
            r@ == Seq::<(Seq<char>, OpKind)>::empty(),
    {
        let r = OpRegister { entries: Vec::new() };
        assert(r@ =~= Seq::<(Seq<char>, OpKind)>::empty());
        r
    }

    /// Enters `kind` under `name`; an earlier entry under this name no
    /// longer counts.
    pub fn insert(&mut self, name: &str, kind: OpKind)
        ensures
            final(self)@ == old(self)@.push((name@, kind)),
    {
        self.entries.push(OpEntry { name: String::from_str(name), kind });
        assert(self@ =~= old(self)@.push((name@, kind)));
    }

    /// The kind entered under `name`, if there is one.
    pub fn get(&self, name: &str) -> (r: Option<OpKind>)
        ensures
            r == kind_of(self@, name@),
    {
        let wanted = String::from_str(name);
        let mut i: usize = self.entries.len();
        assert(self@.take(i as int) == self@);
        while i > 0
            invariant
                i <= self.entries.len(),
                wanted@ == name@,
                kind_of(self@, name@) == kind_of(self@.take(i as int), name@),
            decreases i,
        {
            i -= 1;
            proof {
                assert(self@.take(i + 1).last() == self@[i as int]);
                assert(self@.take(i + 1).drop_last() == self@.take(i as int));
            }
            if self.entries[i].name == wanted {
                return Some(self.entries[i].kind);
            }
        }
        None
    }
}

/// Whether `r` is what building an operator of the given kind for the node
/// `pb` gives.
pub open spec fn builds(kind: OpKind, pb: NodeDef, r: Result<Operator, Error>) -> bool {
    match kind {
        OpKind::Add => r matches Ok(Operator::Binary(op)) && op.kind == Arith::Add,
        OpKind::Mul => r matches Ok(Operator::Binary(op)) && op.kind == Arith::Mul,
        OpKind::Sub => r matches Ok(Operator::Binary(op)) && op.kind == Arith::Sub,
        OpKind::ConcatV2 => match attr_int_of(pb.attr@, "N"@) {
            Ok(n) => r matches Ok(Operator::ConcatV2(op)) && op.n == n,
            Err(e) => r == Err::<Operator, Error>(e),
        },
        OpKind::Const => match const_value_of(pb) {
            Ok(value) => r matches Ok(Operator::Const(op)) && op.value@ == value,
            Err(e) => r == Err::<Operator, Error>(e),
        },
        OpKind::ExpandDims => r matches Ok(Operator::ExpandDims(_)),
        OpKind::Identity => r matches Ok(Operator::Identity(_)),
        OpKind::MaxPool => match pool_of(pb) {
            Ok(pool) => r matches Ok(Operator::MaxPool(op)) && op.pool == pool,
            Err(e) => r == Err::<Operator, Error>(e),
        },
        OpKind::Pack => match (attr_int_of(pb.attr@, "N"@), attr_signed_of(pb.attr@, "axis"@, 0)) {
            (Ok(n), Ok(axis)) => r matches Ok(Operator::Pack(op)) && op.n == n && op.axis == axis,
            (Err(e), _) => r == Err::<Operator, Error>(e),
            (_, Err(e)) => r == Err::<Operator, Error>(e),
        },
        OpKind::Placeholder => match attr_datatype_of(pb.attr@, "dtype"@) {
            Ok(datatype) => r matches Ok(Operator::Placeholder(op)) && op.datatype == datatype,
            Err(e) => r == Err::<Operator, Error>(e),
        },
        OpKind::Reshape => r matches Ok(Operator::Reshape(_)),
        OpKind::Shape => r matches Ok(Operator::Shape(_)),
        OpKind::Squeeze => match attr_list_int_of(pb.attr@, "squeeze_dims"@) {
            Ok(dims) => r matches Ok(Operator::Squeeze(op)) && op.dims@ == dims,
            Err(e) => r == Err::<Operator, Error>(e),
        },
    }
}

/// The names and kinds of all the operators of the engine, in the order in
/// which the builder enters them into its register.
pub open spec fn engine_ops() -> Seq<(Seq<char>, OpKind)> {
    crate::ops::array::array_ops().push(("Const"@, OpKind::Const)).push(("Add"@, OpKind::Add)).push(
        ("Mul"@, OpKind::Mul),
    ).push(("Sub"@, OpKind::Sub)).push(("MaxPool"@, OpKind::MaxPool))
}

/// The builder of operators: a register filled with the operators of the
/// engine.
#[derive(Debug)]
pub struct OpBuilder(pub OpRegister);

impl OpBuilder {
    /// A builder that knows every operator of the engine.
    pub fn new() -> (r: OpBuilder)
        ensures
            r.0@ == engine_ops(),
    {
        let mut reg = OpRegister::new();
        array::register_all_ops(&mut reg);
        konst::register_all_ops(&mut reg);
        math::register_all_ops(&mut reg);
        nn::register_all_ops(&mut reg);
        OpBuilder(reg)
    }

    /// Builds the operator of a node.  A name that the register does not
    /// know gives a stand-in that fails when it is evaluated; a known name
    /// gives the operator of its kind, built from the node's attributes.
    pub fn build(&self, pb: &NodeDef) -> (r: Result<Operator, Error>)
        ensures
            match kind_of(self.0@, pb.op@) {
                Some(kind) => builds(kind, *pb, r),
                None => r matches Ok(Operator::Unimplemented(op)) && op.0@ == pb.op@,
            },
    {
        match self.0.get(pb.get_op()) {
            Some(kind) => match kind {
                OpKind::Add => match Binary::build(Arith::Add, pb) {
                    Ok(op) => Ok(Operator::Binary(op)),
                    Err(e) => Err(e),
                },
                OpKind::Mul => match Binary::build(Arith::Mul, pb) {
                    Ok(op) => Ok(Operator::Binary(op)),
                    Err(e) => Err(e),
                },
                OpKind::Sub => match Binary::build(Arith::Sub, pb) {
                    Ok(op) => Ok(Operator::Binary(op)),
                    Err(e) => Err(e),
                },
                OpKind::ConcatV2 => match ConcatV2::build(pb) {
                    Ok(op) => Ok(Operator::ConcatV2(op)),
                    Err(e) => Err(e),
                },
                OpKind::Const => match Const::build(pb) {
                    Ok(op) => Ok(Operator::Const(op)),
                    Err(e) => Err(e),
                },
                OpKind::ExpandDims => match ExpandDims::build(pb) {
                    Ok(op) => Ok(Operator::ExpandDims(op)),
                    Err(e) => Err(e),
                },
                OpKind::Identity => match Identity::build(pb) {
                    Ok(op) => Ok(Operator::Identity(op)),
                    Err(e) => Err(e),
                },
                OpKind::MaxPool => match MaxPool::build(pb) {
                    Ok(op) => Ok(Operator::MaxPool(op)),
                    Err(e) => Err(e),
                },
                OpKind::Pack => match Pack::build(pb) {
                    Ok(op) => Ok(Operator::Pack(op)),
                    Err(e) => Err(e),
                },
                OpKind::Placeholder => match Placeholder::build(pb) {
                    Ok(op) => Ok(Operator::Placeholder(op)),
                    Err(e) => Err(e),
                },
                OpKind::Reshape => match Reshape::build(pb) {
                    Ok(op) => Ok(Operator::Reshape(op)),
                    Err(e) => Err(e),
                },
                OpKind::Shape => match Shape::build(pb) {
                    Ok(op) => Ok(Operator::Shape(op)),
                    Err(e) => Err(e),
                },
                OpKind::Squeeze => match Squeeze::build(pb) {
                    Ok(op) => Ok(Operator::Squeeze(op)),
                    Err(e) => Err(e),
                },
            },
            None => Ok(
                Operator::Unimplemented(
                    UnimplementedOp(String::from_str(pb.get_op()), pb.clone()),
                ),
            ),
        }
    }
}

} // verus!
