use tfdeploy::analyser::types::{ADimension, AShape, ATensor, AType, AValue};
use tfdeploy::errors::Error;
use tfdeploy::matrix::Matrix;
use tfdeploy::ops::array::concat::ConcatV2;
use tfdeploy::ops::array::expand_dims::ExpandDims;
use tfdeploy::ops::array::identity::Identity;
use tfdeploy::ops::array::pack::Pack;
use tfdeploy::ops::array::placeholder::Placeholder;
use tfdeploy::ops::array::reshape::Reshape;
use tfdeploy::ops::array::shape::Shape;
use tfdeploy::ops::array::squeeze::Squeeze;
use tfdeploy::ops::konst::Const;
use tfdeploy::ops::math::{Arith, Binary};
use tfdeploy::ops::nn::{pool_size, Padding, Pool};
use tfdeploy::ops::{Input, Op, OpBuilder, OpKind, OpRegister, Operator, UnimplementedOp};
use tfdeploy::tfpb::node_def::{Attr, AttrValue, NodeDef};
use tfdeploy::tfpb::tensor::TensorProto;
use tfdeploy::tfpb::types::DataType;

fn floats(shape: &[usize], values: &[f32]) -> Matrix {
    let bits: Vec<u32> = values.iter().map(|v| v.to_bits()).collect();
    Matrix::f32s(shape, &bits).unwrap()
}

fn ints(shape: &[usize], values: &[i32]) -> Matrix {
    Matrix::i32s(shape, values).unwrap()
}

fn run(op: &dyn Op, inputs: Vec<Matrix>) -> Result<Vec<Matrix>, Error> {
    let inputs: Vec<Input> = inputs.into_iter().map(Input::from).collect();
    op.eval(inputs).map(|out| out.into_iter().map(|i| i.into_matrix()).collect())
}

fn node(op: &str, attr: Vec<Attr>) -> NodeDef {
    NodeDef { name: "n".to_string(), op: op.to_string(), input: vec![], attr }
}

fn attr(key: &str, value: AttrValue) -> Attr {
    Attr { key: key.to_string(), value }
}

fn known(m: Matrix) -> ATensor {
    ATensor {
        datatype: AType::Only(m.datatype()),
        shape: AShape::from_sizes(m.shape()),
        value: AValue::Only(m),
    }
}

fn typed(datatype: DataType, shape: AShape) -> ATensor {
    ATensor { datatype: AType::Only(datatype), shape, value: AValue::Any }
}

#[test]
fn identity_returns_its_input() {
    let x = floats(&[2], &[1.0, 2.0]);
    let out = run(&Identity, vec![x.clone()]).unwrap();
    assert_eq!(out.len(), 1);
    assert!(out[0] == x);
    let fact = typed(DataType::DT_FLOAT, AShape::Open(vec![ADimension::Only(2)]));
    let inferred = Identity.infer_forward(vec![&fact]).unwrap();
    assert!(inferred[0].same_as(&fact));
    let inferred = Identity.infer_backward(vec![&fact]).unwrap();
    assert!(inferred[0].same_as(&fact));
    assert_eq!(Identity.infer_forward(vec![]).unwrap_err(), Error::InvalidGraph);
}

#[test]
fn placeholder_cannot_be_evaluated() {
    let def = node("Placeholder", vec![attr("dtype", AttrValue::Type(DataType::DT_FLOAT))]);
    let op = Placeholder::build(&def).unwrap();
    assert_eq!(op.datatype, DataType::DT_FLOAT);
    assert_eq!(op.eval(vec![]).unwrap_err(), Error::PrecondMissing);
    let out = op.infer_forward(vec![]).unwrap();
    assert_eq!(out.len(), 1);
    assert!(out[0].same_as(&typed(DataType::DT_FLOAT, AShape::any())));
    assert!(op.infer_backward(vec![]).is_err());
    assert_eq!(Placeholder::build(&node("Placeholder", vec![])).unwrap_err(), Error::InvalidGraph);
}

#[test]
fn reshape_resolves_one_wild_dimension() {
    let x = floats(&[2, 2], &[1.0, 2.0, 3.0, 4.0]);
    let out = run(&Reshape {}, vec![x.clone(), ints(&[1], &[-1])]).unwrap();
    assert!(out[0] == floats(&[4], &[1.0, 2.0, 3.0, 4.0]));
    let out = run(&Reshape {}, vec![x.clone(), ints(&[3], &[1, -1, 2])]).unwrap();
    assert_eq!(out[0].shape(), &[1, 2, 2]);
    assert_eq!(Reshape::true_dims(&[-1, 3], 12), Ok(vec![4, 3]));
    assert_eq!(Reshape::true_dims(&[2, 3], 7), Ok(vec![2, 3]));
    assert_eq!(Reshape::true_dims(&[-1, 5], 12), Ok(vec![2, 5]));
}

#[test]
fn reshape_to_own_shape_is_identity() {
    let x = floats(&[2, 3], &[1.0, 2.0, 3.0, 4.0, 5.0, 6.0]);
    let shape = run(&Shape, vec![x.clone()]).unwrap().remove(0);
    let out = run(&Reshape {}, vec![x.clone(), shape]).unwrap();
    assert!(out[0] == x);
}

#[test]
fn reshape_with_two_wild_dimensions_is_unsupported() {
    let x = floats(&[4], &[1.0, 2.0, 3.0, 4.0]);
    assert_eq!(
        run(&Reshape {}, vec![x, ints(&[2], &[-1, -1])]).unwrap_err(),
        Error::UnsupportedAttribute
    );
}

#[test]
fn reshape_with_wrong_product_is_a_shape_mismatch() {
    let x = floats(&[4], &[1.0, 2.0, 3.0, 4.0]);
    let op = Reshape {};
    assert_eq!(run(&op, vec![x.clone(), ints(&[2], &[3, 2])]).unwrap_err(), Error::ShapeMismatch);
    assert_eq!(run(&op, vec![x.clone(), ints(&[2], &[-1, 3])]).unwrap_err(), Error::ShapeMismatch);
    assert_eq!(run(&op, vec![x.clone(), ints(&[2], &[-1, 0])]).unwrap_err(), Error::ShapeMismatch);
    assert_eq!(run(&op, vec![x.clone(), ints(&[2], &[-2, 2])]).unwrap_err(), Error::ShapeMismatch);
    assert_eq!(
        run(&op, vec![x.clone(), floats(&[1], &[4.0])]).unwrap_err(),
        Error::TypeMismatch
    );
    assert_eq!(run(&op, vec![x]).unwrap_err(), Error::InvalidGraph);
}

#[test]
fn reshape_inference() {
    let op = Reshape {};
    let x = typed(DataType::DT_FLOAT, AShape::any());
    let dims = known(ints(&[2], &[3, 4]));
    let out = op.infer_forward(vec![&x, &dims]).unwrap();
    assert!(out[0].same_as(&typed(DataType::DT_FLOAT, AShape::from_sizes(&[3, 4]))));
    let sized = typed(DataType::DT_FLOAT, AShape::from_sizes(&[2, 6]));
    let wild = known(ints(&[2], &[-1, 4]));
    let out = op.infer_forward(vec![&sized, &wild]).unwrap();
    assert!(out[0].same_as(&typed(DataType::DT_FLOAT, AShape::from_sizes(&[3, 4]))));
    assert_eq!(op.infer_forward(vec![&x, &wild]).unwrap_err(), Error::NotConcrete);
    assert_eq!(op.infer_forward(vec![&x, &x]).unwrap_err(), Error::NotConcrete);
    let both = op
        .infer_forward(vec![&known(floats(&[2], &[1.0, 2.0])), &known(ints(&[2], &[2, 1]))])
        .unwrap();
    assert!(both[0].same_as(&known(floats(&[2, 1], &[1.0, 2.0]))));
    let back = op.infer_backward(vec![&sized]).unwrap();
    assert_eq!(back.len(), 2);
    assert!(back[0].same_as(&typed(DataType::DT_FLOAT, AShape::any())));
    assert!(back[1].same_as(&typed(DataType::DT_INT32, AShape::any())));
}

#[test]
fn expand_dims_inserts_axes_in_ascending_order() {
    let x = floats(&[2, 3], &[0.0; 6]);
    let out = run(&ExpandDims, vec![x.clone(), ints(&[1], &[0])]).unwrap();
    assert_eq!(out[0].shape(), &[1, 2, 3]);
    let out = run(&ExpandDims, vec![x.clone(), ints(&[1], &[2])]).unwrap();
    assert_eq!(out[0].shape(), &[2, 3, 1]);
    let out = run(&ExpandDims, vec![x.clone(), ints(&[2], &[3, 0])]).unwrap();
    assert_eq!(out[0].shape(), &[1, 2, 3, 1]);
    assert_eq!(ExpandDims::expand_shape(&[5], &[1, 1]), Ok(vec![5, 1, 1]));
    assert_eq!(
        run(&ExpandDims, vec![x.clone(), ints(&[1], &[-1])]).unwrap_err(),
        Error::UnsupportedAttribute
    );
    assert_eq!(
        run(&ExpandDims, vec![x.clone(), ints(&[1], &[3])]).unwrap_err(),
        Error::ShapeMismatch
    );
    assert_eq!(
        run(&ExpandDims, vec![x, floats(&[1], &[0.0])]).unwrap_err(),
        Error::TypeMismatch
    );
}

#[test]
fn expand_dims_inference_marks_the_axes() {
    let x = typed(DataType::DT_FLOAT, AShape::any());
    let axes = known(ints(&[2], &[2, 0]));
    let out = ExpandDims.infer_forward(vec![&x, &axes]).unwrap();
    let any = ADimension::Any;
    let one = ADimension::Only(1);
    assert!(out[0].same_as(&typed(DataType::DT_FLOAT, AShape::Open(vec![one, any, one]))));
    assert_eq!(ExpandDims.infer_forward(vec![&x, &x]).unwrap_err(), Error::NotConcrete);
    assert_eq!(ExpandDims.infer_backward(vec![&x]).unwrap().len(), 2);
}

#[test]
fn squeeze_removes_axes_of_size_one() {
    let x = floats(&[1, 2, 1, 3], &[0.0; 6]);
    let op = Squeeze { dims: vec![2, 0] };
    assert_eq!(run(&op, vec![x.clone()]).unwrap()[0].shape(), &[2, 3]);
    assert_eq!(op.squeeze_shape(vec![1, 7, 1]), Ok(vec![7]));
    let none = Squeeze { dims: vec![] };
    assert!(run(&none, vec![x.clone()]).unwrap()[0] == x);
    let wrong = Squeeze { dims: vec![1] };
    assert_eq!(run(&wrong, vec![x.clone()]).unwrap_err(), Error::ShapeMismatch);
    let beyond = Squeeze { dims: vec![4] };
    assert_eq!(run(&beyond, vec![x]).unwrap_err(), Error::ShapeMismatch);
}

#[test]
fn squeeze_with_negative_axis_is_unsupported() {
    let x = floats(&[1, 2], &[1.0, 2.0]);
    let op = Squeeze { dims: vec![-1] };
    assert_eq!(run(&op, vec![x]).unwrap_err(), Error::UnsupportedAttribute);
    assert_eq!(op.squeeze_shape(vec![1]).unwrap_err(), Error::UnsupportedAttribute);
}

#[test]
fn squeeze_undoes_expand_dims() {
    let x = floats(&[2, 3], &[1.0, 2.0, 3.0, 4.0, 5.0, 6.0]);
    for k in 0..3 {
        let wider = run(&ExpandDims, vec![x.clone(), ints(&[1], &[k])]).unwrap().remove(0);
        assert_eq!(wider.rank(), 3);
        let op = Squeeze { dims: vec![k as i64] };
        assert!(run(&op, vec![wider]).unwrap()[0] == x);
    }
}

#[test]
fn squeeze_build_and_inference() {
    let def = node("Squeeze", vec![attr("squeeze_dims", AttrValue::List(vec![0]))]);
    let op = Squeeze::build(&def).unwrap();
    assert_eq!(op.dims, vec![0]);
    assert_eq!(Squeeze::build(&node("Squeeze", vec![])).unwrap_err(), Error::InvalidGraph);
    let sized = typed(DataType::DT_FLOAT, AShape::from_sizes(&[1, 4]));
    let out = op.infer_forward(vec![&sized]).unwrap();
    assert!(out[0].same_as(&typed(DataType::DT_FLOAT, AShape::from_sizes(&[4]))));
    let open = typed(DataType::DT_FLOAT, AShape::any());
    assert_eq!(op.infer_forward(vec![&open]).unwrap_err(), Error::NotConcrete);
    let back = op.infer_backward(vec![&sized]).unwrap();
    assert_eq!(back.len(), 1);
    assert!(back[0].same_as(&open));
}

#[test]
fn shape_gives_the_dimensions() {
    let x = floats(&[2, 3], &[0.0; 6]);
    let out = run(&Shape, vec![x]).unwrap();
    assert!(out[0] == ints(&[2], &[2, 3]));
    let scalar = floats(&[], &[1.0]);
    assert!(run(&Shape, vec![scalar]).unwrap()[0] == ints(&[0], &[]));
    assert_eq!(run(&Shape, vec![]).unwrap_err(), Error::InvalidGraph);
    assert!(Shape::tensor_of_shape(&[7]).unwrap() == ints(&[1], &[7]));
    assert_eq!(Shape::tensor_of_shape(&[1 << 31]).unwrap_err(), Error::ShapeMismatch);
}

#[test]
fn shape_inference() {
    let sized = typed(DataType::DT_FLOAT, AShape::from_sizes(&[2, 3]));
    let out = Shape.infer_forward(vec![&sized]).unwrap();
    assert!(out[0].same_as(&known(ints(&[2], &[2, 3]))));
    let ranked = typed(
        DataType::DT_FLOAT,
        AShape::Closed(vec![ADimension::Any, ADimension::Only(3)]),
    );
    let out = Shape.infer_forward(vec![&ranked]).unwrap();
    assert!(out[0].same_as(&typed(DataType::DT_INT32, AShape::from_sizes(&[2]))));
    let open = typed(DataType::DT_FLOAT, AShape::any());
    let out = Shape.infer_forward(vec![&open]).unwrap();
    assert!(out[0].same_as(&typed(DataType::DT_INT32, AShape::Closed(vec![ADimension::Any]))));
    // Backward: from the value, else from the shape.
    let back = Shape.infer_backward(vec![&known(ints(&[2], &[4, 5]))]).unwrap();
    assert!(back[0].shape.same_as(&AShape::from_sizes(&[4, 5])));
    assert_eq!(back[0].datatype, AType::Any);
    let back = Shape.infer_backward(vec![&typed(DataType::DT_INT32, AShape::from_sizes(&[3]))])
        .unwrap();
    assert!(back[0].shape.same_as(&AShape::Closed(vec![ADimension::Any; 3])));
    assert_eq!(
        Shape.infer_backward(vec![&typed(DataType::DT_INT32, AShape::any())]).unwrap_err(),
        Error::NotConcrete
    );
    assert_eq!(
        Shape.infer_backward(vec![&known(floats(&[1], &[1.0]))]).unwrap_err(),
        Error::TypeMismatch
    );
    assert_eq!(
        Shape.infer_backward(vec![&known(ints(&[1, 1], &[1]))]).unwrap_err(),
        Error::ShapeMismatch
    );
}

#[test]
fn concat_along_an_axis() {
    let a = floats(&[1, 2], &[1.0, 2.0]);
    let b = floats(&[1, 2], &[3.0, 4.0]);
    let op = ConcatV2 { n: 2 };
    let rows = run(&op, vec![a.clone(), b.clone(), ints(&[], &[0])]).unwrap();
    assert!(rows[0] == floats(&[2, 2], &[1.0, 2.0, 3.0, 4.0]));
    let cols = run(&op, vec![a.clone(), b.clone(), ints(&[], &[1])]).unwrap();
    assert!(cols[0] == floats(&[1, 4], &[1.0, 2.0, 3.0, 4.0]));
    let tall = floats(&[2, 2], &[5.0, 6.0, 7.0, 8.0]);
    let mixed = run(&op, vec![tall.clone(), a.clone(), ints(&[], &[0])]).unwrap();
    assert!(mixed[0] == floats(&[3, 2], &[5.0, 6.0, 7.0, 8.0, 1.0, 2.0]));
    let wide = run(&op, vec![tall.clone(), tall.clone(), ints(&[], &[1])]).unwrap();
    assert!(wide[0] == floats(&[2, 4], &[5.0, 6.0, 5.0, 6.0, 7.0, 8.0, 7.0, 8.0]));
}

#[test]
fn concat_rejects_what_does_not_fit() {
    let a = floats(&[1, 2], &[1.0, 2.0]);
    let tall = floats(&[2, 3], &[0.0; 6]);
    let op = ConcatV2 { n: 2 };
    assert_eq!(
        run(&op, vec![a.clone(), tall.clone(), ints(&[], &[0])]).unwrap_err(),
        Error::ShapeMismatch
    );
    assert_eq!(
        run(&op, vec![a.clone(), a.clone(), ints(&[], &[2])]).unwrap_err(),
        Error::ShapeMismatch
    );
    assert_eq!(
        run(&op, vec![a.clone(), a.clone(), ints(&[], &[-1])]).unwrap_err(),
        Error::UnsupportedAttribute
    );
    assert_eq!(
        run(&op, vec![a.clone(), ints(&[1, 2], &[1, 2]), ints(&[], &[0])]).unwrap_err(),
        Error::TypeMismatch
    );
    assert_eq!(
        run(&op, vec![a.clone(), a.clone(), floats(&[], &[0.0])]).unwrap_err(),
        Error::TypeMismatch
    );
    assert_eq!(
        run(&op, vec![a.clone(), a.clone(), ints(&[0], &[])]).unwrap_err(),
        Error::ShapeMismatch
    );
    assert_eq!(run(&op, vec![a.clone(), a.clone()]).unwrap_err(), Error::InvalidGraph);
    let none = ConcatV2 { n: 0 };
    assert_eq!(run(&none, vec![ints(&[], &[0])]).unwrap_err(), Error::ShapeMismatch);
    let def = node("ConcatV2", vec![attr("N", AttrValue::I(3))]);
    assert_eq!(ConcatV2::build(&def).unwrap().n, 3);
    assert_eq!(ConcatV2::build(&node("ConcatV2", vec![])).unwrap_err(), Error::InvalidGraph);
}

#[test]
fn concat_inference() {
    let op = ConcatV2 { n: 1 };
    let a = known(floats(&[1], &[1.0]));
    let axis = known(ints(&[], &[0]));
    let out = op.infer_forward(vec![&a, &axis]).unwrap();
    assert!(out[0].same_as(&a));
    let open = ATensor::new();
    let out = op.infer_forward(vec![&open, &axis]).unwrap();
    assert!(out[0].same_as(&ATensor::new()));
    let back = op.infer_backward(vec![&a]).unwrap();
    assert_eq!(back.len(), 2);
    assert!(back[1].same_as(&typed(DataType::DT_INT32, AShape::any())));
}

#[test]
fn constant_returns_its_tensor() {
    let mut t = TensorProto::new(DataType::DT_INT32);
    t.tensor_shape = vec![2];
    t.int_val = vec![3, 4];
    let def = node("Const", vec![attr("value", AttrValue::Tensor(t))]);
    let op = Const::build(&def).unwrap();
    assert!(run(&op, vec![]).unwrap()[0] == ints(&[2], &[3, 4]));
    assert!(op.infer_forward(vec![]).unwrap()[0].same_as(&known(ints(&[2], &[3, 4]))));
    assert_eq!(op.infer_backward(vec![]).unwrap().len(), 0);
    assert_eq!(Const::build(&node("Const", vec![])).unwrap_err(), Error::InvalidGraph);
}

#[test]
fn unknown_operators_fail_when_evaluated() {
    let builder = OpBuilder::new();
    let op = builder.build(&node("Quantum", vec![])).unwrap();
    assert!(matches!(&op, Operator::Unimplemented(u) if u.0 == "Quantum"));
    assert_eq!(
        op.eval(vec![]).unwrap_err(),
        Error::UnimplementedOperator("Quantum".to_string())
    );
    assert!(op.infer_forward(vec![]).is_err());
    let stub = UnimplementedOp("Quantum".to_string(), node("Quantum", vec![]));
    assert_eq!(stub.message(), "unimplemented operation: Quantum");
}

#[test]
fn builder_knows_the_operators() {
    let builder = OpBuilder::new();
    assert!(matches!(builder.build(&node("Identity", vec![])), Ok(Operator::Identity(_))));
    assert!(matches!(builder.build(&node("Reshape", vec![])), Ok(Operator::Reshape(_))));
    assert!(matches!(builder.build(&node("Shape", vec![])), Ok(Operator::Shape(_))));
    assert!(matches!(builder.build(&node("ExpandDims", vec![])), Ok(Operator::ExpandDims(_))));
    assert_eq!(builder.build(&node("Squeeze", vec![])).unwrap_err(), Error::InvalidGraph);
    assert_eq!(builder.build(&node("ConcatV2", vec![])).unwrap_err(), Error::InvalidGraph);
    assert_eq!(builder.build(&node("Placeholder", vec![])).unwrap_err(), Error::InvalidGraph);
    assert_eq!(builder.build(&node("Const", vec![])).unwrap_err(), Error::InvalidGraph);
    let def = node("Placeholder", vec![attr("dtype", AttrValue::Type(DataType::DT_INT32))]);
    assert!(matches!(
        builder.build(&def),
        Ok(Operator::Placeholder(Placeholder { datatype: DataType::DT_INT32 }))
    ));
}

#[test]
fn register_keeps_the_last_entry() {
    let mut reg = OpRegister::new();
    assert_eq!(reg.get("Shape"), None);
    tfdeploy::ops::array::register_all_ops(&mut reg);
    tfdeploy::ops::konst::register_all_ops(&mut reg);
    assert_eq!(reg.get("Shape"), Some(OpKind::Shape));
    assert_eq!(reg.get("Const"), Some(OpKind::Const));
    assert_eq!(reg.get("Pack"), Some(OpKind::Pack));
    assert_eq!(reg.get("StridedSlice"), None);
    reg.insert("Shape", OpKind::Identity);
    assert_eq!(reg.get("Shape"), Some(OpKind::Identity));
}

#[test]
fn node_attributes() {
    let def = node(
        "X",
        vec![
            attr("n", AttrValue::I(2)),
            attr("n", AttrValue::I(5)),
            attr("neg", AttrValue::I(-1)),
            attr("list", AttrValue::List(vec![1, 2])),
            attr("s", AttrValue::S("SAME".to_string())),
        ],
    );
    assert_eq!(def.get_op(), "X");
    assert_eq!(def.get_attr_int("n"), Ok(2));
    assert_eq!(def.get_attr_int("neg"), Err(Error::InvalidGraph));
    assert_eq!(def.get_attr_int("list"), Err(Error::InvalidGraph));
    assert_eq!(def.get_attr_list_int("list"), Ok(vec![1, 2]));
    assert_eq!(def.get_attr_str("s").unwrap(), "SAME");
    assert!(def.get_attr("missing").is_none());
    assert_eq!(def.get_attr_datatype("n"), Err(Error::InvalidGraph));
    assert!(def.get_attr_tensor("n").is_err());
}

#[test]
fn same_padding_rounds_up() {
    assert_eq!(pool_size(Padding::Same, 4, 2, 2), 2);
    assert_eq!(pool_size(Padding::Same, 5, 2, 2), 3);
    assert_eq!(pool_size(Padding::Same, 7, 3, 3), 3);
    assert_eq!(pool_size(Padding::Same, 1, 16, 4), 1);
    assert_eq!(pool_size(Padding::Same, 0, 2, 2), 0);
    for h in 1..40usize {
        for s in 1..6usize {
            assert_eq!(pool_size(Padding::Same, h, 2, s), (h + s - 1) / s);
        }
    }
}

#[test]
fn valid_padding_drops_incomplete_windows() {
    assert_eq!(pool_size(Padding::Valid, 4, 2, 2), 2);
    assert_eq!(pool_size(Padding::Valid, 5, 2, 2), 2);
    assert_eq!(pool_size(Padding::Valid, 5, 3, 1), 3);
    assert_eq!(pool_size(Padding::Valid, 2, 3, 1), 0);
    assert_eq!(pool_size(Padding::Valid, 3, 3, 5), 1);
}

#[test]
fn pool_attributes_and_output_shape() {
    let def = node(
        "MaxPool",
        vec![
            attr("ksize", AttrValue::List(vec![1, 2, 2, 1])),
            attr("strides", AttrValue::List(vec![1, 2, 2, 1])),
            attr("padding", AttrValue::S("VALID".to_string())),
        ],
    );
    let pool = Pool::build(&def).unwrap();
    assert_eq!(pool.ksize, (2, 2));
    assert_eq!(pool.strides, (2, 2));
    assert_eq!(pool.padding, Padding::Valid);
    assert_eq!(pool.output_shape(&[1, 4, 4, 1]), Ok(vec![1, 2, 2, 1]));
    assert_eq!(pool.output_shape(&[4, 4]), Err(Error::ShapeMismatch));
    let same = Pool { ksize: (3, 3), strides: (2, 3), padding: Padding::Same };
    assert_eq!(same.output_shape(&[2, 5, 7, 3]), Ok(vec![2, 3, 3, 3]));
    let bad = node(
        "MaxPool",
        vec![
            attr("ksize", AttrValue::List(vec![1, 2, 2, 1])),
            attr("strides", AttrValue::List(vec![1, 0, 2, 1])),
            attr("padding", AttrValue::S("VALID".to_string())),
        ],
    );
    assert_eq!(Pool::build(&bad).unwrap_err(), Error::UnsupportedAttribute);
    let odd = node(
        "MaxPool",
        vec![
            attr("ksize", AttrValue::List(vec![1, 2, 2, 1])),
            attr("strides", AttrValue::List(vec![1, 2, 2, 1])),
            attr("padding", AttrValue::S("FULL".to_string())),
        ],
    );
    assert_eq!(Pool::build(&odd).unwrap_err(), Error::UnsupportedAttribute);
    assert_eq!(Pool::build(&node("MaxPool", vec![])).unwrap_err(), Error::InvalidGraph);
}

fn max_pool(ksize: (usize, usize), strides: (usize, usize), padding: Padding) -> tfdeploy::ops::nn::MaxPool {
    tfdeploy::ops::nn::MaxPool { pool: Pool { ksize, strides, padding } }
}

#[test]
fn max_pool_of_ones() {
    let x = floats(&[1, 4, 4, 1], &[1.0; 16]);
    let out = run(&max_pool((2, 2), (2, 2), Padding::Valid), vec![x]).unwrap();
    assert!(out[0] == floats(&[1, 2, 2, 1], &[1.0; 4]));
}

#[test]
fn max_pool_takes_the_greatest_of_each_window() {
    let values: Vec<f32> = (1..=16).map(|v| v as f32).collect();
    let x = floats(&[1, 4, 4, 1], &values);
    let out = run(&max_pool((2, 2), (2, 2), Padding::Valid), vec![x.clone()]).unwrap();
    assert!(out[0] == floats(&[1, 2, 2, 1], &[6.0, 8.0, 14.0, 16.0]));
    let out = run(&max_pool((3, 3), (1, 1), Padding::Valid), vec![x.clone()]).unwrap();
    assert!(out[0] == floats(&[1, 2, 2, 1], &[11.0, 12.0, 15.0, 16.0]));
    let out = run(&max_pool((2, 2), (3, 3), Padding::Same), vec![x]).unwrap();
    assert!(out[0] == floats(&[1, 2, 2, 1], &[6.0, 8.0, 14.0, 16.0]));
    // Two images of two channels: the channels are pooled apart.
    let x = floats(
        &[2, 1, 2, 2],
        &[1.0, -1.0, 2.0, -2.0, -3.0, 3.0, -4.0, 4.0],
    );
    let out = run(&max_pool((1, 2), (1, 2), Padding::Valid), vec![x]).unwrap();
    assert!(out[0] == floats(&[2, 1, 1, 2], &[2.0, -1.0, -3.0, 4.0]));
}

#[test]
fn max_pool_orders_negative_numbers() {
    let x = floats(&[1, 1, 4, 1], &[-1.0, -0.5, -8.0, -0.0]);
    let out = run(&max_pool((1, 2), (1, 2), Padding::Valid), vec![x]).unwrap();
    assert!(out[0] == floats(&[1, 1, 2, 1], &[-0.5, -0.0]));
    let big = floats(&[1, 1, 2, 1], &[f32::NEG_INFINITY, f32::MIN]);
    let out = run(&max_pool((1, 2), (1, 1), Padding::Valid), vec![big]).unwrap();
    assert!(out[0] == floats(&[1, 1, 1, 1], &[f32::MIN]));
}

#[test]
fn max_pool_pads_with_zeros() {
    let x = floats(&[1, 3, 3, 1], &[-1.0; 9]);
    let out = run(&max_pool((2, 2), (2, 2), Padding::Same), vec![x]).unwrap();
    assert!(out[0] == floats(&[1, 2, 2, 1], &[-1.0, 0.0, 0.0, 0.0]));
    let y = floats(&[1, 1, 5, 1], &[-1.0, -2.0, -3.0, -4.0, -5.0]);
    // Three windows of three places over five, with one place of padding
    // on either side.
    let out = run(&max_pool((1, 3), (1, 2), Padding::Same), vec![y]).unwrap();
    assert!(out[0] == floats(&[1, 1, 3, 1], &[0.0, -2.0, 0.0]));
}

#[test]
fn max_pool_of_integers_and_errors() {
    let x = ints(&[1, 2, 2, 1], &[-3, 7, 2, -9]);
    let out = run(&max_pool((2, 2), (1, 1), Padding::Valid), vec![x.clone()]).unwrap();
    assert!(out[0] == ints(&[1, 1, 1, 1], &[7]));
    let none = run(&max_pool((3, 3), (1, 1), Padding::Valid), vec![x.clone()]).unwrap();
    assert!(none[0] == ints(&[1, 0, 0, 1], &[]));
    assert_eq!(
        run(&max_pool((2, 2), (0, 1), Padding::Valid), vec![x.clone()]).unwrap_err(),
        Error::UnsupportedAttribute
    );
    assert_eq!(
        run(&max_pool((2, 2), (1, 1), Padding::Valid), vec![ints(&[2, 2], &[1, 2, 3, 4])])
            .unwrap_err(),
        Error::ShapeMismatch
    );
    assert_eq!(
        run(
            &max_pool((1, 1), (1, 1), Padding::Valid),
            vec![Matrix::u8s(&[1, 1, 1, 1], &[1]).unwrap()]
        )
        .unwrap_err(),
        Error::TypeMismatch
    );
    assert_eq!(
        run(&max_pool((1, 1), (1, 1), Padding::Valid), vec![]).unwrap_err(),
        Error::InvalidGraph
    );
}

#[test]
fn max_pool_inference() {
    let op = max_pool((2, 2), (2, 2), Padding::Same);
    let sized = typed(DataType::DT_FLOAT, AShape::from_sizes(&[1, 5, 4, 3]));
    let out = op.infer_forward(vec![&sized]).unwrap();
    assert!(out[0].same_as(&typed(DataType::DT_FLOAT, AShape::from_sizes(&[1, 3, 2, 3]))));
    let open = typed(DataType::DT_FLOAT, AShape::any());
    let out = op.infer_forward(vec![&open]).unwrap();
    assert!(out[0].same_as(&typed(DataType::DT_FLOAT, AShape::Closed(vec![ADimension::Any; 4]))));
    let given = known(floats(&[1, 2, 2, 1], &[1.0, 2.0, 3.0, 4.0]));
    let out = op.infer_forward(vec![&given]).unwrap();
    assert!(out[0].same_as(&known(floats(&[1, 1, 1, 1], &[4.0]))));
    let builder = OpBuilder::new();
    let def = node(
        "MaxPool",
        vec![
            attr("ksize", AttrValue::List(vec![1, 2, 2, 1])),
            attr("strides", AttrValue::List(vec![1, 2, 2, 1])),
            attr("padding", AttrValue::S("SAME".to_string())),
        ],
    );
    assert!(matches!(builder.build(&def), Ok(Operator::MaxPool(_))));
    assert!(matches!(builder.build(&node("AvgPool", vec![])), Ok(Operator::Unimplemented(_))));
}

#[test]
fn pack_stacks_along_a_new_axis() {
    let a = floats(&[2], &[1.0, 2.0]);
    let b = floats(&[2], &[3.0, 4.0]);
    let rows = run(&Pack { n: 2, axis: 0 }, vec![a.clone(), b.clone()]).unwrap();
    assert!(rows[0] == floats(&[2, 2], &[1.0, 2.0, 3.0, 4.0]));
    let cols = run(&Pack { n: 2, axis: 1 }, vec![a.clone(), b.clone()]).unwrap();
    assert!(cols[0] == floats(&[2, 2], &[1.0, 3.0, 2.0, 4.0]));
    let scalars = run(&Pack { n: 3, axis: 0 }, vec![ints(&[], &[7]), ints(&[], &[8]), ints(&[], &[9])])
        .unwrap();
    assert!(scalars[0] == ints(&[3], &[7, 8, 9]));
    assert_eq!(
        run(&Pack { n: 2, axis: 2 }, vec![a.clone(), b.clone()]).unwrap_err(),
        Error::ShapeMismatch
    );
    assert_eq!(
        run(&Pack { n: 2, axis: -1 }, vec![a.clone(), b.clone()]).unwrap_err(),
        Error::UnsupportedAttribute
    );
    assert_eq!(
        run(&Pack { n: 2, axis: 0 }, vec![a.clone(), floats(&[1], &[0.0])]).unwrap_err(),
        Error::ShapeMismatch
    );
    assert_eq!(
        run(&Pack { n: 2, axis: 0 }, vec![a.clone(), ints(&[2], &[1, 2])]).unwrap_err(),
        Error::TypeMismatch
    );
    assert_eq!(run(&Pack { n: 2, axis: 0 }, vec![a.clone()]).unwrap_err(), Error::InvalidGraph);
    assert_eq!(run(&Pack { n: 0, axis: 0 }, vec![]).unwrap_err(), Error::ShapeMismatch);
    let def = node("Pack", vec![attr("N", AttrValue::I(2)), attr("axis", AttrValue::I(1))]);
    let op = Pack::build(&def).unwrap();
    assert_eq!((op.n, op.axis), (2, 1));
    let plain = Pack::build(&node("Pack", vec![attr("N", AttrValue::I(4))])).unwrap();
    assert_eq!((plain.n, plain.axis), (4, 0));
    assert_eq!(Pack::build(&node("Pack", vec![])).unwrap_err(), Error::InvalidGraph);
}

#[test]
fn arithmetic_on_integers() {
    let a = ints(&[2, 2], &[1, 2, 3, 4]);
    let b = ints(&[2, 2], &[10, 20, 30, 40]);
    let add = Binary { kind: Arith::Add };
    let sub = Binary { kind: Arith::Sub };
    let mul = Binary { kind: Arith::Mul };
    assert!(run(&add, vec![a.clone(), b.clone()]).unwrap()[0] == ints(&[2, 2], &[11, 22, 33, 44]));
    assert!(run(&sub, vec![a.clone(), b.clone()]).unwrap()[0] == ints(&[2, 2], &[-9, -18, -27, -36]));
    assert!(run(&mul, vec![a.clone(), b.clone()]).unwrap()[0] == ints(&[2, 2], &[10, 40, 90, 160]));
    // Overflow wraps round, as 32-bit integers do.
    let big = ints(&[2], &[i32::MAX, i32::MIN]);
    let one = ints(&[2], &[1, -1]);
    assert!(run(&add, vec![big.clone(), one.clone()]).unwrap()[0] == ints(&[2], &[i32::MIN, i32::MAX]));
    assert!(
        run(&mul, vec![big.clone(), big.clone()]).unwrap()[0]
            == ints(&[2], &[i32::MAX.wrapping_mul(i32::MAX), i32::MIN.wrapping_mul(i32::MIN)])
    );
    assert!(
        run(&sub, vec![one.clone(), big.clone()]).unwrap()[0]
            == ints(&[2], &[1i32.wrapping_sub(i32::MAX), (-1i32).wrapping_sub(i32::MIN)])
    );
    assert_eq!(
        run(&add, vec![a.clone(), floats(&[1], &[1.0])]).unwrap_err(),
        Error::TypeMismatch
    );
    assert_eq!(run(&add, vec![a.clone()]).unwrap_err(), Error::InvalidGraph);
}

#[test]
fn arithmetic_broadcasts() {
    let add = Binary { kind: Arith::Add };
    let grid = ints(&[2, 3], &[0, 1, 2, 10, 11, 12]);
    let row = ints(&[3], &[100, 200, 300]);
    let col = ints(&[2, 1], &[1000, 2000]);
    let scalar = ints(&[], &[5]);
    assert!(
        run(&add, vec![grid.clone(), row.clone()]).unwrap()[0]
            == ints(&[2, 3], &[100, 201, 302, 110, 211, 312])
    );
    assert!(
        run(&add, vec![col.clone(), grid.clone()]).unwrap()[0]
            == ints(&[2, 3], &[1000, 1001, 1002, 2010, 2011, 2012])
    );
    assert!(
        run(&add, vec![col.clone(), row.clone()]).unwrap()[0]
            == ints(&[2, 3], &[1100, 1200, 1300, 2100, 2200, 2300])
    );
    assert!(
        run(&add, vec![scalar.clone(), row.clone()]).unwrap()[0] == ints(&[3], &[105, 205, 305])
    );
    let cube = ints(&[2, 1, 2], &[1, 2, 3, 4]);
    let wide = ints(&[3, 1], &[10, 20, 30]);
    assert!(
        run(&add, vec![cube, wide]).unwrap()[0]
            == ints(&[2, 3, 2], &[11, 12, 21, 22, 31, 32, 13, 14, 23, 24, 33, 34])
    );
    assert_eq!(
        run(&add, vec![grid.clone(), ints(&[2], &[1, 2])]).unwrap_err(),
        Error::ShapeMismatch
    );
    assert!(run(&add, vec![ints(&[0, 3], &[]), row.clone()]).unwrap()[0] == ints(&[0, 3], &[]));
    assert_eq!(Binary::broadcast(&[4, 1], &[3]), Some(vec![4, 3]));
    assert_eq!(Binary::broadcast(&[], &[]), Some(vec![]));
    assert_eq!(Binary::broadcast(&[2], &[3]), None);
}

#[test]
fn arithmetic_inference() {
    let mul = Binary { kind: Arith::Mul };
    let a = typed(DataType::DT_INT32, AShape::from_sizes(&[2, 1]));
    let b = typed(DataType::DT_INT32, AShape::from_sizes(&[3]));
    let out = mul.infer_forward(vec![&a, &b]).unwrap();
    assert!(out[0].same_as(&typed(DataType::DT_INT32, AShape::from_sizes(&[2, 3]))));
    let open = typed(DataType::DT_INT32, AShape::any());
    let out = mul.infer_forward(vec![&a, &open]).unwrap();
    assert!(out[0].same_as(&open));
    let c = typed(DataType::DT_INT32, AShape::from_sizes(&[4]));
    assert_eq!(mul.infer_forward(vec![&b, &c]).unwrap_err(), Error::ShapeMismatch);
    let both = mul.infer_forward(vec![&known(ints(&[2], &[2, 3])), &known(ints(&[], &[4]))]).unwrap();
    assert!(both[0].same_as(&known(ints(&[2], &[8, 12]))));
    assert_eq!(mul.infer_backward(vec![&a]).unwrap().len(), 2);
    let builder = OpBuilder::new();
    assert!(matches!(builder.build(&node("Add", vec![])), Ok(Operator::Binary(_))));
    assert!(matches!(builder.build(&node("Mul", vec![])), Ok(Operator::Binary(_))));
    assert!(matches!(builder.build(&node("Sub", vec![])), Ok(Operator::Binary(_))));
}

/// Whether `x` says at least what `y` says.
fn refines(x: &ATensor, y: &ATensor) -> bool {
    let types = y.datatype == AType::Any || x.datatype == y.datatype;
    let values = matches!(y.value, AValue::Any) || x.value.same_as(&y.value);
    let (xs, ys) = (x.shape.inner(), y.shape.inner());
    let ranks = ys.len() <= xs.len() && (y.shape.is_open() || (!x.shape.is_open() && xs.len() == ys.len()));
    let dims = ys.iter().zip(xs.iter()).all(|(b, a)| *b == ADimension::Any || a == b);
    types && values && ranks && dims
}

#[test]
fn forward_inference_is_monotone() {
    let general = typed(DataType::DT_FLOAT, AShape::any());
    let ranked = typed(DataType::DT_FLOAT, AShape::Closed(vec![ADimension::Any, ADimension::Only(1)]));
    let sized = typed(DataType::DT_FLOAT, AShape::from_sizes(&[3, 1]));
    let given = known(floats(&[3, 1], &[1.0, 2.0, 3.0]));
    let chain = [&given, &sized, &ranked, &general];
    let dims = known(ints(&[2], &[1, 3]));
    let axes = known(ints(&[1], &[1]));
    let pool = max_pool((1, 1), (1, 1), Padding::Valid);
    let squeeze = Squeeze { dims: vec![1] };
    let unary: Vec<(&dyn Op, &str)> =
        vec![(&Identity, "Identity"), (&Shape, "Shape"), (&squeeze, "Squeeze"), (&pool, "MaxPool")];
    for (op, name) in unary {
        for (i, x) in chain.iter().enumerate() {
            for y in &chain[i..] {
                if let (Ok(from_x), Ok(from_y)) = (op.infer_forward(vec![*x]), op.infer_forward(vec![*y])) {
                    assert!(refines(&from_x[0], &from_y[0]), "{}", name);
                }
            }
        }
    }
    let binary: Vec<(&dyn Op, &ATensor, &str)> =
        vec![(&Reshape {}, &dims, "Reshape"), (&ExpandDims, &axes, "ExpandDims")];
    for (op, second, name) in binary {
        for (i, x) in chain.iter().enumerate() {
            for y in &chain[i..] {
                if let (Ok(from_x), Ok(from_y)) =
                    (op.infer_forward(vec![*x, second]), op.infer_forward(vec![*y, second]))
                {
                    assert!(refines(&from_x[0], &from_y[0]), "{}", name);
                }
            }
        }
    }
    // The chain itself goes from the most to the least precise.
    for (i, x) in chain.iter().enumerate() {
        for y in &chain[i..] {
            assert!(refines(x, y));
        }
    }
    assert!(!refines(&general, &sized));
}
