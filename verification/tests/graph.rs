use std::sync::Arc;
use tfdeploy::analyser::types::{AShape, AType, AValue};
use tfdeploy::errors::Error;
use tfdeploy::matrix::Matrix;
use tfdeploy::model::Model;
use tfdeploy::state::NodeError;
use tfdeploy::tfpb::node_def::{Attr, AttrValue, InputDef, NodeDef};
use tfdeploy::tfpb::tensor::TensorProto;
use tfdeploy::tfpb::types::DataType;

fn floats(shape: &[usize], values: &[f32]) -> Matrix {
    let bits: Vec<u32> = values.iter().map(|v| v.to_bits()).collect();
    Matrix::f32s(shape, &bits).unwrap()
}

fn ints(shape: &[usize], values: &[i32]) -> Matrix {
    Matrix::i32s(shape, values).unwrap()
}

fn node(name: &str, op: &str, inputs: &[&str], attr: Vec<Attr>) -> NodeDef {
    NodeDef {
        name: name.to_string(),
        op: op.to_string(),
        input: inputs.iter().map(|i| InputDef { node: i.to_string(), slot: 0 }).collect(),
        attr,
    }
}

fn placeholder(name: &str, datatype: DataType) -> NodeDef {
    node(
        name,
        "Placeholder",
        &[],
        vec![Attr { key: "dtype".to_string(), value: AttrValue::Type(datatype) }],
    )
}

fn constant(name: &str, m: &Matrix) -> NodeDef {
    let t: TensorProto = m.to_pb().unwrap();
    node(name, "Const", &[], vec![Attr { key: "value".to_string(), value: AttrValue::Tensor(t) }])
}

fn single(outputs: Vec<Arc<Matrix>>) -> Matrix {
    assert_eq!(outputs.len(), 1);
    (*outputs[0]).clone()
}

#[test]
fn placeholder_identity_shape() {
    let graph = vec![
        placeholder("x", DataType::DT_FLOAT),
        node("id", "Identity", &["x"], vec![]),
        node("shape", "Shape", &["id"], vec![]),
    ];
    let model = Model::new(&graph).unwrap();
    let mut state = model.state();
    let x = model.node_id_by_name("x").unwrap();
    state.set_value(x, floats(&[2, 3], &[0.0; 6])).unwrap();
    let target = model.node_id_by_name("shape").unwrap();
    let out = single(state.compute(target).unwrap());
    assert!(out == ints(&[2], &[2, 3]));
}

#[test]
fn const_reshape_to_a_list() {
    let graph = vec![
        constant("c", &floats(&[2, 2], &[1.0, 2.0, 3.0, 4.0])),
        constant("dims", &ints(&[1], &[-1])),
        node("r", "Reshape", &["c", "dims"], vec![]),
    ];
    let model = Model::new(&graph).unwrap();
    let mut state = model.state();
    let out = single(state.compute(2).unwrap());
    assert!(out == floats(&[4], &[1.0, 2.0, 3.0, 4.0]));
}

#[test]
fn two_placeholders_concatenated() {
    let graph = vec![
        placeholder("a", DataType::DT_FLOAT),
        placeholder("b", DataType::DT_FLOAT),
        constant("axis", &ints(&[], &[0])),
        node(
            "cat",
            "ConcatV2",
            &["a", "b", "axis"],
            vec![Attr { key: "N".to_string(), value: AttrValue::I(2) }],
        ),
    ];
    let model = Model::new(&graph).unwrap();
    let mut state = model.state();
    state.set_value(0, floats(&[1, 2], &[1.0, 2.0])).unwrap();
    state.set_value(1, floats(&[1, 2], &[3.0, 4.0])).unwrap();
    let out = single(state.compute(3).unwrap());
    assert!(out == floats(&[2, 2], &[1.0, 2.0, 3.0, 4.0]));
}

#[test]
fn unbound_placeholder_is_a_missing_precondition() {
    let graph = vec![placeholder("x", DataType::DT_FLOAT), node("id", "Identity", &["x"], vec![])];
    let model = Model::new(&graph).unwrap();
    let mut state = model.state();
    assert_eq!(
        state.compute(1).unwrap_err(),
        NodeError { node: 0, error: Error::PrecondMissing }
    );
    assert_eq!(state.compute_one(1).unwrap_err(), Error::PrecondMissing);
    assert_eq!(state.compute_one(0).unwrap_err(), Error::PrecondMissing);
    assert!(state.get_outputs(1).is_none());
}

#[test]
fn unimplemented_operator_fails_at_evaluation() {
    let graph = vec![
        placeholder("x", DataType::DT_FLOAT),
        node("odd", "Quantum", &["x"], vec![]),
        node("id", "Identity", &["x"], vec![]),
    ];
    // Loading succeeds, and so does the part of the graph that can run.
    let model = Model::new(&graph).unwrap();
    let mut state = model.state();
    state.set_value(0, floats(&[1], &[1.0])).unwrap();
    assert!(single(state.compute(2).unwrap()) == floats(&[1], &[1.0]));
    assert_eq!(
        state.compute(1).unwrap_err(),
        NodeError { node: 1, error: Error::UnimplementedOperator("Quantum".to_string()) }
    );
}

#[test]
fn plan_is_ordered_and_free_of_duplicates() {
    // d reads c and b; c reads b and a; b reads a.  The file lists them in
    // another order than the plan needs.
    let graph = vec![
        node(
            "d",
            "ConcatV2",
            &["c", "b", "axis"],
            vec![Attr { key: "N".to_string(), value: AttrValue::I(2) }],
        ),
        node(
            "c",
            "ConcatV2",
            &["b", "a", "axis"],
            vec![Attr { key: "N".to_string(), value: AttrValue::I(2) }],
        ),
        node("b", "Identity", &["a"], vec![]),
        placeholder("a", DataType::DT_FLOAT),
        constant("axis", &ints(&[], &[0])),
        node("lonely", "Identity", &["a"], vec![]),
    ];
    let model = Model::new(&graph).unwrap();
    let plan = model.eval_order(0).unwrap();
    assert_eq!(plan, vec![3, 2, 4, 1, 0]);
    assert_eq!(model.eval_order(2).unwrap(), vec![3, 2]);
    assert_eq!(model.eval_order(3).unwrap(), vec![3]);
    assert_eq!(model.eval_order(9).unwrap_err(), Error::UnknownNode);
    for (p, id) in plan.iter().enumerate() {
        assert!(!plan[..p].contains(id));
        for (from, _) in &model.get_node_by_id(*id).unwrap().inputs {
            assert!(plan[..p].contains(from));
        }
    }
    let mut state = model.state();
    state.set_value(3, floats(&[1, 1], &[5.0])).unwrap();
    let out = single(state.compute(0).unwrap());
    assert!(out == floats(&[3, 1], &[5.0, 5.0, 5.0]));
}

#[test]
fn lookups() {
    let graph = vec![placeholder("x", DataType::DT_FLOAT), node("id", "Identity", &["x"], vec![])];
    let model = Model::new(&graph).unwrap();
    assert_eq!(model.len(), 2);
    assert_eq!(model.node_id_by_name("id"), Ok(1));
    assert_eq!(model.node_id_by_name("nope"), Err(Error::UnknownNode));
    let n = model.get_node("id").unwrap();
    assert_eq!(n.id, 1);
    assert_eq!(n.name, "id");
    assert_eq!(n.op_name, "Identity");
    assert_eq!(n.inputs, vec![(0, 0)]);
    assert_eq!(n.arity, 1);
    assert!(model.get_node("nope").is_err());
    assert!(model.get_node_by_id(2).is_err());
}

#[test]
fn loading_rejects_malformed_graphs() {
    let twice = vec![placeholder("x", DataType::DT_FLOAT), placeholder("x", DataType::DT_FLOAT)];
    assert_eq!(Model::new(&twice).unwrap_err(), Error::InvalidGraph);
    let dangling = vec![node("id", "Identity", &["x"], vec![])];
    assert_eq!(Model::new(&dangling).unwrap_err(), Error::InvalidGraph);
    let mut slot = vec![placeholder("x", DataType::DT_FLOAT), node("id", "Identity", &["x"], vec![])];
    slot[1].input[0].slot = 1;
    assert_eq!(Model::new(&slot).unwrap_err(), Error::InvalidGraph);
    let untyped = vec![node("x", "Placeholder", &[], vec![])];
    assert_eq!(Model::new(&untyped).unwrap_err(), Error::InvalidGraph);
    assert_eq!(Model::new(&vec![]).unwrap().len(), 0);
}

#[test]
fn loading_rejects_cycles() {
    let cycle = vec![node("a", "Identity", &["b"], vec![]), node("b", "Identity", &["a"], vec![])];
    assert_eq!(Model::new(&cycle).unwrap_err(), Error::CyclicGraph);
    let own = vec![node("a", "Identity", &["a"], vec![])];
    assert_eq!(Model::new(&own).unwrap_err(), Error::CyclicGraph);
    let tail = vec![
        placeholder("x", DataType::DT_FLOAT),
        node("a", "Identity", &["c"], vec![]),
        node("b", "Identity", &["a"], vec![]),
        node("c", "Identity", &["b"], vec![]),
        node("out", "Identity", &["x"], vec![]),
    ];
    assert_eq!(Model::new(&tail).unwrap_err(), Error::CyclicGraph);
}

#[test]
fn outputs_keep_to_the_arity() {
    let graph = vec![placeholder("x", DataType::DT_FLOAT), node("id", "Identity", &["x"], vec![])];
    let model = Model::new(&graph).unwrap();
    let mut state = model.state();
    let one = floats(&[1], &[1.0]);
    assert_eq!(
        state.set_outputs(0, vec![one.clone(), one.clone()]).unwrap_err(),
        Error::InvalidGraph
    );
    assert_eq!(state.set_outputs(0, vec![]).unwrap_err(), Error::InvalidGraph);
    assert_eq!(state.set_outputs(5, vec![one.clone()]).unwrap_err(), Error::UnknownNode);
    assert_eq!(state.set_value(5, one.clone()).unwrap_err(), Error::UnknownNode);
    assert!(state.get_outputs(0).is_none());
    state.set_outputs(0, vec![one.clone()]).unwrap();
    assert_eq!(state.get_outputs(0).unwrap().len(), 1);
    state.compute_one(1).unwrap();
    assert_eq!(state.get_outputs(1).unwrap().len(), 1);
    assert!(*state.get_outputs(1).unwrap()[0] == one);
    assert_eq!(state.compute_one(7).unwrap_err(), Error::UnknownNode);
}

#[test]
fn computed_nodes_are_not_computed_again() {
    let graph = vec![placeholder("x", DataType::DT_FLOAT), node("id", "Identity", &["x"], vec![])];
    let model = Model::new(&graph).unwrap();
    let mut state = model.state();
    state.set_value(0, floats(&[1], &[1.0])).unwrap();
    assert!(single(state.compute(1).unwrap()) == floats(&[1], &[1.0]));
    // A new binding does not reach a node that has its outputs.
    state.set_value(0, floats(&[1], &[2.0])).unwrap();
    assert!(single(state.compute(1).unwrap()) == floats(&[1], &[1.0]));
    // Evaluating the node itself does.
    state.compute_one(1).unwrap();
    assert!(single(state.compute(1).unwrap()) == floats(&[1], &[2.0]));
}

#[test]
fn analyser_on_placeholder_and_reshape() {
    let graph = vec![
        placeholder("x", DataType::DT_FLOAT),
        constant("dims", &ints(&[2], &[3, 4])),
        node("r", "Reshape", &["x", "dims"], vec![]),
    ];
    let model = Model::new(&graph).unwrap();
    let analysis = model.analyse(10).unwrap();
    assert!(analysis.stable);
    assert_eq!(analysis.edges.len(), 3);
    let r = &analysis.edges[2][0];
    assert_eq!(r.datatype, AType::Only(DataType::DT_FLOAT));
    assert!(r.shape.same_as(&AShape::from_sizes(&[3, 4])));
    assert!(matches!(r.value, AValue::Any));
    let x = &analysis.edges[0][0];
    assert_eq!(x.datatype, AType::Only(DataType::DT_FLOAT));
    assert!(x.shape.is_open());
    let dims = &analysis.edges[1][0];
    assert!(matches!(&dims.value, AValue::Only(m) if *m == ints(&[2], &[3, 4])));
}

#[test]
fn analyser_stops_at_the_limit() {
    let graph = vec![placeholder("x", DataType::DT_FLOAT), node("id", "Identity", &["x"], vec![])];
    let model = Model::new(&graph).unwrap();
    let none = model.analyse(0).unwrap();
    assert!(!none.stable);
    assert_eq!(none.edges[1][0].datatype, AType::Any);
    let one = model.analyse(1).unwrap();
    assert!(!one.stable);
    assert_eq!(one.edges[1][0].datatype, AType::Only(DataType::DT_FLOAT));
    let two = model.analyse(2).unwrap();
    assert!(two.stable);
    assert_eq!(two.edges[1][0].datatype, AType::Only(DataType::DT_FLOAT));
}

#[test]
fn analyser_reports_conflicts_and_failures() {
    // The constant is a list of integers, yet it is used as the shape of a
    // reshape whose data is a list of two and whose shape asks for three.
    let graph = vec![
        constant("c", &floats(&[2], &[1.0, 2.0])),
        constant("dims", &ints(&[1], &[3])),
        node("r", "Reshape", &["c", "dims"], vec![]),
    ];
    let model = Model::new(&graph).unwrap();
    assert_eq!(model.analyse(5).unwrap_err(), Error::ShapeMismatch);
    let unknown = vec![placeholder("x", DataType::DT_FLOAT), node("q", "Quantum", &["x"], vec![])];
    let model = Model::new(&unknown).unwrap();
    assert_eq!(
        model.analyse(5).unwrap_err(),
        Error::UnimplementedOperator("Quantum".to_string())
    );
}
