use tfdeploy::analyser::types::{ADimension, AShape, ATensor, AType, AValue};
use tfdeploy::errors::Error;
use tfdeploy::matrix::Matrix;
use tfdeploy::tfpb::types::DataType;

#[test]
fn new_tensor_is_most_general() {
    let t = ATensor::new();
    assert_eq!(t.datatype, AType::Any);
    assert!(t.shape.is_open());
    assert!(t.shape.inner().is_empty());
    assert!(matches!(t.value, AValue::Any));
}

#[test]
fn shape_any_is_open_and_empty() {
    let s = AShape::any();
    assert!(s.is_open());
    assert_eq!(s.inner().len(), 0);
    assert!(!AShape::Closed(vec![]).is_open());
}

#[test]
fn concretize_needs_every_dimension() {
    let closed = AShape::Closed(vec![ADimension::Only(2), ADimension::Only(3)]);
    assert_eq!(closed.concretize(), Ok(vec![2, 3]));
    let partly = AShape::Closed(vec![ADimension::Only(2), ADimension::Any]);
    assert_eq!(partly.concretize(), Err(Error::NotConcrete));
    let open = AShape::Open(vec![ADimension::Only(2)]);
    assert_eq!(open.concretize(), Err(Error::NotConcrete));
    assert_eq!(AShape::Closed(vec![]).concretize(), Ok(vec![]));
}

#[test]
fn from_sizes_is_closed() {
    let s = AShape::from_sizes(&[4, 5]);
    assert!(!s.is_open());
    assert_eq!(s.inner(), &vec![ADimension::Only(4), ADimension::Only(5)]);
    assert_eq!(s.concretize(), Ok(vec![4, 5]));
}

#[test]
fn dimension_is_concrete() {
    assert!(ADimension::Only(1).is_concrete());
    assert!(!ADimension::Any.is_concrete());
}

#[test]
fn value_concretize_and_map() {
    let m = Matrix::i32s(&[1], &[3]).unwrap();
    let v = AValue::Only(m.clone());
    assert!(*v.concretize().unwrap() == m);
    assert_eq!(AValue::Any.concretize().unwrap_err(), Error::NotConcrete);
    let mapped = v.map_err(|m| m.clone().into_shape(&vec![1, 1])).unwrap();
    assert!(matches!(&mapped, AValue::Only(r) if r.shape() == [1, 1]));
    assert!(matches!(AValue::Any.map_err(|m| Ok(m.clone())), Ok(AValue::Any)));
    assert_eq!(
        v.map_err(|m| m.clone().into_shape(&vec![2])).unwrap_err(),
        Error::ShapeMismatch
    );
}

#[test]
fn meet_of_types_and_dimensions() {
    let f = AType::Only(DataType::DT_FLOAT);
    let i = AType::Only(DataType::DT_INT32);
    assert_eq!(AType::Any.meet(&f), Ok(f));
    assert_eq!(f.meet(&AType::Any), Ok(f));
    assert_eq!(f.meet(&f), Ok(f));
    assert_eq!(f.meet(&i), Err(Error::InferenceConflict));
    assert_eq!(ADimension::Any.meet(&ADimension::Only(2)), Ok(ADimension::Only(2)));
    assert_eq!(ADimension::Only(2).meet(&ADimension::Only(3)), Err(Error::InferenceConflict));
}

#[test]
fn meet_of_shapes() {
    let any = ADimension::Any;
    let only = ADimension::Only;
    // A closed shape meets an open one by its prefix and keeps its rank.
    let closed = AShape::Closed(vec![only(2), any, only(4)]);
    let open = AShape::Open(vec![any, only(3)]);
    let met = closed.meet(&open).unwrap();
    assert!(!met.is_open());
    assert_eq!(met.inner(), &vec![only(2), only(3), only(4)]);
    let met = open.meet(&closed).unwrap();
    assert!(!met.is_open());
    assert_eq!(met.inner(), &vec![only(2), only(3), only(4)]);
    // Two open shapes give an open shape with the longer prefix.
    let met = open.meet(&AShape::Open(vec![only(1)])).unwrap();
    assert!(met.is_open());
    assert_eq!(met.inner(), &vec![only(1), only(3)]);
    // Conflicts of rank and of dimension.
    assert_eq!(
        closed.meet(&AShape::Closed(vec![any, any])).unwrap_err(),
        Error::InferenceConflict
    );
    assert_eq!(
        AShape::Closed(vec![any]).meet(&open).unwrap_err(),
        Error::InferenceConflict
    );
    assert_eq!(
        closed.meet(&AShape::Open(vec![only(5)])).unwrap_err(),
        Error::InferenceConflict
    );
}

#[test]
fn meet_is_idempotent() {
    let t = ATensor {
        datatype: AType::Only(DataType::DT_INT32),
        shape: AShape::Open(vec![ADimension::Only(2), ADimension::Any]),
        value: AValue::Any,
    };
    assert!(t.meet(&t).unwrap().same_as(&t));
    let m = Matrix::i32s(&[2], &[1, 2]).unwrap();
    let known = ATensor {
        datatype: AType::Only(DataType::DT_INT32),
        shape: AShape::from_sizes(&[2]),
        value: AValue::Only(m),
    };
    assert!(known.meet(&known).unwrap().same_as(&known));
    assert!(ATensor::new().meet(&known).unwrap().same_as(&known));
    assert!(known.meet(&ATensor::new()).unwrap().same_as(&known));
}

#[test]
fn meet_of_values_conflicts() {
    let a = AValue::Only(Matrix::i32s(&[1], &[1]).unwrap());
    let b = AValue::Only(Matrix::i32s(&[1], &[2]).unwrap());
    assert_eq!(a.meet(&b).unwrap_err(), Error::InferenceConflict);
    assert!(a.meet(&a).unwrap().same_as(&a));
    assert!(AValue::Any.meet(&b).unwrap().same_as(&b));
    assert!(!a.same_as(&b));
}
