use tfdeploy::errors::Error;
use tfdeploy::matrix::{
    bits_from_signed, is_addressable, same_shape, signed_from_bits, size_of_shape, Matrix,
};
use tfdeploy::tfpb::tensor::TensorProto;
use tfdeploy::tfpb::types::DataType;

fn bits(values: &[f32]) -> Vec<u32> {
    values.iter().map(|v| v.to_bits()).collect()
}

#[test]
fn element_count_is_product_of_shape() {
    let m = Matrix::i32s(&[2, 3], &[1, 2, 3, 4, 5, 6]).unwrap();
    assert_eq!(m.shape(), &[2, 3]);
    assert_eq!(m.rank(), 2);
    assert_eq!(m.len(), 6);
    assert_eq!(m.datatype(), DataType::DT_INT32);
    let scalar = Matrix::i32s(&[], &[7]).unwrap();
    assert_eq!(scalar.len(), 1);
    assert_eq!(scalar.rank(), 0);
    let empty = Matrix::i32s(&[0, 5], &[]).unwrap();
    assert_eq!(empty.len(), 0);
}

#[test]
fn shape_must_fit_the_values() {
    assert_eq!(Matrix::i32s(&[2, 2], &[1, 2, 3]).unwrap_err(), Error::ShapeMismatch);
    assert_eq!(Matrix::u8s(&[3], &[1, 2]).unwrap_err(), Error::ShapeMismatch);
    assert_eq!(Matrix::i8s(&[1], &[]).unwrap_err(), Error::ShapeMismatch);
    assert_eq!(Matrix::f32s(&[2], &bits(&[1.0])).unwrap_err(), Error::ShapeMismatch);
    assert_eq!(Matrix::f64s(&[], &[]).unwrap_err(), Error::ShapeMismatch);
}

#[test]
fn typed_views_fail_on_other_types() {
    let ints = Matrix::i32s(&[2], &[-1, 5]).unwrap();
    assert_eq!(ints.as_i32s(), Some(vec![-1, 5]));
    assert_eq!(ints.as_f32s(), None);
    assert_eq!(ints.as_u8s(), None);
    let floats = Matrix::f32s(&[2], &bits(&[1.5, -2.0])).unwrap();
    assert_eq!(floats.as_f32s(), Some(bits(&[1.5, -2.0])));
    assert_eq!(floats.as_i32s(), None);
    let bytes = Matrix::u8s(&[3], &[0, 128, 255]).unwrap();
    assert_eq!(bytes.as_u8s(), Some(vec![0, 128, 255]));
    let small = Matrix::i8s(&[2], &[-128, 127]).unwrap();
    assert_eq!(small.as_i8s(), Some(vec![-128, 127]));
    let doubles = Matrix::f64s(&[2], &[(-1.0f64).to_bits(), 2.5f64.to_bits()]).unwrap();
    assert_eq!(doubles.as_f64s(), Some(vec![(-1.0f64).to_bits(), 2.5f64.to_bits()]));
    assert_eq!(doubles.datatype(), DataType::DT_DOUBLE);
}

#[test]
fn new_checks_the_elements() {
    assert_eq!(
        Matrix::new(DataType::DT_UINT8, vec![1], vec![256]).unwrap_err(),
        Error::TypeMismatch
    );
    assert_eq!(
        Matrix::new(DataType::DT_INT8, vec![1], vec![-129]).unwrap_err(),
        Error::TypeMismatch
    );
    assert_eq!(
        Matrix::new(DataType::DT_INT32, vec![2], vec![1]).unwrap_err(),
        Error::ShapeMismatch
    );
    let m = Matrix::new(DataType::DT_INT32, vec![2], vec![1, -2]).unwrap();
    assert_eq!(m.values(), &[1, -2]);
}

#[test]
fn into_shape_keeps_the_elements() {
    let m = Matrix::i32s(&[2, 3], &[1, 2, 3, 4, 5, 6]).unwrap();
    let r = m.clone().into_shape(&vec![3, 2]).unwrap();
    assert_eq!(r.shape(), &[3, 2]);
    assert_eq!(r.values(), &[1, 2, 3, 4, 5, 6]);
    assert_eq!(m.clone().into_shape(&vec![4, 2]).unwrap_err(), Error::ShapeMismatch);
    assert_eq!(m.into_shape(&vec![6]).unwrap().shape(), &[6]);
}

#[test]
fn equality_compares_type_shape_and_elements() {
    let a = Matrix::i32s(&[2], &[1, 2]).unwrap();
    assert!(a == a.clone());
    assert!(a != Matrix::i32s(&[2], &[1, 3]).unwrap());
    assert!(a != Matrix::i32s(&[1, 2], &[1, 2]).unwrap());
    assert!(a != Matrix::u8s(&[2], &[1, 2]).unwrap());
}

#[test]
fn from_pb_reads_packed_content_little_endian() {
    let mut t = TensorProto::new(DataType::DT_INT32);
    t.tensor_shape = vec![3];
    t.tensor_content = vec![1, 0, 0, 0, 0xff, 0xff, 0xff, 0xff, 0, 1, 0, 0];
    let m = Matrix::from_pb(&t).unwrap();
    assert_eq!(m.as_i32s(), Some(vec![1, -1, 256]));
    let mut f = TensorProto::new(DataType::DT_FLOAT);
    f.tensor_shape = vec![1, 2];
    f.tensor_content = [1.0f32.to_le_bytes(), (-2.5f32).to_le_bytes()].concat();
    let m = Matrix::from_pb(&f).unwrap();
    assert_eq!(m.shape(), &[1, 2]);
    assert_eq!(m.as_f32s(), Some(bits(&[1.0, -2.5])));
}

#[test]
fn from_pb_reads_typed_lists() {
    let mut t = TensorProto::new(DataType::DT_INT32);
    t.tensor_shape = vec![2, 2];
    t.int_val = vec![1, 2, 3, 4];
    let m = Matrix::from_pb(&t).unwrap();
    assert_eq!(m.shape(), &[2, 2]);
    assert_eq!(m.as_i32s(), Some(vec![1, 2, 3, 4]));
    let mut f = TensorProto::new(DataType::DT_FLOAT);
    f.tensor_shape = vec![2];
    f.float_val = bits(&[0.5, 4.0]);
    assert_eq!(Matrix::from_pb(&f).unwrap().as_f32s(), Some(bits(&[0.5, 4.0])));
    let mut d = TensorProto::new(DataType::DT_DOUBLE);
    d.tensor_shape = vec![1];
    d.double_val = vec![(-3.0f64).to_bits()];
    assert_eq!(Matrix::from_pb(&d).unwrap().as_f64s(), Some(vec![(-3.0f64).to_bits()]));
}

#[test]
fn from_pb_rejects_what_does_not_fit() {
    let mut t = TensorProto::new(DataType::DT_INT32);
    t.tensor_shape = vec![3];
    t.int_val = vec![1, 2];
    assert_eq!(Matrix::from_pb(&t).unwrap_err(), Error::ShapeMismatch);
    t.tensor_shape = vec![-1];
    assert_eq!(Matrix::from_pb(&t).unwrap_err(), Error::ShapeMismatch);
    let mut s = TensorProto::new(DataType::DT_STRING);
    s.tensor_shape = vec![0];
    assert_eq!(Matrix::from_pb(&s).unwrap_err(), Error::TypeMismatch);
    let mut u = TensorProto::new(DataType::DT_UINT8);
    u.tensor_shape = vec![1];
    u.int_val = vec![300];
    assert_eq!(Matrix::from_pb(&u).unwrap_err(), Error::TypeMismatch);
}

#[test]
fn from_content_ignores_bytes_left_over() {
    let m = Matrix::from_content(DataType::DT_INT32, vec![1], &[2, 0, 0, 0, 9, 9]).unwrap();
    assert_eq!(m.as_i32s(), Some(vec![2]));
    let b = Matrix::from_content(DataType::DT_INT8, vec![2], &[0x80, 0x7f]).unwrap();
    assert_eq!(b.as_i8s(), Some(vec![-128, 127]));
    let d = Matrix::from_content(DataType::DT_DOUBLE, vec![1], &(-1.5f64).to_le_bytes()).unwrap();
    assert_eq!(d.as_f64s(), Some(vec![(-1.5f64).to_bits()]));
    assert_eq!(
        Matrix::from_content(DataType::DT_INT32, vec![2], &[2, 0, 0, 0]).unwrap_err(),
        Error::ShapeMismatch
    );
}

#[test]
fn to_pb_and_back() {
    let m = Matrix::f32s(&[2, 2], &bits(&[1.0, 2.0, 3.0, 4.0])).unwrap();
    let t = m.to_pb().unwrap();
    assert_eq!(t.dtype, DataType::DT_FLOAT);
    assert_eq!(t.tensor_shape, vec![2, 2]);
    assert_eq!(t.float_val, bits(&[1.0, 2.0, 3.0, 4.0]));
    assert!(t.tensor_content.is_empty());
    assert!(Matrix::from_pb(&t).unwrap() == m);
    let i = Matrix::i32s(&[3], &[-1, 0, 1]).unwrap();
    assert!(Matrix::from_pb(&i.to_pb().unwrap()).unwrap() == i);
    let d = Matrix::f64s(&[1], &[(-0.25f64).to_bits()]).unwrap();
    assert!(Matrix::from_pb(&d.to_pb().unwrap()).unwrap() == d);
    let s = Matrix::new(DataType::DT_STRING, vec![1], vec![65]).unwrap();
    assert_eq!(s.to_pb().unwrap_err(), Error::TypeMismatch);
}

#[test]
fn sizes_and_bit_patterns() {
    assert_eq!(size_of_shape(&[2, 3, 4]), Some(24));
    assert_eq!(size_of_shape(&[]), Some(1));
    assert_eq!(size_of_shape(&[usize::MAX, 2]), None);
    assert_eq!(size_of_shape(&[usize::MAX, 2, 0]), Some(0));
    assert!(is_addressable(&[2, 3]));
    assert!(!is_addressable(&[usize::MAX, 0]));
    assert!(same_shape(&[1, 2], &[1, 2]));
    assert!(!same_shape(&[1, 2], &[2, 1]));
    assert_eq!(signed_from_bits(u64::MAX), -1);
    assert_eq!(bits_from_signed(-1), u64::MAX);
    assert_eq!(signed_from_bits(5), 5);
    assert_eq!(bits_from_signed(i64::MIN), 1u64 << 63);
    assert_eq!(DataType::DT_FLOAT.byte_width(), 4);
    assert_eq!(DataType::DT_DOUBLE.byte_width(), 8);
    assert_eq!(DataType::DT_UINT8.byte_width(), 1);
    assert!(DataType::DT_INT8.admits(-128));
    assert!(!DataType::DT_INT8.admits(128));
}
