use tfdeploy::size::{parse_size, InputSize, SizeError};
use tfdeploy::tfpb::types::DataType;

#[test]
fn sizes_with_each_type() {
    assert_eq!(
        parse_size("32x64xf32"),
        Ok(InputSize { x: 32, y: 64, datatype: DataType::DT_FLOAT })
    );
    assert_eq!(parse_size("1x2xf64").unwrap().datatype, DataType::DT_DOUBLE);
    assert_eq!(parse_size("1x2xi32").unwrap().datatype, DataType::DT_INT32);
    assert_eq!(parse_size("1x2xi8").unwrap().datatype, DataType::DT_INT8);
    assert_eq!(parse_size("1x2xu8").unwrap().datatype, DataType::DT_UINT8);
    assert_eq!(
        parse_size("0x+7xF32"),
        Ok(InputSize { x: 0, y: 7, datatype: DataType::DT_FLOAT })
    );
    assert_eq!(parse_size("007x1xU8").unwrap().x, 7);
}

#[test]
fn sizes_that_are_none() {
    assert_eq!(parse_size(""), Err(SizeError::Format));
    assert_eq!(parse_size("32"), Err(SizeError::Format));
    assert_eq!(parse_size("32x64"), Err(SizeError::Format));
    assert_eq!(parse_size("32Xx64xf32"), Err(SizeError::Number));
    assert_eq!(parse_size("x64xf32"), Err(SizeError::Number));
    assert_eq!(parse_size("+x64xf32"), Err(SizeError::Number));
    assert_eq!(parse_size("-1x64xf32"), Err(SizeError::Number));
    assert_eq!(parse_size("3 x64xf32"), Err(SizeError::Number));
    assert_eq!(parse_size("99999999999999999999999x1xf32"), Err(SizeError::Number));
    assert_eq!(parse_size("32x64x"), Err(SizeError::Type));
    assert_eq!(parse_size("32x64xf16"), Err(SizeError::Type));
    assert_eq!(parse_size("32x64xf32x"), Err(SizeError::Type));
    assert_eq!(parse_size("32x64xé"), Err(SizeError::Type));
}

#[test]
fn the_largest_number_fits() {
    let text = format!("{}x1xi8", usize::MAX);
    assert_eq!(parse_size(&text).unwrap().x, usize::MAX);
    let beyond = format!("{}0x1xi8", usize::MAX);
    assert_eq!(parse_size(&beyond), Err(SizeError::Number));
}
