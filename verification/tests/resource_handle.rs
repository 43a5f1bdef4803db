use tfdeploy::tfpb::resource_handle::{
    Field, FieldRead, FieldValue, ResourceHandle, WireType,
};

fn sample() -> ResourceHandle {
    let mut h = ResourceHandle::new();
    h.set_device("/cpu:0".to_string());
    h.set_container("box".to_string());
    h.set_name("weights".to_string());
    h.set_hash_code(300);
    h.set_maybe_type_name("Variable".to_string());
    h
}

#[test]
fn new_handle_is_empty() {
    let h = ResourceHandle::new();
    assert_eq!(h.get_device(), "");
    assert_eq!(h.get_container(), "");
    assert_eq!(h.get_name(), "");
    assert_eq!(h.get_hash_code(), 0);
    assert_eq!(h.get_maybe_type_name(), "");
    assert_eq!(h.compute_size(), 0);
    assert!(h.is_initialized());
    assert!(h == ResourceHandle::default());
}

#[test]
fn setters_replace_one_field() {
    let h = sample();
    assert_eq!(h.get_device(), "/cpu:0");
    assert_eq!(h.get_container(), "box");
    assert_eq!(h.get_name(), "weights");
    assert_eq!(h.get_hash_code(), 300);
    assert_eq!(h.get_maybe_type_name(), "Variable");
}

#[test]
fn clear_resets_one_field() {
    let mut h = sample();
    h.clear_device();
    assert_eq!(h.get_device(), "");
    assert_eq!(h.get_container(), "box");
    h.clear_container();
    h.clear_name();
    h.clear_hash_code();
    h.clear_maybe_type_name();
    assert!(h == ResourceHandle::new());
}

#[test]
fn clear_resets_everything() {
    let mut h = sample();
    h.clear();
    assert!(h == ResourceHandle::new());
}

#[test]
fn take_moves_the_field_out() {
    let mut h = sample();
    assert_eq!(h.take_device(), "/cpu:0");
    assert_eq!(h.get_device(), "");
    assert_eq!(h.take_container(), "box");
    assert_eq!(h.take_name(), "weights");
    assert_eq!(h.take_maybe_type_name(), "Variable");
    assert_eq!(h.get_hash_code(), 300);
}

#[test]
fn mut_borrows_the_field() {
    let mut h = sample();
    h.mut_device().push_str("!");
    h.mut_container().clear();
    h.mut_name().push_str("_1");
    h.mut_maybe_type_name().insert(0, 'A');
    assert_eq!(h.get_device(), "/cpu:0!");
    assert_eq!(h.get_container(), "");
    assert_eq!(h.get_name(), "weights_1");
    assert_eq!(h.get_maybe_type_name(), "AVariable");
}

#[test]
fn clone_and_equality() {
    let h = sample();
    let copy = h.clone();
    assert!(h == copy);
    let mut other = h.clone();
    other.set_hash_code(301);
    assert!(h != other);
}

#[test]
fn compute_size_adds_up_the_fields() {
    // Each string field: one byte of tag, one byte of length, the bytes.
    // The number 300 takes two bytes as a varint, after one byte of tag.
    let h = sample();
    assert_eq!(h.compute_size(), (2 + 6) + (2 + 3) + (2 + 7) + (1 + 2) + (2 + 8));
    let mut one = ResourceHandle::new();
    one.set_hash_code(1);
    assert_eq!(one.compute_size(), 2);
    let mut long = ResourceHandle::new();
    long.set_name("x".repeat(200));
    // 200 takes two bytes as a varint.
    assert_eq!(long.compute_size(), 1 + 2 + 200);
    let mut wide = ResourceHandle::new();
    wide.set_name("é".to_string());
    assert_eq!(wide.compute_size(), 1 + 1 + 2);
}

#[test]
fn written_fields_skip_defaults() {
    let mut h = ResourceHandle::new();
    h.set_name("n".to_string());
    h.set_hash_code(7);
    let fields: Vec<Field> = h.written_fields();
    assert_eq!(fields.len(), 2);
    assert_eq!(fields[0].number, 3);
    assert!(matches!(&fields[0].value, FieldValue::Text(s) if s == "n"));
    assert_eq!(fields[1].number, 4);
    assert!(matches!(&fields[1].value, FieldValue::Number(7)));
    assert_eq!(sample().written_fields().len(), 5);
    assert_eq!(ResourceHandle::new().written_fields().len(), 0);
}

#[test]
fn field_read_follows_the_wire_type() {
    assert_eq!(ResourceHandle::field_read(1, WireType::LengthDelimited), Ok(FieldRead::Text));
    assert_eq!(ResourceHandle::field_read(5, WireType::LengthDelimited), Ok(FieldRead::Text));
    assert_eq!(ResourceHandle::field_read(2, WireType::Varint), Err(WireType::Varint));
    assert_eq!(ResourceHandle::field_read(4, WireType::Varint), Ok(FieldRead::Number));
    assert_eq!(ResourceHandle::field_read(4, WireType::Fixed64), Err(WireType::Fixed64));
    assert_eq!(ResourceHandle::field_read(9, WireType::Fixed32), Ok(FieldRead::Unknown));
}

#[test]
fn merge_replaces_the_field_read() {
    let mut h = ResourceHandle::new();
    h.merge_text(1, "d".to_string());
    h.merge_text(2, "c".to_string());
    h.merge_text(3, "n".to_string());
    h.merge_text(5, "t".to_string());
    h.merge_text(8, "ignored".to_string());
    h.merge_number(42);
    assert_eq!(h.get_device(), "d");
    assert_eq!(h.get_container(), "c");
    assert_eq!(h.get_name(), "n");
    assert_eq!(h.get_maybe_type_name(), "t");
    assert_eq!(h.get_hash_code(), 42);
}
