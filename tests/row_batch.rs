use std::convert::TryInto;

use convergence::protocol::{FieldDescription, FormatCode, RowDescription, INT4_OID, TEXT_OID};
use convergence::protocol_ext::DataRowBatch;
use convergence::to_wire::ToWire;

fn single_binary_row<F: FnOnce(&mut convergence::protocol_ext::DataRowWriter)>(write: F) -> Vec<u8> {
    let mut batch = DataRowBatch::new(FormatCode::Binary);
    batch.set_num_cols(1);
    let mut row = batch.create_row();
    write(&mut row);
    row.finish(&mut batch);
    batch.data().to_vec()
}

fn check_layout(bytes: &[u8], expected_len: i32) {
    assert_eq!(bytes[0], b'D');
    let n = i32::from_be_bytes(bytes[1..5].try_into().expect("Expected i32"));
    assert_eq!(n, 4 + 2 + 4 + expected_len);
    let cols = i16::from_be_bytes(bytes[5..7].try_into().expect("Expected i16"));
    assert_eq!(cols, 1);
    let len = i32::from_be_bytes(bytes[7..11].try_into().expect("Expected i32"));
    assert_eq!(len, expected_len);
    assert_eq!(bytes.len(), 11 + expected_len as usize);
}

#[test]
fn write_int2() {
    let bytes = single_binary_row(|r| r.write_int2(42));
    check_layout(&bytes, 2);
    assert_eq!(i16::from_be_bytes(bytes[11..].try_into().unwrap()), 42);
}

#[test]
fn write_int4() {
    let bytes = single_binary_row(|r| r.write_int4(42));
    check_layout(&bytes, 4);
    assert_eq!(i32::from_be_bytes(bytes[11..].try_into().unwrap()), 42);
}

#[test]
fn write_int8() {
    let bytes = single_binary_row(|r| r.write_int8(42));
    check_layout(&bytes, 8);
    assert_eq!(i64::from_be_bytes(bytes[11..].try_into().unwrap()), 42);
}

#[test]
fn write_negative_int4_binary() {
    let bytes = single_binary_row(|r| r.write_int4(-2));
    check_layout(&bytes, 4);
    assert_eq!(&bytes[11..], &[0xff, 0xff, 0xff, 0xfe]);
}

#[test]
fn write_char_binary() {
    let bytes = single_binary_row(|r| r.write_char(-1));
    check_layout(&bytes, 1);
    assert_eq!(bytes[11], 0xff);
}

#[test]
fn write_bool_binary_has_length() {
    let bytes = single_binary_row(|r| r.write_bool(true));
    assert_eq!(bytes, vec![b'D', 0, 0, 0, 11, 0, 1, 0, 0, 0, 1, 1]);
}

#[test]
fn write_null_column() {
    let bytes = single_binary_row(|r| r.write_null());
    assert_eq!(bytes, vec![b'D', 0, 0, 0, 10, 0, 1, 0xff, 0xff, 0xff, 0xff]);
}

#[test]
fn text_int_row_payload() {
    let mut batch = DataRowBatch::new(FormatCode::Text);
    batch.set_num_cols(1);
    let mut row = batch.create_row();
    row.write_int4(1);
    row.finish(&mut batch);
    assert_eq!(batch.num_rows(), 1);
    assert_eq!(batch.data().to_vec(), vec![b'D', 0, 0, 0, 11, 0, 1, 0, 0, 0, 1, b'1']);
}

#[test]
fn text_values() {
    let mut batch = DataRowBatch::new(FormatCode::Text);
    batch.set_num_cols(4);
    let mut row = batch.create_row();
    row.write_int8(-1234567890123);
    row.write_bool(false);
    row.write_string("héllo");
    row.write_int2(i16::MIN);
    row.finish(&mut batch);
    let d = batch.data().to_vec();
    let mut expected: Vec<u8> = vec![0, 4];
    for v in [&b"-1234567890123"[..], &b"f"[..], "héllo".as_bytes(), &b"-32768"[..]] {
        expected.extend_from_slice(&(v.len() as i32).to_be_bytes());
        expected.extend_from_slice(v);
    }
    let mut frame = vec![b'D'];
    frame.extend_from_slice(&((expected.len() + 4) as i32).to_be_bytes());
    frame.extend_from_slice(&expected);
    assert_eq!(d, frame);
}

#[test]
fn int8_extremes_as_text() {
    let mut batch = DataRowBatch::new(FormatCode::Text);
    batch.set_num_cols(2);
    let mut row = batch.create_row();
    row.write_int8(i64::MIN);
    row.write_int8(0);
    row.finish(&mut batch);
    let d = batch.data().to_vec();
    assert_eq!(&d[11..31], b"-9223372036854775808");
    assert_eq!(&d[31..], &[0, 0, 0, 1, b'0']);
}

#[test]
fn from_row_desc_takes_format_and_columns() {
    let desc = RowDescription {
        fields: vec![
            FieldDescription { name: "id".to_string(), data_type: INT4_OID },
            FieldDescription { name: "name".to_string(), data_type: TEXT_OID },
        ],
        format_code: FormatCode::Binary,
    };
    let batch = DataRowBatch::from_row_desc(&desc);
    assert_eq!(batch.num_cols(), 2);
    assert_eq!(batch.num_rows(), 0);
    assert_eq!(batch.format_code(), FormatCode::Binary);
    assert!(batch.data().to_vec().is_empty());
}

#[test]
fn empty_row_of_zero_columns() {
    let mut batch = DataRowBatch::new(FormatCode::Text);
    let row = batch.create_row();
    row.finish(&mut batch);
    assert_eq!(batch.into_data(), vec![b'D', 0, 0, 0, 6, 0, 0]);
}

#[test]
fn generic_write_uses_batch_format() {
    let mut batch = DataRowBatch::new(FormatCode::Text);
    batch.set_num_cols(2);
    let mut row = batch.create_row();
    row.write(7i32);
    row.write(true);
    row.finish(&mut batch);
    assert_eq!(&batch.data().to_vec()[7..], &[0, 0, 0, 1, b'7', 0, 0, 0, 1, b't']);

    let mut batch = DataRowBatch::new(FormatCode::Binary);
    batch.set_num_cols(2);
    let mut row = batch.create_row();
    row.write(7i32);
    row.write("ab".to_string());
    row.finish(&mut batch);
    assert_eq!(&batch.data().to_vec()[7..], &[0, 0, 0, 4, 0, 0, 0, 7, 0, 0, 0, 2, b'a', b'b']);
}

#[test]
fn to_wire_forms() {
    assert_eq!(ToWire::to_text(&-12i16), b"-12".to_vec());
    assert_eq!(ToWire::to_binary(&-12i16), (-12i16).to_be_bytes().to_vec());
    assert_eq!(ToWire::to_text(&i64::MAX), b"9223372036854775807".to_vec());
    assert_eq!(ToWire::to_binary(&false), vec![0]);
    assert_eq!(ToWire::to_text(&false), b"f".to_vec());
}
