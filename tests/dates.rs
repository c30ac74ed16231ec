use convergence::protocol::FormatCode;
use convergence::protocol_ext::{DataRowBatch, Date, Time, Timestamp};

fn text_column<F: FnOnce(&mut convergence::protocol_ext::DataRowWriter) -> bool>(write: F) -> Vec<u8> {
    let mut batch = DataRowBatch::new(FormatCode::Text);
    batch.set_num_cols(1);
    let mut row = batch.create_row();
    assert!(write(&mut row));
    row.finish(&mut batch);
    batch.data().to_vec()[11..].to_vec()
}

fn binary_column<F: FnOnce(&mut convergence::protocol_ext::DataRowWriter) -> bool>(write: F) -> Vec<u8> {
    let mut batch = DataRowBatch::new(FormatCode::Binary);
    batch.set_num_cols(1);
    let mut row = batch.create_row();
    assert!(write(&mut row));
    row.finish(&mut batch);
    batch.data().to_vec()[11..].to_vec()
}

#[test]
fn date_as_text() {
    assert_eq!(text_column(|r| r.write_date(Date { days: 0 })), b"2000-01-01");
    assert_eq!(text_column(|r| r.write_date(Date { days: -1 })), b"1999-12-31");
    assert_eq!(text_column(|r| r.write_date(Date { days: 366 })), b"2001-01-01");
}

#[test]
fn date_as_binary() {
    assert_eq!(binary_column(|r| r.write_date(Date { days: 366 })), 366i32.to_be_bytes().to_vec());
}

#[test]
fn date_out_of_range_as_text() {
    let mut batch = DataRowBatch::new(FormatCode::Text);
    batch.set_num_cols(1);
    let mut row = batch.create_row();
    assert!(!row.write_date(Date { days: i32::MAX }));
    assert_eq!(row.current_col(), 0);
}

#[test]
fn time_as_text_and_binary() {
    let t = Time { micros: 3_723_000_000 };
    assert_eq!(text_column(|r| r.write_time(t)), b"01:02:03");
    assert_eq!(binary_column(|r| r.write_time(t)), 3_723_000_000i64.to_be_bytes().to_vec());
}

#[test]
fn timestamp_as_text_and_binary() {
    assert_eq!(text_column(|r| r.write_timestamp(Timestamp { micros: 0 })), b"2000-01-01 00:00:00");
    assert_eq!(text_column(|r| r.write_timestamp(Timestamp { micros: -1_000_000 })), b"1999-12-31 23:59:59");
    assert_eq!(
        binary_column(|r| r.write_timestamp(Timestamp { micros: 86_400_000_000 })),
        86_400_000_000i64.to_be_bytes().to_vec()
    );
}

#[test]
fn leap_second_time() {
    let t = Time { micros: 86_400_500_000 };
    assert_eq!(text_column(|r| r.write_time(t)), b"23:59:60.500");
    assert_eq!(binary_column(|r| r.write_time(t)), 86_400_500_000i64.to_be_bytes().to_vec());
}

#[test]
fn time_with_fraction() {
    assert_eq!(text_column(|r| r.write_time(Time { micros: 1_250_000 })), b"00:00:01.250");
    assert_eq!(text_column(|r| r.write_time(Time { micros: 1_000_001 })), b"00:00:01.000001");
}
