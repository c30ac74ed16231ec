use convergence::codec::{decode_message, decode_startup};
use convergence::protocol::{
    encode, BindFormat, ClientMessage, Describe, ErrorResponse, FieldDescription, FormatCode, RowDescription,
    ServerMessage, SqlState, INT4_OID,
};

fn frame(tag: u8, payload: &[u8]) -> Vec<u8> {
    let mut v = vec![tag];
    v.extend_from_slice(&((payload.len() + 4) as i32).to_be_bytes());
    v.extend_from_slice(payload);
    v
}

#[test]
fn ready_for_query_bytes() {
    assert_eq!(encode(&ServerMessage::ReadyForQuery), vec![b'Z', 0, 0, 0, 5, b'I']);
}

#[test]
fn authentication_ok_bytes() {
    assert_eq!(encode(&ServerMessage::AuthenticationOk), vec![b'R', 0, 0, 0, 8, 0, 0, 0, 0]);
}

#[test]
fn ssl_decline_is_one_byte() {
    assert_eq!(encode(&ServerMessage::SSLResponse(false)), vec![b'N']);
}

#[test]
fn parameter_status_bytes() {
    let m = ServerMessage::ParameterStatus { name: "TimeZone".to_string(), value: "UTC".to_string() };
    assert_eq!(encode(&m), frame(b'S', b"TimeZone\0UTC\0"));
}

#[test]
fn command_complete_bytes() {
    let m = ServerMessage::CommandComplete { command_tag: "SELECT 3".to_string() };
    assert_eq!(encode(&m), frame(b'C', b"SELECT 3\0"));
}

#[test]
fn error_response_bytes() {
    let m = ServerMessage::ErrorResponse(ErrorResponse::error(SqlState::InvalidSQLStatementName, "missing statement"));
    assert_eq!(encode(&m), frame(b'E', b"SERROR\0C26000\0Mmissing statement\0\0"));
}

#[test]
fn row_description_bytes() {
    let m = ServerMessage::RowDescription(RowDescription {
        fields: vec![FieldDescription { name: "a".to_string(), data_type: INT4_OID }],
        format_code: FormatCode::Binary,
    });
    let mut p = vec![0, 1, b'a', 0];
    p.extend_from_slice(&0i32.to_be_bytes());
    p.extend_from_slice(&0i16.to_be_bytes());
    p.extend_from_slice(&23u32.to_be_bytes());
    p.extend_from_slice(&4i16.to_be_bytes());
    p.extend_from_slice(&(-1i32).to_be_bytes());
    p.extend_from_slice(&1i16.to_be_bytes());
    assert_eq!(encode(&m), frame(b'T', &p));
}

#[test]
fn parameter_description_bytes() {
    let m = ServerMessage::ParameterDescription { parameters: vec![23, 25] };
    assert_eq!(encode(&m), frame(b't', &[0, 2, 0, 0, 0, 23, 0, 0, 0, 25]));
}

#[test]
fn decode_query() {
    let mut buf = frame(b'Q', b"select 1\0");
    buf.extend_from_slice(b"extra");
    match decode_message(&buf) {
        Ok(Some((ClientMessage::Query(q), n))) => {
            assert_eq!(q, "select 1");
            assert_eq!(n, buf.len() - 5);
        }
        _ => panic!("expected a query"),
    }
}

#[test]
fn decode_partial_frame_waits() {
    let buf = frame(b'Q', b"select 1\0");
    assert!(matches!(decode_message(&buf[..7]), Ok(None)));
    assert!(matches!(decode_message(&buf[..3]), Ok(None)));
}

#[test]
fn decode_bad_length() {
    assert!(decode_message(&[b'Q', 0, 0, 0, 2, 0]).is_err());
}

#[test]
fn decode_invalid_utf8() {
    assert!(decode_message(&frame(b'Q', &[0xff, 0xfe, 0])).is_err());
}

#[test]
fn decode_sync_terminate_unknown() {
    assert!(matches!(decode_message(&frame(b'S', b"")), Ok(Some((ClientMessage::Sync, 5)))));
    assert!(matches!(decode_message(&frame(b'X', b"")), Ok(Some((ClientMessage::Terminate, 5)))));
    assert!(matches!(decode_message(&frame(b'd', b"xy")), Ok(Some((ClientMessage::Unknown(b'd'), 7)))));
}

#[test]
fn decode_parse_message() {
    let mut p = b"s1\0select $1\0".to_vec();
    p.extend_from_slice(&1i16.to_be_bytes());
    p.extend_from_slice(&23u32.to_be_bytes());
    match decode_message(&frame(b'P', &p)) {
        Ok(Some((ClientMessage::Parse(m), _))) => {
            assert_eq!(m.prepared_statement_name, "s1");
            assert_eq!(m.query, "select $1");
            assert_eq!(m.parameter_types, vec![23]);
        }
        _ => panic!("expected a parse"),
    }
}

#[test]
fn decode_bind_message() {
    let mut p = b"p\0s\0".to_vec();
    p.extend_from_slice(&0i16.to_be_bytes());
    p.extend_from_slice(&2i16.to_be_bytes());
    p.extend_from_slice(&2i32.to_be_bytes());
    p.extend_from_slice(b"42");
    p.extend_from_slice(&(-1i32).to_be_bytes());
    p.extend_from_slice(&1i16.to_be_bytes());
    p.extend_from_slice(&1i16.to_be_bytes());
    match decode_message(&frame(b'B', &p)) {
        Ok(Some((ClientMessage::Bind(b), _))) => {
            assert_eq!(b.portal, "p");
            assert_eq!(b.prepared_statement_name, "s");
            assert_eq!(b.parameters, vec![Some(b"42".to_vec()), None]);
            assert!(matches!(b.parameter_formats, BindFormat::All(FormatCode::Text)));
            assert!(matches!(b.result_format, BindFormat::All(FormatCode::Binary)));
        }
        _ => panic!("expected a bind"),
    }
}

#[test]
fn decode_bind_mixed_result_formats() {
    let mut p = b"\0\0".to_vec();
    p.extend_from_slice(&0i16.to_be_bytes());
    p.extend_from_slice(&0i16.to_be_bytes());
    p.extend_from_slice(&2i16.to_be_bytes());
    p.extend_from_slice(&0i16.to_be_bytes());
    p.extend_from_slice(&1i16.to_be_bytes());
    match decode_message(&frame(b'B', &p)) {
        Ok(Some((ClientMessage::Bind(b), _))) => assert!(matches!(b.result_format, BindFormat::PerColumn(_))),
        _ => panic!("expected a bind"),
    }
}

#[test]
fn decode_bind_bad_format_code() {
    let mut p = b"\0\0".to_vec();
    p.extend_from_slice(&1i16.to_be_bytes());
    p.extend_from_slice(&7i16.to_be_bytes());
    p.extend_from_slice(&0i16.to_be_bytes());
    p.extend_from_slice(&0i16.to_be_bytes());
    assert!(decode_message(&frame(b'B', &p)).is_err());
}

#[test]
fn decode_describe_and_execute() {
    match decode_message(&frame(b'D', b"Pcur\0")) {
        Ok(Some((ClientMessage::Describe(Describe::Portal(n)), _))) => assert_eq!(n, "cur"),
        _ => panic!("expected describe"),
    }
    let mut p = b"cur\0".to_vec();
    p.extend_from_slice(&0i32.to_be_bytes());
    match decode_message(&frame(b'E', &p)) {
        Ok(Some((ClientMessage::Execute(e), _))) => {
            assert_eq!(e.portal, "cur");
            assert_eq!(e.max_rows, 0);
        }
        _ => panic!("expected execute"),
    }
}

#[test]
fn decode_ssl_request() {
    let mut b = 8i32.to_be_bytes().to_vec();
    b.extend_from_slice(&80877103i32.to_be_bytes());
    assert!(matches!(decode_startup(&b), Ok(Some((ClientMessage::SSLRequest, 8)))));
}

#[test]
fn decode_startup_message() {
    let mut body = 196608i32.to_be_bytes().to_vec();
    body.extend_from_slice(b"user\0alice\0database\0test\0\0");
    let mut b = ((body.len() + 4) as i32).to_be_bytes().to_vec();
    b.extend_from_slice(&body);
    match decode_startup(&b) {
        Ok(Some((ClientMessage::Startup(s), n))) => {
            assert_eq!(n, b.len());
            assert_eq!(s.parameters, vec![
                ("user".to_string(), "alice".to_string()),
                ("database".to_string(), "test".to_string())
            ]);
        }
        _ => panic!("expected startup"),
    }
    assert!(matches!(decode_startup(&b[..6]), Ok(None)));
}

#[test]
fn decode_cancel_request() {
    let mut b = 16i32.to_be_bytes().to_vec();
    b.extend_from_slice(&80877102i32.to_be_bytes());
    b.extend_from_slice(&[0, 0, 0, 1, 0, 0, 0, 2]);
    assert!(matches!(decode_startup(&b), Ok(Some((ClientMessage::CancelRequest, 16)))));
}

#[test]
fn known_tag_with_bad_payload_is_an_error() {
    assert!(decode_message(&frame(b'S', b"x")).is_err());
    assert!(decode_message(&frame(b'E', b"p\0")).is_err());
    assert!(decode_message(&frame(b'D', b"Xname\0")).is_err());
}

#[test]
fn startup_errors() {
    let mut b = 4i32.to_be_bytes().to_vec();
    b.extend_from_slice(&196608i32.to_be_bytes());
    assert!(matches!(decode_startup(&b), Err(convergence::protocol::ProtocolError::InvalidLength)));
    let mut b = 8i32.to_be_bytes().to_vec();
    b.extend_from_slice(&12345i32.to_be_bytes());
    assert!(matches!(decode_startup(&b), Err(convergence::protocol::ProtocolError::UnsupportedVersion)));
}

#[test]
fn decode_bind_uniform_per_column_formats() {
    let mut p = b"\0\0".to_vec();
    p.extend_from_slice(&0i16.to_be_bytes());
    p.extend_from_slice(&0i16.to_be_bytes());
    p.extend_from_slice(&2i16.to_be_bytes());
    p.extend_from_slice(&1i16.to_be_bytes());
    p.extend_from_slice(&1i16.to_be_bytes());
    match decode_message(&frame(b'B', &p)) {
        Ok(Some((ClientMessage::Bind(b), _))) => assert!(matches!(b.result_format, BindFormat::All(FormatCode::Binary))),
        _ => panic!("expected a bind"),
    }
}
