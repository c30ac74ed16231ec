use convergence::connection::{parse_statement, Action, Connection, ConnectionState};
use convergence::protocol::{
    encode, Bind, BindFormat, ClientMessage, Describe, Execute, FieldDescription, FormatCode, Parse,
    ServerMessage, Severity, SqlState, Startup, INT4_OID, TEXT_OID,
};
use convergence::protocol_ext::DataRowBatch;

fn idle() -> Connection {
    let mut c = Connection::new();
    let s = Startup { protocol_major: 3, protocol_minor: 0, parameters: vec![] };
    assert!(c.step(ClientMessage::Startup(s)).is_ok());
    assert_eq!(c.state(), ConnectionState::Idle);
    c
}

fn reply(r: Result<Action, convergence::protocol::ErrorResponse>) -> Vec<ServerMessage> {
    match r {
        Ok(Action::Reply(m)) => m,
        _ => panic!("expected a reply"),
    }
}

fn bytes_of(m: &[ServerMessage]) -> Vec<u8> {
    m.iter().flat_map(|x| encode(x)).collect()
}

fn parse(name: &str, query: &str) -> ClientMessage {
    ClientMessage::Parse(Parse { prepared_statement_name: name.to_string(), query: query.to_string(), parameter_types: vec![] })
}

fn bind(portal: &str, statement: &str, format: FormatCode, params: Vec<Option<Vec<u8>>>) -> ClientMessage {
    ClientMessage::Bind(Bind {
        portal: portal.to_string(),
        prepared_statement_name: statement.to_string(),
        parameter_formats: BindFormat::All(FormatCode::Text),
        parameters: params,
        result_format: BindFormat::All(format),
    })
}

#[test]
fn ssl_request_is_declined_then_startup_proceeds() {
    let mut c = Connection::new();
    let m = reply(c.step(ClientMessage::SSLRequest));
    assert_eq!(bytes_of(&m), vec![b'N']);
    assert_eq!(c.state(), ConnectionState::Startup);
    let s = Startup { protocol_major: 3, protocol_minor: 0, parameters: vec![] };
    let m = reply(c.step(ClientMessage::Startup(s)));
    assert_eq!(m.len(), 8);
    assert!(matches!(m[0], ServerMessage::AuthenticationOk));
    match &m[1] {
        ServerMessage::ParameterStatus { name, value } => {
            assert_eq!(name, "server_version");
            assert_eq!(value, "13");
        }
        _ => panic!("expected a parameter status"),
    }
    assert!(matches!(m[7], ServerMessage::ReadyForQuery));
    assert_eq!(c.state(), ConnectionState::Idle);
}

#[test]
fn non_startup_first_message_is_fatal() {
    let mut c = Connection::new();
    match c.step(ClientMessage::Sync) {
        Err(e) => {
            assert_eq!(e.severity, Severity::Fatal);
            assert_eq!(e.code, SqlState::ProtocolViolation);
        }
        _ => panic!("expected an error"),
    }
}

#[test]
fn terminate_closes() {
    let mut c = idle();
    assert!(matches!(c.step(ClientMessage::Terminate), Ok(Action::Close)));
}

#[test]
fn empty_query_gets_empty_response() {
    let mut c = idle();
    let m = reply(c.step(ClientMessage::Query(String::new())));
    assert_eq!(bytes_of(&m), vec![b'I', 0, 0, 0, 4, b'Z', 0, 0, 0, 5, b'I']);
}

#[test]
fn bind_to_missing_statement() {
    let mut c = idle();
    match c.step(bind("", "nope", FormatCode::Text, vec![])) {
        Err(e) => {
            assert_eq!(e.code, SqlState::InvalidSQLStatementName);
            assert_eq!(e.code.code(), "26000");
            let (m, go_on) = c.recover(e);
            assert!(go_on);
            assert!(matches!(m[1], ServerMessage::ReadyForQuery));
        }
        _ => panic!("expected an error"),
    }
    let m = reply(c.step(ClientMessage::Sync));
    assert!(matches!(m[0], ServerMessage::ReadyForQuery));
}

#[test]
fn per_column_result_formats_are_refused() {
    let mut c = idle();
    reply(c.step(parse("", "")));
    let b = ClientMessage::Bind(Bind {
        portal: String::new(),
        prepared_statement_name: String::new(),
        parameter_formats: BindFormat::All(FormatCode::Text),
        parameters: vec![],
        result_format: BindFormat::PerColumn(vec![FormatCode::Text, FormatCode::Binary]),
    });
    match c.step(b) {
        Err(e) => assert_eq!(e.code, SqlState::FeatureNotSupported),
        _ => panic!("expected an error"),
    }
}

#[test]
fn portal_and_statement_names_do_not_collide() {
    let mut c = idle();
    reply(c.step(parse("s", "")));
    let m = reply(c.step(bind("s", "s", FormatCode::Text, vec![])));
    assert!(matches!(m[0], ServerMessage::BindComplete));
    assert!(c.prepared_statement("s").is_ok());
    assert!(c.portal("s").is_ok());
    assert_eq!(c.portal("t").err().map(|e| e.code), Some(SqlState::InvalidCursorName));
    assert_eq!(c.prepared_statement("t").err().map(|e| e.code), Some(SqlState::InvalidSQLStatementName));
    let m = reply(c.step(ClientMessage::Describe(Describe::PreparedStatement("s".to_string()))));
    assert_eq!(m.len(), 2);
    let m = reply(c.step(ClientMessage::Describe(Describe::Portal("s".to_string()))));
    assert!(matches!(m[0], ServerMessage::NoData));
    let m = reply(c.step(ClientMessage::Execute(Execute { portal: "s".to_string(), max_rows: 0 })));
    assert!(matches!(m[0], ServerMessage::EmptyQueryResponse));
}

#[test]
fn missing_portal() {
    let mut c = idle();
    match c.step(ClientMessage::Execute(Execute { portal: "p".to_string(), max_rows: 0 })) {
        Err(e) => assert_eq!(e.code, SqlState::InvalidCursorName),
        _ => panic!("expected an error"),
    }
}

#[test]
fn more_than_one_statement_is_a_syntax_error() {
    match parse_statement("select 1; select 2") {
        Err(e) => assert_eq!(e.code, SqlState::SyntaxError),
        _ => panic!("expected an error"),
    }
    assert!(matches!(parse_statement(""), Ok(None)));
    assert!(matches!(parse_statement("select 1"), Ok(Some(_))));
    assert!(parse_statement("selec 1 from").is_err());
}

#[test]
fn unexpected_message_is_a_protocol_violation() {
    let mut c = idle();
    match c.step(ClientMessage::Unknown(b'd')) {
        Err(e) => {
            assert_eq!(e.code, SqlState::ProtocolViolation);
            assert_eq!(e.severity, Severity::Error);
        }
        _ => panic!("expected an error"),
    }
}

#[test]
fn simple_query_numeric_select() {
    let mut c = idle();
    match c.step(ClientMessage::Query("select 1".to_string())) {
        Ok(Action::RunQuery { statement: _ }) => {}
        _ => panic!("expected a query to run"),
    }
    let mut batch = DataRowBatch::new(FormatCode::Text);
    batch.set_num_cols(1);
    let mut row = batch.create_row();
    row.write_int4(1);
    row.finish(&mut batch);
    let fields = vec![FieldDescription { name: "?column?".to_string(), data_type: INT4_OID }];
    let out = c.queried(fields, batch);
    let head_len = 1 + i32::from_be_bytes(out[1..5].try_into().unwrap()) as usize;
    assert_eq!(out[0], b'T');
    assert_eq!(&out[5..7], &[0, 1]);
    let rest = &out[head_len..];
    assert_eq!(rest[0], b'D');
    assert_eq!(&rest[5..12], &[0, 1, 0, 0, 0, 1, b'1']);
    let rest = &rest[12..];
    assert_eq!(rest[0], b'C');
    assert_eq!(&rest[5..14], b"SELECT 1\0");
    assert_eq!(&rest[14..], &[b'Z', 0, 0, 0, 5, b'I']);
}

#[test]
fn extended_query_with_two_columns() {
    let mut c = idle();
    let statement = match c.step(parse("", "select * from t")) {
        Ok(Action::Prepare { name, statement }) => {
            assert_eq!(name, "");
            statement
        }
        _ => panic!("expected a prepare"),
    };
    let fields = vec![
        FieldDescription { name: "id".to_string(), data_type: INT4_OID },
        FieldDescription { name: "name".to_string(), data_type: TEXT_OID },
    ];
    assert!(matches!(c.prepared(String::new(), statement, None, Some(fields)), ServerMessage::ParseComplete));
    let row_desc = match c.step(bind("", "", FormatCode::Binary, vec![])) {
        Ok(Action::BindPortal { portal, statement_name, parameters, row_desc }) => {
            assert_eq!(portal, "");
            assert_eq!(statement_name, "");
            assert!(parameters.is_empty());
            assert_eq!(row_desc.format_code, FormatCode::Binary);
            row_desc
        }
        _ => panic!("expected a bind"),
    };
    assert!(matches!(c.bound(String::new(), row_desc), ServerMessage::BindComplete));
    let m = reply(c.step(ClientMessage::Describe(Describe::Portal(String::new()))));
    match &m[0] {
        ServerMessage::RowDescription(d) => {
            assert_eq!(d.fields.len(), 2);
            assert_eq!(d.format_code, FormatCode::Binary);
        }
        _ => panic!("expected a row description"),
    }
    let mut batch = match c.step(ClientMessage::Execute(Execute { portal: String::new(), max_rows: 0 })) {
        Ok(Action::ExecutePortal { batch, .. }) => batch,
        _ => panic!("expected an execute"),
    };
    assert_eq!(batch.format_code(), FormatCode::Binary);
    for (i, s) in [(1, "a"), (2, "b"), (3, "c")] {
        let mut row = batch.create_row();
        row.write_int4(i);
        row.write_string(s);
        row.finish(&mut batch);
    }
    let out = c.executed(batch);
    for (k, i) in (1..=3).enumerate() {
        let r = &out[k * 20..(k + 1) * 20];
        assert_eq!(r[0], b'D');
        assert_eq!(&r[1..5], &19i32.to_be_bytes());
        assert_eq!(&r[5..7], &[0, 2]);
        assert_eq!(&r[7..11], &4i32.to_be_bytes());
        assert_eq!(&r[11..15], &(i as i32).to_be_bytes());
        assert_eq!(&r[15..19], &1i32.to_be_bytes());
        assert_eq!(r[19], b"abc"[k]);
    }
    assert_eq!(&out[60..], &[b'C', 0, 0, 0, 13, b'S', b'E', b'L', b'E', b'C', b'T', b' ', b'3', 0]);
    let m = reply(c.step(ClientMessage::Sync));
    assert!(matches!(m[0], ServerMessage::ReadyForQuery));
}

#[test]
fn wrong_parameter_count() {
    let mut c = idle();
    let statement = match c.step(parse("q", "select $1")) {
        Ok(Action::Prepare { statement, .. }) => statement,
        _ => panic!("expected a prepare"),
    };
    c.prepared("q".to_string(), statement, Some(vec![INT4_OID]), None);
    match c.step(bind("", "q", FormatCode::Text, vec![])) {
        Err(e) => assert_eq!(e.code, SqlState::SyntaxError),
        _ => panic!("expected an error"),
    }
    match c.step(bind("", "q", FormatCode::Text, vec![Some(b"1".to_vec())])) {
        Ok(Action::BindPortal { parameters, .. }) => assert_eq!(parameters, vec![Some(b"1".to_vec())]),
        _ => panic!("expected a bind"),
    }
}

#[test]
fn fatal_error_ends_the_session() {
    let mut c = idle();
    let (m, go_on) = c.recover(convergence::protocol::ErrorResponse::fatal(SqlState::ConnectionException, "x"));
    assert!(!go_on);
    assert_eq!(m.len(), 1);
}
