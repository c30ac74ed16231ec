//! The per-session protocol state machine.
//!
//! The machine decides; the caller performs. `step` takes one client message and
//! returns what to do with it: bytes to send, or a call into the query engine whose
//! outcome is handed back through `prepared`, `bound`, `executed` or `queried`.
use vstd::prelude::*;
use sqlparser::ast::Statement;
use sqlparser::dialect::PostgreSqlDialect;
use sqlparser::parser::{Parser, ParserError};
use crate::names::NameMap;
use crate::protocol::{
    encode_spec, frame, Bind, BindFormat, ClientMessage, DataTypeOid, Describe, ErrorResponse,
    FieldDescription, FormatCode, ProtocolError, RowDescription, ServerMessage, Severity, SqlState,
    duplicate_fields, duplicate_oids, encodable, encode_into,
};
use crate::protocol_ext::DataRowBatch;
use crate::wire::{digits, push_all, push_be_i32, push_digits};

verus! {

#[verifier::external_type_specification]
#[verifier::external_body]
pub struct ExStatement(Statement);

#[verifier::external_type_specification]
#[verifier::external_body]
pub struct ExParserError(ParserError);

/// How many statements the PostgreSQL-dialect parser finds in a text; `None` when it
/// rejects the text.
pub uninterp spec fn sql_statement_count(text: Seq<char>) -> Option<nat>;

/// Relies on sqlparser's `Parser::parse_sql` with `PostgreSqlDialect`: the statements
/// of the text, or an error; a text without tokens holds no statement.
#[verifier::external_body]
fn parse_sql(text: &str) -> (r: Result<Vec<Statement>, ParserError>)
    ensures
        r is Ok <==> sql_statement_count(text@) is Some,
        r is Ok ==> sql_statement_count(text@) == Some(r->Ok_0@.len()),
        text@.len() == 0 ==> r is Ok && r->Ok_0@.len() == 0,
{
    Parser::parse_sql(&PostgreSqlDialect {}, text)
}

/// Relies on the `Display` impl of sqlparser's `ParserError` for a readable message.
#[verifier::external_body]
fn parser_error_message(e: &ParserError) -> String {
    e.to_string()
}

/// Describes an error that may or may not end a connection.
#[derive(Debug)]
pub enum ConnectionError {
    /// Bytes that do not form a valid message.
    Protocol(ProtocolError),
    /// An error reported to the client; its severity says whether the session goes on.
    ErrorResponse(ErrorResponse),
    /// The client closed the connection.
    ConnectionClosed,
}

/// Where a session is.
#[derive(Clone, Copy, Debug, PartialEq, Eq, Structural)]
pub enum ConnectionState {
    /// Awaiting the first frame.
    Startup,
    /// Awaiting queries.
    Idle,
}

/// A parsed statement cached under a name; `None` stands for the empty query.
pub struct PreparedStatement {
    pub statement: Option<Statement>,
    pub fields: Vec<FieldDescription>,
    pub parameters: Vec<DataTypeOid>,
}

/// What the caller does with a message that `step` has handled.
pub enum Action {
    /// Send these messages; the session goes on.
    Reply(Vec<ServerMessage>),
    /// Ask the engine to describe `statement`, then hand the answer to `prepared`.
    Prepare { name: String, statement: Statement },
    /// Ask the engine for a portal over the named statement with these raw values,
    /// then hand `row_desc` to `bound`.
    BindPortal {
        portal: String,
        statement_name: String,
        parameters: Vec<Option<Vec<u8>>>,
        row_desc: RowDescription,
    },
    /// Let the engine's portal of that name write its rows into `batch`, then hand
    /// the batch to `executed`.
    ExecutePortal { portal: String, batch: DataRowBatch },
    /// Ask the engine for a portal over `statement`, fetch it into a text batch, then
    /// hand the fields and the batch to `queried`.
    RunQuery { statement: Statement },
    /// End the session.
    Close,
}

/// The parameter statuses reported at startup.
pub open spec fn startup_param(i: int) -> (Seq<char>, Seq<char>) {
    if i == 0 {
        ("server_version"@, "13"@)
    } else if i == 1 {
        ("server_encoding"@, "UTF8"@)
    } else if i == 2 {
        ("client_encoding"@, "UTF8"@)
    } else if i == 3 {
        ("DateStyle"@, "ISO"@)
    } else if i == 4 {
        ("TimeZone"@, "UTC"@)
    } else {
        ("integer_datetimes"@, "on"@)
    }
}

/// The replies to a StartupMessage: AuthenticationOk, six parameter statuses, ReadyForQuery.
pub open spec fn is_startup_reply(v: Seq<ServerMessage>) -> bool {
    &&& v.len() == 8
    &&& v[0] is AuthenticationOk
    &&& forall|i: int|
        1 <= i <= 6 ==> (#[trigger] v[i] matches ServerMessage::ParameterStatus { name, value } && name@
            == startup_param(i - 1).0 && value@ == startup_param(i - 1).1)
    &&& v[7] is ReadyForQuery
}

pub open spec fn is_error(r: Result<Action, ErrorResponse>, severity: Severity, code: SqlState) -> bool {
    r matches Err(e) && e.severity == severity && e.code == code
}

pub open spec fn replies(r: Result<Action, ErrorResponse>, v: Seq<ServerMessage>) -> bool {
    r matches Ok(Action::Reply(m)) && m@ == v
}

/// The single format that a Bind's result formats name, if they name one.
pub open spec fn uniform_format(f: BindFormat) -> Option<FormatCode> {
    match f {
        BindFormat::All(c) => Some(c),
        BindFormat::PerColumn(_) => None,
    }
}

/// The tag of a CommandComplete after a SELECT of `n` rows: `SELECT n`.
pub open spec fn select_tag(n: nat) -> Seq<u8> {
    seq![83u8, 69u8, 76u8, 69u8, 67u8, 84u8, 32u8] + digits(n)
}

/// The CommandComplete frame after a SELECT of `n` rows.
pub open spec fn select_complete(n: nat) -> Seq<u8> {
    frame(67u8, select_tag(n).push(0u8))
}

/// Decides what a parse of `text` yields from the statements the parser found:
/// none is the empty query, one is the statement, more is a syntax error.
pub fn single_statement(mut statements: Vec<Statement>) -> (r: Result<Option<Statement>, ErrorResponse>)
    ensures
        statements@.len() == 0 ==> r matches Ok(None),
        statements@.len() == 1 ==> (r matches Ok(Some(s)) && s == statements@[0]),
        statements@.len() > 1 ==> (r matches Err(e) && e.severity == Severity::Error && e.code
            == SqlState::SyntaxError),
{
    if statements.len() == 0 {
        Ok(None)
    } else if statements.len() == 1 {
        Ok(statements.pop())
    } else {
        Err(ErrorResponse::error(SqlState::SyntaxError, "expected zero or one statements"))
    }
}

/// Parses SQL text into at most one statement; `None` is the empty query.
pub fn parse_statement(text: &str) -> (r: Result<Option<Statement>, ErrorResponse>)
    ensures
        r matches Ok(None) <==> sql_statement_count(text@) == Some(0nat),
        r matches Ok(Some(_)) <==> sql_statement_count(text@) == Some(1nat),
        r is Err ==> r->Err_0.severity == Severity::Error && r->Err_0.code == SqlState::SyntaxError,
        text@.len() == 0 ==> r matches Ok(None),
{
    match parse_sql(text) {
        Ok(statements) => single_statement(statements),
        Err(e) => {
            let message = parser_error_message(&e);
            Err(ErrorResponse::error(SqlState::SyntaxError, message.as_str()))
        },
    }
}

/// The bytes that close an Execute or a simple query: the rows of `batch`, then
/// `CommandComplete` with tag `SELECT <rows>`.
pub fn finish_batch(batch: DataRowBatch) -> (r: Vec<u8>)
    ensures
        r@ == batch.spec_data() + select_complete(batch.spec_num_rows() as nat),
{
    let n = batch.num_rows();
    let mut out = batch.into_data();
    let ghost data = out@;
    let mut tag: Vec<u8> = Vec::new();
    tag.push(83u8);
    tag.push(69u8);
    tag.push(76u8);
    tag.push(69u8);
    tag.push(67u8);
    tag.push(84u8);
    tag.push(32u8);
    push_digits(&mut tag, n as u64);
    tag.push(0u8);
    assert(tag@ =~= select_tag(n as nat).push(0u8));
    proof {
        crate::protocol_ext::lemma_decimal_digits_len(n as u64);
    }
    out.push(67u8);
    push_be_i32(&mut out, (tag.len() + 4) as i32);
    push_all(&mut out, tag.as_slice());
    assert(out@ =~= data + select_complete(n as nat));
    out
}

/// What handling `msg` in `Idle` does: the result `r` and the state `after` that
/// follows `before`.
pub open spec fn idle_step(
    before: Connection,
    after: Connection,
    msg: ClientMessage,
    r: Result<Action, ErrorResponse>,
) -> bool {
    match msg {
        ClientMessage::Parse(p) => {
            &&& after.spec_portals() == before.spec_portals()
            &&& match sql_statement_count(p.query@) {
                Some(n) => if n == 0 {
                    &&& replies(r, seq![ServerMessage::ParseComplete])
                    &&& after.spec_statements().contains_key(p.prepared_statement_name@)
                    &&& after.spec_statements() == before.spec_statements().insert(
                        p.prepared_statement_name@,
                        after.spec_statements()[p.prepared_statement_name@],
                    )
                    &&& after.spec_statements()[p.prepared_statement_name@].statement is None
                    &&& after.spec_statements()[p.prepared_statement_name@].fields@.len() == 0
                    &&& after.spec_statements()[p.prepared_statement_name@].parameters@.len() == 0
                } else if n == 1 {
                    &&& r matches Ok(Action::Prepare { name, statement: _ })
                    &&& r->Ok_0->Prepare_name@ == p.prepared_statement_name@
                    &&& after.spec_statements() == before.spec_statements()
                } else {
                    &&& is_error(r, Severity::Error, SqlState::SyntaxError)
                    &&& after.spec_statements() == before.spec_statements()
                },
                None => {
                    &&& is_error(r, Severity::Error, SqlState::SyntaxError)
                    &&& after.spec_statements() == before.spec_statements()
                },
            }
        },
        ClientMessage::Bind(b) => {
            &&& after.spec_statements() == before.spec_statements()
            &&& match uniform_format(b.result_format) {
                None => is_error(r, Severity::Error, SqlState::FeatureNotSupported)
                    && after.spec_portals() == before.spec_portals(),
                Some(f) => if !before.spec_statements().contains_key(b.prepared_statement_name@) {
                    is_error(r, Severity::Error, SqlState::InvalidSQLStatementName)
                        && after.spec_portals() == before.spec_portals()
                } else {
                    let ps = before.spec_statements()[b.prepared_statement_name@];
                    if ps.statement is None {
                        &&& replies(r, seq![ServerMessage::BindComplete])
                        &&& after.spec_portals() == before.spec_portals().insert(
                            b.portal@,
                            None,
                        )
                    } else if b.parameters@.len() != ps.parameters@.len() {
                        &&& is_error(r, Severity::Error, SqlState::SyntaxError)
                        &&& after.spec_portals() == before.spec_portals()
                    } else {
                        &&& r matches Ok(
                            Action::BindPortal { portal, statement_name, parameters, row_desc },
                        )
                        &&& portal@ == b.portal@
                        &&& statement_name@ == b.prepared_statement_name@
                        &&& parameters@ == b.parameters@
                        &&& row_desc.fields@ == ps.fields@
                        &&& row_desc.format_code == f
                        &&& after.spec_portals() == before.spec_portals()
                    }
                },
            }
        },
        ClientMessage::Describe(Describe::PreparedStatement(name)) => {
            &&& after.spec_statements() == before.spec_statements()
            &&& after.spec_portals() == before.spec_portals()
            &&& if before.spec_statements().contains_key(name@) {
                let ps = before.spec_statements()[name@];
                &&& r matches Ok(Action::Reply(m))
                &&& m@.len() == 2
                &&& m@[0] matches ServerMessage::ParameterDescription { parameters }
                &&& parameters@ == ps.parameters@
                &&& m@[1] matches ServerMessage::RowDescription(d)
                &&& d.fields@ == ps.fields@
                &&& d.format_code == FormatCode::Text
            } else {
                is_error(r, Severity::Error, SqlState::InvalidSQLStatementName)
            }
        },
        ClientMessage::Describe(Describe::Portal(name)) => {
            &&& after.spec_statements() == before.spec_statements()
            &&& after.spec_portals() == before.spec_portals()
            &&& if before.spec_portals().contains_key(name@) {
                match before.spec_portals()[name@] {
                    Some(d) => (r matches Ok(Action::Reply(m)) && m@.len() == 1
                        && (m@[0] matches ServerMessage::RowDescription(e) && e.fields@ == d.fields@
                        && e.format_code == d.format_code)),
                    None => replies(r, seq![ServerMessage::NoData]),
                }
            } else {
                is_error(r, Severity::Error, SqlState::InvalidCursorName)
            }
        },
        ClientMessage::Execute(e) => {
            &&& after.spec_statements() == before.spec_statements()
            &&& after.spec_portals() == before.spec_portals()
            &&& if before.spec_portals().contains_key(e.portal@) {
                match before.spec_portals()[e.portal@] {
                    Some(d) => r matches Ok(Action::ExecutePortal { portal, batch })
                        && portal@ == e.portal@ && batch.spec_format() == d.format_code
                        && batch.spec_num_cols() == d.fields@.len() && batch.spec_num_rows() == 0
                        && batch.spec_data().len() == 0,
                    None => replies(r, seq![ServerMessage::EmptyQueryResponse]),
                }
            } else {
                is_error(r, Severity::Error, SqlState::InvalidCursorName)
            }
        },
        ClientMessage::Query(text) => {
            &&& after.spec_statements() == before.spec_statements()
            &&& after.spec_portals() == before.spec_portals()
            &&& match sql_statement_count(text@) {
                Some(n) => if n == 0 {
                    replies(r, seq![ServerMessage::EmptyQueryResponse, ServerMessage::ReadyForQuery])
                } else if n == 1 {
                    r matches Ok(Action::RunQuery { statement: _ })
                } else {
                    is_error(r, Severity::Error, SqlState::SyntaxError)
                },
                None => is_error(r, Severity::Error, SqlState::SyntaxError),
            }
        },
        ClientMessage::Sync => {
            &&& after.spec_statements() == before.spec_statements()
            &&& after.spec_portals() == before.spec_portals()
            &&& replies(r, seq![ServerMessage::ReadyForQuery])
        },
        ClientMessage::Terminate => {
            &&& after.spec_statements() == before.spec_statements()
            &&& after.spec_portals() == before.spec_portals()
            &&& r matches Ok(Action::Close)
        },
        _ => {
            &&& after.spec_statements() == before.spec_statements()
            &&& after.spec_portals() == before.spec_portals()
            &&& is_error(r, Severity::Error, SqlState::ProtocolViolation)
        },
    }
}

/// Per-session state: where the session is, its prepared statements and its portals.
/// A portal maps to the row description it was bound with, or to `None` when its
/// statement was the empty query.
pub struct Connection {
    state: ConnectionState,
    statements: NameMap<PreparedStatement>,
    portals: NameMap<Option<RowDescription>>,
}

impl Connection {
    pub closed spec fn spec_state(&self) -> ConnectionState {
        self.state
    }

    /// Prepared statements by name.
    pub closed spec fn spec_statements(&self) -> Map<Seq<char>, PreparedStatement> {
        self.statements.view()
    }

    /// Portals by name.
    pub closed spec fn spec_portals(&self) -> Map<Seq<char>, Option<RowDescription>> {
        self.portals.view()
    }

    /// A session awaiting its first frame, with no statements and no portals.
    pub fn new() -> (r: Connection)
        ensures
            r.spec_state() == ConnectionState::Startup,
            r.spec_statements() == Map::<Seq<char>, PreparedStatement>::empty(),
            r.spec_portals() == Map::<Seq<char>, Option<RowDescription>>::empty(),
    {
        Connection { state: ConnectionState::Startup, statements: NameMap::new(), portals: NameMap::new() }
    }

    pub fn state(&self) -> (r: ConnectionState)
        ensures
            r == self.spec_state(),
    {
        self.state
    }

    /// The prepared statement under `name`; InvalidSQLStatementName when there is none.
    pub fn prepared_statement(&self, name: &str) -> (r: Result<&PreparedStatement, ErrorResponse>)
        ensures
            r matches Ok(p) ==> self.spec_statements().contains_key(name@)
                && self.spec_statements()[name@] == *p,
            r is Err <==> !self.spec_statements().contains_key(name@),
            r is Err ==> r->Err_0.severity == Severity::Error && r->Err_0.code
                == SqlState::InvalidSQLStatementName,
    {
        match self.statements.get(name) {
            Some(p) => Ok(p),
            None => Err(ErrorResponse::error(SqlState::InvalidSQLStatementName, "missing statement")),
        }
    }

    /// The portal under `name` (`None` for the empty query); InvalidCursorName when
    /// there is none.
    pub fn portal(&self, name: &str) -> (r: Result<&Option<RowDescription>, ErrorResponse>)
        ensures
            r matches Ok(p) ==> self.spec_portals().contains_key(name@) && self.spec_portals()[name@]
                == *p,
            r is Err <==> !self.spec_portals().contains_key(name@),
            r is Err ==> r->Err_0.severity == Severity::Error && r->Err_0.code == SqlState::InvalidCursorName,
    {
        match self.portals.get(name) {
            Some(p) => Ok(p),
            None => Err(ErrorResponse::error(SqlState::InvalidCursorName, "missing portal")),
        }
    }

    fn startup_replies() -> (r: Vec<ServerMessage>)
        ensures
            is_startup_reply(r@),
    {
        let mut r: Vec<ServerMessage> = Vec::new();
        r.push(ServerMessage::AuthenticationOk);
        r.push(ServerMessage::ParameterStatus { name: "server_version".to_string(), value: "13".to_string() });
        r.push(ServerMessage::ParameterStatus { name: "server_encoding".to_string(), value: "UTF8".to_string() });
        r.push(ServerMessage::ParameterStatus { name: "client_encoding".to_string(), value: "UTF8".to_string() });
        r.push(ServerMessage::ParameterStatus { name: "DateStyle".to_string(), value: "ISO".to_string() });
        r.push(ServerMessage::ParameterStatus { name: "TimeZone".to_string(), value: "UTC".to_string() });
        r.push(ServerMessage::ParameterStatus { name: "integer_datetimes".to_string(), value: "on".to_string() });
        r.push(ServerMessage::ReadyForQuery);
        r
    }

    fn one(m: ServerMessage) -> (r: Vec<ServerMessage>)
        ensures
            r@ == seq![m],
    {
        let mut r: Vec<ServerMessage> = Vec::new();
        r.push(m);
        assert(r@ =~= seq![m]);
        r
    }

    /// Handles one client message.
    ///
    /// In `Startup`: SSLRequest is declined with `'N'`; a StartupMessage gets
    /// AuthenticationOk, the parameter statuses and ReadyForQuery and leads to `Idle`;
    /// a CancelRequest is ignored; anything else is a fatal protocol violation.
    /// In `Idle`: Parse, Bind, Describe, Execute, Query, Sync and Terminate follow the
    /// extended and simple query rules; anything else is a protocol violation.
    #[verifier::rlimit(50)]
    pub fn step(&mut self, msg: ClientMessage) -> (r: Result<Action, ErrorResponse>)
        ensures
            final(self).spec_state() == (if old(self).spec_state() == ConnectionState::Startup
                && msg is Startup && r is Ok { ConnectionState::Idle } else { old(self).spec_state() }),
            old(self).spec_state() == ConnectionState::Startup ==> {
                &&& final(self).spec_statements() == old(self).spec_statements()
                &&& final(self).spec_portals() == old(self).spec_portals()
                &&& match msg {
                    ClientMessage::SSLRequest => replies(r, seq![ServerMessage::SSLResponse(false)]),
                    ClientMessage::Startup(_) => r matches Ok(Action::Reply(m)) && is_startup_reply(m@),
                    ClientMessage::CancelRequest => replies(r, seq![]),
                    _ => is_error(r, Severity::Fatal, SqlState::ProtocolViolation),
                }
            },
            old(self).spec_state() == ConnectionState::Idle ==> idle_step(*old(self), *final(self), msg, r),
    {
        match self.state {
            ConnectionState::Startup => match msg {
                ClientMessage::SSLRequest => Ok(Action::Reply(Self::one(ServerMessage::SSLResponse(false)))),
                ClientMessage::Startup(_) => {
                    self.state = ConnectionState::Idle;
                    Ok(Action::Reply(Self::startup_replies()))
                },
                ClientMessage::CancelRequest => Ok(Action::Reply(Vec::new())),
                _ => Err(ErrorResponse::fatal(SqlState::ProtocolViolation, "expected startup message")),
            },
            ConnectionState::Idle => self.step_idle(msg),
        }
    }

    #[verifier::rlimit(50)]
    fn step_idle(&mut self, msg: ClientMessage) -> (r: Result<Action, ErrorResponse>)
        requires
            old(self).spec_state() == ConnectionState::Idle,
        ensures
            final(self).spec_state() == ConnectionState::Idle,
            idle_step(*old(self), *final(self), msg, r),
    {
        match msg {
            ClientMessage::Parse(p) => {
                let parsed = parse_statement(p.query.as_str());
                match parsed {
                    Err(e) => Err(e),
                    Ok(None) => {
                        let ps = PreparedStatement { statement: None, fields: Vec::new(), parameters: Vec::new() };
                        self.statements.insert(p.prepared_statement_name, ps);
                        Ok(Action::Reply(Self::one(ServerMessage::ParseComplete)))
                    },
                    Ok(Some(statement)) => Ok(Action::Prepare { name: p.prepared_statement_name, statement }),
                }
            },
            ClientMessage::Bind(b) => self.bind(b),
            ClientMessage::Describe(Describe::PreparedStatement(name)) => {
                match self.statements.get(name.as_str()) {
                    None => Err(ErrorResponse::error(SqlState::InvalidSQLStatementName, "missing statement")),
                    Some(ps) => {
                        let mut m: Vec<ServerMessage> = Vec::new();
                        m.push(ServerMessage::ParameterDescription { parameters: duplicate_oids(&ps.parameters) });
                        m.push(
                            ServerMessage::RowDescription(
                                RowDescription { fields: duplicate_fields(&ps.fields), format_code: FormatCode::Text },
                            ),
                        );
                        Ok(Action::Reply(m))
                    },
                }
            },
            ClientMessage::Describe(Describe::Portal(name)) => {
                match self.portals.get(name.as_str()) {
                    None => Err(ErrorResponse::error(SqlState::InvalidCursorName, "missing portal")),
                    Some(Some(d)) => Ok(Action::Reply(Self::one(ServerMessage::RowDescription(d.duplicate())))),
                    Some(None) => Ok(Action::Reply(Self::one(ServerMessage::NoData))),
                }
            },
            ClientMessage::Execute(e) => {
                match self.portals.get(e.portal.as_str()) {
                    None => Err(ErrorResponse::error(SqlState::InvalidCursorName, "missing portal")),
                    Some(Some(d)) => Ok(Action::ExecutePortal { portal: e.portal, batch: DataRowBatch::from_row_desc(d) }),
                    Some(None) => Ok(Action::Reply(Self::one(ServerMessage::EmptyQueryResponse))),
                }
            },
            ClientMessage::Query(text) => {
                match parse_statement(text.as_str()) {
                    Err(e) => Err(e),
                    Ok(None) => {
                        let mut m: Vec<ServerMessage> = Vec::new();
                        m.push(ServerMessage::EmptyQueryResponse);
                        m.push(ServerMessage::ReadyForQuery);
                        assert(m@ =~= seq![ServerMessage::EmptyQueryResponse, ServerMessage::ReadyForQuery]);
                        Ok(Action::Reply(m))
                    },
                    Ok(Some(statement)) => Ok(Action::RunQuery { statement }),
                }
            },
            ClientMessage::Sync => Ok(Action::Reply(Self::one(ServerMessage::ReadyForQuery))),
            ClientMessage::Terminate => Ok(Action::Close),
            _ => Err(ErrorResponse::error(SqlState::ProtocolViolation, "unexpected message")),
        }
    }

    fn bind(&mut self, b: Bind) -> (r: Result<Action, ErrorResponse>)
        ensures
            final(self).spec_state() == old(self).spec_state(),
            final(self).spec_statements() == old(self).spec_statements(),
            match uniform_format(b.result_format) {
                None => is_error(r, Severity::Error, SqlState::FeatureNotSupported)
                    && final(self).spec_portals() == old(self).spec_portals(),
                Some(f) => if !old(self).spec_statements().contains_key(b.prepared_statement_name@) {
                    is_error(r, Severity::Error, SqlState::InvalidSQLStatementName)
                        && final(self).spec_portals() == old(self).spec_portals()
                } else {
                    let ps = old(self).spec_statements()[b.prepared_statement_name@];
                    if ps.statement is None {
                        &&& replies(r, seq![ServerMessage::BindComplete])
                        &&& final(self).spec_portals() == old(self).spec_portals().insert(b.portal@, None)
                    } else if b.parameters@.len() != ps.parameters@.len() {
                        &&& is_error(r, Severity::Error, SqlState::SyntaxError)
                        &&& final(self).spec_portals() == old(self).spec_portals()
                    } else {
                        &&& r matches Ok(Action::BindPortal { portal, statement_name, parameters, row_desc })
                        &&& portal@ == b.portal@
                        &&& statement_name@ == b.prepared_statement_name@
                        &&& parameters@ == b.parameters@
                        &&& row_desc.fields@ == ps.fields@
                        &&& row_desc.format_code == f
                        &&& final(self).spec_portals() == old(self).spec_portals()
                    }
                },
            },
    {
        let format_code = match b.result_format {
            BindFormat::All(f) => f,
            BindFormat::PerColumn(_) => {
                return Err(ErrorResponse::error(SqlState::FeatureNotSupported, "per-column format codes not supported"));
            },
        };
        let (absent, count, fields) = match self.statements.get(b.prepared_statement_name.as_str()) {
            None => {
                return Err(ErrorResponse::error(SqlState::InvalidSQLStatementName, "missing statement"));
            },
            Some(ps) => (ps.statement.is_none(), ps.parameters.len(), duplicate_fields(&ps.fields)),
        };
        if absent {
            self.portals.insert(b.portal, None);
            return Ok(Action::Reply(Self::one(ServerMessage::BindComplete)));
        }
        if b.parameters.len() != count {
            return Err(ErrorResponse::error(SqlState::SyntaxError, "wrong number of parameters for prepared statement"));
        }
        Ok(
            Action::BindPortal {
                portal: b.portal,
                statement_name: b.prepared_statement_name,
                parameters: b.parameters,
                row_desc: RowDescription { fields, format_code },
            },
        )
    }

    /// Records what the engine reported of a statement under `name`, absent lists
    /// counting as empty, and answers ParseComplete.
    pub fn prepared(
        &mut self,
        name: String,
        statement: Statement,
        parameters: Option<Vec<DataTypeOid>>,
        fields: Option<Vec<FieldDescription>>,
    ) -> (r: ServerMessage)
        ensures
            r is ParseComplete,
            final(self).spec_state() == old(self).spec_state(),
            final(self).spec_portals() == old(self).spec_portals(),
            final(self).spec_statements().dom() == old(self).spec_statements().dom().insert(name@),
            forall|k: Seq<char>| k != name@ && old(self).spec_statements().contains_key(k)
                ==> #[trigger] final(self).spec_statements()[k] == old(self).spec_statements()[k],
            final(self).spec_statements()[name@].statement == Some(statement),
            final(self).spec_statements()[name@].parameters@ == match parameters {
                Some(p) => p@,
                None => Seq::<DataTypeOid>::empty(),
            },
            final(self).spec_statements()[name@].fields@ == match fields {
                Some(f) => f@,
                None => Seq::<FieldDescription>::empty(),
            },
    {
        let parameters = match parameters {
            Some(p) => p,
            None => Vec::new(),
        };
        let fields = match fields {
            Some(f) => f,
            None => Vec::new(),
        };
        let ps = PreparedStatement { statement: Some(statement), fields, parameters };
        self.statements.insert(name, ps);
        ServerMessage::ParseComplete
    }

    /// Records a portal that the engine has bound, with the row description `step`
    /// gave for it, and answers BindComplete. Statements are left as they are.
    pub fn bound(&mut self, portal: String, row_desc: RowDescription) -> (r: ServerMessage)
        ensures
            r is BindComplete,
            final(self).spec_state() == old(self).spec_state(),
            final(self).spec_statements() == old(self).spec_statements(),
            final(self).spec_portals() == old(self).spec_portals().insert(portal@, Some(row_desc)),
    {
        self.portals.insert(portal, Some(row_desc));
        ServerMessage::BindComplete
    }

    /// The bytes after the engine has executed a portal into `batch`: its rows, then
    /// `CommandComplete` with `SELECT <rows>`.
    pub fn executed(&self, batch: DataRowBatch) -> (r: Vec<u8>)
        ensures
            r@ == batch.spec_data() + select_complete(batch.spec_num_rows() as nat),
    {
        finish_batch(batch)
    }

    /// The bytes after a simple query fetched `fields` and the rows of `batch`:
    /// RowDescription in text format, the rows, CommandComplete, ReadyForQuery.
    pub fn queried(&self, fields: Vec<FieldDescription>, batch: DataRowBatch) -> (r: Vec<u8>)
        requires
            encodable(ServerMessage::RowDescription(RowDescription { fields, format_code: FormatCode::Text })),
        ensures
            r@ == encode_spec(ServerMessage::RowDescription(RowDescription { fields, format_code: FormatCode::Text }))
                + batch.spec_data() + select_complete(batch.spec_num_rows() as nat) + encode_spec(
                ServerMessage::ReadyForQuery,
            ),
    {
        let ghost desc = ServerMessage::RowDescription(RowDescription { fields, format_code: FormatCode::Text });
        let mut out: Vec<u8> = Vec::new();
        let d = ServerMessage::RowDescription(RowDescription { fields, format_code: FormatCode::Text });
        encode_into(&d, &mut out);
        let rest = finish_batch(batch);
        push_all(&mut out, rest.as_slice());
        let ready = ServerMessage::ReadyForQuery;
        assert(encodable(ready));
        encode_into(&ready, &mut out);
        assert(out@ =~= encode_spec(desc) + batch.spec_data() + select_complete(batch.spec_num_rows() as nat)
            + encode_spec(ServerMessage::ReadyForQuery));
        out
    }

    /// What follows an error: the error itself, then ReadyForQuery and back to `Idle`
    /// when it is not fatal; a fatal one ends the session (`false`).
    pub fn recover(&mut self, e: ErrorResponse) -> (r: (Vec<ServerMessage>, bool))
        ensures
            e.severity == Severity::Fatal ==> r.0@ == seq![ServerMessage::ErrorResponse(e)] && !r.1
                && final(self).spec_state() == old(self).spec_state(),
            e.severity == Severity::Error ==> r.0@ == seq![ServerMessage::ErrorResponse(e), ServerMessage::ReadyForQuery]
                && r.1 && final(self).spec_state() == ConnectionState::Idle,
            final(self).spec_statements() == old(self).spec_statements(),
            final(self).spec_portals() == old(self).spec_portals(),
    {
        let fatal = match e.severity {
            Severity::Fatal => true,
            Severity::Error => false,
        };
        let ghost e0 = e;
        let mut m: Vec<ServerMessage> = Vec::new();
        m.push(ServerMessage::ErrorResponse(e));
        if fatal {
            assert(m@ =~= seq![ServerMessage::ErrorResponse(e0)]);
            (m, false)
        } else {
            m.push(ServerMessage::ReadyForQuery);
            self.state = ConnectionState::Idle;
            assert(m@ =~= seq![ServerMessage::ErrorResponse(e0), ServerMessage::ReadyForQuery]);
            (m, true)
        }
    }
}

/// The fatal error sent before closing on bytes that do not form a message.
pub fn protocol_failure() -> (r: ErrorResponse)
    ensures
        r.severity == Severity::Fatal,
        r.code == SqlState::ConnectionException,
{
    ErrorResponse::fatal(SqlState::ConnectionException, "connection error")
}

} // verus!
