//! Protocol data types and the encoding of the messages a server sends.
use vstd::prelude::*;
use vstd::string::StringSliceAdditionalSpecFns;
use crate::wire::{be_i16, be_i32, be_u32, push_all, push_be_i16, push_be_i32, push_be_u32};

verus! {

/// Selects the text or binary representation of values.
#[derive(Clone, Copy, Debug, PartialEq, Eq, Structural)]
pub enum FormatCode {
    Text,
    Binary,
}

/// A Postgres catalog type identifier.
pub type DataTypeOid = u32;

pub const INT2_OID: u32 = 21;
pub const INT4_OID: u32 = 23;
pub const INT8_OID: u32 = 20;
pub const TEXT_OID: u32 = 25;
pub const BOOL_OID: u32 = 16;
pub const CHAR_OID: u32 = 18;
pub const FLOAT4_OID: u32 = 700;
pub const FLOAT8_OID: u32 = 701;
pub const VARCHAR_OID: u32 = 1043;
pub const DATE_OID: u32 = 1082;
pub const TIME_OID: u32 = 1083;
pub const TIMESTAMP_OID: u32 = 1114;

/// Wire value of a format code.
pub open spec fn format_value(f: FormatCode) -> i16 {
    match f {
        FormatCode::Text => 0,
        FormatCode::Binary => 1,
    }
}

impl FormatCode {
    /// The format code carried by a 16-bit wire value, if it names one.
    pub fn from_wire(v: i16) -> (r: Option<FormatCode>)
        ensures
            r matches Some(f) ==> format_value(f) == v,
            r is None <==> (v != 0 && v != 1),
    {
        if v == 0 {
            Some(FormatCode::Text)
        } else if v == 1 {
            Some(FormatCode::Binary)
        } else {
            None
        }
    }

    pub fn to_wire(&self) -> (r: i16)
        ensures
            r == format_value(*self),
    {
        match self {
            FormatCode::Text => 0,
            FormatCode::Binary => 1,
        }
    }
}

/// Size column of a RowDescription for a type: its fixed width, or -1 when variable.
pub open spec fn type_size_spec(oid: u32) -> i16 {
    if oid == BOOL_OID || oid == CHAR_OID {
        1
    } else if oid == INT2_OID {
        2
    } else if oid == INT4_OID || oid == FLOAT4_OID || oid == DATE_OID {
        4
    } else if oid == INT8_OID || oid == FLOAT8_OID || oid == TIME_OID || oid == TIMESTAMP_OID {
        8
    } else {
        -1i16
    }
}

pub fn type_size(oid: u32) -> (r: i16)
    ensures
        r == type_size_spec(oid),
{
    if oid == BOOL_OID || oid == CHAR_OID {
        1
    } else if oid == INT2_OID {
        2
    } else if oid == INT4_OID || oid == FLOAT4_OID || oid == DATE_OID {
        4
    } else if oid == INT8_OID || oid == FLOAT8_OID || oid == TIME_OID || oid == TIMESTAMP_OID {
        8
    } else {
        -1
    }
}

/// Name and type of one result column.
#[derive(Clone, Debug)]
pub struct FieldDescription {
    pub name: String,
    pub data_type: DataTypeOid,
}

/// The columns of a result, all in one format.
#[derive(Clone, Debug)]
pub struct RowDescription {
    pub fields: Vec<FieldDescription>,
    pub format_code: FormatCode,
}

impl FieldDescription {
    /// An equal copy.
    pub fn duplicate(&self) -> (r: FieldDescription)
        ensures
            r == *self,
    {
        FieldDescription { name: self.name.clone(), data_type: self.data_type }
    }
}

/// An equal copy of a list of fields.
pub fn duplicate_fields(v: &Vec<FieldDescription>) -> (r: Vec<FieldDescription>)
    ensures
        r@ == v@,
{
    let mut r: Vec<FieldDescription> = Vec::new();
    let mut i: usize = 0;
    while i < v.len()
        invariant
            0 <= i <= v@.len(),
            r@ == v@.subrange(0, i as int),
        decreases v@.len() - i,
    {
        r.push(v[i].duplicate());
        i = i + 1;
        assert(r@ =~= v@.subrange(0, i as int));
    }
    assert(v@.subrange(0, v@.len() as int) =~= v@);
    r
}

/// An equal copy of a list of type identifiers.
pub fn duplicate_oids(v: &Vec<DataTypeOid>) -> (r: Vec<DataTypeOid>)
    ensures
        r@ == v@,
{
    let mut r: Vec<DataTypeOid> = Vec::new();
    let mut i: usize = 0;
    while i < v.len()
        invariant
            0 <= i <= v@.len(),
            r@ == v@.subrange(0, i as int),
        decreases v@.len() - i,
    {
        r.push(v[i]);
        i = i + 1;
        assert(r@ =~= v@.subrange(0, i as int));
    }
    assert(v@.subrange(0, v@.len() as int) =~= v@);
    r
}

impl RowDescription {
    /// An equal copy.
    pub fn duplicate(&self) -> (r: RowDescription)
        ensures
            r.fields@ == self.fields@,
            r.format_code == self.format_code,
    {
        RowDescription { fields: duplicate_fields(&self.fields), format_code: self.format_code }
    }
}

/// Bytes that do not form a valid client message.
#[derive(Clone, Copy, Debug, PartialEq, Eq, Structural)]
pub enum ProtocolError {
    /// A length field out of range.
    InvalidLength,
    /// A text field that is not UTF-8.
    InvalidUtf8,
    /// A format code other than 0 and 1.
    InvalidFormatCode,
    /// A frame shorter than its fields.
    Truncated,
    /// A startup frame with an unknown protocol version or code.
    UnsupportedVersion,
}

/// Severity of an error response.
#[derive(Clone, Copy, Debug, PartialEq, Eq, Structural)]
pub enum Severity {
    Error,
    Fatal,
}

/// The SqlState codes this server reports.
#[derive(Clone, Copy, Debug, PartialEq, Eq, Structural)]
pub enum SqlState {
    SuccessfulCompletion,
    FeatureNotSupported,
    InvalidCursorName,
    ConnectionException,
    InvalidSQLStatementName,
    DataException,
    ProtocolViolation,
    SyntaxError,
    InvalidDatetimeFormat,
}

pub open spec fn sqlstate_code(s: SqlState) -> Seq<char> {
    match s {
        SqlState::SuccessfulCompletion => "00000"@,
        SqlState::FeatureNotSupported => "0A000"@,
        SqlState::InvalidCursorName => "34000"@,
        SqlState::ConnectionException => "08000"@,
        SqlState::InvalidSQLStatementName => "26000"@,
        SqlState::DataException => "22000"@,
        SqlState::ProtocolViolation => "08P01"@,
        SqlState::SyntaxError => "42601"@,
        SqlState::InvalidDatetimeFormat => "22007"@,
    }
}

impl SqlState {
    /// The five-character code of this state.
    pub fn code(&self) -> (r: &'static str)
        ensures
            r@ == sqlstate_code(*self),
    {
        match self {
            SqlState::SuccessfulCompletion => "00000",
            SqlState::FeatureNotSupported => "0A000",
            SqlState::InvalidCursorName => "34000",
            SqlState::ConnectionException => "08000",
            SqlState::InvalidSQLStatementName => "26000",
            SqlState::DataException => "22000",
            SqlState::ProtocolViolation => "08P01",
            SqlState::SyntaxError => "42601",
            SqlState::InvalidDatetimeFormat => "22007",
        }
    }
}

pub open spec fn severity_text(s: Severity) -> Seq<char> {
    match s {
        Severity::Error => "ERROR"@,
        Severity::Fatal => "FATAL"@,
    }
}

impl Severity {
    pub fn text(&self) -> (r: &'static str)
        ensures
            r@ == severity_text(*self),
    {
        match self {
            Severity::Error => "ERROR",
            Severity::Fatal => "FATAL",
        }
    }
}

/// An error reported to the client: severity, SqlState code and a message.
#[derive(Clone, Debug)]
pub struct ErrorResponse {
    pub severity: Severity,
    pub code: SqlState,
    pub message: String,
}

impl ErrorResponse {
    /// A non-fatal error: the session continues after it.
    pub fn error(code: SqlState, message: &str) -> (r: ErrorResponse)
        ensures
            r.severity == Severity::Error,
            r.code == code,
            r.message@ == message@,
    {
        ErrorResponse { severity: Severity::Error, code, message: message.to_string() }
    }

    /// A fatal error: the session ends after it.
    pub fn fatal(code: SqlState, message: &str) -> (r: ErrorResponse)
        ensures
            r.severity == Severity::Fatal,
            r.code == code,
            r.message@ == message@,
    {
        ErrorResponse { severity: Severity::Fatal, code, message: message.to_string() }
    }
}

/// Messages a server sends.
#[derive(Clone, Debug)]
pub enum ServerMessage {
    AuthenticationOk,
    ParameterStatus { name: String, value: String },
    ReadyForQuery,
    ParseComplete,
    BindComplete,
    NoData,
    EmptyQueryResponse,
    ParameterDescription { parameters: Vec<DataTypeOid> },
    RowDescription(RowDescription),
    CommandComplete { command_tag: String },
    ErrorResponse(ErrorResponse),
    SSLResponse(bool),
}

/// UTF-8 bytes of a string followed by a NUL.
pub open spec fn cstr(s: Seq<char>) -> Seq<u8> {
    vstd::utf8::encode_utf8(s).push(0u8)
}

/// A regular frame: tag byte, length (counting itself) and payload.
pub open spec fn frame(tag: u8, payload: Seq<u8>) -> Seq<u8> {
    seq![tag] + be_i32((payload.len() + 4) as i32) + payload
}

pub open spec fn oids_bytes(oids: Seq<u32>) -> Seq<u8>
    decreases oids.len(),
{
    if oids.len() == 0 {
        seq![]
    } else {
        oids_bytes(oids.drop_last()) + be_u32(oids.last())
    }
}

pub open spec fn field_bytes(f: FieldDescription, fmt: FormatCode) -> Seq<u8> {
    cstr(f.name@) + be_i32(0) + be_i16(0) + be_u32(f.data_type) + be_i16(type_size_spec(f.data_type))
        + be_i32(-1i32) + be_i16(format_value(fmt))
}

pub open spec fn fields_bytes(fs: Seq<FieldDescription>, fmt: FormatCode) -> Seq<u8>
    decreases fs.len(),
{
    if fs.len() == 0 {
        seq![]
    } else {
        fields_bytes(fs.drop_last(), fmt) + field_bytes(fs.last(), fmt)
    }
}

pub open spec fn row_description_payload(d: RowDescription) -> Seq<u8> {
    be_i16(d.fields@.len() as i16) + fields_bytes(d.fields@, d.format_code)
}

pub open spec fn error_payload(e: ErrorResponse) -> Seq<u8> {
    seq![83u8] + cstr(severity_text(e.severity)) + seq![67u8] + cstr(sqlstate_code(e.code)) + seq![77u8]
        + cstr(e.message@) + seq![0u8]
}

/// Tag byte of each framed message.
pub open spec fn message_tag(m: ServerMessage) -> u8 {
    match m {
        ServerMessage::AuthenticationOk => 82,
        ServerMessage::ParameterStatus { .. } => 83,
        ServerMessage::ReadyForQuery => 90,
        ServerMessage::ParseComplete => 49,
        ServerMessage::BindComplete => 50,
        ServerMessage::NoData => 110,
        ServerMessage::EmptyQueryResponse => 73,
        ServerMessage::ParameterDescription { .. } => 116,
        ServerMessage::RowDescription(_) => 84,
        ServerMessage::CommandComplete { .. } => 67,
        ServerMessage::ErrorResponse(_) => 69,
        ServerMessage::SSLResponse(_) => 0,
    }
}

/// Payload of each framed message.
pub open spec fn message_payload(m: ServerMessage) -> Seq<u8> {
    match m {
        ServerMessage::AuthenticationOk => be_i32(0),
        ServerMessage::ParameterStatus { name, value } => cstr(name@) + cstr(value@),
        ServerMessage::ReadyForQuery => seq![73u8],
        ServerMessage::ParameterDescription { parameters } => be_i16(parameters@.len() as i16)
            + oids_bytes(parameters@),
        ServerMessage::RowDescription(d) => row_description_payload(d),
        ServerMessage::CommandComplete { command_tag } => cstr(command_tag@),
        ServerMessage::ErrorResponse(e) => error_payload(e),
        _ => seq![],
    }
}

/// The bytes of a server message on the wire.
pub open spec fn encode_spec(m: ServerMessage) -> Seq<u8> {
    match m {
        ServerMessage::SSLResponse(accept) => seq![if accept { 83u8 } else { 78u8 }],
        _ => frame(message_tag(m), message_payload(m)),
    }
}

/// Whether every count and length of the message fits its wire field.
pub open spec fn encodable(m: ServerMessage) -> bool {
    &&& message_payload(m).len() + 4 <= i32::MAX
    &&& match m {
        ServerMessage::ParameterDescription { parameters } => parameters@.len() <= i16::MAX,
        ServerMessage::RowDescription(d) => d.fields@.len() <= i16::MAX,
        _ => true,
    }
}

pub fn push_cstr(out: &mut Vec<u8>, s: &str)
    ensures
        final(out)@ == old(out)@ + cstr(s@),
{
    push_all(out, s.as_bytes());
    out.push(0u8);
    assert(final(out)@ =~= old(out)@ + cstr(s@));
}

fn push_oids(out: &mut Vec<u8>, oids: &Vec<u32>)
    ensures
        final(out)@ == old(out)@ + oids_bytes(oids@),
{
    let mut i: usize = 0;
    while i < oids.len()
        invariant
            0 <= i <= oids@.len(),
            out@ == old(out)@ + oids_bytes(oids@.subrange(0, i as int)),
        decreases oids@.len() - i,
    {
        let ghost before = out@;
        push_be_u32(out, oids[i]);
        assert(oids@.subrange(0, i + 1).drop_last() =~= oids@.subrange(0, i as int));
        i = i + 1;
        assert(out@ =~= old(out)@ + oids_bytes(oids@.subrange(0, i as int)));
    }
    assert(oids@.subrange(0, oids@.len() as int) =~= oids@);
}

fn push_field(out: &mut Vec<u8>, f: &FieldDescription, fmt: FormatCode)
    ensures
        final(out)@ == old(out)@ + field_bytes(*f, fmt),
{
    push_cstr(out, f.name.as_str());
    push_be_i32(out, 0);
    push_be_i16(out, 0);
    push_be_u32(out, f.data_type);
    push_be_i16(out, type_size(f.data_type));
    push_be_i32(out, -1);
    push_be_i16(out, fmt.to_wire());
    assert(final(out)@ =~= old(out)@ + field_bytes(*f, fmt));
}

fn push_fields(out: &mut Vec<u8>, fs: &Vec<FieldDescription>, fmt: FormatCode)
    ensures
        final(out)@ == old(out)@ + fields_bytes(fs@, fmt),
{
    let mut i: usize = 0;
    while i < fs.len()
        invariant
            0 <= i <= fs@.len(),
            out@ == old(out)@ + fields_bytes(fs@.subrange(0, i as int), fmt),
        decreases fs@.len() - i,
    {
        push_field(out, &fs[i], fmt);
        assert(fs@.subrange(0, i + 1).drop_last() =~= fs@.subrange(0, i as int));
        i = i + 1;
        assert(out@ =~= old(out)@ + fields_bytes(fs@.subrange(0, i as int), fmt));
    }
    assert(fs@.subrange(0, fs@.len() as int) =~= fs@);
}

fn payload(m: &ServerMessage) -> (r: Vec<u8>)
    ensures
        r@ == message_payload(*m),
{
    let mut out: Vec<u8> = Vec::new();
    match m {
        ServerMessage::AuthenticationOk => push_be_i32(&mut out, 0),
        ServerMessage::ParameterStatus { name, value } => {
            push_cstr(&mut out, name.as_str());
            push_cstr(&mut out, value.as_str());
        },
        ServerMessage::ReadyForQuery => out.push(73u8),
        ServerMessage::ParameterDescription { parameters } => {
            push_be_i16(&mut out, parameters.len() as i16);
            push_oids(&mut out, parameters);
        },
        ServerMessage::RowDescription(d) => {
            push_be_i16(&mut out, d.fields.len() as i16);
            push_fields(&mut out, &d.fields, d.format_code);
        },
        ServerMessage::CommandComplete { command_tag } => push_cstr(&mut out, command_tag.as_str()),
        ServerMessage::ErrorResponse(e) => {
            out.push(83u8);
            push_cstr(&mut out, e.severity.text());
            out.push(67u8);
            push_cstr(&mut out, e.code.code());
            out.push(77u8);
            push_cstr(&mut out, e.message.as_str());
            out.push(0u8);
        },
        _ => {},
    }
    assert(out@ =~= message_payload(*m));
    out
}

fn tag(m: &ServerMessage) -> (r: u8)
    ensures
        r == message_tag(*m),
{
    match m {
        ServerMessage::AuthenticationOk => 82,
        ServerMessage::ParameterStatus { .. } => 83,
        ServerMessage::ReadyForQuery => 90,
        ServerMessage::ParseComplete => 49,
        ServerMessage::BindComplete => 50,
        ServerMessage::NoData => 110,
        ServerMessage::EmptyQueryResponse => 73,
        ServerMessage::ParameterDescription { .. } => 116,
        ServerMessage::RowDescription(_) => 84,
        ServerMessage::CommandComplete { .. } => 67,
        ServerMessage::ErrorResponse(_) => 69,
        ServerMessage::SSLResponse(_) => 0,
    }
}

/// Whether every count and length of `m` fits its wire field, so that it can be encoded.
pub fn is_encodable(m: &ServerMessage) -> (r: bool)
    ensures
        r == encodable(*m),
{
    let body = payload(m);
    if body.len() > 2147483643 {
        return false;
    }
    match m {
        ServerMessage::ParameterDescription { parameters } => parameters.len() <= 32767,
        ServerMessage::RowDescription(d) => d.fields.len() <= 32767,
        _ => true,
    }
}

/// Appends the wire bytes of `m` to `out`.
pub fn encode_into(m: &ServerMessage, out: &mut Vec<u8>)
    requires
        encodable(*m),
    ensures
        final(out)@ == old(out)@ + encode_spec(*m),
{
    match m {
        ServerMessage::SSLResponse(accept) => {
            out.push(if *accept { 83u8 } else { 78u8 });
            assert(final(out)@ =~= old(out)@ + encode_spec(*m));
        },
        _ => {
            let body = payload(m);
            out.push(tag(m));
            push_be_i32(out, (body.len() + 4) as i32);
            push_all(out, body.as_slice());
            assert(final(out)@ =~= old(out)@ + encode_spec(*m));
        },
    }
}

/// The wire bytes of `m`.
pub fn encode(m: &ServerMessage) -> (r: Vec<u8>)
    requires
        encodable(*m),
    ensures
        r@ == encode_spec(*m),
{
    let mut out: Vec<u8> = Vec::new();
    encode_into(m, &mut out);
    assert(out@ =~= encode_spec(*m));
    out
}

/// Format codes of a Bind: one for all values, or one per value.
#[derive(Clone, Debug)]
pub enum BindFormat {
    All(FormatCode),
    PerColumn(Vec<FormatCode>),
}

/// Which namespace a Describe or Close refers to.
#[derive(Clone, Debug)]
pub enum Describe {
    Portal(String),
    PreparedStatement(String),
}

/// A Parse message.
#[derive(Clone, Debug)]
pub struct Parse {
    pub prepared_statement_name: String,
    pub query: String,
    pub parameter_types: Vec<DataTypeOid>,
}

/// A Bind message; a `None` parameter is NULL.
#[derive(Clone, Debug)]
pub struct Bind {
    pub portal: String,
    pub prepared_statement_name: String,
    pub parameter_formats: BindFormat,
    pub parameters: Vec<Option<Vec<u8>>>,
    pub result_format: BindFormat,
}

/// An Execute message.
#[derive(Clone, Debug)]
pub struct Execute {
    pub portal: String,
    pub max_rows: i32,
}

/// A StartupMessage: protocol version and its key/value parameters.
#[derive(Clone, Debug)]
pub struct Startup {
    pub protocol_major: i16,
    pub protocol_minor: i16,
    pub parameters: Vec<(String, String)>,
}

/// Messages a client sends.
#[derive(Clone, Debug)]
pub enum ClientMessage {
    SSLRequest,
    CancelRequest,
    Startup(Startup),
    Parse(Parse),
    Describe(Describe),
    Bind(Bind),
    Sync,
    Execute(Execute),
    Query(String),
    Terminate,
    Close(Describe),
    Flush,
    Unknown(u8),
}

} // verus!
