//! Decoding of the frames a client sends.
//!
//! Each decoder takes the bytes received so far and returns `Ok(None)` while the
//! next frame is incomplete, or the message and the number of bytes it took.
use vstd::prelude::*;
use crate::protocol::{
    cstr, format_value, frame, Bind, BindFormat, ClientMessage, DataTypeOid, Describe, Execute, FormatCode, Parse,
    ProtocolError, Startup,
};
use crate::wire::{be_i16, be_i32, be_u16, be_u32};

verus! {

/// Relies on std's `String::from_utf8`: the bytes as a string exactly when they are
/// valid UTF-8.
#[verifier::external_body]
fn utf8_string(b: &[u8]) -> (r: Option<String>)
    ensures
        r is Some <==> vstd::utf8::valid_utf8(b@),
        r is Some ==> vstd::utf8::encode_utf8(r->Some_0@) == b@,
{
    String::from_utf8(b.to_vec()).ok()
}

/// The bytes of a Describe or Close target: `S` or `P`, then the name.
pub open spec fn target_bytes(d: Describe) -> Seq<u8> {
    match d {
        Describe::PreparedStatement(n) => seq![83u8] + cstr(n@),
        Describe::Portal(n) => seq![80u8] + cstr(n@),
    }
}

pub open spec fn oid_list_bytes(oids: Seq<DataTypeOid>) -> Seq<u8>
    decreases oids.len(),
{
    if oids.len() == 0 {
        seq![]
    } else {
        oid_list_bytes(oids.drop_last()) + be_u32(oids.last())
    }
}

/// Tag byte of a client message.
pub open spec fn client_tag(m: ClientMessage) -> u8 {
    match m {
        ClientMessage::Query(_) => 81u8,
        ClientMessage::Sync => 83u8,
        ClientMessage::Terminate => 88u8,
        ClientMessage::Flush => 72u8,
        ClientMessage::Execute(_) => 69u8,
        ClientMessage::Describe(_) => 68u8,
        ClientMessage::Close(_) => 67u8,
        ClientMessage::Parse(_) => 80u8,
        ClientMessage::Bind(_) => 66u8,
        _ => 0u8,
    }
}

/// Payload of a client message, for the messages that carry no Bind or startup payload.
pub open spec fn client_payload(m: ClientMessage) -> Seq<u8> {
    match m {
        ClientMessage::Query(t) => cstr(t@),
        ClientMessage::Execute(e) => cstr(e.portal@) + be_i32(e.max_rows),
        ClientMessage::Describe(d) => target_bytes(d),
        ClientMessage::Close(d) => target_bytes(d),
        ClientMessage::Parse(p) => cstr(p.prepared_statement_name@) + cstr(p.query@) + be_i16(
            p.parameter_types@.len() as i16,
        ) + oid_list_bytes(p.parameter_types@),
        ClientMessage::Bind(b) => bind_payload(b),
        _ => seq![],
    }
}

/// The wire bytes of a client message, for the messages that carry no Bind or
/// startup payload.
pub open spec fn client_bytes(m: ClientMessage) -> Seq<u8> {
    if framed_simply(m) {
        frame(client_tag(m), client_payload(m))
    } else {
        seq![]
    }
}

pub open spec fn target_name(d: Describe) -> Seq<char> {
    match d {
        Describe::PreparedStatement(n) => n@,
        Describe::Portal(n) => n@,
    }
}

pub open spec fn same_target(a: Describe, b: Describe) -> bool {
    match (a, b) {
        (Describe::PreparedStatement(x), Describe::PreparedStatement(y)) => x@ == y@,
        (Describe::Portal(x), Describe::Portal(y)) => x@ == y@,
        _ => false,
    }
}

/// Messages that a frame carries whole: their strings hold no NUL and their
/// length fits the length field.
pub open spec fn round_trips(m: ClientMessage) -> bool {
    &&& client_payload(m).len() + 4 <= i32::MAX
    &&& match m {
        ClientMessage::Query(t) => nul_free(t@),
        ClientMessage::Sync | ClientMessage::Terminate | ClientMessage::Flush => true,
        ClientMessage::Execute(e) => nul_free(e.portal@),
        ClientMessage::Describe(d) => nul_free(target_name(d)),
        ClientMessage::Close(d) => nul_free(target_name(d)),
        ClientMessage::Parse(p) => parse_round_trips(p),
        ClientMessage::Bind(b) => bind_round_trips(b),
        _ => false,
    }
}

/// Two messages with the same kind and the same contents.
pub open spec fn same_message(a: ClientMessage, b: ClientMessage) -> bool {
    match (a, b) {
        (ClientMessage::Query(x), ClientMessage::Query(y)) => x@ == y@,
        (ClientMessage::Sync, ClientMessage::Sync) => true,
        (ClientMessage::Terminate, ClientMessage::Terminate) => true,
        (ClientMessage::Flush, ClientMessage::Flush) => true,
        (ClientMessage::Execute(x), ClientMessage::Execute(y)) => x.portal@ == y.portal@ && x.max_rows
            == y.max_rows,
        (ClientMessage::Describe(x), ClientMessage::Describe(y)) => same_target(x, y),
        (ClientMessage::Close(x), ClientMessage::Close(y)) => same_target(x, y),
        (ClientMessage::Parse(x), ClientMessage::Parse(y)) => same_parse(x, y),
        (ClientMessage::Bind(x), ClientMessage::Bind(y)) => same_bind(x, y),
        _ => false,
    }
}

/// Whether `client_bytes` covers the message.
pub open spec fn framed_simply(m: ClientMessage) -> bool {
    match m {
        ClientMessage::Query(_) | ClientMessage::Sync | ClientMessage::Terminate | ClientMessage::Flush
        | ClientMessage::Execute(_) | ClientMessage::Describe(_) | ClientMessage::Close(_)
        | ClientMessage::Parse(_) | ClientMessage::Bind(_) => true,
        _ => false,
    }
}

proof fn lemma_be_u32(a: u8, b: u8, c: u8, d: u8)
    ensures
        be_u32(((a as u32) << 24u32) | ((b as u32) << 16u32) | ((c as u32) << 8u32) | (d as u32))
            == seq![a, b, c, d],
{
    let v = ((a as u32) << 24u32) | ((b as u32) << 16u32) | ((c as u32) << 8u32) | (d as u32);
    assert((v >> 24u32) as u8 == a) by (bit_vector)
        requires
            v == ((a as u32) << 24u32) | ((b as u32) << 16u32) | ((c as u32) << 8u32) | (d as u32),
    ;
    assert(((v >> 16u32) & 0xffu32) as u8 == b) by (bit_vector)
        requires
            v == ((a as u32) << 24u32) | ((b as u32) << 16u32) | ((c as u32) << 8u32) | (d as u32),
    ;
    assert(((v >> 8u32) & 0xffu32) as u8 == c) by (bit_vector)
        requires
            v == ((a as u32) << 24u32) | ((b as u32) << 16u32) | ((c as u32) << 8u32) | (d as u32),
    ;
    assert((v & 0xffu32) as u8 == d) by (bit_vector)
        requires
            v == ((a as u32) << 24u32) | ((b as u32) << 16u32) | ((c as u32) << 8u32) | (d as u32),
    ;
    assert(be_u32(v) =~= seq![a, b, c, d]);
}

proof fn lemma_be_u16(a: u8, b: u8)
    ensures
        be_u16((((a as u16) << 8u16) | (b as u16)) as u16) == seq![a, b],
{
    let v = (((a as u16) << 8u16) | (b as u16)) as u16;
    assert((v >> 8u16) as u8 == a) by (bit_vector)
        requires
            v == (((a as u16) << 8u16) | (b as u16)) as u16,
    ;
    assert((v & 0xffu16) as u8 == b) by (bit_vector)
        requires
            v == (((a as u16) << 8u16) | (b as u16)) as u16,
    ;
    assert(be_u16(v) =~= seq![a, b]);
}

/// The big-endian u32 at `p`.
fn read_u32_at(buf: &[u8], p: usize) -> (r: u32)
    requires
        p + 4 <= buf@.len(),
    ensures
        be_u32(r) == buf@.subrange(p as int, p + 4),
{
    let r = ((buf[p] as u32) << 24u32) | ((buf[p + 1] as u32) << 16u32) | ((buf[p + 2] as u32) << 8u32)
        | (buf[p + 3] as u32);
    proof {
        lemma_be_u32(buf@[p as int], buf@[p + 1], buf@[p + 2], buf@[p + 3]);
        assert(buf@.subrange(p as int, p + 4) =~= seq![buf@[p as int], buf@[p + 1], buf@[p + 2], buf@[p + 3]]);
    }
    r
}

fn read_i32_at(buf: &[u8], p: usize) -> (r: i32)
    requires
        p + 4 <= buf@.len(),
    ensures
        be_i32(r) == buf@.subrange(p as int, p + 4),
{
    let u = read_u32_at(buf, p);
    let r = #[verifier::truncate] (u as i32);
    assert(r as u32 == u) by (bit_vector)
        requires
            r == u as i32,
    ;
    r
}

fn read_i16_at(buf: &[u8], p: usize) -> (r: i16)
    requires
        p + 2 <= buf@.len(),
    ensures
        be_i16(r) == buf@.subrange(p as int, p + 2),
{
    let u = (((buf[p] as u16) << 8u16) | (buf[p + 1] as u16)) as u16;
    proof {
        lemma_be_u16(buf@[p as int], buf@[p + 1]);
        assert(buf@.subrange(p as int, p + 2) =~= seq![buf@[p as int], buf@[p + 1]]);
    }
    let r = #[verifier::truncate] (u as i16);
    assert(r as u16 == u) by (bit_vector)
        requires
            r == u as i16,
    ;
    r
}

/// The NUL-terminated UTF-8 string starting at `p`, ending before `end`, and the
/// position after its NUL.
fn read_cstr(buf: &[u8], p: usize, end: usize) -> (r: Result<(String, usize), ProtocolError>)
    requires
        p <= end <= buf@.len(),
    ensures
        r matches Ok((s, q)) ==> p < q <= end && buf@.subrange(p as int, q as int) == cstr(s@),
        forall|t: Seq<char>|
            nul_free(t) && p + cstr(t).len() <= end && #[trigger] buf@.subrange(p as int, p + cstr(t).len())
                == cstr(t) ==> (r matches Ok((s, q)) && s@ == t && q == p + cstr(t).len()),
{
    let mut i: usize = p;
    while i < end && buf[i] != 0u8
        invariant
            p <= i <= end <= buf@.len(),
            forall|k: int| p <= k < i ==> buf@[k] != 0,
        decreases end - i,
    {
        i = i + 1;
    }
    assert forall|t: Seq<char>|
        nul_free(t) && p + cstr(t).len() <= end && #[trigger] buf@.subrange(p as int, p + cstr(t).len()) == cstr(
            t,
        ) implies i == p + vstd::utf8::encode_utf8(t).len() by {
        let e = vstd::utf8::encode_utf8(t);
        assert(buf@[p + e.len()] == buf@.subrange(p as int, p + cstr(t).len())[e.len() as int]);
        if i < p + e.len() {
            assert(buf@[i as int] == buf@.subrange(p as int, p + cstr(t).len())[i - p]);
            assert(buf@[i as int] != 0);
        }
    }
    if i >= end {
        return Err(ProtocolError::Truncated);
    }
    let mut bytes: Vec<u8> = Vec::new();
    let mut j: usize = p;
    while j < i
        invariant
            p <= j <= i < end <= buf@.len(),
            bytes@ == buf@.subrange(p as int, j as int),
        decreases i - j,
    {
        bytes.push(buf[j]);
        j = j + 1;
        assert(bytes@ =~= buf@.subrange(p as int, j as int));
    }
    assert forall|t: Seq<char>|
        nul_free(t) && p + cstr(t).len() <= end && #[trigger] buf@.subrange(p as int, p + cstr(t).len()) == cstr(
            t,
        ) implies bytes@ == vstd::utf8::encode_utf8(t) && vstd::utf8::valid_utf8(bytes@) by {
        assert(bytes@ =~= buf@.subrange(p as int, p + cstr(t).len()).drop_last());
        assert(cstr(t).drop_last() =~= vstd::utf8::encode_utf8(t));
        vstd::utf8::encode_utf8_valid_utf8(t);
    }
    match utf8_string(bytes.as_slice()) {
        None => Err(ProtocolError::InvalidUtf8),
        Some(s) => {
            assert(buf@.subrange(p as int, i + 1) =~= cstr(s@));
            assert forall|t: Seq<char>|
                nul_free(t) && p + cstr(t).len() <= end && #[trigger] buf@.subrange(p as int, p + cstr(t).len())
                    == cstr(t) implies s@ == t by {
                vstd::utf8::encode_utf8_decode_utf8(t);
                vstd::utf8::encode_utf8_decode_utf8(s@);
            }
            Ok((s, i + 1))
        },
    }
}

/// A string whose UTF-8 bytes hold no NUL, so that it can travel NUL-terminated.
pub open spec fn nul_free(t: Seq<char>) -> bool {
    forall|k: int| 0 <= k < vstd::utf8::encode_utf8(t).len() ==> vstd::utf8::encode_utf8(t)[k] != 0
}

fn read_target(buf: &[u8], p: usize, end: usize) -> (r: Result<Describe, ProtocolError>)
    requires
        p <= end <= buf@.len(),
    ensures
        r matches Ok(d) ==> buf@.subrange(p as int, end as int) == target_bytes(d),
        forall|d: Describe|
            nul_free(target_name(d)) && #[trigger] target_bytes(d) == buf@.subrange(p as int, end as int) ==> (
            r matches Ok(x) && same_target(x, d)),
{
    if p >= end {
        assert forall|d: Describe|
            nul_free(target_name(d)) && #[trigger] target_bytes(d) == buf@.subrange(p as int, end as int) implies false by {
            assert(target_bytes(d).len() >= 1);
        }
        return Err(ProtocolError::Truncated);
    }
    let kind = buf[p];
    proof {
        assert forall|d: Describe|
            nul_free(target_name(d)) && #[trigger] target_bytes(d) == buf@.subrange(p as int, end as int) implies
            buf@.subrange(p + 1, p + 1 + cstr(target_name(d)).len()) == cstr(target_name(d)) && p + 1 + cstr(
            target_name(d)).len() == end && kind == (if d is PreparedStatement { 83u8 } else { 80u8 }) by {
            assert(buf@.subrange(p + 1, end as int) =~= target_bytes(d).drop_first());
            assert(target_bytes(d).drop_first() =~= cstr(target_name(d)));
            assert(kind == target_bytes(d)[0]);
        }
    }
    let (name, q) = match read_cstr(buf, p + 1, end) {
        Ok(x) => x,
        Err(e) => {
            return Err(e);
        },
    };
    if q != end {
        return Err(ProtocolError::InvalidLength);
    }
    let d = if kind == 83u8 {
        Describe::PreparedStatement(name)
    } else if kind == 80u8 {
        Describe::Portal(name)
    } else {
        return Err(ProtocolError::Truncated);
    };
    assert(buf@.subrange(p as int, end as int) =~= seq![kind] + buf@.subrange(p + 1, end as int));
    Ok(d)
}

fn read_format(buf: &[u8], p: usize) -> (r: Result<FormatCode, ProtocolError>)
    requires
        p + 2 <= buf@.len(),
    ensures
        forall|f: FormatCode| #[trigger] be_i16(format_value(f)) == buf@.subrange(p as int, p + 2) ==> r == Ok::<
            FormatCode,
            ProtocolError,
        >(f),        r matches Ok(f) ==> be_i16(format_value(f)) == buf@.subrange(p as int, p + 2),
{
    let v = read_i16_at(buf, p);
    proof {
        assert forall|f: FormatCode| #[trigger] be_i16(format_value(f)) == buf@.subrange(p as int, p + 2) implies v
            == format_value(f) by {
            lemma_be_i16_injective(v, format_value(f));
        }
    }
    match FormatCode::from_wire(v) {
        Some(f) => Ok(f),
        None => Err(ProtocolError::InvalidFormatCode),
    }
}

/// The codes a Bind's format field lists.
pub open spec fn format_list(f: BindFormat) -> Seq<FormatCode> {
    match f {
        BindFormat::All(c) => seq![c],
        BindFormat::PerColumn(v) => v@,
    }
}

pub open spec fn codes_bytes(v: Seq<FormatCode>) -> Seq<u8>
    decreases v.len(),
{
    if v.len() == 0 {
        seq![]
    } else {
        codes_bytes(v.drop_last()) + be_i16(format_value(v.last()))
    }
}

/// A Bind format field: the count, then the codes.
pub open spec fn formats_bytes(f: BindFormat) -> Seq<u8> {
    be_i16(format_list(f).len() as i16) + codes_bytes(format_list(f))
}

/// A format field that decodes back to itself: one code, or codes that differ.
pub open spec fn formats_round_trip(f: BindFormat) -> bool {
    match f {
        BindFormat::All(_) => true,
        BindFormat::PerColumn(v) => v@.len() <= i16::MAX && exists|i: int| 0 <= i < v@.len() && #[trigger] v@[i] != v@[0],
    }
}

pub open spec fn same_format(a: BindFormat, b: BindFormat) -> bool {
    match (a, b) {
        (BindFormat::All(x), BindFormat::All(y)) => x == y,
        (BindFormat::PerColumn(x), BindFormat::PerColumn(y)) => x@ == y@,
        _ => false,
    }
}

proof fn lemma_codes_len(v: Seq<FormatCode>)
    ensures
        codes_bytes(v).len() == 2 * v.len(),
    decreases v.len(),
{
    if v.len() > 0 {
        lemma_codes_len(v.drop_last());
    }
}

proof fn lemma_codes_at(v: Seq<FormatCode>, i: int)
    requires
        0 <= i < v.len(),
    ensures
        codes_bytes(v).subrange(2 * i, 2 * i + 2) == be_i16(format_value(v[i])),
    decreases v.len(),
{
    lemma_codes_len(v.drop_last());
    if i == v.len() - 1 {
        assert(codes_bytes(v).subrange(2 * i, 2 * i + 2) =~= be_i16(format_value(v[i])));
    } else {
        lemma_codes_at(v.drop_last(), i);
        assert(codes_bytes(v).subrange(2 * i, 2 * i + 2) =~= codes_bytes(v.drop_last()).subrange(2 * i, 2 * i + 2));
    }
}

/// A list of format codes at `p` (count, then codes), collapsed to one code when
/// it is empty (text) or uniform.
#[verifier::rlimit(40)]
fn read_formats(buf: &[u8], p: usize, end: usize) -> (r: Result<(BindFormat, usize), ProtocolError>)
    requires
        p <= end <= buf@.len(),
    ensures
        r matches Ok((_, q)) ==> p + 2 <= q <= end && (q - p) % 2 == 0 && buf@.subrange(p as int, p + 2) == be_i16(
            ((q - p - 2) / 2) as i16,
        ),
        r matches Ok((BindFormat::All(c), q)) ==> (q == p + 2 ==> c == FormatCode::Text) && forall|k: int|
            0 <= k < (q - p - 2) / 2 ==> #[trigger] buf@.subrange(p + 2 + 2 * k, p + 4 + 2 * k) == be_i16(
                format_value(c),
            ),
        r matches Ok((BindFormat::PerColumn(v), q)) ==> q == p + 2 + 2 * v@.len(),
        r is Ok && r->Ok_0.0 is PerColumn ==> !(forall|i: int|
            0 <= i < r->Ok_0.0->PerColumn_0@.len() ==> #[trigger] r->Ok_0.0->PerColumn_0@[i]
                == r->Ok_0.0->PerColumn_0@[0]),
        r matches Ok((BindFormat::PerColumn(v), q)) ==> forall|k: int|
            0 <= k < v@.len() ==> #[trigger] buf@.subrange(p + 2 + 2 * k, p + 4 + 2 * k) == be_i16(
                format_value(v@[k]),
            ),
        forall|f: BindFormat|
            formats_round_trip(f) && p + formats_bytes(f).len() <= end && #[trigger] buf@.subrange(
                p as int,
                p + formats_bytes(f).len(),
            ) == formats_bytes(f) ==> (r matches Ok((g, q)) && q == p + formats_bytes(f).len() && same_format(
                g,
                f,
            )),
{
    proof {
        assert forall|f: BindFormat|
            formats_round_trip(f) && p + formats_bytes(f).len() <= end && #[trigger] buf@.subrange(
                p as int,
                p + formats_bytes(f).len(),
            ) == formats_bytes(f) implies p + 2 + 2 * format_list(f).len() <= end && buf@.subrange(p as int, p + 2)
            == be_i16(format_list(f).len() as i16) && forall|i: int|
            0 <= i < format_list(f).len() ==> #[trigger] buf@.subrange(p + 2 + 2 * i, p + 2 + 2 * i + 2) == be_i16(
                format_value(format_list(f)[i]),
            ) by {
            let fb = formats_bytes(f);
            lemma_codes_len(format_list(f));
            assert(buf@.subrange(p as int, p + 2) =~= fb.subrange(0, 2));
            assert forall|i: int| 0 <= i < format_list(f).len() implies #[trigger] buf@.subrange(
                p + 2 + 2 * i,
                p + 2 + 2 * i + 2,
            ) == be_i16(format_value(format_list(f)[i])) by {
                lemma_codes_at(format_list(f), i);
                assert(buf@.subrange(p + 2 + 2 * i, p + 2 + 2 * i + 2) =~= fb.subrange(2 + 2 * i, 2 + 2 * i + 2));
                assert(fb.subrange(2 + 2 * i, 2 + 2 * i + 2) =~= codes_bytes(format_list(f)).subrange(2 * i, 2 * i + 2));
            }
        }
    }
    if end - p < 2 {
        return Err(ProtocolError::Truncated);
    }
    let n = read_i16_at(buf, p);
    proof {
        assert forall|f: BindFormat|
            formats_round_trip(f) && p + formats_bytes(f).len() <= end && #[trigger] buf@.subrange(
                p as int,
                p + formats_bytes(f).len(),
            ) == formats_bytes(f) implies n == format_list(f).len() by {
            lemma_be_i16_injective(n, format_list(f).len() as i16);
        }
    }
    if n < 0 {
        return Err(ProtocolError::InvalidLength);
    }
    let n = n as usize;
    if n > (end - p - 2) / 2 {
        return Err(ProtocolError::Truncated);
    }
    let mut codes: Vec<FormatCode> = Vec::new();
    let mut uniform = true;
    let mut i: usize = 0;
    let mut q: usize = p + 2;
    while i < n
        invariant
            q == p + 2 + 2 * i,
            i <= n,
            p + 2 + 2 * n <= end <= buf@.len(),
            codes@.len() == i,
            uniform == (forall|j: int| 0 <= j < i ==> #[trigger] codes@[j] == codes@[0]),
            buf@.subrange(p as int, p + 2) == be_i16(n as i16),
            forall|j: int|
                0 <= j < i ==> #[trigger] buf@.subrange(p + 2 + 2 * j, p + 4 + 2 * j) == be_i16(
                    format_value(codes@[j]),
                ),
            forall|f: BindFormat|
                formats_round_trip(f) && p + formats_bytes(f).len() <= end && #[trigger] buf@.subrange(
                    p as int,
                    p + formats_bytes(f).len(),
                ) == formats_bytes(f) ==> n == format_list(f).len() && codes@ == format_list(f).subrange(0, i as int)
                    && forall|k: int|
                    0 <= k < format_list(f).len() ==> #[trigger] buf@.subrange(p + 2 + 2 * k, p + 2 + 2 * k + 2)
                        == be_i16(format_value(format_list(f)[k])),
        decreases n - i,
    {
        let f = match read_format(buf, q) {
            Ok(f) => f,
            Err(e) => {
                proof {
                    assert forall|g: BindFormat|
                        formats_round_trip(g) && p + formats_bytes(g).len() <= end && #[trigger] buf@.subrange(
                            p as int,
                            p + formats_bytes(g).len(),
                        ) == formats_bytes(g) implies false by {
                        assert(buf@.subrange(p + 2 + 2 * i, p + 2 + 2 * i + 2) == be_i16(
                            format_value(format_list(g)[i as int]),
                        ));
                    }
                }
                return Err(e);
            },
        };
        let ghost before = codes@;
        if i > 0 && !(codes[0] == f) {
            uniform = false;
        }
        codes.push(f);
        proof {
            assert forall|j: int| 0 <= j < i + 1 implies #[trigger] buf@.subrange(p + 2 + 2 * j, p + 4 + 2 * j)
                == be_i16(format_value(codes@[j])) by {
                if j < i {
                    assert(codes@[j] == before[j]);
                }
            }
            assert forall|g: BindFormat|
                formats_round_trip(g) && p + formats_bytes(g).len() <= end && #[trigger] buf@.subrange(
                    p as int,
                    p + formats_bytes(g).len(),
                ) == formats_bytes(g) implies codes@ == format_list(g).subrange(0, i + 1) by {
                assert(buf@.subrange(p + 2 + 2 * i, p + 2 + 2 * i + 2) == be_i16(format_value(format_list(g)[i as int])));
                assert(codes@ =~= format_list(g).subrange(0, i + 1));
            }
            if i > 0 {
                assert(codes@[0] == before[0]);
            }
            assert(uniform == (forall|j: int| 0 <= j < i + 1 ==> #[trigger] codes@[j] == codes@[0])) by {
                if !uniform {
                    if i > 0 && !(before[0] == f) {
                        assert(codes@[i as int] != codes@[0]);
                    } else {
                        let j = choose|j: int| 0 <= j < i && #[trigger] before[j] != before[0];
                        assert(codes@[j] != codes@[0]);
                    }
                } else {
                    assert forall|j: int| 0 <= j < i + 1 implies #[trigger] codes@[j] == codes@[0] by {
                        if j < i {
                            assert(codes@[j] == before[j]);
                        }
                    }
                }
            }
        }
        i = i + 1;
        q = q + 2;
    }
    proof {
        assert forall|g: BindFormat|
            formats_round_trip(g) && p + formats_bytes(g).len() <= end && #[trigger] buf@.subrange(
                p as int,
                p + formats_bytes(g).len(),
            ) == formats_bytes(g) implies codes@ == format_list(g) && q == p + formats_bytes(g).len() by {
            assert(format_list(g).subrange(0, n as int) =~= format_list(g));
            lemma_codes_len(format_list(g));
        }
    }
    assert((q - p - 2) / 2 == n as int);
    assert((n as i16) as int == n as int);
    if codes.len() == 0 {
        Ok((BindFormat::All(FormatCode::Text), q))
    } else if uniform {
        let c = codes[0];
        assert forall|k: int| 0 <= k < (q - p - 2) / 2 implies #[trigger] buf@.subrange(p + 2 + 2 * k, p + 4 + 2 * k)
            == be_i16(format_value(c)) by {
            assert(codes@[k] == codes@[0]);
        }
        Ok((BindFormat::All(c), q))
    } else {
        assert(!(forall|j: int| 0 <= j < codes@.len() ==> #[trigger] codes@[j] == codes@[0]));
        assert(q == p + 2 + 2 * codes@.len());
        assert(forall|k: int|
            0 <= k < codes@.len() ==> #[trigger] buf@.subrange(p + 2 + 2 * k, p + 4 + 2 * k) == be_i16(
                format_value(codes@[k]),
            ));
        let ghost w = choose|j: int| !(0 <= j < codes@.len() ==> #[trigger] codes@[j] == codes@[0]);
        let ghost cs = codes@;
        assert(0 <= w < cs.len() && cs[w] != cs[0]);
        let g = BindFormat::PerColumn(codes);
        assert(g->PerColumn_0@ == cs);
        assert(g->PerColumn_0@[w] != g->PerColumn_0@[0]);
        assert(!(forall|j: int|
            0 <= j < g->PerColumn_0@.len() ==> #[trigger] g->PerColumn_0@[j] == g->PerColumn_0@[0]));
        Ok((g, q))
    }
}

/// One Bind parameter: its length then its bytes, or length -1 for NULL.
pub open spec fn param_bytes(v: Option<Vec<u8>>) -> Seq<u8> {
    match v {
        None => be_i32(-1i32),
        Some(b) => be_i32(b@.len() as i32) + b@,
    }
}

pub open spec fn params_bytes(ps: Seq<Option<Vec<u8>>>) -> Seq<u8>
    decreases ps.len(),
{
    if ps.len() == 0 {
        seq![]
    } else {
        params_bytes(ps.drop_last()) + param_bytes(ps.last())
    }
}

/// The parameter field of a Bind: the count, then each parameter.
pub open spec fn params_field(ps: Seq<Option<Vec<u8>>>) -> Seq<u8> {
    be_i16(ps.len() as i16) + params_bytes(ps)
}

pub open spec fn params_round_trip(ps: Seq<Option<Vec<u8>>>) -> bool {
    &&& ps.len() <= i16::MAX
    &&& forall|i: int| 0 <= i < ps.len() && #[trigger] ps[i] is Some ==> ps[i]->Some_0@.len() <= i32::MAX
}

pub open spec fn same_values(a: Seq<Option<Vec<u8>>>, b: Seq<Option<Vec<u8>>>) -> bool {
    &&& a.len() == b.len()
    &&& forall|i: int|
        0 <= i < a.len() ==> (#[trigger] a[i] is None <==> b[i] is None) && (a[i] is Some ==> a[i]->Some_0@
            == b[i]->Some_0@)
}

proof fn lemma_params_prefix_of(ps: Seq<Option<Vec<u8>>>, k: int)
    requires
        0 <= k < ps.len(),
    ensures
        params_bytes(ps.subrange(0, k + 1)) == params_bytes(ps.subrange(0, k)) + param_bytes(ps[k]),
        params_bytes(ps.subrange(0, k + 1)).len() <= params_bytes(ps).len(),
        params_bytes(ps).subrange(0, params_bytes(ps.subrange(0, k + 1)).len() as int) == params_bytes(
            ps.subrange(0, k + 1),
        ),
    decreases ps.len() - k,
{
    assert(ps.subrange(0, k + 1).drop_last() =~= ps.subrange(0, k));
    if k + 1 == ps.len() {
        assert(ps.subrange(0, k + 1) =~= ps);
        assert(params_bytes(ps).subrange(0, params_bytes(ps).len() as int) =~= params_bytes(ps));
    } else {
        lemma_params_prefix_of(ps, k + 1);
        let a = params_bytes(ps.subrange(0, k + 1));
        let b = params_bytes(ps.subrange(0, k + 2));
        assert(b.subrange(0, a.len() as int) =~= a);
        assert(params_bytes(ps).subrange(0, a.len() as int) =~= params_bytes(ps).subrange(0, b.len() as int).subrange(
            0,
            a.len() as int,
        ));
    }
}

fn read_params(buf: &[u8], p: usize, end: usize) -> (r: Result<(Vec<Option<Vec<u8>>>, usize), ProtocolError>)
    requires
        p <= end <= buf@.len(),
    ensures
        r matches Ok((_, q)) ==> p <= q <= end,
        forall|ps: Seq<Option<Vec<u8>>>|
            params_round_trip(ps) && p + params_field(ps).len() <= end && buf@.subrange(
                p as int,
                p + params_field(ps).len(),
            ) == #[trigger] params_field(ps) ==> (r matches Ok((v, q)) && q == p + params_field(ps).len()
                && same_values(v@, ps)),
{
    if end - p < 2 {
        return Err(ProtocolError::Truncated);
    }
    let n = read_i16_at(buf, p);
    proof {
        assert forall|ps: Seq<Option<Vec<u8>>>|
            params_round_trip(ps) && p + params_field(ps).len() <= end && buf@.subrange(
                p as int,
                p + params_field(ps).len(),
            ) == #[trigger] params_field(ps) implies n == ps.len() && buf@.subrange(p + 2, p + params_field(ps).len())
            == params_bytes(ps) by {
            assert(buf@.subrange(p as int, p + 2) =~= params_field(ps).subrange(0, 2));
            assert(params_field(ps).subrange(0, 2) =~= be_i16(ps.len() as i16));
            lemma_be_i16_injective(n, ps.len() as i16);
            assert(buf@.subrange(p + 2, p + params_field(ps).len()) =~= params_field(ps).subrange(
                2,
                params_field(ps).len() as int,
            ));
        }
    }
    if n < 0 {
        return Err(ProtocolError::InvalidLength);
    }
    let mut q = p + 2;
    let mut parameters: Vec<Option<Vec<u8>>> = Vec::new();
    let mut i: i16 = 0;
    proof {
        assert forall|ps: Seq<Option<Vec<u8>>>|
            params_round_trip(ps) && p + params_field(ps).len() <= end && buf@.subrange(
                p as int,
                p + params_field(ps).len(),
            ) == #[trigger] params_field(ps) implies same_values(parameters@, ps.subrange(0, 0)) && q == p + 2
            + params_bytes(ps.subrange(0, 0)).len() by {
            assert(ps.subrange(0, 0) =~= Seq::<Option<Vec<u8>>>::empty());
        }
    }
    while i < n
        invariant
            p + 2 <= q <= end <= buf@.len(),
            0 <= i <= n,
            parameters@.len() == i,
            forall|ps: Seq<Option<Vec<u8>>>|
                params_round_trip(ps) && p + params_field(ps).len() <= end && buf@.subrange(
                    p as int,
                    p + params_field(ps).len(),
                ) == #[trigger] params_field(ps) ==> n == ps.len() && buf@.subrange(
                    p + 2,
                    p + params_field(ps).len(),
                ) == params_bytes(ps) && same_values(parameters@, ps.subrange(0, i as int)) && q == p + 2
                    + params_bytes(ps.subrange(0, i as int)).len(),
        decreases n - i,
    {
        let ghost k = i as int;
        proof {
            assert forall|ps: Seq<Option<Vec<u8>>>|
                params_round_trip(ps) && p + params_field(ps).len() <= end && buf@.subrange(
                    p as int,
                    p + params_field(ps).len(),
                ) == #[trigger] params_field(ps) implies q + param_bytes(ps[k]).len() <= end && buf@.subrange(
                q as int,
                q + param_bytes(ps[k]).len(),
            ) == param_bytes(ps[k]) by {
                lemma_params_prefix_of(ps, k);
                let whole = params_bytes(ps);
                let al: int = params_bytes(ps.subrange(0, k)).len() as int;
                let cl: int = param_bytes(ps[k]).len() as int;
                let b = params_bytes(ps.subrange(0, k + 1));
                assert(b.subrange(al, al + cl) =~= param_bytes(ps[k]));
                assert(buf@.subrange(q as int, q + cl) =~= buf@.subrange(p + 2, p + params_field(ps).len()).subrange(
                    al,
                    al + cl,
                ));
                assert(whole.subrange(al, al + cl) =~= whole.subrange(0, b.len() as int).subrange(al, al + cl));
            }
        }
        if end - q < 4 {
            proof {
                assert forall|ps: Seq<Option<Vec<u8>>>|
                    params_round_trip(ps) && p + params_field(ps).len() <= end && buf@.subrange(
                        p as int,
                        p + params_field(ps).len(),
                    ) == #[trigger] params_field(ps) implies false by {
                    assert(param_bytes(ps[k]).len() >= 4);
                }
            }
            return Err(ProtocolError::Truncated);
        }
        let len = read_i32_at(buf, q);
        proof {
            assert forall|ps: Seq<Option<Vec<u8>>>|
                params_round_trip(ps) && p + params_field(ps).len() <= end && buf@.subrange(
                    p as int,
                    p + params_field(ps).len(),
                ) == #[trigger] params_field(ps) implies (ps[k] is None ==> len == -1) && (ps[k] is Some ==> len
                == ps[k]->Some_0@.len() && buf@.subrange(q + 4, q + 4 + len) == ps[k]->Some_0@) by {
                let pb = param_bytes(ps[k]);
                assert(buf@.subrange(q as int, q + 4) =~= buf@.subrange(q as int, q + pb.len()).subrange(0, 4));
                if ps[k] is None {
                    lemma_be_i32_injective(len, -1i32);
                } else {
                    let v = ps[k]->Some_0@;
                    assert(pb.subrange(0, 4) =~= be_i32(v.len() as i32));
                    lemma_be_i32_injective(len, v.len() as i32);
                    assert(buf@.subrange(q + 4, q + 4 + len) =~= buf@.subrange(q as int, q + pb.len()).subrange(
                        4,
                        pb.len() as int,
                    ));
                    assert(pb.subrange(4, pb.len() as int) =~= v);
                }
            }
        }
        let ghost q0 = q;
        let ghost before = parameters@;
        q = q + 4;
        if len == -1 {
            parameters.push(None);
        } else if len < 0 || len as usize > end - q {
            return Err(ProtocolError::InvalidLength);
        } else {
            let mut v: Vec<u8> = Vec::new();
            let stop = q + len as usize;
            while q < stop
                invariant
                    q0 + 4 <= q <= stop <= end <= buf@.len(),
                    v@ == buf@.subrange(q0 + 4, q as int),
                decreases stop - q,
            {
                v.push(buf[q]);
                q = q + 1;
                assert(v@ =~= buf@.subrange(q0 + 4, q as int));
            }
            parameters.push(Some(v));
        }
        i = i + 1;
        proof {
            assert forall|ps: Seq<Option<Vec<u8>>>|
                params_round_trip(ps) && p + params_field(ps).len() <= end && buf@.subrange(
                    p as int,
                    p + params_field(ps).len(),
                ) == #[trigger] params_field(ps) implies same_values(parameters@, ps.subrange(0, i as int)) && q == p
                + 2 + params_bytes(ps.subrange(0, i as int)).len() by {
                lemma_params_prefix_of(ps, k);
                assert forall|j: int| 0 <= j < parameters@.len() implies (#[trigger] parameters@[j] is None
                    <==> ps.subrange(0, i as int)[j] is None) && (parameters@[j] is Some ==> parameters@[j]->Some_0@
                    == ps.subrange(0, i as int)[j]->Some_0@) by {
                    if j < k {
                        assert(parameters@[j] == before[j]);
                        assert(ps.subrange(0, k)[j] == ps.subrange(0, i as int)[j]);
                        assert(before[j] is None <==> ps.subrange(0, k)[j] is None);
                    }
                }
            }
        }
    }
    proof {
        assert forall|ps: Seq<Option<Vec<u8>>>|
            params_round_trip(ps) && p + params_field(ps).len() <= end && buf@.subrange(
                p as int,
                p + params_field(ps).len(),
            ) == #[trigger] params_field(ps) implies same_values(parameters@, ps) && q == p + params_field(ps).len() by {
            assert(ps.subrange(0, ps.len() as int) =~= ps);
        }
    }
    Ok((parameters, q))
}

/// The payload of a Bind message.
pub open spec fn bind_payload(b: Bind) -> Seq<u8> {
    cstr(b.portal@) + cstr(b.prepared_statement_name@) + formats_bytes(b.parameter_formats) + params_field(
        b.parameters@,
    ) + formats_bytes(b.result_format)
}

/// A Bind that a frame carries whole.
pub open spec fn bind_round_trips(b: Bind) -> bool {
    &&& nul_free(b.portal@)
    &&& nul_free(b.prepared_statement_name@)
    &&& formats_round_trip(b.parameter_formats)
    &&& formats_round_trip(b.result_format)
    &&& params_round_trip(b.parameters@)
}

pub open spec fn same_bind(a: Bind, b: Bind) -> bool {
    &&& a.portal@ == b.portal@
    &&& a.prepared_statement_name@ == b.prepared_statement_name@
    &&& same_format(a.parameter_formats, b.parameter_formats)
    &&& same_values(a.parameters@, b.parameters@)
    &&& same_format(a.result_format, b.result_format)
}

fn decode_bind(buf: &[u8], p: usize, end: usize) -> (r: Result<Bind, ProtocolError>)
    requires
        p <= end <= buf@.len(),
    ensures
        forall|b: Bind|
            bind_round_trips(b) && #[trigger] bind_payload(b) == buf@.subrange(p as int, end as int) ==> (
            r matches Ok(x) && same_bind(x, b)),
{
    proof {
        assert forall|b: Bind|
            bind_round_trips(b) && #[trigger] bind_payload(b) == buf@.subrange(p as int, end as int) implies {
            let c1 = cstr(b.portal@);
            let c2 = cstr(b.prepared_statement_name@);
            let f1 = formats_bytes(b.parameter_formats);
            let pf = params_field(b.parameters@);
            let f2 = formats_bytes(b.result_format);
            &&& p + c1.len() + c2.len() + f1.len() + pf.len() + f2.len() == end
            &&& buf@.subrange(p as int, p + c1.len()) == c1
            &&& buf@.subrange(p + c1.len(), p + c1.len() + c2.len()) == c2
            &&& buf@.subrange(p + c1.len() + c2.len(), p + c1.len() + c2.len() + f1.len()) == f1
            &&& buf@.subrange(p + c1.len() + c2.len() + f1.len(), p + c1.len() + c2.len() + f1.len() + pf.len())
                == pf
            &&& buf@.subrange(p + c1.len() + c2.len() + f1.len() + pf.len(), end as int) == f2
        } by {
            let c1 = cstr(b.portal@);
            let c2 = cstr(b.prepared_statement_name@);
            let f1 = formats_bytes(b.parameter_formats);
            let pf = params_field(b.parameters@);
            let f2 = formats_bytes(b.result_format);
            let w = bind_payload(b);
            let x1: int = c1.len() as int;
            let x2: int = x1 + c2.len();
            let x3: int = x2 + f1.len();
            let x4: int = x3 + pf.len();
            assert(w.len() == x4 + f2.len());
            assert(buf@.subrange(p as int, p + x1) =~= w.subrange(0, x1));
            assert(w.subrange(0, x1) =~= c1);
            assert(buf@.subrange(p + x1, p + x2) =~= w.subrange(x1, x2));
            assert(w.subrange(x1, x2) =~= c2);
            assert(buf@.subrange(p + x2, p + x3) =~= w.subrange(x2, x3));
            assert(w.subrange(x2, x3) =~= f1);
            assert(buf@.subrange(p + x3, p + x4) =~= w.subrange(x3, x4));
            assert(w.subrange(x3, x4) =~= pf);
            assert(buf@.subrange(p + x4, end as int) =~= w.subrange(x4, w.len() as int));
            assert(w.subrange(x4, w.len() as int) =~= f2);
        }
    }
    let (portal, q) = match read_cstr(buf, p, end) {
        Ok(x) => x,
        Err(e) => {
            return Err(e);
        },
    };
    let (prepared_statement_name, q) = match read_cstr(buf, q, end) {
        Ok(x) => x,
        Err(e) => {
            return Err(e);
        },
    };
    let (parameter_formats, q) = match read_formats(buf, q, end) {
        Ok(x) => x,
        Err(e) => {
            return Err(e);
        },
    };
    let (parameters, q) = match read_params(buf, q, end) {
        Ok(x) => x,
        Err(e) => {
            return Err(e);
        },
    };
    let (result_format, q) = match read_formats(buf, q, end) {
        Ok(x) => x,
        Err(e) => {
            return Err(e);
        },
    };
    if q != end {
        return Err(ProtocolError::InvalidLength);
    }
    Ok(Bind { portal, prepared_statement_name, parameter_formats, parameters, result_format })
}

/// The payload of a Parse message.
pub open spec fn parse_payload(m: Parse) -> Seq<u8> {
    cstr(m.prepared_statement_name@) + cstr(m.query@) + be_i16(m.parameter_types@.len() as i16)
        + oid_list_bytes(m.parameter_types@)
}

/// A Parse that a frame carries whole.
pub open spec fn parse_round_trips(m: Parse) -> bool {
    &&& nul_free(m.prepared_statement_name@)
    &&& nul_free(m.query@)
    &&& m.parameter_types@.len() <= i16::MAX
}

pub open spec fn same_parse(a: Parse, b: Parse) -> bool {
    &&& a.prepared_statement_name@ == b.prepared_statement_name@
    &&& a.query@ == b.query@
    &&& a.parameter_types@ == b.parameter_types@
}

proof fn lemma_oid_list_len(oids: Seq<DataTypeOid>)
    ensures
        oid_list_bytes(oids).len() == 4 * oids.len(),
    decreases oids.len(),
{
    if oids.len() > 0 {
        lemma_oid_list_len(oids.drop_last());
    }
}

proof fn lemma_oid_list_injective(a: Seq<DataTypeOid>, b: Seq<DataTypeOid>)
    requires
        a.len() == b.len(),
        oid_list_bytes(a) == oid_list_bytes(b),
    ensures
        a == b,
    decreases a.len(),
{
    if a.len() > 0 {
        lemma_oid_list_len(a.drop_last());
        lemma_oid_list_len(b.drop_last());
        let k = 4 * (a.len() - 1);
        assert(oid_list_bytes(a.drop_last()) =~= oid_list_bytes(a).subrange(0, k));
        assert(oid_list_bytes(b.drop_last()) =~= oid_list_bytes(b).subrange(0, k));
        assert(be_u32(a.last()) =~= oid_list_bytes(a).subrange(k, k + 4));
        assert(be_u32(b.last()) =~= oid_list_bytes(b).subrange(k, k + 4));
        lemma_oid_list_injective(a.drop_last(), b.drop_last());
        lemma_be_u32_injective(a.last(), b.last());
        assert(a =~= a.drop_last().push(a.last()));
        assert(b =~= b.drop_last().push(b.last()));
    }
}

proof fn lemma_be_i16_injective(a: i16, b: i16)
    requires
        be_i16(a) == be_i16(b),
    ensures
        a == b,
{
    let (x, y) = (a as u16, b as u16);
    assert(be_u16(x)[0] == be_u16(y)[0]);
    assert(be_u16(x)[1] == be_u16(y)[1]);
    assert(x == y) by (bit_vector)
        requires
            (x >> 8u16) as u8 == (y >> 8u16) as u8,
            (x & 0xffu16) as u8 == (y & 0xffu16) as u8,
    ;
    assert(a == b) by (bit_vector)
        requires
            a as u16 == b as u16,
    ;
}

fn decode_parse(buf: &[u8], p: usize, end: usize) -> (r: Result<Parse, ProtocolError>)
    requires
        p <= end <= buf@.len(),
    ensures
        r matches Ok(m) ==> buf@.subrange(p as int, end as int) == parse_payload(m),
        forall|m: Parse|
            parse_round_trips(m) && #[trigger] parse_payload(m) == buf@.subrange(p as int, end as int) ==> (
            r matches Ok(x) && same_parse(x, m)),
{
    proof {
        assert forall|m: Parse|
            parse_round_trips(m) && #[trigger] parse_payload(m) == buf@.subrange(p as int, end as int) implies buf@.subrange(
            p as int,
            p + cstr(m.prepared_statement_name@).len(),
        ) == cstr(m.prepared_statement_name@) && p + cstr(m.prepared_statement_name@).len() <= end by {
            let c = cstr(m.prepared_statement_name@);
            let pl = parse_payload(m);
            assert(pl.len() == c.len() + cstr(m.query@).len() + be_i16(m.parameter_types@.len() as i16).len()
                + oid_list_bytes(m.parameter_types@).len());
            assert(buf@.subrange(p as int, end as int).len() == end - p);
            assert(pl.subrange(0, c.len() as int) =~= c);
            assert(buf@.subrange(p as int, p + c.len()) =~= buf@.subrange(p as int, end as int).subrange(
                0,
                c.len() as int,
            ));
        }
    }
    let (prepared_statement_name, q1) = match read_cstr(buf, p, end) {
        Ok(x) => x,
        Err(e) => {
            return Err(e);
        },
    };
    proof {
        assert forall|m: Parse|
            parse_round_trips(m) && #[trigger] parse_payload(m) == buf@.subrange(p as int, end as int) implies buf@.subrange(
            q1 as int,
            q1 + cstr(m.query@).len(),
        ) == cstr(m.query@) && q1 + cstr(m.query@).len() <= end by {
            let c = cstr(m.prepared_statement_name@);
            let d = cstr(m.query@);
            let pl = parse_payload(m);
            assert(pl.len() == c.len() + cstr(m.query@).len() + be_i16(m.parameter_types@.len() as i16).len()
                + oid_list_bytes(m.parameter_types@).len());
            assert(buf@.subrange(p as int, end as int).len() == end - p);
            assert(pl.subrange(0, c.len() as int) =~= c);
            assert(buf@.subrange(p as int, p + c.len()) =~= buf@.subrange(p as int, end as int).subrange(
                0,
                c.len() as int,
            ));
            assert(q1 == p + c.len());
            assert(pl.subrange(c.len() as int, c.len() as int + d.len()) =~= d);
            assert(buf@.subrange(q1 as int, q1 + d.len()) =~= buf@.subrange(p as int, end as int).subrange(
                c.len() as int,
                c.len() as int + d.len(),
            ));
        }
    }
    let (query, q) = match read_cstr(buf, q1, end) {
        Ok(x) => x,
        Err(e) => {
            return Err(e);
        },
    };
    proof {
        assert forall|m: Parse|
            parse_round_trips(m) && #[trigger] parse_payload(m) == buf@.subrange(p as int, end as int) implies
            q + 2 + 4 * m.parameter_types@.len() == end && buf@.subrange(q as int, q + 2) == be_i16(
            m.parameter_types@.len() as i16,
        ) && buf@.subrange(q + 2, end as int) == oid_list_bytes(m.parameter_types@) by {
            let c = cstr(m.prepared_statement_name@);
            let d = cstr(m.query@);
            let k: int = c.len() as int + d.len();
            lemma_oid_list_len(m.parameter_types@);
            let pl = parse_payload(m);
            assert(pl.len() == c.len() + cstr(m.query@).len() + be_i16(m.parameter_types@.len() as i16).len()
                + oid_list_bytes(m.parameter_types@).len());
            assert(buf@.subrange(p as int, end as int).len() == end - p);
            assert(pl.subrange(0, c.len() as int) =~= c);
            assert(buf@.subrange(p as int, p + c.len()) =~= buf@.subrange(p as int, end as int).subrange(
                0,
                c.len() as int,
            ));
            assert(q1 == p + c.len());
            assert(pl.subrange(c.len() as int, c.len() as int + d.len()) =~= d);
            assert(buf@.subrange(q1 as int, q1 + d.len()) =~= buf@.subrange(p as int, end as int).subrange(
                c.len() as int,
                c.len() as int + d.len(),
            ));
            assert(q == p + k);
            assert(pl.subrange(k, k + 2) =~= be_i16(m.parameter_types@.len() as i16));
            assert(pl.subrange(k + 2, pl.len() as int) =~= oid_list_bytes(m.parameter_types@));
            assert(buf@.subrange(q as int, q + 2) =~= buf@.subrange(p as int, end as int).subrange(k, k + 2));
            assert(buf@.subrange(q + 2, end as int) =~= buf@.subrange(p as int, end as int).subrange(
                k + 2,
                pl.len() as int,
            ));
            assert(buf@.subrange(q as int, q + 2) =~= parse_payload(m).subrange(k, k + 2));
            assert(buf@.subrange(q + 2, end as int) =~= parse_payload(m).subrange(k + 2, parse_payload(m).len() as int));
        }
    }
    if end - q < 2 {
        return Err(ProtocolError::Truncated);
    }
    let n = read_i16_at(buf, q);
    proof {
        assert forall|m: Parse|
            parse_round_trips(m) && #[trigger] parse_payload(m) == buf@.subrange(p as int, end as int) implies n
            == m.parameter_types@.len() by {
            lemma_be_i16_injective(n, m.parameter_types@.len() as i16);
        }
    }
    if n < 0 || n as usize != (end - q - 2) / 4 || (end - q - 2) % 4 != 0 {
        return Err(ProtocolError::InvalidLength);
    }
    let start = q + 2;
    let mut parameter_types: Vec<DataTypeOid> = Vec::new();
    let mut i: usize = 0;
    while i < n as usize
        invariant
            start + 4 * (n as int) == end <= buf@.len(),
            0 <= n,
            i <= n as usize,
            parameter_types@.len() == i,
            oid_list_bytes(parameter_types@) == buf@.subrange(start as int, start + 4 * i),
        decreases n as usize - i,
    {
        let v = read_u32_at(buf, start + 4 * i);
        let ghost before = parameter_types@;
        parameter_types.push(v);
        assert(parameter_types@.drop_last() =~= before);
        assert(buf@.subrange(start as int, start + 4 * (i + 1)) =~= buf@.subrange(start as int, start + 4 * i)
            + buf@.subrange(start + 4 * i, start + 4 * i + 4));
        i = i + 1;
    }
    let m = Parse { prepared_statement_name, query, parameter_types };
    assert(buf@.subrange(p as int, end as int) =~= buf@.subrange(p as int, q as int) + buf@.subrange(
        q as int,
        q + 2,
    ) + buf@.subrange(start as int, end as int));
    proof {
        assert forall|x: Parse|
            parse_round_trips(x) && #[trigger] parse_payload(x) == buf@.subrange(p as int, end as int) implies same_parse(
            m,
            x,
        ) by {
            lemma_oid_list_injective(m.parameter_types@, x.parameter_types@);
        }
    }
    Ok(m)
}

fn decode_body(buf: &[u8], tag: u8, end: usize) -> (r: Result<ClientMessage, ProtocolError>)
    requires
        5 <= end <= buf@.len(),
    ensures
        r matches Ok(m) ==> (framed_simply(m) && !(m is Bind) ==> client_tag(m) == tag && client_payload(m) == buf@.subrange(
            5,
            end as int,
        )),
        forall|m: ClientMessage|
            round_trips(m) && client_tag(m) == tag && #[trigger] client_payload(m) == buf@.subrange(5, end as int)
                ==> (r matches Ok(d) && same_message(d, m)),        r matches Ok(ClientMessage::Unknown(t)) ==> t == tag && !known_tag(tag),
        r matches Ok(d) ==> (known_tag(tag) <==> !(d is Unknown)),
{
    if tag == 81u8 {
        proof {
            assert forall|m: ClientMessage|
                round_trips(m) && client_tag(m) == tag && #[trigger] client_payload(m) == buf@.subrange(
                    5,
                    end as int,
                ) implies buf@.subrange(5, 5int + cstr(m->Query_0@).len()) == cstr(m->Query_0@) && 5 + cstr(
                m->Query_0@).len() == end by {}
        }
        let (text, q) = match read_cstr(buf, 5, end) {
            Ok(x) => x,
            Err(e) => {
                return Err(e);
            },
        };
        if q != end {
            return Err(ProtocolError::InvalidLength);
        }
        Ok(ClientMessage::Query(text))
    } else if tag == 83u8 && end == 5 {
        Ok(ClientMessage::Sync)
    } else if tag == 88u8 && end == 5 {
        Ok(ClientMessage::Terminate)
    } else if tag == 72u8 && end == 5 {
        Ok(ClientMessage::Flush)
    } else if tag == 69u8 {
        proof {
            assert forall|m: ClientMessage|
                round_trips(m) && client_tag(m) == tag && #[trigger] client_payload(m) == buf@.subrange(
                    5,
                    end as int,
                ) implies buf@.subrange(5, 5int + cstr(m->Execute_0.portal@).len()) == cstr(m->Execute_0.portal@)
                && 5 + cstr(m->Execute_0.portal@).len() + 4 == end by {
                let c = cstr(m->Execute_0.portal@);
                assert(buf@.subrange(5, 5int + c.len()) =~= client_payload(m).subrange(0, c.len() as int));
            }
        }
        let (portal, q) = match read_cstr(buf, 5, end) {
            Ok(x) => x,
            Err(e) => {
                return Err(e);
            },
        };
        if q > end || end - q != 4 {
            return Err(ProtocolError::InvalidLength);
        }
        let max_rows = read_i32_at(buf, q);
        assert(buf@.subrange(5, end as int) =~= buf@.subrange(5, q as int) + buf@.subrange(q as int, q + 4));
        proof {
            assert forall|m: ClientMessage|
                round_trips(m) && client_tag(m) == tag && #[trigger] client_payload(m) == buf@.subrange(
                    5,
                    end as int,
                ) implies m->Execute_0.max_rows == max_rows by {
                let c = cstr(m->Execute_0.portal@);
                assert(buf@.subrange(q as int, q + 4) =~= client_payload(m).subrange(c.len() as int, c.len() as int + 4));
                assert(client_payload(m).subrange(c.len() as int, c.len() as int + 4) =~= be_i32(m->Execute_0.max_rows));
                lemma_be_i32_injective(max_rows, m->Execute_0.max_rows);
            }
        }
        Ok(ClientMessage::Execute(Execute { portal, max_rows }))
    } else if tag == 68u8 {
        match read_target(buf, 5, end) {
            Ok(d) => Ok(ClientMessage::Describe(d)),
            Err(e) => Err(e),
        }
    } else if tag == 67u8 {
        match read_target(buf, 5, end) {
            Ok(d) => Ok(ClientMessage::Close(d)),
            Err(e) => Err(e),
        }
    } else if tag == 80u8 {
        proof {
            assert forall|m: ClientMessage|
                round_trips(m) && client_tag(m) == tag && #[trigger] client_payload(m) == buf@.subrange(
                    5,
                    end as int,
                ) implies parse_payload(m->Parse_0) == buf@.subrange(5, end as int) by {}
        }
        match decode_parse(buf, 5, end) {
            Ok(p) => Ok(ClientMessage::Parse(p)),
            Err(e) => Err(e),
        }
    } else if tag == 66u8 {
        proof {
            assert forall|m: ClientMessage|
                round_trips(m) && client_tag(m) == tag && #[trigger] client_payload(m) == buf@.subrange(
                    5,
                    end as int,
                ) implies bind_payload(m->Bind_0) == buf@.subrange(5, end as int) by {}
        }
        match decode_bind(buf, 5, end) {
            Ok(b) => Ok(ClientMessage::Bind(b)),
            Err(e) => Err(e),
        }
    } else if tag == 83u8 || tag == 88u8 || tag == 72u8 {
        Err(ProtocolError::InvalidLength)
    } else {
        Ok(ClientMessage::Unknown(tag))
    }
}

proof fn lemma_be_i32_injective(a: i32, b: i32)
    requires
        be_i32(a) == be_i32(b),
    ensures
        a == b,
{
    lemma_be_u32_injective(a as u32, b as u32);
    assert(a == b) by (bit_vector)
        requires
            a as u32 == b as u32,
    ;
}

/// Decodes the regular frame at the start of `buf`: tag byte, then an int32 length
/// counting itself, then the payload. A frame that encodes a message decodes to
/// that message, whatever follows it.
pub fn decode_message(buf: &[u8]) -> (r: Result<Option<(ClientMessage, usize)>, ProtocolError>)
    ensures
        buf@.len() < 5 ==> r matches Ok(None),
        r matches Ok(Some((m, n))) ==> 5 <= n <= buf@.len() && (framed_simply(m) && !(m is Bind) ==> buf@.subrange(0, n as int)
            == client_bytes(m)),
        buf@.len() >= 5 ==> (r matches Ok(None) <==> (buf@.subrange(1, 5) == be_i32(
            read_frame_len(buf@),
        ) && read_frame_len(buf@) >= 4 && 1 + read_frame_len(buf@) > buf@.len())),
        forall|m: ClientMessage|
            round_trips(m) && client_bytes(m).len() <= buf@.len() && buf@.subrange(
                0,
                client_bytes(m).len() as int,
            ) == #[trigger] client_bytes(m) ==> (r matches Ok(Some((d, n))) && n == client_bytes(m).len()
                && same_message(d, m)),        buf@.len() >= 5 && read_frame_len(buf@) < 4 ==> r matches Err(ProtocolError::InvalidLength),
        r matches Ok(Some((ClientMessage::Unknown(t), _))) ==> t == buf@[0] && !known_tag(t),
        r matches Ok(Some((d, _))) ==> (known_tag(buf@[0]) <==> !(d is Unknown)),
{
    if buf.len() < 5 {
        return Ok(None);
    }
    let tag = buf[0];
    let len = read_i32_at(buf, 1);
    proof {
        lemma_read_frame_len(buf@, len);
        assert forall|m: ClientMessage|
            round_trips(m) && client_bytes(m).len() <= buf@.len() && buf@.subrange(0, client_bytes(m).len() as int)
                == #[trigger] client_bytes(m) implies tag == client_tag(m) && len == client_payload(m).len() + 4
            && buf@.subrange(5, 1 + len) == client_payload(m) by {
            let b = client_bytes(m);
            let x = (client_payload(m).len() + 4) as i32;
            assert(buf@[0] == buf@.subrange(0, b.len() as int)[0]);
            assert(buf@.subrange(1, 5) =~= b.subrange(1, 5));
            assert(b.subrange(1, 5) =~= be_i32(x));
            lemma_be_i32_injective(len, x);
            assert(buf@.subrange(5, 1 + len) =~= b.subrange(5, b.len() as int));
            assert(b.subrange(5, b.len() as int) =~= client_payload(m));
        }
    }
    if len < 4 {
        return Err(ProtocolError::InvalidLength);
    }
    if len as usize > buf.len() - 1 {
        return Ok(None);
    }
    let end = 1 + len as usize;
    let ghost head = seq![tag] + be_i32(len);
    assert(buf@.subrange(0, 5) =~= head);
    let m = match decode_body(buf, tag, end) {
        Ok(m) => m,
        Err(e) => {
            return Err(e);
        },
    };
    assert(buf@.subrange(0, end as int) =~= head + buf@.subrange(5, end as int));
    Ok(Some((m, end)))
}

/// The length field of a regular frame, as a signed value.
pub open spec fn read_frame_len(b: Seq<u8>) -> i32 {
    i32_at(b, 1)
}

/// The big-endian int32 at `at`.
pub open spec fn i32_at(b: Seq<u8>, at: int) -> i32 {
    read_u32_be(b.subrange(at, at + 4)) as i32
}

/// The tags of the client messages this decoder knows.
pub open spec fn known_tag(t: u8) -> bool {
    t == 81 || t == 83 || t == 88 || t == 72 || t == 69 || t == 68 || t == 67 || t == 80 || t == 66
}

pub open spec fn read_u32_be(b: Seq<u8>) -> u32 {
    ((b[0] as u32) << 24u32) | ((b[1] as u32) << 16u32) | ((b[2] as u32) << 8u32) | (b[3] as u32)
}

proof fn lemma_read_frame_len(b: Seq<u8>, len: i32)
    requires
        b.len() >= 5,
        be_i32(len) == b.subrange(1, 5),
    ensures
        read_frame_len(b) == len,
{
    lemma_i32_at(b, 1, len);
}

proof fn lemma_i32_at(b: Seq<u8>, at: int, len: i32)
    requires
        0 <= at,
        at + 4 <= b.len(),
        be_i32(len) == b.subrange(at, at + 4),
    ensures
        i32_at(b, at) == len,
{
    let s = b.subrange(at, at + 4);
    lemma_be_u32(s[0], s[1], s[2], s[3]);
    let v = read_u32_be(s);
    assert(be_u32(v) == seq![s[0], s[1], s[2], s[3]]);
    assert(be_u32(len as u32) =~= seq![s[0], s[1], s[2], s[3]]);
    lemma_be_u32_injective(v, len as u32);
    assert((len as u32) as i32 == len) by (bit_vector);
}

proof fn lemma_be_u32_injective(a: u32, b: u32)
    requires
        be_u32(a) == be_u32(b),
    ensures
        a == b,
{
    assert(be_u32(a)[0] == be_u32(b)[0]);
    assert(be_u32(a)[1] == be_u32(b)[1]);
    assert(be_u32(a)[2] == be_u32(b)[2]);
    assert(be_u32(a)[3] == be_u32(b)[3]);
    let (a0, a1, a2, a3) = ((a >> 24u32) as u8, ((a >> 16u32) & 0xffu32) as u8, ((a >> 8u32) & 0xffu32) as u8, (a & 0xffu32) as u8);
    let (b0, b1, b2, b3) = ((b >> 24u32) as u8, ((b >> 16u32) & 0xffu32) as u8, ((b >> 8u32) & 0xffu32) as u8, (b & 0xffu32) as u8);
    assert(a == b) by (bit_vector)
        requires
            (a >> 24u32) as u8 == (b >> 24u32) as u8,
            ((a >> 16u32) & 0xffu32) as u8 == ((b >> 16u32) & 0xffu32) as u8,
            ((a >> 8u32) & 0xffu32) as u8 == ((b >> 8u32) & 0xffu32) as u8,
            (a & 0xffu32) as u8 == (b & 0xffu32) as u8,
    ;
}

/// Key/value pairs of a StartupMessage, each as two NUL-terminated strings.
pub open spec fn startup_params_bytes(ps: Seq<(String, String)>) -> Seq<u8>
    decreases ps.len(),
{
    if ps.len() == 0 {
        seq![]
    } else {
        startup_params_bytes(ps.drop_last()) + cstr(ps.last().0@) + cstr(ps.last().1@)
    }
}

/// A whole StartupMessage frame for the given key/value pairs.
pub open spec fn startup_frame(ps: Seq<(String, String)>) -> Seq<u8> {
    be_i32((8 + startup_params_bytes(ps).len() + 1) as i32) + be_i32(PROTOCOL_VERSION_3) + startup_params_bytes(ps)
        + seq![0u8]
}

/// Key/value pairs that a StartupMessage carries whole: no NUL inside, no empty key,
/// and a length that fits the length field.
pub open spec fn startup_round_trips(ps: Seq<(String, String)>) -> bool {
    &&& forall|i: int|
        0 <= i < ps.len() ==> nul_free(#[trigger] ps[i].0@) && nul_free(ps[i].1@)
            && vstd::utf8::encode_utf8(ps[i].0@).len() > 0
    &&& startup_frame(ps).len() <= i32::MAX
}

/// Two lists of key/value pairs with the same texts.
pub open spec fn same_params(a: Seq<(String, String)>, b: Seq<(String, String)>) -> bool {
    &&& a.len() == b.len()
    &&& forall|i: int| 0 <= i < a.len() ==> #[trigger] a[i].0@ == b[i].0@ && a[i].1@ == b[i].1@
}

proof fn lemma_params_step(ps: Seq<(String, String)>, k: int)
    requires
        0 <= k < ps.len(),
    ensures
        startup_params_bytes(ps.subrange(0, k + 1)) == startup_params_bytes(ps.subrange(0, k)) + cstr(ps[k].0@)
            + cstr(ps[k].1@),
{
    assert(ps.subrange(0, k + 1).drop_last() =~= ps.subrange(0, k));
}

proof fn lemma_params_prefix(ps: Seq<(String, String)>, k: int)
    requires
        0 <= k <= ps.len(),
    ensures
        startup_params_bytes(ps.subrange(0, k)).len() <= startup_params_bytes(ps).len(),
        startup_params_bytes(ps).subrange(0, startup_params_bytes(ps.subrange(0, k)).len() as int)
            == startup_params_bytes(ps.subrange(0, k)),
    decreases ps.len() - k,
{
    if k == ps.len() {
        assert(ps.subrange(0, k) =~= ps);
        assert(startup_params_bytes(ps).subrange(0, startup_params_bytes(ps).len() as int) =~= startup_params_bytes(ps));
    } else {
        lemma_params_prefix(ps, k + 1);
        lemma_params_step(ps, k);
        let a = startup_params_bytes(ps.subrange(0, k));
        let b = startup_params_bytes(ps.subrange(0, k + 1));
        assert(b.subrange(0, a.len() as int) =~= a);
        assert(startup_params_bytes(ps).subrange(0, a.len() as int) =~= startup_params_bytes(ps).subrange(
            0,
            b.len() as int,
        ).subrange(0, a.len() as int));
    }
}

pub const PROTOCOL_VERSION_3: i32 = 196608;
pub const SSL_REQUEST_CODE: i32 = 80877103;
pub const CANCEL_REQUEST_CODE: i32 = 80877102;

/// Decodes the startup frame at the start of `buf`: an int32 length counting
/// itself, then an int32 version or request code, then for a StartupMessage
/// NUL-terminated key/value strings ended by a NUL.
#[verifier::rlimit(60)]
pub fn decode_startup(buf: &[u8]) -> (r: Result<Option<(ClientMessage, usize)>, ProtocolError>)
    ensures
        buf@.len() < 8 ==> r matches Ok(None),
        r matches Ok(Some((m, n))) ==> 8 <= n <= buf@.len() && (m is SSLRequest || m is CancelRequest
            || m is Startup),
        r matches Ok(Some((ClientMessage::SSLRequest, n))) ==> n == 8 && buf@.subrange(0, 8) == be_i32(8)
            + be_i32(SSL_REQUEST_CODE),
        buf@.len() >= 8 && buf@.subrange(0, 8) == be_i32(8) + be_i32(SSL_REQUEST_CODE) ==> (r matches Ok(
            Some((ClientMessage::SSLRequest, n)),
        ) && n == 8),
        buf@.len() >= 16 && buf@.subrange(0, 8) == be_i32(16) + be_i32(CANCEL_REQUEST_CODE) ==> (r matches Ok(
            Some((ClientMessage::CancelRequest, n)),
        ) && n == 16),
        r matches Ok(None) <==> (buf@.len() < 8 || (i32_at(buf@, 0) >= 8 && i32_at(buf@, 0) > buf@.len())),
        buf@.len() >= 8 && i32_at(buf@, 0) < 8 ==> r matches Err(ProtocolError::InvalidLength),
        buf@.len() >= 8 && 8 <= i32_at(buf@, 0) <= buf@.len() && i32_at(buf@, 4) != PROTOCOL_VERSION_3
            && i32_at(buf@, 4) != SSL_REQUEST_CODE && i32_at(buf@, 4) != CANCEL_REQUEST_CODE ==> r matches Err(
            ProtocolError::UnsupportedVersion,
        ),
        r matches Ok(Some((ClientMessage::CancelRequest, n))) ==> buf@.subrange(4, 8) == be_i32(CANCEL_REQUEST_CODE),
        r matches Ok(Some((ClientMessage::Startup(s), n))) ==> buf@.subrange(0, n as int) == be_i32(n as i32)
            + be_i32(PROTOCOL_VERSION_3) + startup_params_bytes(s.parameters@) + seq![0u8],
        forall|ps: Seq<(String, String)>|
            startup_round_trips(ps) && startup_frame(ps).len() <= buf@.len() && buf@.subrange(
                0,
                startup_frame(ps).len() as int,
            ) == #[trigger] startup_frame(ps) ==> (r matches Ok(Some((ClientMessage::Startup(s), n)))
                && n == startup_frame(ps).len() && same_params(s.parameters@, ps)),
{
    if buf.len() < 8 {
        return Ok(None);
    }
    let len = read_i32_at(buf, 0);
    let code = read_i32_at(buf, 4);
    proof {
        lemma_i32_at(buf@, 0, len);
        lemma_i32_at(buf@, 4, code);
    }
    proof {
        assert forall|ps: Seq<(String, String)>|
            startup_round_trips(ps) && startup_frame(ps).len() <= buf@.len() && buf@.subrange(
                0,
                startup_frame(ps).len() as int,
            ) == #[trigger] startup_frame(ps) implies len == startup_frame(ps).len() && code == PROTOCOL_VERSION_3
            && buf@.subrange(8, len - 1) == startup_params_bytes(ps) && buf@[len - 1] == 0 by {
            let f = startup_frame(ps);
            let x = (8 + startup_params_bytes(ps).len() + 1) as i32;
            assert(buf@.subrange(0, 4) =~= f.subrange(0, 4));
            assert(f.subrange(0, 4) =~= be_i32(x));
            lemma_be_i32_injective(len, x);
            assert(buf@.subrange(4, 8) =~= f.subrange(4, 8));
            assert(f.subrange(4, 8) =~= be_i32(PROTOCOL_VERSION_3));
            lemma_be_i32_injective(code, PROTOCOL_VERSION_3);
            assert(buf@.subrange(8, len - 1) =~= f.subrange(8, len - 1));
            assert(f.subrange(8, len - 1) =~= startup_params_bytes(ps));
            assert(buf@[len - 1] == f[len - 1]);
        }
        if buf@.subrange(0, 8) == be_i32(16) + be_i32(CANCEL_REQUEST_CODE) {
            assert(buf@.subrange(0, 4) =~= buf@.subrange(0, 8).subrange(0, 4));
            assert(buf@.subrange(4, 8) =~= buf@.subrange(0, 8).subrange(4, 8));
            assert((be_i32(16) + be_i32(CANCEL_REQUEST_CODE)).subrange(0, 4) =~= be_i32(16));
            assert((be_i32(16) + be_i32(CANCEL_REQUEST_CODE)).subrange(4, 8) =~= be_i32(CANCEL_REQUEST_CODE));
            lemma_be_i32_injective(len, 16);
            lemma_be_i32_injective(code, CANCEL_REQUEST_CODE);
        }
        if buf@.subrange(0, 8) == be_i32(8) + be_i32(SSL_REQUEST_CODE) {
            assert(buf@.subrange(0, 4) =~= buf@.subrange(0, 8).subrange(0, 4));
            assert(buf@.subrange(4, 8) =~= buf@.subrange(0, 8).subrange(4, 8));
            assert((be_i32(8) + be_i32(SSL_REQUEST_CODE)).subrange(0, 4) =~= be_i32(8));
            assert((be_i32(8) + be_i32(SSL_REQUEST_CODE)).subrange(4, 8) =~= be_i32(SSL_REQUEST_CODE));
            lemma_be_i32_injective(len, 8);
            lemma_be_i32_injective(code, SSL_REQUEST_CODE);
        }
    }
    if len < 8 {
        return Err(ProtocolError::InvalidLength);
    }
    if len as usize > buf.len() {
        return Ok(None);
    }
    let end = len as usize;
    if code == SSL_REQUEST_CODE {
        if end != 8 {
            return Err(ProtocolError::InvalidLength);
        }
        assert(buf@.subrange(0, 8) =~= buf@.subrange(0, 4) + buf@.subrange(4, 8));
        return Ok(Some((ClientMessage::SSLRequest, 8)));
    }
    if code == CANCEL_REQUEST_CODE {
        return Ok(Some((ClientMessage::CancelRequest, end)));
    }
    if code != PROTOCOL_VERSION_3 {
        return Err(ProtocolError::UnsupportedVersion);
    }
    let mut parameters: Vec<(String, String)> = Vec::new();
    let mut q: usize = 8;
    proof {
        assert forall|ps: Seq<(String, String)>|
            startup_round_trips(ps) && startup_frame(ps).len() <= buf@.len() && buf@.subrange(
                0,
                startup_frame(ps).len() as int,
            ) == #[trigger] startup_frame(ps) implies same_params(parameters@, ps.subrange(0, 0)) && q == 8
            + startup_params_bytes(ps.subrange(0, 0)).len() by {
            assert(ps.subrange(0, 0) =~= Seq::<(String, String)>::empty());
        }
    }
    while q < end && buf[q] != 0u8
        invariant
            8 <= q <= end <= buf@.len(),
            end == len,
            i32_at(buf@, 0) == len,
            i32_at(buf@, 4) == PROTOCOL_VERSION_3,
            buf@.subrange(8, q as int) == startup_params_bytes(parameters@),
            buf@.subrange(0, 8) != be_i32(8) + be_i32(SSL_REQUEST_CODE),
            buf@.subrange(0, 8) != be_i32(16) + be_i32(CANCEL_REQUEST_CODE),
            forall|ps: Seq<(String, String)>|
                startup_round_trips(ps) && startup_frame(ps).len() <= buf@.len() && buf@.subrange(
                    0,
                    startup_frame(ps).len() as int,
                ) == #[trigger] startup_frame(ps) ==> len == startup_frame(ps).len() && buf@.subrange(8, len - 1)
                    == startup_params_bytes(ps) && buf@[len - 1] == 0,
            forall|ps: Seq<(String, String)>|
                startup_round_trips(ps) && startup_frame(ps).len() <= buf@.len() && buf@.subrange(
                    0,
                    startup_frame(ps).len() as int,
                ) == #[trigger] startup_frame(ps) ==> parameters@.len() <= ps.len() && same_params(
                    parameters@,
                    ps.subrange(0, parameters@.len() as int),
                ) && q == 8 + startup_params_bytes(ps.subrange(0, parameters@.len() as int)).len(),
        decreases end - q,
    {
        let ghost k = parameters@.len() as int;
        proof {
            assert forall|ps: Seq<(String, String)>|
                startup_round_trips(ps) && startup_frame(ps).len() <= buf@.len() && buf@.subrange(
                    0,
                    startup_frame(ps).len() as int,
                ) == #[trigger] startup_frame(ps) implies k < ps.len() && buf@.subrange(
                q as int,
                q + cstr(ps[k].0@).len(),
            ) == cstr(ps[k].0@) && q + cstr(ps[k].0@).len() <= end by {
                if k == ps.len() {
                    assert(ps.subrange(0, k) =~= ps);
                }
                lemma_params_prefix(ps, k + 1);
                lemma_params_step(ps, k);
                let whole = startup_params_bytes(ps);
                let a = startup_params_bytes(ps.subrange(0, k));
                let c = cstr(ps[k].0@);
                let al: int = a.len() as int;
                let cl: int = c.len() as int;
                let b = startup_params_bytes(ps.subrange(0, k + 1));
                assert(b.subrange(al, al + cl) =~= c);
                assert(buf@.subrange(q as int, q + c.len()) =~= buf@.subrange(8, len - 1).subrange(
                    al,
                    al + cl,
                ));
                assert(whole.subrange(al, al + cl) =~= whole.subrange(0, b.len() as int).subrange(
                    al,
                    al + cl,
                ));
            }
        }
        let (key, q1) = match read_cstr(buf, q, end) {
            Ok(x) => x,
            Err(e) => {
                return Err(e);
            },
        };
        proof {
            assert forall|ps: Seq<(String, String)>|
                startup_round_trips(ps) && startup_frame(ps).len() <= buf@.len() && buf@.subrange(
                    0,
                    startup_frame(ps).len() as int,
                ) == #[trigger] startup_frame(ps) implies buf@.subrange(q1 as int, q1 + cstr(ps[k].1@).len())
                == cstr(ps[k].1@) && q1 + cstr(ps[k].1@).len() <= end by {
                lemma_params_prefix(ps, k + 1);
                lemma_params_step(ps, k);
                let whole = startup_params_bytes(ps);
                let a = startup_params_bytes(ps.subrange(0, k));
                let c = cstr(ps[k].0@);
                let al: int = a.len() as int;
                let cl: int = c.len() as int;
                let d = cstr(ps[k].1@);
                let dl: int = d.len() as int;
                let b = startup_params_bytes(ps.subrange(0, k + 1));
                assert(b.subrange(al + cl, al + cl + dl) =~= d);
                assert(buf@.subrange(q1 as int, q1 + d.len()) =~= buf@.subrange(8, len - 1).subrange(
                    al + cl,
                    al + cl + dl,
                ));
                assert(whole.subrange(al + cl, al + cl + dl) =~= whole.subrange(
                    0,
                    b.len() as int,
                ).subrange(al + cl, al + cl + dl));
            }
        }
        let (value, q2) = match read_cstr(buf, q1, end) {
            Ok(x) => x,
            Err(e) => {
                return Err(e);
            },
        };
        let ghost before = parameters@;
        parameters.push((key, value));
        assert(parameters@.drop_last() =~= before);
        assert(buf@.subrange(8, q2 as int) =~= buf@.subrange(8, q as int) + buf@.subrange(q as int, q1 as int)
            + buf@.subrange(q1 as int, q2 as int));
        q = q2;
        proof {
            assert forall|ps: Seq<(String, String)>|
                startup_round_trips(ps) && startup_frame(ps).len() <= buf@.len() && buf@.subrange(
                    0,
                    startup_frame(ps).len() as int,
                ) == #[trigger] startup_frame(ps) implies parameters@.len() <= ps.len() && same_params(
                parameters@,
                ps.subrange(0, parameters@.len() as int),
            ) && q == 8 + startup_params_bytes(ps.subrange(0, parameters@.len() as int)).len() by {
                lemma_params_step(ps, k);
                assert(same_params(before, ps.subrange(0, k)));
                assert forall|i: int| 0 <= i < parameters@.len() implies #[trigger] parameters@[i].0@ == ps.subrange(
                    0,
                    k + 1,
                )[i].0@ && parameters@[i].1@ == ps.subrange(0, k + 1)[i].1@ by {
                    if i < k {
                        assert(parameters@[i] == before[i]);
                        assert(ps.subrange(0, k)[i] == ps.subrange(0, k + 1)[i]);
                    }
                }
            }
        }
    }
    proof {
        assert forall|ps: Seq<(String, String)>|
            startup_round_trips(ps) && startup_frame(ps).len() <= buf@.len() && buf@.subrange(
                0,
                startup_frame(ps).len() as int,
            ) == #[trigger] startup_frame(ps) implies parameters@.len() == ps.len() && q + 1 == end by {
            let k = parameters@.len() as int;
            if k < ps.len() {
                lemma_params_prefix(ps, k + 1);
                lemma_params_step(ps, k);
                let a = startup_params_bytes(ps.subrange(0, k));
                let c = cstr(ps[k].0@);
                let al: int = a.len() as int;
                let cl: int = c.len() as int;
                let b = startup_params_bytes(ps.subrange(0, k + 1));
                assert(b[al] == c[0]);
                assert(c[0] == vstd::utf8::encode_utf8(ps[k].0@)[0]);
                assert(buf@[q as int] == buf@.subrange(8, len - 1)[al]);
                assert(startup_params_bytes(ps)[al] == startup_params_bytes(ps).subrange(0, b.len() as int)[al]);
            }
            assert(ps.subrange(0, k) =~= ps);
        }
    }
    if q >= end || q + 1 != end {
        return Err(ProtocolError::InvalidLength);
    }
    assert(buf@.subrange(0, end as int) =~= buf@.subrange(0, 4) + buf@.subrange(4, 8) + buf@.subrange(8, q as int)
        + seq![buf@[q as int]]);
    proof {
        assert forall|ps: Seq<(String, String)>|
            startup_round_trips(ps) && startup_frame(ps).len() <= buf@.len() && buf@.subrange(
                0,
                startup_frame(ps).len() as int,
            ) == #[trigger] startup_frame(ps) implies same_params(parameters@, ps) by {
            assert(ps.subrange(0, ps.len() as int) =~= ps);
        }
    }
    Ok(Some((ClientMessage::Startup(Startup { protocol_major: 3, protocol_minor: 0, parameters }), end)))
}

} // verus!
