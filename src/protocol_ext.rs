//! Row batches: result rows serialised directly into DataRow frames.
use vstd::prelude::*;
use vstd::string::StringSliceAdditionalSpecFns;
use crate::protocol::{FormatCode, RowDescription};
use crate::to_wire::ToWire;
use bytes::{Bytes, BytesMut};
use crate::wire::{
    be_i16, be_i32, be_i64, decimal, digits, push_all, push_be_i16, push_be_i32, push_be_i64, push_decimal,
};

verus! {

/// Accumulates DataRow frames for one result set.
pub struct DataRowBatch {
    format_code: FormatCode,
    num_cols: usize,
    num_rows: usize,
    data: BytesMut,
}

/// One row being written; `finish` appends it to its batch.
pub struct DataRowWriter {
    format_code: FormatCode,
    num_cols: usize,
    current_col: usize,
    row: Vec<u8>,
}

#[verifier::external_type_specification]
#[verifier::external_body]
pub struct ExBytesMut(BytesMut);

#[verifier::external_type_specification]
#[verifier::external_body]
pub struct ExBytes(Bytes);

/// The bytes a `BytesMut` holds.
pub uninterp spec fn bytes_mut_contents(b: BytesMut) -> Seq<u8>;

/// The bytes a `Bytes` holds.
pub uninterp spec fn bytes_contents(b: Bytes) -> Seq<u8>;

/// Relies on bytes' `BytesMut::new`: an empty buffer.
#[verifier::external_body]
fn empty_buffer() -> (r: BytesMut)
    ensures
        bytes_mut_contents(r) == Seq::<u8>::empty(),
{
    BytesMut::new()
}

/// Relies on bytes' `BytesMut::extend_from_slice`: appends `src`.
#[verifier::external_body]
fn append(b: &mut BytesMut, src: &[u8])
    ensures
        bytes_mut_contents(*final(b)) == bytes_mut_contents(*old(b)) + src@,
{
    b.extend_from_slice(src)
}

/// Relies on bytes' `Clone` of `BytesMut` and `BytesMut::freeze`: an immutable copy of
/// the same bytes.
#[verifier::external_body]
fn frozen_copy(b: &BytesMut) -> (r: Bytes)
    ensures
        bytes_contents(r) == bytes_mut_contents(*b),
{
    b.clone().freeze()
}

/// Relies on bytes' `From<BytesMut> for Vec<u8>`: the same bytes in a `Vec`.
#[verifier::external_body]
fn into_vec(b: BytesMut) -> (r: Vec<u8>)
    ensures
        r@ == bytes_mut_contents(b),
{
    Vec::from(b)
}

/// A DataRow frame holding the given column bytes.
pub open spec fn data_row(num_cols: usize, columns: Seq<u8>) -> Seq<u8> {
    let payload = be_i16(num_cols as i16) + columns;
    seq![68u8] + be_i32((payload.len() + 4) as i32) + payload
}

/// One column entry: its length then its bytes.
pub open spec fn column(value: Seq<u8>) -> Seq<u8> {
    be_i32(value.len() as i32) + value
}

/// The entry of a NULL column.
pub open spec fn null_column() -> Seq<u8> {
    be_i32(-1i32)
}

/// The bytes of an integer value in a format: decimal text or big-endian.
pub open spec fn int_value(fmt: FormatCode, v: int, binary: Seq<u8>) -> Seq<u8> {
    match fmt {
        FormatCode::Text => decimal(v),
        FormatCode::Binary => binary,
    }
}

/// The bytes of a boolean value in a format.
pub open spec fn bool_value(fmt: FormatCode, v: bool) -> Seq<u8> {
    match fmt {
        FormatCode::Text => if v { seq![116u8] } else { seq![102u8] },
        FormatCode::Binary => if v { seq![1u8] } else { seq![0u8] },
    }
}

/// Days from 0001-01-01 (day 1) to 2000-01-01, the Postgres date epoch.
pub const PG_EPOCH_DAYS_FROM_CE: i32 = 730120;

/// Seconds from 1970-01-01 to 2000-01-01, both at midnight UTC.
pub const PG_EPOCH_UNIX_SECS: i64 = 946684800;

/// A calendar date, as days since 2000-01-01.
#[derive(Clone, Copy, Debug, PartialEq, Eq, Structural)]
pub struct Date {
    pub days: i32,
}

/// A time of day, as microseconds since midnight.
#[derive(Clone, Copy, Debug, PartialEq, Eq, Structural)]
pub struct Time {
    pub micros: i64,
}

/// A date and time without zone, as microseconds since 2000-01-01 00:00:00.
#[derive(Clone, Copy, Debug, PartialEq, Eq, Structural)]
pub struct Timestamp {
    pub micros: i64,
}

/// ISO text (`YYYY-MM-DD`) that chrono gives for the date numbered `days_from_ce`
/// (0001-01-01 is day 1); `None` outside chrono's range.
pub uninterp spec fn date_text_of(days_from_ce: int) -> Option<Seq<char>>;

/// Text (`HH:MM:SS` with any fraction) that chrono gives for a time of day.
pub uninterp spec fn time_text_of(secs: int, nanos: int) -> Seq<char>;

/// Text (`YYYY-MM-DD HH:MM:SS` with any fraction) that chrono gives for a UNIX
/// timestamp; `None` outside chrono's range.
pub uninterp spec fn timestamp_text_of(secs: int, nanos: int) -> Option<Seq<char>>;

/// Relies on chrono's `NaiveDate::from_num_days_from_ce_opt` and its `Display`, which
/// writes `YYYY-MM-DD` in ASCII, with a sign and up to six year digits outside 0..=9999.
#[verifier::external_body]
fn date_text(days_from_ce: i32) -> (r: Option<String>)
    ensures
        r is Some <==> date_text_of(days_from_ce as int) is Some,
        r is Some ==> r->Some_0@ == date_text_of(days_from_ce as int)->Some_0,
        r is Some ==> vstd::utf8::encode_utf8(r->Some_0@).len() <= 13,
{
    chrono::NaiveDate::from_num_days_from_ce_opt(days_from_ce).map(|d| d.to_string())
}

/// Relies on chrono's `NaiveTime::from_num_seconds_from_midnight_opt`, which accepts
/// a second of the day with a sub-second part below one second, or below two seconds
/// in the last second of a minute (a leap second), and on its `Display`, which writes
/// `HH:MM:SS` and at most nine fraction digits in ASCII.
#[verifier::external_body]
fn time_text(secs: u32, nanos: u32) -> (r: Option<String>)
    ensures
        r is Some <==> (secs < 86400 && nanos < 2_000_000_000 && (nanos < 1_000_000_000 || secs % 60 == 59)),
        r is Some ==> r->Some_0@ == time_text_of(secs as int, nanos as int),
        r is Some ==> vstd::utf8::encode_utf8(r->Some_0@).len() <= 18,
{
    chrono::NaiveTime::from_num_seconds_from_midnight_opt(secs, nanos).map(|t| t.to_string())
}

/// The whole second of a time of day given in microseconds; a leap second counts as
/// the day's last second.
pub open spec fn time_secs(micros: int) -> int {
    if micros >= 86_400_000_000 {
        86399
    } else {
        micros / 1_000_000
    }
}

/// The nanoseconds past `time_secs`; at least one second during a leap second.
pub open spec fn time_nanos(micros: int) -> int {
    if micros >= 86_400_000_000 {
        (micros - 86_399_000_000) * 1000
    } else {
        (micros % 1_000_000) * 1000
    }
}

/// Relies on chrono's `DateTime::from_timestamp`, `naive_utc` and the `Display` of
/// `NaiveDateTime`: the date's text, a space, then the time's text, in ASCII.
#[verifier::external_body]
fn timestamp_text(secs: i64, nanos: u32) -> (r: Option<String>)
    ensures
        r is Some <==> timestamp_text_of(secs as int, nanos as int) is Some,
        r is Some ==> r->Some_0@ == timestamp_text_of(secs as int, nanos as int)->Some_0,
        r is Some ==> vstd::utf8::encode_utf8(r->Some_0@).len() <= 32,
{
    chrono::DateTime::from_timestamp(secs, nanos).map(|t| t.naive_utc().to_string())
}

/// Bytes of a text value that chrono may fail to produce.
pub open spec fn chrono_bytes(t: Option<Seq<char>>) -> Seq<u8> {
    vstd::utf8::encode_utf8(t->Some_0)
}

/// Whether a text value can be written as a column.
pub open spec fn text_fits(t: Option<Seq<char>>) -> bool {
    t is Some && chrono_bytes(t).len() <= i32::MAX
}

/// Text of a timestamp: its UNIX seconds and nanoseconds, as chrono shows them.
pub open spec fn timestamp_text_spec(micros: i64) -> Option<Seq<char>> {
    timestamp_text_of(
        micros as int / 1_000_000 + PG_EPOCH_UNIX_SECS as int,
        (micros as int % 1_000_000) * 1000,
    )
}

impl DataRowBatch {
    pub closed spec fn spec_format(&self) -> FormatCode {
        self.format_code
    }

    pub closed spec fn spec_num_cols(&self) -> usize {
        self.num_cols
    }

    pub closed spec fn spec_num_rows(&self) -> usize {
        self.num_rows
    }

    /// The DataRow frames completed so far, back to back.
    pub closed spec fn spec_data(&self) -> Seq<u8> {
        bytes_mut_contents(self.data)
    }

    /// Creates an empty batch in the given format, with no columns.
    pub fn new(format_code: FormatCode) -> (r: DataRowBatch)
        ensures
            r.spec_format() == format_code,
            r.spec_num_cols() == 0,
            r.spec_num_rows() == 0,
            r.spec_data() == Seq::<u8>::empty(),
    {
        DataRowBatch { format_code, num_cols: 0, num_rows: 0, data: empty_buffer() }
    }

    /// Creates an empty batch with the format and column count of `desc`.
    pub fn from_row_desc(desc: &RowDescription) -> (r: DataRowBatch)
        ensures
            r.spec_format() == desc.format_code,
            r.spec_num_cols() == desc.fields@.len(),
            r.spec_num_rows() == 0,
            r.spec_data() == Seq::<u8>::empty(),
    {
        DataRowBatch { format_code: desc.format_code, num_cols: desc.fields.len(), num_rows: 0, data: empty_buffer() }
    }

    /// Starts a new row. The row reaches the batch when its writer is finished.
    pub fn create_row(&mut self) -> (w: DataRowWriter)
        requires
            old(self).spec_num_rows() < usize::MAX,
            old(self).spec_num_cols() <= i16::MAX,
        ensures
            final(self).spec_num_rows() == old(self).spec_num_rows() + 1,
            final(self).spec_format() == old(self).spec_format(),
            final(self).spec_num_cols() == old(self).spec_num_cols(),
            final(self).spec_data() == old(self).spec_data(),
            w.wf(),
            w.spec_format() == old(self).spec_format(),
            w.spec_num_cols() == old(self).spec_num_cols(),
            w.spec_current_col() == 0,
            w.spec_columns() == Seq::<u8>::empty(),
    {
        self.num_rows = self.num_rows + 1;
        DataRowWriter::new(self.format_code, self.num_cols)
    }

    /// Changes the column count; meant for use before any row is started.
    pub fn set_num_cols(&mut self, num_cols: usize)
        ensures
            final(self).spec_num_cols() == num_cols,
            final(self).spec_format() == old(self).spec_format(),
            final(self).spec_num_rows() == old(self).spec_num_rows(),
            final(self).spec_data() == old(self).spec_data(),
    {
        self.num_cols = num_cols;
    }

    pub fn num_cols(&self) -> (r: usize)
        ensures
            r == self.spec_num_cols(),
    {
        self.num_cols
    }

    pub fn num_rows(&self) -> (r: usize)
        ensures
            r == self.spec_num_rows(),
    {
        self.num_rows
    }

    pub fn format_code(&self) -> (r: FormatCode)
        ensures
            r == self.spec_format(),
    {
        self.format_code
    }

    /// A copy of the completed DataRow frames.
    pub fn data(&self) -> (r: Bytes)
        ensures
            bytes_contents(r) == self.spec_data(),
    {
        frozen_copy(&self.data)
    }

    /// Hands over the completed DataRow frames, as they go on the wire.
    pub fn into_data(self) -> (r: Vec<u8>)
        ensures
            r@ == self.spec_data(),
    {
        into_vec(self.data)
    }
}

impl DataRowWriter {
    pub closed spec fn spec_format(&self) -> FormatCode {
        self.format_code
    }

    pub closed spec fn spec_num_cols(&self) -> usize {
        self.num_cols
    }

    pub closed spec fn spec_current_col(&self) -> usize {
        self.current_col
    }

    /// The column entries written so far.
    pub closed spec fn spec_columns(&self) -> Seq<u8> {
        self.row@.subrange(2, self.row@.len() as int)
    }

    pub closed spec fn wf(&self) -> bool {
        &&& self.row@.len() >= 2
        &&& self.row@.subrange(0, 2) == be_i16(self.num_cols as i16)
    }

    /// Room for one more column whose value has `len` bytes.
    pub open spec fn can_write(&self, len: nat) -> bool {
        &&& self.spec_current_col() < self.spec_num_cols()
        &&& len <= i32::MAX
    }

    fn new(format_code: FormatCode, num_cols: usize) -> (w: DataRowWriter)
        ensures
            w.wf(),
            w.spec_format() == format_code,
            w.spec_num_cols() == num_cols,
            w.spec_current_col() == 0,
            w.spec_columns() == Seq::<u8>::empty(),
    {
        let mut row: Vec<u8> = Vec::new();
        push_be_i16(&mut row, num_cols as i16);
        let w = DataRowWriter { format_code, num_cols, current_col: 0, row };
        assert(w.row@.subrange(0, 2) =~= be_i16(num_cols as i16));
        assert(w.spec_columns() =~= Seq::<u8>::empty());
        w
    }

    pub fn current_col(&self) -> (r: usize)
        ensures
            r == self.spec_current_col(),
    {
        self.current_col
    }

    pub fn format_code(&self) -> (r: FormatCode)
        ensures
            r == self.spec_format(),
    {
        self.format_code
    }

    pub fn num_cols(&self) -> (r: usize)
        ensures
            r == self.spec_num_cols(),
    {
        self.num_cols
    }

    fn write_value(&mut self, data: &[u8])
        requires
            old(self).wf(),
            old(self).can_write(data@.len()),
        ensures
            final(self).wf(),
            final(self).spec_format() == old(self).spec_format(),
            final(self).spec_num_cols() == old(self).spec_num_cols(),
            final(self).spec_current_col() == old(self).spec_current_col() + 1,
            final(self).spec_columns() == old(self).spec_columns() + column(data@),
    {
        self.current_col = self.current_col + 1;
        push_be_i32(&mut self.row, data.len() as i32);
        push_all(&mut self.row, data);
        assert(self.row@.subrange(0, 2) =~= old(self).row@.subrange(0, 2));
        assert(self.spec_columns() =~= old(self).spec_columns() + column(data@));
    }

    /// Writes a NULL for the next column.
    pub fn write_null(&mut self)
        requires
            old(self).wf(),
            old(self).spec_current_col() < old(self).spec_num_cols(),
        ensures
            final(self).wf(),
            final(self).spec_format() == old(self).spec_format(),
            final(self).spec_num_cols() == old(self).spec_num_cols(),
            final(self).spec_current_col() == old(self).spec_current_col() + 1,
            final(self).spec_columns() == old(self).spec_columns() + null_column(),
    {
        self.current_col = self.current_col + 1;
        push_be_i32(&mut self.row, -1i32);
        assert(self.row@.subrange(0, 2) =~= old(self).row@.subrange(0, 2));
        assert(self.spec_columns() =~= old(self).spec_columns() + null_column());
    }

    /// Writes raw bytes for the next column, whatever the format.
    pub fn write_bytes(&mut self, data: &[u8])
        requires
            old(self).wf(),
            old(self).can_write(data@.len()),
        ensures
            final(self).wf(),
            final(self).spec_format() == old(self).spec_format(),
            final(self).spec_num_cols() == old(self).spec_num_cols(),
            final(self).spec_current_col() == old(self).spec_current_col() + 1,
            final(self).spec_columns() == old(self).spec_columns() + column(data@),
    {
        self.write_value(data);
    }

    /// Writes a string's UTF-8 bytes for the next column; text and binary forms agree.
    pub fn write_string(&mut self, val: &str)
        requires
            old(self).wf(),
            old(self).can_write(val.spec_bytes().len()),
        ensures
            final(self).wf(),
            final(self).spec_format() == old(self).spec_format(),
            final(self).spec_num_cols() == old(self).spec_num_cols(),
            final(self).spec_current_col() == old(self).spec_current_col() + 1,
            final(self).spec_columns() == old(self).spec_columns() + column(val.spec_bytes()),
    {
        self.write_value(val.as_bytes());
    }

    /// Writes a boolean: `t`/`f` as text, one byte 1/0 as binary.
    pub fn write_bool(&mut self, val: bool)
        requires
            old(self).wf(),
            old(self).spec_current_col() < old(self).spec_num_cols(),
        ensures
            final(self).wf(),
            final(self).spec_format() == old(self).spec_format(),
            final(self).spec_num_cols() == old(self).spec_num_cols(),
            final(self).spec_current_col() == old(self).spec_current_col() + 1,
            final(self).spec_columns() == old(self).spec_columns() + column(
                bool_value(old(self).spec_format(), val),
            ),
    {
        let mut b: Vec<u8> = Vec::new();
        match self.format_code {
            FormatCode::Text => b.push(if val { 116u8 } else { 102u8 }),
            FormatCode::Binary => b.push(if val { 1u8 } else { 0u8 }),
        }
        assert(b@ =~= bool_value(self.format_code, val));
        self.write_value(b.as_slice());
    }

    fn write_integer(&mut self, v: i64, binary: &Vec<u8>)
        requires
            old(self).wf(),
            old(self).spec_current_col() < old(self).spec_num_cols(),
            binary@.len() <= 8,
        ensures
            final(self).wf(),
            final(self).spec_format() == old(self).spec_format(),
            final(self).spec_num_cols() == old(self).spec_num_cols(),
            final(self).spec_current_col() == old(self).spec_current_col() + 1,
            final(self).spec_columns() == old(self).spec_columns() + column(
                int_value(old(self).spec_format(), v as int, binary@),
            ),
    {
        match self.format_code {
            FormatCode::Text => {
                let mut t: Vec<u8> = Vec::new();
                push_decimal(&mut t, v);
                assert(t@ =~= decimal(v as int));
                proof {
                    lemma_decimal_len(v);
                }
                self.write_value(t.as_slice());
            },
            FormatCode::Binary => self.write_value(binary.as_slice()),
        }
    }

    /// Writes any value in the batch's format: its text form or its binary form.
    pub fn write<T: ToWire>(&mut self, val: T)
        requires
            old(self).wf(),
            old(self).spec_current_col() < old(self).spec_num_cols(),
            (match old(self).spec_format() {
                FormatCode::Text => val.text_spec(),
                FormatCode::Binary => val.binary_spec(),
            }).len() <= i32::MAX,
        ensures
            final(self).wf(),
            final(self).spec_format() == old(self).spec_format(),
            final(self).spec_num_cols() == old(self).spec_num_cols(),
            final(self).spec_current_col() == old(self).spec_current_col() + 1,
            final(self).spec_columns() == old(self).spec_columns() + column(
                match old(self).spec_format() {
                    FormatCode::Text => val.text_spec(),
                    FormatCode::Binary => val.binary_spec(),
                },
            ),
    {
        let bytes = match self.format_code {
            FormatCode::Text => val.to_text(),
            FormatCode::Binary => val.to_binary(),
        };
        self.write_value(bytes.as_slice());
    }

    /// Writes a one-byte integer (`"char"`).
    pub fn write_char(&mut self, val: i8)
        requires
            old(self).wf(),
            old(self).spec_current_col() < old(self).spec_num_cols(),
        ensures
            final(self).wf(),
            final(self).spec_format() == old(self).spec_format(),
            final(self).spec_num_cols() == old(self).spec_num_cols(),
            final(self).spec_current_col() == old(self).spec_current_col() + 1,
            final(self).spec_columns() == old(self).spec_columns() + column(
                int_value(old(self).spec_format(), val as int, seq![val as u8]),
            ),
    {
        let mut b: Vec<u8> = Vec::new();
        b.push(val as u8);
        assert(b@ =~= seq![val as u8]);
        self.write_integer(val as i64, &b);
    }

    /// Writes an int2: decimal text, or two big-endian bytes.
    pub fn write_int2(&mut self, val: i16)
        requires
            old(self).wf(),
            old(self).spec_current_col() < old(self).spec_num_cols(),
        ensures
            final(self).wf(),
            final(self).spec_format() == old(self).spec_format(),
            final(self).spec_num_cols() == old(self).spec_num_cols(),
            final(self).spec_current_col() == old(self).spec_current_col() + 1,
            final(self).spec_columns() == old(self).spec_columns() + column(
                int_value(old(self).spec_format(), val as int, be_i16(val)),
            ),
    {
        let mut b: Vec<u8> = Vec::new();
        push_be_i16(&mut b, val);
        assert(b@ =~= be_i16(val));
        self.write_integer(val as i64, &b);
    }

    /// Writes an int4: decimal text, or four big-endian bytes.
    pub fn write_int4(&mut self, val: i32)
        requires
            old(self).wf(),
            old(self).spec_current_col() < old(self).spec_num_cols(),
        ensures
            final(self).wf(),
            final(self).spec_format() == old(self).spec_format(),
            final(self).spec_num_cols() == old(self).spec_num_cols(),
            final(self).spec_current_col() == old(self).spec_current_col() + 1,
            final(self).spec_columns() == old(self).spec_columns() + column(
                int_value(old(self).spec_format(), val as int, be_i32(val)),
            ),
    {
        let mut b: Vec<u8> = Vec::new();
        push_be_i32(&mut b, val);
        assert(b@ =~= be_i32(val));
        self.write_integer(val as i64, &b);
    }

    /// Writes an int8: decimal text, or eight big-endian bytes.
    pub fn write_int8(&mut self, val: i64)
        requires
            old(self).wf(),
            old(self).spec_current_col() < old(self).spec_num_cols(),
        ensures
            final(self).wf(),
            final(self).spec_format() == old(self).spec_format(),
            final(self).spec_num_cols() == old(self).spec_num_cols(),
            final(self).spec_current_col() == old(self).spec_current_col() + 1,
            final(self).spec_columns() == old(self).spec_columns() + column(
                int_value(old(self).spec_format(), val as int, be_i64(val)),
            ),
    {
        let mut b: Vec<u8> = Vec::new();
        push_be_i64(&mut b, val);
        assert(b@ =~= be_i64(val));
        self.write_integer(val, &b);
    }

    /// Writes a date: ISO text, or the days since 2000-01-01 as a big-endian int4.
    /// Returns false, writing nothing, when text is asked for a date chrono cannot show.
    pub fn write_date(&mut self, val: Date) -> (ok: bool)
        requires
            old(self).wf(),
            old(self).spec_current_col() < old(self).spec_num_cols(),
        ensures
            final(self).wf(),
            final(self).spec_format() == old(self).spec_format(),
            final(self).spec_num_cols() == old(self).spec_num_cols(),
            old(self).spec_format() == FormatCode::Binary ==> ok,
            old(self).spec_format() == FormatCode::Text ==> ok == (val.days <= i32::MAX - PG_EPOCH_DAYS_FROM_CE
                && text_fits(date_text_of(val.days + PG_EPOCH_DAYS_FROM_CE))),
            ok ==> final(self).spec_current_col() == old(self).spec_current_col() + 1,
            ok && old(self).spec_format() == FormatCode::Binary ==> final(self).spec_columns()
                == old(self).spec_columns() + column(be_i32(val.days)),
            ok && old(self).spec_format() == FormatCode::Text ==> final(self).spec_columns()
                == old(self).spec_columns() + column(chrono_bytes(date_text_of(val.days + PG_EPOCH_DAYS_FROM_CE))),
            !ok ==> *final(self) == *old(self),
    {
        match self.format_code {
            FormatCode::Binary => {
                self.write_int4(val.days);
                true
            },
            FormatCode::Text => {
                if val.days > i32::MAX - PG_EPOCH_DAYS_FROM_CE {
                    return false;
                }
                match date_text(val.days + PG_EPOCH_DAYS_FROM_CE) {
                    None => false,
                    Some(t) => {
                        if t.as_str().as_bytes().len() > 2147483647 {
                            return false;
                        }
                        self.write_string(t.as_str());
                        true
                    },
                }
            },
        }
    }

    /// Writes a time of day: `HH:MM:SS` text with any fraction, or the microseconds
    /// since midnight as a big-endian int8. The last microsecond-second of the day may
    /// run into a leap second, up to 86,401,000,000 microseconds.
    pub fn write_time(&mut self, val: Time) -> (ok: bool)
        requires
            old(self).wf(),
            old(self).spec_current_col() < old(self).spec_num_cols(),
            0 <= val.micros < 86_401_000_000,
        ensures
            ok,
            final(self).wf(),
            final(self).spec_format() == old(self).spec_format(),
            final(self).spec_num_cols() == old(self).spec_num_cols(),
            final(self).spec_current_col() == old(self).spec_current_col() + 1,
            old(self).spec_format() == FormatCode::Binary ==> final(self).spec_columns()
                == old(self).spec_columns() + column(be_i64(val.micros)),
            old(self).spec_format() == FormatCode::Text ==> final(self).spec_columns()
                == old(self).spec_columns() + column(vstd::utf8::encode_utf8(
                time_text_of(time_secs(val.micros as int), time_nanos(val.micros as int)),
            )),
    {
        match self.format_code {
            FormatCode::Binary => {
                self.write_int8(val.micros);
                true
            },
            FormatCode::Text => {
                let (secs, nanos) = if val.micros >= 86_400_000_000 {
                    (86399u32, ((val.micros - 86_399_000_000) * 1000) as u32)
                } else {
                    ((val.micros / 1_000_000) as u32, ((val.micros % 1_000_000) * 1000) as u32)
                };
                match time_text(secs, nanos) {
                    None => false,
                    Some(t) => {
                        self.write_string(t.as_str());
                        true
                    },
                }
            },
        }
    }

    /// Writes a timestamp: ISO text, or the microseconds since 2000-01-01 00:00:00 as
    /// a big-endian int8. Returns false, writing nothing, when text is asked for a
    /// timestamp chrono cannot show.
    pub fn write_timestamp(&mut self, val: Timestamp) -> (ok: bool)
        requires
            old(self).wf(),
            old(self).spec_current_col() < old(self).spec_num_cols(),
        ensures
            final(self).wf(),
            final(self).spec_format() == old(self).spec_format(),
            final(self).spec_num_cols() == old(self).spec_num_cols(),
            old(self).spec_format() == FormatCode::Binary ==> ok,
            old(self).spec_format() == FormatCode::Text ==> ok == text_fits(timestamp_text_spec(val.micros)),
            ok ==> final(self).spec_current_col() == old(self).spec_current_col() + 1,
            ok && old(self).spec_format() == FormatCode::Binary ==> final(self).spec_columns()
                == old(self).spec_columns() + column(be_i64(val.micros)),
            ok && old(self).spec_format() == FormatCode::Text ==> final(self).spec_columns()
                == old(self).spec_columns() + column(chrono_bytes(timestamp_text_spec(val.micros))),
            !ok ==> *final(self) == *old(self),
    {
        match self.format_code {
            FormatCode::Binary => {
                self.write_int8(val.micros);
                true
            },
            FormatCode::Text => {
                let mut whole: i64 = val.micros / 1_000_000;
                let mut part: i64 = val.micros % 1_000_000;
                if part < 0 {
                    whole = whole - 1;
                    part = part + 1_000_000;
                }
                assert(whole == val.micros as int / 1_000_000 && part == val.micros as int % 1_000_000)
                    by (nonlinear_arith)
                    requires
                        whole * 1_000_000 + part == val.micros,
                        0 <= part < 1_000_000,
                ;
                let secs = whole + PG_EPOCH_UNIX_SECS;
                let nanos = (part * 1000) as u32;
                match timestamp_text(secs, nanos) {
                    None => false,
                    Some(t) => {
                        if t.as_str().as_bytes().len() > 2147483647 {
                            return false;
                        }
                        self.write_string(t.as_str());
                        true
                    },
                }
            },
        }
    }

    /// Completes the row: appends its DataRow frame to `batch`.
    /// Every declared column must have been written.
    pub fn finish(self, batch: &mut DataRowBatch)
        requires
            self.wf(),
            self.spec_current_col() == self.spec_num_cols(),
            self.spec_num_cols() == old(batch).spec_num_cols(),
            self.spec_format() == old(batch).spec_format(),
            self.spec_columns().len() + 6 <= i32::MAX,
        ensures
            final(batch).spec_data() == old(batch).spec_data() + data_row(
                self.spec_num_cols(),
                self.spec_columns(),
            ),
            final(batch).spec_format() == old(batch).spec_format(),
            final(batch).spec_num_cols() == old(batch).spec_num_cols(),
            final(batch).spec_num_rows() == old(batch).spec_num_rows(),
    {
        let mut frame: Vec<u8> = Vec::new();
        frame.push(68u8);
        push_be_i32(&mut frame, (self.row.len() + 4) as i32);
        push_all(&mut frame, self.row.as_slice());
        assert(self.row@ =~= be_i16(self.num_cols as i16) + self.spec_columns());
        assert(frame@ =~= data_row(self.num_cols, self.spec_columns()));
        append(&mut batch.data, frame.as_slice());
    }
}

/// A row of one column holding `value` is the frame `'D'`, the length
/// `4 + 2 + 4 + value.len()`, the column count 1, the value's length, then the value.
pub proof fn lemma_single_column_row(value: Seq<u8>)
    requires
        4 + 2 + 4 + value.len() <= i32::MAX,
    ensures
        data_row(1, column(value)) == seq![68u8] + be_i32((4 + 2 + 4 + value.len()) as i32) + be_i16(1)
            + be_i32(value.len() as i32) + value,
{
    assert(data_row(1, column(value)) =~= seq![68u8] + be_i32((4 + 2 + 4 + value.len()) as i32) + be_i16(1)
        + be_i32(value.len() as i32) + value);
}

pub open spec fn pow10(k: nat) -> nat
    decreases k,
{
    if k == 0 {
        1
    } else {
        10 * pow10((k - 1) as nat)
    }
}

proof fn lemma_digits_len(n: nat, k: nat)
    requires
        k >= 1,
        n < pow10(k),
    ensures
        digits(n).len() <= k,
    decreases n,
{
    if n >= 10 {
        if k == 1 {
            assert(pow10(0) == 1);
        } else {
            let p = pow10((k - 1) as nat);
            assert(n / 10 < p) by (nonlinear_arith)
                requires
                    n < 10 * p,
            ;
            lemma_digits_len(n / 10, (k - 1) as nat);
        }
    }
}

/// Decimal digits of a u64 are at most 20.
pub proof fn lemma_decimal_digits_len(n: u64)
    ensures
        digits(n as nat).len() <= 20,
{
    reveal_with_fuel(pow10, 21);
    assert(pow10(20) == 100000000000000000000nat);
    lemma_digits_len(n as nat, 20);
}

/// Decimal text of an i64 has at most 20 bytes.
proof fn lemma_decimal_len(v: i64)
    ensures
        decimal(v as int).len() <= 20,
{
    reveal_with_fuel(pow10, 20);
    assert(pow10(19) == 10000000000000000000nat);
    if v < 0 {
        lemma_digits_len((-v) as nat, 19);
    } else {
        lemma_digits_len(v as nat, 19);
    }
}

} // verus!
