//! Timestamps and their text forms: blob file names and database values.
use vstd::prelude::*;
use crate::text::{chars_of, string_of, push_zero_padded, trim_end_chars, zero_padded, trim_end};

verus! {

/// Whether `chrono::DateTime::from_timestamp` accepts these seconds and
/// nanoseconds: the day lies between January 1 of the year -262143 and
/// December 31 of the year 262142 (the dates chrono represents), and the
/// nanoseconds stay under a second, or under two in the last second of a
/// minute (a leap second).
pub open spec fn chrono_timestamp_valid(secs: i64, nanos: u32) -> bool {
    let days = secs as int / 86400;
    &&& -96465292 <= days <= 95026236
    &&& (nanos < 1_000_000_000 || (nanos < 2_000_000_000 && secs as int % 60 == 59))
}

/// What chrono writes for the local date and time of the instant
/// `(secs, nanos)` at UTC offset `offset` (seconds east) with the format
/// `pattern`.
pub uninterp spec fn chrono_local_format(secs: i64, nanos: u32, offset: i32, pattern: Seq<char>) -> Seq<char>;

/// The instant and offset that `chrono::DateTime::parse_from_rfc3339` reads
/// from a string, if it accepts it.
pub uninterp spec fn chrono_rfc3339(s: Seq<char>) -> Option<(i64, u32, i32)>;

/// The instant that `str::parse::<chrono::DateTime<chrono::Utc>>` reads from
/// a string (a relaxed RFC 3339), if it accepts it.
pub uninterp spec fn chrono_utc_from_str(s: Seq<char>) -> Option<(i64, u32)>;

#[verifier::external_type_specification]
#[verifier::external_body]
pub struct ExChronoParseError(chrono::ParseError);

/// The pattern of the date and time in blob file names.
pub open spec fn file_pattern() -> Seq<char> {
    "%Y%m%d_%H%M%S"@
}

/// The pattern of the date and time in database values.
pub open spec fn db_pattern() -> Seq<char> {
    "%Y-%m-%dT%H:%M:%S"@
}

pub open spec fn offset_valid(offset: i32) -> bool {
    -86400 < offset < 86400
}

/// Calls `chrono::DateTime::from_timestamp`. Trusted: it returns a value
/// exactly on the instants `chrono_timestamp_valid` describes, as its source
/// shows (the day number must give a year within chrono's range, and
/// `NaiveTime::from_num_seconds_from_midnight_opt` takes nanoseconds of two
/// seconds or more, or of one second or more outside the last second of a
/// minute, as no time).
#[verifier::external_body]
fn timestamp_valid(secs: i64, nanos: u32) -> (b: bool)
    ensures
        b == chrono_timestamp_valid(secs, nanos),
{
    chrono::DateTime::from_timestamp(secs, nanos).is_some()
}

/// Formats the instant `(secs, nanos)` at the UTC offset `offset` with
/// `DateTime::format` of chrono. Trusted: the text is a function of the
/// arguments; the instant is one that `from_timestamp` accepts and the offset
/// one that `FixedOffset::east_opt` accepts (strictly within a day), and the
/// pattern is one of the two this library uses, so no step fails.
#[verifier::external_body]
fn local_format(secs: i64, nanos: u32, offset: i32, pattern: &str) -> (s: String)
    requires
        chrono_timestamp_valid(secs, nanos),
        offset_valid(offset),
        pattern@ == file_pattern() || pattern@ == db_pattern(),
    ensures
        s@ == chrono_local_format(secs, nanos, offset, pattern@),
{
    let utc = chrono::DateTime::from_timestamp(secs, nanos).unwrap();
    let zone = chrono::FixedOffset::east_opt(offset).unwrap();
    utc.with_timezone(&zone).format(pattern).to_string()
}

/// Calls `chrono::DateTime::parse_from_rfc3339` and takes the instant
/// (`timestamp`, `timestamp_subsec_nanos`) and the offset
/// (`local_minus_utc`) of the result. Trusted: what it reads is a function of
/// the text; an accepted instant round-trips through `from_timestamp` (as
/// chrono documents) and a `FixedOffset` lies strictly within a day.
#[verifier::external_body]
fn parse_rfc3339(s: &str) -> (r: Result<(i64, u32, i32), chrono::ParseError>)
    ensures
        match r {
            Ok(v) => chrono_rfc3339(s@) == Some(v) && chrono_timestamp_valid(v.0, v.1) && offset_valid(
                v.2,
            ),
            Err(_) => chrono_rfc3339(s@) is None,
        },
{
    chrono::DateTime::parse_from_rfc3339(s).map(
        |dt| (dt.timestamp(), dt.timestamp_subsec_nanos(), dt.offset().local_minus_utc()),
    )
}

/// Calls `str::parse::<chrono::DateTime<chrono::Utc>>` and takes the
/// instant (`timestamp`, `timestamp_subsec_nanos`) of the result. Trusted:
/// what it reads is a function of the text, and an accepted instant
/// round-trips through `from_timestamp` (as chrono documents).
#[verifier::external_body]
fn parse_utc(s: &str) -> (r: Option<(i64, u32)>)
    ensures
        r == chrono_utc_from_str(s@),
        r matches Some(v) ==> chrono_timestamp_valid(v.0, v.1),
{
    s.parse::<chrono::DateTime<chrono::Utc>>().ok().map(|dt| (dt.timestamp(), dt.timestamp_subsec_nanos()))
}

/// An instant with the UTC offset it was observed at.
#[derive(Debug, Clone, Copy, PartialEq, Eq, Structural)]
pub struct Timestamp {
    secs: i64,
    nanos: u32,
    offset_secs: i32,
}

/// Why a text is not a timestamp.
#[derive(Debug, Clone, Copy, PartialEq, Eq, Structural)]
pub enum TimestampError {
    /// Not an RFC 3339 date and time.
    InvalidRfc3339,
}

impl View for Timestamp {
    type V = (i64, u32, i32);

    /// Seconds since the Unix epoch, nanoseconds since that second, and the
    /// offset east of UTC in seconds.
    closed spec fn view(&self) -> (i64, u32, i32) {
        (self.secs, self.nanos, self.offset_secs)
    }
}

impl Timestamp {
    #[verifier::type_invariant]
    spec fn valid(self) -> bool {
        chrono_timestamp_valid(self.secs, self.nanos) && offset_valid(self.offset_secs)
    }

    /// The timestamp with these parts, when chrono can represent the instant
    /// and the offset lies strictly within a day.
    pub fn new(secs: i64, nanos: u32, offset_secs: i32) -> (r: Option<Timestamp>)
        ensures
            r is Some <==> chrono_timestamp_valid(secs, nanos) && offset_valid(offset_secs),
            r matches Some(t) ==> t@ == (secs, nanos, offset_secs),
    {
        if -86400 < offset_secs && offset_secs < 86400 && timestamp_valid(secs, nanos) {
            Some(Timestamp { secs, nanos, offset_secs })
        } else {
            None
        }
    }

    pub fn secs(&self) -> (s: i64)
        ensures
            s == self@.0,
    {
        self.secs
    }

    pub fn subsec_nanos(&self) -> (n: u32)
        ensures
            n == self@.1,
    {
        self.nanos
    }

    pub fn offset_secs(&self) -> (o: i32)
        ensures
            o == self@.2,
    {
        self.offset_secs
    }

    fn local(&self, pattern: &str) -> (s: String)
        requires
            pattern@ == file_pattern() || pattern@ == db_pattern(),
        ensures
            s@ == chrono_local_format(self@.0, self@.1, self@.2, pattern@),
    {
        proof {
            use_type_invariant(self);
        }
        local_format(self.secs, self.nanos, self.offset_secs, pattern)
    }
}

/// The sign and `HH:MM` of an offset; `Z` for zero when `z_for_zero`.
pub open spec fn offset_text(offset: i32, z_for_zero: bool) -> Seq<char> {
    if z_for_zero && offset == 0 {
        seq!['Z']
    } else {
        let sign = if offset > 0 || (!z_for_zero && offset == 0) {
            '+'
        } else {
            '-'
        };
        let a = if offset < 0 {
            -offset
        } else {
            offset as int
        };
        seq![sign] + zero_padded((a / 3600) as nat, 2) + seq![':'] + zero_padded(((a % 3600) / 60) as nat, 2)
    }
}

/// The fraction of a second for a database value: nothing for a whole
/// second, else a point and the nanoseconds (nine digits, or ten in a leap
/// second) without trailing zeros.
pub open spec fn nanos_text(nanos: u32) -> Seq<char> {
    if nanos == 0 {
        Seq::empty()
    } else {
        seq!['.'] + trim_end(zero_padded(nanos as nat, 9), '0')
    }
}

/// The fraction of a second for a file name: the milliseconds (truncated,
/// three digits) without trailing zeros, behind a point unless nothing is
/// left.
pub open spec fn millis_text(nanos: u32) -> Seq<char> {
    let t = trim_end(zero_padded((nanos / 1_000_000) as nat, 3), '0');
    if t.len() == 0 {
        Seq::empty()
    } else {
        seq!['.'] + t
    }
}

fn push_offset(out: &mut Vec<char>, offset_secs: i32, z_for_zero: bool)
    ensures
        final(out)@ == old(out)@ + offset_text(offset_secs, z_for_zero),
{
    if z_for_zero && offset_secs == 0 {
        out.push('Z');
        return;
    }
    let sign = if offset_secs > 0 || (!z_for_zero && offset_secs == 0) {
        '+'
    } else {
        '-'
    };
    let abs: u32 = if offset_secs < 0 {
        (-(offset_secs as i64)) as u32
    } else {
        offset_secs as u32
    };
    let ghost start = out@;
    out.push(sign);
    push_zero_padded(out, (abs / 3600) as u64, 2);
    out.push(':');
    push_zero_padded(out, ((abs % 3600) / 60) as u64, 2);
    assert(out@ =~= start + offset_text(offset_secs, z_for_zero));
}

/// Offset as text: `Z` for zero, else `+HH:MM` / `-HH:MM`.
pub fn format_offset(offset_secs: i32) -> (s: String)
    ensures
        s@ == offset_text(offset_secs, true),
{
    let mut out: Vec<char> = Vec::new();
    push_offset(&mut out, offset_secs, true);
    assert(out@ =~= offset_text(offset_secs, true));
    string_of(&out)
}

/// Offset as a database value writes it: never `Z`, always `+HH:MM` or
/// `-HH:MM`.
pub fn format_db_offset(offset_secs: i32) -> (s: String)
    ensures
        s@ == offset_text(offset_secs, false),
{
    let mut out: Vec<char> = Vec::new();
    push_offset(&mut out, offset_secs, false);
    assert(out@ =~= offset_text(offset_secs, false));
    string_of(&out)
}

fn push_nanos(out: &mut Vec<char>, nanos: u32)
    ensures
        final(out)@ == old(out)@ + nanos_text(nanos),
{
    if nanos == 0 {
        assert(out@ =~= old(out)@ + nanos_text(nanos));
        return;
    }
    let mut digits: Vec<char> = Vec::new();
    push_zero_padded(&mut digits, nanos as u64, 9);
    trim_end_chars(&mut digits, '0');
    let ghost start = out@;
    out.push('.');
    push_all(out, &digits);
    assert(digits@ =~= trim_end(zero_padded(nanos as nat, 9), '0'));
    assert(out@ =~= start + nanos_text(nanos));
}

fn push_millis(out: &mut Vec<char>, nanos: u32)
    ensures
        final(out)@ == old(out)@ + millis_text(nanos),
{
    let mut digits: Vec<char> = Vec::new();
    push_zero_padded(&mut digits, (nanos / 1_000_000) as u64, 3);
    trim_end_chars(&mut digits, '0');
    assert(digits@ =~= trim_end(zero_padded((nanos / 1_000_000) as nat, 3), '0'));
    if digits.len() == 0 {
        assert(out@ =~= old(out)@ + millis_text(nanos));
        return;
    }
    let ghost start = out@;
    out.push('.');
    push_all(out, &digits);
    assert(out@ =~= start + millis_text(nanos));
}

/// Appends all of `more`.
pub fn push_all(out: &mut Vec<char>, more: &[char])
    ensures
        final(out)@ == old(out)@ + more@,
{
    let ghost start = out@;
    let mut i: usize = 0;
    while i < more.len()
        invariant
            i <= more@.len(),
            out@ == start + more@.subrange(0, i as int),
        decreases more@.len() - i,
    {
        out.push(more[i]);
        i = i + 1;
        assert(out@ =~= start + more@.subrange(0, i as int));
    }
    assert(more@.subrange(0, more@.len() as int) =~= more@);
}

/// Fraction of a second as a database value writes it: empty for zero, else
/// `.` and the nanoseconds without trailing zeros.
pub fn format_nanos_trimmed(nanos: u32) -> (s: String)
    ensures
        s@ == nanos_text(nanos),
{
    let mut out: Vec<char> = Vec::new();
    push_nanos(&mut out, nanos);
    assert(out@ =~= nanos_text(nanos));
    string_of(&out)
}

/// The text of a timestamp in blob file names:
/// `YYYYMMDD_hhmmss[.mmm]_<offset>`, with milliseconds truncated and trailing
/// zeros dropped, and `Z` for a zero offset.
pub open spec fn file_ts_text(t: (i64, u32, i32)) -> Seq<char> {
    chrono_local_format(t.0, t.1, t.2, file_pattern()) + millis_text(t.1) + seq!['_'] + offset_text(t.2, true)
}

/// The text of a timestamp as a database value (RFC 3339):
/// `YYYY-MM-DDThh:mm:ss[.fraction]+HH:MM`, with the nanoseconds' trailing
/// zeros dropped and the offset always written out.
pub open spec fn db_ts_text(t: (i64, u32, i32)) -> Seq<char> {
    chrono_local_format(t.0, t.1, t.2, db_pattern()) + nanos_text(t.1) + offset_text(t.2, false)
}

/// Formats a timestamp for blob file names: local date and time
/// `YYYYMMDD_hhmmss`, the milliseconds without trailing zeros, and the
/// offset (`Z` for zero).
pub fn format_file_ts(dt: &Timestamp) -> (s: String)
    ensures
        s@ == file_ts_text(dt@),
{
    let date = dt.local("%Y%m%d_%H%M%S");
    let mut out = chars_of(date.as_str());
    push_millis(&mut out, dt.subsec_nanos());
    out.push('_');
    push_offset(&mut out, dt.offset_secs(), true);
    assert(out@ =~= file_ts_text(dt@));
    string_of(&out)
}

/// Formats a timestamp for the database (RFC 3339, sub-second digits without
/// trailing zeros, offset kept).
pub fn format_db_ts(dt: &Timestamp) -> (s: String)
    ensures
        s@ == db_ts_text(dt@),
{
    let date = dt.local("%Y-%m-%dT%H:%M:%S");
    let mut out = chars_of(date.as_str());
    push_nanos(&mut out, dt.subsec_nanos());
    push_offset(&mut out, dt.offset_secs(), false);
    assert(out@ =~= db_ts_text(dt@));
    string_of(&out)
}

/// Reads a timestamp from the database (RFC 3339 with optional fractional
/// seconds), with chrono.
pub fn parse_db_ts(s: &str) -> (r: Result<Timestamp, TimestampError>)
    ensures
        match chrono_rfc3339(s@) {
            Some(v) => r matches Ok(t) && t@ == v,
            None => r == Err::<Timestamp, TimestampError>(TimestampError::InvalidRfc3339),
        },
{
    match parse_rfc3339(s) {
        Ok(v) => Ok(Timestamp { secs: v.0, nanos: v.1, offset_secs: v.2 }),
        Err(_) => Err(TimestampError::InvalidRfc3339),
    }
}

/// Reads a date and time in UTC, such as the creation time in a video's
/// metadata, as chrono reads a `DateTime<Utc>` from text; the timestamp is
/// at offset zero.
pub fn parse_utc_ts(s: &str) -> (r: Option<Timestamp>)
    ensures
        match chrono_utc_from_str(s@) {
            Some(v) => r matches Some(t) && t@ == (v.0, v.1, 0i32),
            None => r is None,
        },
{
    match parse_utc(s) {
        Some(v) => Some(Timestamp { secs: v.0, nanos: v.1, offset_secs: 0 }),
        None => None,
    }
}

} // verus!
