//! The `created`, `due` and `done` stamps: reading them with chrono, and the
//! short forms the dashboard shows.
use vstd::prelude::*;
use vstd::utf8::{encode_utf8, decode_utf8, is_char_boundary};
use vstd::string::StringSliceAdditionalSpecFns;


verus! {

// ------------------------------------------------------------------ chrono

/// What `chrono::DateTime::parse_from_rfc3339` makes of `s`: the Unix time
/// of the instant and the instant written with `pattern`, or nothing.
pub uninterp spec fn rfc3339_reading(s: Seq<char>, pattern: Seq<char>) -> Option<(i64, Seq<char>)>;

/// What `chrono::NaiveDateTime::parse_from_str(s, fmt)` makes of `s`: the
/// Unix time of that date and time taken as UTC, and the date and time written
/// with `pattern`, or nothing.
pub uninterp spec fn naive_datetime_reading(s: Seq<char>, fmt: Seq<char>, pattern: Seq<char>) -> Option<
    (i64, Seq<char>),
>;

/// What `chrono::NaiveDate::parse_from_str(s, fmt)` makes of `s`: the Unix
/// time of that day's midnight UTC, and the day written with `pattern`, or
/// nothing.
pub uninterp spec fn naive_date_reading(s: Seq<char>, fmt: Seq<char>, pattern: Seq<char>) -> Option<
    (i64, Seq<char>),
>;

pub open spec fn pair_view(r: Option<(i64, String)>) -> Option<(i64, Seq<char>)> {
    match r {
        Some((t, f)) => Some((t, f@)),
        None => None,
    }
}

/// Calls `chrono::DateTime::parse_from_rfc3339`; on success the instant is
/// given as its `timestamp()` and as its `format(pattern)`. The contract only
/// names the result: same text and pattern, same result.
#[verifier::external_body]
fn rfc3339(s: &str, pattern: &str) -> (r: Option<(i64, String)>)
    requires
        pattern@ == "%Y-%m-%d %H:%M"@,
    ensures
        pair_view(r) == rfc3339_reading(s@, pattern@),
{
    match chrono::DateTime::parse_from_rfc3339(s) {
        Ok(dt) => Some((dt.timestamp(), dt.format(pattern).to_string())),
        Err(_) => None,
    }
}

/// Calls `chrono::NaiveDateTime::parse_from_str(s, fmt)`; on success the
/// date and time is given as the `timestamp()` of its `and_utc()` (the Unix
/// time of that wall clock reading in UTC) and as its `format(pattern)`. The
/// contract only names the result.
#[verifier::external_body]
fn naive_datetime(s: &str, fmt: &str, pattern: &str) -> (r: Option<(i64, String)>)
    requires
        pattern@ == "%Y-%m-%d %H:%M"@,
    ensures
        pair_view(r) == naive_datetime_reading(s@, fmt@, pattern@),
{
    match chrono::NaiveDateTime::parse_from_str(s, fmt) {
        Ok(dt) => Some((dt.and_utc().timestamp(), dt.format(pattern).to_string())),
        Err(_) => None,
    }
}

/// Calls `chrono::NaiveDate::parse_from_str(s, fmt)`; on success the day is
/// given as the `timestamp()` of its midnight (`and_time(NaiveTime::MIN)`)
/// in UTC and as its `format(pattern)`. The contract only names the result.
#[verifier::external_body]
fn naive_date(s: &str, fmt: &str, pattern: &str) -> (r: Option<(i64, String)>)
    requires
        pattern@ == "%Y-%m-%d"@,
    ensures
        pair_view(r) == naive_date_reading(s@, fmt@, pattern@),
{
    match chrono::NaiveDate::parse_from_str(s, fmt) {
        Ok(d) => Some((d.and_time(chrono::NaiveTime::MIN).and_utc().timestamp(), d.format(pattern).to_string())),
        Err(_) => None,
    }
}

// ------------------------------------------------------------------ created

pub open spec fn minute_pattern() -> Seq<char> {
    "%Y-%m-%d %H:%M"@
}

pub open spec fn day_pattern() -> Seq<char> {
    "%Y-%m-%d"@
}

pub open spec fn naive_fmt() -> Seq<char> {
    "%Y-%m-%dT%H:%M:%S"@
}

/// The first reading that succeeds: RFC 3339, then a local date and time
/// without offset, then a bare date.
pub open spec fn first_reading(
    a: Option<(i64, Seq<char>)>,
    b: Option<(i64, Seq<char>)>,
    c: Option<(i64, Seq<char>)>,
) -> Option<(i64, Seq<char>)> {
    if a is Some {
        a
    } else if b is Some {
        b
    } else {
        c
    }
}

/// How a `created` value reads.
pub open spec fn created_reading(s: Seq<char>) -> Option<(i64, Seq<char>)> {
    first_reading(
        rfc3339_reading(s, minute_pattern()),
        naive_datetime_reading(s, naive_fmt(), minute_pattern()),
        naive_date_reading(s, day_pattern(), day_pattern()),
    )
}

/// The Unix time of a `created` value, when it reads.
pub open spec fn parse_created_spec(s: Seq<char>) -> Option<i64> {
    match created_reading(s) {
        Some((t, _)) => Some(t),
        None => None,
    }
}

/// A `created` value as the dashboard shows it: `YYYY-MM-DD HH:MM`, a bare
/// date as `YYYY-MM-DD`, and anything unreadable as it stands.
pub open spec fn fmt_created_spec(s: Seq<char>) -> Seq<char> {
    match created_reading(s) {
        Some((_, f)) => f,
        None => s,
    }
}

/// Picks the first reading that succeeded.
pub fn pick_reading(
    a: Option<(i64, String)>,
    b: Option<(i64, String)>,
    c: Option<(i64, String)>,
) -> (r: Option<(i64, String)>)
    ensures
        pair_view(r) == first_reading(pair_view(a), pair_view(b), pair_view(c)),
{
    if a.is_some() {
        a
    } else if b.is_some() {
        b
    } else {
        c
    }
}

fn read_created(s: &str) -> (r: Option<(i64, String)>)
    ensures
        pair_view(r) == created_reading(s@),
{
    let a = rfc3339(s, "%Y-%m-%d %H:%M");
    let b = naive_datetime(s, "%Y-%m-%dT%H:%M:%S", "%Y-%m-%d %H:%M");
    let c = naive_date(s, "%Y-%m-%d", "%Y-%m-%d");
    pick_reading(a, b, c)
}

/// The Unix time of a `created` value: RFC 3339 with offset, or
/// `YYYY-MM-DDTHH:MM:SS` taken as UTC, or `YYYY-MM-DD` at midnight UTC.
pub fn parse_created(s: &str) -> (r: Option<i64>)
    ensures
        r == parse_created_spec(s@),
{
    match read_created(s) {
        Some((t, _)) => Some(t),
        None => None,
    }
}

/// A `created` value for display (see `fmt_created_spec`).
pub fn fmt_created(s: &str) -> (r: String)
    ensures
        r@ == fmt_created_spec(s@),
{
    match read_created(s) {
        Some((_, f)) => f,
        None => s.to_owned(),
    }
}

/// Whether `s` reads as a `YYYY-MM-DD` date.
pub fn is_date(s: &str) -> (b: bool)
    ensures
        b == naive_date_reading(s@, day_pattern(), day_pattern()) is Some,
{
    naive_date(s, "%Y-%m-%d", "%Y-%m-%d").is_some()
}

// ------------------------------------------------------------------ short dates

/// `MM-DD` of a shown date: bytes 5 to 10 of the shown form, or the shown form
/// itself when it is shorter than 10 bytes or cannot be cut there (a byte 5
/// or 10 inside a character).
pub open spec fn short_date_spec(s: Seq<char>) -> Seq<char> {
    let f = fmt_created_spec(s);
    let b = encode_utf8(f);
    if b.len() >= 10 && is_char_boundary(b, 5) && is_char_boundary(b, 10) {
        decode_utf8(b.subrange(5, 10))
    } else {
        f
    }
}

proof fn lemma_boundary_prefix(b: Seq<u8>, i: int, n: int)
    requires
        vstd::utf8::valid_utf8(b),
        0 <= i < n <= b.len(),
        is_char_boundary(b, i),
        is_char_boundary(b, n),
    ensures
        vstd::utf8::valid_utf8(b.subrange(0, n)),
        is_char_boundary(b.subrange(0, n), i),
{
    vstd::utf8::valid_utf8_split(b, n);
    let p = b.subrange(0, n);
    if i > 0 {
        vstd::utf8::is_char_boundary_iff_not_is_continuation_byte(b, i);
        vstd::utf8::is_char_boundary_iff_not_is_continuation_byte(p, i);
        assert(p[i] == b[i]);
    } else {
        vstd::utf8::is_char_boundary_start_end_of_seq(p);
    }
}

/// `MM-DD` out of a stamp (see `short_date_spec`).
pub fn short_date(s: &str) -> (r: String)
    ensures
        r@ == short_date_spec(s@),
{
    let f = fmt_created(s);
    let fs = f.as_str();
    let n = fs.as_bytes().len();
    proof {
        vstd::utf8::encode_utf8_valid_utf8(fs@);
    }
    if n >= 10 && fs.is_char_boundary(5) && fs.is_char_boundary(10) {
        let ghost b = fs.spec_bytes();
        proof {
            lemma_boundary_prefix(b, 5, 10);
        }
        let (x, _) = fs.split_at(10);
        let (_, y) = x.split_at(5);
        let r = y.to_owned();
        proof {
            assert(x.spec_bytes() =~= b.subrange(0, 10));
            assert(y.spec_bytes() =~= b.subrange(0, 10).subrange(5, 10));
            assert(b.subrange(0, 10).subrange(5, 10) =~= b.subrange(5, 10));
            vstd::utf8::encode_utf8_decode_utf8(y@);
            assert(y.spec_bytes() == encode_utf8(y@));
            assert(b == encode_utf8(fmt_created_spec(s@)));
        }
        r
    } else {
        f
    }
}

} // verus!
