//! The calls into other crates and into parts of the standard library that are
//! taken on trust. Each contract says what is claimed of the call.

use crate::text::opt_text;
use crate::time::{whole_days, Date, Timestamp};
use chrono::Datelike;
use vstd::prelude::*;
use vstd::utf8::{decode_utf8, valid_utf8};

verus! {

/// The text that the crate `bytesize` shows for a number of bytes.
pub uninterp spec fn byte_size_display(bytes: u64) -> Seq<char>;

/// Calls `bytesize::ByteSize::to_string`. The text depends on the number of
/// bytes alone; which text it is, is not said.
#[verifier::external_body]
pub(crate) fn byte_size_text(bytes: u64) -> (r: String)
    ensures
        r@ == byte_size_display(bytes),
{
    bytesize::ByteSize(bytes).to_string()
}

/// The text that `String::from_utf8_lossy` gives for a sequence of bytes.
pub uninterp spec fn utf8_lossy_text(bytes: Seq<u8>) -> Seq<char>;

/// The text of a sequence of bytes: valid UTF-8 is decoded, and in any other bytes
/// `String::from_utf8_lossy` replaces what is no text.
pub open spec fn bytes_text(bytes: Seq<u8>) -> Seq<char> {
    if valid_utf8(bytes) {
        decode_utf8(bytes)
    } else {
        utf8_lossy_text(bytes)
    }
}

/// Calls `String::from_utf8_lossy`. Bytes that are valid UTF-8 are decoded; of
/// others it is said only that the text depends on the bytes alone.
#[verifier::external_body]
pub(crate) fn utf8_lossy(bytes: &[u8]) -> (r: String)
    ensures
        r@ == utf8_lossy_text(bytes@),
        valid_utf8(bytes@) ==> r@ == decode_utf8(bytes@),
{
    String::from_utf8_lossy(bytes).into_owned()
}

/// Calls `chrono::Local::now` and hands back its seconds and nanoseconds. The time has
/// a date and does not lie before the Unix epoch, since it is read as a duration from
/// there; which time it is, is up to the clock. Where the system's clock stands before
/// the epoch there is no such duration, and the call panics.
#[verifier::external_body]
pub(crate) fn local_now() -> (r: Timestamp)
    ensures
        r.has_date(),
        r.secs >= 0,
{
    let now = chrono::Local::now();
    Timestamp { secs: now.timestamp(), nanos: now.timestamp_subsec_nanos() }
}

/// Calls `chrono::DateTime::signed_duration_since` and
/// `chrono::TimeDelta::num_days` on the dates of two points in time: the whole
/// days from the one to the other, counted towards zero.
#[verifier::external_body]
pub(crate) fn days_between(now: Timestamp, then: Timestamp) -> (r: i64)
    requires
        now.has_date(),
        then.has_date(),
    ensures
        r == whole_days(now, then),
{
    let now = chrono::DateTime::from_timestamp(now.secs, now.nanos).unwrap();
    let then = chrono::DateTime::from_timestamp(then.secs, then.nanos).unwrap();
    now.signed_duration_since(then).num_days()
}

/// Calls `chrono::DateTime::date_naive` on the date and time of a point in time:
/// the date of the Gregorian calendar, in Coordinated Universal Time, whose day is
/// as many days after the first of January 1970 as there are whole days before the
/// point in time.
#[verifier::external_body]
pub(crate) fn utc_date(time: Timestamp) -> (r: Date)
    requires
        time.has_date(),
    ensures
        r.valid(),
        r.day_number() == time.secs as int / 86_400,
{
    let date = chrono::DateTime::from_timestamp(time.secs, time.nanos).unwrap().date_naive();
    Date { year: date.year(), month: date.month(), day: date.day() }
}

/// What `serde_json` reads at two places of a JSON text: the number at the first and
/// the text at the second, each if it is there, or why the text is no JSON.
pub uninterp spec fn json_fields(
    json: Seq<u8>,
    number_at: Seq<char>,
    text_at: Seq<char>,
) -> Result<(Option<u64>, Option<Seq<char>>), Seq<char>>;

/// Calls `serde_json::from_slice` for a `serde_json::Value`, and on that
/// `serde_json::Value::pointer` for two places, `as_u64` at the first and `as_str` at
/// the second. What is found depends on the JSON text and the two places alone;
/// nothing more is said of it.
#[verifier::external_body]
pub(crate) fn read_json_fields(json: &[u8], number_at: &str, text_at: &str) -> (r: Result<
    (Option<u64>, Option<String>),
    String,
>)
    ensures
        fields_view(r) == json_fields(json@, number_at@, text_at@),
{
    match serde_json::from_slice::<serde_json::Value>(json) {
        Ok(value) => {
            let number = value.pointer(number_at).and_then(serde_json::Value::as_u64);
            let text = value.pointer(text_at).and_then(serde_json::Value::as_str);
            Ok((number, text.map(str::to_owned)))
        },
        Err(error) => Err(error.to_string()),
    }
}

/// What the fields that were read stand for.
pub open spec fn fields_view(r: Result<(Option<u64>, Option<String>), String>) -> Result<
    (Option<u64>, Option<Seq<char>>),
    Seq<char>,
> {
    match r {
        Ok((number, text)) => Ok((number, opt_text(text))),
        Err(reason) => Err(reason@),
    }
}

} // verus!
