use vstd::prelude::*;

verus! {

/// What parsing a text against a timestamp format template yields: the UTC
/// milliseconds of the parsed instant, if the text conforms to the format.
pub uninterp spec fn datetime_parse(value: Seq<char>, fmt: Seq<char>) -> Option<i64>;

/// Relies on chrono::NaiveDateTime::parse_from_str (and the conversion of
/// the parsed value to epoch milliseconds): success and the parsed instant
/// are a function of the text and the format alone.
#[verifier::external_body]
pub(crate) fn parse_datetime_millis(value: &str, fmt: &str) -> (r: Option<i64>)
    ensures
        r matches Some(ms) ==> datetime_parse(value@, fmt@) == Some(ms),
        r is None ==> datetime_parse(value@, fmt@) is None,
{
    match chrono::NaiveDateTime::parse_from_str(value, fmt) {
        Ok(dt) => Some(dt.and_utc().timestamp_millis()),
        Err(_) => None,
    }
}

} // verus!
