use vstd::prelude::*;

verus! {

/// What `chrono::DateTime::parse_from_rfc3339` yields for a given text,
/// taken to microseconds since the Unix epoch; a function of the text
/// alone. `None` stands for a parse error.
pub uninterp spec fn rfc3339_micros_of(s: Seq<char>) -> Option<i64>;

/// Relies on chrono's `DateTime::parse_from_rfc3339` and
/// `timestamp_micros`: the result depends on the input text alone.
#[verifier::external_body]
pub fn parse_rfc3339_micros(s: &String) -> (r: Option<i64>)
    ensures
        r == rfc3339_micros_of(s@),
{
    match chrono::DateTime::parse_from_rfc3339(s.as_str()) {
        Ok(t) => Some(t.timestamp_micros()),
        Err(_) => None,
    }
}

/// Relies on `chrono::Utc::now` and `timestamp_micros`: the current
/// instant. Nothing is assumed of the value; callers are verified for
/// every value.
#[verifier::external_body]
pub fn now_micros() -> i64 {
    chrono::Utc::now().timestamp_micros()
}

/// What chrono's `%Y_%m_%d_%H` formatting yields for a UTC instant
/// given in microseconds since the Unix epoch; a function of the
/// instant alone.
pub uninterp spec fn hour_bucket_of(ts: i64) -> Seq<char>;

/// Relies on chrono's `DateTime::from_timestamp_micros` and `format`:
/// the hour-granularity bucket label of an instant, `None` when the
/// instant lies outside chrono's representable range.
#[verifier::external_body]
pub fn hour_bucket(ts: i64) -> (r: Option<String>)
    ensures
        match r {
            Some(s) => s@ == hour_bucket_of(ts),
            None => true,
        },
{
    match chrono::DateTime::<chrono::Utc>::from_timestamp_micros(ts) {
        Some(t) => Some(t.format("%Y_%m_%d_%H").to_string()),
        None => None,
    }
}

} // verus!
