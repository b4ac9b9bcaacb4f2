//! Classification of a data-provider response, and parsing of the cutoff
//! time that bounds which transactions the traversal reports.

use vstd::prelude::*;

verus! {

/// A failure while retrieving one address's history: fatal where the seed
/// address was being fetched, a silent drop for a candidate found during
/// traversal.
///
/// A response outside the HTTP success range carries its status code; a body
/// that cannot be decoded as text, or that does not parse into the expected
/// record shape, carries a diagnostic message.
pub enum FetchError {
    /// The provider could not be reached at all; the payload is a diagnostic
    /// message.  Fatal when the seed address is being fetched, a silent drop
    /// during traversal.
    Transport(String),
    /// The provider answered with a status outside the success range.
    Status(u16),
    /// The response body could not be decoded as text.
    BodyNotText,
    /// The response body did not parse into an address record; the payload is
    /// a diagnostic message.
    Parse(String),
}

/// Whether an HTTP status code lies in the success range.
pub fn status_ok(code: u16) -> (r: bool)
    ensures
        r == (200 <= code && code < 300),
{
    200 <= code && code < 300
}

/// Classifies an HTTP status code: a code in the success range is accepted,
/// any other code is a recoverable error carrying that code.
pub fn classify_status(code: u16) -> (r: Result<(), FetchError>)
    ensures
        (r is Ok) == (200 <= code && code < 300),
        r is Err ==> r == Result::<(), FetchError>::Err(FetchError::Status(code)),
{
    if status_ok(code) {
        Ok(())
    } else {
        Err(FetchError::Status(code))
    }
}

/// The Unix timestamp, in seconds, that the date-and-time parser of the
/// `chrono` crate assigns to a text in the `%Y-%m-%d %H:%M:%S` format, taken
/// modulo two to the sixty-fourth; `None` where the text does not carry that
/// format.
pub uninterp spec fn cutoff_secs_of(s: Seq<char>) -> Option<u64>;

/// Relies on `chrono::NaiveDateTime::parse_from_str` with the fixed
/// `%Y-%m-%d %H:%M:%S` format, and on the Unix timestamp of the parsed
/// value taken as UTC: the result depends on the text alone.
#[verifier::external_body]
fn parse_datetime_secs(s: &str) -> (r: Option<u64>)
    ensures
        r == cutoff_secs_of(s@),
{
    match chrono::NaiveDateTime::parse_from_str(s, "%Y-%m-%d %H:%M:%S") {
        Ok(d) => Some(d.and_utc().timestamp() as u64),
        Err(_) => None,
    }
}

/// Parses the cutoff text into the Unix timestamp that bounds which
/// transactions are reported; `None` where the text is not in the
/// `%Y-%m-%d %H:%M:%S` format.
pub fn parse_cutoff(s: &str) -> (r: Option<u64>)
    ensures
        r == cutoff_secs_of(s@),
{
    parse_datetime_secs(s)
}

} // verus!
