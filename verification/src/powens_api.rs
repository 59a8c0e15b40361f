//! The remote aggregation API client's pure side: credentials, request
//! paths, and the datetime readings the fetch and export paths rest on. The
//! HTTP requests themselves are the caller's work; so is reading the
//! credentials from the environment.

use vstd::prelude::*;

verus! {

/// The timestamp format of the aggregation API's datetime fields.
pub const POWENS_DATETIME_FORMAT: &'static str = "%Y-%m-%d %H:%M:%S";

/// The instant (in whole seconds, read as UTC) that a datetime text parses
/// to under a format, or nothing when it does not parse; a function of the
/// text and format alone.
pub uninterp spec fn datetime_seconds_of(s: Seq<char>, fmt: Seq<char>) -> Option<i64>;

/// The datetime text of an instant under a format, or nothing when the
/// instant is out of the calendar's range; a function of the instant and
/// format alone.
pub uninterp spec fn datetime_text_of(ts: i64, fmt: Seq<char>) -> Option<Seq<char>>;

/// Relies on chrono's NaiveDateTime::parse_from_str, then and_utc and
/// timestamp on the parsed value: success and the instant depend on the
/// text and the format alone, and the call never panics.
#[verifier::external_body]
pub(crate) fn parse_datetime_seconds(s: &str, fmt: &str) -> (r: Option<i64>)
    ensures
        r == datetime_seconds_of(s@, fmt@),
{
    match chrono::NaiveDateTime::parse_from_str(s, fmt) {
        Ok(dt) => Some(dt.and_utc().timestamp()),
        Err(_) => None,
    }
}

/// Relies on chrono's DateTime::from_timestamp and its strftime display:
/// the text depends on the instant and the format alone. Restricted to this
/// crate's two well-formed format strings, on which rendering never fails
/// or panics once the instant is in range.
#[verifier::external_body]
pub(crate) fn format_datetime_seconds(ts: i64, fmt: &str) -> (r: Option<String>)
    requires
        fmt@ == POWENS_DATETIME_FORMAT@ || fmt@ == crate::transactions_export::PARAM_DATETIME_FORMAT@,
    ensures
        match r {
            Some(s) => datetime_text_of(ts, fmt@) == Some(s@),
            None => datetime_text_of(ts, fmt@) is None,
        },
{
    match chrono::DateTime::from_timestamp(ts, 0) {
        Some(dt) => Some(dt.format(fmt).to_string()),
        None => None,
    }
}

/// The credentials and endpoint of the remote aggregation API. The caller
/// reads them from its environment and performs the HTTP requests; this side
/// builds the exact request paths.
pub struct PowensApi {
    token: String,
    domain: String,
}

impl PowensApi {
    /// The bearer token's text.
    pub closed spec fn token_view(&self) -> Seq<char> {
        self.token@
    }

    /// The API domain's text.
    pub closed spec fn domain_view(&self) -> Seq<char> {
        self.domain@
    }

    /// Holds the bearer token and the API domain.
    pub fn new(token: String, domain: String) -> (r: Self)
        ensures
            r.token_view() == token@,
            r.domain_view() == domain@,
    {
        PowensApi { token, domain }
    }

    /// The bearer token for the requests.
    pub fn token(&self) -> (r: &String)
        ensures
            r@ == self.token_view(),
    {
        &self.token
    }

    /// The full URL of a request: the domain, then the path.
    pub fn request_url(&self, path: &str) -> (r: String)
        ensures
            r@ == self.domain_view() + path@,
    {
        let mut url = self.domain.clone();
        url.append(path);
        url
    }

    /// The path that lists the accounts.
    pub fn accounts_request_path(&self) -> (r: String)
        ensures
            r@ == "/2.0/users/me/accounts"@,
    {
        String::from_str("/2.0/users/me/accounts")
    }

    /// The path that lists transactions: the newest thousand, restricted to
    /// those updated after the given instant when one is known. Fails only
    /// when the instant cannot be rendered as a datetime text.
    pub fn transactions_request_path(&self, latest_last_update: Option<i64>) -> (r: Option<
        String,
    >)
        ensures
            match latest_last_update {
                Option::None => r matches Some(p) && p@ == "/2.0/users/me/transactions?limit=1000"@,
                Option::Some(ts) => match datetime_text_of(ts, POWENS_DATETIME_FORMAT@) {
                    Some(text) => r matches Some(p) && p@ == "/2.0/users/me/transactions?limit=1000"@
                        + "&last_update="@ + text,
                    None => r is None,
                },
            },
    {
        let mut path = String::from_str("/2.0/users/me/transactions?limit=1000");
        match latest_last_update {
            Option::None => Option::Some(path),
            Option::Some(ts) => {
                match format_datetime_seconds(ts, POWENS_DATETIME_FORMAT) {
                    Option::Some(text) => {
                        path.append("&last_update=");
                        path.append(text.as_str());
                        Option::Some(path)
                    },
                    Option::None => Option::None,
                }
            },
        }
    }
}

} // verus!
