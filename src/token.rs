//! The bearer token record and the check of its expiry.
use vstd::prelude::*;
use crate::decimal::{parse_i64, parsed_i64};

verus! {

/// A bearer credential as the identity endpoint hands it out.
pub struct TokenResponse {
    /// Opaque, passed through unchanged.
    pub token_type: String,
    /// Expiry as whole seconds since the Unix epoch, written in decimal.
    pub expires_on: String,
    /// The credential presented on every refresh call.
    pub access_token: String,
}

impl TokenResponse {
    /// A copy of the record.
    pub fn duplicate(&self) -> (r: TokenResponse)
        ensures
            r == *self,
    {
        TokenResponse {
            token_type: self.token_type.clone(),
            expires_on: self.expires_on.clone(),
            access_token: self.access_token.clone(),
        }
    }
}

impl Default for TokenResponse {
    fn default() -> (r: TokenResponse)
        ensures
            r.token_type@ == Seq::<char>::empty(),
            r.expires_on@ == Seq::<char>::empty(),
            r.access_token@ == Seq::<char>::empty(),
    {
        TokenResponse { token_type: String::new(), expires_on: String::new(), access_token: String::new() }
    }
}

/// Whether `c` has the Unicode `White_Space` property, as `char::is_whitespace` tests.
pub open spec fn is_white_space(c: char) -> bool {
    ('\u{9}' <= c && c <= '\u{d}') || c == ' ' || c == '\u{85}' || c == '\u{a0}' || c == '\u{1680}'
        || ('\u{2000}' <= c && c <= '\u{200a}') || c == '\u{2028}' || c == '\u{2029}' || c == '\u{202f}'
        || c == '\u{205f}' || c == '\u{3000}'
}

/// `s` without its leading white space.
pub open spec fn trim_start_spec(s: Seq<char>) -> Seq<char>
    decreases s.len(),
{
    if s.len() > 0 && is_white_space(s[0]) {
        trim_start_spec(s.skip(1))
    } else {
        s
    }
}

/// `s` without its trailing white space.
pub open spec fn trim_end_spec(s: Seq<char>) -> Seq<char>
    decreases s.len(),
{
    if s.len() > 0 && is_white_space(s.last()) {
        trim_end_spec(s.drop_last())
    } else {
        s
    }
}

/// `s` without its leading and trailing white space.
pub open spec fn trimmed(s: Seq<char>) -> Seq<char> {
    trim_end_spec(trim_start_spec(s))
}

/// The first instant chrono can hold, `DateTime::<Utc>::MIN_UTC`
/// (1 January of year -262143), in seconds since the Unix epoch.
pub const MIN_UTC_TIMESTAMP: i64 = -8334601228800;

/// The last whole second chrono can hold, `DateTime::<Utc>::MAX_UTC`
/// (31 December of year 262142, 23:59:59), in seconds since the Unix epoch.
pub const MAX_UTC_TIMESTAMP: i64 = 8210266876799;

/// Relies on `str::trim`: it drops the leading and trailing characters that
/// have the Unicode `White_Space` property, and keeps the rest.
#[verifier::external_body]
fn trim_whitespace(s: &str) -> (r: &str)
    ensures
        r@ == trimmed(s@),
{
    s.trim()
}

/// Relies on `chrono::DateTime::<Utc>::from_timestamp`, which returns `None`
/// exactly when the date of the instant falls outside chrono's years
/// -262143 to 262142.
#[verifier::external_body]
fn utc_timestamp_exists(secs: i64) -> (r: bool)
    ensures
        r == (MIN_UTC_TIMESTAMP <= secs && secs <= MAX_UTC_TIMESTAMP),
{
    chrono::DateTime::from_timestamp(secs, 0).is_some()
}

/// The expiry that `expires_on` denotes: a trimmed decimal number of seconds
/// that chrono can represent as an instant.
pub open spec fn expiry_of(expires_on: Seq<char>) -> Option<i64> {
    match parsed_i64(trimmed(expires_on)) {
        Some(e) => if MIN_UTC_TIMESTAMP <= e && e <= MAX_UTC_TIMESTAMP {
            Some(e)
        } else {
            None
        },
        None => None,
    }
}

/// A token is live at `now` when its expiry can be read and lies after `now`.
/// An unreadable expiry never makes a token live.
pub open spec fn is_live_at(t: TokenResponse, now: int) -> bool {
    match expiry_of(t.expires_on@) {
        Some(e) => now < e,
        None => false,
    }
}

/// Reads the expiry of a token, in whole seconds since the Unix epoch.
pub fn expiry_timestamp(expires_on: &str) -> (r: Option<i64>)
    ensures
        r == expiry_of(expires_on@),
{
    let text = trim_whitespace(expires_on);
    match parse_i64(text) {
        Some(e) => if utc_timestamp_exists(e) {
            Some(e)
        } else {
            None
        },
        None => None,
    }
}

/// Whether `token` is still usable at the instant `now` (seconds since the
/// epoch, as the caller read it from its clock).
pub fn validate_token(token: &TokenResponse, now: i64) -> (r: bool)
    ensures
        r == is_live_at(*token, now as int),
{
    match expiry_timestamp(token.expires_on.as_str()) {
        Some(e) => now < e,
        None => false,
    }
}

/// Before its expiry a token is live, and from its expiry on it is not.
pub proof fn lemma_live_exactly_before_expiry(t: TokenResponse, now: int, e: i64)
    requires
        expiry_of(t.expires_on@) == Some(e),
    ensures
        now < e ==> is_live_at(t, now),
        now >= e ==> !is_live_at(t, now),
{
}

/// A token whose expiry cannot be read is never live, whatever the time.
pub proof fn lemma_unreadable_expiry_never_live(t: TokenResponse, now: int)
    requires
        expiry_of(t.expires_on@) is None,
    ensures
        !is_live_at(t, now),
{
}

} // verus!
