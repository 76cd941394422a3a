//! Calendar days of the timestamps that GitHub and the database hold.
use vstd::prelude::*;
use crate::text::opt_text;

verus! {

/// The UTC calendar day, written `%Y-%m-%d`, of a timestamp text as
/// `chrono` reads it into a `DateTime<Utc>` (a relaxed RFC 3339 form, with
/// any offset converted to UTC); `None` when chrono does not accept the text.
pub uninterp spec fn utc_calendar_day(s: Seq<char>) -> Option<Seq<char>>;

/// Parses `s` with chrono's `FromStr` for `DateTime<Utc>` and writes the
/// result with `format("%Y-%m-%d")`. Claimed: the result is
/// `utc_calendar_day` of the text, a function of the text alone.
#[verifier::external_body]
pub(crate) fn calendar_day(s: &str) -> (r: Option<String>)
    ensures
        opt_text(r) == utc_calendar_day(s@),
{
    match s.parse::<chrono::DateTime<chrono::Utc>>() {
        Ok(t) => Some(t.format("%Y-%m-%d").to_string()),
        Err(_) => None,
    }
}

} // verus!
