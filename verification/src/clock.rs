//! The two inputs that come from outside the store: the time and fresh ids.
use vstd::prelude::*;

use crate::error::is_digit;

verus! {

/// The year of an RFC 3339 time as chrono writes it from the clock: four
/// digits, or past year 9999 a `+` and five or more digits.
pub open spec fn year_text(y: Seq<char>) -> bool {
    ||| y.len() == 4 && forall|i: int| 0 <= i < 4 ==> is_digit(#[trigger] y[i])
    ||| y.len() >= 6 && y[0] == '+' && forall|i: int| 1 <= i < y.len() ==> is_digit(#[trigger] y[i])
}

/// A UTC time in RFC 3339 with microseconds and `Z`:
/// `YYYY-MM-DDTHH:MM:SS.ffffffZ`, the year as `year_text` says.
pub open spec fn utc_time_text(s: Seq<char>) -> bool {
    let n = s.len() as int;
    &&& n >= 27
    &&& year_text(s.subrange(0, n - 23))
    &&& forall|i: int|
        n - 23 <= i < n ==> {
            let k = i - (n - 23);
            if k == 0 || k == 3 {
                #[trigger] s[i] == '-'
            } else if k == 6 {
                s[i] == 'T'
            } else if k == 9 || k == 12 {
                s[i] == ':'
            } else if k == 15 {
                s[i] == '.'
            } else if k == 22 {
                s[i] == 'Z'
            } else {
                is_digit(s[i])
            }
        }
}

#[verifier::external_body]
/// `chrono::Utc::now()` written by `to_rfc3339_opts(SecondsFormat::Micros, true)`:
/// the current UTC time in RFC 3339 with microseconds and `Z`.  The clock
/// reads no earlier than 1970 (chrono panics before), so the year is
/// positive.  Which time it is depends on the clock and is not stated.
pub(crate) fn now() -> (r: String)
    ensures
        utc_time_text(r@),
{
    chrono::Utc::now().to_rfc3339_opts(chrono::SecondsFormat::Micros, true)
}

/// The hyphenated lower-case text of a version 4 UUID:
/// `xxxxxxxx-xxxx-4xxx-yxxx-xxxxxxxxxxxx` with `y` one of `8`, `9`, `a`, `b`.
pub open spec fn uuid_v4_text(s: Seq<char>) -> bool {
    &&& s.len() == 36
    &&& forall|i: int|
        0 <= i < 36 ==> if i == 8 || i == 13 || i == 18 || i == 23 {
            #[trigger] s[i] == '-'
        } else {
            ('0' <= s[i] <= '9') || ('a' <= s[i] <= 'f')
        }
    &&& s[14] == '4'
    &&& (s[19] == '8' || s[19] == '9' || s[19] == 'a' || s[19] == 'b')
}

#[verifier::external_body]
/// `uuid::Uuid::new_v4()` in its `Display` form, which is the hyphenated
/// lower-case text with the version and variant digits of a random UUID; the
/// other digits are random.
pub(crate) fn new_id() -> (r: String)
    ensures
        uuid_v4_text(r@),
{
    uuid::Uuid::new_v4().to_string()
}

} // verus!
