//! The wall clock: the current calendar day and the current timestamp.
//! Only the reading itself is trusted; what the library does with a day
//! is specified against an arbitrary `today`.

use vstd::prelude::*;

use crate::date::Date;

verus! {

/// Relies on chrono::Utc::now / NaiveDate's Datelike impl: the month of
/// a real date ranges over 1 to 12 and the day of the month over 1 to
/// 31.  Nothing more is assumed: the year is the clock's to choose.
#[verifier::external_body]
fn fetch_today() -> (r: (i32, u32, u32))
    ensures
        1 <= r.1 <= 12,
        1 <= r.2 <= 31,
{
    let now = chrono::Utc::now().date_naive();
    (
        chrono::Datelike::year(&now),
        chrono::Datelike::month(&now),
        chrono::Datelike::day(&now),
    )
}

/// The current calendar day (UTC), if the clock reports a day the
/// library's date range can carry; whatever comes back is validated
/// here, not assumed.
pub fn today() -> (r: Option<Date>)
    ensures
        r is Some ==> r->0.valid(),
{
    let (y, m, d) = fetch_today();
    if y < 0 || y > 9999 {
        return None;
    }
    Date::new(y as u32, m, d)
}

/// Relies on chrono::Utc::now / timestamp: the current time as seconds
/// since the Unix epoch.  Nothing is promised of the value.
#[verifier::external_body]
pub fn now_timestamp() -> (r: i64)
{
    chrono::Utc::now().timestamp()
}

} // verus!
