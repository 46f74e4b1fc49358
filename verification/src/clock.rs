//! Resolution of the current local calendar date.

use vstd::prelude::*;
use chrono::Datelike;
use crate::text::date_chars;
use crate::text::render_date;

verus! {

/// Relies on `chrono::Local::now` and the `Datelike` accessors `year`,
/// `month` and `day`: the current local calendar date, with `month` in
/// 1..=12 and `day` in 1..=31.
#[verifier::external_body]
fn local_today() -> (r: (i32, u8, u8))
    ensures
        1 <= r.1 <= 12,
        1 <= r.2 <= 31,
{
    let now = chrono::Local::now();
    (now.year(), now.month() as u8, now.day() as u8)
}

/// Resolves the current local date in `YYYY-MM-DD` form, zero-padded.
/// Which date comes back is the clock's business; whether and how a given
/// date renders is `render_date`'s contract, which succeeds exactly on the
/// years the four-digit form can carry.
pub fn today_string() -> (r: Option<String>)
    ensures
        r is Some ==> exists|y: int, m: int, d: int|
            0 <= y <= 9999 && 1 <= m <= 12 && 1 <= d <= 31 && r->0@ == date_chars(y, m, d),
{
    let (y, m, d) = local_today();
    let r = render_date(y, m, d);
    proof {
        if r is Some {
            assert(0 <= y as int <= 9999 && 1 <= m as int <= 12 && 1 <= d as int <= 31
                && r->0@ == date_chars(y as int, m as int, d as int));
        }
    }
    r
}

} // verus!
