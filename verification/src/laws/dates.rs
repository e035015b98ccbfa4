//! Dates: how long months and years are.

use vstd::prelude::*;

use crate::time::{in_month, month_start, on_day};

verus! {

/// The number of days of a month.
pub open spec fn days_in_month(y: int, m: int) -> int {
    if m == 4 || m == 6 || m == 9 || m == 11 {
        30
    } else if m == 2 {
        if y % 400 == 0 || (y % 4 == 0 && y % 100 != 0) {
            29
        } else {
            28
        }
    } else {
        31
    }
}

/// Days are counted from the start of 1970, each month follows the one before it,
/// and January follows December.
pub proof fn months_follow_each_other(y: int, m: int)
    requires
        1 <= m <= 12,
    ensures
        month_start(1970, 1) == 0,
        month_start(y, m + 1) - month_start(y, m) == days_in_month(y, m),
        month_start(y, 13) == month_start(y + 1, 1),
{
    crate::time::leap_step(y);
}

/// A second is in a month if and only if its day is one of the days of the month.
pub proof fn second_is_in_its_month(secs: int, y: int, m: int)
    requires
        1 <= m <= 12,
    ensures
        in_month(secs, y, m) <==> 0 <= secs / 86400 - month_start(y, m) < days_in_month(y, m),
        in_month(secs, y, m) ==> on_day(secs, y, m, secs / 86400 - month_start(y, m) + 1),
{
    months_follow_each_other(y, m);
}

} // verus!
