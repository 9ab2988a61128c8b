//! The save stamp: a date and time computed from seconds since the epoch
//! with the save format's own calendar — years advance over 1461-day
//! spans of four 365-day years, every fourth year taking the leap day,
//! with no century correction.
use vstd::prelude::*;
use crate::bytes::{dec_chars, dec_string};

verus! {

/// Years consumed out of leftover days, 365 at a time.
pub open spec fn year_step(years: nat, days: nat) -> (nat, nat)
    decreases days,
{
    if days > 365 {
        year_step(years + 1, (days - 365) as nat)
    } else {
        (years, days)
    }
}

/// Whether a month takes 31 days under this calendar's month scan.
pub open spec fn long_month(month: nat) -> bool {
    month == 0 || month == 2 || month == 4 || month == 6 || month == 7 || month == 9
        || month == 11 || month == 12
}

/// Whether a month takes 30 days under this calendar's month scan.
pub open spec fn short_month(month: nat) -> bool {
    month == 3 || month == 5 || month == 8 || month == 10
}

/// Months consumed out of leftover days: the month scan stops at the first
/// month the remaining days no longer overrun.
pub open spec fn month_step(month: nat, days: nat, years: nat) -> (nat, nat)
    decreases 14 - month,
{
    if month > 13 {
        (month, days)
    } else if long_month(month) && days > 31 {
        month_step(month + 1, (days - 31) as nat, years)
    } else if month == 1 && years % 4 == 0 && days > 29 {
        month_step(month + 1, (days - 29) as nat, years)
    } else if month == 1 && years % 4 != 0 && days > 28 {
        month_step(month + 1, (days - 28) as nat, years)
    } else if short_month(month) && days > 30 {
        month_step(month + 1, (days - 30) as nat, years)
    } else {
        (month, days)
    }
}

/// The six fields of the stamp: day, month, year, hour, minute, second.
pub open spec fn datetime_parts(t: nat) -> (nat, nat, nat, nat, nat, nat) {
    let seconds = t % 60;
    let minutes = (t / 60) % 60;
    let hours = (t / 3600) % 24;
    let days0 = t / 86400;
    let years0 = 1970 + (days0 / 1461) * 4;
    let (years, days1) = year_step(years0, days0 % 1461);
    let (month, days2) = month_step(1, days1, years);
    (days2, month, years, hours, minutes, seconds)
}

/// The month's name, or a placeholder past the twelfth.
pub open spec fn month_name(m: nat) -> Seq<char> {
    if m == 1 {
        "January"@
    } else if m == 2 {
        "February"@
    } else if m == 3 {
        "March"@
    } else if m == 4 {
        "April"@
    } else if m == 5 {
        "May"@
    } else if m == 6 {
        "June"@
    } else if m == 7 {
        "July"@
    } else if m == 8 {
        "August"@
    } else if m == 9 {
        "September"@
    } else if m == 10 {
        "October"@
    } else if m == 11 {
        "November"@
    } else if m == 12 {
        "December"@
    } else {
        "???"@
    }
}

/// The whole stamp: `day month year - hours:minutes:seconds`.
pub open spec fn datetime_chars(t: nat) -> Seq<char> {
    let (d, mo, y, h, mi, s) = datetime_parts(t);
    dec_chars(d) + " "@ + month_name(mo) + " "@ + dec_chars(y) + " - "@ + dec_chars(h)
        + ":"@ + dec_chars(mi) + ":"@ + dec_chars(s)
}

/// The month's name.
fn monthName(m: u64) -> (r: String)
    ensures
        r@ == month_name(m as nat),
{
    if m == 1 {
        "January".to_owned()
    } else if m == 2 {
        "February".to_owned()
    } else if m == 3 {
        "March".to_owned()
    } else if m == 4 {
        "April".to_owned()
    } else if m == 5 {
        "May".to_owned()
    } else if m == 6 {
        "June".to_owned()
    } else if m == 7 {
        "July".to_owned()
    } else if m == 8 {
        "August".to_owned()
    } else if m == 9 {
        "September".to_owned()
    } else if m == 10 {
        "October".to_owned()
    } else if m == 11 {
        "November".to_owned()
    } else if m == 12 {
        "December".to_owned()
    } else {
        "???".to_owned()
    }
}

/// Formats the save stamp for a time in seconds since the epoch.
pub fn format_datetime(t: u64) -> (r: String)
    ensures
        r@ == datetime_chars(t as nat),
{
    let seconds = t % 60;
    let minutes = (t / 60) % 60;
    let hours = (t / 3600) % 24;
    let days0 = t / 86400;
    let quads = days0 / 1461;
    proof {
        assert(days0 <= u64::MAX / 86400) by (nonlinear_arith)
            requires
                days0 == t / 86400,
                t <= u64::MAX,
        ;
        assert(quads <= days0) by (nonlinear_arith)
            requires
                quads == days0 / 1461,
        ;
        assert(1970 + quads * 4 + 4 <= u64::MAX) by (nonlinear_arith)
            requires
                quads <= u64::MAX / 86400,
        ;
    }
    let years0: u64 = 1970 + quads * 4;
    let mut years = years0;
    let mut days = days0 % 1461;
    let ghost gdays1 = days as nat;
    while days > 365
        invariant
            days <= 1460,
            gdays1 <= 1460,
            365 * (years - years0) + days == gdays1,
            years0 <= years <= years0 + 4,
            years0 + 4 <= u64::MAX,
            year_step(years0 as nat, gdays1) == year_step(years as nat, days as nat),
        decreases days,
    {
        years = years + 1;
        days = days - 365;
    }
    let ghost gyears = years as nat;
    let ghost gdays2 = days as nat;
    let mut month: u64 = 1;
    loop
        invariant_except_break
            1 <= month <= 13,
            days <= 365,
            years == gyears,
            month_step(1, gdays2, gyears) == month_step(month as nat, days as nat, gyears),
        ensures
            month_step(1, gdays2, gyears) == (month as nat, days as nat),
        decreases 14 - month,
    {
        let is_long = month == 0 || month == 2 || month == 4 || month == 6 || month == 7
            || month == 9 || month == 11 || month == 12;
        let is_short = month == 3 || month == 5 || month == 8 || month == 10;
        if is_long && days > 31 {
            month = month + 1;
            days = days - 31;
        } else if month == 1 && years % 4 == 0 && days > 29 {
            month = month + 1;
            days = days - 29;
        } else if month == 1 && years % 4 != 0 && days > 28 {
            month = month + 1;
            days = days - 28;
        } else if is_short && days > 30 {
            month = month + 1;
            days = days - 30;
        } else {
            proof {
                assert(month_step(month as nat, days as nat, gyears)
                    == (month as nat, days as nat));
            }
            break;
        }
    }
    let mut out = dec_string(days);
    out.append(" ");
    let mn = monthName(month);
    out.append(mn.as_str());
    out.append(" ");
    let ys = dec_string(years);
    out.append(ys.as_str());
    out.append(" - ");
    let hs = dec_string(hours);
    out.append(hs.as_str());
    out.append(":");
    let ms = dec_string(minutes);
    out.append(ms.as_str());
    out.append(":");
    let ss = dec_string(seconds);
    out.append(ss.as_str());
    proof {
        assert(out@ =~= datetime_chars(t as nat));
    }
    out
}

} // verus!
