//! The diagnostic log: its lines, its rotation, and UTC timestamps from Unix time.
use vstd::prelude::*;

use crate::text::{append_chars, append_str, chars_of, string_of, zero_padded, zero_padded_decimal};

verus! {

/// Days from 0000-03-01 to 1970-01-01 in the proleptic Gregorian calendar.
pub const EPOCH_SHIFT_DAYS: u64 = 719_468;

/// Days in a 400-year era.
pub const DAYS_PER_ERA: u64 = 146_097;

/// The civil (proleptic Gregorian, UTC) date `(year, month, day)` of a day counted from
/// 1970-01-01, by eras of 400 years starting on March 1st.
pub open spec fn civil_from_days(days: nat) -> (nat, nat, nat) {
    let z = days + 719_468;
    let era = z / 146_097;
    let doe = (z - era * 146_097) as nat;
    let yoe = ((doe - doe / 1460 + doe / 36524 - doe / 146096) / 365) as nat;
    let y = yoe + era * 400;
    let doy = (doe - (365 * yoe + yoe / 4 - yoe / 100)) as nat;
    let mp = (5 * doy + 2) / 153;
    let d = (doy - (153 * mp + 2) / 5 + 1) as nat;
    let m = if mp < 10 {
        mp + 3
    } else {
        (mp - 9) as nat
    };
    let year = if m <= 2 {
        y + 1
    } else {
        y
    };
    (year, m, d)
}

/// The calendar date of a day counted from 1970-01-01.
pub fn unix_days_to_ymd(days: u64) -> (r: (u64, u64, u64))
    requires
        days <= u64::MAX - EPOCH_SHIFT_DAYS,
    ensures
        r == (civil_from_days(days as nat).0 as u64, civil_from_days(days as nat).1 as u64,
            civil_from_days(days as nat).2 as u64),
        civil_from_days(days as nat).0 <= u64::MAX,
{
    let days = days + EPOCH_SHIFT_DAYS;
    let era = days / DAYS_PER_ERA;
    assert(era * 146_097 <= days) by (nonlinear_arith)
        requires
            era == days / 146_097,
    ;
    let doe = days - era * DAYS_PER_ERA;
    assert(doe < 146_097) by (nonlinear_arith)
        requires
            era == days / 146_097,
            doe == days - era * 146_097,
    ;
    assert(doe / 1460 + doe / 146096 <= doe) by (nonlinear_arith)
        requires
            doe < 146_097,
    ;
    let yoe = (doe - doe / 1460 + doe / 36524 - doe / 146096) / 365;
    assert(yoe <= 400) by (nonlinear_arith)
        requires
            doe < 146_097,
            yoe == (doe - doe / 1460 + doe / 36524 - doe / 146096) / 365,
    ;
    assert(era <= u64::MAX / 146_097) by (nonlinear_arith)
        requires
            era == days / 146_097,
    ;
    let y = yoe + era * 400;
    assert(365 * yoe + yoe / 4 - yoe / 100 <= doe) by (nonlinear_arith)
        requires
            doe < 146_097,
            yoe == (doe - doe / 1460 + doe / 36524 - doe / 146096) / 365,
    ;
    let doy = doe - (365 * yoe + yoe / 4 - yoe / 100);
    assert(doy <= 366) by (nonlinear_arith)
        requires
            doe < 146_097,
            yoe == (doe - doe / 1460 + doe / 36524 - doe / 146096) / 365,
            doy == doe - (365 * yoe + yoe / 4 - yoe / 100),
    ;
    let mp = (5 * doy + 2) / 153;
    assert((153 * mp + 2) / 5 <= doy) by (nonlinear_arith)
        requires
            mp == (5 * doy + 2) / 153,
    ;
    let d = doy - (153 * mp + 2) / 5 + 1;
    let m = if mp < 10 {
        mp + 3
    } else {
        mp - 9
    };
    let year = if m <= 2 {
        y + 1
    } else {
        y
    };
    (year, m, d)
}

/// Every day gets a real calendar date: its month is in `1..=12` and its day in `1..=31`.
pub proof fn lemma_civil_date_ranges(days: nat)
    ensures
        1 <= civil_from_days(days).1 <= 12,
        1 <= civil_from_days(days).2 <= 31,
{
    let z = days + 719_468;
    let era = z / 146_097;
    assert(era * 146_097 <= z) by (nonlinear_arith)
        requires
            era == z / 146_097,
    ;
    let doe = (z - era * 146_097) as nat;
    assert(doe < 146_097) by (nonlinear_arith)
        requires
            era == z / 146_097,
            doe == z - era * 146_097,
    ;
    assert(doe / 1460 + doe / 146096 <= doe) by (nonlinear_arith)
        requires
            doe < 146_097,
    ;
    let yoe = ((doe - doe / 1460 + doe / 36524 - doe / 146096) / 365) as nat;
    assert(365 * yoe + yoe / 4 - yoe / 100 <= doe) by (nonlinear_arith)
        requires
            doe < 146_097,
            yoe == (doe - doe / 1460 + doe / 36524 - doe / 146096) / 365,
    ;
    let doy = (doe - (365 * yoe + yoe / 4 - yoe / 100)) as nat;
    assert(doy <= 366) by (nonlinear_arith)
        requires
            doe < 146_097,
            yoe == (doe - doe / 1460 + doe / 36524 - doe / 146096) / 365,
            doy == doe - (365 * yoe + yoe / 4 - yoe / 100),
    ;
    let mp = (5 * doy + 2) / 153;
    assert(mp <= 11) by (nonlinear_arith)
        requires
            doy <= 366,
            mp == (5 * doy + 2) / 153,
    ;
    assert((153 * mp + 2) / 5 <= doy && doy - (153 * mp + 2) / 5 <= 30) by (nonlinear_arith)
        requires
            mp == (5 * doy + 2) / 153,
    ;
}

/// How the log writes a moment: `YYYY-MM-DDTHH:MM:SS.mmmZ`, every field zero-padded.
pub open spec fn timestamp_text(year: nat, month: nat, day: nat, secs_of_day: nat, millis: nat) -> Seq<
    char,
> {
    zero_padded(year, 4) + "-"@ + zero_padded(month, 2) + "-"@ + zero_padded(day, 2) + "T"@
        + zero_padded(secs_of_day / 3600, 2) + ":"@ + zero_padded((secs_of_day % 3600) / 60, 2)
        + ":"@ + zero_padded(secs_of_day % 60, 2) + "."@ + zero_padded(millis, 3) + "Z"@
}

/// The log timestamp of a moment given as seconds and milliseconds since the Unix epoch.
pub fn format_timestamp(secs: u64, millis: u32) -> (r: String)
    ensures
        ({
            let date = civil_from_days((secs / 86_400) as nat);
            r@ == timestamp_text(date.0, date.1, date.2, (secs % 86_400) as nat, millis as nat)
        }),
{
    let days = secs / 86_400;
    let day_secs = secs % 86_400;
    let hours = day_secs / 3600;
    let minutes = (day_secs % 3600) / 60;
    let seconds = day_secs % 60;
    let (year, month, day) = unix_days_to_ymd(days);
    let mut v = zero_padded_decimal(year, 4);
    append_str(&mut v, "-");
    append_chars(&mut v, &zero_padded_decimal(month, 2));
    append_str(&mut v, "-");
    append_chars(&mut v, &zero_padded_decimal(day, 2));
    append_str(&mut v, "T");
    append_chars(&mut v, &zero_padded_decimal(hours, 2));
    append_str(&mut v, ":");
    append_chars(&mut v, &zero_padded_decimal(minutes, 2));
    append_str(&mut v, ":");
    append_chars(&mut v, &zero_padded_decimal(seconds, 2));
    append_str(&mut v, ".");
    append_chars(&mut v, &zero_padded_decimal(millis as u64, 3));
    append_str(&mut v, "Z");
    string_of(&v)
}

/// Size above which the log is moved aside when the app starts.
pub const MAX_LOG_BYTES: u64 = 1_048_576;

/// Whether a log of this size is rotated.
pub fn log_needs_rotation(len: u64) -> (r: bool)
    ensures
        r == (len > MAX_LOG_BYTES),
{
    len > MAX_LOG_BYTES
}

/// One line of the log: `[{timestamp}] [{level}] {message}` and a newline.
pub fn log_line(timestamp: &str, level: &str, message: &str) -> (r: String)
    ensures
        r@ == "["@ + timestamp@ + "] ["@ + level@ + "] "@ + message@ + "\n"@,
{
    let mut v = chars_of("[");
    append_str(&mut v, timestamp);
    append_str(&mut v, "] [");
    append_str(&mut v, level);
    append_str(&mut v, "] ");
    append_str(&mut v, message);
    append_str(&mut v, "\n");
    string_of(&v)
}

} // verus!
