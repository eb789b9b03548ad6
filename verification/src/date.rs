//! Calendar dates and the packed base-ten date representation of the wire
//! format, where 2015-10-31 is stored as the number 20151031.

use vstd::prelude::*;
use vstd::arithmetic::div_mod::lemma_fundamental_div_mod_converse;
use crate::errors::{DatePart, DbzError};

verus! {

/// A calendar date in the proleptic Gregorian calendar.
#[derive(Clone, Copy, Debug, PartialEq, Eq, Hash, Structural)]
pub struct Date {
    pub year: u16,
    pub month: u8,
    pub day: u8,
}

/// Leap years of the proleptic Gregorian calendar.
pub open spec fn spec_is_leap_year(y: int) -> bool {
    y % 4 == 0 && (y % 100 != 0 || y % 400 == 0)
}

/// How many days the given month of the given year has.
pub open spec fn spec_days_in_month(y: int, m: int) -> int
    recommends
        1 <= m <= 12,
{
    if m == 2 {
        if spec_is_leap_year(y) {
            29
        } else {
            28
        }
    } else if m == 4 || m == 6 || m == 9 || m == 11 {
        30
    } else {
        31
    }
}

pub fn days_in_month(year: u16, month: u8) -> (r: u8)
    requires
        1 <= month <= 12,
    ensures
        r == spec_days_in_month(year as int, month as int),
{
    if month == 2 {
        let leap = year % 4 == 0 && (year % 100 != 0 || year % 400 == 0);
        if leap {
            29
        } else {
            28
        }
    } else if month == 4 || month == 6 || month == 9 || month == 11 {
        30
    } else {
        31
    }
}

impl Date {
    /// A date the codec will encode: the year has at most four digits and the
    /// month and day name a real calendar day.
    pub open spec fn is_valid(self) -> bool {
        &&& self.year <= 9999
        &&& 1 <= self.month <= 12
        &&& 1 <= self.day <= spec_days_in_month(self.year as int, self.month as int)
    }

    /// The packed base-ten form of the date.
    pub open spec fn packed(self) -> u32
        recommends
            self.is_valid(),
    {
        ((self.year as int) * 10000 + (self.month as int) * 100 + (self.day as int)) as u32
    }
}

/// What decoding a packed date returns: the date, or the part that failed
/// validation. Months outside 1..=12 fail on the month; a year of more than
/// four digits, a day of zero, or a day past the end of the month fail on the
/// calendar day.
pub open spec fn spec_decode_iso8601(raw: u32) -> Result<Date, DbzError> {
    let year = raw as int / 10000;
    let rem = raw as int % 10000;
    let month = rem / 100;
    let day = rem % 100;
    if month < 1 || month > 12 {
        Err(DbzError::InvalidDate { raw, part: DatePart::Month })
    } else if year > 9999 || day < 1 || day > spec_days_in_month(year, month) {
        Err(DbzError::InvalidDate { raw, part: DatePart::Calendar })
    } else {
        Ok(Date { year: year as u16, month: month as u8, day: day as u8 })
    }
}

/// Decode a packed base-ten date, validating the month and the calendar day.
pub fn decode_iso8601(raw: u32) -> (r: Result<Date, DbzError>)
    ensures
        r == spec_decode_iso8601(raw),
        r is Ok ==> r->Ok_0.is_valid(),
{
    let year32 = raw / 10000;
    let rem = raw % 10000;
    let month32 = rem / 100;
    let day32 = rem % 100;
    if month32 < 1 || month32 > 12 {
        return Err(DbzError::InvalidDate { raw, part: DatePart::Month });
    }
    let month: u8 = month32 as u8;
    if year32 > 9999 {
        return Err(DbzError::InvalidDate { raw, part: DatePart::Calendar });
    }
    let year: u16 = year32 as u16;
    if day32 < 1 || day32 > days_in_month(year, month) as u32 {
        return Err(DbzError::InvalidDate { raw, part: DatePart::Calendar });
    }
    Ok(Date { year, month, day: day32 as u8 })
}

/// Encode a date into its packed base-ten form.
pub fn encode_iso8601(d: Date) -> (r: u32)
    requires
        d.is_valid(),
    ensures
        r == d.packed(),
{
    (d.year as u32) * 10000 + (d.month as u32) * 100 + (d.day as u32)
}

/// Law: every valid calendar date survives the round trip through the packed
/// base-ten form.
pub proof fn lemma_date_round_trip(d: Date)
    requires
        d.is_valid(),
    ensures
        spec_decode_iso8601(d.packed()) == Ok::<Date, DbzError>(d),
{
    let y = d.year as int;
    let m = d.month as int;
    let dd = d.day as int;
    let r = m * 100 + dd;
    let p = y * 10000 + r;
    assert(d.packed() == p);
    lemma_fundamental_div_mod_converse(p, 10000, y, r);
    lemma_fundamental_div_mod_converse(r, 100, m, dd);
}

} // verus!

