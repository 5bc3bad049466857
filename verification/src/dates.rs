use vstd::prelude::*;

use chrono::Datelike;

use crate::decimal::dec_pad2;
use crate::decimal::dec_pad4;
use crate::decimal::push_dec_pad2;
use crate::decimal::push_dec_pad4;
use crate::errors::FriendError;
use crate::parse::parse_date;
use crate::parse::spec_parse_date;

verus! {

/// The longest allowed visit interval, in weeks.
pub const MAX_FREQ_WEEKS: i32 = 52;

/// A visit frequency is accepted when it lies between one week and
/// `MAX_FREQ_WEEKS` weeks, inclusive.
pub open spec fn frequency_ok(freq_weeks: i32) -> bool {
    1 <= freq_weeks <= MAX_FREQ_WEEKS
}

/// Checks that a desired visit interval lies in the accepted range.
pub fn check_frequency(freq_weeks: i32) -> (r: Result<(), FriendError>)
    ensures
        r == if frequency_ok(freq_weeks) {
            Ok::<(), FriendError>(())
        } else {
            Err::<(), FriendError>(FriendError::FrequencyOutOfRange)
        },
{
    if freq_weeks <= 0 || freq_weeks > MAX_FREQ_WEEKS {
        Err(FriendError::FrequencyOutOfRange)
    } else {
        Ok(())
    }
}

/// A calendar date of the proleptic Gregorian calendar, in the range of
/// years that a four-digit ISO-8601 string can carry.
#[derive(Clone, Copy, Debug, PartialEq, Eq, Structural, Hash)]
pub struct Date {
    pub year: i32,
    pub month: u8,
    pub day: u8,
}

/// Whether `y` is a Gregorian leap year.
pub open spec fn spec_is_leap_year(y: int) -> bool {
    (y % 4 == 0 && y % 100 != 0) || y % 400 == 0
}

/// How many days month `m` of year `y` has.
pub open spec fn spec_days_in_month(y: int, m: int) -> int {
    if m == 2 {
        if spec_is_leap_year(y) {
            29
        } else {
            28
        }
    } else if m == 4 || m == 6 || m == 9 || m == 11 {
        30
    } else {
        31
    }
}

/// How many days of year `y` pass before month `m` begins.
pub open spec fn spec_days_before_month(y: int, m: int) -> int {
    let l: int = if spec_is_leap_year(y) {
        1
    } else {
        0
    };
    if m == 1 {
        0
    } else if m == 2 {
        31
    } else if m == 3 {
        59 + l
    } else if m == 4 {
        90 + l
    } else if m == 5 {
        120 + l
    } else if m == 6 {
        151 + l
    } else if m == 7 {
        181 + l
    } else if m == 8 {
        212 + l
    } else if m == 9 {
        243 + l
    } else if m == 10 {
        273 + l
    } else if m == 11 {
        304 + l
    } else {
        334 + l
    }
}

/// How many days pass from the first day of year 1 to the first day of year `y`.
pub open spec fn spec_days_before_year(y: int) -> int {
    365 * (y - 1) + (y - 1) / 4 - (y - 1) / 100 + (y - 1) / 400
}

/// The date's ordinal day count: day 0 is the first of January of year 1, and
/// consecutive calendar days have consecutive numbers. Differences of these
/// numbers are differences in whole days.
pub open spec fn day_number(d: Date) -> int {
    spec_days_before_year(d.year as int) + spec_days_before_month(d.year as int, d.month as int)
        + d.day - 1
}

impl Date {
    /// A well-formed date: the year has at most four digits and the day
    /// exists in its month.
    pub open spec fn valid(self) -> bool {
        &&& 1 <= self.year <= 9999
        &&& 1 <= self.month <= 12
        &&& 1 <= self.day <= spec_days_in_month(self.year as int, self.month as int)
    }

    /// Builds a date from year, month and day, or nothing when the triple is
    /// not a well-formed calendar date.
    pub fn new(year: i32, month: u32, day: u32) -> (r: Option<Date>)
        ensures
            ({
                let ok = 1 <= year <= 9999 && 1 <= month <= 12 && 1 <= day <= spec_days_in_month(
                    year as int,
                    month as int,
                );
                match r {
                    Some(d) => ok && d == (Date { year, month: month as u8, day: day as u8 })
                        && d.valid(),
                    None => !ok,
                }
            }),
    {
        if 1 <= year && year <= 9999 && 1 <= month && month <= 12 && 1 <= day && day
            <= days_in_month(year, month as u8) as u32 {
            Some(Date { year, month: month as u8, day: day as u8 })
        } else {
            None
        }
    }

    /// The date's ordinal day count, as `day_number` gives it.
    pub fn to_day_number(&self) -> (n: i64)
        requires
            self.valid(),
        ensures
            n == day_number(*self),
            0 <= n < 3660000,
    {
        let y = self.year as i64;
        let before_year = 365 * (y - 1) + (y - 1) / 4 - (y - 1) / 100 + (y - 1) / 400;
        let before_month = days_before_month(self.year, self.month) as i64;
        before_year + before_month + self.day as i64 - 1
    }
}

/// The calendar day after a date: the next day of the month, or the first
/// day of the next month, or new year's day.
pub open spec fn next_day(d: Date) -> Date {
    if d.day < spec_days_in_month(d.year as int, d.month as int) {
        Date { year: d.year, month: d.month, day: (d.day + 1) as u8 }
    } else if d.month < 12 {
        Date { year: d.year, month: (d.month + 1) as u8, day: 1 }
    } else {
        Date { year: (d.year + 1) as i32, month: 1, day: 1 }
    }
}

/// Day numbers count calendar days: the day after a valid date is valid and
/// carries the next number, so differences of day numbers are differences in
/// whole days.
pub proof fn lemma_day_number_counts_days(d: Date)
    requires
        d.valid(),
        !(d.year == 9999 && d.month == 12 && d.day == 31),
    ensures
        next_day(d).valid(),
        day_number(next_day(d)) == day_number(d) + 1,
{
    let y = d.year as int;
    if d.day == spec_days_in_month(y, d.month as int) && d.month == 12 {
        assert(4 * (y / 4) + y % 4 == y);
        assert(100 * (y / 100) + y % 100 == y);
        assert(400 * (y / 400) + y % 400 == y);
        assert(y / 4 == (y - 1) / 4 + if y % 4 == 0 {
            1int
        } else {
            0int
        });
        assert(y / 100 == (y - 1) / 100 + if y % 100 == 0 {
            1int
        } else {
            0int
        });
        assert(y / 400 == (y - 1) / 400 + if y % 400 == 0 {
            1int
        } else {
            0int
        });
    }
}

/// The ISO-8601 writing of a date: a four-digit year and a two-digit month
/// and day, joined by dashes.
pub open spec fn iso_chars(d: Date) -> Seq<char> {
    dec_pad4(d.year as int) + seq!['-'] + dec_pad2(d.month as int) + seq!['-'] + dec_pad2(
        d.day as int,
    )
}

impl Date {
    /// Writes the date in ISO-8601 form, as `iso_chars` spells it.
    pub fn to_iso_string(&self) -> (r: String)
        requires
            self.valid(),
        ensures
            r@ == iso_chars(*self),
    {
        proof {
            reveal_strlit("-");
        }
        let mut out = String::new();
        push_dec_pad4(&mut out, self.year as u16);
        out.append("-");
        push_dec_pad2(&mut out, self.month);
        out.append("-");
        push_dec_pad2(&mut out, self.day);
        proof {
            assert(out@ =~= iso_chars(*self));
        }
        out
    }
}

/// A digit character is a digit, is no dash, and carries its value.
proof fn lemma_digit_char_props(v: int)
    requires
        0 <= v <= 9,
    ensures
        crate::parse::spec_is_digit(crate::decimal::digit_char(v)),
        crate::decimal::digit_char(v) != '-',
        crate::parse::spec_digit_val(crate::decimal::digit_char(v)) == v,
{
}

/// A two-digit zero-padded writing reads back as its value.
proof fn lemma_digits_val_pad2(n: int)
    requires
        0 <= n <= 99,
    ensures
        crate::parse::all_digits(dec_pad2(n)),
        crate::parse::digits_val(dec_pad2(n)) == n,
{
    let s = dec_pad2(n);
    lemma_digit_char_props(n / 10);
    lemma_digit_char_props(n % 10);
    let s1 = seq![crate::decimal::digit_char(n / 10)];
    assert(s.drop_last() =~= s1);
    assert(s1.drop_last() =~= Seq::<char>::empty());
    assert(crate::parse::digits_val(Seq::<char>::empty()) == 0);
    assert(crate::parse::digits_val(s1) == crate::parse::digits_val(s1.drop_last()) * 10
        + crate::parse::spec_digit_val(s1.last()));
    assert(crate::parse::digits_val(s) == crate::parse::digits_val(s.drop_last()) * 10
        + crate::parse::spec_digit_val(s.last()));
    assert(n / 10 * 10 + n % 10 == n);
}

/// A four-digit zero-padded writing reads back as its value.
proof fn lemma_digits_val_pad4(n: int)
    requires
        0 <= n <= 9999,
    ensures
        crate::parse::all_digits(dec_pad4(n)),
        crate::parse::digits_val(dec_pad4(n)) == n,
{
    let s = dec_pad4(n);
    lemma_digit_char_props(n / 1000);
    lemma_digit_char_props(n / 100 % 10);
    lemma_digit_char_props(n / 10 % 10);
    lemma_digit_char_props(n % 10);
    assert(crate::parse::digits_val(Seq::<char>::empty()) == 0);
    let s1 = seq![crate::decimal::digit_char(n / 1000)];
    let s2 = s1.push(crate::decimal::digit_char(n / 100 % 10));
    let s3 = s2.push(crate::decimal::digit_char(n / 10 % 10));
    assert(s.drop_last() =~= s3);
    assert(s3.drop_last() =~= s2);
    assert(s2.drop_last() =~= s1);
    assert(s1.drop_last() =~= Seq::<char>::empty());
    assert(crate::parse::digits_val(s1) == crate::parse::digits_val(s1.drop_last()) * 10
        + crate::parse::spec_digit_val(s1.last()));
    assert(crate::parse::digits_val(s2) == crate::parse::digits_val(s2.drop_last()) * 10
        + crate::parse::spec_digit_val(s2.last()));
    assert(crate::parse::digits_val(s3) == crate::parse::digits_val(s3.drop_last()) * 10
        + crate::parse::spec_digit_val(s3.last()));
    assert(crate::parse::digits_val(s) == crate::parse::digits_val(s.drop_last()) * 10
        + crate::parse::spec_digit_val(s.last()));
    assert((n / 1000) * 10 + n / 100 % 10 == n / 100) by {
        assert(n / 100 / 10 == n / 1000);
        assert(n / 100 / 10 * 10 + n / 100 % 10 == n / 100);
    }
    assert((n / 100) * 10 + n / 10 % 10 == n / 10) by {
        assert(n / 10 / 10 == n / 100);
        assert(n / 10 / 10 * 10 + n / 10 % 10 == n / 10);
    }
    assert(n / 10 * 10 + n % 10 == n);
}

/// Writing a valid date in ISO-8601 form and parsing the text back yields
/// the same date.
pub proof fn lemma_iso_round_trip(d: Date)
    requires
        d.valid(),
    ensures
        spec_parse_date(iso_chars(d)) == Some(d),
{
    let y = d.year as int;
    let m = d.month as int;
    let dd = d.day as int;
    let s = iso_chars(d);
    lemma_digits_val_pad4(y);
    lemma_digits_val_pad2(m);
    lemma_digits_val_pad2(dd);
    assert(s.len() == 10);
    assert(s.subrange(0, 4) =~= dec_pad4(y));
    assert(s.subrange(5, 7) =~= dec_pad2(m));
    assert(s.subrange(8, 10) =~= dec_pad2(dd));
    assert(s[4] == '-' && s[7] == '-');
    assert forall|k: int| 0 <= k < 4 implies s[k] != '-' by {
        assert(s[k] == dec_pad4(y)[k]);
        assert(crate::parse::all_digits(dec_pad4(y)));
        assert(crate::parse::spec_is_digit(dec_pad4(y)[k]));
    }
    assert forall|k: int| 5 <= k < 7 implies s[k] != '-' by {
        assert(s[k] == dec_pad2(m)[k - 5]);
        assert(crate::parse::spec_is_digit(dec_pad2(m)[k - 5]));
    }
    crate::parse::lemma_find_dash_at(s, 0, 4);
    crate::parse::lemma_find_dash_at(s, 5, 7);
}

/// The outcome that `check_new_seen_on` owes for each input: a stored
/// last-seen value that does not parse is refused; so is a new date older
/// than the stored one, and a new date after today.
pub open spec fn spec_check_new_seen(new_date: Date, last_date: Option<Seq<char>>, today: Date) -> Result<
    (),
    FriendError,
> {
    match last_date {
        Some(s) => match spec_parse_date(s) {
            None => Err(FriendError::DateFormat),
            Some(last) => if day_number(last) > day_number(new_date) {
                Err(FriendError::SeenMoreRecently)
            } else if day_number(new_date) > day_number(today) {
                Err(FriendError::SeenInFuture)
            } else {
                Ok(())
            },
        },
        None => if day_number(new_date) > day_number(today) {
            Err(FriendError::SeenInFuture)
        } else {
            Ok(())
        },
    }
}

/// Checks a visit date against the stored last-seen value and a given
/// current date, exactly as `spec_check_new_seen` rules.
pub fn check_new_seen_on(new_date: Date, last_date: Option<String>, today: Date) -> (r: Result<
    (),
    FriendError,
>)
    requires
        new_date.valid(),
        today.valid(),
    ensures
        r == spec_check_new_seen(new_date, last_date.deep_view(), today),
{
    if let Some(s) = &last_date {
        let last = match parse_date(s.as_str()) {
            Ok(d) => d,
            Err(e) => {
                return Err(e);
            },
        };
        if last.to_day_number() > new_date.to_day_number() {
            return Err(FriendError::SeenMoreRecently);
        }
    }
    if new_date.to_day_number() > today.to_day_number() {
        return Err(FriendError::SeenInFuture);
    }
    Ok(())
}

/// Checks a visit date against the stored last-seen value, with today taken
/// from the local clock. Whatever date the clock gave, the result is what
/// `check_new_seen_on` owes for some valid today, except that a clock year
/// out of range is refused as an arithmetic fault; the clauses that do not
/// depend on the clock are also stated on their own.
pub fn check_new_seen(new_date: Date, last_date: Option<String>) -> (r: Result<(), FriendError>)
    requires
        new_date.valid(),
    ensures
        r == Err::<(), FriendError>(FriendError::Arithmetic) || exists|t: Date|
            t.valid() && r == #[trigger] spec_check_new_seen(
                new_date,
                last_date.deep_view(),
                t,
            ),
        ({
            let last = last_date.deep_view();
            &&& (last matches Some(s) && spec_parse_date(s) is None) ==> r == Err::<
                (),
                FriendError,
            >(FriendError::DateFormat)
            &&& (last matches Some(s) && spec_parse_date(s) matches Some(l) && day_number(l)
                > day_number(new_date)) ==> r == Err::<(), FriendError>(
                FriendError::SeenMoreRecently,
            )
            &&& r is Ok ==> match last {
                None => true,
                Some(s) => spec_parse_date(s) matches Some(l) && day_number(l) <= day_number(
                    new_date,
                ),
            }
        }),
{
    let ghost some_day = Date { year: 1, month: 1, day: 1 };
    if let Some(s) = &last_date {
        let last = match parse_date(s.as_str()) {
            Ok(d) => d,
            Err(e) => {
                proof {
                    assert(some_day.valid());
                    assert(spec_check_new_seen(new_date, last_date.deep_view(), some_day)
                        == Err::<(), FriendError>(FriendError::DateFormat));
                }
                return Err(e);
            },
        };
        if last.to_day_number() > new_date.to_day_number() {
            proof {
                assert(some_day.valid());
                assert(spec_check_new_seen(new_date, last_date.deep_view(), some_day) == Err::<
                    (),
                    FriendError,
                >(FriendError::SeenMoreRecently));
            }
            return Err(FriendError::SeenMoreRecently);
        }
    }
    let today = match local_today() {
        Ok(t) => t,
        Err(e) => {
            return Err(e);
        },
    };
    if new_date.to_day_number() > today.to_day_number() {
        proof {
            assert(spec_check_new_seen(new_date, last_date.deep_view(), today) == Err::<
                (),
                FriendError,
            >(FriendError::SeenInFuture));
        }
        return Err(FriendError::SeenInFuture);
    }
    proof {
        assert(spec_check_new_seen(new_date, last_date.deep_view(), today) == Ok::<
            (),
            FriendError,
        >(()));
    }
    Ok(())
}

/// Relies on chrono's `Local::now` with the `Datelike` accessors `year`,
/// `month` and `day`: the local calendar date of the clock, as a year and a
/// month and day counted from 1. chrono documents the month as 1 to 12 and
/// the day as 1 to 31, and a `NaiveDate` always names an existing calendar
/// day.
#[verifier::external_body]
fn today_ymd() -> (r: (i32, u32, u32))
    ensures
        1 <= r.1 <= 12,
        1 <= r.2 <= spec_days_in_month(r.0 as int, r.1 as int),
{
    let d = chrono::Local::now().date_naive();
    (d.year(), d.month(), d.day())
}

/// The local calendar date of the system clock, when its year lies in the
/// representable range; the clock alone decides which date that is.
pub fn local_today() -> (r: Result<Date, FriendError>)
    ensures
        r matches Ok(d) ==> d.valid(),
        r matches Err(e) ==> e == FriendError::Arithmetic,
{
    let (y, m, d) = today_ymd();
    match Date::new(y, m, d) {
        Some(t) => Ok(t),
        None => Err(FriendError::Arithmetic),
    }
}

/// Whether `y` is a Gregorian leap year.
pub fn is_leap_year(y: i32) -> (r: bool)
    requires
        1 <= y,
    ensures
        r == spec_is_leap_year(y as int),
{
    (y % 4 == 0 && y % 100 != 0) || y % 400 == 0
}

/// How many days month `m` of year `y` has.
pub fn days_in_month(y: i32, m: u8) -> (r: u8)
    requires
        1 <= y,
    ensures
        r == spec_days_in_month(y as int, m as int),
{
    if m == 2 {
        if is_leap_year(y) {
            29
        } else {
            28
        }
    } else if m == 4 || m == 6 || m == 9 || m == 11 {
        30
    } else {
        31
    }
}

/// How many days of year `y` pass before month `m` begins.
fn days_before_month(y: i32, m: u8) -> (r: u16)
    requires
        1 <= y,
        1 <= m <= 12,
    ensures
        r == spec_days_before_month(y as int, m as int),
{
    let l: u16 = if is_leap_year(y) {
        1
    } else {
        0
    };
    match m {
        1 => 0,
        2 => 31,
        3 => 59 + l,
        4 => 90 + l,
        5 => 120 + l,
        6 => 151 + l,
        7 => 181 + l,
        8 => 212 + l,
        9 => 243 + l,
        10 => 273 + l,
        11 => 304 + l,
        _ => 334 + l,
    }
}

} // verus!
