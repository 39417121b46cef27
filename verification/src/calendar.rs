//! Points in time as UTC text, in the proleptic Gregorian calendar.
use crate::clock::now_secs;
use crate::oracle::text_le;
use crate::text::{all_digits, dec, dec_padded, dec_value, digit_char, push_dec_padded};
use vstd::prelude::*;

verus! {

/// A day of the calendar. Months and days count from one.
pub struct Date {
    pub year: nat,
    pub month: nat,
    pub day: nat,
}

/// Whether a year has a leap day.
pub open spec fn is_leap(year: nat) -> bool {
    year % 4 == 0 && (year % 100 != 0 || year % 400 == 0)
}

/// Days of the years before `year`, from the year zero on.
pub open spec fn days_before_year(year: nat) -> nat {
    (365 * year + (year + 3) / 4 + (year + 399) / 400 - (year + 99) / 100) as nat
}

/// Days of a month.
pub open spec fn days_in_month(year: nat, month: nat) -> nat {
    if month == 2 {
        if is_leap(year) {
            29
        } else {
            28
        }
    } else if month == 4 || month == 6 || month == 9 || month == 11 {
        30
    } else {
        31
    }
}

/// Days of the months of a year before `month`.
pub open spec fn days_before_month(year: nat, month: nat) -> nat
    decreases month,
{
    if month <= 1 {
        0
    } else {
        days_before_month(year, (month - 1) as nat) + days_in_month(year, (month - 1) as nat)
    }
}

impl Date {
    /// Whether the calendar has the day.
    pub open spec fn valid(self) -> bool {
        &&& 1 <= self.month <= 12
        &&& 1 <= self.day <= days_in_month(self.year, self.month)
    }

    /// The days from the first of January of the year zero.
    pub open spec fn day_number(self) -> nat {
        (days_before_year(self.year) + days_before_month(self.year, self.month) + self.day - 1)
            as nat
    }

    /// Whether this is the day so many days after the first of January 1970.
    pub open spec fn is_epoch_day(self, days: nat) -> bool {
        self.valid() && self.day_number() == days + 719_528
    }
}

/// The day so many days after the first of January 1970.
pub open spec fn epoch_date(days: nat) -> Date {
    choose|d: Date| d.is_epoch_day(days)
}

/// A point in time as `YYYY-MM-DD HH:MM:SSZ`.
pub open spec fn utc_text(unix_secs: nat) -> Seq<char> {
    let date = epoch_date(unix_secs / 86_400);
    let rem = unix_secs % 86_400;
    dec_padded(date.year, 4) + "-"@ + dec_padded(date.month, 2) + "-"@ + dec_padded(date.day, 2)
        + " "@ + dec_padded(rem / 3_600, 2) + ":"@ + dec_padded(rem % 3_600 / 60, 2) + ":"@
        + dec_padded(rem % 60, 2) + "Z"@
}

proof fn lemma_year_length(year: nat)
    ensures
        days_before_year(year + 1) == days_before_year(year) + if is_leap(year) {
            366nat
        } else {
            365nat
        },
{
}

proof fn lemma_years_ordered(a: nat, b: nat)
    requires
        a < b,
    ensures
        days_before_year(a) + if is_leap(a) {
            366nat
        } else {
            365nat
        } <= days_before_year(b),
    decreases b - a,
{
    lemma_year_length(a);
    if a + 1 < b {
        lemma_years_ordered(a + 1, b);
    }
}

proof fn lemma_months(year: nat)
    ensures
        days_before_month(year, 1) == 0,
        days_before_month(year, 2) == 31,
        days_before_month(year, 3) == 59 + if is_leap(year) {
            1nat
        } else {
            0nat
        },
        days_before_month(year, 4) == days_before_month(year, 3) + 31,
        days_before_month(year, 5) == days_before_month(year, 3) + 61,
        days_before_month(year, 6) == days_before_month(year, 3) + 92,
        days_before_month(year, 7) == days_before_month(year, 3) + 122,
        days_before_month(year, 8) == days_before_month(year, 3) + 153,
        days_before_month(year, 9) == days_before_month(year, 3) + 184,
        days_before_month(year, 10) == days_before_month(year, 3) + 214,
        days_before_month(year, 11) == days_before_month(year, 3) + 245,
        days_before_month(year, 12) == days_before_month(year, 3) + 275,
{
    reveal_with_fuel(days_before_month, 13);
}

proof fn lemma_months_ordered(year: nat, a: nat, b: nat)
    requires
        1 <= a < b,
    ensures
        days_before_month(year, a) + days_in_month(year, a) <= days_before_month(year, b),
    decreases b - a,
{
    assert(days_before_month(year, a + 1) == days_before_month(year, a) + days_in_month(year, a));
    if a + 1 < b {
        lemma_months_ordered(year, a + 1, b);
    }
}

proof fn lemma_within_year(d: Date)
    requires
        d.valid(),
    ensures
        days_before_year(d.year) <= d.day_number() < days_before_year(d.year) + if is_leap(d.year) {
            366nat
        } else {
            365nat
        },
{
    lemma_months(d.year);
    if d.month < 12 {
        lemma_months_ordered(d.year, d.month, 12);
    }
}

/// A day has one date: different dates are different days.
pub proof fn law_dates_are_distinct(a: Date, b: Date)
    requires
        a.valid(),
        b.valid(),
        a.day_number() == b.day_number(),
    ensures
        a == b,
{
    lemma_within_year(a);
    lemma_within_year(b);
    if a.year < b.year {
        lemma_years_ordered(a.year, b.year);
    } else if b.year < a.year {
        lemma_years_ordered(b.year, a.year);
    }
    if a.month < b.month {
        lemma_months_ordered(a.year, a.month, b.month);
    } else if b.month < a.month {
        lemma_months_ordered(a.year, b.month, a.month);
    }
}

/// The day after a date is the next one in the calendar.
pub proof fn law_dates_follow_each_other(d: Date)
    requires
        d.valid(),
    ensures
        ({
            let next = if d.day < days_in_month(d.year, d.month) {
                Date { day: d.day + 1, ..d }
            } else if d.month < 12 {
                Date { month: d.month + 1, day: 1, ..d }
            } else {
                Date { year: d.year + 1, month: 1, day: 1 }
            };
            next.valid() && next.day_number() == d.day_number() + 1
        }),
{
    lemma_months(d.year);
    lemma_months(d.year + 1);
    lemma_year_length(d.year);
    reveal_with_fuel(days_before_month, 2);
}

/// The first of March of a year, counted from that of the year zero.
proof fn lemma_march(year: nat)
    ensures
        days_before_year(year) + days_before_month(year, 3) == 365 * year + year / 4 + year / 400
            - year / 100 + 60,
{
    lemma_months(year);
    assert((year + 3) / 4 == year / 4 + if year % 4 == 0 {
        0nat
    } else {
        1nat
    });
    assert((year + 99) / 100 == year / 100 + if year % 100 == 0 {
        0nat
    } else {
        1nat
    });
    assert((year + 399) / 400 == year / 400 + if year % 400 == 0 {
        0nat
    } else {
        1nat
    });
}

/// A year given by its era, century and so on.
proof fn lemma_year_parts(era: nat, century: nat, quad: nat, rest: nat)
    requires
        century <= 3,
        quad <= 24,
        rest <= 3,
    ensures
        ({
            let year = 400 * era + 100 * century + 4 * quad + rest;
            &&& year / 4 == 100 * era + 25 * century + quad
            &&& year / 100 == 4 * era + century
            &&& year / 400 == era
            &&& is_leap(year + 1) <==> rest == 3 && (quad != 24 || century == 3)
        }),
{
    let year = 400 * era + 100 * century + 4 * quad + rest;
    assert(year == 4 * (100 * era + 25 * century + quad) + rest);
    assert(year == 100 * (4 * era + century) + (4 * quad + rest));
    assert(year == 400 * era + (100 * century + 4 * quad + rest));
}

/// The date of a day of a year that starts in March.
proof fn lemma_march_date(march_year: nat, doy: nat, mp: nat, day: nat)
    requires
        doy <= 365,
        doy == 365 ==> is_leap(march_year + 1),
        mp == (5 * doy + 2) / 153,
        day == doy - (153 * mp + 2) / 5 + 1,
    ensures
        mp <= 11,
        ({
            let date = Date {
                year: if mp >= 10 {
                    march_year + 1
                } else {
                    march_year
                },
                month: if mp >= 10 {
                    (mp - 9) as nat
                } else {
                    mp + 3
                },
                day,
            };
            date.valid() && date.day_number() == days_before_year(march_year) + days_before_month(
                march_year,
                3,
            ) + doy
        }),
{
    lemma_months(march_year);
    lemma_months(march_year + 1);
    lemma_year_length(march_year);
}

/// The year, month and day so many days after the first of January 1970.
fn civil_from_days(days: u64) -> (r: (u64, u64, u64))
    requires
        days <= u64::MAX / 86_400,
    ensures
        (Date { year: r.0 as nat, month: r.1 as nat, day: r.2 as nat }).is_epoch_day(days as nat),
{
    // Years start in March here, so that a leap day ends its year.
    let z: u64 = days + 719_468;
    let era: u64 = z / 146_097;
    let doe: u64 = z % 146_097;
    let century: u64 = if doe == 146_096 {
        3
    } else {
        doe / 36_524
    };
    let doc: u64 = doe - 36_524 * century;
    let quad: u64 = doc / 1_461;
    let doq: u64 = doc % 1_461;
    let rest: u64 = if doq == 1_460 {
        3
    } else {
        doq / 365
    };
    let doy: u64 = doq - 365 * rest;
    let march_year: u64 = 400 * era + 100 * century + 4 * quad + rest;
    let mp: u64 = (5 * doy + 2) / 153;
    proof {
        lemma_year_parts(era as nat, century as nat, quad as nat, rest as nat);
        lemma_march(march_year as nat);
    }
    assert((153 * mp + 2) / 5 <= doy);
    let day: u64 = doy - (153 * mp + 2) / 5 + 1;
    proof {
        lemma_march_date(march_year as nat, doy as nat, mp as nat, day as nat);
    }
    if mp >= 10 {
        (march_year + 1, mp - 9, day)
    } else {
        (march_year, mp + 3, day)
    }
}

/// Formats seconds since the Unix epoch as `YYYY-MM-DD HH:MM:SSZ`, in UTC.
pub fn format_utc(unix_secs: u64) -> (r: String)
    ensures
        r@ == utc_text(unix_secs as nat),
{
    let days: u64 = unix_secs / 86_400;
    let rem: u64 = unix_secs % 86_400;
    let (year, month, day): (u64, u64, u64) = civil_from_days(days);
    proof {
        let d = Date { year: year as nat, month: month as nat, day: day as nat };
        law_dates_are_distinct(d, epoch_date(days as nat));
    }
    let mut s: String = String::new();
    push_dec_padded(&mut s, year, 4);
    s.push_str("-");
    push_dec_padded(&mut s, month, 2);
    s.push_str("-");
    push_dec_padded(&mut s, day, 2);
    s.push_str(" ");
    push_dec_padded(&mut s, rem / 3_600, 2);
    s.push_str(":");
    push_dec_padded(&mut s, rem % 3_600 / 60, 2);
    s.push_str(":");
    push_dec_padded(&mut s, rem % 60, 2);
    s.push_str("Z");
    assert(s@ =~= utc_text(unix_secs as nat));
    s
}

/// The current time as `YYYY-MM-DD HH:MM:SSZ`, in UTC: [`format_utc`] of the
/// clock's reading.
pub fn wall_clock_utc() -> (r: String)
    ensures
        exists|secs: u64| r@ == #[trigger] utc_text(secs as nat),
{
    format_utc(now_secs())
}

/// Every day since the first of January 1970 has a date.
pub proof fn law_every_day_has_a_date(days: nat)
    ensures
        epoch_date(days).is_epoch_day(days),
    decreases days,
{
    if days == 0 {
        let first = Date { year: 1970, month: 1, day: 1 };
        lemma_months(1970);
        assert(first.is_epoch_day(0));
    } else {
        let before = (days - 1) as nat;
        law_every_day_has_a_date(before);
        let d = epoch_date(before);
        law_dates_follow_each_other(d);
        let next = if d.day < days_in_month(d.year, d.month) {
            Date { day: d.day + 1, ..d }
        } else if d.month < 12 {
            Date { month: d.month + 1, day: 1, ..d }
        } else {
            Date { year: d.year + 1, month: 1, day: 1 }
        };
        assert(next.is_epoch_day(days));
    }
}

/// An earlier day has an earlier year, or in the same year an earlier month, or in the
/// same month an earlier day.
pub proof fn law_dates_are_ordered(a: Date, b: Date)
    requires
        a.valid(),
        b.valid(),
    ensures
        a.day_number() < b.day_number() <==> a.year < b.year || (a.year == b.year && (a.month
            < b.month || (a.month == b.month && a.day < b.day))),
{
    lemma_within_year(a);
    lemma_within_year(b);
    if a.year < b.year {
        lemma_years_ordered(a.year, b.year);
    } else if b.year < a.year {
        lemma_years_ordered(b.year, a.year);
    } else if a.month < b.month {
        lemma_months_ordered(a.year, a.month, b.month);
    } else if b.month < a.month {
        lemma_months_ordered(a.year, b.month, a.month);
    }
}

/// The first second of the year 10000, from which on a year takes five digits.
pub open spec fn five_digit_years() -> nat {
    253_402_300_800
}

/// A character of `YYYY-MM-DD HH:MM:SSZ`.
spec fn stamp_char(date: Date, rem: nat, i: int) -> char {
    if i == 0 {
        digit_char((date.year / 1000) as int)
    } else if i == 1 {
        digit_char((date.year / 100 % 10) as int)
    } else if i == 2 {
        digit_char((date.year / 10 % 10) as int)
    } else if i == 3 {
        digit_char((date.year % 10) as int)
    } else if i == 4 || i == 7 {
        '-'
    } else if i == 5 {
        digit_char((date.month / 10) as int)
    } else if i == 6 {
        digit_char((date.month % 10) as int)
    } else if i == 8 {
        digit_char((date.day / 10) as int)
    } else if i == 9 {
        digit_char((date.day % 10) as int)
    } else if i == 10 {
        ' '
    } else if i == 11 {
        digit_char((rem / 3_600 / 10) as int)
    } else if i == 12 {
        digit_char((rem / 3_600 % 10) as int)
    } else if i == 13 || i == 16 {
        ':'
    } else if i == 14 {
        digit_char((rem % 3_600 / 60 / 10) as int)
    } else if i == 15 {
        digit_char((rem % 3_600 / 60 % 10) as int)
    } else if i == 17 {
        digit_char((rem % 60 / 10) as int)
    } else if i == 18 {
        digit_char((rem % 60 % 10) as int)
    } else {
        'Z'
    }
}

spec fn stamp(date: Date, rem: nat) -> Seq<char> {
    Seq::new(20, |i: int| stamp_char(date, rem, i))
}

proof fn lemma_two_digits(n: nat)
    requires
        n < 100,
    ensures
        dec_padded(n, 2) == seq![digit_char((n / 10) as int), digit_char((n % 10) as int)],
{
    reveal_with_fuel(dec, 2);
    assert(dec_padded(n, 2) =~= seq![digit_char((n / 10) as int), digit_char((n % 10) as int)]);
}

proof fn lemma_four_digits(n: nat)
    requires
        n < 10_000,
    ensures
        dec_padded(n, 4) == seq![
            digit_char((n / 1000) as int),
            digit_char((n / 100 % 10) as int),
            digit_char((n / 10 % 10) as int),
            digit_char((n % 10) as int),
        ],
{
    reveal_with_fuel(dec, 4);
    assert(n / 10 / 10 == n / 100);
    assert(n / 100 / 10 == n / 1000);
    assert(dec_padded(n, 4) =~= seq![
        digit_char((n / 1000) as int),
        digit_char((n / 100 % 10) as int),
        digit_char((n / 10 % 10) as int),
        digit_char((n % 10) as int),
    ]);
}

/// Up to the year 9999 the date of a point in time has a year of four digits, and its text
/// is made of twenty characters.
proof fn lemma_stamp(unix_secs: nat)
    requires
        unix_secs < five_digit_years(),
    ensures
        epoch_date(unix_secs / 86_400).is_epoch_day(unix_secs / 86_400),
        epoch_date(unix_secs / 86_400).year < 10_000,
        utc_text(unix_secs) == stamp(epoch_date(unix_secs / 86_400), unix_secs % 86_400),
{
    let days = unix_secs / 86_400;
    let rem = unix_secs % 86_400;
    law_every_day_has_a_date(days);
    let date = epoch_date(days);
    lemma_within_year(date);
    assert(days_before_year(10_000) == 3_652_425);
    if date.year > 10_000 {
        lemma_years_ordered(10_000, date.year);
    }
    lemma_four_digits(date.year);
    lemma_two_digits(date.month);
    lemma_two_digits(date.day);
    lemma_two_digits(rem / 3_600);
    lemma_two_digits(rem % 3_600 / 60);
    lemma_two_digits(rem % 60);
    reveal_strlit("-");
    reveal_strlit(" ");
    reveal_strlit(":");
    reveal_strlit("Z");
    assert(utc_text(unix_secs) =~= stamp(date, rem));
}

/// The number that two characters of a text make up.
pub open spec fn pair_at(text: Seq<char>, i: int) -> nat {
    dec_value(text.subrange(i, i + 2))
}

proof fn lemma_pair(text: Seq<char>, i: int, n: nat)
    requires
        0 <= i,
        i + 2 <= text.len(),
        n < 100,
        text[i] == digit_char((n / 10) as int),
        text[i + 1] == digit_char((n % 10) as int),
    ensures
        pair_at(text, i) == n,
{
    let s = text.subrange(i, i + 2);
    reveal_with_fuel(dec_value, 3);
    assert(s.last() == text[i + 1]);
    assert(s.drop_last().last() == text[i]);
    assert(s.drop_last().drop_last().len() == 0);
}

/// Up to the year 9999 a point in time takes twenty characters, `YYYY-MM-DD HH:MM:SSZ`: the
/// year in four digits, a month from 01 to 12, a day from 01 to 31, an hour from 00 to 23, a
/// minute and a second from 00 to 59.
pub proof fn law_utc_text_has_its_form(unix_secs: nat)
    requires
        unix_secs < five_digit_years(),
    ensures
        ({
            let text = utc_text(unix_secs);
            &&& text.len() == 20
            &&& all_digits(text.subrange(0, 4))
            &&& text[4] == '-' && text[7] == '-'
            &&& all_digits(text.subrange(5, 7)) && 1 <= pair_at(text, 5) <= 12
            &&& all_digits(text.subrange(8, 10)) && 1 <= pair_at(text, 8) <= 31
            &&& text[10] == ' '
            &&& all_digits(text.subrange(11, 13)) && pair_at(text, 11) < 24
            &&& text[13] == ':' && text[16] == ':'
            &&& all_digits(text.subrange(14, 16)) && pair_at(text, 14) < 60
            &&& all_digits(text.subrange(17, 19)) && pair_at(text, 17) < 60
            &&& text[19] == 'Z'
        }),
{
    let text = utc_text(unix_secs);
    let date = epoch_date(unix_secs / 86_400);
    let rem = unix_secs % 86_400;
    lemma_stamp(unix_secs);
    lemma_pair(text, 5, date.month);
    lemma_pair(text, 8, date.day);
    lemma_pair(text, 11, rem / 3_600);
    lemma_pair(text, 14, rem % 3_600 / 60);
    lemma_pair(text, 17, rem % 60);
}

/// A text whose first different character is smaller comes before the other.
proof fn lemma_first_difference(a: Seq<char>, b: Seq<char>, k: int)
    requires
        0 <= k < a.len(),
        k < b.len(),
        forall|i: int| 0 <= i < k ==> a[i] == b[i],
        a[k] < b[k],
    ensures
        text_le(a, b),
        a != b,
    decreases k,
{
    if k > 0 {
        assert forall|i: int| 0 <= i < k - 1 implies a.skip(1)[i] == b.skip(1)[i] by {
            assert(a[i + 1] == b[i + 1]);
        }
        lemma_first_difference(a.skip(1), b.skip(1), k - 1);
    }
}

/// Where a smaller number and a greater one of two digits first differ.
proof fn lemma_pair_order(x: nat, y: nat)
    requires
        x < y < 100,
    ensures
        x / 10 < y / 10 || (x / 10 == y / 10 && x % 10 < y % 10),
{
}

proof fn lemma_stamps_ordered(d: Date, r: nat, e: Date, s: nat)
    requires
        d.valid() && e.valid(),
        d.year < 10_000 && e.year < 10_000,
        r < 86_400 && s < 86_400,
        d.year < e.year || (d.year == e.year && (d.month < e.month || (d.month == e.month && (d.day
            < e.day || (d.day == e.day && r < s))))),
    ensures
        text_le(stamp(d, r), stamp(e, s)),
        stamp(d, r) != stamp(e, s),
{
    let a = stamp(d, r);
    let b = stamp(e, s);
    let k: int = if d.year != e.year {
        if d.year / 1000 != e.year / 1000 {
            0
        } else if d.year / 100 % 10 != e.year / 100 % 10 {
            1
        } else if d.year / 10 % 10 != e.year / 10 % 10 {
            2
        } else {
            3
        }
    } else if d.month != e.month {
        lemma_pair_order(d.month, e.month);
        if d.month / 10 != e.month / 10 {
            5
        } else {
            6
        }
    } else if d.day != e.day {
        lemma_pair_order(d.day, e.day);
        if d.day / 10 != e.day / 10 {
            8
        } else {
            9
        }
    } else if r / 3_600 != s / 3_600 {
        lemma_pair_order(r / 3_600, s / 3_600);
        if r / 3_600 / 10 != s / 3_600 / 10 {
            11
        } else {
            12
        }
    } else if r % 3_600 / 60 != s % 3_600 / 60 {
        lemma_pair_order(r % 3_600 / 60, s % 3_600 / 60);
        if r % 3_600 / 60 / 10 != s % 3_600 / 60 / 10 {
            14
        } else {
            15
        }
    } else {
        lemma_pair_order(r % 60, s % 60);
        if r % 60 / 10 != s % 60 / 10 {
            17
        } else {
            18
        }
    };
    lemma_first_difference(a, b, k);
}

/// Up to the year 9999 the texts sort as the points in time do: a later point has a
/// greater text.
pub proof fn law_utc_texts_sort(a: nat, b: nat)
    requires
        a < b < five_digit_years(),
    ensures
        text_le(utc_text(a), utc_text(b)),
        utc_text(a) != utc_text(b),
{
    lemma_stamp(a);
    lemma_stamp(b);
    let d = epoch_date(a / 86_400);
    let e = epoch_date(b / 86_400);
    law_dates_are_ordered(d, e);
    if a / 86_400 == b / 86_400 {
        law_dates_are_distinct(d, e);
    }
    lemma_stamps_ordered(d, a % 86_400, e, b % 86_400);
}

/// The months have the lengths that they have, and a year has a leap day where four divides
/// it, unless a hundred does and four hundred does not.
pub proof fn law_months_have_their_lengths(year: nat)
    ensures
        days_in_month(year, 1) == 31 && days_in_month(year, 3) == 31 && days_in_month(year, 5)
            == 31 && days_in_month(year, 7) == 31 && days_in_month(year, 8) == 31 && days_in_month(
            year,
            10,
        ) == 31 && days_in_month(year, 12) == 31,
        days_in_month(year, 4) == 30 && days_in_month(year, 6) == 30 && days_in_month(year, 9)
            == 30 && days_in_month(year, 11) == 30,
        days_in_month(year, 2) == 29 <==> (year % 4 == 0 && year % 100 != 0) || year % 400 == 0,
        days_in_month(year, 2) == 28 || days_in_month(year, 2) == 29,
{
}

/// A date is one of the calendar where its month is one of twelve and its month has its day.
pub proof fn law_valid_dates(d: Date)
    ensures
        d.valid() <==> 1 <= d.month <= 12 && 1 <= d.day <= days_in_month(d.year, d.month),
{
}

/// The days are counted from the first of January 1970 on, each day after the other: the day
/// after the last one of a month is the first one of the next month.
pub proof fn law_days_are_counted_from_1970(days: nat)
    ensures
        epoch_date(0) == (Date { year: 1970, month: 1, day: 1 }),
        ({
            let d = epoch_date(days);
            epoch_date(days + 1) == if d.day < days_in_month(d.year, d.month) {
                Date { day: d.day + 1, ..d }
            } else if d.month < 12 {
                Date { month: d.month + 1, day: 1, ..d }
            } else {
                Date { year: d.year + 1, month: 1, day: 1 }
            }
        }),
{
    law_every_day_has_a_date(0);
    law_every_day_has_a_date(days);
    law_every_day_has_a_date(days + 1);
    let first = Date { year: 1970, month: 1, day: 1 };
    lemma_months(1970);
    law_dates_are_distinct(first, epoch_date(0));
    let d = epoch_date(days);
    law_dates_follow_each_other(d);
    let next = if d.day < days_in_month(d.year, d.month) {
        Date { day: d.day + 1, ..d }
    } else if d.month < 12 {
        Date { month: d.month + 1, day: 1, ..d }
    } else {
        Date { year: d.year + 1, month: 1, day: 1 }
    };
    law_dates_are_distinct(next, epoch_date(days + 1));
}

proof fn lemma_year_digits(y: nat)
    requires
        y < 10_000,
    ensures
        y / 100 < 100,
        y % 100 < 100,
        y / 100 / 10 == y / 1000,
        y % 100 / 10 == y / 10 % 10,
        y % 100 % 10 == y % 10,
        y / 100 * 100 + y % 100 == y,
{
}

proof fn lemma_clock_digits(rem: nat)
    requires
        rem < 86_400,
    ensures
        rem / 3_600 < 100,
        rem % 3_600 / 60 < 100,
        rem / 3_600 * 3_600 + rem % 3_600 / 60 * 60 + rem % 60 == rem,
{
    assert(rem % 3_600 % 60 == rem % 60);
}

/// Up to the year 9999 the text of a point in time holds its day and its second of the day:
/// the year, the month and the day of the date, and the hour, the minute and the second.
#[verifier::spinoff_prover]
pub proof fn law_utc_text_holds_the_time(unix_secs: nat)
    requires
        unix_secs < 253_402_300_800,
    ensures
        ({
            let text = utc_text(unix_secs);
            let date = epoch_date(unix_secs / 86_400);
            &&& pair_at(text, 0) * 100 + pair_at(text, 2) == date.year
            &&& pair_at(text, 5) == date.month
            &&& pair_at(text, 8) == date.day
            &&& pair_at(text, 11) * 3_600 + pair_at(text, 14) * 60 + pair_at(text, 17)
                == unix_secs % 86_400
        }),
{
    let text = utc_text(unix_secs);
    let date = epoch_date(unix_secs / 86_400);
    let rem = unix_secs % 86_400;
    lemma_stamp(unix_secs);
    lemma_year_digits(date.year);
    lemma_clock_digits(rem);
    assert(pair_at(text, 0) == date.year / 100) by {
        lemma_pair(text, 0, date.year / 100);
    }
    assert(pair_at(text, 2) == date.year % 100) by {
        lemma_pair(text, 2, date.year % 100);
    }
    assert(pair_at(text, 5) == date.month) by {
        lemma_pair(text, 5, date.month);
    }
    assert(pair_at(text, 8) == date.day) by {
        lemma_pair(text, 8, date.day);
    }
    assert(pair_at(text, 11) == rem / 3_600) by {
        lemma_pair(text, 11, rem / 3_600);
    }
    assert(pair_at(text, 14) == rem % 3_600 / 60) by {
        lemma_pair(text, 14, rem % 3_600 / 60);
    }
    assert(pair_at(text, 17) == rem % 60) by {
        lemma_pair(text, 17, rem % 60);
    }
}

} // verus!
