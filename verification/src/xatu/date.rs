//! The day that a slot falls on.
use vstd::prelude::*;

use crate::text::decimal;
use crate::text::is_digit;
use crate::text::lemma_padded_value;
use crate::text::padded_decimal;
use crate::text::u64_parsed;
use crate::text::written_number_reads_back;
use crate::types::Slot;

verus! {

/// When the chain's slot 0 began, in seconds since the start of 1970.
pub const GENESIS_TIME: i64 = 1606824023;

/// How long a slot takes, in seconds.
pub const SLOT_DURATION: i64 = 12;

/// The first year for which dates are written.
pub const FIRST_YEAR: i64 = -262143;

/// The last year for which dates are written.
pub const LAST_YEAR: i64 = 262142;

/// Whether a year has a 29th of February.
pub open spec fn is_leap_year(year: int) -> bool {
    year % 4 == 0 && (year % 100 != 0 || year % 400 == 0)
}

/// How many days a month has.
pub open spec fn days_in_month(year: int, month: int) -> int {
    if month == 2 {
        if is_leap_year(year) {
            29
        } else {
            28
        }
    } else if month == 4 || month == 6 || month == 9 || month == 11 {
        30
    } else {
        31
    }
}

/// How many days of a year come before a month.
pub open spec fn days_before_month(year: int, month: int) -> int
    decreases month,
{
    if month <= 1 {
        0
    } else {
        days_before_month(year, month - 1) + days_in_month(year, month - 1)
    }
}

/// How many days come before a year, counted from the start of year 1.
pub open spec fn days_before_year(year: int) -> int {
    365 * (year - 1) + (year - 1) / 4 - (year - 1) / 100 + (year - 1) / 400
}

/// A day of the Gregorian calendar, which is taken to hold for all times.
pub struct Date {
    pub year: int,
    pub month: int,
    pub day: int,
}

impl Date {
    /// Whether the calendar has that day.
    pub open spec fn exists_in_calendar(self) -> bool {
        &&& 1 <= self.month <= 12
        &&& 1 <= self.day <= days_in_month(self.year, self.month)
    }

    /// How many days come before this one, counted from the start of 1970.
    pub open spec fn day_number(self) -> int {
        days_before_year(self.year) + days_before_month(self.year, self.month) + self.day - 1
            - 719162
    }

    /// How the date is written: year, month and day with hyphens between them.
    pub open spec fn text(self) -> Seq<char> {
        year_text(self.year) + "-"@ + padded_decimal(self.month as nat, 2) + "-"@ + padded_decimal(
            self.day as nat,
            2,
        )
    }
}

/// How a year is written: with at least four digits, and with a sign where it is negative or
/// has more than four.
pub open spec fn year_text(year: int) -> Seq<char> {
    if 0 <= year <= 9999 {
        padded_decimal(year as nat, 4)
    } else if year < 0 {
        "-"@ + padded_decimal((-year) as nat, 4)
    } else {
        "+"@ + padded_decimal(year as nat, 4)
    }
}

/// Whether a text is the date of a day that is counted from the start of 1970.
pub open spec fn is_date_of_day(text: Seq<char>, day: int) -> bool {
    exists|date: Date| #[trigger]
        date.exists_in_calendar() && date.day_number() == day && text == date.text()
}

/// The first day of the years for which dates are written, counted from the start of 1970.
pub open spec fn first_day() -> int {
    (Date { year: FIRST_YEAR as int, month: 1, day: 1 }).day_number()
}

/// The last day of the years for which dates are written, counted from the start of 1970.
pub open spec fn last_day() -> int {
    (Date { year: LAST_YEAR as int, month: 12, day: 31 }).day_number()
}

/// The date in UTC at a time that is given in seconds since the start of 1970, by
/// `chrono::DateTime::from_timestamp` and `format("%Y-%m-%d")`. There is none outside the years
/// from -262143 to 262142.
#[verifier::external_body]
fn utc_date(timestamp: i64) -> (res: Option<String>)
    ensures
        match res {
            Some(text) => first_day() <= timestamp as int / 86400 <= last_day() && is_date_of_day(
                text@,
                timestamp as int / 86400,
            ),
            None => timestamp as int / 86400 < first_day() || last_day() < timestamp as int / 86400,
        },
{
    match chrono::DateTime::from_timestamp(timestamp, 0) {
        Some(time) => Some(time.format("%Y-%m-%d").to_string()),
        None => None,
    }
}

/// When a slot begins, in seconds since the start of 1970. Slots from 2^63 on count backwards
/// from slot 0, the last one being the one before it.
pub open spec fn slot_time(slot: Slot) -> int {
    let count = if slot < 0x8000_0000_0000_0000 {
        slot as int
    } else {
        slot - 0x1_0000_0000_0000_0000
    };
    GENESIS_TIME + count * SLOT_DURATION
}

/// The day on which a slot begins, counted from the start of 1970.
pub open spec fn slot_day(slot: Slot) -> int {
    slot_time(slot) / 86400
}

/// Whether the day on which a slot begins has a date.
pub open spec fn has_date(slot: Slot) -> bool {
    first_day() <= slot_day(slot) <= last_day()
}

proof fn lemma_day_bounds()
    ensures
        first_day() == -96465292,
        last_day() == 95026236,
{
    reveal_with_fuel(days_before_month, 13);
}

/// Whether the day on which a slot begins has a date.
pub fn slot_has_date(slot: Slot) -> (res: bool)
    ensures
        res == has_date(slot),
{
    proof {
        lemma_day_bounds();
    }
    let count: i64 = if slot < 0x8000_0000_0000_0000 {
        slot as i64
    } else {
        -((u64::MAX - slot) as i64) - 1
    };
    let first: i64 = -8334601228800;
    let last: i64 = 8210266876799;
    (first - GENESIS_TIME) / SLOT_DURATION <= count && count <= (last - GENESIS_TIME)
        / SLOT_DURATION
}

/// The date in UTC on which a slot begins: the one that its data are filed under.
pub fn slot_to_date(slot: Slot) -> (res: String)
    requires
        has_date(slot),
    ensures
        is_date_of_day(res@, slot_day(slot)),
{
    proof {
        lemma_day_bounds();
    }
    let count: i64 = if slot < 0x8000_0000_0000_0000 {
        slot as i64
    } else {
        -((u64::MAX - slot) as i64) - 1
    };
    let timestamp: i64 = GENESIS_TIME + count * SLOT_DURATION;
    match utc_date(timestamp) {
        Some(text) => text,
        None => String::new(),
    }
}

proof fn lemma_months_follow(year: int, month: int, later: int)
    requires
        1 <= month < later,
    ensures
        days_before_month(year, month) + days_in_month(year, month) <= days_before_month(
            year,
            later,
        ),
    decreases later,
{
    if month < later - 1 {
        lemma_months_follow(year, month, later - 1);
    }
}

#[verifier::spinoff_prover]
proof fn lemma_next_quotient_4(x: int)
    ensures
        (x + 1) / 4 == x / 4 + (if (x + 1) % 4 == 0 {
            1int
        } else {
            0
        }),
{
}

#[verifier::spinoff_prover]
proof fn lemma_next_quotient_100(x: int)
    ensures
        (x + 1) / 100 == x / 100 + (if (x + 1) % 100 == 0 {
            1int
        } else {
            0
        }),
{
}

#[verifier::spinoff_prover]
proof fn lemma_next_quotient_400(x: int)
    ensures
        (x + 1) / 400 == x / 400 + (if (x + 1) % 400 == 0 {
            1int
        } else {
            0
        }),
        (x + 1) % 400 == 0 ==> (x + 1) % 100 == 0,
        (x + 1) % 100 == 0 ==> (x + 1) % 4 == 0,
{
}

/// A year has 365 days, or 366 where it is a leap year.
#[verifier::spinoff_prover]
proof fn lemma_year_length(year: int)
    ensures
        days_before_month(year, 13) == (if is_leap_year(year) {
            366int
        } else {
            365
        }),
{
    reveal_with_fuel(days_before_month, 13);
}

/// The next year begins when the days of the months are over.
proof fn lemma_next_year(year: int)
    ensures
        days_before_year(year + 1) == days_before_year(year) + days_before_month(year, 13),
{
    lemma_year_length(year);
    lemma_next_quotient_4(year - 1);
    lemma_next_quotient_100(year - 1);
    lemma_next_quotient_400(year - 1);
}

/// A later year begins no earlier than when the days of the months are over.
proof fn lemma_years_follow(year: int, later: int)
    requires
        year < later,
    ensures
        days_before_year(year) + days_before_month(year, 13) <= days_before_year(later),
    decreases later - year,
{
    lemma_next_year(year);
    if year + 1 < later {
        lemma_years_follow(year + 1, later);
        lemma_year_length(year + 1);
    }
}

proof fn lemma_earlier_date(a: Date, b: Date)
    requires
        a.exists_in_calendar(),
        b.exists_in_calendar(),
        a.year < b.year || (a.year == b.year && a.month < b.month) || (a.year == b.year && a.month
            == b.month && a.day < b.day),
    ensures
        a.day_number() < b.day_number(),
{
    lemma_months_follow(a.year, a.month, 13);
    if a.year < b.year {
        lemma_years_follow(a.year, b.year);
        if b.month > 1 {
            lemma_months_follow(b.year, 1, b.month);
        }
        assert(days_before_month(b.year, 1) == 0);
    } else if a.month < b.month {
        lemma_months_follow(a.year, a.month, b.month);
    }
}

/// A day has one date.
pub proof fn a_day_has_one_date(text1: Seq<char>, text2: Seq<char>, day: int)
    requires
        is_date_of_day(text1, day),
        is_date_of_day(text2, day),
    ensures
        text1 == text2,
{
    let a = choose|date: Date| #[trigger]
        date.exists_in_calendar() && date.day_number() == day && text1 == date.text();
    let b = choose|date: Date| #[trigger]
        date.exists_in_calendar() && date.day_number() == day && text2 == date.text();
    if a != b {
        if a.year < b.year || (a.year == b.year && a.month < b.month) || (a.year == b.year
            && a.month == b.month && a.day < b.day) {
            lemma_earlier_date(a, b);
        } else {
            lemma_earlier_date(b, a);
        }
    }
}

proof fn lemma_two_digits(n: nat)
    requires
        n < 100,
    ensures
        padded_decimal(n, 2).len() == 2,
{
    reveal_with_fuel(decimal, 3);
}

/// The parts of a date can be told from its text.
proof fn lemma_text_parts(date: Date)
    requires
        date.exists_in_calendar(),
    ensures
        ({
            let text = date.text();
            let n = text.len() as int;
            &&& n >= 6
            &&& text.take(n - 6) == year_text(date.year)
            &&& text.subrange(n - 5, n - 3) == padded_decimal(date.month as nat, 2)
            &&& text.skip(n - 2) == padded_decimal(date.day as nat, 2)
        }),
{
    lemma_two_digits(date.month as nat);
    lemma_two_digits(date.day as nat);
    assert("-"@.len() == 1) by {
        reveal_strlit("-");
    }
    let text = date.text();
    let n = text.len() as int;
    assert(text.take(n - 6) =~= year_text(date.year));
    assert(text.subrange(n - 5, n - 3) =~= padded_decimal(date.month as nat, 2));
    assert(text.skip(n - 2) =~= padded_decimal(date.day as nat, 2));
}

proof fn lemma_year_text(a: int, b: int)
    requires
        year_text(a) == year_text(b),
    ensures
        a == b,
{
    reveal_strlit("-");
    reveal_strlit("+");
    let size_a = if a < 0 {
        -a
    } else {
        a
    };
    let size_b = if b < 0 {
        -b
    } else {
        b
    };
    let digits_a = padded_decimal(size_a as nat, 4);
    let digits_b = padded_decimal(size_b as nat, 4);
    lemma_padded_value(size_a as nat, 4);
    lemma_padded_value(size_b as nat, 4);
    assert(is_digit(digits_a[0]));
    assert(is_digit(digits_b[0]));
    let text = year_text(a);
    if 0 <= a <= 9999 {
        assert(text[0] == digits_a[0]);
        assert(0 <= b <= 9999);
    } else {
        assert(text.skip(1) =~= digits_a);
        if 0 <= b <= 9999 {
            assert(text[0] == digits_b[0]);
        } else {
            assert(year_text(b).skip(1) =~= digits_b);
            assert(text[0] == (if a < 0 {
                '-'
            } else {
                '+'
            }));
            assert(text[0] == (if b < 0 {
                '-'
            } else {
                '+'
            }));
        }
    }
}

/// Two days have different dates.
pub proof fn dates_tell_days_apart(text: Seq<char>, day1: int, day2: int)
    requires
        is_date_of_day(text, day1),
        is_date_of_day(text, day2),
    ensures
        day1 == day2,
{
    let a = choose|date: Date| #[trigger]
        date.exists_in_calendar() && date.day_number() == day1 && text == date.text();
    let b = choose|date: Date| #[trigger]
        date.exists_in_calendar() && date.day_number() == day2 && text == date.text();
    lemma_text_parts(a);
    lemma_text_parts(b);
    lemma_padded_value(a.month as nat, 2);
    lemma_padded_value(b.month as nat, 2);
    lemma_padded_value(a.day as nat, 2);
    lemma_padded_value(b.day as nat, 2);
    lemma_year_text(a.year, b.year);
}

/// From slot 0 on, a day's slots follow one another: a slot between two slots of a day is of
/// that day.
pub proof fn days_are_runs_of_slots(first: Slot, slot: Slot, last: Slot)
    requires
        first <= slot <= last < 0x8000_0000_0000_0000,
        slot_day(first) == slot_day(last),
    ensures
        slot_day(slot) == slot_day(first),
{
}

/// Slot 0 began at 12:00:23 on the day that is 18597 days after the start of 1970, and each slot
/// begins twelve seconds after the one before. So 7200 slots later the day is the next one, and
/// the first 3599 slots are of the first day.
pub proof fn a_slot_takes_twelve_seconds(slot: Slot)
    requires
        slot < 0x8000_0000_0000_0000 - 7200,
    ensures
        slot_time(0) == 18597 * 86400 + 12 * 3600 + 23,
        slot_time((slot + 1) as u64) == slot_time(slot) + 12,
        slot_day((slot + 7200) as u64) == slot_day(slot) + 1,
        slot_day(slot) == 18597 <==> slot < 3599,
        86400 * slot_day(slot) <= slot_time(slot) < 86400 * (slot_day(slot) + 1),
{
}

/// The slots from 2^63 on count backwards from slot 0, the last one being the one before it.
pub proof fn the_last_slots_come_before_the_first(slot: Slot)
    requires
        slot >= 0x8000_0000_0000_0000,
    ensures
        slot_time(slot) < slot_time(0),
        slot < u64::MAX ==> slot_time((slot + 1) as u64) == slot_time(slot) + 12,
        slot_time(u64::MAX) == slot_time(0) - 12,
{
}

/// A slot has a date just where its day is one of those from the first day of the first year to
/// the last day of the last.
pub proof fn slots_with_a_date(slot: Slot)
    ensures
        has_date(slot) <==> -96465292 <= slot_day(slot) <= 95026236,
{
    lemma_day_bounds();
}

/// The days follow one another: the day after the last of a month is the first of the next one, and
/// that after the last of a year the first of the next one.
pub proof fn day_follows_day(year: int, month: int, day: int)
    requires
        (Date { year, month, day }).exists_in_calendar(),
    ensures
        day < days_in_month(year, month) ==> (Date { year, month, day: day + 1 }).day_number()
            == (Date { year, month, day }).day_number() + 1,
        day == days_in_month(year, month) && month < 12 ==> (Date {
            year,
            month: month + 1,
            day: 1,
        }).day_number() == (Date { year, month, day }).day_number() + 1,
        day == days_in_month(year, month) && month == 12 ==> (Date {
            year: year + 1,
            month: 1,
            day: 1,
        }).day_number() == (Date { year, month, day }).day_number() + 1,
        (Date { year: 1970, month: 1, day: 1 }).day_number() == 0,
{
    reveal_with_fuel(days_before_month, 2);
    if month == 12 {
        lemma_next_year(year);
        assert(days_before_month(year, 13) == days_before_month(year, 12) + days_in_month(year, 12));
    }
}

/// A date is written as its year, its month and its day, so that each can be read from it: the last
/// two with two digits, a hyphen before each, and a year of four digits in front as it is.
pub proof fn a_date_is_written_in_three_parts(date: Date)
    requires
        date.exists_in_calendar(),
    ensures
        ({
            let text = date.text();
            let n = text.len() as int;
            &&& n >= 6
            &&& u64_parsed(text.skip(n - 2)) == Some(date.day as u64)
            &&& text[n - 3] == '-'
            &&& u64_parsed(text.subrange(n - 5, n - 3)) == Some(date.month as u64)
            &&& text[n - 6] == '-'
            &&& 1000 <= date.year <= 9999 ==> text.take(n - 6) == decimal(date.year as nat)
            &&& 0 <= date.year <= 9999 ==> u64_parsed(text.take(n - 6)) == Some(date.year as u64)
            &&& n == 10 <== 0 <= date.year <= 9999
        }),
{
    lemma_text_parts(date);
    lemma_two_digits(date.month as nat);
    lemma_two_digits(date.day as nat);
    written_number_reads_back(date.month as nat, 2);
    written_number_reads_back(date.day as nat, 2);
    assert("-"@.len() == 1 && "-"@[0] == '-') by {
        reveal_strlit("-");
    }
    if 0 <= date.year <= 9999 {
        written_number_reads_back(date.year as nat, 4);
        reveal_with_fuel(decimal, 5);
    }
}

} // verus!
