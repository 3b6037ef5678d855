//! Timezone-less calendar days: validity in the proleptic Gregorian
//! calendar, ordering, and the `YYYY-MM-DD` wire format.

use vstd::prelude::*;

verus! {

/// A calendar day, with no time-of-day and no timezone.
#[derive(Clone, Copy, Debug, PartialEq, Eq, Structural)]
pub struct Date {
    pub year: u32,
    pub month: u32,
    pub day: u32,
}

/// Gregorian leap-year rule.
pub open spec fn spec_is_leap_year(y: int) -> bool {
    (y % 4 == 0 && y % 100 != 0) || y % 400 == 0
}

/// Number of days in month `m` of year `y`, for `1 <= m <= 12`.
pub open spec fn spec_days_in_month(y: int, m: int) -> int {
    if m == 2 {
        if spec_is_leap_year(y) {
            29
        } else {
            28
        }
    } else if m == 4 || m == 6 || m == 9 || m == 11 {
        30
    } else {
        31
    }
}

impl Date {
    /// A real day of the calendar, within the four-digit-year range the
    /// wire format can carry.
    pub open spec fn valid(self) -> bool {
        &&& self.year <= 9999
        &&& 1 <= self.month <= 12
        &&& 1 <= self.day <= spec_days_in_month(self.year as int, self.month as int)
    }

    /// Chronological order (lexicographic on year, month, day).
    pub open spec fn le(self, other: Date) -> bool {
        ||| self.year < other.year
        ||| (self.year == other.year && self.month < other.month)
        ||| (self.year == other.year && self.month == other.month && self.day <= other.day)
    }

    /// Strictly earlier.
    pub open spec fn lt(self, other: Date) -> bool {
        self.le(other) && self != other
    }

    /// Builds a date after checking that it names a real calendar day.
    pub fn new(year: u32, month: u32, day: u32) -> (r: Option<Date>)
        ensures
            ({
                let d = Date { year, month, day };
                if d.valid() {
                    r == Some(d)
                } else {
                    r is None
                }
            }),
    {
        let d = Date { year, month, day };
        if year <= 9999 && 1 <= month && month <= 12 && 1 <= day && day <= days_in_month(
            year,
            month,
        ) {
            Some(d)
        } else {
            None
        }
    }
}

/// Executable leap-year test.
pub fn is_leap_year(y: u32) -> (r: bool)
    ensures
        r == spec_is_leap_year(y as int),
{
    (y % 4 == 0 && y % 100 != 0) || y % 400 == 0
}

/// Executable month length, for `1 <= m <= 12`.
pub fn days_in_month(y: u32, m: u32) -> (r: u32)
    requires
        1 <= m <= 12,
    ensures
        r == spec_days_in_month(y as int, m as int),
{
    if m == 2 {
        if is_leap_year(y) {
            29
        } else {
            28
        }
    } else if m == 4 || m == 6 || m == 9 || m == 11 {
        30
    } else {
        31
    }
}

/// `a <= b` in chronological order.
pub fn date_le(a: &Date, b: &Date) -> (r: bool)
    ensures
        r == a.le(*b),
{
    if a.year != b.year {
        a.year < b.year
    } else if a.month != b.month {
        a.month < b.month
    } else {
        a.day <= b.day
    }
}

/// `a < b` in chronological order.
pub fn date_lt(a: &Date, b: &Date) -> (r: bool)
    ensures
        r == a.lt(*b),
{
    if a.year != b.year {
        a.year < b.year
    } else if a.month != b.month {
        a.month < b.month
    } else {
        a.day < b.day
    }
}

/// An ASCII decimal digit.
pub open spec fn is_digit(c: char) -> bool {
    48 <= c as u32 <= 57
}

/// The numeric value of an ASCII decimal digit.
pub open spec fn char_digit(c: char) -> int {
    c as u32 - 48
}

/// The `YYYY-MM-DD` grammar: `s` spells out exactly the date `d`.
pub open spec fn is_date_str(s: Seq<char>, d: Date) -> bool {
    &&& s.len() == 10
    &&& s[4] == '-'
    &&& s[7] == '-'
    &&& is_digit(s[0])
    &&& is_digit(s[1])
    &&& is_digit(s[2])
    &&& is_digit(s[3])
    &&& is_digit(s[5])
    &&& is_digit(s[6])
    &&& is_digit(s[8])
    &&& is_digit(s[9])
    &&& d.year as int == 1000 * char_digit(s[0]) + 100 * char_digit(s[1]) + 10 * char_digit(s[2])
        + char_digit(s[3])
    &&& d.month as int == 10 * char_digit(s[5]) + char_digit(s[6])
    &&& d.day as int == 10 * char_digit(s[8]) + char_digit(s[9])
}

/// A string spells out at most one date.
pub proof fn lemma_date_str_unique(s: Seq<char>, d1: Date, d2: Date)
    requires
        is_date_str(s, d1),
        is_date_str(s, d2),
    ensures
        d1 == d2,
{
}

/// Some valid date is spelled out by `s`.
pub open spec fn parseable(s: Seq<char>) -> bool {
    exists|d: Date| d.valid() && is_date_str(s, d)
}

/// The valid date spelled out by `s` (determined whenever `parseable(s)`
/// holds, since a string spells out at most one date).
pub open spec fn parsed_date(s: Seq<char>) -> Date {
    choose|d: Date| d.valid() && is_date_str(s, d)
}

/// Parses `YYYY-MM-DD` into a valid date; rejects everything else,
/// malformed text and impossible calendar days alike.
pub fn parse_date(s: &str) -> (r: Option<Date>)
    ensures
        match r {
            Some(d) => d.valid() && is_date_str(s@, d) && d == parsed_date(s@),
            None => forall|d: Date| d.valid() ==> !is_date_str(s@, d),
        },
        r is Some <==> parseable(s@),
{
    let n = s.unicode_len();
    if n != 10 {
        return None;
    }
    let c4 = s.get_char(4);
    let c7 = s.get_char(7);
    if c4 != '-' || c7 != '-' {
        return None;
    }
    let v0 = digit_value(s.get_char(0));
    let v1 = digit_value(s.get_char(1));
    let v2 = digit_value(s.get_char(2));
    let v3 = digit_value(s.get_char(3));
    let v5 = digit_value(s.get_char(5));
    let v6 = digit_value(s.get_char(6));
    let v8 = digit_value(s.get_char(8));
    let v9 = digit_value(s.get_char(9));
    match (v0, v1, v2, v3, v5, v6, v8, v9) {
        (
            Some(y0),
            Some(y1),
            Some(y2),
            Some(y3),
            Some(m0),
            Some(m1),
            Some(d0),
            Some(d1),
        ) => {
            let year = 1000 * y0 + 100 * y1 + 10 * y2 + y3;
            let month = 10 * m0 + m1;
            let day = 10 * d0 + d1;
            let r = Date::new(year, month, day);
            proof {
                if r is None {
                    assert forall|d: Date| d.valid() implies !is_date_str(s@, d) by {
                        if is_date_str(s@, d) {
                            assert(d == Date { year, month, day });
                        }
                    }
                } else {
                    let d = Date { year, month, day };
                    assert(parseable(s@));
                    lemma_date_str_unique(s@, parsed_date(s@), d);
                }
            }
            r
        },
        _ => {
            proof {
                assert forall|d: Date| d.valid() implies !is_date_str(s@, d) by {}
            }
            None
        },
    }
}

/// A number of up to four digits is the weighted sum of its decimal digits.
proof fn lemma_decimal_digits(y: int)
    requires
        0 <= y <= 9999,
    ensures
        y == 1000 * (y / 1000) + 100 * ((y / 100) % 10) + 10 * ((y / 10) % 10) + y % 10,
        y / 1000 <= 9,
{
    vstd::arithmetic::div_mod::lemma_div_denominator(y, 10, 10);
    vstd::arithmetic::div_mod::lemma_div_denominator(y, 100, 10);
    vstd::arithmetic::div_mod::lemma_fundamental_div_mod(y, 10);
    vstd::arithmetic::div_mod::lemma_fundamental_div_mod(y / 10, 10);
    vstd::arithmetic::div_mod::lemma_fundamental_div_mod(y / 100, 10);
}

/// Renders a valid date as its unique `YYYY-MM-DD` spelling.
pub fn format_date(d: &Date) -> (r: String)
    requires
        d.valid(),
    ensures
        is_date_str(r@, *d),
{
    proof {
        lemma_decimal_digits(d.year as int);
    }
    let s0 = digit_str(d.year / 1000);
    let s1 = digit_str((d.year / 100) % 10);
    let s2 = digit_str((d.year / 10) % 10);
    let s3 = digit_str(d.year % 10);
    let s5 = digit_str(d.month / 10);
    let s6 = digit_str(d.month % 10);
    let s8 = digit_str(d.day / 10);
    let s9 = digit_str(d.day % 10);
    let mut out = String::new();
    out.append(s0);
    out.append(s1);
    out.append(s2);
    out.append(s3);
    out.append(dash_str());
    out.append(s5);
    out.append(s6);
    out.append(dash_str());
    out.append(s8);
    out.append(s9);
    proof {
        assert(out@ =~= seq![
            s0@[0],
            s1@[0],
            s2@[0],
            s3@[0],
            '-',
            s5@[0],
            s6@[0],
            '-',
            s8@[0],
            s9@[0],
        ]);
    }
    out
}

/// A one-character string for a decimal digit.
fn digit_str(v: u32) -> (r: &'static str)
    requires
        v <= 9,
    ensures
        r@.len() == 1,
        is_digit(r@[0]),
        char_digit(r@[0]) == v as int,
{
    proof {
        reveal_strlit("0");
        reveal_strlit("1");
        reveal_strlit("2");
        reveal_strlit("3");
        reveal_strlit("4");
        reveal_strlit("5");
        reveal_strlit("6");
        reveal_strlit("7");
        reveal_strlit("8");
        reveal_strlit("9");
    }
    match v {
        0 => "0",
        1 => "1",
        2 => "2",
        3 => "3",
        4 => "4",
        5 => "5",
        6 => "6",
        7 => "7",
        8 => "8",
        _ => "9",
    }
}

/// A one-character string holding the date separator.
fn dash_str() -> (r: &'static str)
    ensures
        r@.len() == 1,
        r@[0] == '-',
{
    proof {
        reveal_strlit("-");
    }
    "-"
}

/// The value of an ASCII digit character, or nothing.
fn digit_value(c: char) -> (r: Option<u32>)
    ensures
        match r {
            Some(v) => is_digit(c) && v == char_digit(c) && v <= 9,
            None => !is_digit(c),
        },
{
    let u = c as u32;
    if 48 <= u && u <= 57 {
        Some(u - 48)
    } else {
        None
    }
}

} // verus!
