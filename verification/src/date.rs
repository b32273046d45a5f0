//! The date transcoder: parsing `MM/DD/YY` text into a validated
//! [`CalendarDate`] and formatting such a date as `MM/DD/YYYY`.

use vstd::prelude::*;
use crate::text::{
    is_space,
    is_space_char,
    trim_front,
    trim_back,
    trimmed,
    lemma_trim_front_noop,
    lemma_trim_back_noop,
    lemma_trimmed_idempotent,
};

verus! {

/// A character is an ASCII decimal digit.
pub open spec fn is_digit(c: char) -> bool {
    0x30 <= c as u32 <= 0x39
}

/// The numeric value of an ASCII decimal digit character.
pub open spec fn digit_of(c: char) -> int {
    c as u32 - 0x30
}

/// The ASCII character for a decimal digit value.
pub open spec fn digit_char(d: int) -> char {
    if d == 0 {
        '0'
    } else if d == 1 {
        '1'
    } else if d == 2 {
        '2'
    } else if d == 3 {
        '3'
    } else if d == 4 {
        '4'
    } else if d == 5 {
        '5'
    } else if d == 6 {
        '6'
    } else if d == 7 {
        '7'
    } else if d == 8 {
        '8'
    } else {
        '9'
    }
}

/// The value of the two digit characters of `s` at positions `i` and `i + 1`.
pub open spec fn two_digit_val(s: Seq<char>, i: int) -> int {
    10 * digit_of(s[i]) + digit_of(s[i + 1])
}

/// The trimmed input matches the fixed pattern: exactly two digits, a slash,
/// two digits, a slash, and two digits.
pub open spec fn matches_pattern(t: Seq<char>) -> bool {
    &&& t.len() == 8
    &&& is_digit(t[0])
    &&& is_digit(t[1])
    &&& t[2] == '/'
    &&& is_digit(t[3])
    &&& is_digit(t[4])
    &&& t[5] == '/'
    &&& is_digit(t[6])
    &&& is_digit(t[7])
}

/// The century-inference policy for a two-digit year: the conventional
/// windowing used by the common date libraries, which reads 00–68 as
/// 2000–2068 and 69–99 as 1969–1999. This is configuration, documented here,
/// not something the calendar itself determines.
pub open spec fn full_year_of(yy: int) -> int {
    if yy <= 68 {
        2000 + yy
    } else {
        1900 + yy
    }
}

/// Leap years of the proleptic Gregorian calendar.
pub open spec fn is_leap_year(y: int) -> bool {
    (y % 4 == 0 && y % 100 != 0) || y % 400 == 0
}

/// How many days the given month of the given year has; `0` for a month
/// outside `1..=12`.
pub open spec fn days_in_month(y: int, m: int) -> int {
    if m == 1 || m == 3 || m == 5 || m == 7 || m == 8 || m == 10 || m == 12 {
        31
    } else if m == 4 || m == 6 || m == 9 || m == 11 {
        30
    } else if m == 2 {
        if is_leap_year(y) {
            29
        } else {
            28
        }
    } else {
        0
    }
}

/// A calendar-correct year, month, day triple that the library's date type
/// can carry: the month is in range, the day exists in that month of that
/// year, and the year has at most four digits.
pub open spec fn valid_ymd(y: int, m: int, d: int) -> bool {
    &&& 0 <= y <= 9999
    &&& 1 <= m <= 12
    &&& 1 <= d <= days_in_month(y, m)
}

/// What parsing returns on a given character sequence: the (year, month,
/// day) triple read from the trimmed text when it matches the pattern and
/// names a calendar-correct date, and nothing otherwise.
pub open spec fn parse_spec(s: Seq<char>) -> Option<(int, int, int)> {
    let t = trimmed(s);
    if matches_pattern(t) {
        let m = two_digit_val(t, 0);
        let d = two_digit_val(t, 3);
        let y = full_year_of(two_digit_val(t, 6));
        if valid_ymd(y, m, d) {
            Some((y, m, d))
        } else {
            None
        }
    } else {
        None
    }
}

/// The two zero-padded digit characters of a value below 100.
pub open spec fn two_digits(v: int) -> Seq<char> {
    seq![digit_char(v / 10), digit_char(v % 10)]
}

/// The four zero-padded digit characters of a value below 10000.
pub open spec fn four_digits(v: int) -> Seq<char> {
    seq![
        digit_char(v / 1000),
        digit_char((v / 100) % 10),
        digit_char((v / 10) % 10),
        digit_char(v % 10),
    ]
}

/// What formatting returns: zero-padded month, day and four-digit year,
/// joined by slashes.
pub open spec fn format_spec(y: int, m: int, d: int) -> Seq<char> {
    two_digits(m) + seq!['/'] + two_digits(d) + seq!['/'] + four_digits(y)
}

/// A validated calendar date. Construction is the validation step: a value
/// of this type always satisfies [`CalendarDate::wf`].
#[derive(Clone, Copy, Debug, PartialEq, Eq, Structural)]
pub struct CalendarDate {
    year: u32,
    month: u32,
    day: u32,
}

impl CalendarDate {
    /// The year as a mathematical integer.
    pub closed spec fn y(self) -> int {
        self.year as int
    }

    /// The month as a mathematical integer.
    pub closed spec fn m(self) -> int {
        self.month as int
    }

    /// The day as a mathematical integer.
    pub closed spec fn d(self) -> int {
        self.day as int
    }

    /// Calendar correctness of the triple.
    pub open spec fn wf(self) -> bool {
        valid_ymd(self.y(), self.m(), self.d())
    }

    /// Builds a date from a year, month and day, validating the triple:
    /// returns the date exactly when the triple is calendar-correct, and
    /// nothing otherwise. Never clamps or guesses.
    pub fn from_ymd(year: u32, month: u32, day: u32) -> (r: Option<CalendarDate>)
        ensures
            r is Some <==> valid_ymd(year as int, month as int, day as int),
            r matches Some(d) ==> d.wf() && d.y() == year && d.m() == month && d.d() == day,
    {
        if year <= 9999 && 1 <= month && month <= 12 && 1 <= day && day <= days_in_month_exec(
            year,
            month,
        ) {
            Some(CalendarDate { year, month, day })
        } else {
            None
        }
    }

    /// The year, in `0..=9999`.
    pub fn year(&self) -> (r: u32)
        ensures
            r == self.y(),
    {
        self.year
    }

    /// The month, in `1..=12` for a well-formed date.
    pub fn month(&self) -> (r: u32)
        ensures
            r == self.m(),
    {
        self.month
    }

    /// The day of the month, valid for the month and year of a well-formed
    /// date.
    pub fn day(&self) -> (r: u32)
        ensures
            r == self.d(),
    {
        self.day
    }
}

/// Executable day count per month, equal to [`days_in_month`].
fn days_in_month_exec(year: u32, month: u32) -> (r: u32)
    requires
        1 <= month <= 12,
    ensures
        r == days_in_month(year as int, month as int),
{
    if month == 2 {
        if (year % 4 == 0 && year % 100 != 0) || year % 400 == 0 {
            29
        } else {
            28
        }
    } else if month == 4 || month == 6 || month == 9 || month == 11 {
        30
    } else {
        31
    }
}

/// The numeric value of a digit character, or nothing for any other
/// character.
fn digit_val(c: char) -> (r: Option<u32>)
    ensures
        r is Some <==> is_digit(c),
        r matches Some(v) ==> v == digit_of(c) && v <= 9,
{
    let u = c as u32;
    if 0x30 <= u && u <= 0x39 {
        Some(u - 0x30)
    } else {
        None
    }
}

/// Parses free-form text against the fixed `MM/DD/YY` pattern.
///
/// Leading and trailing whitespace is insignificant. The parse succeeds
/// exactly when the trimmed text is two digits, a slash, two digits, a
/// slash, and two digits, and the fields name a calendar-correct date once
/// the two-digit year has gone through century inference. Anything else —
/// a different field count or separator, non-numeric content, an
/// out-of-range month or day — yields absence, never a failure: this is a
/// total function over strings.
pub fn parse_date(date: &str) -> (r: Option<CalendarDate>)
    ensures
        r is Some <==> parse_spec(date@) is Some,
        r matches Some(d) ==> d.wf() && parse_spec(date@) == Some((d.y(), d.m(), d.d())),
{
    let ghost s = date@;
    let n = date.unicode_len();
    let mut start: usize = 0;
    proof {
        assert(s.skip(0) =~= s);
    }
    while start < n && is_space_char(date.get_char(start))
        invariant
            n == s.len(),
            s == date@,
            start <= n,
            trim_front(s) == trim_front(s.skip(start as int)),
        decreases n - start,
    {
        proof {
            assert(s.skip(start as int).drop_first() =~= s.skip(start as int + 1));
        }
        start = start + 1;
    }
    proof {
        let u = s.skip(start as int);
        if start < n {
            assert(u[0] == s[start as int]);
        }
        lemma_trim_front_noop(u);
        assert(trim_front(s) == u);
        assert(s.subrange(start as int, n as int) =~= u);
    }
    let mut end: usize = n;
    while end > start && is_space_char(date.get_char(end - 1))
        invariant
            n == s.len(),
            s == date@,
            start <= end <= n,
            trim_front(s) == s.skip(start as int),
            trimmed(s) == trim_back(s.subrange(start as int, end as int)),
        decreases end,
    {
        proof {
            let u = s.subrange(start as int, end as int);
            assert(u.last() == s[end - 1]);
            assert(u.drop_last() =~= s.subrange(start as int, end as int - 1));
        }
        end = end - 1;
    }
    proof {
        let u = s.subrange(start as int, end as int);
        if end > start {
            assert(u.last() == s[end - 1]);
        }
        lemma_trim_back_noop(u);
        assert(trimmed(s) == u);
    }
    if end - start != 8 {
        return None;
    }
    let ghost t = trimmed(s);
    let c0 = date.get_char(start);
    let c1 = date.get_char(start + 1);
    let c2 = date.get_char(start + 2);
    let c3 = date.get_char(start + 3);
    let c4 = date.get_char(start + 4);
    let c5 = date.get_char(start + 5);
    let c6 = date.get_char(start + 6);
    let c7 = date.get_char(start + 7);
    proof {
        assert(t[0] == c0 && t[1] == c1 && t[2] == c2 && t[3] == c3 && t[4] == c4 && t[5] == c5
            && t[6] == c6 && t[7] == c7);
    }
    if c2 != '/' || c5 != '/' {
        return None;
    }
    let (m1, m2, d1, d2, y1, y2) = match (
        digit_val(c0),
        digit_val(c1),
        digit_val(c3),
        digit_val(c4),
        digit_val(c6),
        digit_val(c7),
    ) {
        (Some(m1), Some(m2), Some(d1), Some(d2), Some(y1), Some(y2)) => (m1, m2, d1, d2, y1, y2),
        _ => {
            return None;
        },
    };
    let month: u32 = 10 * m1 + m2;
    let day: u32 = 10 * d1 + d2;
    let yy: u32 = 10 * y1 + y2;
    let year: u32 = if yy <= 68 {
        2000 + yy
    } else {
        1900 + yy
    };
    proof {
        assert(matches_pattern(t));
        assert(month == two_digit_val(t, 0));
        assert(day == two_digit_val(t, 3));
        assert(year == full_year_of(two_digit_val(t, 6)));
    }
    CalendarDate::from_ymd(year, month, day)
}

/// A one-character string for a decimal digit value.
fn digit_str(d: u32) -> (r: &'static str)
    requires
        d <= 9,
    ensures
        r@ == seq![digit_char(d as int)],
{
    let r: &'static str = if d == 0 {
        "0"
    } else if d == 1 {
        "1"
    } else if d == 2 {
        "2"
    } else if d == 3 {
        "3"
    } else if d == 4 {
        "4"
    } else if d == 5 {
        "5"
    } else if d == 6 {
        "6"
    } else if d == 7 {
        "7"
    } else if d == 8 {
        "8"
    } else {
        "9"
    };
    proof {
        reveal_strlit("0");
        reveal_strlit("1");
        reveal_strlit("2");
        reveal_strlit("3");
        reveal_strlit("4");
        reveal_strlit("5");
        reveal_strlit("6");
        reveal_strlit("7");
        reveal_strlit("8");
        reveal_strlit("9");
        assert(r@ =~= seq![digit_char(d as int)]);
    }
    r
}

/// Formats a validated date as zero-padded `MM/DD/YYYY`: month `01`–`12`,
/// day `01`–`31`, the year as plain four digits. This cannot fail: every
/// [`CalendarDate`] is renderable.
pub fn format_date_for_irs(date: &CalendarDate) -> (r: String)
    requires
        date.wf(),
    ensures
        r@ == format_spec(date.y(), date.m(), date.d()),
{
    let year = date.year();
    let month = date.month();
    let day = date.day();
    let mut out = String::new();
    out.append(digit_str(month / 10));
    out.append(digit_str(month % 10));
    out.append(slash_str());
    out.append(digit_str(day / 10));
    out.append(digit_str(day % 10));
    out.append(slash_str());
    out.append(digit_str(year / 1000));
    out.append(digit_str((year / 100) % 10));
    out.append(digit_str((year / 10) % 10));
    out.append(digit_str(year % 10));
    proof {
        assert(out@ =~= format_spec(date.y(), date.m(), date.d()));
    }
    out
}

/// A one-character string holding the field separator.
fn slash_str() -> (r: &'static str)
    ensures
        r@ == seq!['/'],
{
    proof {
        reveal_strlit("/");
        assert("/"@ =~= seq!['/']);
    }
    "/"
}

/// Parsing accepts every well-formed input: when the trimmed text matches
/// the `MM/DD/YY` pattern and its month and day fields are in range for the
/// century-inferred year, the parse returns exactly the triple read from the
/// fields.
pub proof fn lemma_parse_accepts(s: Seq<char>)
    requires
        matches_pattern(trimmed(s)),
        1 <= two_digit_val(trimmed(s), 0) <= 12,
        1 <= two_digit_val(trimmed(s), 3) <= days_in_month(
            full_year_of(two_digit_val(trimmed(s), 6)),
            two_digit_val(trimmed(s), 0),
        ),
    ensures
        parse_spec(s) == Some(
            (
                full_year_of(two_digit_val(trimmed(s), 6)),
                two_digit_val(trimmed(s), 0),
                two_digit_val(trimmed(s), 3),
            ),
        ),
{
    let t = trimmed(s);
    assert(0 <= digit_of(t[6]) <= 9 && 0 <= digit_of(t[7]) <= 9);
    assert(1900 <= full_year_of(two_digit_val(t, 6)) <= 2068);
}

/// Parsing rejects everything else: text whose trimmed form does not match
/// the pattern, and text that matches syntactically but names a month or a
/// day out of range, both yield absence.
pub proof fn lemma_parse_rejects(s: Seq<char>)
    requires
        !matches_pattern(trimmed(s)) || !valid_ymd(
            full_year_of(two_digit_val(trimmed(s), 6)),
            two_digit_val(trimmed(s), 0),
            two_digit_val(trimmed(s), 3),
        ),
    ensures
        parse_spec(s) is None,
{
}

/// Trimming is idempotent for parsing: an input and its trimmed form — two
/// strings that differ only in leading and trailing whitespace — parse to
/// the same outcome.
pub proof fn lemma_parse_trim(s: Seq<char>)
    ensures
        parse_spec(trimmed(s)) == parse_spec(s),
{
    lemma_trimmed_idempotent(s);
}

/// The shape of formatted output: exactly ten characters, the zero-padded
/// two-digit month and day and the four-digit year joined by slashes, digits
/// everywhere else.
pub proof fn lemma_format_shape(y: int, m: int, d: int)
    requires
        valid_ymd(y, m, d),
    ensures
        format_spec(y, m, d).len() == 10,
        format_spec(y, m, d) == two_digits(m) + seq!['/'] + two_digits(d) + seq!['/'] + four_digits(
            y,
        ),
        format_spec(y, m, d)[2] == '/',
        format_spec(y, m, d)[5] == '/',
        forall|i: int| 0 <= i < 10 && i != 2 && i != 5 ==> is_digit(#[trigger] format_spec(y, m, d)[i]),
{
    let f = format_spec(y, m, d);
    assert forall|i: int| 0 <= i < 10 && i != 2 && i != 5 implies is_digit(#[trigger] f[i]) by {
        lemma_digit_char_is_digit(m / 10);
        lemma_digit_char_is_digit(m % 10);
        lemma_digit_char_is_digit(d / 10);
        lemma_digit_char_is_digit(d % 10);
        lemma_digit_char_is_digit(y / 1000);
        lemma_digit_char_is_digit((y / 100) % 10);
        lemma_digit_char_is_digit((y / 10) % 10);
        lemma_digit_char_is_digit(y % 10);
    }
}

/// [`digit_char`] yields a digit character, never whitespace.
proof fn lemma_digit_char_is_digit(d: int)
    ensures
        is_digit(digit_char(d)),
        !is_space(digit_char(d)),
{
}

/// Formatted output never re-parses: feeding `MM/DD/YYYY` text back through
/// the parser yields absence, because the four-digit year cannot match the
/// two-digit pattern. The polling loop may therefore observe its own
/// write-back without triggering a second transformation.
pub proof fn lemma_format_not_reparsed(y: int, m: int, d: int)
    requires
        valid_ymd(y, m, d),
    ensures
        parse_spec(format_spec(y, m, d)) is None,
{
    let f = format_spec(y, m, d);
    lemma_format_shape(y, m, d);
    lemma_digit_char_is_digit(m / 10);
    lemma_digit_char_is_digit(y % 10);
    assert(f.len() == 10 && !is_space(f[0]) && !is_space(f.last()));
    lemma_trim_front_noop(f);
    lemma_trim_back_noop(f);
    assert(trimmed(f) == f);
}

} // verus!

