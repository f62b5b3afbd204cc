//! RFC 3339 timestamps.
use vstd::prelude::*;

verus! {

/// The character is a decimal digit.
pub open spec fn is_digit(c: char) -> bool {
    '0' <= c <= '9'
}

/// The value of a decimal digit.
pub open spec fn digit_value(c: char) -> int {
    c as int - '0' as int
}

/// Two digits stand at `at`.
pub open spec fn two_digits_at(s: Seq<char>, at: int) -> bool {
    0 <= at && at + 2 <= s.len() && is_digit(s[at]) && is_digit(s[at + 1])
}

/// The number that the two digits at `at` write.
pub open spec fn two_digits(s: Seq<char>, at: int) -> int {
    10 * digit_value(s[at]) + digit_value(s[at + 1])
}

/// Four digits stand at `at`.
pub open spec fn four_digits_at(s: Seq<char>, at: int) -> bool {
    two_digits_at(s, at) && two_digits_at(s, at + 2)
}

/// The number that the four digits at `at` write.
pub open spec fn four_digits(s: Seq<char>, at: int) -> int {
    100 * two_digits(s, at) + two_digits(s, at + 2)
}

/// The year is a leap year of the Gregorian calendar.
pub open spec fn is_leap_year(year: int) -> bool {
    year % 4 == 0 && (year % 100 != 0 || year % 400 == 0)
}

/// The number of days of a month.
pub open spec fn days_in_month(year: int, month: int) -> int {
    if month == 2 {
        if is_leap_year(year) {
            29
        } else {
            28
        }
    } else if month == 4 || month == 6 || month == 9 || month == 11 {
        30
    } else {
        31
    }
}

/// The string starts with a date of the calendar: `YYYY-MM-DD`.
pub open spec fn has_date(s: Seq<char>) -> bool {
    &&& four_digits_at(s, 0)
    &&& s.len() > 10
    &&& s[4] == '-'
    &&& two_digits_at(s, 5)
    &&& s[7] == '-'
    &&& two_digits_at(s, 8)
    &&& 1 <= two_digits(s, 5) <= 12
    &&& 1 <= two_digits(s, 8) <= days_in_month(four_digits(s, 0), two_digits(s, 5))
}

/// A time of day stands at `at`: `hh:mm:ss`, with 60 allowed for a leap
/// second.
pub open spec fn has_time_at(s: Seq<char>, at: int) -> bool {
    &&& two_digits_at(s, at)
    &&& at + 8 <= s.len()
    &&& s[at + 2] == ':'
    &&& two_digits_at(s, at + 3)
    &&& s[at + 5] == ':'
    &&& two_digits_at(s, at + 6)
    &&& two_digits(s, at) <= 23
    &&& two_digits(s, at + 3) <= 59
    &&& two_digits(s, at + 6) <= 60
}

/// The first position from `from` on that holds no digit.
pub open spec fn digits_end(s: Seq<char>, from: int) -> int
    decreases s.len() - from,
{
    if 0 <= from < s.len() && is_digit(s[from]) {
        digits_end(s, from + 1)
    } else {
        from
    }
}

/// From `at` to its end the string is a time zone: `Z`, or a sign and
/// `hh:mm`.
pub open spec fn is_offset_at(s: Seq<char>, at: int) -> bool {
    &&& 0 <= at < s.len()
    &&& if s[at] == 'Z' || s[at] == 'z' {
        s.len() == at + 1
    } else {
        &&& s[at] == '+' || s[at] == '-'
        &&& s.len() == at + 6
        &&& two_digits_at(s, at + 1)
        &&& s[at + 3] == ':'
        &&& two_digits_at(s, at + 4)
        &&& two_digits(s, at + 1) <= 23
        &&& two_digits(s, at + 4) <= 59
    }
}

/// The string is a timestamp as RFC 3339 writes it: a date, `T`, a time, a
/// fraction of a second if any (a point and at least one digit), and a time
/// zone. `T` and `Z` may be in lower case.
pub open spec fn is_rfc3339(s: Seq<char>) -> bool {
    &&& has_date(s)
    &&& (s[10] == 'T' || s[10] == 't')
    &&& has_time_at(s, 11)
    &&& s.len() > 19
    &&& if s[19] == '.' {
        digits_end(s, 20) > 20 && is_offset_at(s, digits_end(s, 20))
    } else {
        is_offset_at(s, 19)
    }
}

/// The characters of a string.
fn chars_of(s: &str) -> (chars: Vec<char>)
    ensures
        chars@ == s@,
{
    broadcast use vstd::string::group_string_axioms;

    let mut chars: Vec<char> = Vec::new();
    for c in it: s.chars()
        invariant
            it.seq() == s@,
            chars@ == s@.take(it.index()),
    {
        chars.push(c);
        assert(chars@ =~= s@.take(it.index() + 1));
    }
    assert(s@.take(s@.len() as int) =~= s@);
    chars
}

/// Reads the two digits at `at`, if two digits stand there.
fn read_two_digits(chars: &Vec<char>, at: usize) -> (r: Option<u32>)
    ensures
        r is Some <==> two_digits_at(chars@, at as int),
        r matches Some(n) ==> n == two_digits(chars@, at as int) && n <= 99,
{
    if chars.len() < 2 || at > chars.len() - 2 {
        return None;
    }
    let a = chars[at];
    let b = chars[at + 1];
    if a >= '0' && a <= '9' && b >= '0' && b <= '9' {
        Some(10 * (a as u32 - '0' as u32) + (b as u32 - '0' as u32))
    } else {
        None
    }
}

/// Tells whether the characters from `at` on are a time zone.
fn check_offset(chars: &Vec<char>, at: usize) -> (ok: bool)
    ensures
        ok == is_offset_at(chars@, at as int),
{
    if at >= chars.len() {
        return false;
    }
    let c = chars[at];
    if c == 'Z' || c == 'z' {
        return chars.len() - at == 1;
    }
    if !(c == '+' || c == '-') || chars.len() - at != 6 || chars[at + 3] != ':' {
        return false;
    }
    match (read_two_digits(chars, at + 1), read_two_digits(chars, at + 4)) {
        (Some(hour), Some(minute)) => hour <= 23 && minute <= 59,
        _ => false,
    }
}

/// Tells whether the string is an RFC 3339 timestamp.
pub fn is_timestamp(s: &str) -> (ok: bool)
    ensures
        ok == is_rfc3339(s@),
{
    let chars = chars_of(s);
    let n = chars.len();
    if n < 20 {
        return false;
    }
    if chars[4] != '-' || chars[7] != '-' || !(chars[10] == 'T' || chars[10] == 't')
        || chars[13] != ':' || chars[16] != ':' {
        return false;
    }
    let (century, years, month, day, hour, minute, second) = match (
        read_two_digits(&chars, 0),
        read_two_digits(&chars, 2),
        read_two_digits(&chars, 5),
        read_two_digits(&chars, 8),
        read_two_digits(&chars, 11),
        read_two_digits(&chars, 14),
        read_two_digits(&chars, 17),
    ) {
        (Some(a), Some(b), Some(c), Some(d), Some(e), Some(f), Some(g)) => (a, b, c, d, e, f, g),
        _ => {
            return false;
        },
    };
    let year = 100 * century + years;
    let leap = year % 4 == 0 && (year % 100 != 0 || year % 400 == 0);
    let days: u32 = if month == 2 {
        if leap {
            29
        } else {
            28
        }
    } else if month == 4 || month == 6 || month == 9 || month == 11 {
        30
    } else {
        31
    };
    if month < 1 || month > 12 || day < 1 || day > days || hour > 23 || minute > 59 || second
        > 60 {
        return false;
    }
    if chars[19] != '.' {
        return check_offset(&chars, 19);
    }
    let mut end: usize = 20;
    while end < n && chars[end] >= '0' && chars[end] <= '9'
        invariant
            20 <= end <= n,
            n == chars.len(),
            digits_end(chars@, 20) == digits_end(chars@, end as int),
        decreases n - end,
    {
        end += 1;
    }
    end > 20 && check_offset(&chars, end)
}

} // verus!
