//! Civil calendar dates and UTC timestamps.

use crate::text::{
    digits_value, integer_within, is_digit, is_digits, law_split_at_every_separator,
    law_split_at_the_first_separator, parse_i64, split, split_once, split_text, split_text_once,
    substring, texts, to_chars,
};
use vstd::prelude::*;

verus! {

/// The quotient of `a` by `b`, rounded towards zero.
pub open spec fn truncated_div(a: int, b: int) -> int {
    if a >= 0 {
        a / b
    } else {
        -((-a) / b)
    }
}

/// The remainder that belongs to [`truncated_div`]; it has the sign of `a`.
pub open spec fn truncated_rem(a: int, b: int) -> int {
    a - b * truncated_div(a, b)
}

/// Days from 1970-01-01 to day `d` of month `m` of year `y`, counted in
/// 400-year eras of years that begin in March. Months past December wrap
/// around within the same year.
pub open spec fn days_from_epoch(y: int, m: int, d: int) -> int {
    let year = if m <= 2 {
        y - 1
    } else {
        y
    };
    let era = year / 400;
    let year_of_era = year - era * 400;
    let month = truncated_rem(m + 9, 12);
    let day_of_year = truncated_div(153 * month + 2, 5) + d - 1;
    let day_of_era = year_of_era * 365 + year_of_era / 4 - year_of_era / 100 + day_of_year;
    era * 146_097 + day_of_era - 719_468
}

/// Days from 1970-01-01 to the given civil date. The result is wide enough
/// for every argument.
pub fn days_from_civil(y: i64, m: i64, d: i64) -> (days: i128)
    ensures
        days == days_from_epoch(y as int, m as int, d as int),
{
    let ghost (month, day) = (m as int, d as int);
    let y: i128 = y as i128;
    let m: i128 = m as i128;
    let d: i128 = d as i128;
    let y: i128 = if m <= 2 {
        y - 1
    } else {
        y
    };
    let era: i128 = (if y >= 0 {
        y
    } else {
        y - 399
    }) / 400;
    assert(era == y as int / 400);
    let yoe: i128 = y - era * 400;
    assert(0 <= yoe < 400);
    let mp: i128 = (m + 9) % 12;
    assert(mp == truncated_rem(month + 9, 12));
    assert(-12 < mp < 12);
    let doy: i128 = (153 * mp + 2) / 5 + d - 1;
    assert(doy == truncated_div(153 * mp + 2, 5) + day - 1);
    let doe: i128 = yoe * 365 + yoe / 4 - yoe / 100 + doy;
    era * 146_097 + doe - 719_468
}

/// A leap year of the Gregorian calendar.
pub open spec fn leap_year(y: int) -> bool {
    y % 4 == 0 && (y % 100 != 0 || y % 400 == 0)
}

/// Length of month `m` of year `y`.
pub open spec fn days_in_month(y: int, m: int) -> int {
    if m == 2 {
        if leap_year(y) {
            29
        } else {
            28
        }
    } else if m == 4 || m == 6 || m == 9 || m == 11 {
        30
    } else {
        31
    }
}

/// A date of the proleptic Gregorian calendar.
pub open spec fn valid_date(y: int, m: int, d: int) -> bool {
    1 <= m <= 12 && 1 <= d <= days_in_month(y, m)
}

/// The date that follows.
pub open spec fn next_date(y: int, m: int, d: int) -> (int, int, int) {
    if d < days_in_month(y, m) {
        (y, m, d + 1)
    } else if m < 12 {
        (y, m + 1, 1)
    } else {
        (y + 1, 1, 1)
    }
}

/// Days from the start of the first era to the March that opens `year`.
spec fn days_to_march(year: int) -> int {
    let era = year / 400;
    let year_of_era = year - era * 400;
    era * 146_097 + (year_of_era * 365 + year_of_era / 4 - year_of_era / 100)
}

/// From one March to the next there are 366 days if the later February
/// has a leap day, and 365 otherwise.
proof fn lemma_march_to_march(y: int)
    ensures
        days_to_march(y) == days_to_march(y - 1) + if leap_year(y) {
            366int
        } else {
            365int
        },
{
    let era = y / 400;
    let r = y - era * 400;
    assert(0 <= r < 400);
    lemma_residues(era, r);
    if r == 0 {
        assert((y - 1) / 400 == era - 1) by {
            assert(y - 1 == 400 * (era - 1) + 399);
        }
        assert(days_to_march(y - 1) == (era - 1) * 146_097 + (399 * 365 + 399int / 4 - 399int
            / 100));
    } else {
        assert((y - 1) / 400 == era) by {
            assert(y - 1 == 400 * era + (r - 1));
        }
        assert(days_to_march(y - 1) == era * 146_097 + ((r - 1) * 365 + (r - 1) / 4 - (r - 1)
            / 100));
        lemma_quotient_step(r);
    }
}

/// A year and its place in its era agree modulo 4, 100 and 400.
proof fn lemma_residues(era: int, r: int)
    requires
        0 <= r < 400,
    ensures
        (era * 400 + r) % 4 == r % 4,
        (era * 400 + r) % 100 == r % 100,
        (era * 400 + r) % 400 == r,
{
}

/// A quotient grows by one exactly at the multiples of its divisor.
proof fn lemma_quotient_step(r: int)
    requires
        1 <= r < 400,
    ensures
        r / 4 - (r - 1) / 4 == if r % 4 == 0 {
            1int
        } else {
            0int
        },
        r / 100 - (r - 1) / 100 == if r % 100 == 0 {
            1int
        } else {
            0int
        },
{
}

/// The day count is zero on 1970-01-01 and grows by one from each date of
/// the calendar to the next, in every year.
pub proof fn law_day_count_follows_calendar(y: int, m: int, d: int)
    requires
        valid_date(y, m, d),
    ensures
        days_from_epoch(1970, 1, 1) == 0,
        ({
            let (y2, m2, d2) = next_date(y, m, d);
            valid_date(y2, m2, d2) && days_from_epoch(y2, m2, d2) == days_from_epoch(y, m, d) + 1
        }),
{
    lemma_march_to_march(y);
    let before = |m: int| truncated_div(153 * truncated_rem(m + 9, 12) + 2, 5);
    let year = |y: int, m: int|
        if m <= 2 {
            y - 1
        } else {
            y
        };
    assert(days_from_epoch(y, m, d) == days_to_march(year(y, m)) + before(m) + d - 1 - 719_468);
    let (y2, m2, d2) = next_date(y, m, d);
    assert(days_from_epoch(y2, m2, d2) == days_to_march(year(y2, m2)) + before(m2) + d2 - 1
        - 719_468);
    assert(before(3) == 0 && before(4) == 31 && before(5) == 61 && before(6) == 92 && before(7)
        == 122 && before(8) == 153 && before(9) == 184 && before(10) == 214 && before(11) == 245
        && before(12) == 275 && before(1) == 306 && before(2) == 337);
    if d == days_in_month(y, m) {
        assert(m == 1 || m == 2 || m == 3 || m == 4 || m == 5 || m == 6 || m == 7 || m == 8 || m
            == 9 || m == 10 || m == 11 || m == 12);
    }
}

/// The instant, in milliseconds since 1970-01-01T00:00:00Z, that a date and
/// a time of day denote.
pub open spec fn millis_of(
    year: int,
    month: int,
    day: int,
    hour: int,
    minute: int,
    second: int,
    millis: int,
) -> int {
    ((days_from_epoch(year, month, day) * 24 + hour) * 60 + minute) * 60 * 1000 + second * 1000
        + millis
}

/// An `i64` written in decimal.
pub open spec fn whole(s: Seq<char>) -> Option<int> {
    integer_within(s, i64::MIN as int, i64::MAX as int)
}

/// The first three characters of `s`, filled up with zeros on the right.
pub open spec fn three_digits(s: Seq<char>) -> Seq<char> {
    Seq::new(
        3,
        |i: int|
            if i < s.len() {
                s[i]
            } else {
                '0'
            },
    )
}

/// The first three of the fields between occurrences of `sep`, each a
/// whole number. Further fields are not looked at.
pub open spec fn three_fields(s: Seq<char>, sep: char) -> Option<(int, int, int)> {
    let fields = split(s, sep);
    if fields.len() >= 3 && whole(fields[0]) is Some && whole(fields[1]) is Some && whole(
        fields[2],
    ) is Some {
        Some((whole(fields[0])->0, whole(fields[1])->0, whole(fields[2])->0))
    } else {
        None
    }
}

/// A time of day without and with a fraction of a second: the clock part,
/// and the milliseconds where the fraction can be read.
pub open spec fn clock_and_millis(time: Seq<char>) -> (Seq<char>, Option<int>) {
    match split_once(time, '.') {
        Some((clock, fraction)) => (clock, whole(three_digits(fraction))),
        None => (time, Some(0)),
    }
}

/// What a timestamp `YYYY-MM-DDTHH:MM:SS[.fff]Z` denotes, in milliseconds
/// since the epoch. Nothing, where the text has another form.
pub open spec fn timestamp_millis(s: Seq<char>) -> Option<int> {
    if s.len() == 0 || s.last() != 'Z' {
        None
    } else {
        match split_once(s.drop_last(), 'T') {
            Some((date, time)) => {
                let (clock, millis) = clock_and_millis(time);
                match (three_fields(date, '-'), three_fields(clock, ':'), millis) {
                    (Some((year, month, day)), Some((hour, minute, second)), Some(millis)) => Some(
                        millis_of(year, month, day, hour, minute, second, millis),
                    ),
                    _ => None,
                }
            },
            None => None,
        }
    }
}

/// A value, where it fits in an `i64`.
pub open spec fn fits_i64(n: Option<int>) -> Option<int> {
    match n {
        Some(n) => if i64::MIN <= n <= i64::MAX {
            Some(n)
        } else {
            None
        },
        None => None,
    }
}

/// Reads the first three fields of `s`.
fn parse_three_fields(s: &str, sep: char) -> (fields: Option<(i64, i64, i64)>)
    ensures
        match fields {
            Some((a, b, c)) => three_fields(s@, sep) == Some((a as int, b as int, c as int)),
            None => three_fields(s@, sep) is None,
        },
{
    let pieces = split_text(s, sep);
    assert(texts(pieces@).len() == pieces@.len());
    if pieces.len() < 3 {
        return None;
    }
    assert(split(s@, sep)[0] == pieces@[0]@ && split(s@, sep)[1] == pieces@[1]@ && split(s@, sep)[2]
        == pieces@[2]@);
    let a = match parse_i64(pieces[0].as_str()) {
        Some(a) => a,
        None => return None,
    };
    let b = match parse_i64(pieces[1].as_str()) {
        Some(b) => b,
        None => return None,
    };
    match parse_i64(pieces[2].as_str()) {
        Some(c) => Some((a, b, c)),
        None => None,
    }
}

/// The milliseconds that the digits behind the decimal point denote.
fn parse_fraction(fraction: &str) -> (millis: Option<i64>)
    ensures
        match millis {
            Some(n) => whole(three_digits(fraction@)) == Some(n as int),
            None => whole(three_digits(fraction@)) is None,
        },
{
    let chars = to_chars(fraction);
    let mut digits = String::new();
    let mut i: usize = 0;
    while i < 3
        invariant
            i <= 3,
            chars@ == fraction@,
            digits@ =~= three_digits(fraction@).take(i as int),
        decreases 3 - i,
    {
        if i < chars.len() {
            digits.push(chars[i]);
        } else {
            digits.push('0');
        }
        i += 1;
    }
    assert(digits@ =~= three_digits(fraction@));
    parse_i64(digits.as_str())
}

/// Parses a UTC timestamp into milliseconds since the epoch. Gives `None`
/// for text of another form, and for an instant that an `i64` cannot hold.
pub fn parse_rfc3339_millis(s: &str) -> (millis: Option<i64>)
    ensures
        match millis {
            Some(n) => fits_i64(timestamp_millis(s@)) == Some(n as int),
            None => fits_i64(timestamp_millis(s@)) is None,
        },
{
    let chars = to_chars(s);
    let n: usize = chars.len();
    if n == 0 || chars[n - 1] != 'Z' {
        return None;
    }
    let body = substring(&chars, 0, n - 1);
    assert(body@ =~= s@.drop_last());
    let (date, time) = match split_text_once(body.as_str(), 'T') {
        Some(halves) => halves,
        None => return None,
    };
    let (year, month, day) = match parse_three_fields(date.as_str(), '-') {
        Some(fields) => fields,
        None => return None,
    };
    let (clock, frac_millis) = match split_text_once(time.as_str(), '.') {
        Some((clock, fraction)) => match parse_fraction(fraction.as_str()) {
            Some(millis) => (clock, millis),
            None => return None,
        },
        None => (time, 0i64),
    };
    let (hour, minute, second) = match parse_three_fields(clock.as_str(), ':') {
        Some(fields) => fields,
        None => return None,
    };
    let days: i128 = days_from_civil(year, month, day);
    let millis: i128 = ((days * 24 + hour as i128) * 60 + minute as i128) * 60 * 1000
        + second as i128 * 1000 + frac_millis as i128;
    if i64::MIN as i128 <= millis && millis <= i64::MAX as i128 {
        Some(millis as i64)
    } else {
        None
    }
}

/// A text of decimal digits that denotes the `i64` `n`.
pub open spec fn spells(s: Seq<char>, n: int) -> bool {
    is_digits(s) && digits_value(s) == n && n <= i64::MAX
}

/// A timestamp, with or without a fraction of a second, denotes its day,
/// hour, minute, second and millisecond, each from its own place: a day has
/// 86 400 000 milliseconds, an hour 3 600 000, a minute 60 000 and a second
/// 1000. Of a fraction the first three digits count, and missing ones are
/// zeros. Without the final `Z` there is no timestamp.
pub proof fn law_timestamps_are_read_part_by_part(
    year: Seq<char>,
    month: Seq<char>,
    day: Seq<char>,
    hour: Seq<char>,
    minute: Seq<char>,
    second: Seq<char>,
    fraction: Seq<char>,
    y: int,
    mo: int,
    d: int,
    h: int,
    mi: int,
    s: int,
)
    requires
        spells(year, y),
        spells(month, mo),
        spells(day, d),
        spells(hour, h),
        spells(minute, mi),
        spells(second, s),
        is_digits(fraction),
    ensures
        ({
            let date = year.push('-') + month.push('-') + day;
            let clock = hour.push(':') + minute.push(':') + second;
            let whole_seconds = days_from_epoch(y, mo, d) * 86_400_000 + h * 3_600_000 + mi * 60_000
                + s * 1000;
            let plain = date.push('T') + clock;
            let precise = date.push('T') + (clock.push('.') + fraction);
            let at = |i: int|
                if i < fraction.len() {
                    fraction[i] as int - '0' as int
                } else {
                    0
                };
            &&& timestamp_millis(plain.push('Z')) == Some(whole_seconds)
            &&& timestamp_millis(precise.push('Z')) == Some(
                whole_seconds + at(0) * 100 + at(1) * 10 + at(2),
            )
            &&& timestamp_millis(plain) is None
            &&& timestamp_millis(precise) is None
        }),
{
    let date = year.push('-') + month.push('-') + day;
    let clock = hour.push(':') + minute.push(':') + second;
    let exact = clock.push('.') + fraction;
    lemma_three_fields(year, month, day, '-', y, mo, d);
    lemma_three_fields(hour, minute, second, ':', h, mi, s);
    assert(!date.contains('T')) by {
        assert forall|i: int| 0 <= i < date.len() implies date[i] != 'T' by {
            lemma_parts_digit(year, month, day, '-', i);
        }
    }
    assert(!clock.contains('.')) by {
        assert forall|i: int| 0 <= i < clock.len() implies clock[i] != '.' by {
            lemma_parts_digit(hour, minute, second, ':', i);
        }
    }
    law_split_at_the_first_separator(clock, fraction, '.');
    lemma_fraction(fraction);
    assert(clock_and_millis(clock) == (clock, Some(0int)));
    assert(clock_and_millis(exact) == (clock, whole(three_digits(fraction))));
    assert(is_digit(clock.last())) by {
        assert(clock.last() == second[second.len() - 1]);
        assert(is_digit(second[second.len() - 1]));
    }
    assert(is_digit(exact.last())) by {
        assert(exact.last() == fraction[fraction.len() - 1]);
        assert(is_digit(fraction[fraction.len() - 1]));
    }
    lemma_date_and_time(date, clock, clock, 0, (y, mo, d), (h, mi, s));
    lemma_date_and_time(
        date,
        exact,
        clock,
        whole(three_digits(fraction))->0,
        (y, mo, d),
        (h, mi, s),
    );
}

/// The digit at a place of a fraction; zero where there is none.
spec fn digit_at(fraction: Seq<char>, i: int) -> int {
    if i < fraction.len() {
        fraction[i] as int - '0' as int
    } else {
        0
    }
}

proof fn lemma_fraction(fraction: Seq<char>)
    requires
        is_digits(fraction),
    ensures
        whole(three_digits(fraction)) == Some(
            digit_at(fraction, 0) * 100 + digit_at(fraction, 1) * 10 + digit_at(fraction, 2),
        ),
{
    let three = three_digits(fraction);
    assert forall|i: int| 0 <= i < three.len() implies is_digit(#[trigger] three[i]) by {
        if i < fraction.len() {
            assert(is_digit(fraction[i]));
        }
    }
    assert(is_digits(three));
    let two = three.drop_last();
    let one = two.drop_last();
    assert(one.drop_last() =~= Seq::<char>::empty());
    assert(digits_value(one.drop_last()) == 0);
    assert(digits_value(one) == three[0] as int - '0' as int);
    assert(digits_value(two) == digits_value(one) * 10 + (three[1] as int - '0' as int));
    assert(digits_value(three) == digits_value(two) * 10 + (three[2] as int - '0' as int));
}

proof fn lemma_date_and_time(
    date: Seq<char>,
    time: Seq<char>,
    clock: Seq<char>,
    millis: int,
    ymd: (int, int, int),
    hms: (int, int, int),
)
    requires
        !date.contains('T'),
        time.len() > 0,
        time.last() != 'Z',
        clock_and_millis(time) == (clock, Some(millis)),
        three_fields(date, '-') == Some(ymd),
        three_fields(clock, ':') == Some(hms),
    ensures
        timestamp_millis((date.push('T') + time).push('Z')) == Some(
            days_from_epoch(ymd.0, ymd.1, ymd.2) * 86_400_000 + hms.0 * 3_600_000 + hms.1 * 60_000
                + hms.2 * 1000 + millis,
        ),
        timestamp_millis(date.push('T') + time) is None,
{
    let text = date.push('T') + time;
    law_split_at_the_first_separator(date, time, 'T');
    assert(text.push('Z').drop_last() =~= text);
    assert(text.last() == time.last());
}

proof fn lemma_parts_digit(a: Seq<char>, b: Seq<char>, c: Seq<char>, sep: char, i: int)
    requires
        is_digits(a),
        is_digits(b),
        is_digits(c),
        0 <= i < (a.push(sep) + b.push(sep) + c).len(),
    ensures
        ({
            let x = (a.push(sep) + b.push(sep) + c)[i];
            is_digit(x) || x == sep
        }),
{
    let n = a.len() + 1;
    let m = b.len() + 1;
    if i < a.len() {
        assert(is_digit(a[i]));
    } else if n <= i < n + b.len() {
        assert(is_digit(b[i - n]));
    } else if n + m <= i {
        assert(is_digit(c[i - n - m]));
    }
}

proof fn lemma_three_fields(
    a: Seq<char>,
    b: Seq<char>,
    c: Seq<char>,
    sep: char,
    x: int,
    y: int,
    z: int,
)
    requires
        spells(a, x),
        spells(b, y),
        spells(c, z),
        !is_digit(sep),
    ensures
        three_fields(a.push(sep) + b.push(sep) + c, sep) == Some((x, y, z)),
{
    lemma_no_separator(a, sep);
    lemma_no_separator(b, sep);
    lemma_no_separator(c, sep);
    law_split_at_every_separator(b, c, sep);
    law_split_at_every_separator(a, b.push(sep) + c, sep);
    law_split_at_every_separator(c, c, sep);
    assert(a.push(sep) + (b.push(sep) + c) =~= a.push(sep) + b.push(sep) + c);
    let fields = split(a.push(sep) + b.push(sep) + c, sep);
    assert(fields =~= seq![a, b, c]);
}

proof fn lemma_no_separator(a: Seq<char>, sep: char)
    requires
        is_digits(a),
        !is_digit(sep),
    ensures
        !a.contains(sep),
{
    if a.contains(sep) {
        let i = choose|i: int| 0 <= i < a.len() && a[i] == sep;
        assert(is_digit(a[i]));
    }
}

/// When a timestamp can be read: it ends in `Z`, a `T` parts the date from
/// the time, and three numbers stand between the dashes of the one and three
/// between the colons of the other. What follows the third is not looked at.
/// A fraction, cut or filled up with zeros to three characters, is a number
/// too.
pub proof fn law_when_a_timestamp_can_be_read(
    date: Seq<char>,
    clock: Seq<char>,
    fraction: Seq<char>,
    other: Seq<char>,
)
    requires
        !date.contains('T'),
        !clock.contains('.'),
    ensures
        other.len() == 0 || other.last() != 'Z' ==> timestamp_millis(other) is None,
        !other.contains('T') ==> timestamp_millis(other) is None,
        ({
            let number = |s: Seq<char>| integer_within(s, i64::MIN as int, i64::MAX as int);
            let days = split(date, '-');
            let hours = split(clock, ':');
            let part = number((fraction + seq!['0', '0', '0']).take(3));
            let plain = timestamp_millis((date.push('T') + clock).push('Z'));
            let precise = timestamp_millis(
                (date.push('T') + (clock.push('.') + fraction)).push('Z'),
            );
            let readable = {
                &&& days.len() >= 3
                &&& number(days[0]) is Some
                &&& number(days[1]) is Some
                &&& number(days[2]) is Some
                &&& hours.len() >= 3
                &&& number(hours[0]) is Some
                &&& number(hours[1]) is Some
                &&& number(hours[2]) is Some
            };
            let seconds = days_from_epoch(
                number(days[0])->0,
                number(days[1])->0,
                number(days[2])->0,
            ) * 86_400 + number(hours[0])->0 * 3600 + number(hours[1])->0 * 60 + number(
                hours[2],
            )->0;
            &&& readable ==> plain == Some(seconds * 1000)
            &&& !readable ==> plain is None
            &&& readable && part is Some ==> precise == Some(seconds * 1000 + part->0)
            &&& !readable || part is None ==> precise is None
        }),
{
    let exact = clock.push('.') + fraction;
    let plain = date.push('T') + clock;
    let precise = date.push('T') + exact;
    law_split_at_the_first_separator(date, clock, 'T');
    law_split_at_the_first_separator(date, exact, 'T');
    law_split_at_the_first_separator(clock, fraction, '.');
    assert(plain.push('Z').drop_last() =~= plain);
    assert(precise.push('Z').drop_last() =~= precise);
    assert((fraction + seq!['0', '0', '0']).take(3) =~= three_digits(fraction));
    assert(clock_and_millis(clock) == (clock, Some(0int)));
    assert(clock_and_millis(exact) == (clock, whole(three_digits(fraction))));
    if other.len() > 0 && other.last() == 'Z' && !other.contains('T') {
        let text = other.drop_last();
        assert forall|i: int| 0 <= i < text.len() implies text[i] != 'T' by {
            assert(other.contains(other[i]));
        }
        law_split_at_the_first_separator(text, text, 'T');
    }
}

/// Days are counted on beyond the end of a month, and a month from March on
/// that is counted twelve further is the same month.
pub proof fn law_days_are_counted_on(y: int, m: int, d: int)
    ensures
        days_from_epoch(y, m, d + 1) == days_from_epoch(y, m, d) + 1,
        m >= 3 ==> days_from_epoch(y, m + 12, d) == days_from_epoch(y, m, d),
{
}

} // verus!
