//! `cal`: the parsers of the year and month arguments, and the calendar
//! arithmetic they need.
use vstd::prelude::*;
use crate::text::{
    center, center_string, int_string, lower_of, lowercase, quoted, quoted_string, string_views, int_text, literal_in, pad_left, pad_left_string, pad_right,
    pad_right_string, parse_i32, parse_i64, parse_u32, parse_usize, spaces, spaces_string,
};
use ansi_term::Style;
use chrono::{Datelike, Days, Months, NaiveDate};

verus! {

/// An integer type that a decimal literal can be read into.
pub trait DecimalInt: Sized {
    spec fn int_value(&self) -> int;

    spec fn is_signed() -> bool;

    spec fn min_int() -> int;

    spec fn max_int() -> int;

    /// `s` read as a literal of this type.
    fn from_literal(s: &str) -> (r: Option<Self>)
        ensures
            match r {
                Some(v) => literal_in(s@, Self::is_signed(), Self::min_int(), Self::max_int())
                    == Some(v.int_value()),
                None => literal_in(s@, Self::is_signed(), Self::min_int(), Self::max_int()) is None,
            },
    ;
}

impl DecimalInt for usize {
    open spec fn int_value(&self) -> int {
        *self as int
    }

    open spec fn is_signed() -> bool {
        false
    }

    open spec fn min_int() -> int {
        0
    }

    open spec fn max_int() -> int {
        usize::MAX as int
    }

    fn from_literal(s: &str) -> (r: Option<usize>) {
        parse_usize(s)
    }
}

impl DecimalInt for u32 {
    open spec fn int_value(&self) -> int {
        *self as int
    }

    open spec fn is_signed() -> bool {
        false
    }

    open spec fn min_int() -> int {
        0
    }

    open spec fn max_int() -> int {
        u32::MAX as int
    }

    fn from_literal(s: &str) -> (r: Option<u32>) {
        parse_u32(s)
    }
}

impl DecimalInt for i32 {
    open spec fn int_value(&self) -> int {
        *self as int
    }

    open spec fn is_signed() -> bool {
        true
    }

    open spec fn min_int() -> int {
        i32::MIN as int
    }

    open spec fn max_int() -> int {
        i32::MAX as int
    }

    fn from_literal(s: &str) -> (r: Option<i32>) {
        parse_i32(s)
    }
}

impl DecimalInt for i64 {
    open spec fn int_value(&self) -> int {
        *self as int
    }

    open spec fn is_signed() -> bool {
        true
    }

    open spec fn min_int() -> int {
        i64::MIN as int
    }

    open spec fn max_int() -> int {
        i64::MAX as int
    }

    fn from_literal(s: &str) -> (r: Option<i64>) {
        parse_i64(s)
    }
}

/// Parses an integer of type `T`.
pub fn parse_int<T: DecimalInt>(val: &str) -> (r: Result<T, String>)
    ensures
        match literal_in(val@, T::is_signed(), T::min_int(), T::max_int()) {
            Some(n) => r matches Ok(v) && v.int_value() == n,
            None => r matches Err(e) && e@ == quoted("Invalid integer "@, val@),
        },
{
    match T::from_literal(val) {
        Some(v) => Ok(v),
        None => Err(quoted_string("Invalid integer ", val)),
    }
}

/// `<what> "<n>" not in the range 1 through <last>`
pub open spec fn out_of_range_text(what: Seq<char>, n: int, last: Seq<char>) -> Seq<char> {
    quoted(what, int_text(n)) + " not in the range 1 through "@ + last
}

fn out_of_range(what: &str, n: i128, last: &str) -> (r: String)
    ensures
        r@ == out_of_range_text(what@, n as int, last@),
{
    let digits = int_string(n);
    let mut r = quoted_string(what, digits.as_str());
    r.append(" not in the range 1 through ");
    r.append(last);
    r
}

/// Parses a year from 1 through 9999.
pub fn parse_year(y: &str) -> (r: Result<i32, String>)
    ensures
        match literal_in(y@, true, i32::MIN as int, i32::MAX as int) {
            Some(n) => if 1 <= n <= 9999 {
                r == Ok::<i32, String>(n as i32)
            } else {
                r matches Err(e) && e@ == out_of_range_text("year "@, n, "9999"@)
            },
            None => r matches Err(e) && e@ == quoted("Invalid year "@, y@),
        },
{
    match parse_int::<i32>(y) {
        Ok(year) => if 1 <= year && year <= 9999 {
            Ok(year)
        } else {
            Err(out_of_range("year ", year as i128, "9999"))
        },
        Err(_) => Err(quoted_string("Invalid year ", y)),
    }
}

/// `p` begins `s`.
pub open spec fn is_prefix(p: Seq<char>, s: Seq<char>) -> bool {
    p.len() <= s.len() && s.subrange(0, p.len() as int) == p
}

/// How many of `names` begin with `p`.
pub open spec fn prefix_count(p: Seq<char>, names: Seq<Seq<char>>) -> nat
    decreases names.len(),
{
    if names.len() == 0 {
        0
    } else {
        prefix_count(p, names.drop_last()) + if is_prefix(p, names.last()) {
            1nat
        } else {
            0nat
        }
    }
}

/// Whether `p` begins `s`.
fn starts_with(s: &Vec<char>, p: &Vec<char>) -> (r: bool)
    ensures
        r == is_prefix(p@, s@),
{
    if p.len() > s.len() {
        return false;
    }
    let mut i: usize = 0;
    while i < p.len()
        invariant
            i <= p.len() <= s.len(),
            s@.subrange(0, i as int) == p@.subrange(0, i as int),
        decreases p.len() - i,
    {
        if s[i] != p[i] {
            assert(s@.subrange(0, p.len() as int)[i as int] != p@[i as int]);
            return false;
        }
        assert(s@.subrange(0, i + 1) =~= s@.subrange(0, i as int).push(s@[i as int]));
        assert(p@.subrange(0, i + 1) =~= p@.subrange(0, i as int).push(p@[i as int]));
        i = i + 1;
    }
    assert(p@.subrange(0, i as int) =~= p@);
    true
}

/// The index of the one name that `p` begins, where exactly one does.
pub fn unique_prefix_match(p: &str, names: &Vec<String>) -> (r: Option<usize>)
    ensures
        ({
            let ns = names@.map_values(|s: String| s@);
            match r {
                Some(i) => i < ns.len() && is_prefix(p@, ns[i as int]) && prefix_count(p@, ns)
                    == 1,
                None => prefix_count(p@, ns) != 1,
            }
        }),
{
    let ghost ns = names@.map_values(|s: String| s@);
    let pc = crate::text::chars_of(p);
    let mut found: Option<usize> = None;
    let mut count: usize = 0;
    let mut i: usize = 0;
    while i < names.len()
        invariant
            i <= names.len(),
            ns == names@.map_values(|s: String| s@),
            pc@ == p@,
            count == prefix_count(p@, ns.subrange(0, i as int)),
            count <= i,
            match found {
                Some(k) => k < i && is_prefix(p@, ns[k as int]),
                None => count == 0,
            },
        decreases names.len() - i,
    {
        let ghost q = ns.subrange(0, i + 1);
        assert(q.drop_last() =~= ns.subrange(0, i as int));
        let cs = crate::text::chars_of(names[i].as_str());
        assert(q.last() == cs@);
        if starts_with(&cs, &pc) {
            count = count + 1;
            found = Some(i);
        }
        i = i + 1;
    }
    assert(ns.subrange(0, i as int) =~= ns);
    if count == 1 {
        found
    } else {
        None
    }
}

/// The English name of month `m`, January being 1.
pub open spec fn month_name(m: int) -> Seq<char> {
    if m == 1 {
        "January"@
    } else if m == 2 {
        "February"@
    } else if m == 3 {
        "March"@
    } else if m == 4 {
        "April"@
    } else if m == 5 {
        "May"@
    } else if m == 6 {
        "June"@
    } else if m == 7 {
        "July"@
    } else if m == 8 {
        "August"@
    } else if m == 9 {
        "September"@
    } else if m == 10 {
        "October"@
    } else if m == 11 {
        "November"@
    } else {
        "December"@
    }
}

/// The English name of month `m`.
pub fn month_str(m: u32) -> (r: &'static str)
    requires
        1 <= m <= 12,
    ensures
        r@ == month_name(m as int),
{
    if m == 1 {
        "January"
    } else if m == 2 {
        "February"
    } else if m == 3 {
        "March"
    } else if m == 4 {
        "April"
    } else if m == 5 {
        "May"
    } else if m == 6 {
        "June"
    } else if m == 7 {
        "July"
    } else if m == 8 {
        "August"
    } else if m == 9 {
        "September"
    } else if m == 10 {
        "October"
    } else if m == 11 {
        "November"
    } else {
        "December"
    }
}

/// The lower-cased month names, January first.
pub open spec fn lowered_months() -> Seq<Seq<char>> {
    Seq::new(12, |i: int| lower_of(month_name(i + 1)))
}

/// Parses a month: a number from 1 through 12, or the start of exactly one
/// month's name, in any case.
pub fn parse_month(val: &str) -> (r: Result<u32, String>)
    ensures
        match literal_in(val@, false, 0, u32::MAX as int) {
            Some(n) => if 1 <= n <= 12 {
                r == Ok::<u32, String>(n as u32)
            } else {
                r matches Err(e) && e@ == out_of_range_text("month "@, n, "12"@)
            },
            None => if prefix_count(lower_of(val@), lowered_months()) == 1 {
                r matches Ok(m) && 1 <= m <= 12 && is_prefix(
                    lower_of(val@),
                    lower_of(month_name(m as int)),
                )
            } else {
                r matches Err(e) && e@ == quoted("Invalid month "@, val@)
            },
        },
{
    match parse_int::<u32>(val) {
        Ok(month) => if 1 <= month && month <= 12 {
            Ok(month)
        } else {
            Err(out_of_range("month ", month as i128, "12"))
        },
        Err(_) => {
            let wanted = lowercase(val);
            let mut names: Vec<String> = Vec::new();
            let mut m: u32 = 1;
            while m <= 12
                invariant
                    1 <= m <= 13,
                    names@.len() == m - 1,
                    forall|i: int|
                        0 <= i < names@.len() ==> (#[trigger] names@[i])@ == lower_of(
                            month_name(i + 1),
                        ),
                decreases 13 - m,
            {
                names.push(lowercase(month_str(m)));
                m = m + 1;
            }
            assert(names@.map_values(|s: String| s@) =~= lowered_months());
            match unique_prefix_match(wanted.as_str(), &names) {
                Some(i) => Ok(i as u32 + 1),
                None => Err(quoted_string("Invalid month ", val)),
            }
        },
    }
}

/// A calendar date.
#[derive(Clone, Copy, Debug, PartialEq, Eq, Structural)]
pub struct Date {
    pub year: i32,
    pub month: u32,
    pub day: u32,
}

pub open spec fn is_leap_year(y: int) -> bool {
    (y % 4 == 0 && y % 100 != 0) || y % 400 == 0
}

/// The number of days of month `m` of year `y` in the Gregorian calendar.
pub open spec fn days_in_month(y: int, m: int) -> int {
    if m == 2 {
        if is_leap_year(y) {
            29
        } else {
            28
        }
    } else if m == 4 || m == 6 || m == 9 || m == 11 {
        30
    } else {
        31
    }
}

/// The years for which chrono can step to the month after any month.
pub open spec fn year_in_range(y: int) -> bool {
    -262143 <= y <= 262141
}

/// Relies on chrono's `NaiveDate::from_ymd_opt`, `Months` and `Days`
/// arithmetic and `Datelike::day`: the day before the first of the next
/// month is the last day of the month.
#[verifier::external_body]
fn month_end_day(year: i32, month: u32) -> (r: u32)
    requires
        1 <= month <= 12,
        year_in_range(year as int),
    ensures
        r == days_in_month(year as int, month as int),
{
    let first = NaiveDate::from_ymd_opt(year, month, 1).unwrap();
    (first + Months::new(1) - Days::new(1)).day()
}

/// The day of the week of a date, Sunday being 0, as chrono's
/// `Weekday::num_days_from_sunday` gives it.
pub uninterp spec fn weekday_number(year: int, month: int, day: int) -> int;

/// Relies on chrono's `NaiveDate::from_ymd_opt`, `Datelike::weekday` and
/// `Weekday::num_days_from_sunday`: the day of the week of the first of the
/// month, Sunday being 0.
#[verifier::external_body]
fn first_weekday(year: i32, month: u32) -> (r: u32)
    requires
        1 <= month <= 12,
        year_in_range(year as int),
    ensures
        r == weekday_number(year as int, month as int, 1),
        r < 7,
{
    NaiveDate::from_ymd_opt(year, month, 1).unwrap().weekday().num_days_from_sunday()
}

/// The number of the last day of a month.
pub fn last_day_in_month(year: i32, month: u32) -> (r: u32)
    requires
        1 <= month <= 12,
        year_in_range(year as int),
    ensures
        r == days_in_month(year as int, month as int),
{
    month_end_day(year, month)
}

/// `s` in reverse video: the codes that switch it on, `s`, and the reset.
pub open spec fn reverse_video(s: Seq<char>) -> Seq<char> {
    seq!['\x1b', '[', '7', 'm'] + s + seq!['\x1b', '[', '0', 'm']
}

/// Relies on ansi_term's `Style::new().reverse().paint`, whose text is the
/// prefix `ESC[7m`, the string, and the reset `ESC[0m`.
#[verifier::external_body]
fn paint_reverse(s: &str) -> (r: String)
    ensures
        r@ == reverse_video(s@),
{
    Style::new().reverse().paint(s).to_string()
}

/// The cell of day `d`: its number in two columns, in reverse video where it
/// is `today`, and a space.
pub open spec fn day_cell(year: int, month: int, today: Date, d: int) -> Seq<char> {
    let num = pad_left(int_text(d), 2);
    (if today.year == year && today.month == month && today.day == d {
        reverse_video(num)
    } else {
        num
    }) + seq![' ']
}

/// The cells of days `lo..hi`.
pub open spec fn day_cells(year: int, month: int, today: Date, lo: int, hi: int) -> Seq<char>
    decreases hi - lo,
{
    if hi <= lo {
        Seq::empty()
    } else {
        day_cells(year, month, today, lo, hi - 1) + day_cell(year, month, today, hi - 1)
    }
}

/// Week `k` of a month whose first day falls on weekday `wd` and whose last
/// day is `last`: the first week starts with three blank columns for each day
/// before the first.
pub open spec fn week_text(year: int, month: int, today: Date, wd: int, last: int, k: int) -> Seq<char> {
    let lo = if k == 0 {
        1
    } else {
        7 * k - wd + 1
    };
    let end = 7 * k - wd + 8;
    let hi = if end < last + 1 {
        end
    } else {
        last + 1
    };
    (if k == 0 {
        spaces(3 * wd)
    } else {
        Seq::empty()
    }) + day_cells(year, month, today, lo, hi)
}

/// The number of weeks before the last one: one for each Saturday.
pub open spec fn full_weeks(wd: int, last: int) -> int {
    (wd + last) / 7
}

pub open spec fn month_title(year: int, month: int, print_year: bool) -> Seq<char> {
    month_name(month) + if print_year {
        seq![' '] + int_text(year)
    } else {
        Seq::empty()
    }
}

/// The lines of a month as `cal` prints it, without the trailing space that
/// each gets: the centred title, the weekday names, one line per week (the
/// last padded to 21 columns), and blank lines up to eight in all.
pub open spec fn month_rows(year: int, month: int, print_year: bool, today: Date, wd: int, last: int) -> Seq<Seq<char>> {
    let n = full_weeks(wd, last);
    let weeks = Seq::new(
        (n + 1) as nat,
        |k: int|
            if k < n {
                week_text(year, month, today, wd, last, k)
            } else {
                pad_right(week_text(year, month, today, wd, last, k), 21)
            },
    );
    let all = seq![center(month_title(year, month, print_year), 20) + seq![' '], "Su Mo Tu We Th Fr Sa "@] + weeks;
    all + Seq::new((8 - all.len()) as nat, |i: int| spaces(21))
}

/// The lines of a month as `cal` prints it.
pub open spec fn month_lines(year: int, month: int, print_year: bool, today: Date, wd: int, last: int) -> Seq<Seq<char>> {
    month_rows(year, month, print_year, today, wd, last).map_values(|l: Seq<char>| l + seq![' '])
}

/// The text of week `k`.
fn week_string(year: i32, month: u32, today: Date, wd: u32, last: u32, k: u32) -> (r: String)
    requires
        wd < 7,
        last <= 31,
        k <= 6,
    ensures
        r@ == week_text(year as int, month as int, today, wd as int, last as int, k as int),
{
    let mut r = if k == 0 {
        spaces_string(3 * wd as usize)
    } else {
        String::new()
    };
    let lo: u32 = if k == 0 {
        1
    } else {
        7 * k + 1 - wd
    };
    let end: u32 = 7 * k + 8 - wd;
    let hi: u32 = if end < last + 1 {
        end
    } else {
        last + 1
    };
    let ghost lead = r@;
    let mut d: u32 = lo;
    if d > hi {
        d = hi;
    }
    assert(day_cells(year as int, month as int, today, lo as int, d as int) =~= Seq::<char>::empty());
    assert(r@ =~= lead + day_cells(year as int, month as int, today, lo as int, d as int));
    while d < hi
        invariant
            lo <= d <= hi || (d == hi && hi < lo),
            hi <= 32,
            r@ == lead + day_cells(year as int, month as int, today, lo as int, d as int),
        decreases hi - d,
    {
        let digits = int_string(d as i128);
        let num = pad_left_string(digits.as_str(), 2);
        let cell = if today.year == year && today.month == month && today.day == d {
            paint_reverse(num.as_str())
        } else {
            num
        };
        r.append(cell.as_str());
        r.append(" ");
        proof {
            reveal_strlit(" ");
        }
        d = d + 1;
        assert(r@ =~= lead + day_cells(year as int, month as int, today, lo as int, d as int));
    }
    r
}

/// Lays out a month whose first day falls on weekday `first_weekday` (Sunday
/// being 0) and whose last day is `last_day`.
pub fn month_layout(year: i32, month: u32, print_year: bool, today: Date, first_weekday: u32, last_day: u32) -> (r: Vec<String>)
    requires
        1 <= month <= 12,
        first_weekday < 7,
        last_day <= 31,
    ensures
        r@.len() == 8,
        string_views(r@) == month_lines(
            year as int,
            month as int,
            print_year,
            today,
            first_weekday as int,
            last_day as int,
        ),
{
    let ghost rows = month_rows(
        year as int,
        month as int,
        print_year,
        today,
        first_weekday as int,
        last_day as int,
    );
    let mut title = String::from_str(month_str(month));
    if print_year {
        title.append(" ");
        let y = int_string(year as i128);
        title.append(y.as_str());
        proof {
            reveal_strlit(" ");
        }
    }
    let mut lines: Vec<String> = Vec::new();
    let mut t = center_string(title.as_str(), 20);
    t.append(" ");
    proof {
        reveal_strlit(" ");
    }
    lines.push(t);
    lines.push(String::from_str("Su Mo Tu We Th Fr Sa "));
    let n: u32 = (first_weekday + last_day) / 7;
    assert(n == full_weeks(first_weekday as int, last_day as int));
    let mut k: u32 = 0;
    while k <= n
        invariant
            n == full_weeks(first_weekday as int, last_day as int),
            n <= 5,
            k <= n + 1,
            first_weekday < 7,
            last_day <= 31,
            lines@.len() == 2 + k,
            forall|i: int| 0 <= i < lines@.len() ==> (#[trigger] lines@[i])@ == rows[i],
            rows == month_rows(
                year as int,
                month as int,
                print_year,
                today,
                first_weekday as int,
                last_day as int,
            ),
        decreases n + 1 - k,
    {
        let week = week_string(year, month, today, first_weekday, last_day, k);
        if k < n {
            lines.push(week);
        } else {
            lines.push(pad_right_string(week.as_str(), 21));
        }
        k = k + 1;
    }
    while lines.len() < 8
        invariant
            2 + n + 1 <= lines@.len() <= 8,
            n == full_weeks(first_weekday as int, last_day as int),
            forall|i: int| 0 <= i < lines@.len() ==> (#[trigger] lines@[i])@ == rows[i],
            rows == month_rows(
                year as int,
                month as int,
                print_year,
                today,
                first_weekday as int,
                last_day as int,
            ),
        decreases 8 - lines@.len(),
    {
        lines.push(spaces_string(21));
    }
    let mut out: Vec<String> = Vec::new();
    let mut i: usize = 0;
    while i < lines.len()
        invariant
            i <= lines@.len(),
            lines@.len() == 8,
            rows.len() == 8,
            out@.len() == i,
            forall|j: int| 0 <= j < i ==> (#[trigger] out@[j])@ == rows[j] + seq![' '],
            forall|j: int| 0 <= j < lines@.len() ==> (#[trigger] lines@[j])@ == rows[j],
        decreases lines@.len() - i,
    {
        let mut l = lines[i].clone();
        l.append(" ");
        proof {
            reveal_strlit(" ");
        }
        out.push(l);
        i = i + 1;
    }
    assert(string_views(out@) =~= month_lines(
        year as int,
        month as int,
        print_year,
        today,
        first_weekday as int,
        last_day as int,
    ));
    out
}

/// The lines of a month as `cal` prints it, `today` highlighted.
pub fn format_month(year: i32, month: u32, print_year: bool, today: Date) -> (r: Vec<String>)
    requires
        1 <= month <= 12,
        year_in_range(year as int),
    ensures
        r@.len() == 8,
        string_views(r@) == month_lines(
            year as int,
            month as int,
            print_year,
            today,
            weekday_number(year as int, month as int, 1),
            days_in_month(year as int, month as int),
        ),
{
    let wd = first_weekday(year, month);
    let last = last_day_in_month(year, month);
    month_layout(year, month, print_year, today, wd, last)
}

/// The lines of the calendar of month `m`, `today` highlighted, without the
/// year in the title.
pub open spec fn plain_month(year: int, m: int, today: Date) -> Seq<Seq<char>> {
    month_lines(year, m, false, today, weekday_number(year, m, 1), days_in_month(year, m))
}

/// Quarter `q` of a year: its three months side by side.
pub open spec fn quarter_rows(year: int, q: int, today: Date) -> Seq<Seq<char>> {
    Seq::new(
        8,
        |i: int|
            plain_month(year, 3 * q + 1, today)[i] + plain_month(year, 3 * q + 2, today)[i]
                + plain_month(year, 3 * q + 3, today)[i],
    )
}

/// The year right-aligned in 32 columns, then the first `q` quarters, each
/// but the last followed by a blank line.
pub open spec fn year_part(year: int, today: Date, q: int) -> Seq<Seq<char>>
    decreases q,
{
    if q <= 0 {
        seq![pad_left(int_text(year), 32)]
    } else {
        year_part(year, today, q - 1) + quarter_rows(year, q - 1, today) + if q - 1 < 3 {
            seq![Seq::<char>::empty()]
        } else {
            Seq::empty()
        }
    }
}

/// The lines of a whole year as `cal` prints it, `today` highlighted.
pub fn format_year(year: i32, today: Date) -> (r: Vec<String>)
    requires
        year_in_range(year as int),
    ensures
        string_views(r@) == year_part(year as int, today, 4),
{
    let mut lines: Vec<String> = Vec::new();
    let digits = int_string(year as i128);
    lines.push(pad_left_string(digits.as_str(), 32));
    assert(string_views(lines@) =~= year_part(year as int, today, 0));
    let mut q: u32 = 0;
    while q < 4
        invariant
            q <= 4,
            year_in_range(year as int),
            string_views(lines@) == year_part(year as int, today, q as int),
        decreases 4 - q,
    {
        let m1 = format_month(year, 3 * q + 1, false, today);
        let m2 = format_month(year, 3 * q + 2, false, today);
        let m3 = format_month(year, 3 * q + 3, false, today);
        let ghost base = string_views(lines@);
        let ghost rows = quarter_rows(year as int, q as int, today);
        let mut i: usize = 0;
        while i < 8
            invariant
                i <= 8,
                m1@.len() == 8 && m2@.len() == 8 && m3@.len() == 8,
                string_views(m1@) == plain_month(year as int, 3 * q + 1, today),
                string_views(m2@) == plain_month(year as int, 3 * q + 2, today),
                string_views(m3@) == plain_month(year as int, 3 * q + 3, today),
                rows == quarter_rows(year as int, q as int, today),
                string_views(lines@) == base + rows.subrange(0, i as int),
            decreases 8 - i,
        {
            let mut l = m1[i].clone();
            l.append(m2[i].as_str());
            l.append(m3[i].as_str());
            assert(string_views(m1@)[i as int] == m1@[i as int]@);
            assert(string_views(m2@)[i as int] == m2@[i as int]@);
            assert(string_views(m3@)[i as int] == m3@[i as int]@);
            assert(l@ == rows[i as int]);
            let ghost before = lines@;
            lines.push(l);
            assert(string_views(lines@) =~= string_views(before).push(rows[i as int]));
            i = i + 1;
            assert(string_views(lines@) =~= base + rows.subrange(0, i as int));
        }
        assert(rows.subrange(0, 8) =~= rows);
        if q < 3 {
            let ghost before = lines@;
            lines.push(String::new());
            assert(string_views(lines@) =~= string_views(before).push(Seq::<char>::empty()));
        }
        q = q + 1;
        assert(string_views(lines@) =~= year_part(year as int, today, q as int));
    }
    lines
}

} // verus!
