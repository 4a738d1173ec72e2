//! Calendar layout: parsing year and month arguments and rendering one
//! month as the classic seven-column grid, with today highlighted.

use vstd::prelude::*;

use chrono::Datelike;

use crate::text::{dec_digits, signed_dec, spaces, unsigned_dec};
use crate::unicode::lower_of;
use vstd::string::StringExecFns;

verus! {

/// A calendar date as plain values.
#[derive(Debug, PartialEq, Eq, Structural, Clone, Copy)]
pub struct Date {
    pub year: i32,
    pub month: u32,
    pub day: u32,
}

/// A Gregorian leap year.
pub open spec fn is_leap_year(y: int) -> bool {
    (y % 4 == 0 && y % 100 != 0) || y % 400 == 0
}

/// The number of days in a month of the proleptic Gregorian calendar.
pub open spec fn spec_days_in_month(y: int, m: int) -> int {
    if m == 2 {
        if is_leap_year(y) {
            29
        } else {
            28
        }
    } else if m == 4 || m == 6 || m == 9 || m == 11 {
        30
    } else {
        31
    }
}

/// The weekday of the first day of a month, numbered from Sunday as 1
/// through Saturday as 7, as chrono computes it.
pub uninterp spec fn weekday_of(year: int, month: int) -> u32;

/// Relies on chrono's `NaiveDate::from_ymd_opt`, `Weekday` and
/// `number_from_sunday`: the weekday of the first of the month, a
/// function of year and month alone, numbered 1 (Sunday) to 7
/// (Saturday).  The first of a valid month always exists.
#[verifier::external_body]
pub fn first_weekday_of_month(year: i32, month: u32) -> (r: u32)
    requires
        1 <= year <= 9999,
        1 <= month <= 12,
    ensures
        r == weekday_of(year as int, month as int),
        1 <= r <= 7,
{
    chrono::NaiveDate::from_ymd_opt(year, month, 1).unwrap().weekday().number_from_sunday()
}

/// Relies on chrono's `NaiveDate::from_ymd_opt` and `pred_opt`: the day
/// before the first of the next month is the last day of this month,
/// and chrono implements the proleptic Gregorian calendar, so its day
/// number is the month's length.
#[verifier::external_body]
pub fn days_in_month(year: i32, month: u32) -> (r: u32)
    requires
        1 <= year <= 9999,
        1 <= month <= 12,
    ensures
        r == spec_days_in_month(year as int, month as int),
{
    let (y, m) = if month == 12 {
        (year + 1, 1)
    } else {
        (year, month + 1)
    };
    chrono::NaiveDate::from_ymd_opt(y, m, 1).unwrap().pred_opt().unwrap().day()
}

/// Relies on `ansi_term::Style::reverse` and `paint`: reverse video is
/// select-graphic-rendition code 7, so the painted text is the input
/// between the `ESC [ 7 m` prefix and the `ESC [ 0 m` reset.
#[verifier::external_body]
pub fn reverse_video(s: &str) -> (r: String)
    ensures
        r@ == "\u{1b}[7m"@ + s@ + "\u{1b}[0m"@,
{
    ansi_term::Style::new().reverse().paint(s).to_string()
}

/// The last day of a month, as a date.
pub fn last_day_in_month(year: i32, month: u32) -> (r: Option<Date>)
    requires
        1 <= year <= 9999,
        1 <= month <= 12,
    ensures
        r matches Some(d) && d.year == year && d.month == month && d.day == spec_days_in_month(
            year as int,
            month as int,
        ),
{
    let day = days_in_month(year, month);
    Some(Date { year, month, day })
}

/// A type whose values certain decimal texts denote.
pub trait ParsedDecimal: Sized {
    /// The value this text denotes in the type, if any.
    spec fn dec_spec(s: Seq<char>) -> Option<Self>;

    /// Parse a whole string.
    fn parse_dec(s: &str) -> (r: Option<Self>)
        ensures
            r == Self::dec_spec(s@),
    ;
}

impl ParsedDecimal for usize {
    open spec fn dec_spec(s: Seq<char>) -> Option<usize> {
        match unsigned_dec(s) {
            Some(v) => if v <= usize::MAX {
                Some(v as usize)
            } else {
                None
            },
            None => None,
        }
    }

    fn parse_dec(s: &str) -> (r: Option<usize>) {
        match crate::text::parse_u64_str(s) {
            Some(v) if v <= usize::MAX as u64 => Some(v as usize),
            _ => None,
        }
    }
}

impl ParsedDecimal for u32 {
    open spec fn dec_spec(s: Seq<char>) -> Option<u32> {
        match unsigned_dec(s) {
            Some(v) => if v <= u32::MAX {
                Some(v as u32)
            } else {
                None
            },
            None => None,
        }
    }

    fn parse_dec(s: &str) -> (r: Option<u32>) {
        match crate::text::parse_u64_str(s) {
            Some(v) if v <= u32::MAX as u64 => Some(v as u32),
            _ => None,
        }
    }
}

impl ParsedDecimal for i32 {
    open spec fn dec_spec(s: Seq<char>) -> Option<i32> {
        match signed_dec(s) {
            Some(v) => if i32::MIN <= v <= i32::MAX {
                Some(v as i32)
            } else {
                None
            },
            None => None,
        }
    }

    fn parse_dec(s: &str) -> (r: Option<i32>) {
        match crate::text::parse_i64_str(s) {
            Some(v) if i32::MIN as i64 <= v && v <= i32::MAX as i64 => Some(v as i32),
            _ => None,
        }
    }
}

impl ParsedDecimal for i64 {
    open spec fn dec_spec(s: Seq<char>) -> Option<i64> {
        match signed_dec(s) {
            Some(v) => if i64::MIN <= v <= i64::MAX {
                Some(v as i64)
            } else {
                None
            },
            None => None,
        }
    }

    fn parse_dec(s: &str) -> (r: Option<i64>) {
        crate::text::parse_i64_str(s)
    }
}

/// The invalid-integer message for `s`.
pub open spec fn invalid_int_msg(s: Seq<char>) -> Seq<char> {
    "Invalid integer \""@ + s + "\""@
}

/// Parse an integer of any supported type; the error names the
/// offending text.
pub fn parse_int<T: ParsedDecimal>(val: &str) -> (r: Result<T, String>)
    ensures
        match T::dec_spec(val@) {
            Some(v) => r matches Ok(u) && u == v,
            None => r matches Err(e) && e@ == invalid_int_msg(val@),
        },
{
    match T::parse_dec(val) {
        Some(v) => Ok(v),
        None => {
            let mut m = String::from_str("Invalid integer \"");
            m.append(val);
            m.append("\"");
            Err(m)
        },
    }
}

/// The out-of-range message for a year argument.
pub open spec fn year_range_msg(s: Seq<char>) -> Seq<char> {
    "year \""@ + s + "\" not in the range 1 through 9999"@
}

/// Parse a year argument: an integer in 1 through 9999.
pub fn parse_year(year: &str) -> (r: Result<i32, String>)
    ensures
        match <i32 as ParsedDecimal>::dec_spec(year@) {
            Some(v) => if 1 <= v <= 9999 {
                r matches Ok(u) && u == v
            } else {
                r matches Err(e) && e@ == year_range_msg(year@)
            },
            None => r matches Err(e) && e@ == invalid_int_msg(year@),
        },
{
    match parse_int::<i32>(year) {
        Err(e) => Err(e),
        Ok(num) => {
            if 1 <= num && num <= 9999 {
                Ok(num)
            } else {
                let mut m = String::from_str("year \"");
                m.append(year);
                m.append("\" not in the range 1 through 9999");
                Err(m)
            }
        },
    }
}

/// The lowercase spelling of month number `m`, for prefix matching.
pub open spec fn month_lower(m: int) -> Seq<char> {
    if m == 1 {
        "january"@
    } else if m == 2 {
        "february"@
    } else if m == 3 {
        "march"@
    } else if m == 4 {
        "april"@
    } else if m == 5 {
        "may"@
    } else if m == 6 {
        "june"@
    } else if m == 7 {
        "july"@
    } else if m == 8 {
        "august"@
    } else if m == 9 {
        "september"@
    } else if m == 10 {
        "october"@
    } else if m == 11 {
        "november"@
    } else {
        "december"@
    }
}

/// The capitalized name of month number `m`.
pub open spec fn month_name_spec(m: int) -> Seq<char> {
    if m == 1 {
        "January"@
    } else if m == 2 {
        "February"@
    } else if m == 3 {
        "March"@
    } else if m == 4 {
        "April"@
    } else if m == 5 {
        "May"@
    } else if m == 6 {
        "June"@
    } else if m == 7 {
        "July"@
    } else if m == 8 {
        "August"@
    } else if m == 9 {
        "September"@
    } else if m == 10 {
        "October"@
    } else if m == 11 {
        "November"@
    } else {
        "December"@
    }
}

/// The lowercase spelling of month number `m`.
pub fn month_lower_str(m: u32) -> (r: &'static str)
    requires
        1 <= m <= 12,
    ensures
        r@ == month_lower(m as int),
{
    match m {
        1 => "january",
        2 => "february",
        3 => "march",
        4 => "april",
        5 => "may",
        6 => "june",
        7 => "july",
        8 => "august",
        9 => "september",
        10 => "october",
        11 => "november",
        _ => "december",
    }
}

/// The capitalized name of month number `m`.
pub fn month_name(m: u32) -> (r: &'static str)
    requires
        1 <= m <= 12,
    ensures
        r@ == month_name_spec(m as int),
{
    match m {
        1 => "January",
        2 => "February",
        3 => "March",
        4 => "April",
        5 => "May",
        6 => "June",
        7 => "July",
        8 => "August",
        9 => "September",
        10 => "October",
        11 => "November",
        _ => "December",
    }
}

/// How many of the twelve lowercase month names, from number `i` up,
/// the text is a prefix of.
pub open spec fn month_match_count(lin: Seq<char>, i: int) -> nat
    decreases 13 - i,
{
    if i < 1 || i > 12 {
        0
    } else {
        (if crate::text::is_prefix_of(lin, month_lower(i)) {
            1nat
        } else {
            0nat
        }) + month_match_count(lin, i + 1)
    }
}

/// The number of the first month name, from `i` up, the text is a
/// prefix of; 0 when there is none.
pub open spec fn month_first_match(lin: Seq<char>, i: int) -> int
    decreases 13 - i,
{
    if i < 1 || i > 12 {
        0
    } else if crate::text::is_prefix_of(lin, month_lower(i)) {
        i
    } else {
        month_first_match(lin, i + 1)
    }
}

/// The out-of-range message for a month argument.
pub open spec fn month_range_msg(s: Seq<char>) -> Seq<char> {
    "month \""@ + s + "\" not in the range 1 through 12"@
}

/// The no-such-month message.
pub open spec fn invalid_month_msg(s: Seq<char>) -> Seq<char> {
    "Invalid month \""@ + s + "\""@
}

/// Parse a month argument: a number in 1 through 12, or a text that is
/// a prefix, ignoring case, of exactly one month name.
pub fn parse_month(month: &str) -> (r: Result<u32, String>)
    ensures
        match <u32 as ParsedDecimal>::dec_spec(month@) {
            Some(v) => if 1 <= v <= 12 {
                r matches Ok(u) && u == v
            } else {
                r matches Err(e) && e@ == month_range_msg(month@)
            },
            None => if month_match_count(lower_of(month@), 1) == 1 {
                r matches Ok(u) && u == month_first_match(lower_of(month@), 1)
            } else {
                r matches Err(e) && e@ == invalid_month_msg(month@)
            },
        },
{
    match <u32 as ParsedDecimal>::parse_dec(month) {
        Some(num) => {
            if num < 1 || num > 12 {
                let mut m = String::from_str("month \"");
                m.append(month);
                m.append("\" not in the range 1 through 12");
                Err(m)
            } else {
                Ok(num)
            }
        },
        None => {
            let lowered = crate::unicode::lowercase_str(month);
            let mut cnt: u32 = 0;
            let mut found: u32 = 0;
            let mut i: u32 = 1;
            while i <= 12
                invariant
                    1 <= i <= 13,
                    lowered@ == lower_of(month@),
                    cnt + month_match_count(lowered@, i as int) == month_match_count(lowered@, 1),
                    cnt < i,
                    if cnt == 0 {
                        found == 0 && month_first_match(lowered@, 1) == month_first_match(
                            lowered@,
                            i as int,
                        )
                    } else {
                        found == month_first_match(lowered@, 1) && 1 <= found < i
                    },
                decreases 13 - i,
            {
                let name = month_lower_str(i);
                if crate::text::is_char_prefix(lowered.as_str(), name) {
                    if cnt == 0 {
                        found = i;
                    }
                    cnt = cnt + 1;
                }
                i = i + 1;
            }
            if cnt == 1 {
                Ok(found)
            } else {
                let mut m = String::from_str("Invalid month \"");
                m.append(month);
                m.append("\"");
                Err(m)
            }
        },
    }
}

/// One day cell: the day number right-aligned in two columns, shown in
/// reverse video when it is today.
pub open spec fn day_cell(year: int, month: int, day: int, today: Date) -> Seq<char> {
    let base = crate::text::left_padded(dec_digits(day as nat), 2);
    if year == today.year && month == today.month && day == today.day {
        "\u{1b}[7m"@ + base + "\u{1b}[0m"@
    } else {
        base
    }
}

/// The cell row of a month: one blank cell for each weekday before the
/// first, then one cell per day.
pub open spec fn month_cells(year: int, month: int, today: Date, wd: int) -> Seq<Seq<char>> {
    Seq::new((wd - 1) as nat, |i: int| spaces(2)) + Seq::new(
        spec_days_in_month(year, month) as nat,
        |i: int| day_cell(year, month, i + 1, today),
    )
}

/// The remaining cells of a week, each preceded by one space.
pub open spec fn join_rest(w: Seq<Seq<char>>) -> Seq<char>
    decreases w.len(),
{
    if w.len() == 0 {
        Seq::empty()
    } else {
        seq![' '] + w[0] + join_rest(w.skip(1))
    }
}

/// A week's cells joined with single spaces.
pub open spec fn join_cells(w: Seq<Seq<char>>) -> Seq<char> {
    if w.len() == 0 {
        Seq::empty()
    } else {
        w[0] + join_rest(w.skip(1))
    }
}

/// `s` right-padded with spaces to width `w`.
pub open spec fn right_padded(s: Seq<char>, w: nat) -> Seq<char> {
    if s.len() < w {
        s + spaces((w - s.len()) as nat)
    } else {
        s
    }
}

/// One rendered week: the joined cells padded to twenty columns, then
/// the two-space gutter.
pub open spec fn week_line(w: Seq<Seq<char>>) -> Seq<char> {
    right_padded(join_cells(w), 20) + seq![' ', ' ']
}

/// The rendered weeks of a cell row, seven cells at a time.
pub open spec fn week_lines(cells: Seq<Seq<char>>) -> Seq<Seq<char>>
    decreases cells.len(),
{
    if cells.len() == 0 {
        Seq::empty()
    } else if cells.len() <= 7 {
        seq![week_line(cells)]
    } else {
        seq![week_line(cells.take(7))] + week_lines(cells.skip(7))
    }
}

/// The centred title line: the month name, with the year when asked
/// for, then the two-space gutter.
pub open spec fn title_line(year: int, month: int, print_year: bool) -> Seq<char> {
    let line1 = if print_year {
        month_name_spec(month) + seq![' '] + dec_digits(year as nat)
    } else {
        month_name_spec(month)
    };
    let slen: int = if line1.len() >= 20 {
        0
    } else {
        20 - line1.len()
    };
    let w = slen / 2;
    if slen % 2 == 0 {
        spaces(w as nat) + line1 + spaces(w as nat) + seq![' ', ' ']
    } else {
        spaces(w as nat) + line1 + spaces((w + 1) as nat) + seq![' ', ' ']
    }
}

/// A rendered month: title, weekday header, the weeks, and blank lines
/// to make eight lines in all.
pub open spec fn spec_format_month(
    year: int,
    month: int,
    print_year: bool,
    today: Date,
    wd: int,
) -> Seq<Seq<char>> {
    let base = seq![title_line(year, month, print_year), "Su Mo Tu We Th Fr Sa  "@] + week_lines(
        month_cells(year, month, today, wd),
    );
    if base.len() >= 8 {
        base
    } else {
        base + Seq::new((8 - base.len()) as nat, |i: int| spaces(22))
    }
}

/// Render one month as its eight fixed-width lines, highlighting
/// `today` when it falls inside it.
#[verifier::rlimit(80)]
pub fn format_month(year: i32, month: u32, print_year: bool, today: Date) -> (r: Vec<String>)
    requires
        1 <= year <= 9999,
        1 <= month <= 12,
    ensures
        r.deep_view() == spec_format_month(
            year as int,
            month as int,
            print_year,
            today,
            weekday_of(year as int, month as int) as int,
        ),
{
    let wd = first_weekday_of_month(year, month);
    let dim = days_in_month(year, month);
    let ghost spec_cells = month_cells(
        year as int,
        month as int,
        today,
        weekday_of(year as int, month as int) as int,
    );

    // the cell row: blanks for the lead-in weekdays, then the days
    let mut cells: Vec<String> = Vec::new();
    let mut b: u32 = 1;
    while b < wd
        invariant
            1 <= b <= wd <= 7,
            cells.deep_view() == Seq::new((b - 1) as nat, |i: int| spaces(2)),
        decreases wd - b,
    {
        let ghost pre = cells.deep_view();
        let blank = crate::text::space_chars(2);
        let bs = crate::unicode::chars_to_string(&blank);
        let ghost bsv = bs@;
        cells.push(bs);
        b = b + 1;
        proof {
            assert(cells.deep_view() =~= pre.push(bsv));
            assert(pre.push(bsv) =~= Seq::new((b - 1) as nat, |i: int| spaces(2)));
        }
    }
    let mut num: u32 = 1;
    proof {
        assert(cells.deep_view() =~= spec_cells.take(wd - 1));
    }
    while num <= dim
        invariant
            1 <= num <= dim + 1,
            dim == spec_days_in_month(year as int, month as int),
            1 <= wd <= 7,
            wd == weekday_of(year as int, month as int),
            spec_cells == month_cells(year as int, month as int, today, wd as int),
            1 <= year <= 9999,
            1 <= month <= 12,
            cells.deep_view() == spec_cells.take(wd - 1 + num - 1),
        decreases dim + 1 - num,
    {
        let ghost pre = cells.deep_view();
        let digits = crate::text::u64_dec_chars(num as u64);
        let padded = crate::text::pad_left(&digits, 2);
        let base = crate::unicode::chars_to_string(&padded);
        let cell: String = if year == today.year && month == today.month && num == today.day {
            reverse_video(base.as_str())
        } else {
            base
        };
        let ghost cellv = cell@;
        cells.push(cell);
        num = num + 1;
        proof {
            assert(cellv == day_cell(year as int, month as int, num - 1, today));
            assert(spec_cells[wd - 1 + num - 2] == day_cell(
                year as int,
                month as int,
                num - 1,
                today,
            ));
            assert(cells.deep_view() =~= pre.push(cellv));
            assert(pre.push(cellv) =~= spec_cells.take(wd - 1 + num - 1));
        }
    }
    proof {
        assert(cells.deep_view() =~= spec_cells);
    }

    // title, weekday header, the weeks, and padding to eight lines
    let mut lines: Vec<String> = Vec::new();
    let mut title: Vec<char> = crate::text::chars_of(month_name(month));
    if print_year {
        title.push(' ');
        let ydigits = crate::text::u64_dec_chars(year as u64);
        let mut yi: usize = 0;
        while yi < ydigits.len()
            invariant
                0 <= yi <= ydigits@.len(),
                title@ == month_name_spec(month as int) + seq![' '] + ydigits@.subrange(
                    0,
                    yi as int,
                ),
                ydigits@ == dec_digits(year as nat),
            decreases ydigits@.len() - yi,
        {
            title.push(ydigits[yi]);
            yi = yi + 1;
            proof {
                assert(title@ =~= month_name_spec(month as int) + seq![' ']
                    + ydigits@.subrange(0, yi as int));
            }
        }
        proof {
            assert(ydigits@.subrange(0, ydigits@.len() as int) =~= ydigits@);
        }
    }
    let ghost line1 = title@;
    let slen: usize = if title.len() >= 20 {
        0
    } else {
        20 - title.len()
    };
    let w: usize = slen / 2;
    let mut tl: Vec<char> = crate::text::space_chars(w);
    let mut ti: usize = 0;
    let ghost lead = tl@;
    while ti < title.len()
        invariant
            0 <= ti <= title@.len(),
            tl@ == lead + title@.subrange(0, ti as int),
        decreases title@.len() - ti,
    {
        tl.push(title[ti]);
        ti = ti + 1;
        proof {
            assert(tl@ =~= lead + title@.subrange(0, ti as int));
        }
    }
    proof {
        assert(title@.subrange(0, title@.len() as int) =~= title@);
    }
    let tail_w: usize = if slen % 2 == 0 {
        w
    } else {
        w + 1
    };
    let tail_sp = crate::text::space_chars(tail_w);
    let mut si: usize = 0;
    let ghost mid = tl@;
    while si < tail_sp.len()
        invariant
            0 <= si <= tail_sp@.len(),
            tl@ == mid + tail_sp@.subrange(0, si as int),
            tail_sp@ == spaces(tail_w as nat),
        decreases tail_sp@.len() - si,
    {
        tl.push(tail_sp[si]);
        si = si + 1;
        proof {
            assert(tl@ =~= mid + tail_sp@.subrange(0, si as int));
        }
    }
    tl.push(' ');
    tl.push(' ');
    proof {
        assert(tail_sp@.subrange(0, tail_sp@.len() as int) =~= tail_sp@);
        assert(tl@ =~= title_line(year as int, month as int, print_year));
    }
    lines.push(crate::unicode::chars_to_string(&tl));
    lines.push(String::from_str("Su Mo Tu We Th Fr Sa  "));
    let ghost full = seq![
        title_line(year as int, month as int, print_year),
        "Su Mo Tu We Th Fr Sa  "@,
    ] + week_lines(spec_cells);
    proof {
        assert(lines.deep_view() =~= full.take(2));
        assert(spec_cells.skip(0) =~= spec_cells);
    }
    let mut p: usize = 0;
    let total = cells.len();
    while p < total
        invariant
            0 <= p <= total,
            total == cells@.len(),
            cells.deep_view() == spec_cells,
            lines.deep_view() + week_lines(spec_cells.skip(p as int)) == full,
        decreases total - p,
    {
        let left = total - p;
        let take: usize = if left > 7 {
            7
        } else {
            left
        };
        let ghost chunk = if left > 7 {
            spec_cells.skip(p as int).take(7)
        } else {
            spec_cells.skip(p as int)
        };
        let mut js = String::new();
        let mut k: usize = 0;
        while k < take
            invariant
                0 <= k <= take,
                take <= total - p,
                total == cells@.len(),
                cells.deep_view() == spec_cells,
                chunk.len() == take,
                forall|j: int| 0 <= j < take ==> chunk[j] == spec_cells[p + j],
                if k == 0 {
                    js@ == Seq::<char>::empty()
                } else {
                    js@ + join_rest(chunk.skip(k as int)) == join_cells(chunk)
                },
            decreases take - k,
        {
            if k > 0 {
                js.append(" ");
                proof {
                    reveal_strlit(" ");
                    assert(" "@ =~= seq![' ']);
                }
            }
            js.append(cells[p + k].as_str());
            proof {
                assert(chunk.skip(k as int)[0] == chunk[k as int]);
                assert(chunk.skip(k as int).skip(1) =~= chunk.skip(k + 1 as int));
                if k == 0 {
                    assert(js@ =~= chunk[0]);
                }
                assert(chunk.skip(take as int) =~= Seq::<Seq<char>>::empty());
            }
            k = k + 1;
        }
        proof {
            if take == 0 {
            } else {
                assert(chunk.skip(take as int) =~= Seq::<Seq<char>>::empty());
                assert(join_rest(Seq::<Seq<char>>::empty()) =~= Seq::<char>::empty());
                assert(js@ + Seq::<char>::empty() =~= js@);
            }
            assert(js@ =~= join_cells(chunk));
        }
        let jlen = js.as_str().unicode_len();
        if jlen < 20 {
            let pad = crate::text::space_chars(20 - jlen);
            let ps = crate::unicode::chars_to_string(&pad);
            js.append(ps.as_str());
        }
        js.append("  ");
        proof {
            reveal_strlit("  ");
            assert("  "@ =~= seq![' ', ' ']);
            assert(js@ =~= week_line(chunk));
        }
        let ghost pre_lines = lines.deep_view();
        lines.push(js);
        p = p + take;
        proof {
            assert(lines.deep_view() =~= pre_lines.push(week_line(chunk)));
            if left > 7 {
                assert(spec_cells.skip(p - take).skip(7) =~= spec_cells.skip(p as int));
                assert(week_lines(spec_cells.skip(p - take)) == seq![week_line(chunk)]
                    + week_lines(spec_cells.skip(p as int)));
            } else {
                assert(week_lines(spec_cells.skip(p - take)) == seq![week_line(chunk)]);
                assert(spec_cells.skip(p as int) =~= Seq::<Seq<char>>::empty());
                assert(week_lines(spec_cells.skip(p as int)) =~= Seq::<Seq<char>>::empty());
            }
            assert(lines.deep_view() + week_lines(spec_cells.skip(p as int)) =~= full);
        }
    }
    proof {
        assert(spec_cells.skip(total as int) =~= Seq::<Seq<char>>::empty());
        assert(lines.deep_view() =~= full);
    }
    let ghost padded_goal = spec_format_month(
        year as int,
        month as int,
        print_year,
        today,
        weekday_of(year as int, month as int) as int,
    );
    while lines.len() < 8
        invariant
            full.len() <= lines.deep_view().len(),
            lines.deep_view().take(full.len() as int) == full,
            forall|j: int|
                full.len() <= j < lines.deep_view().len() ==> lines.deep_view()[j] == spaces(22),
            lines@.len() <= 8 || lines@.len() == full.len(),
        decreases 8 - lines.len(),
    {
        let ghost pre_lines = lines.deep_view();
        let blank = crate::text::space_chars(22);
        lines.push(crate::unicode::chars_to_string(&blank));
        proof {
            assert(lines.deep_view() =~= pre_lines.push(spaces(22)));
            assert(lines.deep_view().take(full.len() as int) =~= full);
        }
    }
    proof {
        if full.len() >= 8 {
            assert(lines.deep_view() =~= full);
            assert(lines.deep_view() =~= padded_goal);
        } else {
            assert(lines.deep_view() =~= full + Seq::new(
                (8 - full.len()) as nat,
                |i: int| spaces(22),
            ));
            assert(lines.deep_view() =~= padded_goal);
        }
    }
    lines
}

} // verus!
