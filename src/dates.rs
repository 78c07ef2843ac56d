//! Calendar dates of entities: their ISO form, their display form, and validity.

use crate::text::push_char;
use toml_datetime::Date;
use vstd::prelude::*;

verus! {

pub open spec fn is_leap_year(y: int) -> bool {
    y % 4 == 0 && (y % 100 != 0 || y % 400 == 0)
}

pub open spec fn days_in_month(y: int, m: int) -> int {
    if m == 2 {
        if is_leap_year(y) {
            29
        } else {
            28
        }
    } else if m == 4 || m == 6 || m == 9 || m == 11 {
        30
    } else {
        31
    }
}

/// A day of the proleptic Gregorian calendar.
pub open spec fn valid_date(d: Date) -> bool {
    1 <= d.month <= 12 && 1 <= d.day <= days_in_month(d.year as int, d.month as int)
}

pub open spec fn digit(k: nat) -> char {
    ((48 + k) as u8) as char
}

/// The decimal digits of `n`, without leading zeros.
pub open spec fn decimal(n: nat) -> Seq<char>
    decreases n,
{
    if n < 10 {
        seq![digit(n)]
    } else {
        decimal(n / 10).push(digit(n % 10))
    }
}

/// The decimal digits of `n`, zero-padded on the left to `width`.
pub open spec fn padded(n: nat, width: nat) -> Seq<char> {
    if decimal(n).len() >= width {
        decimal(n)
    } else {
        Seq::new((width - decimal(n).len()) as nat, |i: int| '0') + decimal(n)
    }
}

/// `YYYY-MM-DD`.
pub open spec fn iso_date(d: Date) -> Seq<char> {
    padded(d.year as nat, 4) + seq!['-'] + padded(d.month as nat, 2) + seq!['-'] + padded(
        d.day as nat,
        2,
    )
}

/// The three-letter English name of month `m`.
pub open spec fn month_abbrev(m: int) -> Seq<char> {
    if m == 1 {
        seq!['J', 'a', 'n']
    } else if m == 2 {
        seq!['F', 'e', 'b']
    } else if m == 3 {
        seq!['M', 'a', 'r']
    } else if m == 4 {
        seq!['A', 'p', 'r']
    } else if m == 5 {
        seq!['M', 'a', 'y']
    } else if m == 6 {
        seq!['J', 'u', 'n']
    } else if m == 7 {
        seq!['J', 'u', 'l']
    } else if m == 8 {
        seq!['A', 'u', 'g']
    } else if m == 9 {
        seq!['S', 'e', 'p']
    } else if m == 10 {
        seq!['O', 'c', 't']
    } else if m == 11 {
        seq!['N', 'o', 'v']
    } else {
        seq!['D', 'e', 'c']
    }
}

/// A year as chrono's `%Y` writes it: zero-padded to four digits, and with a `+`
/// sign above 9999.
pub open spec fn display_year(y: nat) -> Seq<char> {
    if y <= 9999 {
        padded(y, 4)
    } else {
        seq!['+'] + decimal(y)
    }
}

/// `Mon DD, YYYY`, as shown to readers.
pub open spec fn display_date(d: Date) -> Seq<char> {
    month_abbrev(d.month as int) + seq![' '] + padded(d.day as nat, 2) + seq![',', ' '] + display_year(
        d.year as nat,
    )
}

/// Relies on `chrono::NaiveDate::from_ymd_opt`, which gives a date exactly for a
/// valid month and day of the year.
#[verifier::external_body]
fn is_calendar_date(d: Date) -> (r: bool)
    ensures
        r == valid_date(d),
{
    chrono::NaiveDate::from_ymd_opt(d.year as i32, d.month as u32, d.day as u32).is_some()
}

/// Relies on chrono's `NaiveDate::format` with `%b %d, %Y`: the English abbreviated
/// month name, the day zero-padded to two digits, and the year zero-padded to four
/// digits, signed above 9999.
#[verifier::external_body]
fn format_display_date(d: Date) -> (r: String)
    requires
        valid_date(d),
    ensures
        r@ == display_date(d),
{
    match chrono::NaiveDate::from_ymd_opt(d.year as i32, d.month as u32, d.day as u32) {
        Some(nd) => nd.format("%b %d, %Y").to_string(),
        None => String::new(),
    }
}

fn digit_char(k: u32) -> (r: char)
    requires
        k < 10,
    ensures
        r == digit(k as nat),
{
    ((48 + k) as u8) as char
}

/// Appends `n` in decimal, zero-padded to `width`.
pub fn push_padded(out: &mut String, n: u32, width: usize)
    ensures
        final(out)@ == old(out)@ + padded(n as nat, width as nat),
{
    let mut ds: Vec<char> = Vec::new();
    let mut m: u32 = n;
    while m >= 10
        invariant
            decimal(n as nat) == decimal(m as nat) + ds@,
        decreases m,
    {
        ds.insert(0, digit_char(m % 10));
        assert(decimal(n as nat) =~= decimal((m / 10) as nat) + ds@);
        m = m / 10;
    }
    ds.insert(0, digit_char(m));
    assert(decimal(n as nat) =~= ds@);
    let ghost start = out@;
    let mut k: usize = ds.len();
    while k < width
        invariant
            ds.len() <= k,
            k <= width || k == ds.len(),
            ds@ == decimal(n as nat),
            out@ == start + Seq::new((k - ds.len()) as nat, |i: int| '0'),
        decreases width - k,
    {
        push_char(out, '0');
        assert(out@ =~= start + Seq::new((k + 1 - ds.len()) as nat, |i: int| '0'));
        k = k + 1;
    }
    let mut j: usize = 0;
    let ghost zeros = out@;
    while j < ds.len()
        invariant
            j <= ds.len(),
            out@ == zeros + ds@.take(j as int),
        decreases ds.len() - j,
    {
        push_char(out, ds[j]);
        assert(out@ =~= zeros + ds@.take(j + 1));
        j = j + 1;
    }
    assert(ds@.take(j as int) =~= ds@);
    assert(final(out)@ =~= old(out)@ + padded(n as nat, width as nat));
}

/// Whether `d` is a day of the calendar.
pub fn is_valid_date(d: Date) -> (r: bool)
    ensures
        r == valid_date(d),
{
    is_calendar_date(d)
}

/// The date with these parts, where the year fits and the month and day exist.
pub fn date_from_parts(year: i32, month: u32, day: u32) -> (r: Option<Date>)
    ensures
        r matches Some(d) ==> valid_date(d) && d.year == year && d.month == month && d.day == day,
        r is None ==> !(0 <= year <= u16::MAX && 1 <= month <= 12 && 1 <= day <= days_in_month(
            year as int,
            month as int,
        )),
{
    if year < 0 || year > u16::MAX as i32 || month < 1 || month > 12 || day < 1 || day > 31 {
        return None;
    }
    let d = Date { year: year as u16, month: month as u8, day: day as u8 };
    if is_calendar_date(d) {
        Some(d)
    } else {
        None
    }
}

/// The date as `YYYY-MM-DD`.
pub fn iso_date_string(d: Date) -> (r: String)
    ensures
        r@ == iso_date(d),
{
    let mut out = String::new();
    push_padded(&mut out, d.year as u32, 4);
    push_char(&mut out, '-');
    push_padded(&mut out, d.month as u32, 2);
    push_char(&mut out, '-');
    push_padded(&mut out, d.day as u32, 2);
    assert(out@ =~= iso_date(d));
    out
}

/// The date as readers see it, `Mon DD, YYYY`.
pub fn display_date_string(d: Date) -> (r: String)
    requires
        valid_date(d),
    ensures
        r@ == display_date(d),
{
    format_display_date(d)
}

} // verus!
