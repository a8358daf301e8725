use vstd::prelude::*;
use crate::text::{decimal, push_char, push_decimal, push_str};
use vstd::string::StrSliceExecFns;

verus! {

// ---------------------------------------------------------------------------
// The proleptic Gregorian calendar
// ---------------------------------------------------------------------------

/// A leap year: divisible by 4, and not by 100 unless by 400.
pub open spec fn is_leap_year(y: int) -> bool {
    (y % 4 == 0 && y % 100 != 0) || y % 400 == 0
}

pub open spec fn days_in_year(y: int) -> int {
    if is_leap_year(y) {
        366
    } else {
        365
    }
}

pub open spec fn days_in_month(y: int, m: int) -> int {
    if m == 2 {
        if is_leap_year(y) {
            29
        } else {
            28
        }
    } else if m == 4 || m == 6 || m == 9 || m == 11 {
        30
    } else {
        31
    }
}

/// The number of leap years among years `1..=n` (counted down for negative `n`).
pub open spec fn leaps_through(n: int) -> int {
    n / 4 - n / 100 + n / 400
}

/// Days from 1970-01-01 to the first day of year `y`.
pub open spec fn days_before_year(y: int) -> int {
    365 * (y - 1970) + leaps_through(y - 1) - leaps_through(1969)
}

/// Days from the first of the year to the first of month `m`.
pub open spec fn days_before_month(y: int, m: int) -> int {
    let cum: int = if m <= 1 {
        0
    } else if m == 2 {
        31
    } else if m == 3 {
        59
    } else if m == 4 {
        90
    } else if m == 5 {
        120
    } else if m == 6 {
        151
    } else if m == 7 {
        181
    } else if m == 8 {
        212
    } else if m == 9 {
        243
    } else if m == 10 {
        273
    } else if m == 11 {
        304
    } else {
        334
    };
    cum + if m > 2 && is_leap_year(y) { 1int } else { 0int }
}

/// A real calendar date.
pub open spec fn valid_date(y: int, m: int, d: int) -> bool {
    1 <= m <= 12 && 1 <= d <= days_in_month(y, m)
}

/// Days since 1970-01-01 of the date `y-m-d`.
pub open spec fn days_from_civil(y: int, m: int, d: int) -> int {
    days_before_year(y) + days_before_month(y, m) + d - 1
}

proof fn lemma_div_step(y: int, d: int)
    requires
        d > 1,
    ensures
        y / d - (y - 1) / d == if y % d == 0 { 1int } else { 0int },
{
    vstd::arithmetic::div_mod::lemma_fundamental_div_mod(y, d);
    vstd::arithmetic::div_mod::lemma_fundamental_div_mod(y - 1, d);
    let q1 = y / d;
    let q2 = (y - 1) / d;
    let r1 = y % d;
    let r2 = (y - 1) % d;
    assert(q1 - q2 == if r1 == 0 { 1int } else { 0int }) by (nonlinear_arith)
        requires
            y == d * q1 + r1,
            y - 1 == d * q2 + r2,
            0 <= r1 < d,
            0 <= r2 < d,
            d > 1,
    ;
}

pub proof fn lemma_year_step(y: int)
    ensures
        days_before_year(y + 1) == days_before_year(y) + days_in_year(y),
{
    lemma_div_step(y, 4);
    lemma_div_step(y, 100);
    lemma_div_step(y, 400);
    assert(y + 1 - 1 == y);
}

pub proof fn lemma_era_step(y: int, q: int)
    ensures
        days_before_year(y + 400 * q) == days_before_year(y) + 146097 * q,
{
    let n = y - 1;
    vstd::arithmetic::div_mod::lemma_hoist_over_denominator(n, 100 * q, 4);
    vstd::arithmetic::div_mod::lemma_hoist_over_denominator(n, 4 * q, 100);
    vstd::arithmetic::div_mod::lemma_hoist_over_denominator(n, q, 400);
    assert(n + 100 * q * 4 == n + 400 * q);
    assert(n + 4 * q * 100 == n + 400 * q);
    assert(n + q * 400 == n + 400 * q);
    assert(leaps_through(n + 400 * q) == leaps_through(n) + 97 * q);
    assert(y + 400 * q - 1 == n + 400 * q);
}

} // verus!

verus! {

pub proof fn lemma_leap_period(y: int, q: int)
    ensures
        is_leap_year(y + 400 * q) == is_leap_year(y),
        days_in_year(y + 400 * q) == days_in_year(y),
{
    vstd::arithmetic::div_mod::lemma_fundamental_div_mod(y, 4);
    vstd::arithmetic::div_mod::lemma_fundamental_div_mod(y + 400 * q, 4);
    vstd::arithmetic::div_mod::lemma_fundamental_div_mod(y, 100);
    vstd::arithmetic::div_mod::lemma_fundamental_div_mod(y + 400 * q, 100);
    vstd::arithmetic::div_mod::lemma_fundamental_div_mod(y, 400);
    vstd::arithmetic::div_mod::lemma_fundamental_div_mod(y + 400 * q, 400);
}

fn is_leap_year_exec(y: u64) -> (b: bool)
    ensures
        b == is_leap_year(y as int),
{
    (y % 4 == 0 && y % 100 != 0) || y % 400 == 0
}

fn days_in_month_exec(y: u64, m: u64) -> (n: u64)
    ensures
        n == days_in_month(y as int, m as int),
{
    if m == 2 {
        if is_leap_year_exec(y) {
            29
        } else {
            28
        }
    } else if m == 4 || m == 6 || m == 9 || m == 11 {
        30
    } else {
        31
    }
}

/// `floor(a / b)` for a positive divisor.
fn floor_div(a: i64, b: i64) -> (q: i64)
    requires
        b > 0,
    ensures
        q == a as int / b as int,
{
    if a >= 0 {
        a / b
    } else {
        let n: i64 = -(a + 1);
        let qn: i64 = n / b;
        proof {
            let ai = a as int;
            let bi = b as int;
            let ni = n as int;
            vstd::arithmetic::div_mod::lemma_fundamental_div_mod(ai, bi);
            vstd::arithmetic::div_mod::lemma_fundamental_div_mod(ni, bi);
            assert(ai / bi == -(qn as int) - 1) by (nonlinear_arith)
                requires
                    ai == bi * (ai / bi) + ai % bi,
                    ni == bi * (ni / bi) + ni % bi,
                    qn == ni / bi,
                    ni == -(ai + 1),
                    0 <= ni % bi < bi,
                    0 <= ai % bi < bi,
                    bi > 0,
            ;
        }
        -qn - 1
    }
}

pub proof fn lemma_month_step(y: int, m: int)
    requires
        1 <= m <= 12,
    ensures
        m < 12 ==> days_before_month(y, m + 1) == days_before_month(y, m) + days_in_month(y, m),
        m == 12 ==> days_before_month(y, m) + days_in_month(y, m) == days_in_year(y),
        days_before_month(y, 1) == 0,
{
}

/// Splits a day number into whole 400-year eras from 1970 and the days left.
fn era_split(days: i64) -> (r: (i64, i64))
    requires
        -0x4_0000_0000_0000 <= days <= 0x4_0000_0000_0000,
    ensures
        0 <= r.1 < 146097,
        -0x1_0000_0000_0000 <= r.0 <= 0x1_0000_0000_0000,
        days == days_before_year(1970 + 400 * r.0) + r.1,
{
    let q = floor_div(days, 146097);
    proof {
        vstd::arithmetic::div_mod::lemma_fundamental_div_mod(days as int, 146097);
        lemma_era_step(1970, q as int);
        assert(days_before_year(1970) == 0);
    }
    let r: i64 = days - q * 146097;
    (q, r)
}

/// Walks whole years from `1970 + 400 * q`: the year offset and the days left in that year.
fn year_in_era(q: i64, r0: i64) -> (r: (u64, i64))
    requires
        0 <= r0 < 146097,
    ensures
        r.0 <= 401,
        0 <= r.1 < days_in_year(1970 + 400 * q + r.0),
        days_before_year(1970 + 400 * q) + r0 == days_before_year(1970 + 400 * q + r.0) + r.1,
{
    let ghost y0: int = 1970 + 400 * q;
    let mut r: i64 = r0;
    let mut k: u64 = 0;
    loop
        invariant
            0 <= r,
            k <= 401,
            r + 365 * k <= 146097,
            days_before_year(y0) + r0 == days_before_year(y0 + k) + r,
            y0 == 1970 + 400 * q,
        decreases r,
    {
        let diy: i64 = if is_leap_year_exec(1970 + k) { 366 } else { 365 };
        proof {
            lemma_leap_period(1970 + k, q as int);
        }
        if r < diy {
            return (k, r);
        }
        proof {
            lemma_year_step(y0 + k);
        }
        r = r - diy;
        k = k + 1;
    }
}

/// Walks whole months of year `y` (whose position in its era is `y_in_cycle`).
fn month_in_year(y_in_cycle: u64, r0: i64, Ghost(y): Ghost<int>) -> (r: (u64, u64))
    requires
        0 <= r0 < days_in_year(y),
        is_leap_year(y_in_cycle as int) == is_leap_year(y),
        y_in_cycle < 10000,
    ensures
        valid_date(y, r.0 as int, r.1 as int),
        days_before_month(y, r.0 as int) + r.1 - 1 == r0,
{
    let mut r: i64 = r0;
    let mut m: u64 = 1;
    proof {
        lemma_month_step(y, 1);
    }
    loop
        invariant
            1 <= m <= 12,
            0 <= r,
            r < days_in_year(y) - days_before_month(y, m as int),
            r0 == days_before_month(y, m as int) + r,
            is_leap_year(y_in_cycle as int) == is_leap_year(y),
        decreases 12 - m,
    {
        let dim = days_in_month_exec(y_in_cycle, m);
        proof {
            lemma_month_step(y, m as int);
        }
        if (r as u64) < dim {
            return (m, (r + 1) as u64);
        }
        r = r - dim as i64;
        m = m + 1;
    }
}

/// The date `(y, m, d)` of the day `days` days after 1970-01-01.
fn civil_from_days(days: i64) -> (r: (i64, u64, u64))
    requires
        -0x4_0000_0000_0000 <= days <= 0x4_0000_0000_0000,
    ensures
        valid_date(r.0 as int, r.1 as int, r.2 as int),
        days_from_civil(r.0 as int, r.1 as int, r.2 as int) == days,
{
    let (q, r0) = era_split(days);
    let (k, r1) = year_in_era(q, r0);
    let year: i64 = 1970 + 400 * q + k as i64;
    proof {
        lemma_leap_period(1970 + k, q as int);
    }
    let (m, d) = month_in_year(1970 + k, r1, Ghost(year as int));
    (year, m, d)
}

} // verus!

verus! {

pub proof fn lemma_days_before_year_mono(a: int, b: int)
    requires
        a <= b,
    ensures
        days_before_year(a) + 365 * (b - a) <= days_before_year(b),
    decreases b - a,
{
    if a < b {
        lemma_days_before_year_mono(a, b - 1);
        lemma_year_step(b - 1);
    }
}

pub proof fn lemma_day_of_year_bounds(y: int, m: int, d: int)
    requires
        valid_date(y, m, d),
    ensures
        days_before_year(y) <= days_from_civil(y, m, d) < days_before_year(y) + days_in_year(y),
{
}

/// Two real dates with the same day number are the same date.
pub proof fn lemma_civil_unique(y1: int, m1: int, d1: int, y2: int, m2: int, d2: int)
    requires
        valid_date(y1, m1, d1),
        valid_date(y2, m2, d2),
        days_from_civil(y1, m1, d1) == days_from_civil(y2, m2, d2),
    ensures
        y1 == y2 && m1 == m2 && d1 == d2,
{
    lemma_day_of_year_bounds(y1, m1, d1);
    lemma_day_of_year_bounds(y2, m2, d2);
    if y1 < y2 {
        lemma_days_before_year_mono(y1 + 1, y2);
        lemma_year_step(y1);
    } else if y2 < y1 {
        lemma_days_before_year_mono(y2 + 1, y1);
        lemma_year_step(y2);
    }
    assert(y1 == y2);
}

/// The date of the day `days` days after 1970-01-01.
pub open spec fn civil_date(days: int) -> (int, int, int) {
    choose|t: (int, int, int)| valid_date(t.0, t.1, t.2) && days_from_civil(t.0, t.1, t.2) == days
}

pub proof fn lemma_civil_date(days: int, y: int, m: int, d: int)
    requires
        valid_date(y, m, d),
        days_from_civil(y, m, d) == days,
    ensures
        civil_date(days) == (y, m, d),
{
    let t = (y, m, d);
    assert(valid_date(t.0, t.1, t.2) && days_from_civil(t.0, t.1, t.2) == days);
    let c = civil_date(days);
    lemma_civil_unique(c.0, c.1, c.2, y, m, d);
}

} // verus!

verus! {

// ---------------------------------------------------------------------------
// Formats
// ---------------------------------------------------------------------------

/// How commit dates are shown.
#[derive(Clone, Copy, Debug, PartialEq, Eq, Structural)]
pub enum DateTimeFormat {
    YmdHm,
    YmdHms,
    DmyHm,
    MdyHm,
}

/// The user-facing name of a format.
pub open spec fn format_label(f: DateTimeFormat) -> Seq<char> {
    match f {
        DateTimeFormat::YmdHm => "YYYY-MM-DD HH:MM (UTC)"@,
        DateTimeFormat::YmdHms => "YYYY-MM-DD HH:MM:SS (UTC)"@,
        DateTimeFormat::DmyHm => "DD.MM.YYYY HH:MM (UTC)"@,
        DateTimeFormat::MdyHm => "MM/DD/YYYY HH:MM (UTC)"@,
    }
}

/// The key a format is stored under in settings.
pub open spec fn format_key(f: DateTimeFormat) -> Seq<char> {
    match f {
        DateTimeFormat::YmdHm => "ymd_hm_utc"@,
        DateTimeFormat::YmdHms => "ymd_hms_utc"@,
        DateTimeFormat::DmyHm => "dmy_hm_utc"@,
        DateTimeFormat::MdyHm => "mdy_hm_utc"@,
    }
}

/// The format whose settings key is `s`, if any.
pub open spec fn format_of_key(s: Seq<char>) -> Option<DateTimeFormat> {
    if s == format_key(DateTimeFormat::YmdHm) {
        Some(DateTimeFormat::YmdHm)
    } else if s == format_key(DateTimeFormat::YmdHms) {
        Some(DateTimeFormat::YmdHms)
    } else if s == format_key(DateTimeFormat::DmyHm) {
        Some(DateTimeFormat::DmyHm)
    } else if s == format_key(DateTimeFormat::MdyHm) {
        Some(DateTimeFormat::MdyHm)
    } else {
        None
    }
}

/// Reading back the key that a format is stored under gives that format.
pub proof fn law_format_key_round_trip(f: DateTimeFormat)
    ensures
        format_of_key(format_key(f)) == Some(f),
{
    reveal_strlit("ymd_hm_utc");
    reveal_strlit("ymd_hms_utc");
    reveal_strlit("dmy_hm_utc");
    reveal_strlit("mdy_hm_utc");
    assert(format_key(DateTimeFormat::YmdHm)[0] != format_key(DateTimeFormat::DmyHm)[0]);
    assert(format_key(DateTimeFormat::YmdHm)[0] != format_key(DateTimeFormat::MdyHm)[0]);
    assert(format_key(DateTimeFormat::YmdHms)[0] != format_key(DateTimeFormat::DmyHm)[0]);
    assert(format_key(DateTimeFormat::YmdHms)[0] != format_key(DateTimeFormat::MdyHm)[0]);
    assert(format_key(DateTimeFormat::DmyHm)[0] != format_key(DateTimeFormat::MdyHm)[0]);
    assert(format_key(DateTimeFormat::YmdHm).len() != format_key(DateTimeFormat::YmdHms).len());
}

impl DateTimeFormat {
    /// Every format, in menu order.
    pub fn all() -> (r: Vec<DateTimeFormat>)
        ensures
            r@ == seq![
                DateTimeFormat::YmdHm,
                DateTimeFormat::YmdHms,
                DateTimeFormat::DmyHm,
                DateTimeFormat::MdyHm,
            ],
    {
        let mut r = Vec::new();
        r.push(DateTimeFormat::YmdHm);
        r.push(DateTimeFormat::YmdHms);
        r.push(DateTimeFormat::DmyHm);
        r.push(DateTimeFormat::MdyHm);
        assert(r@ =~= seq![
            DateTimeFormat::YmdHm,
            DateTimeFormat::YmdHms,
            DateTimeFormat::DmyHm,
            DateTimeFormat::MdyHm,
        ]);
        r
    }

    pub fn label(self) -> (s: &'static str)
        ensures
            s@ == format_label(self),
    {
        match self {
            DateTimeFormat::YmdHm => "YYYY-MM-DD HH:MM (UTC)",
            DateTimeFormat::YmdHms => "YYYY-MM-DD HH:MM:SS (UTC)",
            DateTimeFormat::DmyHm => "DD.MM.YYYY HH:MM (UTC)",
            DateTimeFormat::MdyHm => "MM/DD/YYYY HH:MM (UTC)",
        }
    }

    pub fn key(self) -> (s: &'static str)
        ensures
            s@ == format_key(self),
    {
        match self {
            DateTimeFormat::YmdHm => "ymd_hm_utc",
            DateTimeFormat::YmdHms => "ymd_hms_utc",
            DateTimeFormat::DmyHm => "dmy_hm_utc",
            DateTimeFormat::MdyHm => "mdy_hm_utc",
        }
    }

    /// The format stored under `s`, if any.
    pub fn from_key(s: &str) -> (r: Option<DateTimeFormat>)
        ensures
            r == format_of_key(s@),
    {
        let sc = crate::text::str_to_chars(s);
        if crate::text::chars_eq(&sc, &crate::text::str_to_chars("ymd_hm_utc")) {
            Some(DateTimeFormat::YmdHm)
        } else if crate::text::chars_eq(&sc, &crate::text::str_to_chars("ymd_hms_utc")) {
            Some(DateTimeFormat::YmdHms)
        } else if crate::text::chars_eq(&sc, &crate::text::str_to_chars("dmy_hm_utc")) {
            Some(DateTimeFormat::DmyHm)
        } else if crate::text::chars_eq(&sc, &crate::text::str_to_chars("mdy_hm_utc")) {
            Some(DateTimeFormat::MdyHm)
        } else {
            None
        }
    }
}

/// `n` in decimal, padded on the left with zeros to `width` digits.
pub open spec fn zero_pad(n: nat, width: nat) -> Seq<char> {
    let digits = decimal(n);
    if digits.len() < width {
        Seq::new((width - digits.len()) as nat, |i: int| '0') + digits
    } else {
        digits
    }
}

/// A year as `{:04}` prints it: a minus sign counts toward the width.
pub open spec fn year_text(y: int) -> Seq<char> {
    if y < 0 {
        seq!['-'] + zero_pad((-y) as nat, 3)
    } else {
        zero_pad(y as nat, 4)
    }
}

/// A date and time written in format `f`.
pub open spec fn render_datetime(
    f: DateTimeFormat,
    y: int,
    m: nat,
    d: nat,
    hour: nat,
    minute: nat,
    second: nat,
) -> Seq<char> {
    let hm = zero_pad(hour, 2) + ":"@ + zero_pad(minute, 2);
    match f {
        DateTimeFormat::YmdHm => year_text(y) + "-"@ + zero_pad(m, 2) + "-"@ + zero_pad(d, 2) + " "@
            + hm,
        DateTimeFormat::YmdHms => year_text(y) + "-"@ + zero_pad(m, 2) + "-"@ + zero_pad(d, 2)
            + " "@ + hm + ":"@ + zero_pad(second, 2),
        DateTimeFormat::DmyHm => zero_pad(d, 2) + "."@ + zero_pad(m, 2) + "."@ + year_text(y) + " "@
            + hm,
        DateTimeFormat::MdyHm => zero_pad(m, 2) + "/"@ + zero_pad(d, 2) + "/"@ + year_text(y) + " "@
            + hm,
    }
}

/// The UTC date and time `secs` seconds after the Unix epoch, written in
/// format `f`; the year is taken as an `i32`.
pub open spec fn datetime_utc_text(secs: int, f: DateTimeFormat) -> Seq<char> {
    let days = secs / 86400;
    let sod = secs % 86400;
    let date = civil_date(days);
    render_datetime(
        f,
        date.0 as i32 as int,
        date.1 as nat,
        date.2 as nat,
        (sod / 3600) as nat,
        ((sod % 3600) / 60) as nat,
        (sod % 60) as nat,
    )
}

pub proof fn lemma_decimal_len(n: nat)
    ensures
        decimal(n).len() >= 1,
        n < 10 ==> decimal(n).len() == 1,
        10 <= n < 100 ==> decimal(n).len() == 2,
    decreases n,
{
    if n >= 10 {
        lemma_decimal_len(n / 10);
    }
}

fn push_zero_pad(s: &mut String, n: u64, width: usize)
    requires
        width <= 4,
    ensures
        final(s)@ == old(s)@ + zero_pad(n as nat, width as nat),
{
    let ghost s0 = s@;
    let mut digits = String::new();
    push_decimal(&mut digits, n);
    assert(digits@ =~= decimal(n as nat));
    let len = digits.as_str().unicode_len();
    let mut k: usize = len;
    while k < width
        invariant
            len <= k,
            k <= width || k == len,
            len == decimal(n as nat).len(),
            s@ == s0 + Seq::new((k - len) as nat, |i: int| '0'),
        decreases width - k,
    {
        push_char(s, '0');
        assert(s@ =~= s0 + Seq::new((k + 1 - len) as nat, |i: int| '0'));
        k = k + 1;
    }
    let ghost zeros = s@;
    push_str(s, digits.as_str());
    if len >= width {
        assert(Seq::new((k - len) as nat, |i: int| '0') =~= Seq::<char>::empty());
    }
    assert(s@ =~= s0 + zero_pad(n as nat, width as nat));
}

} // verus!

verus! {

fn push_year(s: &mut String, y: i32)
    ensures
        final(s)@ == old(s)@ + year_text(y as int),
{
    let ghost s0 = s@;
    if y < 0 {
        push_char(s, '-');
        let a: i64 = -(y as i64);
        push_zero_pad(s, a as u64, 3);
        assert(s@ =~= s0 + year_text(y as int));
    } else {
        push_zero_pad(s, y as u64, 4);
    }
}

fn push_hm(s: &mut String, hour: u64, minute: u64)
    ensures
        final(s)@ == old(s)@ + zero_pad(hour as nat, 2) + ":"@ + zero_pad(minute as nat, 2),
{
    let ghost s0 = s@;
    push_zero_pad(s, hour, 2);
    push_str(s, ":");
    push_zero_pad(s, minute, 2);
    assert(s@ =~= s0 + zero_pad(hour as nat, 2) + ":"@ + zero_pad(minute as nat, 2));
}

fn render_datetime_exec(
    f: DateTimeFormat,
    y: i32,
    m: u64,
    d: u64,
    hour: u64,
    minute: u64,
    second: u64,
) -> (out: String)
    ensures
        out@ == render_datetime(
            f,
            y as int,
            m as nat,
            d as nat,
            hour as nat,
            minute as nat,
            second as nat,
        ),
{
    let mut s = String::new();
    match f {
        DateTimeFormat::YmdHm => {
            push_year(&mut s, y);
            push_str(&mut s, "-");
            push_zero_pad(&mut s, m, 2);
            push_str(&mut s, "-");
            push_zero_pad(&mut s, d, 2);
            push_str(&mut s, " ");
            push_hm(&mut s, hour, minute);
        },
        DateTimeFormat::YmdHms => {
            push_year(&mut s, y);
            push_str(&mut s, "-");
            push_zero_pad(&mut s, m, 2);
            push_str(&mut s, "-");
            push_zero_pad(&mut s, d, 2);
            push_str(&mut s, " ");
            push_hm(&mut s, hour, minute);
            push_str(&mut s, ":");
            push_zero_pad(&mut s, second, 2);
        },
        DateTimeFormat::DmyHm => {
            push_zero_pad(&mut s, d, 2);
            push_str(&mut s, ".");
            push_zero_pad(&mut s, m, 2);
            push_str(&mut s, ".");
            push_year(&mut s, y);
            push_str(&mut s, " ");
            push_hm(&mut s, hour, minute);
        },
        DateTimeFormat::MdyHm => {
            push_zero_pad(&mut s, m, 2);
            push_str(&mut s, "/");
            push_zero_pad(&mut s, d, 2);
            push_str(&mut s, "/");
            push_year(&mut s, y);
            push_str(&mut s, " ");
            push_hm(&mut s, hour, minute);
        },
    }
    assert(s@ =~= render_datetime(
        f,
        y as int,
        m as nat,
        d as nat,
        hour as nat,
        minute as nat,
        second as nat,
    ));
    s
}

/// The UTC date and time `unix_secs` seconds after the Unix epoch (negative
/// before it), in format `format`. The year is written as an `i32`.
pub fn format_datetime_utc(unix_secs: i64, format: DateTimeFormat) -> (out: String)
    ensures
        out@ == datetime_utc_text(unix_secs as int, format),
{
    let days = floor_div(unix_secs, 86400);
    proof {
        vstd::arithmetic::div_mod::lemma_fundamental_div_mod(unix_secs as int, 86400);
    }
    let sec_of_day_wide: i128 = unix_secs as i128 - (days as i128) * 86400;
    let sec_of_day: i64 = sec_of_day_wide as i64;
    let hour: u64 = (sec_of_day / 3600) as u64;
    let minute: u64 = ((sec_of_day % 3600) / 60) as u64;
    let second: u64 = (sec_of_day % 60) as u64;
    let (y, m, d) = civil_from_days(days);
    proof {
        lemma_civil_date(days as int, y as int, m as int, d as int);
    }
    let y32: i32 = #[verifier::truncate] (y as i32);
    render_datetime_exec(format, y32, m, d, hour, minute, second)
}

} // verus!

verus! {

/// Seconds since the Unix epoch of a time `secs` seconds after it (or, when
/// `after_epoch` is false, before it): positive after, negative before.
pub fn unix_seconds_from(after_epoch: bool, secs: u64) -> (r: i64)
    requires
        secs <= i64::MAX,
    ensures
        r == if after_epoch {
            secs as int
        } else {
            -(secs as int)
        },
{
    let s = secs as i64;
    if after_epoch {
        s
    } else {
        -s
    }
}

} // verus!
