//! Calendar dates and their day-by-day ordering.
//!
//! Dates are held as plain year/month/day fields in the proleptic Gregorian
//! calendar, restricted to the four-digit years of the `YYYY-MM-DD` text form
//! in which the engine stores and exchanges them. The central notion is
//! [`day_index`], the rank of a date when all days are counted from
//! 0000-01-01: two dates are consecutive calendar days exactly when their
//! indices differ by one, which is what the streak computation walks over.

use crate::text::{
    char_digit, digit_char, digit_to_char, digit_val, is_digit, lemma_lex_head, lemma_lex_head_lt,
    lex_le, push_char,
};
use vstd::prelude::*;

verus! {

/// A calendar date, year 0000 through 9999.
#[derive(Clone, Copy, Debug, PartialEq, Eq, Structural)]
pub struct Date {
    pub year: u32,
    pub month: u32,
    pub day: u32,
}

pub open spec fn is_leap_year(y: int) -> bool {
    y % 4 == 0 && (y % 100 != 0 || y % 400 == 0)
}

pub open spec fn days_in_month(y: int, m: int) -> int {
    if m == 2 {
        if is_leap_year(y) {
            29
        } else {
            28
        }
    } else if m == 4 || m == 6 || m == 9 || m == 11 {
        30
    } else {
        31
    }
}

pub open spec fn valid_date(y: int, m: int, d: int) -> bool {
    0 <= y <= 9999 && 1 <= m <= 12 && 1 <= d <= days_in_month(y, m)
}

pub open spec fn days_in_year(y: int) -> int {
    if is_leap_year(y) {
        366
    } else {
        365
    }
}

/// Total days in the years 0, 1, ..., y - 1.
pub open spec fn days_before_year(y: int) -> int
    decreases y,
{
    if y <= 0 {
        0
    } else {
        days_before_year(y - 1) + days_in_year(y - 1)
    }
}

/// Days of year y that lie in the months before month m.
pub open spec fn days_before_month(y: int, m: int) -> int
    decreases m,
{
    if m <= 1 {
        0
    } else {
        days_before_month(y, m - 1) + days_in_month(y, m - 1)
    }
}

/// The rank of a date when all days are counted from 0000-01-01 (index 0).
pub open spec fn day_index(y: int, m: int, d: int) -> int {
    days_before_year(y) + days_before_month(y, m) + (d - 1)
}

/// The calendar day after (y, m, d).
pub open spec fn next_ymd(y: int, m: int, d: int) -> (int, int, int) {
    if d < days_in_month(y, m) {
        (y, m, d + 1)
    } else if m < 12 {
        (y, m + 1, 1)
    } else {
        (y + 1, 1, 1)
    }
}

/// Consecutive calendar days have consecutive day indices.
pub proof fn lemma_day_index_succ(y: int, m: int, d: int)
    requires
        0 <= y,
        1 <= m <= 12,
        1 <= d <= days_in_month(y, m),
    ensures
        day_index(next_ymd(y, m, d).0, next_ymd(y, m, d).1, next_ymd(y, m, d).2) == day_index(
            y,
            m,
            d,
        ) + 1,
{
    if d < days_in_month(y, m) {
    } else if m < 12 {
    } else {
        assert(days_before_month(y, 13) == days_in_year(y)) by {
            reveal_with_fuel(days_before_month, 14);
        }
    }
}

impl Date {
    pub open spec fn wf(self) -> bool {
        valid_date(self.year as int, self.month as int, self.day as int)
    }

    /// The day index of this date, as a spec value.
    pub open spec fn index(self) -> int {
        day_index(self.year as int, self.month as int, self.day as int)
    }
}

pub fn leap_year(y: u32) -> (r: bool)
    ensures
        r == is_leap_year(y as int),
{
    y % 4 == 0 && (y % 100 != 0 || y % 400 == 0)
}

pub fn month_length(y: u32, m: u32) -> (r: u32)
    requires
        1 <= m <= 12,
    ensures
        r as int == days_in_month(y as int, m as int),
{
    if m == 2 {
        if leap_year(y) {
            29
        } else {
            28
        }
    } else if m == 4 || m == 6 || m == 9 || m == 11 {
        30
    } else {
        31
    }
}

impl Date {
    pub fn valid(&self) -> (r: bool)
        ensures
            r == self.wf(),
    {
        self.year <= 9999 && 1 <= self.month && self.month <= 12 && 1 <= self.day && self.day
            <= month_length(self.year, self.month)
    }

    /// The day index of this date, computed by summing whole years and months.
    pub fn day_number(&self) -> (r: i64)
        requires
            self.wf(),
        ensures
            r as int == self.index(),
            0 <= r <= 3_700_000,
    {
        let mut acc: i64 = 0;
        let mut i: u32 = 0;
        while i < self.year
            invariant
                i <= self.year,
                self.year <= 9999,
                acc as int == days_before_year(i as int),
                acc <= 366 * (i as i64),
                acc >= 0,
            decreases self.year - i,
        {
            acc = acc + if leap_year(i) { 366 } else { 365 };
            i = i + 1;
        }
        let mut m: u32 = 1;
        while m < self.month
            invariant
                1 <= m <= self.month,
                self.month <= 12,
                self.wf(),
                acc as int == days_before_year(self.year as int) + days_before_month(
                    self.year as int,
                    m as int,
                ),
                acc <= 366 * 9999 + 31 * (m as i64),
                acc >= 0,
            decreases self.month - m,
        {
            acc = acc + month_length(self.year, m) as i64;
            m = m + 1;
        }
        acc + (self.day - 1) as i64
    }
}

/// The year encoded by the first four characters of a `YYYY-MM-DD` text.
pub open spec fn year_of_text(s: Seq<char>) -> int {
    1000 * digit_val(s[0]) + 100 * digit_val(s[1]) + 10 * digit_val(s[2]) + digit_val(s[3])
}

pub open spec fn month_of_text(s: Seq<char>) -> int {
    10 * digit_val(s[5]) + digit_val(s[6])
}

pub open spec fn day_of_text(s: Seq<char>) -> int {
    10 * digit_val(s[8]) + digit_val(s[9])
}

/// A well-formed `YYYY-MM-DD` text: ten characters, zero-padded decimal
/// fields separated by dashes, naming a real calendar date.
pub open spec fn date_text_wf(s: Seq<char>) -> bool {
    &&& s.len() == 10
    &&& is_digit(s[0]) && is_digit(s[1]) && is_digit(s[2]) && is_digit(s[3])
    &&& s[4] == '-'
    &&& is_digit(s[5]) && is_digit(s[6])
    &&& s[7] == '-'
    &&& is_digit(s[8]) && is_digit(s[9])
    &&& valid_date(year_of_text(s), month_of_text(s), day_of_text(s))
}

pub open spec fn date_of_text(s: Seq<char>) -> Date {
    Date { year: year_of_text(s) as u32, month: month_of_text(s) as u32, day: day_of_text(s) as u32 }
}

/// The canonical `YYYY-MM-DD` text of a date.
pub open spec fn date_text_of(d: Date) -> Seq<char> {
    seq![
        digit_char(d.year as int / 1000),
        digit_char((d.year as int / 100) % 10),
        digit_char((d.year as int / 10) % 10),
        digit_char(d.year as int % 10),
        '-',
        digit_char(d.month as int / 10),
        digit_char(d.month as int % 10),
        '-',
        digit_char(d.day as int / 10),
        digit_char(d.day as int % 10),
    ]
}

/// Parses a calendar date from its `YYYY-MM-DD` text. Returns `None` exactly
/// on texts that are not the canonical form of a real date.
pub fn parse_date(s: &str) -> (r: Option<Date>)
    ensures
        match r {
            Some(d) => date_text_wf(s@) && d == date_of_text(s@) && d.wf(),
            None => !date_text_wf(s@),
        },
{
    if s.unicode_len() != 10 {
        return None;
    }
    if s.get_char(4) != '-' || s.get_char(7) != '-' {
        return None;
    }
    let d0 = char_digit(s.get_char(0));
    let d1 = char_digit(s.get_char(1));
    let d2 = char_digit(s.get_char(2));
    let d3 = char_digit(s.get_char(3));
    let d5 = char_digit(s.get_char(5));
    let d6 = char_digit(s.get_char(6));
    let d8 = char_digit(s.get_char(8));
    let d9 = char_digit(s.get_char(9));
    match (d0, d1, d2, d3, d5, d6, d8, d9) {
        (
            Some(y3),
            Some(y2),
            Some(y1),
            Some(y0),
            Some(m1),
            Some(m0),
            Some(a1),
            Some(a0),
        ) => {
            let date = Date {
                year: 1000 * y3 + 100 * y2 + 10 * y1 + y0,
                month: 10 * m1 + m0,
                day: 10 * a1 + a0,
            };
            if date.valid() {
                Some(date)
            } else {
                None
            }
        },
        _ => None,
    }
}

/// Writes a date in its canonical `YYYY-MM-DD` text.
pub fn format_date(d: &Date) -> (r: String)
    requires
        d.wf(),
    ensures
        r@ == date_text_of(*d),
{
    let mut s = String::new();
    push_char(&mut s, digit_to_char(d.year / 1000));
    push_char(&mut s, digit_to_char((d.year / 100) % 10));
    push_char(&mut s, digit_to_char((d.year / 10) % 10));
    push_char(&mut s, digit_to_char(d.year % 10));
    push_char(&mut s, '-');
    push_char(&mut s, digit_to_char(d.month / 10));
    push_char(&mut s, digit_to_char(d.month % 10));
    push_char(&mut s, '-');
    push_char(&mut s, digit_to_char(d.day / 10));
    push_char(&mut s, digit_to_char(d.day % 10));
    proof {
        assert(s@ =~= date_text_of(*d));
    }
    s
}

proof fn lemma_digit_round(v: int)
    requires
        0 <= v < 10,
    ensures
        is_digit(digit_char(v)),
        digit_val(digit_char(v)) == v,
{
}

proof fn lemma_year_digits(y: int)
    requires
        0 <= y <= 9999,
    ensures
        1000 * (y / 1000) + 100 * ((y / 100) % 10) + 10 * ((y / 10) % 10) + y % 10 == y,
{
    assert(y == 1000 * (y / 1000) + y % 1000);
    assert((y / 100) % 10 == (y % 1000) / 100) by (nonlinear_arith);
    assert((y / 10) % 10 == (y % 100) / 10) by (nonlinear_arith);
    assert(y % 100 == (y % 1000) % 100) by (nonlinear_arith);
    assert(y % 1000 == 100 * ((y % 1000) / 100) + (y % 1000) % 100);
    assert(y % 100 == 10 * ((y % 100) / 10) + (y % 100) % 10);
}

proof fn lemma_digit_char_of_val(c: char)
    requires
        is_digit(c),
    ensures
        digit_char(digit_val(c)) == c,
{
    let v = digit_val(c);
    if v == 0 {
        assert(c as u32 == '0' as u32);
    } else if v == 1 {
        assert(c as u32 == '1' as u32);
    } else if v == 2 {
        assert(c as u32 == '2' as u32);
    } else if v == 3 {
        assert(c as u32 == '3' as u32);
    } else if v == 4 {
        assert(c as u32 == '4' as u32);
    } else if v == 5 {
        assert(c as u32 == '5' as u32);
    } else if v == 6 {
        assert(c as u32 == '6' as u32);
    } else if v == 7 {
        assert(c as u32 == '7' as u32);
    } else if v == 8 {
        assert(c as u32 == '8' as u32);
    } else {
        assert(c as u32 == '9' as u32);
    }
}

/// Reading a well-formed date text and writing the date back yields the
/// same text.
#[verifier::rlimit(30)]
pub proof fn lemma_parse_format(s: Seq<char>)
    requires
        date_text_wf(s),
    ensures
        date_text_of(date_of_text(s)) == s,
{
    let y = year_of_text(s);
    let m = month_of_text(s);
    let a = day_of_text(s);
    let d0 = digit_val(s[0]);
    let d1 = digit_val(s[1]);
    let d2 = digit_val(s[2]);
    let d3 = digit_val(s[3]);
    assert(y / 1000 == d0 && (y / 100) % 10 == d1 && (y / 10) % 10 == d2 && y % 10 == d3) by {
        assert(y == 1000 * d0 + (100 * d1 + 10 * d2 + d3));
        assert((1000 * d0 + (100 * d1 + 10 * d2 + d3)) / 1000 == d0) by (nonlinear_arith)
            requires
                0 <= d0 <= 9,
                0 <= d1 <= 9,
                0 <= d2 <= 9,
                0 <= d3 <= 9,
        ;
        assert((1000 * d0 + (100 * d1 + 10 * d2 + d3)) / 100 % 10 == d1) by (nonlinear_arith)
            requires
                0 <= d0 <= 9,
                0 <= d1 <= 9,
                0 <= d2 <= 9,
                0 <= d3 <= 9,
        ;
        assert((1000 * d0 + (100 * d1 + 10 * d2 + d3)) / 10 % 10 == d2) by (nonlinear_arith)
            requires
                0 <= d0 <= 9,
                0 <= d1 <= 9,
                0 <= d2 <= 9,
                0 <= d3 <= 9,
        ;
        assert((1000 * d0 + (100 * d1 + 10 * d2 + d3)) % 10 == d3) by (nonlinear_arith)
            requires
                0 <= d0 <= 9,
                0 <= d1 <= 9,
                0 <= d2 <= 9,
                0 <= d3 <= 9,
        ;
    }
    assert(m / 10 == digit_val(s[5]) && m % 10 == digit_val(s[6]));
    assert(a / 10 == digit_val(s[8]) && a % 10 == digit_val(s[9]));
    lemma_digit_char_of_val(s[0]);
    lemma_digit_char_of_val(s[1]);
    lemma_digit_char_of_val(s[2]);
    lemma_digit_char_of_val(s[3]);
    lemma_digit_char_of_val(s[5]);
    lemma_digit_char_of_val(s[6]);
    lemma_digit_char_of_val(s[8]);
    lemma_digit_char_of_val(s[9]);
    assert(date_text_of(date_of_text(s)) =~= s);
}

/// Formatting a date and reading the text back yields the same date.
#[verifier::rlimit(30)]
pub proof fn lemma_format_parse(d: Date)
    requires
        d.wf(),
    ensures
        date_text_wf(date_text_of(d)),
        date_of_text(date_text_of(d)) == d,
{
    let y = d.year as int;
    let m = d.month as int;
    let a = d.day as int;
    let t = date_text_of(d);
    lemma_digit_round(y / 1000);
    lemma_digit_round((y / 100) % 10);
    lemma_digit_round((y / 10) % 10);
    lemma_digit_round(y % 10);
    lemma_digit_round(m / 10);
    lemma_digit_round(m % 10);
    lemma_digit_round(a / 10);
    lemma_digit_round(a % 10);
    lemma_year_digits(y);
    assert(year_of_text(t) == y);
    assert(month_of_text(t) == m);
    assert(day_of_text(t) == a);
}

spec fn pad2(x: int) -> Seq<char> {
    seq![digit_char(x / 10), digit_char(x % 10)]
}

proof fn lemma_digit_char_code(v: int)
    requires
        0 <= v <= 9,
    ensures
        digit_char(v) as u32 == 48 + v,
{
}

/// Two-digit zero-padded blocks compare as their values, whatever follows.
proof fn lemma_pad2_block(x: int, y: int, s: Seq<char>, t: Seq<char>)
    requires
        0 <= x <= 99,
        0 <= y <= 99,
    ensures
        x < y ==> lex_le(pad2(x) + s, pad2(y) + t) && !lex_le(pad2(y) + t, pad2(x) + s),
        x == y ==> lex_le(pad2(x) + s, pad2(y) + t) == lex_le(s, t),
{
    let h1 = x / 10;
    let l1 = x % 10;
    let h2 = y / 10;
    let l2 = y % 10;
    lemma_digit_char_code(h1);
    lemma_digit_char_code(l1);
    lemma_digit_char_code(h2);
    lemma_digit_char_code(l2);
    assert(pad2(x) + s =~= seq![digit_char(h1)] + (seq![digit_char(l1)] + s));
    assert(pad2(y) + t =~= seq![digit_char(h2)] + (seq![digit_char(l2)] + t));
    if x < y {
        assert(h1 <= h2) by (nonlinear_arith)
            requires
                0 <= x < y,
                h1 == x / 10,
                h2 == y / 10,
        ;
        if h1 == h2 {
            assert(l1 < l2);
            lemma_lex_head_lt(digit_char(l1), digit_char(l2), s, t);
            lemma_lex_head(digit_char(h1), seq![digit_char(l1)] + s, seq![digit_char(l2)] + t);
            lemma_lex_head(digit_char(h1), seq![digit_char(l2)] + t, seq![digit_char(l1)] + s);
        } else {
            lemma_lex_head_lt(
                digit_char(h1),
                digit_char(h2),
                seq![digit_char(l1)] + s,
                seq![digit_char(l2)] + t,
            );
        }
    } else if x == y {
        lemma_lex_head(digit_char(l1), s, t);
        lemma_lex_head(digit_char(h1), seq![digit_char(l1)] + s, seq![digit_char(l2)] + t);
    }
}

spec fn pad4(x: int) -> Seq<char> {
    pad2(x / 100) + pad2(x % 100)
}

/// Four-digit zero-padded blocks compare as their values, whatever follows.
proof fn lemma_pad4_block(x: int, y: int, s: Seq<char>, t: Seq<char>)
    requires
        0 <= x <= 9999,
        0 <= y <= 9999,
    ensures
        x < y ==> lex_le(pad4(x) + s, pad4(y) + t) && !lex_le(pad4(y) + t, pad4(x) + s),
        x == y ==> lex_le(pad4(x) + s, pad4(y) + t) == lex_le(s, t),
{
    let hi1 = x / 100;
    let lo1 = x % 100;
    let hi2 = y / 100;
    let lo2 = y % 100;
    assert(pad4(x) + s =~= pad2(hi1) + (pad2(lo1) + s));
    assert(pad4(y) + t =~= pad2(hi2) + (pad2(lo2) + t));
    if x < y {
        assert(hi1 <= hi2) by (nonlinear_arith)
            requires
                0 <= x < y,
                hi1 == x / 100,
                hi2 == y / 100,
        ;
        if hi1 == hi2 {
            assert(lo1 < lo2);
            lemma_pad2_block(lo1, lo2, s, t);
            lemma_pad2_block(hi1, hi1, pad2(lo1) + s, pad2(lo2) + t);
            lemma_pad2_block(hi1, hi1, pad2(lo2) + t, pad2(lo1) + s);
        } else {
            lemma_pad2_block(hi1, hi2, pad2(lo1) + s, pad2(lo2) + t);
        }
    } else if x == y {
        lemma_pad2_block(lo1, lo2, s, t);
        lemma_pad2_block(hi1, hi2, pad2(lo1) + s, pad2(lo2) + t);
    }
}

/// Whether one date is on or before another.
pub open spec fn date_le(a: Date, b: Date) -> bool {
    a.year < b.year || (a.year == b.year && (a.month < b.month || (a.month == b.month && a.day
        <= b.day)))
}

/// The canonical texts of two dates compare exactly as the dates do: for
/// `YYYY-MM-DD` texts, text order is calendar order.
pub proof fn lemma_date_text_order(a: Date, b: Date)
    requires
        a.wf(),
        b.wf(),
    ensures
        lex_le(date_text_of(a), date_text_of(b)) == date_le(a, b),
{
    let ya = a.year as int;
    let yb = b.year as int;
    let ma = a.month as int;
    let mb = b.month as int;
    let da = a.day as int;
    let db = b.day as int;
    assert(ya / 100 / 10 == ya / 1000) by (nonlinear_arith)
        requires
            0 <= ya <= 9999,
    ;
    assert((ya % 100) / 10 == (ya / 10) % 10) by (nonlinear_arith)
        requires
            0 <= ya <= 9999,
    ;
    assert((ya % 100) % 10 == ya % 10) by (nonlinear_arith)
        requires
            0 <= ya <= 9999,
    ;
    assert(yb / 100 / 10 == yb / 1000) by (nonlinear_arith)
        requires
            0 <= yb <= 9999,
    ;
    assert((yb % 100) / 10 == (yb / 10) % 10) by (nonlinear_arith)
        requires
            0 <= yb <= 9999,
    ;
    assert((yb % 100) % 10 == yb % 10) by (nonlinear_arith)
        requires
            0 <= yb <= 9999,
    ;
    let ra = seq!['-'] + (pad2(ma) + (seq!['-'] + (pad2(da) + Seq::<char>::empty())));
    let rb = seq!['-'] + (pad2(mb) + (seq!['-'] + (pad2(db) + Seq::<char>::empty())));
    assert(date_text_of(a) =~= pad4(ya) + ra);
    assert(date_text_of(b) =~= pad4(yb) + rb);
    if ya < yb {
        lemma_pad4_block(ya, yb, ra, rb);
    } else if ya > yb {
        lemma_pad4_block(yb, ya, rb, ra);
    } else {
        lemma_pad4_block(ya, yb, ra, rb);
        lemma_pad4_block(yb, ya, rb, ra);
        let ma_block = pad2(ma) + (seq!['-'] + (pad2(da) + Seq::<char>::empty()));
        let mb_block = pad2(mb) + (seq!['-'] + (pad2(db) + Seq::<char>::empty()));
        lemma_lex_head('-', ma_block, mb_block);
        lemma_lex_head('-', mb_block, ma_block);
        if ma < mb {
            lemma_pad2_block(ma, mb, seq!['-'] + (pad2(da) + Seq::<char>::empty()), seq!['-']
                + (pad2(db) + Seq::<char>::empty()));
        } else if ma > mb {
            lemma_pad2_block(mb, ma, seq!['-'] + (pad2(db) + Seq::<char>::empty()), seq!['-']
                + (pad2(da) + Seq::<char>::empty()));
        } else {
            lemma_pad2_block(ma, mb, seq!['-'] + (pad2(da) + Seq::<char>::empty()), seq!['-']
                + (pad2(db) + Seq::<char>::empty()));
            lemma_pad2_block(mb, ma, seq!['-'] + (pad2(db) + Seq::<char>::empty()), seq!['-']
                + (pad2(da) + Seq::<char>::empty()));
            let da_block = pad2(da) + Seq::<char>::empty();
            let db_block = pad2(db) + Seq::<char>::empty();
            lemma_lex_head('-', da_block, db_block);
            lemma_lex_head('-', db_block, da_block);
            if da < db {
                lemma_pad2_block(da, db, Seq::<char>::empty(), Seq::<char>::empty());
            } else if da > db {
                lemma_pad2_block(db, da, Seq::<char>::empty(), Seq::<char>::empty());
            } else {
                lemma_pad2_block(da, db, Seq::<char>::empty(), Seq::<char>::empty());
            }
        }
    }
}

} // verus!
