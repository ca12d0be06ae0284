//! Deadline extraction from notice titles.
//!
//! Two date tokens are recognised: a full date, four digits of year, one or
//! two of month and one or two of day, with `.`, `-` or `/` between them; and
//! a bare month and day, one or two digits each, the month closed by `.` or
//! `월`, an optional whitespace, the day optionally closed by `.` or `일`. At a
//! given position the longer month is preferred when the rest still matches,
//! and a day takes two digits when it can. Matches are searched leftmost
//! first, and successive matches do not overlap.

use vstd::prelude::*;
use crate::text::{chars_of, is_space, contains, find_chars, first_occurrence, lemma_first_occurrence_unique};

verus! {

/// A calendar date.
#[derive(Debug, Clone, Copy, PartialEq, Eq, Structural)]
pub struct Date {
    pub year: i32,
    pub month: u32,
    pub day: u32,
}

pub open spec fn is_leap(y: int) -> bool {
    y % 4 == 0 && (y % 100 != 0 || y % 400 == 0)
}

pub open spec fn days_in_month(y: int, m: int) -> int {
    if m == 2 {
        if is_leap(y) { 29 } else { 28 }
    } else if m == 4 || m == 6 || m == 9 || m == 11 {
        30
    } else {
        31
    }
}

/// A day of the proleptic Gregorian calendar, within the years chrono
/// represents.
pub open spec fn is_calendar_date(y: int, m: int, d: int) -> bool {
    -262143 <= y <= 262142 && 1 <= m <= 12 && 1 <= d <= days_in_month(y, m)
}

/// Relies on chrono's `NaiveDate::from_ymd_opt`: it gives a date exactly
/// for a day of the proleptic Gregorian calendar within its year range.
#[verifier::external_body]
fn calendar_date_exists(y: i32, m: u32, d: u32) -> (r: bool)
    ensures
        r == is_calendar_date(y as int, m as int, d as int),
{
    chrono::NaiveDate::from_ymd_opt(y, m, d).is_some()
}

/// Relies on chrono's `Local::now`: the current year in the machine's time
/// zone. Nothing is promised of the value.
#[verifier::external_body]
pub(crate) fn local_year() -> (r: i32) {
    chrono::Datelike::year(&chrono::Local::now())
}

impl Date {
    /// The date with these parts, if it is one.
    pub fn from_ymd_opt(year: i32, month: u32, day: u32) -> (r: Option<Date>)
        ensures
            r is Some <==> is_calendar_date(year as int, month as int, day as int),
            r matches Some(d) ==> d == (Date { year, month, day }),
    {
        if calendar_date_exists(year, month, day) {
            Some(Date { year, month, day })
        } else {
            None
        }
    }

    pub fn year(&self) -> (r: i32)
        ensures
            r == self.year,
    {
        self.year
    }

    pub fn month(&self) -> (r: u32)
        ensures
            r == self.month,
    {
        self.month
    }

    pub fn day(&self) -> (r: u32)
        ensures
            r == self.day,
    {
        self.day
    }
}

pub open spec fn is_digit(c: char) -> bool {
    '0' <= c <= '9'
}

pub open spec fn digits_at(t: Seq<char>, i: int, n: int) -> bool {
    0 <= i && i + n <= t.len() && forall|k: int| i <= k < i + n ==> is_digit(#[trigger] t[k])
}

/// The value of the `n` decimal digits of `t` at `i`.
pub open spec fn number_at(t: Seq<char>, i: int, n: int) -> int
    decreases n,
{
    if n <= 0 {
        0
    } else {
        number_at(t, i, n - 1) * 10 + (t[i + n - 1] as int - '0' as int)
    }
}

/// The length of a one- or two-digit number at `p`, taking two digits when
/// it can; 0 when there is none.
pub open spec fn short_len(t: Seq<char>, p: int) -> int {
    if digits_at(t, p, 2) {
        2
    } else if digits_at(t, p, 1) {
        1
    } else {
        0
    }
}

pub open spec fn is_full_sep(c: char) -> bool {
    c == '.' || c == '-' || c == '/'
}


/// The month length of a full date whose month starts at `p`; 0 when no
/// full date continues there.
pub open spec fn full_month_len(t: Seq<char>, p: int) -> int {
    if digits_at(t, p, 2) && p + 2 < t.len() && is_full_sep(t[p + 2]) && digits_at(t, p + 3, 1) {
        2
    } else if digits_at(t, p, 1) && p + 1 < t.len() && is_full_sep(t[p + 1]) && digits_at(t, p + 2, 1) {
        1
    } else {
        0
    }
}

/// A full date starts at `i`.
pub open spec fn full_at(t: Seq<char>, i: int) -> bool {
    digits_at(t, i, 4) && i + 4 < t.len() && is_full_sep(t[i + 4]) && full_month_len(t, i + 5) > 0
}

pub open spec fn full_day_start(t: Seq<char>, i: int) -> int {
    i + 6 + full_month_len(t, i + 5)
}

pub open spec fn full_end(t: Seq<char>, i: int) -> int {
    full_day_start(t, i) + short_len(t, full_day_start(t, i))
}

pub open spec fn full_parts(t: Seq<char>, i: int) -> (int, int, int) {
    (number_at(t, i, 4), number_at(t, i + 5, full_month_len(t, i + 5)),
        number_at(t, full_day_start(t, i), short_len(t, full_day_start(t, i))))
}

pub open spec fn is_md_mark(c: char) -> bool {
    c == '.' || c == '월'
}

pub open spec fn space_len(t: Seq<char>, q: int) -> int {
    if 0 <= q < t.len() && is_space(t[q]) { 1 } else { 0 }
}

/// The month length of a month-day token at `i`; 0 when none starts there.
pub open spec fn md_month_len(t: Seq<char>, i: int) -> int {
    if digits_at(t, i, 2) && i + 2 < t.len() && is_md_mark(t[i + 2]) && digits_at(t, i + 3 + space_len(t, i + 3), 1) {
        2
    } else if digits_at(t, i, 1) && i + 1 < t.len() && is_md_mark(t[i + 1]) && digits_at(t, i + 2 + space_len(t, i + 2), 1) {
        1
    } else {
        0
    }
}

pub open spec fn md_at(t: Seq<char>, i: int) -> bool {
    md_month_len(t, i) > 0
}

pub open spec fn md_day_start(t: Seq<char>, i: int) -> int {
    let q = i + md_month_len(t, i) + 1;
    q + space_len(t, q)
}

pub open spec fn md_end(t: Seq<char>, i: int) -> int {
    let e = md_day_start(t, i) + short_len(t, md_day_start(t, i));
    if 0 <= e < t.len() && (t[e] == '.' || t[e] == '일') { e + 1 } else { e }
}

pub open spec fn md_parts(t: Seq<char>, i: int) -> (int, int) {
    (number_at(t, i, md_month_len(t, i)), number_at(t, md_day_start(t, i), short_len(t, md_day_start(t, i))))
}

pub open spec fn mk_date(y: int, m: int, d: int) -> Option<Date> {
    if is_calendar_date(y, m, d) {
        Some(Date { year: y as i32, month: m as u32, day: d as u32 })
    } else {
        None
    }
}

pub open spec fn full_date_at(t: Seq<char>, i: int) -> Option<Date> {
    mk_date(full_parts(t, i).0, full_parts(t, i).1, full_parts(t, i).2)
}

pub open spec fn md_date_at(t: Seq<char>, i: int, y: int) -> Option<Date> {
    mk_date(y, md_parts(t, i).0, md_parts(t, i).1)
}

/// The leftmost full date at or after `p`.
pub open spec fn first_full(t: Seq<char>, p: int) -> Option<int>
    decreases t.len() - p,
{
    if p < 0 || p >= t.len() {
        None
    } else if full_at(t, p) {
        Some(p)
    } else {
        first_full(t, p + 1)
    }
}

/// The leftmost month-day token at or after `p`.
pub open spec fn first_md(t: Seq<char>, p: int) -> Option<int>
    decreases t.len() - p,
{
    if p < 0 || p >= t.len() {
        None
    } else if md_at(t, p) {
        Some(p)
    } else {
        first_md(t, p + 1)
    }
}

/// The last valid date among the successive full-date matches from `p`.
pub open spec fn last_full_from(t: Seq<char>, p: int) -> Option<Date>
    decreases t.len() - p,
{
    if p < 0 || p >= t.len() {
        None
    } else if full_at(t, p) {
        let rest = last_full_from(t, full_end(t, p));
        if rest is Some { rest } else { full_date_at(t, p) }
    } else {
        last_full_from(t, p + 1)
    }
}

/// The last valid date among the successive month-day matches from `p`,
/// in year `y`.
pub open spec fn last_md_from(t: Seq<char>, p: int, y: int) -> Option<Date>
    decreases t.len() - p,
{
    if p < 0 || p >= t.len() {
        None
    } else if md_at(t, p) {
        let rest = last_md_from(t, md_end(t, p), y);
        if rest is Some { rest } else { md_date_at(t, p, y) }
    } else {
        last_md_from(t, p + 1, y)
    }
}

/// The date of a window before a keyword: its first full date if that is
/// valid, else its first month-day token if that is valid.
pub open spec fn window_date(r: Seq<char>, y: int) -> Option<Date> {
    let f = match first_full(r, 0) {
        Some(i) => full_date_at(r, i),
        None => None,
    };
    if f is Some {
        f
    } else {
        match first_md(r, 0) {
            Some(i) => md_date_at(r, i, y),
            None => None,
        }
    }
}

/// The width of the window searched before a keyword, in characters.
pub const WINDOW: usize = 40;

/// The date in the window of up to forty characters before the first
/// occurrence of `kw` in `t`.
pub open spec fn keyword_date(t: Seq<char>, kw: Seq<char>, y: int) -> Option<Date> {
    if contains(t, kw) {
        let p = choose|p: int| first_occurrence(t, kw, p);
        let start = if p >= WINDOW { p - WINDOW } else { 0 };
        window_date(t.subrange(start, p), y)
    } else {
        None
    }
}

pub open spec fn or_else(a: Option<Date>, b: Option<Date>) -> Option<Date> {
    if a is Some { a } else { b }
}

/// The deadline of a title in reference year `y`: the dates next to the
/// keywords "까지", "마감" and "이내", in that order; else the last full date
/// of the title; else its last month-day token.
pub open spec fn deadline_of(t: Seq<char>, y: int) -> Option<Date> {
    or_else(keyword_date(t, "까지"@, y),
    or_else(keyword_date(t, "마감"@, y),
    or_else(keyword_date(t, "이내"@, y),
    or_else(last_full_from(t, 0), last_md_from(t, 0, y)))))
}

fn digits_at_exec(t: &Vec<char>, i: usize, n: usize) -> (r: bool)
    requires
        n <= 4,
    ensures
        r == digits_at(t@, i as int, n as int),
{
    let len = t.len();
    if i > len || n > len - i {
        return false;
    }
    let mut k: usize = 0;
    while k < n
        invariant
            len == t@.len(),
            i + n <= t@.len(),
            k <= n,
            forall|j: int| i <= j < i + k ==> is_digit(#[trigger] t@[j]),
        decreases n - k,
    {
        assert(i + k < t@.len());
        let c = t[i + k];
        if !('0' <= c && c <= '9') {
            return false;
        }
        k = k + 1;
    }
    true
}

fn number_exec(t: &Vec<char>, i: usize, n: usize) -> (r: i32)
    requires
        n <= 4,
        digits_at(t@, i as int, n as int),
    ensures
        r == number_at(t@, i as int, n as int),
        0 <= r < 10000,
{
    let len = t.len();
    let mut v: i32 = 0;
    let mut k: usize = 0;
    while k < n
        invariant
            len == t@.len(),
            n <= 4,
            digits_at(t@, i as int, n as int),
            k <= n,
            v == number_at(t@, i as int, k as int),
            0 <= v < 10000,
            k == 0 ==> v == 0,
            k == 1 ==> v < 10,
            k == 2 ==> v < 100,
            k == 3 ==> v < 1000,
        decreases n - k,
    {
        assert(i + k < t@.len());
        let c = t[i + k];
        assert(is_digit(t@[i + k]));
        let d = (c as u32 - '0' as u32) as i32;
        v = v * 10 + d;
        k = k + 1;
    }
    v
}

fn short_len_exec(t: &Vec<char>, p: usize) -> (r: usize)
    ensures
        r as int == short_len(t@, p as int),
{
    if digits_at_exec(t, p, 2) {
        2
    } else if digits_at_exec(t, p, 1) {
        1
    } else {
        0
    }
}

fn is_full_sep_exec(c: char) -> (r: bool)
    ensures
        r == is_full_sep(c),
{
    c == '.' || c == '-' || c == '/'
}

fn is_space_exec(c: char) -> (r: bool)
    ensures
        r == is_space(c),
{
    ('\u{9}' <= c && c <= '\u{d}') || c == ' ' || c == '\u{85}' || c == '\u{a0}' || c == '\u{1680}'
        || ('\u{2000}' <= c && c <= '\u{200a}') || c == '\u{2028}' || c == '\u{2029}' || c == '\u{202f}'
        || c == '\u{205f}' || c == '\u{3000}'
}

fn full_month_len_exec(t: &Vec<char>, p: usize) -> (r: usize)
    requires
        p + 8 < usize::MAX,
    ensures
        r as int == full_month_len(t@, p as int),
{
    if digits_at_exec(t, p, 2) && p + 2 < t.len() && is_full_sep_exec(t[p + 2]) && digits_at_exec(t, p + 3, 1) {
        2
    } else if digits_at_exec(t, p, 1) && p + 1 < t.len() && is_full_sep_exec(t[p + 1]) && digits_at_exec(t, p + 2, 1) {
        1
    } else {
        0
    }
}

fn full_at_exec(t: &Vec<char>, i: usize) -> (r: bool)
    requires
        i < t@.len(),
        t@.len() + 16 < usize::MAX,
    ensures
        r == full_at(t@, i as int),
{
    digits_at_exec(t, i, 4) && i + 4 < t.len() && is_full_sep_exec(t[i + 4]) && full_month_len_exec(t, i + 5) > 0
}

fn space_len_exec(t: &Vec<char>, q: usize) -> (r: usize)
    ensures
        r as int == space_len(t@, q as int),
{
    if q < t.len() && is_space_exec(t[q]) { 1 } else { 0 }
}

fn md_month_len_exec(t: &Vec<char>, i: usize) -> (r: usize)
    requires
        i < t@.len(),
        t@.len() + 16 < usize::MAX,
    ensures
        r as int == md_month_len(t@, i as int),
{
    if digits_at_exec(t, i, 2) && i + 2 < t.len() && (t[i + 2] == '.' || t[i + 2] == '월')
        && digits_at_exec(t, i + 3 + space_len_exec(t, i + 3), 1) {
        2
    } else if digits_at_exec(t, i, 1) && i + 1 < t.len() && (t[i + 1] == '.' || t[i + 1] == '월')
        && digits_at_exec(t, i + 2 + space_len_exec(t, i + 2), 1) {
        1
    } else {
        0
    }
}

/// The date of the full-date match at `i`, if valid.
fn full_date_exec(t: &Vec<char>, i: usize) -> (r: Option<Date>)
    requires
        i < t@.len(),
        t@.len() + 16 < usize::MAX,
        full_at(t@, i as int),
    ensures
        r == full_date_at(t@, i as int),
{
    let a = full_month_len_exec(t, i + 5);
    let ds = i + 6 + a;
    let b = short_len_exec(t, ds);
    let y = number_exec(t, i, 4);
    let m = number_exec(t, i + 5, a);
    let d = number_exec(t, ds, b);
    Date::from_ymd_opt(y, m as u32, d as u32)
}

/// The date of the month-day match at `i` in year `year`, if valid.
fn md_date_exec(t: &Vec<char>, i: usize, year: i32) -> (r: Option<Date>)
    requires
        i < t@.len(),
        t@.len() + 16 < usize::MAX,
        md_at(t@, i as int),
    ensures
        r == md_date_at(t@, i as int, year as int),
{
    let a = md_month_len_exec(t, i);
    let q = i + a + 1;
    let ds = q + space_len_exec(t, q);
    let b = short_len_exec(t, ds);
    let m = number_exec(t, i, a);
    let d = number_exec(t, ds, b);
    Date::from_ymd_opt(year, m as u32, d as u32)
}

fn first_full_exec(t: &Vec<char>, p: usize) -> (r: Option<usize>)
    requires
        t@.len() + 16 < usize::MAX,
    ensures
        r matches Some(i) ==> i < t@.len() && full_at(t@, i as int),
        match r { Some(i) => first_full(t@, p as int) == Some(i as int), None => first_full(t@, p as int) is None },
{
    let mut i: usize = p;
    while i < t.len()
        invariant
            t@.len() + 16 < usize::MAX,
            p <= i,
            first_full(t@, p as int) == first_full(t@, i as int),
        decreases t@.len() - i,
    {
        if full_at_exec(t, i) {
            return Some(i);
        }
        i = i + 1;
    }
    None
}

fn first_md_exec(t: &Vec<char>, p: usize) -> (r: Option<usize>)
    requires
        t@.len() + 16 < usize::MAX,
    ensures
        r matches Some(i) ==> i < t@.len() && md_at(t@, i as int),
        match r { Some(i) => first_md(t@, p as int) == Some(i as int), None => first_md(t@, p as int) is None },
{
    let mut i: usize = p;
    while i < t.len()
        invariant
            t@.len() + 16 < usize::MAX,
            p <= i,
            first_md(t@, p as int) == first_md(t@, i as int),
        decreases t@.len() - i,
    {
        if md_month_len_exec(t, i) > 0 {
            return Some(i);
        }
        i = i + 1;
    }
    None
}

/// The date of a window before a keyword: its first full date if valid,
/// else its first month-day token if valid.
pub fn window_date_exec(r: &Vec<char>, year: i32) -> (d: Option<Date>)
    requires
        r@.len() + 16 < usize::MAX,
    ensures
        d == window_date(r@, year as int),
{
    let f = match first_full_exec(r, 0) {
        Some(i) => full_date_exec(r, i),
        None => None,
    };
    if f.is_some() {
        return f;
    }
    match first_md_exec(r, 0) {
        Some(i) => md_date_exec(r, i, year),
        None => None,
    }
}

fn full_end_exec(t: &Vec<char>, i: usize) -> (r: usize)
    requires
        i < t@.len(),
        t@.len() + 16 < usize::MAX,
        full_at(t@, i as int),
    ensures
        r as int == full_end(t@, i as int),
        i < r <= t@.len(),
{
    let a = full_month_len_exec(t, i + 5);
    let ds = i + 6 + a;
    ds + short_len_exec(t, ds)
}

fn md_end_exec(t: &Vec<char>, i: usize) -> (r: usize)
    requires
        i < t@.len(),
        t@.len() + 16 < usize::MAX,
        md_at(t@, i as int),
    ensures
        r as int == md_end(t@, i as int),
        i < r <= t@.len(),
{
    let a = md_month_len_exec(t, i);
    let q = i + a + 1;
    let ds = q + space_len_exec(t, q);
    let e = ds + short_len_exec(t, ds);
    if e < t.len() && (t[e] == '.' || t[e] == '일') {
        e + 1
    } else {
        e
    }
}

/// The last valid full date among the successive matches of `t`.
fn last_full_exec(t: &Vec<char>) -> (r: Option<Date>)
    requires
        t@.len() + 16 < usize::MAX,
    ensures
        r == last_full_from(t@, 0),
{
    let mut p: usize = 0;
    let mut last: Option<Date> = None;
    while p < t.len()
        invariant
            t@.len() + 16 < usize::MAX,
            p <= t@.len(),
            or_else(last_full_from(t@, p as int), last) == last_full_from(t@, 0),
        decreases t@.len() - p,
    {
        if full_at_exec(t, p) {
            let d = full_date_exec(t, p);
            if d.is_some() {
                last = d;
            }
            p = full_end_exec(t, p);
        } else {
            p = p + 1;
        }
    }
    last
}

/// The last valid month-day date among the successive matches of `t`.
fn last_md_exec(t: &Vec<char>, year: i32) -> (r: Option<Date>)
    requires
        t@.len() + 16 < usize::MAX,
    ensures
        r == last_md_from(t@, 0, year as int),
{
    let mut p: usize = 0;
    let mut last: Option<Date> = None;
    while p < t.len()
        invariant
            t@.len() + 16 < usize::MAX,
            p <= t@.len(),
            or_else(last_md_from(t@, p as int, year as int), last) == last_md_from(t@, 0, year as int),
        decreases t@.len() - p,
    {
        if md_month_len_exec(t, p) > 0 {
            let d = md_date_exec(t, p, year);
            if d.is_some() {
                last = d;
            }
            p = md_end_exec(t, p);
        } else {
            p = p + 1;
        }
    }
    last
}

fn sub_chars(t: &Vec<char>, a: usize, b: usize) -> (r: Vec<char>)
    requires
        a <= b <= t@.len(),
    ensures
        r@ == t@.subrange(a as int, b as int),
{
    let mut out: Vec<char> = Vec::new();
    let mut i: usize = a;
    while i < b
        invariant
            a <= i <= b <= t@.len(),
            out@ == t@.subrange(a as int, i as int),
        decreases b - i,
    {
        out.push(t[i]);
        assert(out@ =~= t@.subrange(a as int, i + 1));
        i = i + 1;
    }
    out
}

fn keyword_date_exec(title: &str, t: &Vec<char>, kw: &str, year: i32) -> (r: Option<Date>)
    requires
        t@ == title@,
        t@.len() + 16 < usize::MAX,
    ensures
        r == keyword_date(title@, kw@, year as int),
{
    match find_chars(title, kw) {
        None => None,
        Some(p) => {
            proof {
                let q = choose|q: int| first_occurrence(title@, kw@, q);
                lemma_first_occurrence_unique(title@, kw@, p as int, q);
            }
            let start = if p >= WINDOW { p - WINDOW } else { 0 };
            let region = sub_chars(t, start, p);
            window_date_exec(&region, year)
        },
    }
}

/// The deadline of `title`, with month-day tokens read in `reference_year`.
pub fn extract_deadline_for_year(title: &str, reference_year: i32) -> (r: Option<Date>)
    requires
        title@.len() + 16 < usize::MAX,
    ensures
        r == deadline_of(title@, reference_year as int),
{
    let t = chars_of(title);
    let a = keyword_date_exec(title, &t, "까지", reference_year);
    if a.is_some() {
        return a;
    }
    let b = keyword_date_exec(title, &t, "마감", reference_year);
    if b.is_some() {
        return b;
    }
    let c = keyword_date_exec(title, &t, "이내", reference_year);
    if c.is_some() {
        return c;
    }
    let f = last_full_exec(&t);
    if f.is_some() {
        return f;
    }
    last_md_exec(&t, reference_year)
}

/// The deadline of `title`, with month-day tokens read in the current
/// local year.
pub fn extract_deadline(title: &str) -> (r: Option<Date>)
    requires
        title@.len() + 16 < usize::MAX,
    ensures
        exists|y: i32| r == deadline_of(title@, y as int),
{
    let year = local_year();
    extract_deadline_for_year(title, year)
}

} // verus!
