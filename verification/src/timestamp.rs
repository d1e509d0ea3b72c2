//! A minimal RFC 3339 timestamp reader: `YYYY-MM-DDTHH:MM:SS[.frac][Z|±hh:mm]`
//! to Unix seconds. A `±hh:mm` zone offset is applied (an offset in another
//! form is not); the fraction is ignored.
use vstd::prelude::*;

use crate::text::chars_of;

verus! {

// ---------------------------------------------------------------------------
// Character-level specifications
// ---------------------------------------------------------------------------

/// Unicode white space (what `char::is_whitespace` accepts).
pub open spec fn is_ws(c: char) -> bool {
    ||| c == '\t' || c == '\n' || c == '\x0B' || c == '\x0C' || c == '\r' || c == ' '
    ||| c == '\u{85}' || c == '\u{A0}' || c == '\u{1680}'
    ||| ('\u{2000}' <= c && c <= '\u{200A}')
    ||| c == '\u{2028}' || c == '\u{2029}' || c == '\u{202F}' || c == '\u{205F}' || c == '\u{3000}'
}

/// `s` without leading white space.
pub open spec fn trim_start(s: Seq<char>) -> Seq<char>
    decreases s.len(),
{
    if s.len() > 0 && is_ws(s[0]) {
        trim_start(s.drop_first())
    } else {
        s
    }
}

/// `s` without trailing white space.
pub open spec fn trim_end(s: Seq<char>) -> Seq<char>
    decreases s.len(),
{
    if s.len() > 0 && is_ws(s.last()) {
        trim_end(s.drop_last())
    } else {
        s
    }
}

/// `s` without trailing `Z`s.
pub open spec fn trim_end_z(s: Seq<char>) -> Seq<char>
    decreases s.len(),
{
    if s.len() > 0 && s.last() == 'Z' {
        trim_end_z(s.drop_last())
    } else {
        s
    }
}

/// The position of the first `c` in `s`.
pub open spec fn find(s: Seq<char>, c: char) -> Option<int>
    decreases s.len(),
{
    if s.len() == 0 {
        None
    } else if s[0] == c {
        Some(0)
    } else {
        match find(s.drop_first(), c) {
            Some(i) => Some(i + 1),
            None => None,
        }
    }
}

/// The part of `s` before the first `c` (all of `s` when there is none).
pub open spec fn before(s: Seq<char>, c: char) -> Seq<char> {
    match find(s, c) {
        Some(i) => s.take(i),
        None => s,
    }
}

/// The part of `s` after the first `c`, if there is one.
pub open spec fn after(s: Seq<char>, c: char) -> Option<Seq<char>> {
    match find(s, c) {
        Some(i) => Some(s.skip(i + 1)),
        None => None,
    }
}

pub open spec fn is_digit(c: char) -> bool {
    '0' <= c && c <= '9'
}

/// The value of a string of decimal digits.
pub open spec fn digits_value(s: Seq<char>) -> int
    decreases s.len(),
{
    if s.len() == 0 {
        0
    } else {
        digits_value(s.drop_last()) * 10 + (s.last() as int - '0' as int)
    }
}

/// `s` without its leading sign, if it has one.
pub open spec fn unsigned_part(s: Seq<char>) -> Seq<char> {
    if s.len() > 0 && (s[0] == '+' || s[0] == '-') {
        s.drop_first()
    } else {
        s
    }
}

/// Every character of `s` is a decimal digit.
pub open spec fn all_digits(s: Seq<char>) -> bool {
    forall|i: int| 0 <= i < s.len() ==> is_digit(#[trigger] s[i])
}

/// What `str::parse::<i64>` gives: an optional sign and at least one
/// decimal digit, within the range of `i64`.
pub open spec fn parse_i64(s: Seq<char>) -> Option<int> {
    let digits = unsigned_part(s);
    if s.len() == 0 || digits.len() == 0 || !all_digits(digits) {
        None
    } else {
        let v = if s[0] == '-' {
            -digits_value(digits)
        } else {
            digits_value(digits)
        };
        if i64::MIN <= v <= i64::MAX {
            Some(v)
        } else {
            None
        }
    }
}

/// The date and time fields of a timestamp: year, month, day, hour, minute,
/// second.
pub open spec fn timestamp_fields(s: Seq<char>) -> Option<(int, int, int, int, int, int)> {
    let t = trim_end(trim_start(s));
    match find(t, 'T') {
        None => None,
        Some(tp) => {
            let date = t.take(tp);
            let time = t.skip(tp + 1);
            let time_str = before(before(trim_end_z(time), '+'), '-');
            let hms = before(time_str, '.');
            match (after(date, '-'), after(hms, ':')) {
                (Some(d1), Some(t1)) => match (after(d1, '-'), after(t1, ':')) {
                    (Some(d2), Some(t2)) => match (
                        parse_i64(before(date, '-')),
                        parse_i64(before(d1, '-')),
                        parse_i64(before(d2, '-')),
                        parse_i64(before(hms, ':')),
                        parse_i64(before(t1, ':')),
                        parse_i64(before(t2, ':')),
                    ) {
                        (Some(y), Some(mo), Some(d), Some(h), Some(mi), Some(se)) => Some((y, mo, d, h, mi, se)),
                        _ => None,
                    },
                    _ => None,
                },
                _ => None,
            }
        },
    }
}

// ---------------------------------------------------------------------------
// Calendar
// ---------------------------------------------------------------------------

pub open spec fn is_leap(y: int) -> bool {
    (y % 4 == 0 && y % 100 != 0) || y % 400 == 0
}

/// The days in `year` up to `1970` counting up: the days of the years from
/// 1970 before `year` (none when `year` is 1970 or earlier).
pub open spec fn days_before_year(year: int) -> int
    decreases year - 1970,
{
    if year <= 1970 {
        0
    } else {
        days_before_year(year - 1) + if is_leap(year - 1) {
            366int
        } else {
            365int
        }
    }
}

/// The length of month `m` (0-based) of `year`; 30 past December.
pub open spec fn month_len(year: int, m: int) -> int {
    if m == 1 {
        if is_leap(year) {
            29
        } else {
            28
        }
    } else if m == 3 || m == 5 || m == 8 || m == 10 {
        30
    } else if 0 <= m < 12 {
        31
    } else {
        30
    }
}

/// The days of the first `k` months of `year`.
pub open spec fn days_before_month(year: int, k: int) -> int
    decreases k,
{
    if k <= 0 {
        0
    } else {
        days_before_month(year, k - 1) + month_len(year, k - 1)
    }
}

/// The day count of a date (day 1 of January 1970 is 0).
pub open spec fn day_count(y: int, mo: int, d: int) -> int {
    days_before_year(y) + days_before_month(y, mo - 1) + d - 1
}

/// The hours and minutes of an offset `hh:mm`, and whether it is west of
/// UTC (`neg`).
pub open spec fn offset_parts(off: Seq<char>, neg: bool) -> Option<(int, int, bool)> {
    match (parse_i64(before(off, ':')), after(off, ':')) {
        (Some(h), Some(m)) => match parse_i64(m) {
            Some(mi) => Some((h, mi, neg)),
            None => None,
        },
        _ => None,
    }
}

/// The zone an offset text stands for: `hh:mm` east or west of UTC
/// (`neg`); an offset that does not read as `hh:mm` is not applied, and the
/// time is read as UTC.
pub open spec fn offset_or_utc(off: Seq<char>, neg: bool) -> (int, int, bool) {
    match offset_parts(off, neg) {
        Some(z) => z,
        None => (0, 0, false),
    }
}

/// The zone of the time part of a timestamp: none after the seconds (or
/// `Z`) is UTC; else `+hh:mm` east or `-hh:mm` west of it (see
/// `offset_or_utc`).
pub open spec fn zone_parts(time: Seq<char>) -> Option<(int, int, bool)> {
    let tz = trim_end_z(time);
    match after(tz, '+') {
        Some(off) => Some(offset_or_utc(off, false)),
        None => match after(tz, '-') {
            Some(off) => Some(offset_or_utc(off, true)),
            None => Some((0, 0, false)),
        },
    }
}

/// The zone of a timestamp, if it has a time part.
pub open spec fn zone_of(s: Seq<char>) -> Option<(int, int, bool)> {
    let t = trim_end(trim_start(s));
    match find(t, 'T') {
        Some(tp) => zone_parts(t.skip(tp + 1)),
        None => None,
    }
}

/// The seconds a zone is ahead of UTC.
pub open spec fn offset_seconds(z: (int, int, bool)) -> int {
    if z.2 {
        -(z.0 * 3600 + z.1 * 60)
    } else {
        z.0 * 3600 + z.1 * 60
    }
}

/// The local seconds of the date and time fields, as if they were UTC.
pub open spec fn local_seconds(y: int, mo: int, d: int, h: int, mi: int, se: int) -> int {
    day_count(y, mo, d) * 86400 + h * 3600 + mi * 60 + se
}

/// The Unix seconds of the timestamp, if it parses: its local time less
/// its zone's offset from UTC.
pub open spec fn rfc3339_seconds(s: Seq<char>) -> Option<int> {
    match (timestamp_fields(s), zone_of(s)) {
        (Some((y, mo, d, h, mi, se)), Some(z)) => Some(local_seconds(y, mo, d, h, mi, se) - offset_seconds(z)),
        _ => None,
    }
}

pub open spec fn in_i64(v: int) -> bool {
    i64::MIN <= v <= i64::MAX
}

/// The timestamp can be read without overflowing `i64`: when its fields
/// and its zone parse, the month is at least 1 and every intermediate of
/// the computation fits. (A month of 0 would make the month loop run past `usize::MAX`.)
pub open spec fn rfc3339_in_range(s: Seq<char>) -> bool {
    match (timestamp_fields(s), zone_of(s)) {
        (Some((y, mo, d, h, mi, se)), Some(z)) => {
            let days = day_count(y, mo, d);
            &&& mo >= 1
            &&& in_i64(d - 1)
            &&& days_before_year(y) + days_before_month(y, mo - 1) <= i64::MAX
            &&& in_i64(days)
            &&& in_i64(days * 86400)
            &&& in_i64(h * 3600)
            &&& in_i64(mi * 60)
            &&& in_i64(days * 86400 + h * 3600)
            &&& in_i64(days * 86400 + h * 3600 + mi * 60)
            &&& in_i64(days * 86400 + h * 3600 + mi * 60 + se)
            &&& in_i64(z.0 * 3600)
            &&& in_i64(z.1 * 60)
            &&& in_i64(z.0 * 3600 + z.1 * 60)
            &&& in_i64(days * 86400 + h * 3600 + mi * 60 + se - offset_seconds(z))
        },
        _ => true,
    }
}

// ---------------------------------------------------------------------------
// Lemmas
// ---------------------------------------------------------------------------

proof fn lemma_days_before_year_monotone(a: int, b: int)
    requires
        a <= b,
    ensures
        days_before_year(a) <= days_before_year(b),
        days_before_year(a) >= 0,
    decreases b - a,
{
    if a < b {
        lemma_days_before_year_monotone(a, b - 1);
    } else {
        lemma_days_before_year_nonneg(a);
    }
}

proof fn lemma_days_before_year_nonneg(a: int)
    ensures
        days_before_year(a) >= 0,
    decreases a - 1970,
{
    if a > 1970 {
        lemma_days_before_year_nonneg(a - 1);
    }
}

proof fn lemma_days_before_month_nonneg(y: int, a: int)
    requires
        0 <= a,
    ensures
        days_before_month(y, a) >= 0,
    decreases a,
{
    if a > 0 {
        lemma_days_before_month_nonneg(y, a - 1);
    }
}

proof fn lemma_days_before_month_monotone(y: int, a: int, b: int)
    requires
        0 <= a <= b,
    ensures
        0 <= days_before_month(y, a) <= days_before_month(y, b),
    decreases b - a,
{
    if a < b {
        lemma_days_before_month_monotone(y, a, b - 1);
    } else {
        lemma_days_before_month_nonneg(y, a);
    }
}

// ---------------------------------------------------------------------------
// Executable pieces
// ---------------------------------------------------------------------------

fn is_ws_exec(c: char) -> (r: bool)
    ensures
        r == is_ws(c),
{
    c == '\t' || c == '\n' || c == '\x0B' || c == '\x0C' || c == '\r' || c == ' ' || c == '\u{85}' || c == '\u{A0}'
        || c == '\u{1680}' || ('\u{2000}' <= c && c <= '\u{200A}') || c == '\u{2028}' || c == '\u{2029}' || c
        == '\u{202F}' || c == '\u{205F}' || c == '\u{3000}'
}

/// The characters `s[a..b]`.
pub(crate) fn slice_chars(s: &Vec<char>, a: usize, b: usize) -> (r: Vec<char>)
    requires
        a <= b <= s.len(),
    ensures
        r@ == s@.subrange(a as int, b as int),
{
    let mut r: Vec<char> = Vec::new();
    let mut i = a;
    while i < b
        invariant
            a <= i <= b,
            b <= s.len(),
            r@ == s@.subrange(a as int, i as int),
        decreases b - i,
    {
        r.push(s[i]);
        assert(r@ =~= s@.subrange(a as int, i as int + 1));
        i = i + 1;
    }
    r
}

pub(crate) fn trim_chars(s: &Vec<char>) -> (r: Vec<char>)
    ensures
        r@ == trim_end(trim_start(s@)),
{
    let mut a: usize = 0;
    assert(s@.skip(0) =~= s@);
    while a < s.len() && is_ws_exec(s[a])
        invariant
            a <= s.len(),
            trim_start(s@) == trim_start(s@.skip(a as int)),
        decreases s.len() - a,
    {
        assert(s@.skip(a as int).drop_first() =~= s@.skip(a as int + 1));
        a = a + 1;
    }
    let ghost ts = s@.skip(a as int);
    assert(trim_start(s@) == ts);
    let mut b: usize = s.len();
    while b > a && is_ws_exec(s[b - 1])
        invariant
            a <= b <= s.len(),
            ts == s@.skip(a as int),
            trim_end(ts) == trim_end(s@.subrange(a as int, b as int)),
        decreases b - a,
    {
        assert(s@.subrange(a as int, b as int).drop_last() =~= s@.subrange(a as int, b as int - 1));
        b = b - 1;
    }
    assert(ts =~= s@.subrange(a as int, s.len() as int));
    slice_chars(s, a, b)
}

fn trim_z(s: &Vec<char>) -> (r: Vec<char>)
    ensures
        r@ == trim_end_z(s@),
{
    let mut b: usize = s.len();
    assert(s@.take(s.len() as int) =~= s@);
    while b > 0 && s[b - 1] == 'Z'
        invariant
            b <= s.len(),
            trim_end_z(s@) == trim_end_z(s@.take(b as int)),
        decreases b,
    {
        assert(s@.take(b as int).drop_last() =~= s@.take(b as int - 1));
        b = b - 1;
    }
    slice_chars(s, 0, b)
}

fn find_exec(s: &Vec<char>, c: char) -> (r: Option<usize>)
    ensures
        match r {
            Some(i) => find(s@, c) == Some(i as int) && i < s.len(),
            None => find(s@, c) is None,
        },
{
    let mut i: usize = 0;
    while i < s.len()
        invariant
            i <= s.len(),
            forall|j: int| 0 <= j < i ==> s@[j] != c,
        decreases s.len() - i,
    {
        if s[i] == c {
            proof {
                lemma_find_at(s@, c, i as int);
            }
            return Some(i);
        }
        i = i + 1;
    }
    proof {
        lemma_find_none(s@, c);
    }
    None
}

proof fn lemma_find_at(s: Seq<char>, c: char, i: int)
    requires
        0 <= i < s.len(),
        s[i] == c,
        forall|j: int| 0 <= j < i ==> s[j] != c,
    ensures
        find(s, c) == Some(i),
    decreases i,
{
    if i > 0 {
        lemma_find_at(s.drop_first(), c, i - 1);
    }
}

proof fn lemma_find_none(s: Seq<char>, c: char)
    requires
        forall|j: int| 0 <= j < s.len() ==> s[j] != c,
    ensures
        find(s, c) is None,
    decreases s.len(),
{
    if s.len() > 0 {
        lemma_find_none(s.drop_first(), c);
    }
}

fn before_exec(s: &Vec<char>, c: char) -> (r: Vec<char>)
    ensures
        r@ == before(s@, c),
{
    match find_exec(s, c) {
        Some(i) => slice_chars(s, 0, i),
        None => slice_chars(s, 0, s.len()),
    }
}

fn after_exec(s: &Vec<char>, c: char) -> (r: Option<Vec<char>>)
    ensures
        match r {
            Some(v) => after(s@, c) == Some(v@),
            None => after(s@, c) is None,
        },
{
    match find_exec(s, c) {
        Some(i) => Some(slice_chars(s, i + 1, s.len())),
        None => None,
    }
}

proof fn lemma_digits_value_monotone(s: Seq<char>, k: int)
    requires
        0 <= k <= s.len(),
        forall|i: int| 0 <= i < s.len() ==> is_digit(#[trigger] s[i]),
    ensures
        0 <= digits_value(s.take(k)) <= digits_value(s),
    decreases s.len() - k,
{
    if k < s.len() {
        lemma_digits_value_monotone(s, k + 1);
        assert(s.take(k + 1).drop_last() =~= s.take(k));
        assert(s.take(k + 1).last() == s[k]);
    } else {
        assert(s.take(k) =~= s);
        lemma_digits_value_nonneg(s);
    }
}

proof fn lemma_digits_value_nonneg(s: Seq<char>)
    requires
        forall|i: int| 0 <= i < s.len() ==> is_digit(#[trigger] s[i]),
    ensures
        digits_value(s) >= 0,
    decreases s.len(),
{
    if s.len() > 0 {
        lemma_digits_value_nonneg(s.drop_last());
        assert(is_digit(s[s.len() - 1]));
    }
}

/// Reads a decimal integer the way `str::parse::<i64>` does.
pub fn parse_i64_exec(s: &Vec<char>) -> (r: Option<i64>)
    ensures
        match r {
            Some(v) => parse_i64(s@) == Some(v as int),
            None => parse_i64(s@) is None,
        },
{
    if s.len() == 0 {
        return None;
    }
    let neg = s[0] == '-';
    let start: usize = if s[0] == '+' || s[0] == '-' {
        1
    } else {
        0
    };
    let ghost digits = unsigned_part(s@);
    assert(digits =~= s@.skip(start as int));
    if start == s.len() {
        return None;
    }
    let mut i: usize = start;
    while i < s.len()
        invariant
            start <= i <= s.len(),
            digits == s@.skip(start as int),
            s.len() > 0,
            neg == (s@[0] == '-'),
            digits == unsigned_part(s@),
            forall|j: int| start <= j < i ==> is_digit(#[trigger] s@[j]),
        decreases s.len() - i,
    {
        if !('0' <= s[i] && s[i] <= '9') {
            proof {
                assert(digits[i - start] == s@[i as int]);
                assert(!is_digit(digits[i - start]));
            }
            return None;
        }
        i = i + 1;
    }
    assert(all_digits(digits)) by {
        assert forall|j: int| 0 <= j < digits.len() implies is_digit(#[trigger] digits[j]) by {
            assert(digits[j] == s@[j + start]);
        }
    }
    // The magnitude, given up on once it passes 2^63 (beyond either bound).
    let limit: i128 = 9223372036854775808;
    let mut acc: i128 = 0;
    let mut k: usize = start;
    while k < s.len()
        invariant
            start <= k <= s.len(),
            limit == 9223372036854775808,
            digits == s@.skip(start as int),
            s.len() > 0,
            neg == (s@[0] == '-'),
            digits == unsigned_part(s@),
            all_digits(digits),
            acc == digits_value(digits.take(k - start)),
            0 <= acc <= limit,
        decreases s.len() - k,
    {
        assert(digits.take(k - start + 1).drop_last() =~= digits.take(k - start));
        assert(digits.take(k - start + 1).last() == s@[k as int]);
        assert(is_digit(digits[k - start]));
        let d = (s[k] as u32 - '0' as u32) as i128;
        acc = acc * 10 + d;
        if acc > limit {
            proof {
                lemma_digits_value_monotone(digits, k - start + 1);
            }
            return None;
        }
        k = k + 1;
    }
    assert(digits.take(k - start) =~= digits);
    if neg {
        Some((-acc) as i64)
    } else if acc < limit {
        Some(acc as i64)
    } else {
        None
    }
}

proof fn lemma_divides_negation(y: int, n: int)
    requires
        n > 0,
    ensures
        (y % n == 0) == ((-y) % n == 0),
{
    vstd::arithmetic::div_mod::lemma_fundamental_div_mod(y, n);
    vstd::arithmetic::div_mod::lemma_fundamental_div_mod(-y, n);
    if y % n == 0 {
        vstd::arithmetic::div_mod::lemma_mod_multiples_vanish(-2 * (y / n), y, n);
        assert(-y == y + n * (-2 * (y / n))) by (nonlinear_arith)
            requires y == n * (y / n), n > 0;
    }
    if (-y) % n == 0 {
        assert(y == -y + n * (-2 * ((-y) / n))) by (nonlinear_arith)
            requires -y == n * ((-y) / n), n > 0;
        vstd::arithmetic::div_mod::lemma_mod_multiples_vanish(-2 * ((-y) / n), -y, n);
    }
}

fn is_leap_exec(y: i64) -> (r: bool)
    ensures
        r == is_leap(y as int),
{
    // Divisibility does not depend on the sign, so test the magnitude.
    let a: u64 = if y < 0 {
        (0 - (y as i128)) as u64
    } else {
        y as u64
    };
    proof {
        lemma_divides_negation(y as int, 4);
        lemma_divides_negation(y as int, 100);
        lemma_divides_negation(y as int, 400);
    }
    (a % 4 == 0 && a % 100 != 0) || a % 400 == 0
}

fn month_len_exec(year: i64, m: i64) -> (r: i64)
    ensures
        r == month_len(year as int, m as int),
{
    if m == 1 {
        if is_leap_exec(year) {
            29
        } else {
            28
        }
    } else if m == 3 || m == 5 || m == 8 || m == 10 {
        30
    } else if 0 <= m && m < 12 {
        31
    } else {
        30
    }
}

/// The days from 1970-01-01 to the first day of `year`, and then to the
/// first day of month `month` (1-based) of it.
fn days_before(year: i64, month: i64) -> (r: i64)
    requires
        month >= 1,
        days_before_year(year as int) + days_before_month(year as int, month - 1) <= i64::MAX,
    ensures
        r == days_before_year(year as int) + days_before_month(year as int, month - 1),
{
    let mut days: i64 = 0;
    let mut y: i64 = 1970;
    while y < year
        invariant
            1970 <= y,
            y <= year || y == 1970,
            month >= 1,
            days == days_before_year(y as int),
            days_before_year(year as int) + days_before_month(year as int, month - 1) <= i64::MAX,
        decreases year - y,
    {
        proof {
            lemma_days_before_year_monotone(y + 1, year as int);
            lemma_days_before_month_monotone(year as int, 0, month - 1);
        }
        days = days + if is_leap_exec(y) {
            366
        } else {
            365
        };
        y = y + 1;
    }
    proof {
        if year < 1970 {
            assert(days_before_year(year as int) == 0);
        }
    }
    let mut m: i64 = 0;
    while m < month - 1
        invariant
            0 <= m <= month - 1,
            days == days_before_year(year as int) + days_before_month(year as int, m as int),
            days_before_year(year as int) + days_before_month(year as int, month - 1) <= i64::MAX,
        decreases month - 1 - m,
    {
        proof {
            lemma_days_before_year_nonneg(year as int);
            lemma_days_before_month_monotone(year as int, m + 1, month - 1);
        }
        days = days + month_len_exec(year, m);
        m = m + 1;
    }
    days
}

fn fields_exec(s: &str) -> (r: Option<(i64, i64, i64, i64, i64, i64)>)
    ensures
        match r {
            Some(f) => timestamp_fields(s@) == Some(
                (f.0 as int, f.1 as int, f.2 as int, f.3 as int, f.4 as int, f.5 as int),
            ),
            None => timestamp_fields(s@) is None,
        },
{
    let all = chars_of(s);
    let t = trim_chars(&all);
    let tp = match find_exec(&t, 'T') {
        Some(i) => i,
        None => return None,
    };
    let date = slice_chars(&t, 0, tp);
    let time = slice_chars(&t, tp + 1, t.len());
    assert(date@ =~= t@.take(tp as int));
    assert(time@ =~= t@.skip(tp + 1));
    let tz = trim_z(&time);
    let no_plus = before_exec(&tz, '+');
    let time_str = before_exec(&no_plus, '-');
    let hms = before_exec(&time_str, '.');
    let d1 = match after_exec(&date, '-') {
        Some(v) => v,
        None => return None,
    };
    let t1 = match after_exec(&hms, ':') {
        Some(v) => v,
        None => return None,
    };
    let d2 = match after_exec(&d1, '-') {
        Some(v) => v,
        None => return None,
    };
    let t2 = match after_exec(&t1, ':') {
        Some(v) => v,
        None => return None,
    };
    let year = match parse_i64_exec(&before_exec(&date, '-')) {
        Some(v) => v,
        None => return None,
    };
    let month = match parse_i64_exec(&before_exec(&d1, '-')) {
        Some(v) => v,
        None => return None,
    };
    let day = match parse_i64_exec(&before_exec(&d2, '-')) {
        Some(v) => v,
        None => return None,
    };
    let hour = match parse_i64_exec(&before_exec(&hms, ':')) {
        Some(v) => v,
        None => return None,
    };
    let min = match parse_i64_exec(&before_exec(&t1, ':')) {
        Some(v) => v,
        None => return None,
    };
    let sec = match parse_i64_exec(&before_exec(&t2, ':')) {
        Some(v) => v,
        None => return None,
    };
    Some((year, month, day, hour, min, sec))
}

fn offset_exec(off: &Vec<char>, neg: bool) -> (r: Option<(i64, i64, bool)>)
    ensures
        match r {
            Some(z) => offset_parts(off@, neg) == Some((z.0 as int, z.1 as int, z.2)),
            None => offset_parts(off@, neg) is None,
        },
{
    let h = match parse_i64_exec(&before_exec(off, ':')) {
        Some(v) => v,
        None => return None,
    };
    let m = match after_exec(off, ':') {
        Some(v) => v,
        None => return None,
    };
    match parse_i64_exec(&m) {
        Some(mi) => Some((h, mi, neg)),
        None => None,
    }
}

fn zone_exec(s: &str) -> (r: Option<(i64, i64, bool)>)
    ensures
        match r {
            Some(z) => zone_of(s@) == Some((z.0 as int, z.1 as int, z.2)),
            None => zone_of(s@) is None,
        },
{
    let all = chars_of(s);
    let t = trim_chars(&all);
    let tp = match find_exec(&t, 'T') {
        Some(i) => i,
        None => return None,
    };
    let time = slice_chars(&t, tp + 1, t.len());
    assert(time@ =~= t@.skip(tp + 1));
    let tz = trim_z(&time);
    let z = match after_exec(&tz, '+') {
        Some(off) => offset_exec(&off, false),
        None => match after_exec(&tz, '-') {
            Some(off) => offset_exec(&off, true),
            None => Some((0, 0, false)),
        },
    };
    match z {
        Some(z) => Some(z),
        None => Some((0, 0, false)),
    }
}

/// Reads an RFC 3339 timestamp (`YYYY-MM-DDTHH:MM:SS`, with an optional
/// fraction, which is ignored, and zone `Z` or `±hh:mm`, which is applied;
/// an offset in another form is not applied) to Unix seconds; `None` where
/// a field is missing or is not a number.
pub fn parse_rfc3339_seconds(s: &str) -> (r: Option<i64>)
    requires
        rfc3339_in_range(s@),
    ensures
        match r {
            Some(v) => rfc3339_seconds(s@) == Some(v as int),
            None => rfc3339_seconds(s@) is None,
        },
{
    let (year, month, day, hour, min, sec) = match fields_exec(s) {
        Some(f) => f,
        None => return None,
    };
    let (oh, om, neg) = match zone_exec(s) {
        Some(z) => z,
        None => return None,
    };
    let days = days_before(year, month) + (day - 1);
    let local = days * 86400 + hour * 3600 + min * 60 + sec;
    let off = oh * 3600 + om * 60;
    if neg {
        Some(local + off)
    } else {
        Some(local - off)
    }
}

/// Whether a timestamp can be read without overflowing (see
/// `rfc3339_in_range`). Like the reading itself, it counts the years and
/// months one by one.
pub fn timestamp_fits(s: &str) -> (r: bool)
    ensures
        r == rfc3339_in_range(s@),
{
    let (year, month, day, hour, min, sec) = match fields_exec(s) {
        Some(f) => f,
        None => return true,
    };
    let (oh, om, neg) = match zone_exec(s) {
        Some(z) => z,
        None => return true,
    };
    if month < 1 {
        return false;
    }
    let limit: i128 = 9223372036854775807;
    let mut days: i128 = 0;
    let mut y: i64 = 1970;
    while y < year
        invariant
            1970 <= y,
            y <= year || y == 1970,
            month >= 1,
            timestamp_fields(s@) == Some(
                (year as int, month as int, day as int, hour as int, min as int, sec as int),
            ),
            zone_of(s@) == Some((oh as int, om as int, neg)),
            days == days_before_year(y as int),
            0 <= days <= limit,
            limit == i64::MAX,
        decreases year - y,
    {
        days = days + if is_leap_exec(y) {
            366
        } else {
            365
        };
        y = y + 1;
        if days > limit {
            proof {
                lemma_days_before_year_monotone(y as int, year as int);
                lemma_days_before_month_nonneg(year as int, month - 1);
            }
            return false;
        }
    }
    proof {
        if year < 1970 {
            assert(days_before_year(year as int) == 0);
        }
        lemma_days_before_year_nonneg(year as int);
    }
    let mut m: i64 = 0;
    while m < month - 1
        invariant
            0 <= m <= month - 1,
            timestamp_fields(s@) == Some(
                (year as int, month as int, day as int, hour as int, min as int, sec as int),
            ),
            zone_of(s@) == Some((oh as int, om as int, neg)),
            days == days_before_year(year as int) + days_before_month(year as int, m as int),
            0 <= days <= limit,
            limit == i64::MAX,
        decreases month - 1 - m,
    {
        days = days + month_len_exec(year, m) as i128;
        m = m + 1;
        if days > limit {
            proof {
                lemma_days_before_month_monotone(year as int, m as int, month - 1);
            }
            return false;
        }
    }
    let min_v: i128 = -9223372036854775808;
    let d1 = day as i128 - 1;
    if d1 < min_v {
        return false;
    }
    let total_days = days + d1;
    if total_days < min_v || total_days > limit {
        return false;
    }
    let a = total_days * 86400;
    let b = hour as i128 * 3600;
    let c = min as i128 * 60;
    if a < min_v || a > limit || b < min_v || b > limit || c < min_v || c > limit {
        return false;
    }
    let ab = a + b;
    let abc = ab + c;
    let abcd = abc + sec as i128;
    if ab < min_v || ab > limit || abc < min_v || abc > limit || abcd < min_v || abcd > limit {
        return false;
    }
    let zh = oh as i128 * 3600;
    let zm = om as i128 * 60;
    if zh < min_v || zh > limit || zm < min_v || zm > limit {
        return false;
    }
    let z = zh + zm;
    if z < min_v || z > limit {
        return false;
    }
    let total = if neg {
        abcd + z
    } else {
        abcd - z
    };
    !(total < min_v || total > limit)
}

/// A point in time as whole seconds and nanoseconds since the Unix epoch.
#[derive(Clone, Copy, Debug, PartialEq, Eq, Structural)]
pub struct Timestamp {
    pub seconds: i64,
    pub nanos: i32,
}

/// Reads an RFC 3339 timestamp to whole seconds; `None` where it does not
/// parse.
pub fn parse_timestamp(s: &str) -> (r: Option<Timestamp>)
    requires
        rfc3339_in_range(s@),
    ensures
        match r {
            Some(ts) => rfc3339_seconds(s@) == Some(ts.seconds as int) && ts.nanos == 0,
            None => rfc3339_seconds(s@) is None,
        },
{
    match parse_rfc3339_seconds(s) {
        Some(secs) => Some(Timestamp { seconds: secs, nanos: 0 }),
        None => None,
    }
}

} // verus!
