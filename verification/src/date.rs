//! The date normalizer: parses a source-specific date string into the
//! library's canonical timestamp, a calendar date anchored at midnight UTC.

use vstd::prelude::*;

verus! {

/// A calendar date, the canonical timestamp of this library. The scraped
/// markup carries no time of day, so an item's instant is its date anchored
/// at midnight UTC; ordering dates therefore orders instants.
#[derive(Clone, Copy, PartialEq, Eq, Structural, Debug)]
pub struct Date {
    pub year: u32,
    pub month: u32,
    pub day: u32,
}

/// How a source spells the month in its date strings.
#[derive(Clone, Copy, PartialEq, Eq, Structural, Debug)]
pub enum MonthStyle {
    /// Three-letter month name, as in `Mar 5, 2024`.
    Abbreviated,
    /// Spelled-out month name, as in `March 5, 2024`.
    Full,
}

/// The date string did not match the source's expected pattern.
#[derive(Clone, Copy, PartialEq, Eq, Structural, Debug)]
pub struct DateParseError;

pub open spec fn is_leap_year(y: int) -> bool {
    y % 4 == 0 && (y % 100 != 0 || y % 400 == 0)
}

pub open spec fn days_in_month(y: int, m: int) -> int {
    if m == 2 {
        if is_leap_year(y) {
            29
        } else {
            28
        }
    } else if m == 4 || m == 6 || m == 9 || m == 11 {
        30
    } else {
        31
    }
}

pub open spec fn date_valid(d: Date) -> bool {
    &&& 1 <= d.year <= 9999
    &&& 1 <= d.month <= 12
    &&& 1 <= d.day <= days_in_month(d.year as int, d.month as int)
}

/// Chronological sort key: of two valid dates, the later one has the larger
/// key, and equal keys mean equal dates (`lemma_date_key_orders`).
pub open spec fn date_key(d: Date) -> int {
    d.year * 10000 + d.month * 100 + d.day
}

/// Law: on valid dates the sort key orders exactly as the calendar does —
/// later year, then later month, then later day — and equal keys mean the
/// same date; ordering keys therefore orders publication instants.
pub proof fn lemma_date_key_orders(a: Date, b: Date)
    requires
        date_valid(a),
        date_valid(b),
    ensures
        date_key(a) > date_key(b) <==> (a.year > b.year || (a.year == b.year && a.month > b.month)
            || (a.year == b.year && a.month == b.month && a.day > b.day)),
        date_key(a) == date_key(b) <==> a == b,
{
}

pub open spec fn month_abbrev(m: int) -> Seq<char> {
    if m == 1 { seq!['J', 'a', 'n'] }
    else if m == 2 { seq!['F', 'e', 'b'] }
    else if m == 3 { seq!['M', 'a', 'r'] }
    else if m == 4 { seq!['A', 'p', 'r'] }
    else if m == 5 { seq!['M', 'a', 'y'] }
    else if m == 6 { seq!['J', 'u', 'n'] }
    else if m == 7 { seq!['J', 'u', 'l'] }
    else if m == 8 { seq!['A', 'u', 'g'] }
    else if m == 9 { seq!['S', 'e', 'p'] }
    else if m == 10 { seq!['O', 'c', 't'] }
    else if m == 11 { seq!['N', 'o', 'v'] }
    else { seq!['D', 'e', 'c'] }
}

pub open spec fn month_full(m: int) -> Seq<char> {
    if m == 1 { seq!['J', 'a', 'n', 'u', 'a', 'r', 'y'] }
    else if m == 2 { seq!['F', 'e', 'b', 'r', 'u', 'a', 'r', 'y'] }
    else if m == 3 { seq!['M', 'a', 'r', 'c', 'h'] }
    else if m == 4 { seq!['A', 'p', 'r', 'i', 'l'] }
    else if m == 5 { seq!['M', 'a', 'y'] }
    else if m == 6 { seq!['J', 'u', 'n', 'e'] }
    else if m == 7 { seq!['J', 'u', 'l', 'y'] }
    else if m == 8 { seq!['A', 'u', 'g', 'u', 's', 't'] }
    else if m == 9 { seq!['S', 'e', 'p', 't', 'e', 'm', 'b', 'e', 'r'] }
    else if m == 10 { seq!['O', 'c', 't', 'o', 'b', 'e', 'r'] }
    else if m == 11 { seq!['N', 'o', 'v', 'e', 'm', 'b', 'e', 'r'] }
    else { seq!['D', 'e', 'c', 'e', 'm', 'b', 'e', 'r'] }
}

pub open spec fn month_name(m: int, style: MonthStyle) -> Seq<char> {
    match style {
        MonthStyle::Abbreviated => month_abbrev(m),
        MonthStyle::Full => month_full(m),
    }
}

/// The month number whose name (in the given style) is exactly `name`.
pub open spec fn month_of_name(name: Seq<char>, style: MonthStyle) -> Option<int> {
    if name == month_name(1, style) { Some(1) }
    else if name == month_name(2, style) { Some(2) }
    else if name == month_name(3, style) { Some(3) }
    else if name == month_name(4, style) { Some(4) }
    else if name == month_name(5, style) { Some(5) }
    else if name == month_name(6, style) { Some(6) }
    else if name == month_name(7, style) { Some(7) }
    else if name == month_name(8, style) { Some(8) }
    else if name == month_name(9, style) { Some(9) }
    else if name == month_name(10, style) { Some(10) }
    else if name == month_name(11, style) { Some(11) }
    else if name == month_name(12, style) { Some(12) }
    else { None }
}

pub open spec fn is_digit(c: char) -> bool {
    '0' <= c && c <= '9'
}

pub open spec fn digit_val(c: char) -> int {
    c as int - '0' as int
}

pub open spec fn all_digits(s: Seq<char>) -> bool {
    forall|i: int| 0 <= i < s.len() ==> is_digit(#[trigger] s[i])
}

/// The number a digit string denotes, most significant digit first.
pub open spec fn num_of_digits(s: Seq<char>) -> int
    decreases s.len(),
{
    if s.len() == 0 {
        0
    } else {
        num_of_digits(s.drop_last()) * 10 + digit_val(s.last())
    }
}

pub open spec fn pow10(n: nat) -> int
    decreases n,
{
    if n == 0 {
        1
    } else {
        10 * pow10((n - 1) as nat)
    }
}

pub proof fn lemma_num_of_digits_bounds(s: Seq<char>)
    requires
        all_digits(s),
    ensures
        0 <= num_of_digits(s) < pow10(s.len()),
    decreases s.len(),
{
    if s.len() > 0 {
        assert(all_digits(s.drop_last()));
        lemma_num_of_digits_bounds(s.drop_last());
        assert(0 <= digit_val(s.last()) <= 9);
    }
}

/// The grammar of a source date string: a month name, one space, a one- or
/// two-digit day, a comma, one space, a four-digit year, and nothing else.
/// The result is the denoted date when that date is valid on the calendar.
pub open spec fn parse_date_spec(s: Seq<char>, style: MonthStyle) -> Option<Date> {
    match s.index_of_first(' ') {
        None => None,
        Some(k) => {
            let name = s.take(k);
            let rest = s.skip(k + 1);
            match month_of_name(name, style) {
                None => None,
                Some(m) => match rest.index_of_first(',') {
                    None => None,
                    Some(j) => {
                        let day_digits = rest.take(j);
                        let tail = rest.skip(j + 1);
                        if 1 <= j <= 2 && all_digits(day_digits) && tail.len() == 5
                            && tail[0] == ' ' && all_digits(tail.skip(1)) {
                            let d = num_of_digits(day_digits);
                            let y = num_of_digits(tail.skip(1));
                            if 1 <= y && 1 <= d <= days_in_month(y, m) {
                                Some(Date { year: y as u32, month: m as u32, day: d as u32 })
                            } else {
                                None
                            }
                        } else {
                            None
                        }
                    },
                },
            }
        },
    }
}

pub proof fn lemma_parse_date_spec_valid(s: Seq<char>, style: MonthStyle)
    ensures
        parse_date_spec(s, style) matches Some(d) ==> date_valid(d),
{
    match s.index_of_first(' ') {
        None => {},
        Some(k) => {
            let rest = s.skip(k + 1);
            match rest.index_of_first(',') {
                None => {},
                Some(j) => {
                    let tail = rest.skip(j + 1);
                    if 1 <= j <= 2 && all_digits(rest.take(j)) && tail.len() == 5
                        && tail[0] == ' ' && all_digits(tail.skip(1)) {
                        lemma_num_of_digits_bounds(rest.take(j));
                        lemma_num_of_digits_bounds(tail.skip(1));
                        assert(tail.skip(1).len() == 4);
                        reveal_with_fuel(pow10, 5);
                        assert(pow10(4nat) == 10000);
                    }
                },
            }
        },
    }
}

/// The standard civil day count: days since 0000-03-01 of the proleptic
/// Gregorian calendar, computed era by era; the weekday falls out of it
/// modulo seven.
pub open spec fn day_number(d: Date) -> int {
    let y = if d.month <= 2 { d.year - 1 } else { d.year as int };
    let era = y / 400;
    let yoe = y - era * 400;
    let mp = if d.month > 2 { d.month - 3 } else { d.month + 9 };
    let doy = (153 * mp + 2) / 5 + d.day - 1;
    let doe = yoe * 365 + yoe / 4 + doy - yoe / 100;
    era * 146097 + doe
}

/// Day of the week, 0 for Sunday through 6 for Saturday; day 0 of
/// `day_number`'s epoch was a Wednesday.
pub open spec fn weekday(d: Date) -> int {
    (day_number(d) + 3) % 7
}

pub open spec fn dow_name(w: int) -> Seq<char> {
    if w == 0 { seq!['S', 'u', 'n'] }
    else if w == 1 { seq!['M', 'o', 'n'] }
    else if w == 2 { seq!['T', 'u', 'e'] }
    else if w == 3 { seq!['W', 'e', 'd'] }
    else if w == 4 { seq!['T', 'h', 'u'] }
    else if w == 5 { seq!['F', 'r', 'i'] }
    else { seq!['S', 'a', 't'] }
}

pub open spec fn digit_char(n: int) -> char {
    if n == 0 { '0' }
    else if n == 1 { '1' }
    else if n == 2 { '2' }
    else if n == 3 { '3' }
    else if n == 4 { '4' }
    else if n == 5 { '5' }
    else if n == 6 { '6' }
    else if n == 7 { '7' }
    else if n == 8 { '8' }
    else { '9' }
}

pub open spec fn two_digits(n: int) -> Seq<char> {
    seq![digit_char(n / 10), digit_char(n % 10)]
}

pub open spec fn four_digits(n: int) -> Seq<char> {
    two_digits(n / 100) + two_digits(n % 100)
}

/// The fixed, parseable text in which the feed renders a publication
/// instant: an RFC 2822 date at midnight UTC, as in
/// `Tue, 05 Mar 2024 00:00:00 +0000`.
pub open spec fn rfc2822_spec(d: Date) -> Seq<char> {
    dow_name(weekday(d)) + seq![',', ' '] + two_digits(d.day as int) + seq![' ']
        + month_abbrev(d.month as int) + seq![' '] + four_digits(d.year as int)
        + seq![' ', '0', '0', ':', '0', '0', ':', '0', '0', ' ', '+', '0', '0', '0', '0']
}

fn digit_char_exec(n: u32) -> (c: char)
    requires
        n <= 9,
    ensures
        c == digit_char(n as int),
{
    if n == 0 { '0' }
    else if n == 1 { '1' }
    else if n == 2 { '2' }
    else if n == 3 { '3' }
    else if n == 4 { '4' }
    else if n == 5 { '5' }
    else if n == 6 { '6' }
    else if n == 7 { '7' }
    else if n == 8 { '8' }
    else { '9' }
}

fn push_two_digits(out: &mut Vec<char>, n: u32)
    requires
        n <= 99,
    ensures
        final(out)@ == old(out)@ + two_digits(n as int),
{
    out.push(digit_char_exec(n / 10));
    out.push(digit_char_exec(n % 10));
    assert(out@ =~= old(out)@ + two_digits(n as int));
}

fn dow_name_chars(w: u32) -> (v: Vec<char>)
    requires
        w <= 6,
    ensures
        v@ == dow_name(w as int),
{
    if w == 0 { vec!['S', 'u', 'n'] }
    else if w == 1 { vec!['M', 'o', 'n'] }
    else if w == 2 { vec!['T', 'u', 'e'] }
    else if w == 3 { vec!['W', 'e', 'd'] }
    else if w == 4 { vec!['T', 'h', 'u'] }
    else if w == 5 { vec!['F', 'r', 'i'] }
    else { vec!['S', 'a', 't'] }
}

fn weekday_exec(d: &Date) -> (w: u32)
    requires
        date_valid(*d),
    ensures
        w == weekday(*d),
        w <= 6,
{
    let y: u32 = if d.month <= 2 { d.year - 1 } else { d.year };
    let era: u32 = y / 400;
    let yoe: u32 = y - era * 400;
    let mp: u32 = if d.month > 2 { d.month - 3 } else { d.month + 9 };
    let doy: u32 = (153 * mp + 2) / 5 + d.day - 1;
    let doe: u32 = yoe * 365 + yoe / 4 + doy - yoe / 100;
    let dn: u32 = era * 146097 + doe;
    (dn + 3) % 7
}

/// Appends the characters of `s` to `out`.
pub fn push_all(out: &mut Vec<char>, s: &Vec<char>)
    ensures
        final(out)@ == old(out)@ + s@,
{
    let n = s.len();
    let mut i: usize = 0;
    while i < n
        invariant
            i <= n,
            n == s@.len(),
            out@ == old(out)@ + s@.take(i as int),
        decreases n - i,
    {
        out.push(s[i]);
        assert(old(out)@ + s@.take(i + 1) =~= (old(out)@ + s@.take(i as int)).push(s@[i as int]));
        i += 1;
    }
    assert(s@.take(n as int) =~= s@);
}

/// The RFC 2822 rendering of a valid date, as characters.
pub fn rfc2822_chars(d: &Date) -> (v: Vec<char>)
    requires
        date_valid(*d),
    ensures
        v@ == rfc2822_spec(*d),
{
    let mut out: Vec<char> = Vec::new();
    let dow = dow_name_chars(weekday_exec(d));
    push_all(&mut out, &dow);
    out.push(',');
    out.push(' ');
    push_two_digits(&mut out, d.day);
    out.push(' ');
    let mon = month_name_chars(d.month, MonthStyle::Abbreviated);
    push_all(&mut out, &mon);
    out.push(' ');
    push_two_digits(&mut out, d.year / 100);
    push_two_digits(&mut out, d.year % 100);
    let suffix = chars_of(" 00:00:00 +0000");
    proof {
        reveal_strlit(" 00:00:00 +0000");
        assert(suffix@ =~= seq![' ', '0', '0', ':', '0', '0', ':', '0', '0', ' ', '+', '0', '0', '0', '0']);
    }
    push_all(&mut out, &suffix);
    assert(out@ =~= rfc2822_spec(*d));
    out
}

/// Renders a valid date in the feed's fixed textual timestamp format.
pub fn format_rfc2822(d: &Date) -> (r: String)
    requires
        date_valid(*d),
    ensures
        r@ == rfc2822_spec(*d),
{
    let v = rfc2822_chars(d);
    chars_to_string(&v)
}

/// Relies on `String`'s `FromIterator` over `char`: collecting characters
/// yields the string of exactly those characters.
#[verifier::external_body]
pub fn chars_to_string(v: &Vec<char>) -> (r: String)
    ensures
        r@ == v@,
{
    v.iter().collect()
}

pub open spec fn is_space_char(c: char) -> bool {
    c == ' ' || c == '\t' || c == '\n' || c == '\r'
}

/// `s` with leading and trailing whitespace removed.
pub open spec fn trim_spec(s: Seq<char>) -> Seq<char>
    decreases s.len(),
{
    if s.len() == 0 {
        s
    } else if is_space_char(s[0]) {
        trim_spec(s.drop_first())
    } else if is_space_char(s.last()) {
        trim_spec(s.drop_last())
    } else {
        s
    }
}

proof fn lemma_trim_window(s: Seq<char>, a: int, b: int)
    requires
        0 <= a <= b <= s.len(),
        forall|j: int| 0 <= j < a ==> is_space_char(#[trigger] s[j]),
        forall|j: int| b <= j < s.len() ==> is_space_char(#[trigger] s[j]),
        a < b ==> !is_space_char(s[a]) && !is_space_char(s[b - 1]),
    ensures
        trim_spec(s) == s.subrange(a, b),
    decreases s.len(),
{
    if s.len() == 0 {
        assert(trim_spec(s) =~= s.subrange(a, b));
    } else if is_space_char(s[0]) {
        let t = s.drop_first();
        if a == b {
            lemma_trim_window(t, 0, 0);
            assert(s.subrange(a, b) =~= t.subrange(0, 0));
        } else {
            lemma_trim_window(t, a - 1, b - 1);
            assert(s.subrange(a, b) =~= t.subrange(a - 1, b - 1));
        }
    } else if is_space_char(s.last()) {
        let t = s.drop_last();
        assert(b < s.len());
        lemma_trim_window(t, a, b);
        assert(s.subrange(a, b) =~= t.subrange(a, b));
    } else {
        assert(a == 0 && b == s.len());
        assert(trim_spec(s) =~= s.subrange(a, b));
    }
}

/// A copy of `v` with leading and trailing whitespace removed.
pub fn trim_chars(v: &Vec<char>) -> (r: Vec<char>)
    ensures
        r@ == trim_spec(v@),
{
    let n = v.len();
    let mut a: usize = 0;
    while a < n && (v[a] == ' ' || v[a] == '\t' || v[a] == '\n' || v[a] == '\r')
        invariant
            a <= n,
            n == v@.len(),
            forall|j: int| 0 <= j < a ==> is_space_char(#[trigger] v@[j]),
        decreases n - a,
    {
        a += 1;
    }
    let mut b: usize = n;
    while b > a && (v[b - 1] == ' ' || v[b - 1] == '\t' || v[b - 1] == '\n' || v[b - 1] == '\r')
        invariant
            a <= b <= n,
            n == v@.len(),
            forall|j: int| 0 <= j < a ==> is_space_char(#[trigger] v@[j]),
            forall|j: int| b <= j < n ==> is_space_char(#[trigger] v@[j]),
        decreases b,
    {
        b -= 1;
    }
    let mut r: Vec<char> = Vec::new();
    let mut i: usize = a;
    while i < b
        invariant
            a <= i <= b <= n,
            n == v@.len(),
            r@ == v@.subrange(a as int, i as int),
        decreases b - i,
    {
        r.push(v[i]);
        assert(v@.subrange(a as int, i + 1) =~= v@.subrange(a as int, i as int).push(v@[i as int]));
        i += 1;
    }
    proof {
        lemma_trim_window(v@, a as int, b as int);
    }
    r
}

/// The characters of `s`, in order, as an indexable vector.
pub fn chars_of(s: &str) -> (v: Vec<char>)
    ensures
        v@ == s@,
{
    let n: usize = s.unicode_len();
    let mut v: Vec<char> = Vec::new();
    let mut i: usize = 0;
    while i < n
        invariant
            i <= n,
            n == s@.len(),
            v@ == s@.take(i as int),
        decreases n - i,
    {
        v.push(s.get_char(i));
        assert(s@.take(i + 1) =~= s@.take(i as int).push(s@[i as int]));
        i += 1;
    }
    assert(s@.take(n as int) =~= s@);
    v
}

/// Whether the character ranges `a[af..at]` and `b` are the same text.
fn range_eq(a: &Vec<char>, af: usize, at: usize, b: &Vec<char>) -> (r: bool)
    requires
        af <= at <= a@.len(),
    ensures
        r == (a@.subrange(af as int, at as int) == b@),
{
    let _alen: usize = a.len();
    if at - af != b.len() {
        assert(a@.subrange(af as int, at as int).len() != b@.len());
        return false;
    }
    let n = b.len();
    let mut i: usize = 0;
    while i < n
        invariant
            i <= n,
            n == b@.len(),
            af + n <= at <= a@.len(),
            a@.len() <= usize::MAX,
            forall|j: int| 0 <= j < i ==> a@[af + j] == b@[j],
        decreases n - i,
    {
        if a[af + i] != b[i] {
            assert(a@.subrange(af as int, at as int)[i as int] != b@[i as int]);
            return false;
        }
        i += 1;
    }
    assert(a@.subrange(af as int, at as int) =~= b@);
    true
}

/// The name of month `m` in the given style.
pub fn month_name_chars(m: u32, style: MonthStyle) -> (v: Vec<char>)
    requires
        1 <= m <= 12,
    ensures
        v@ == month_name(m as int, style),
{
    match style {
        MonthStyle::Abbreviated => {
            if m == 1 { vec!['J', 'a', 'n'] }
            else if m == 2 { vec!['F', 'e', 'b'] }
            else if m == 3 { vec!['M', 'a', 'r'] }
            else if m == 4 { vec!['A', 'p', 'r'] }
            else if m == 5 { vec!['M', 'a', 'y'] }
            else if m == 6 { vec!['J', 'u', 'n'] }
            else if m == 7 { vec!['J', 'u', 'l'] }
            else if m == 8 { vec!['A', 'u', 'g'] }
            else if m == 9 { vec!['S', 'e', 'p'] }
            else if m == 10 { vec!['O', 'c', 't'] }
            else if m == 11 { vec!['N', 'o', 'v'] }
            else { vec!['D', 'e', 'c'] }
        },
        MonthStyle::Full => {
            if m == 1 { vec!['J', 'a', 'n', 'u', 'a', 'r', 'y'] }
            else if m == 2 { vec!['F', 'e', 'b', 'r', 'u', 'a', 'r', 'y'] }
            else if m == 3 { vec!['M', 'a', 'r', 'c', 'h'] }
            else if m == 4 { vec!['A', 'p', 'r', 'i', 'l'] }
            else if m == 5 { vec!['M', 'a', 'y'] }
            else if m == 6 { vec!['J', 'u', 'n', 'e'] }
            else if m == 7 { vec!['J', 'u', 'l', 'y'] }
            else if m == 8 { vec!['A', 'u', 'g', 'u', 's', 't'] }
            else if m == 9 { vec!['S', 'e', 'p', 't', 'e', 'm', 'b', 'e', 'r'] }
            else if m == 10 { vec!['O', 'c', 't', 'o', 'b', 'e', 'r'] }
            else if m == 11 { vec!['N', 'o', 'v', 'e', 'm', 'b', 'e', 'r'] }
            else { vec!['D', 'e', 'c', 'e', 'm', 'b', 'e', 'r'] }
        },
    }
}

/// The month whose name is exactly `v[0..k]`, if any.
fn month_of_prefix(v: &Vec<char>, k: usize, style: MonthStyle) -> (r: Option<u32>)
    requires
        k <= v@.len(),
    ensures
        match month_of_name(v@.take(k as int), style) {
            Some(m) => r == Some(m as u32),
            None => r is None,
        },
{
    let mut m: u32 = 1;
    while m <= 12
        invariant
            1 <= m <= 13,
            k <= v@.len(),
            forall|i: int| 1 <= i < m ==> v@.take(k as int) != month_name(i, style),
        decreases 13 - m,
    {
        let name = month_name_chars(m, style);
        if range_eq(v, 0, k, &name) {
            assert(v@.subrange(0, k as int) == v@.take(k as int));
            return Some(m);
        }
        assert(v@.subrange(0, k as int) == v@.take(k as int));
        m += 1;
    }
    None
}

/// First position of `c` at or after `from`, as the grammar's split points.
fn find_from(v: &Vec<char>, from: usize, c: char) -> (r: Option<usize>)
    requires
        from <= v@.len(),
    ensures
        match r {
            Some(i) => from <= i < v@.len() && v@[i as int] == c
                && forall|j: int| from <= j < i ==> v@[j] != c,
            None => forall|j: int| from <= j < v@.len() ==> v@[j] != c,
        },
{
    let n = v.len();
    let mut i: usize = from;
    while i < n
        invariant
            from <= i <= n,
            n == v@.len(),
            forall|j: int| from <= j < i ==> v@[j] != c,
        decreases n - i,
    {
        if v[i] == c {
            return Some(i);
        }
        i += 1;
    }
    None
}

/// Relates a scan-found first occurrence to `index_of_first` on a suffix.
proof fn lemma_first_occurrence(s: Seq<char>, c: char, r: Option<int>)
    requires
        match r {
            Some(i) => 0 <= i < s.len() && s[i] == c && forall|j: int| 0 <= j < i ==> s[j] != c,
            None => forall|j: int| 0 <= j < s.len() ==> s[j] != c,
        },
    ensures
        s.index_of_first(c) == r,
{
    s.index_of_first_ensures(c);
    match s.index_of_first(c) {
        Some(k) => {
            match r {
                Some(i) => {
                    if k < i {
                        assert(s[k] != c);
                    } else if i < k {
                        assert(s[i] != c);
                    }
                },
                None => {
                    assert(s[k] != c);
                },
            }
        },
        None => {
            match r {
                Some(i) => {
                    assert(s.contains(c)) by {
                        assert(s[i] == c);
                    }
                },
                None => {},
            }
        },
    }
}

/// The number denoted by the digit string `v[from..to]`, or `None` when a
/// character in that range is not a digit.
fn digits_to_num(v: &Vec<char>, from: usize, to: usize) -> (r: Option<u32>)
    requires
        from <= to <= v@.len(),
        to - from <= 4,
    ensures
        ({
            let seg = v@.subrange(from as int, to as int);
            match r {
                Some(x) => all_digits(seg) && x == num_of_digits(seg),
                None => !all_digits(seg),
            }
        }),
{
    let ghost seg = v@.subrange(from as int, to as int);
    let mut acc: u32 = 0;
    let mut i: usize = from;
    while i < to
        invariant
            from <= i <= to <= v@.len(),
            to - from <= 4,
            seg == v@.subrange(from as int, to as int),
            all_digits(v@.subrange(from as int, i as int)),
            acc == num_of_digits(v@.subrange(from as int, i as int)),
            acc < pow10((i - from) as nat),
        decreases to - i,
    {
        let c = v[i];
        if c < '0' || c > '9' {
            assert(!is_digit(seg[i - from]));
            return None;
        }
        let d: u32 = (c as u32) - ('0' as u32);
        proof {
            let pre = v@.subrange(from as int, i as int);
            let cur = v@.subrange(from as int, i + 1);
            assert(cur =~= pre.push(v@[i as int]));
            assert(cur.drop_last() =~= pre);
            assert(pow10((i + 1 - from) as nat) == 10 * pow10((i - from) as nat));
            reveal_with_fuel(pow10, 5);
            assert(pow10(0nat) == 1 && pow10(1nat) == 10 && pow10(2nat) == 100
                && pow10(3nat) == 1000 && pow10(4nat) == 10000);
        }
        acc = acc * 10 + d;
        i += 1;
    }
    assert(seg =~= v@.subrange(from as int, to as int));
    Some(acc)
}

/// Whether `d` names a real day of the proleptic Gregorian calendar within
/// the four-digit-year range this library renders.
pub fn date_valid_exec(d: &Date) -> (r: bool)
    ensures
        r == date_valid(*d),
{
    1 <= d.year && d.year <= 9999 && 1 <= d.month && d.month <= 12 && 1 <= d.day && d.day
        <= days_in_month_exec(d.year, d.month)
}

fn days_in_month_exec(y: u32, m: u32) -> (r: u32)
    ensures
        r == days_in_month(y as int, m as int),
{
    if m == 2 {
        if y % 4 == 0 && (y % 100 != 0 || y % 400 == 0) {
            29
        } else {
            28
        }
    } else if m == 4 || m == 6 || m == 9 || m == 11 {
        30
    } else {
        31
    }
}

/// Parses a source date string of the given month style into the canonical
/// timestamp. Succeeds exactly on the strings of the date grammar whose
/// denoted date is valid; anything else is a `DateParseError`, never a
/// defaulted timestamp.
pub fn normalize(raw: &str, style: MonthStyle) -> (r: Result<Date, DateParseError>)
    ensures
        match parse_date_spec(raw@, style) {
            Some(d) => r == Ok::<Date, DateParseError>(d) && date_valid(d),
            None => r is Err,
        },
{
    let v = chars_of(raw);
    parse_date_chars(&v, style)
}

/// `normalize` on an already materialized character sequence.
pub fn parse_date_chars(v: &Vec<char>, style: MonthStyle) -> (r: Result<Date, DateParseError>)
    ensures
        match parse_date_spec(v@, style) {
            Some(d) => r == Ok::<Date, DateParseError>(d) && date_valid(d),
            None => r is Err,
        },
{
    proof {
        lemma_parse_date_spec_valid(v@, style);
    }
    let _n: usize = v.len();
    let sp = find_from(&v, 0, ' ');
    proof {
        lemma_first_occurrence(v@, ' ', match sp { Some(i) => Some(i as int), None => None });
    }
    let k = match sp {
        Some(i) => i,
        None => {
            return Err(DateParseError);
        },
    };
    let m = match month_of_prefix(&v, k, style) {
        Some(m) => m,
        None => {
            return Err(DateParseError);
        },
    };
    let ghost rest = v@.skip(k + 1);
    let cm = find_from(&v, k + 1, ',');
    proof {
        let rr = match cm { Some(i) => Some(i - (k + 1) as int), None => None };
        assert forall|j: int| 0 <= j < rest.len() implies rest[j] == v@[k + 1 + j] by {}
        lemma_first_occurrence(rest, ',', rr);
    }
    let cpos = match cm {
        Some(i) => i,
        None => {
            return Err(DateParseError);
        },
    };
    let ghost j = cpos - (k + 1) as int;
    let ghost day_digits = rest.take(j);
    let ghost tail = rest.skip(j + 1);
    // day: one or two digits between the space and the comma
    if cpos - (k + 1) < 1 || cpos - (k + 1) > 2 {
        return Err(DateParseError);
    }
    assert(day_digits =~= v@.subrange(k + 1, cpos as int));
    let d = match digits_to_num(&v, k + 1, cpos) {
        Some(d) => d,
        None => {
            return Err(DateParseError);
        },
    };
    // tail: a space then exactly four year digits, ending the string
    if v.len() - (cpos + 1) != 5 {
        assert(tail.len() != 5);
        return Err(DateParseError);
    }
    assert(tail.len() == 5);
    if v[cpos + 1] != ' ' {
        assert(tail[0] == v@[cpos + 1]);
        return Err(DateParseError);
    }
    assert(tail[0] == ' ');
    assert(tail.skip(1) =~= v@.subrange(cpos + 2, v@.len() as int));
    let y = match digits_to_num(&v, cpos + 2, v.len()) {
        Some(y) => y,
        None => {
            return Err(DateParseError);
        },
    };
    if y < 1 || d < 1 || d > days_in_month_exec(y, m) {
        return Err(DateParseError);
    }
    Ok(Date { year: y, month: m, day: d })
}

} // verus!
