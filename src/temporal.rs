//! Clock times and calendar dates as they appear in trip listings.
use vstd::prelude::*;

verus! {

/// A clock value: hours and minutes.
#[derive(Debug, Clone, Copy, PartialEq, Eq, Structural, PartialOrd, Ord, Hash)]
pub struct Time {
    pub hours: u8,
    pub minutes: u8,
}

/// The token given to a time parser was not a clock token.
#[derive(Debug, Clone, Copy, PartialEq, Eq, Structural)]
pub struct ParseTimeError;

pub open spec fn is_digit(c: char) -> bool {
    '0' <= c <= '9'
}

pub open spec fn digit_value(c: char) -> int {
    c as int - '0' as int
}

/// The number written by two decimal digits.
pub open spec fn two_digit_value(a: char, b: char) -> int {
    10 * digit_value(a) + digit_value(b)
}

/// `raw` brought back into `0..base` by adding whole multiples of `base`,
/// when it is negative.
pub open spec fn roll(raw: int, base: int) -> int {
    if raw >= 0 {
        raw
    } else {
        raw % base
    }
}

impl Time {
    /// Hours within a day and minutes within an hour.
    pub open spec fn wf(self) -> bool {
        self.hours < 24 && self.minutes < 60
    }

    /// Time order: by hours, then by minutes.
    pub open spec fn spec_lt(self, other: Time) -> bool {
        self.hours < other.hours || (self.hours == other.hours && self.minutes < other.minutes)
    }

    /// Whether subtracting `rhs` borrows an hour.
    pub open spec fn borrows(self, rhs: Time) -> bool {
        rhs.minutes > self.minutes
    }

    /// Elapsed time from `rhs` to `self`: minutes borrow an hour when they run
    /// short, and the hours roll over on a twelve-hour dial.
    pub open spec fn spec_diff(self, rhs: Time) -> Time {
        let borrow: int = if self.borrows(rhs) {
            1
        } else {
            0
        };
        Time {
            hours: roll(self.hours - rhs.hours - borrow, 12) as u8,
            minutes: roll(self.minutes - rhs.minutes, 60) as u8,
        }
    }
}

/// The clock value written by `s`: `HHMM` or `HH:MM`, with hours below 24
/// and minutes below 60.
pub open spec fn clock_token(s: Seq<char>) -> Option<Time> {
    if (s.len() == 4 || (s.len() == 5 && s[2] == ':')) && is_digit(s[0]) && is_digit(s[1])
        && is_digit(s[s.len() - 2]) && is_digit(s[s.len() - 1]) {
        let h = two_digit_value(s[0], s[1]);
        let m = two_digit_value(s[s.len() - 2], s[s.len() - 1]);
        if h < 24 && m < 60 {
            Some(Time { hours: h as u8, minutes: m as u8 })
        } else {
            None
        }
    } else {
        None
    }
}

/// Reads two ASCII digits as a number.
fn read_two_digits(a: char, b: char) -> (r: Option<u8>)
    ensures
        r is Some <==> is_digit(a) && is_digit(b),
        r matches Some(v) ==> v as int == two_digit_value(a, b),
{
    if '0' <= a && a <= '9' && '0' <= b && b <= '9' {
        let hi = (a as u32 - '0' as u32) as u8;
        let lo = (b as u32 - '0' as u32) as u8;
        Some(10 * hi + lo)
    } else {
        None
    }
}

impl Time {
    /// Parses a clock token, `HHMM` or `HH:MM`.
    pub fn parse(s: &str) -> (r: Result<Time, ParseTimeError>)
        ensures
            r is Ok <==> clock_token(s@) is Some,
            r matches Ok(t) ==> clock_token(s@) == Some(t) && t.wf(),
    {
        let n = s.unicode_len();
        if n != 4 && n != 5 {
            return Err(ParseTimeError);
        }
        if n == 5 && s.get_char(2) != ':' {
            return Err(ParseTimeError);
        }
        let h = read_two_digits(s.get_char(0), s.get_char(1));
        let m = read_two_digits(s.get_char(n - 2), s.get_char(n - 1));
        match (h, m) {
            (Some(h), Some(m)) => {
                if h < 24 && m < 60 {
                    Ok(Time { hours: h, minutes: m })
                } else {
                    Err(ParseTimeError)
                }
            },
            _ => Err(ParseTimeError),
        }
    }

    /// Parses a clock token from the numeric columns of a listing; the same
    /// tokens as [`Time::parse`] are accepted.
    pub fn from_num_str(s: &str) -> (r: Result<Time, ParseTimeError>)
        ensures
            r is Ok <==> clock_token(s@) is Some,
            r matches Ok(t) ==> clock_token(s@) == Some(t) && t.wf(),
    {
        Time::parse(s)
    }

    /// Elapsed time from `rhs` to `self` (see [`Time::spec_diff`]).
    pub fn diff(self, rhs: Time) -> (r: Time)
        ensures
            r == self.spec_diff(rhs),
            self.wf() && rhs.wf() ==> r.wf(),
    {
        let borrow: i16 = if rhs.minutes > self.minutes {
            1
        } else {
            0
        };
        let hraw: i16 = self.hours as i16 - rhs.hours as i16 - borrow;
        let mraw: i16 = self.minutes as i16 - rhs.minutes as i16;
        let hours: u8 = if hraw >= 0 {
            hraw as u8
        } else {
            proof {
                lemma_roll_shift(hraw as int, 12, 22);
            }
            ((hraw + 264) % 12) as u8
        };
        let minutes: u8 = if mraw >= 0 {
            mraw as u8
        } else {
            proof {
                lemma_roll_shift(mraw as int, 60, 5);
            }
            ((mraw + 300) % 60) as u8
        };
        Time { hours, minutes }
    }

    /// Whether `self` comes before `other` in time order.
    pub fn lt(&self, other: &Time) -> (r: bool)
        ensures
            r == self.spec_lt(*other),
    {
        self.hours < other.hours || (self.hours == other.hours && self.minutes < other.minutes)
    }
}

/// Adding `k` whole multiples of `base` does not change a value modulo `base`.
proof fn lemma_roll_shift(raw: int, base: int, k: int)
    requires
        0 < base,
        0 <= k,
        raw + base * k >= 0,
    ensures
        (raw + base * k) % base == raw % base,
        0 <= raw % base < base,
{
    vstd::arithmetic::div_mod::lemma_mod_multiples_vanish(k, raw, base);
    vstd::arithmetic::div_mod::lemma_mod_bound(raw, base);
}


impl core::ops::Sub for Time {
    type Output = Time;

    fn sub(self, rhs: Time) -> (r: Time) {
        self.diff(rhs)
    }
}

impl vstd::std_specs::ops::SubSpecImpl for Time {
    open spec fn obeys_sub_spec() -> bool {
        true
    }

    open spec fn sub_req(self, rhs: Time) -> bool {
        true
    }

    open spec fn sub_spec(self, rhs: Time) -> Time {
        self.spec_diff(rhs)
    }
}

impl core::str::FromStr for Time {
    type Err = ParseTimeError;

    /// Reads a clock token, as [`Time::parse`] does.
    fn from_str(s: &str) -> (r: Result<Time, ParseTimeError>)
        ensures
            r is Ok <==> clock_token(s@) is Some,
            r matches Ok(t) ==> clock_token(s@) == Some(t) && t.wf(),
    {
        Time::parse(s)
    }
}

impl Default for Time {
    fn default() -> (r: Time)
        ensures
            r == (Time { hours: 0, minutes: 0 }),
    {
        Time { hours: 0, minutes: 0 }
    }
}

/// The year given to dates read from listings, which do not carry one.
pub const DEFAULT_YEAR: u16 = 2025;

/// A calendar date.
#[derive(Debug, Clone, Copy, PartialEq, Eq, Structural, PartialOrd, Ord, Hash)]
pub struct Date {
    pub year: u16,
    pub month: u8,
    pub day: u8,
}

/// The token given to a date parser was not a `DDMON` token.
#[derive(Debug, Clone, Copy, PartialEq, Eq, Structural)]
pub struct ParseDateError;

impl Date {
    /// Calendar order: by year, then month, then day.
    pub open spec fn spec_lt(self, other: Date) -> bool {
        ||| self.year < other.year
        ||| self.year == other.year && self.month < other.month
        ||| self.year == other.year && self.month == other.month && self.day < other.day
    }

    /// Whether `self` comes before `other` in calendar order.
    pub fn lt(&self, other: &Date) -> (r: bool)
        ensures
            r == self.spec_lt(*other),
    {
        self.year < other.year || (self.year == other.year && self.month < other.month) || (
        self.year == other.year && self.month == other.month && self.day < other.day)
    }
}

impl Default for Date {
    fn default() -> (r: Date)
        ensures
            r == (Date { year: DEFAULT_YEAR, month: 1, day: 1 }),
    {
        Date { year: DEFAULT_YEAR, month: 1, day: 1 }
    }
}

impl core::str::FromStr for Date {
    type Err = ParseDateError;

    /// Reads a `DDMON` token, as [`Date::parse`] does.
    fn from_str(s: &str) -> (r: Result<Date, ParseDateError>)
        ensures
            r is Ok <==> date_token(s@) is Some,
            r matches Ok(d) ==> date_token(s@) == Some(d) && 1 <= d.month <= 12,
    {
        Date::parse(s)
    }
}

/// The number of the month whose three-letter abbreviation is `s`.
pub open spec fn month_number(s: Seq<char>) -> Option<u8> {
    if s == seq!['J', 'A', 'N'] {
        Some(1u8)
    } else if s == seq!['F', 'E', 'B'] {
        Some(2u8)
    } else if s == seq!['M', 'A', 'R'] {
        Some(3u8)
    } else if s == seq!['A', 'P', 'R'] {
        Some(4u8)
    } else if s == seq!['M', 'A', 'Y'] {
        Some(5u8)
    } else if s == seq!['J', 'U', 'N'] {
        Some(6u8)
    } else if s == seq!['J', 'U', 'L'] {
        Some(7u8)
    } else if s == seq!['A', 'U', 'G'] {
        Some(8u8)
    } else if s == seq!['S', 'E', 'P'] {
        Some(9u8)
    } else if s == seq!['O', 'C', 'T'] {
        Some(10u8)
    } else if s == seq!['N', 'O', 'V'] {
        Some(11u8)
    } else if s == seq!['D', 'E', 'C'] {
        Some(12u8)
    } else {
        None
    }
}

/// The date written by a `DDMON` token (day of month, then month
/// abbreviation), in [`DEFAULT_YEAR`].
pub open spec fn date_token(s: Seq<char>) -> Option<Date> {
    if s.len() == 5 && is_digit(s[0]) && is_digit(s[1]) && month_number(s.subrange(2, 5)) is Some {
        Some(
            Date {
                year: DEFAULT_YEAR,
                month: month_number(s.subrange(2, 5))->0,
                day: two_digit_value(s[0], s[1]) as u8,
            },
        )
    } else {
        None
    }
}

fn month_of_chars(a: char, b: char, c: char) -> (r: Result<u8, ParseDateError>)
    ensures
        r is Ok <==> month_number(seq![a, b, c]) is Some,
        r matches Ok(m) ==> month_number(seq![a, b, c]) == Some(m),
{
    let ghost s = seq![a, b, c];
    proof {
        assert(s == seq!['J', 'A', 'N'] <==> (a == 'J' && b == 'A' && c == 'N')) by {
            if a == 'J' && b == 'A' && c == 'N' {
                assert(s =~= seq!['J', 'A', 'N']);
            }
        }
    }
    match (a, b, c) {
        ('J', 'A', 'N') => Ok(1),
        ('F', 'E', 'B') => {
            assert(s =~= seq!['F', 'E', 'B']);
            Ok(2)
        },
        ('M', 'A', 'R') => {
            assert(s =~= seq!['M', 'A', 'R']);
            Ok(3)
        },
        ('A', 'P', 'R') => {
            assert(s =~= seq!['A', 'P', 'R']);
            Ok(4)
        },
        ('M', 'A', 'Y') => {
            assert(s =~= seq!['M', 'A', 'Y']);
            Ok(5)
        },
        ('J', 'U', 'N') => {
            assert(s =~= seq!['J', 'U', 'N']);
            Ok(6)
        },
        ('J', 'U', 'L') => {
            assert(s =~= seq!['J', 'U', 'L']);
            Ok(7)
        },
        ('A', 'U', 'G') => {
            assert(s =~= seq!['A', 'U', 'G']);
            Ok(8)
        },
        ('S', 'E', 'P') => {
            assert(s =~= seq!['S', 'E', 'P']);
            Ok(9)
        },
        ('O', 'C', 'T') => {
            assert(s =~= seq!['O', 'C', 'T']);
            Ok(10)
        },
        ('N', 'O', 'V') => {
            assert(s =~= seq!['N', 'O', 'V']);
            Ok(11)
        },
        ('D', 'E', 'C') => {
            assert(s =~= seq!['D', 'E', 'C']);
            Ok(12)
        },
        _ => {
            assert(s[0] == a && s[1] == b && s[2] == c);
            Err(ParseDateError)
        },
    }
}

/// The number of the month abbreviated by `s` (`JAN` to `DEC`).
pub fn month_from_str(s: &str) -> (r: Result<u8, ParseDateError>)
    ensures
        r is Ok <==> month_number(s@) is Some,
        r matches Ok(m) ==> month_number(s@) == Some(m),
{
    if s.unicode_len() != 3 {
        return Err(ParseDateError);
    }
    let a = s.get_char(0);
    let b = s.get_char(1);
    let c = s.get_char(2);
    assert(s@ =~= seq![a, b, c]);
    month_of_chars(a, b, c)
}

impl Date {
    /// Parses a `DDMON` token; the year is [`DEFAULT_YEAR`].
    pub fn parse(s: &str) -> (r: Result<Date, ParseDateError>)
        ensures
            r is Ok <==> date_token(s@) is Some,
            r matches Ok(d) ==> date_token(s@) == Some(d) && 1 <= d.month <= 12,
    {
        if s.unicode_len() != 5 {
            return Err(ParseDateError);
        }
        let a = s.get_char(2);
        let b = s.get_char(3);
        let c = s.get_char(4);
        assert(s@.subrange(2, 5) =~= seq![a, b, c]);
        let month = month_of_chars(a, b, c);
        let day = read_two_digits(s.get_char(0), s.get_char(1));
        match (month, day) {
            (Ok(month), Some(day)) => Ok(Date { year: DEFAULT_YEAR, month, day }),
            _ => Err(ParseDateError),
        }
    }
}

/// The character of a decimal digit.
pub open spec fn digit_char(d: int) -> char {
    if d == 0 {
        '0'
    } else if d == 1 {
        '1'
    } else if d == 2 {
        '2'
    } else if d == 3 {
        '3'
    } else if d == 4 {
        '4'
    } else if d == 5 {
        '5'
    } else if d == 6 {
        '6'
    } else if d == 7 {
        '7'
    } else if d == 8 {
        '8'
    } else {
        '9'
    }
}

/// The decimal numeral of `n`, without leading zeros.
pub open spec fn decimal(n: nat) -> Seq<char>
    decreases n,
{
    if n < 10 {
        seq![digit_char(n as int)]
    } else {
        decimal(n / 10).push(digit_char((n % 10) as int))
    }
}

pub open spec fn pow10(k: nat) -> nat
    decreases k,
{
    if k == 0 {
        1
    } else {
        10 * pow10((k - 1) as nat)
    }
}

/// The decimal numeral of `n`, with leading zeros up to `width` digits.
pub open spec fn zero_padded(n: nat, width: nat) -> Seq<char>
    decreases width,
{
    if width > 1 && n < pow10((width - 1) as nat) {
        seq!['0'] + zero_padded(n, (width - 1) as nat)
    } else {
        decimal(n)
    }
}

/// Two decimal digits for a number below 100.
pub open spec fn two_digit_text(n: int) -> Seq<char> {
    seq![digit_char(n / 10), digit_char(n % 10)]
}

/// How a time is written: `HH:MM`.
pub open spec fn time_text(t: Time) -> Seq<char> {
    zero_padded(t.hours as nat, 2) + seq![':'] + zero_padded(t.minutes as nat, 2)
}

/// The three-letter abbreviation of a month, or `N/A` for another number.
pub open spec fn month_text(m: u8) -> Seq<char> {
    if m == 1 {
        seq!['J', 'A', 'N']
    } else if m == 2 {
        seq!['F', 'E', 'B']
    } else if m == 3 {
        seq!['M', 'A', 'R']
    } else if m == 4 {
        seq!['A', 'P', 'R']
    } else if m == 5 {
        seq!['M', 'A', 'Y']
    } else if m == 6 {
        seq!['J', 'U', 'N']
    } else if m == 7 {
        seq!['J', 'U', 'L']
    } else if m == 8 {
        seq!['A', 'U', 'G']
    } else if m == 9 {
        seq!['S', 'E', 'P']
    } else if m == 10 {
        seq!['O', 'C', 'T']
    } else if m == 11 {
        seq!['N', 'O', 'V']
    } else if m == 12 {
        seq!['D', 'E', 'C']
    } else {
        seq!['N', '/', 'A']
    }
}

/// How a date is written: `MON DD, YYYY`.
pub open spec fn date_text(d: Date) -> Seq<char> {
    month_text(d.month) + seq![' '] + zero_padded(d.day as nat, 2) + seq![',', ' ']
        + zero_padded(d.year as nat, 4)
}

fn digit_str(d: u32) -> (r: &'static str)
    requires
        d < 10,
    ensures
        r@ == seq![digit_char(d as int)],
{
    proof {
        reveal_strlit("0");
        reveal_strlit("1");
        reveal_strlit("2");
        reveal_strlit("3");
        reveal_strlit("4");
        reveal_strlit("5");
        reveal_strlit("6");
        reveal_strlit("7");
        reveal_strlit("8");
        reveal_strlit("9");
    }
    match d {
        0 => "0",
        1 => "1",
        2 => "2",
        3 => "3",
        4 => "4",
        5 => "5",
        6 => "6",
        7 => "7",
        8 => "8",
        _ => "9",
    }
}

/// Appends the decimal numeral of `n`.
pub fn append_decimal(out: &mut String, n: u32)
    ensures
        final(out)@ == old(out)@ + decimal(n as nat),
    decreases n,
{
    if n >= 10 {
        append_decimal(out, n / 10);
        out.append(digit_str(n % 10));
        assert(old(out)@ + decimal(n as nat) =~= old(out)@ + decimal((n / 10) as nat) + seq![
            digit_char((n % 10) as int),
        ]);
    } else {
        out.append(digit_str(n));
    }
}

fn ten_to(k: u32) -> (r: u32)
    requires
        k <= 9,
    ensures
        r == pow10(k as nat),
    decreases k,
{
    if k == 0 {
        1
    } else {
        let p = ten_to(k - 1);
        assert(p <= 100_000_000) by {
            lemma_pow10_mono((k - 1) as nat, 8);
            reveal_with_fuel(pow10, 9);
        }
        10 * p
    }
}

proof fn lemma_pow10_mono(a: nat, b: nat)
    requires
        a <= b,
    ensures
        pow10(a) <= pow10(b),
    decreases b,
{
    if a < b {
        lemma_pow10_mono(a, (b - 1) as nat);
    }
}

/// Appends the decimal numeral of `n`, with leading zeros up to `width`
/// digits.
pub fn append_zero_padded(out: &mut String, n: u32, width: u32)
    requires
        width <= 10,
    ensures
        final(out)@ == old(out)@ + zero_padded(n as nat, width as nat),
    decreases width,
{
    if width > 1 && n < ten_to(width - 1) {
        proof {
            reveal_strlit("0");
        }
        out.append("0");
        append_zero_padded(out, n, width - 1);
        assert(old(out)@ + zero_padded(n as nat, width as nat) =~= old(out)@ + seq!['0']
            + zero_padded(n as nat, (width - 1) as nat));
    } else {
        append_decimal(out, n);
    }
}

fn month_str(m: u8) -> (r: &'static str)
    ensures
        r@ == month_text(m),
{
    proof {
        reveal_strlit("JAN");
        reveal_strlit("FEB");
        reveal_strlit("MAR");
        reveal_strlit("APR");
        reveal_strlit("MAY");
        reveal_strlit("JUN");
        reveal_strlit("JUL");
        reveal_strlit("AUG");
        reveal_strlit("SEP");
        reveal_strlit("OCT");
        reveal_strlit("NOV");
        reveal_strlit("DEC");
        reveal_strlit("N/A");
    }
    match m {
        1 => "JAN",
        2 => "FEB",
        3 => "MAR",
        4 => "APR",
        5 => "MAY",
        6 => "JUN",
        7 => "JUL",
        8 => "AUG",
        9 => "SEP",
        10 => "OCT",
        11 => "NOV",
        12 => "DEC",
        _ => "N/A",
    }
}

impl Time {
    /// The time written as `HH:MM`.
    pub fn to_text(&self) -> (r: String)
        ensures
            r@ == time_text(*self),
    {
        let mut out = String::new();
        append_zero_padded(&mut out, self.hours as u32, 2);
        proof {
            reveal_strlit(":");
        }
        out.append(":");
        append_zero_padded(&mut out, self.minutes as u32, 2);
        out
    }
}

impl Date {
    /// The date written as `MON DD, YYYY`.
    pub fn to_text(&self) -> (r: String)
        ensures
            r@ == date_text(*self),
    {
        let mut out = String::new();
        out.append(month_str(self.month));
        proof {
            reveal_strlit(" ");
            reveal_strlit(", ");
        }
        out.append(" ");
        append_zero_padded(&mut out, self.day as u32, 2);
        out.append(", ");
        append_zero_padded(&mut out, self.year as u32, 4);
        out
    }
}

/// A number below 100 padded to two digits is written with its tens and its
/// units digit.
pub proof fn lemma_two_digit_text(n: nat)
    requires
        n < 100,
    ensures
        zero_padded(n, 2) == two_digit_text(n as int),
        two_digit_value(digit_char((n / 10) as int), digit_char((n % 10) as int)) == n,
{
    reveal_with_fuel(zero_padded, 2);
    reveal_with_fuel(decimal, 2);
    assert(pow10(1) == 10) by {
        reveal_with_fuel(pow10, 2);
    }
    if n < 10 {
        assert(zero_padded(n, 2) =~= two_digit_text(n as int));
    } else {
        assert(zero_padded(n, 2) =~= two_digit_text(n as int));
    }
}

/// Any hours and minutes within a day, written `HHMM` or `HH:MM` or as the
/// time's own text, are read back as the same pair; a token of any other
/// length is refused.
pub proof fn lemma_clock_token_round_trip(h: u8, m: u8, other: Seq<char>)
    requires
        h < 24,
        m < 60,
    ensures
        clock_token(two_digit_text(h as int) + two_digit_text(m as int)) == Some(
            Time { hours: h, minutes: m },
        ),
        clock_token(two_digit_text(h as int) + seq![':'] + two_digit_text(m as int)) == Some(
            Time { hours: h, minutes: m },
        ),
        clock_token(time_text(Time { hours: h, minutes: m })) == Some(
            Time { hours: h, minutes: m },
        ),
        other.len() != 4 && other.len() != 5 ==> clock_token(other) is None,
{
    lemma_two_digit_text(h as nat);
    lemma_two_digit_text(m as nat);
    let a = two_digit_text(h as int) + two_digit_text(m as int);
    let b = two_digit_text(h as int) + seq![':'] + two_digit_text(m as int);
    let (hi, hu, mi, mu) = (h as int / 10, h as int % 10, m as int / 10, m as int % 10);
    assert(a[0] == digit_char(hi) && a[1] == digit_char(hu));
    assert(a[2] == digit_char(mi) && a[3] == digit_char(mu));
    assert(b[0] == digit_char(hi) && b[1] == digit_char(hu) && b[2] == ':');
    assert(b[3] == digit_char(mi) && b[4] == digit_char(mu));
    assert(time_text(Time { hours: h, minutes: m }) == b);
}

/// When neither the hours nor the minutes of `b` exceed those of `a`, the
/// difference is taken field by field.
pub proof fn lemma_diff_without_borrow(a: Time, b: Time)
    requires
        a.hours >= b.hours,
        a.minutes >= b.minutes,
    ensures
        a.spec_diff(b) == (Time {
            hours: (a.hours - b.hours) as u8,
            minutes: (a.minutes - b.minutes) as u8,
        }),
{
}

} // verus!
