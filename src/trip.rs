//! Trip records and the listing format they are read from.
//!
//! A listing line holds, separated by blanks: the trip id, a `DDMON` date,
//! the number of days, report, departure and arrival times, block and credit
//! times as four digits, then any number of three-character layover codes
//! and, last, an optional premium mark `X`. Other lines are not trips.
use vstd::prelude::*;
use crate::scan::{
    chars_of, find_run_end, lemma_run_end_bounds, run_end, span_texts, spans_within,
    token_spans, tokens,
};
use crate::temporal::{clock_token, date_token, digit_value, is_digit, Date, Time};

verus! {

/// The time columns of a trip.
#[derive(Debug, Clone, Copy, PartialEq, Eq, Structural, PartialOrd, Ord, Hash)]
pub enum Field {
    Report,
    Depart,
    Arrive,
    Block,
    Credit,
}

/// One work assignment read from a listing.
#[derive(Debug, Clone, PartialEq, Eq)]
pub struct Trip {
    pub id: String,
    pub date: Date,
    pub days: u8,
    pub report: Time,
    pub depart: Time,
    pub arrive: Time,
    pub block: Time,
    pub credit: Time,
    pub layovers: Vec<String>,
    pub premium: bool,
}

/// The value of a [`Trip`], with text as character sequences.
pub struct TripView {
    pub id: Seq<char>,
    pub date: Date,
    pub days: u8,
    pub report: Time,
    pub depart: Time,
    pub arrive: Time,
    pub block: Time,
    pub credit: Time,
    pub layovers: Seq<Seq<char>>,
    pub premium: bool,
}

impl View for Trip {
    type V = TripView;

    open spec fn view(&self) -> TripView {
        TripView {
            id: self.id@,
            date: self.date,
            days: self.days,
            report: self.report,
            depart: self.depart,
            arrive: self.arrive,
            block: self.block,
            credit: self.credit,
            layovers: self.layovers@.map_values(|s: String| s@),
            premium: self.premium,
        }
    }
}

impl TripView {
    /// The time in column `field`.
    pub open spec fn get(self, field: Field) -> Time {
        match field {
            Field::Report => self.report,
            Field::Depart => self.depart,
            Field::Arrive => self.arrive,
            Field::Block => self.block,
            Field::Credit => self.credit,
        }
    }
}

impl Trip {
    /// The time in column `field`.
    pub fn get(&self, field: Field) -> (r: Time)
        ensures
            r == self@.get(field),
    {
        match field {
            Field::Report => self.report,
            Field::Depart => self.depart,
            Field::Arrive => self.arrive,
            Field::Block => self.block,
            Field::Credit => self.credit,
        }
    }
}

/// The column of a trip line whose value could not be read.
#[derive(Debug, Clone, Copy, PartialEq, Eq, Structural)]
pub enum ParseTripError {
    Date,
    Days,
    Report,
    Depart,
    Arrive,
    Block,
    Credit,
}

pub open spec fn is_word_char(c: char) -> bool {
    ('a' <= c <= 'z') || ('A' <= c <= 'Z') || ('0' <= c <= '9') || c == '_'
}

/// A non-empty token of letters, digits and underscores (`digits_only`
/// false), or of digits alone (`digits_only` true).
pub open spec fn is_word(t: Seq<char>, digits_only: bool) -> bool {
    &&& t.len() > 0
    &&& forall|k: int|
        0 <= k < t.len() ==> if digits_only {
            is_digit(#[trigger] t[k])
        } else {
            is_word_char(t[k])
        }
}

pub open spec fn premium_mark() -> Seq<char> {
    seq!['X']
}

/// Layover codes of three characters, the last of which may instead be the
/// premium mark.
pub open spec fn is_layover_tail(ts: Seq<Seq<char>>) -> bool {
    forall|k: int|
        0 <= k < ts.len() ==> (#[trigger] ts[k]).len() == 3 || (k == ts.len() - 1 && ts[k]
            == premium_mark())
}

/// The tokens of a line have the layout of a trip line.
pub open spec fn has_trip_shape(ts: Seq<Seq<char>>) -> bool {
    &&& ts.len() >= 8
    &&& is_word(ts[0], false)
    &&& is_word(ts[1], false)
    &&& is_word(ts[2], true)
    &&& is_word(ts[6], true)
    &&& is_word(ts[7], true)
    &&& is_layover_tail(ts.subrange(8, ts.len() as int))
}

/// The number written by a string of decimal digits.
pub open spec fn number_value(t: Seq<char>) -> nat
    decreases t.len(),
{
    if t.len() == 0 {
        0
    } else {
        (number_value(t.drop_last()) * 10 + digit_value(t.last())) as nat
    }
}

/// The trip line ends with the premium mark.
pub open spec fn premium_of(ts: Seq<Seq<char>>) -> bool {
    ts.len() > 8 && ts.last() == premium_mark()
}

/// The layover codes of a trip line, in order.
pub open spec fn layovers_of(ts: Seq<Seq<char>>) -> Seq<Seq<char>> {
    if premium_of(ts) {
        ts.subrange(8, ts.len() - 1)
    } else {
        ts.subrange(8, ts.len() as int)
    }
}

/// The trip written by the tokens of a trip line, or the first column, in
/// order, that does not read.
pub open spec fn trip_fields(ts: Seq<Seq<char>>) -> Result<TripView, ParseTripError> {
    if date_token(ts[1]) is None {
        Err(ParseTripError::Date)
    } else if number_value(ts[2]) > 255 {
        Err(ParseTripError::Days)
    } else if clock_token(ts[3]) is None {
        Err(ParseTripError::Report)
    } else if clock_token(ts[4]) is None {
        Err(ParseTripError::Depart)
    } else if clock_token(ts[5]) is None {
        Err(ParseTripError::Arrive)
    } else if clock_token(ts[6]) is None {
        Err(ParseTripError::Block)
    } else if clock_token(ts[7]) is None {
        Err(ParseTripError::Credit)
    } else {
        Ok(
            TripView {
                id: ts[0],
                date: date_token(ts[1])->0,
                days: number_value(ts[2]) as u8,
                report: clock_token(ts[3])->0,
                depart: clock_token(ts[4])->0,
                arrive: clock_token(ts[5])->0,
                block: clock_token(ts[6])->0,
                credit: clock_token(ts[7])->0,
                layovers: layovers_of(ts),
                premium: premium_of(ts),
            },
        )
    }
}

/// What a line of a listing holds: nothing, when it is not laid out as a
/// trip line; else the trip, or the column that does not read.
pub open spec fn line_record(line: Seq<char>) -> Option<Result<TripView, ParseTripError>> {
    if has_trip_shape(tokens(line)) {
        Some(trip_fields(tokens(line)))
    } else {
        None
    }
}

pub open spec fn record_view(r: Option<Result<Trip, ParseTripError>>) -> Option<
    Result<TripView, ParseTripError>,
> {
    match r {
        None => None,
        Some(Ok(t)) => Some(Ok(t@)),
        Some(Err(e)) => Some(Err(e)),
    }
}

/// The trips of the lines of `s` from position `i` on, in order; lines
/// that are not trip lines, or whose columns do not read, are left out.
pub open spec fn trips_from(s: Seq<char>, i: int) -> Seq<TripView>
    decreases s.len() - i,
    via trips_from_decreases
{
    if i < 0 || i > s.len() {
        seq![]
    } else {
        let j = run_end(s, i, true);
        let here = match line_record(s.subrange(i, j)) {
            Some(Ok(t)) => seq![t],
            _ => seq![],
        };
        if j < s.len() {
            here + trips_from(s, j + 1)
        } else {
            here
        }
    }
}

#[via_fn]
proof fn trips_from_decreases(s: Seq<char>, i: int) {
    if 0 <= i <= s.len() {
        lemma_run_end_bounds(s, i, true);
    }
}

/// The columns that did not read, one for each trip line of `s` from
/// position `i` on that is skipped, in order.
pub open spec fn skipped_from(s: Seq<char>, i: int) -> Seq<ParseTripError>
    decreases s.len() - i,
    via skipped_from_decreases
{
    if i < 0 || i > s.len() {
        seq![]
    } else {
        let j = run_end(s, i, true);
        let here = match line_record(s.subrange(i, j)) {
            Some(Err(e)) => seq![e],
            _ => seq![],
        };
        if j < s.len() {
            here + skipped_from(s, j + 1)
        } else {
            here
        }
    }
}

#[via_fn]
proof fn skipped_from_decreases(s: Seq<char>, i: int) {
    if 0 <= i <= s.len() {
        lemma_run_end_bounds(s, i, true);
    }
}

/// For each trip line of a listing that is skipped, the column that did not
/// read, line by line.
pub open spec fn listing_skipped(s: Seq<char>) -> Seq<ParseTripError> {
    skipped_from(s, 0)
}

/// The trips of a listing, line by line.
pub open spec fn listing_trips(s: Seq<char>) -> Seq<TripView> {
    trips_from(s, 0)
}

pub open spec fn trips_view(v: Seq<Trip>) -> Seq<TripView> {
    v.map_values(|t: Trip| t@)
}

/// Every layover of the trip is a three-character code.
pub open spec fn layovers_are_codes(t: TripView) -> bool {
    forall|k: int| 0 <= k < t.layovers.len() ==> (#[trigger] t.layovers[k]).len() == 3
}

/// A trip read from a line has only three-character layover codes, so no
/// empty ones.
pub proof fn lemma_line_layovers_are_codes(line: Seq<char>)
    ensures
        line_record(line) matches Some(Ok(t)) ==> layovers_are_codes(t),
{
    let ts = tokens(line);
    if has_trip_shape(ts) && trip_fields(ts) is Ok {
        let tail = ts.subrange(8, ts.len() as int);
        let lay = layovers_of(ts);
        assert forall|k: int| 0 <= k < lay.len() implies (#[trigger] lay[k]).len() == 3 by {
            assert(lay[k] == tail[k]);
            if tail[k].len() != 3 {
                assert(ts.last() == tail[k]);
            }
        }
    }
}

proof fn lemma_trips_from_codes(s: Seq<char>, i: int)
    ensures
        forall|k: int|
            0 <= k < trips_from(s, i).len() ==> layovers_are_codes(#[trigger] trips_from(s, i)[k]),
    decreases s.len() - i,
{
    if 0 <= i <= s.len() {
        lemma_run_end_bounds(s, i, true);
        let j = run_end(s, i, true);
        lemma_line_layovers_are_codes(s.subrange(i, j));
        let here = match line_record(s.subrange(i, j)) {
            Some(Ok(t)) => seq![t],
            _ => seq![],
        };
        if j < s.len() {
            lemma_trips_from_codes(s, j + 1);
            let all = trips_from(s, i);
            let rest = trips_from(s, j + 1);
            assert(all == here + rest);
            assert forall|k: int| 0 <= k < all.len() implies layovers_are_codes(
                #[trigger] all[k],
            ) by {
                if k >= here.len() {
                    assert(all[k] == rest[k - here.len()]);
                }
            }
        }
    }
}

/// Every trip of a listing has only three-character layover codes.
pub proof fn lemma_listing_layovers_are_codes(s: Seq<char>)
    ensures
        forall|k: int|
            0 <= k < listing_trips(s).len() ==> layovers_are_codes(#[trigger] listing_trips(s)[k]),
{
    lemma_trips_from_codes(s, 0);
}

fn is_word_char_exec(c: char, digits_only: bool) -> (r: bool)
    ensures
        r == if digits_only {
            is_digit(c)
        } else {
            is_word_char(c)
        },
{
    if digits_only {
        '0' <= c && c <= '9'
    } else {
        ('a' <= c && c <= 'z') || ('A' <= c && c <= 'Z') || ('0' <= c && c <= '9') || c == '_'
    }
}

/// Whether the characters `a..b` of `s` form a word (or a number).
pub(crate) fn span_is_word(s: &Vec<char>, a: usize, b: usize, digits_only: bool) -> (r: bool)
    requires
        a <= b <= s.len(),
    ensures
        r == is_word(s@.subrange(a as int, b as int), digits_only),
{
    let ghost t = s@.subrange(a as int, b as int);
    if a == b {
        return false;
    }
    let mut i = a;
    while i < b
        invariant
            a <= i <= b <= s.len(),
            t == s@.subrange(a as int, b as int),
            forall|k: int|
                0 <= k < i - a ==> if digits_only {
                    is_digit(#[trigger] t[k])
                } else {
                    is_word_char(t[k])
                },
        decreases b - i,
    {
        if !is_word_char_exec(s[i], digits_only) {
            assert(t[i - a] == s@[i as int]);
            return false;
        }
        i = i + 1;
    }
    true
}

proof fn lemma_number_prefix(t: Seq<char>, j: int)
    requires
        0 <= j <= t.len(),
        forall|k: int| 0 <= k < t.len() ==> is_digit(#[trigger] t[k]),
    ensures
        number_value(t.take(j)) <= number_value(t),
    decreases t.len(),
{
    if j < t.len() {
        assert(t.drop_last().take(j) =~= t.take(j));
        lemma_number_prefix(t.drop_last(), j);
    } else {
        assert(t.take(j) =~= t);
    }
}

/// The number written by the digits `a..b` of `s`, when it fits a byte.
pub(crate) fn span_number(s: &Vec<char>, a: usize, b: usize) -> (r: Option<u8>)
    requires
        a <= b <= s.len(),
        is_word(s@.subrange(a as int, b as int), true),
    ensures
        r is Some <==> number_value(s@.subrange(a as int, b as int)) <= 255,
        r matches Some(v) ==> v == number_value(s@.subrange(a as int, b as int)),
{
    let ghost t = s@.subrange(a as int, b as int);
    let mut acc: u16 = 0;
    let mut i = a;
    assert(t.take(0) =~= seq![]);
    while i < b
        invariant
            a <= i <= b <= s.len(),
            t == s@.subrange(a as int, b as int),
            is_word(t, true),
            acc <= 255,
            acc == number_value(t.take(i - a)),
        decreases b - i,
    {
        assert(is_digit(t[i - a]));
        assert(t[i - a] == s@[i as int]);
        let d = (s[i] as u32 - '0' as u32) as u16;
        assert(t.take(i - a + 1).drop_last() =~= t.take(i - a));
        acc = acc * 10 + d;
        i = i + 1;
        if acc > 255 {
            proof {
                lemma_number_prefix(t, i - a);
            }
            return None;
        }
    }
    assert(t.take(b - a) =~= t);
    Some(acc as u8)
}

/// Reads one line of a listing: `None` when it is not laid out as a trip
/// line, else the trip or the first column that does not read.
pub fn parse_trip_line(line: &str) -> (r: Option<Result<Trip, ParseTripError>>)
    ensures
        record_view(r) == line_record(line@),
{
    let chars = chars_of(line);
    let spans = token_spans(&chars);
    let ghost ts = tokens(line@);
    assert(forall|k: int|
        0 <= k < spans.len() ==> #[trigger] ts[k] == line@.subrange(
            spans@[k].0 as int,
            spans@[k].1 as int,
        ));
    let n = spans.len();
    if n < 8 {
        return None;
    }
    assert(ts[0] == chars@.subrange(spans@[0].0 as int, spans@[0].1 as int));
    assert(ts[1] == chars@.subrange(spans@[1].0 as int, spans@[1].1 as int));
    assert(ts[2] == chars@.subrange(spans@[2].0 as int, spans@[2].1 as int));
    assert(ts[6] == chars@.subrange(spans@[6].0 as int, spans@[6].1 as int));
    assert(ts[7] == chars@.subrange(spans@[7].0 as int, spans@[7].1 as int));
    assert(spans_within(chars@, spans@));
    assert(spans@[0].0 < spans@[0].1 <= chars@.len());
    assert(spans@[1].0 < spans@[1].1 <= chars@.len());
    assert(spans@[2].0 < spans@[2].1 <= chars@.len());
    assert(spans@[6].0 < spans@[6].1 <= chars@.len());
    assert(spans@[7].0 < spans@[7].1 <= chars@.len());
    if !span_is_word(&chars, spans[0].0, spans[0].1, false) || !span_is_word(
        &chars,
        spans[1].0,
        spans[1].1,
        false,
    ) || !span_is_word(&chars, spans[2].0, spans[2].1, true) || !span_is_word(
        &chars,
        spans[6].0,
        spans[6].1,
        true,
    ) || !span_is_word(&chars, spans[7].0, spans[7].1, true) {
        return None;
    }
    let ghost tail = ts.subrange(8, n as int);
    let mut k: usize = 8;
    while k < n
        invariant
            8 <= k <= n,
            n == spans.len(),
            n == ts.len(),
            ts == tokens(line@),
            tail == ts.subrange(8, n as int),
            spans_within(chars@, spans@),
            chars@ == line@,
            forall|q: int|
                0 <= q < spans.len() ==> #[trigger] ts[q] == line@.subrange(
                    spans@[q].0 as int,
                    spans@[q].1 as int,
                ),
            forall|q: int|
                0 <= q < k - 8 ==> (#[trigger] tail[q]).len() == 3 || (q == tail.len() - 1
                    && tail[q] == premium_mark()),
        decreases n - k,
    {
        let (a, b) = spans[k];
        let is_code = b - a == 3;
        let is_mark = k == n - 1 && b - a == 1 && chars[a] == 'X';
        assert(tail[k - 8] == ts[k as int]);
        if is_mark {
            assert(ts[k as int] =~= premium_mark());
        }
        if !is_code && !is_mark {
            proof {
                assert(spans@[k as int].0 < spans@[k as int].1 <= chars@.len());
                assert(ts[k as int].len() == b - a);
                if ts[k as int] == premium_mark() {
                    assert(ts[k as int][0] == chars@[a as int]);
                }
                let q = k - 8;
                assert(!((tail[q]).len() == 3 || (q == tail.len() - 1 && tail[q]
                    == premium_mark())));
                assert(!is_layover_tail(tail));
                assert(!has_trip_shape(ts));
                assert(line_record(line@) is None);
            }
            return None;
        }
        k = k + 1;
    }
    assert(has_trip_shape(ts));
    let date = Date::parse(line.substring_char(spans[1].0, spans[1].1));
    if date.is_err() {
        return Some(Err(ParseTripError::Date));
    }
    let days = span_number(&chars, spans[2].0, spans[2].1);
    if days.is_none() {
        return Some(Err(ParseTripError::Days));
    }
    let report = Time::parse(line.substring_char(spans[3].0, spans[3].1));
    if report.is_err() {
        return Some(Err(ParseTripError::Report));
    }
    let depart = Time::parse(line.substring_char(spans[4].0, spans[4].1));
    if depart.is_err() {
        return Some(Err(ParseTripError::Depart));
    }
    let arrive = Time::parse(line.substring_char(spans[5].0, spans[5].1));
    if arrive.is_err() {
        return Some(Err(ParseTripError::Arrive));
    }
    let block = Time::parse(line.substring_char(spans[6].0, spans[6].1));
    if block.is_err() {
        return Some(Err(ParseTripError::Block));
    }
    let credit = Time::parse(line.substring_char(spans[7].0, spans[7].1));
    if credit.is_err() {
        return Some(Err(ParseTripError::Credit));
    }
    let (la, lb) = spans[n - 1];
    let premium = n > 8 && lb - la == 1 && chars[la] == 'X';
    proof {
        if n > 8 {
            if ts.last() == premium_mark() {
                assert(ts.last()[0] == chars@[la as int]);
            }
            if premium {
                assert(ts.last() =~= premium_mark());
            }
        }
    }
    let codes_end = if premium {
        n - 1
    } else {
        n
    };
    let mut layovers: Vec<String> = Vec::new();
    let mut k: usize = 8;
    while k < codes_end
        invariant
            8 <= k <= codes_end <= n,
            n == spans.len(),
            n == ts.len(),
            ts == tokens(line@),
            spans_within(chars@, spans@),
            chars@ == line@,
            forall|q: int|
                0 <= q < spans.len() ==> #[trigger] ts[q] == line@.subrange(
                    spans@[q].0 as int,
                    spans@[q].1 as int,
                ),
            layovers@.map_values(|s: String| s@) == ts.subrange(8, k as int),
        decreases codes_end - k,
    {
        let code = line.substring_char(spans[k].0, spans[k].1).to_owned();
        let ghost before = layovers@;
        layovers.push(code);
        assert(layovers@.map_values(|s: String| s@) =~= before.map_values(|s: String| s@).push(
            ts[k as int],
        ));
        assert(ts.subrange(8, k + 1) =~= ts.subrange(8, k as int).push(ts[k as int]));
        k = k + 1;
    }
    let trip = Trip {
        id: line.substring_char(spans[0].0, spans[0].1).to_owned(),
        date: date.unwrap(),
        days: days.unwrap(),
        report: report.unwrap(),
        depart: depart.unwrap(),
        arrive: arrive.unwrap(),
        block: block.unwrap(),
        credit: credit.unwrap(),
        layovers,
        premium,
    };
    assert(trip_fields(ts) == Ok::<TripView, ParseTripError>(trip@));
    Some(Ok(trip))
}

/// Reads every trip of a listing, line by line, in order. Lines that are not
/// trip lines are skipped, and so are trip lines whose columns do not read.
pub fn parse_trips(blob: &str) -> (r: Vec<Trip>)
    ensures
        trips_view(r@) == listing_trips(blob@),
        forall|k: int| 0 <= k < r@.len() ==> layovers_are_codes(#[trigger] r@[k]@),
{
    proof {
        lemma_listing_layovers_are_codes(blob@);
    }
    let chars = chars_of(blob);
    let n = chars.len();
    let mut out: Vec<Trip> = Vec::new();
    let mut i: usize = 0;
    loop
        invariant
            i <= n,
            n == chars.len(),
            chars@ == blob@,
            trips_view(out@) + trips_from(blob@, i as int) == listing_trips(blob@),
            forall|k: int|
                0 <= k < listing_trips(blob@).len() ==> layovers_are_codes(
                    #[trigger] listing_trips(blob@)[k],
                ),
        ensures
            trips_view(out@) == listing_trips(blob@),
        decreases n - i,
    {
        let j = find_run_end(&chars, i, true);
        proof {
            lemma_run_end_bounds(blob@, i as int, true);
        }
        let line = blob.substring_char(i, j);
        let ghost before = out@;
        match parse_trip_line(line) {
            Some(Ok(t)) => {
                out.push(t);
                assert(trips_view(out@) =~= trips_view(before) + seq![t@]);
            },
            _ => {},
        }
        if j < n {
            assert(trips_view(out@) + trips_from(blob@, j + 1) =~= trips_view(before) + trips_from(
                blob@,
                i as int,
            ));
            i = j + 1;
        } else {
            assert(trips_view(out@) =~= trips_view(before) + trips_from(blob@, i as int));
            assert forall|k: int| 0 <= k < out@.len() implies layovers_are_codes(
                #[trigger] out@[k]@,
            ) by {
                assert(out@[k]@ == trips_view(out@)[k]);
            }
            return out;
        }
    }
}

/// For each trip line of a listing whose columns do not read, the first
/// column that does not, line by line: the records that [`parse_trips`]
/// skips.
pub fn skipped_records(blob: &str) -> (r: Vec<ParseTripError>)
    ensures
        r@ == listing_skipped(blob@),
{
    let chars = chars_of(blob);
    let n = chars.len();
    let mut out: Vec<ParseTripError> = Vec::new();
    let mut i: usize = 0;
    loop
        invariant
            i <= n,
            n == chars.len(),
            chars@ == blob@,
            out@ + skipped_from(blob@, i as int) == listing_skipped(blob@),
        ensures
            out@ == listing_skipped(blob@),
        decreases n - i,
    {
        let j = find_run_end(&chars, i, true);
        proof {
            lemma_run_end_bounds(blob@, i as int, true);
        }
        let line = blob.substring_char(i, j);
        let ghost before = out@;
        match parse_trip_line(line) {
            Some(Err(e)) => {
                out.push(e);
            },
            _ => {},
        }
        if j < n {
            assert(out@ + skipped_from(blob@, j + 1) =~= before + skipped_from(blob@, i as int));
            i = j + 1;
        } else {
            assert(out@ =~= before + skipped_from(blob@, i as int));
            return out;
        }
    }
}

} // verus!
