//! Filters over trips, rules made of filters, and the action that a set of
//! rules resolves to for a trip.
use vstd::prelude::*;
use crate::scan::chars_of;
use crate::temporal::{
    append_decimal, clock_token, date_text, date_token, decimal, time_text, Date, Time,
};
use crate::trip::{is_word, number_value, span_is_word, span_number, Field, Trip, TripView};

verus! {

/// A comparison between a value and a bound.
#[derive(Debug, Clone, Copy, PartialEq, Eq, Structural, PartialOrd, Ord, Hash)]
pub enum Op {
    Eq,
    NEq,
    Lt,
    LtEq,
    GtEq,
    Gt,
}

impl Op {
    /// Whether the comparison holds of a value that is below the bound
    /// (`below`) or equal to it (`equal`).
    pub open spec fn spec_holds(self, below: bool, equal: bool) -> bool {
        match self {
            Op::Eq => equal,
            Op::NEq => !equal,
            Op::Lt => below,
            Op::LtEq => below || equal,
            Op::GtEq => !below,
            Op::Gt => !below && !equal,
        }
    }

    pub fn holds(&self, below: bool, equal: bool) -> (r: bool)
        ensures
            r == self.spec_holds(below, equal),
    {
        match self {
            Op::Eq => equal,
            Op::NEq => !equal,
            Op::Lt => below,
            Op::LtEq => below || equal,
            Op::GtEq => !below,
            Op::Gt => !below && !equal,
        }
    }

    /// The symbol of the comparison.
    pub fn symbol(&self) -> (r: &'static str)
        ensures
            r@ == op_symbol(*self),
    {
        match self {
            Op::Eq => "=",
            Op::NEq => "!=",
            Op::Lt => "<",
            Op::LtEq => "<=",
            Op::GtEq => ">=",
            Op::Gt => ">",
        }
    }
}

pub open spec fn op_symbol(op: Op) -> Seq<char> {
    match op {
        Op::Eq => "="@,
        Op::NEq => "!="@,
        Op::Lt => "<"@,
        Op::LtEq => "<="@,
        Op::GtEq => ">="@,
        Op::Gt => ">"@,
    }
}

pub open spec fn field_label(f: Field) -> Seq<char> {
    match f {
        Field::Report => "Report"@,
        Field::Depart => "Depart"@,
        Field::Arrive => "Arrive"@,
        Field::Block => "Block"@,
        Field::Credit => "Credit"@,
    }
}

impl Field {
    /// The name of the column.
    pub fn label(&self) -> (r: &'static str)
        ensures
            r@ == field_label(*self),
    {
        match self {
            Field::Report => "Report",
            Field::Depart => "Depart",
            Field::Arrive => "Arrive",
            Field::Block => "Block",
            Field::Credit => "Credit",
        }
    }
}

/// An atomic condition on a trip.
#[derive(Debug, Clone, PartialEq, Eq)]
pub enum Filter {
    /// The time from the second column to the first, compared to a bound.
    TimeDiff(Field, Field, Op, Time),
    /// A time column compared to a bound.
    FieldIs(Field, Op, Time),
    /// The trip's date compared to a bound.
    DateIs(Op, Date),
    /// The trip lays over at the given place.
    IncludeLayover(String),
    /// The trip does not lay over at the given place.
    ExcludeLayover(String),
    /// The trip's number of days compared to a bound.
    NumDays(Op, u8),
    /// The trip is a premium trip.
    IsPrem,
    /// The trip has the given id.
    IncludeId(String),
}

/// Whether filter `f` holds of trip `t`.
pub open spec fn filter_holds(f: Filter, t: TripView) -> bool {
    match f {
        Filter::TimeDiff(a, b, op, v) => {
            let d = t.get(a).spec_diff(t.get(b));
            op.spec_holds(d.spec_lt(v), d == v)
        },
        Filter::FieldIs(a, op, v) => op.spec_holds(t.get(a).spec_lt(v), t.get(a) == v),
        Filter::DateIs(op, v) => op.spec_holds(t.date.spec_lt(v), t.date == v),
        Filter::IncludeLayover(code) => t.layovers.contains(code@),
        Filter::ExcludeLayover(code) => !t.layovers.contains(code@),
        Filter::NumDays(op, n) => op.spec_holds(t.days < n, t.days == n),
        Filter::IsPrem => t.premium,
        Filter::IncludeId(id) => t.id == id@,
    }
}

pub open spec fn filter_name(f: Filter) -> Seq<char> {
    match f {
        Filter::TimeDiff(..) => "TimeDiff"@,
        Filter::FieldIs(..) => "FieldIs"@,
        Filter::DateIs(..) => "DateIs"@,
        Filter::IncludeLayover(_) => "IncludeLay"@,
        Filter::ExcludeLayover(_) => "ExcludeLay"@,
        Filter::NumDays(..) => "NumDays"@,
        Filter::IsPrem => "IsPrem"@,
        Filter::IncludeId(_) => "IsID"@,
    }
}

/// How a filter is described to the user.
pub open spec fn filter_text(f: Filter) -> Seq<char> {
    match f {
        Filter::TimeDiff(a, b, op, v) => field_label(a) + " - "@ + field_label(b) + " "@
            + op_symbol(op) + " "@ + time_text(v),
        Filter::FieldIs(a, op, v) => field_label(a) + " "@ + op_symbol(op) + " "@ + time_text(v),
        Filter::DateIs(op, d) => "Date "@ + op_symbol(op) + " "@ + date_text(d),
        Filter::IncludeLayover(code) => "Include ["@ + code@ + "]"@,
        Filter::ExcludeLayover(code) => "Exclude ["@ + code@ + "]"@,
        Filter::NumDays(op, n) => "Days "@ + op_symbol(op) + " "@ + decimal(n as nat),
        Filter::IsPrem => "Is Premium"@,
        Filter::IncludeId(id) => "Trip ID is \""@ + id@ + "\""@,
    }
}

/// Whether `code` is one of the trip's layovers.
fn has_layover(trip: &Trip, code: &String) -> (r: bool)
    ensures
        r == trip@.layovers.contains(code@),
{
    let mut i: usize = 0;
    while i < trip.layovers.len()
        invariant
            i <= trip.layovers.len(),
            forall|k: int| 0 <= k < i ==> trip@.layovers[k] != code@,
        decreases trip.layovers.len() - i,
    {
        if trip.layovers[i] == *code {
            assert(trip@.layovers[i as int] == code@);
            return true;
        }
        i = i + 1;
    }
    proof {
        if trip@.layovers.contains(code@) {
            let k = choose|k: int| 0 <= k < trip@.layovers.len() && trip@.layovers[k] == code@;
            assert(trip@.layovers[k] != code@);
        }
    }
    false
}

impl Filter {
    /// The short name of the filter's kind.
    pub fn name(&self) -> (r: &'static str)
        ensures
            r@ == filter_name(*self),
    {
        match self {
            Filter::TimeDiff(_, _, _, _) => "TimeDiff",
            Filter::FieldIs(_, _, _) => "FieldIs",
            Filter::DateIs(_, _) => "DateIs",
            Filter::IncludeLayover(_) => "IncludeLay",
            Filter::ExcludeLayover(_) => "ExcludeLay",
            Filter::NumDays(_, _) => "NumDays",
            Filter::IsPrem => "IsPrem",
            Filter::IncludeId(_) => "IsID",
        }
    }

    /// Whether the filter holds of `trip`.
    pub fn eval(&self, trip: &Trip) -> (r: bool)
        ensures
            r == filter_holds(*self, trip@),
    {
        match self {
            Filter::TimeDiff(a, b, op, v) => {
                let d = trip.get(*a).diff(trip.get(*b));
                op.holds(d.lt(v), d == *v)
            },
            Filter::FieldIs(a, op, v) => {
                let x = trip.get(*a);
                op.holds(x.lt(v), x == *v)
            },
            Filter::DateIs(op, v) => op.holds(trip.date.lt(v), trip.date == *v),
            Filter::IncludeLayover(code) => has_layover(trip, code),
            Filter::ExcludeLayover(code) => !has_layover(trip, code),
            Filter::NumDays(op, n) => op.holds(trip.days < *n, trip.days == *n),
            Filter::IsPrem => trip.premium,
            Filter::IncludeId(id) => trip.id == *id,
        }
    }
}

impl Filter {
    /// The filter described in words, for display.
    pub fn as_string(&self) -> (r: String)
        ensures
            r@ == filter_text(*self),
    {
        let mut out = String::new();
        match self {
            Filter::TimeDiff(a, b, op, v) => {
                out.append(a.label());
                out.append(" - ");
                out.append(b.label());
                out.append(" ");
                out.append(op.symbol());
                out.append(" ");
                out.append(v.to_text().as_str());
            },
            Filter::FieldIs(a, op, v) => {
                out.append(a.label());
                out.append(" ");
                out.append(op.symbol());
                out.append(" ");
                out.append(v.to_text().as_str());
            },
            Filter::DateIs(op, d) => {
                out.append("Date ");
                out.append(op.symbol());
                out.append(" ");
                out.append(d.to_text().as_str());
            },
            Filter::IncludeLayover(code) => {
                out.append("Include [");
                out.append(code.as_str());
                out.append("]");
            },
            Filter::ExcludeLayover(code) => {
                out.append("Exclude [");
                out.append(code.as_str());
                out.append("]");
            },
            Filter::NumDays(op, n) => {
                out.append("Days ");
                out.append(op.symbol());
                out.append(" ");
                append_decimal(&mut out, *n as u32);
            },
            Filter::IsPrem => {
                out.append("Is Premium");
            },
            Filter::IncludeId(id) => {
                out.append("Trip ID is \"");
                out.append(id.as_str());
                out.append("\"");
            },
        }
        assert(out@ =~= filter_text(*self));
        out
    }

    /// A new filter of the given kind, with neutral settings for the user to
    /// edit; `None` for the placeholder kind.
    pub fn from_type(kind: FilterType) -> (r: Option<Filter>)
        ensures
            r is None <==> kind == FilterType::NewFilter,
            r matches Some(f) ==> filter_kind(f) == kind && is_default_filter(f),
    {
        match kind {
            FilterType::NewFilter => None,
            FilterType::TimeDiff => Some(
                Filter::TimeDiff(Field::Report, Field::Report, Op::Eq, Time::default()),
            ),
            FilterType::FieldIs => Some(Filter::FieldIs(Field::Report, Op::Eq, Time::default())),
            FilterType::DateIs => Some(Filter::DateIs(Op::Eq, Date::default())),
            FilterType::IncludeLayover => Some(Filter::IncludeLayover(String::new())),
            FilterType::ExcludeLayover => Some(Filter::ExcludeLayover(String::new())),
            FilterType::NumDays => Some(Filter::NumDays(Op::Eq, 1)),
            FilterType::IsPrem => Some(Filter::IsPrem),
            FilterType::IncludeId => Some(Filter::IncludeId(String::new())),
        }
    }
}

/// `new` is filter `f` with its comparison value replaced by the one that
/// `entry` writes, when `entry` reads as a value of the filter's kind;
/// otherwise `new` is `f` unchanged.
pub open spec fn entry_applied(f: Filter, entry: Seq<char>, new: Filter) -> bool {
    match f {
        Filter::TimeDiff(a, b, op, _) => new == match clock_token(entry) {
            Some(t) => Filter::TimeDiff(a, b, op, t),
            None => f,
        },
        Filter::FieldIs(a, op, _) => new == match clock_token(entry) {
            Some(t) => Filter::FieldIs(a, op, t),
            None => f,
        },
        Filter::DateIs(op, _) => new == match date_token(entry) {
            Some(d) => Filter::DateIs(op, d),
            None => f,
        },
        Filter::NumDays(op, _) => new == if is_word(entry, true) && number_value(entry) <= 255 {
            Filter::NumDays(op, number_value(entry) as u8)
        } else {
            f
        },
        Filter::IncludeLayover(_) => new matches Filter::IncludeLayover(code) && code@ == entry,
        Filter::ExcludeLayover(_) => new matches Filter::ExcludeLayover(code) && code@ == entry,
        Filter::IncludeId(_) => new matches Filter::IncludeId(id) && id@ == entry,
        Filter::IsPrem => new == Filter::IsPrem,
    }
}

/// The day count written by `entry`, when it is a number below 256.
fn entry_number(entry: &str) -> (r: Option<u8>)
    ensures
        r is Some <==> is_word(entry@, true) && number_value(entry@) <= 255,
        r matches Some(n) ==> n == number_value(entry@),
{
    let chars = chars_of(entry);
    assert(chars@.subrange(0, chars@.len() as int) =~= entry@);
    if !span_is_word(&chars, 0, chars.len(), true) {
        return None;
    }
    span_number(&chars, 0, chars.len())
}

impl Filter {
    /// The filter with the value typed by the user, `entry`, as its
    /// comparison value: a clock token for time filters, a `DDMON` token
    /// for date filters, a number for day counts, and the text itself for
    /// layover and id filters. An entry that does not read leaves the filter
    /// unchanged.
    pub fn with_entry(&self, entry: &str) -> (r: Filter)
        ensures
            entry_applied(*self, entry@, r),
    {
        match self {
            Filter::TimeDiff(a, b, op, v) => match Time::parse(entry) {
                Ok(t) => Filter::TimeDiff(*a, *b, *op, t),
                Err(_) => Filter::TimeDiff(*a, *b, *op, *v),
            },
            Filter::FieldIs(a, op, v) => match Time::parse(entry) {
                Ok(t) => Filter::FieldIs(*a, *op, t),
                Err(_) => Filter::FieldIs(*a, *op, *v),
            },
            Filter::DateIs(op, d) => match Date::parse(entry) {
                Ok(d2) => Filter::DateIs(*op, d2),
                Err(_) => Filter::DateIs(*op, *d),
            },
            Filter::NumDays(op, n) => match entry_number(entry) {
                Some(n2) => Filter::NumDays(*op, n2),
                None => Filter::NumDays(*op, *n),
            },
            Filter::IncludeLayover(_) => Filter::IncludeLayover(entry.to_owned()),
            Filter::ExcludeLayover(_) => Filter::ExcludeLayover(entry.to_owned()),
            Filter::IncludeId(_) => Filter::IncludeId(entry.to_owned()),
            Filter::IsPrem => Filter::IsPrem,
        }
    }
}

/// A filter with the neutral settings it is created with: the report
/// column, `=`, `00:00`, the default date, one day, or empty text.
pub open spec fn is_default_filter(f: Filter) -> bool {
    match f {
        Filter::TimeDiff(a, b, op, v) => a == Field::Report && b == Field::Report && op == Op::Eq
            && v == (Time { hours: 0, minutes: 0 }),
        Filter::FieldIs(a, op, v) => a == Field::Report && op == Op::Eq && v == (Time {
            hours: 0,
            minutes: 0,
        }),
        Filter::DateIs(op, d) => op == Op::Eq && d == (Date { year: 2025, month: 1, day: 1 }),
        Filter::IncludeLayover(code) => code@.len() == 0,
        Filter::ExcludeLayover(code) => code@.len() == 0,
        Filter::NumDays(op, n) => op == Op::Eq && n == 1,
        Filter::IsPrem => true,
        Filter::IncludeId(id) => id@.len() == 0,
    }
}

/// The kinds of filter a user can add, and a placeholder for none.
#[derive(Debug, Clone, Copy, PartialEq, Eq, Structural, Hash)]
pub enum FilterType {
    NewFilter,
    TimeDiff,
    FieldIs,
    DateIs,
    IncludeLayover,
    ExcludeLayover,
    NumDays,
    IsPrem,
    IncludeId,
}

pub open spec fn filter_kind(f: Filter) -> FilterType {
    match f {
        Filter::TimeDiff(..) => FilterType::TimeDiff,
        Filter::FieldIs(..) => FilterType::FieldIs,
        Filter::DateIs(..) => FilterType::DateIs,
        Filter::IncludeLayover(_) => FilterType::IncludeLayover,
        Filter::ExcludeLayover(_) => FilterType::ExcludeLayover,
        Filter::NumDays(..) => FilterType::NumDays,
        Filter::IsPrem => FilterType::IsPrem,
        Filter::IncludeId(_) => FilterType::IncludeId,
    }
}

pub open spec fn filter_type_label(k: FilterType) -> Seq<char> {
    match k {
        FilterType::NewFilter => "NewFilter"@,
        FilterType::TimeDiff => "TimeDiff"@,
        FilterType::FieldIs => "FieldIs"@,
        FilterType::DateIs => "DateIs"@,
        FilterType::IncludeLayover => "IncludeLay"@,
        FilterType::ExcludeLayover => "ExcludeLay"@,
        FilterType::NumDays => "NumDays"@,
        FilterType::IsPrem => "IsPrem"@,
        FilterType::IncludeId => "IsID"@,
    }
}

impl FilterType {
    /// The name shown for the kind.
    pub fn label(&self) -> (r: &'static str)
        ensures
            r@ == filter_type_label(*self),
    {
        match self {
            FilterType::NewFilter => "NewFilter",
            FilterType::TimeDiff => "TimeDiff",
            FilterType::FieldIs => "FieldIs",
            FilterType::DateIs => "DateIs",
            FilterType::IncludeLayover => "IncludeLay",
            FilterType::ExcludeLayover => "ExcludeLay",
            FilterType::NumDays => "NumDays",
            FilterType::IsPrem => "IsPrem",
            FilterType::IncludeId => "IsID",
        }
    }
}

/// What to do about a trip. `Nothing` and `Ignore` are inert; `Alert`
/// outranks them and `Pickup` outranks `Alert`.
#[derive(Debug, Clone, Copy, PartialEq, Eq, Structural, Hash)]
pub enum BotAction {
    Nothing,
    Alert,
    Pickup,
    Ignore,
}

impl BotAction {
    /// The priority of the action.
    pub open spec fn spec_rank(self) -> nat {
        match self {
            BotAction::Nothing => 0,
            BotAction::Alert => 1,
            BotAction::Pickup => 2,
            BotAction::Ignore => 0,
        }
    }

    pub fn rank(&self) -> (r: u8)
        ensures
            r == self.spec_rank(),
    {
        match self {
            BotAction::Nothing => 0,
            BotAction::Alert => 1,
            BotAction::Pickup => 2,
            BotAction::Ignore => 0,
        }
    }

    /// The name shown for the action.
    pub fn label(&self) -> (r: &'static str)
        ensures
            r@ == action_label(*self),
    {
        match self {
            BotAction::Nothing => "Do Nothing",
            BotAction::Alert => "Alert",
            BotAction::Pickup => "Pickup",
            BotAction::Ignore => "Ignore",
        }
    }
}

pub open spec fn action_label(a: BotAction) -> Seq<char> {
    match a {
        BotAction::Nothing => "Do Nothing"@,
        BotAction::Alert => "Alert"@,
        BotAction::Pickup => "Pickup"@,
        BotAction::Ignore => "Ignore"@,
    }
}

/// A named list of filters, all of which a trip must pass, and the action
/// taken for a trip that does.
#[derive(Debug, Clone, PartialEq, Eq)]
pub struct Rule {
    pub name: String,
    pub filters: Vec<Filter>,
    pub action: BotAction,
}

/// Every filter of `rule` holds of `t`.
pub open spec fn rule_matches(rule: Rule, t: TripView) -> bool {
    forall|k: int| 0 <= k < rule.filters@.len() ==> filter_holds(#[trigger] rule.filters@[k], t)
}

/// The action a single rule asks for: its own when it matches, else none.
pub open spec fn rule_action(rule: Rule, t: TripView) -> BotAction {
    if rule_matches(rule, t) {
        rule.action
    } else {
        BotAction::Nothing
    }
}

/// The highest-ranked action that the rules ask for, starting from
/// `Nothing`; of equally ranked actions the earlier one stays.
pub open spec fn resolved_action(rules: Seq<Rule>, t: TripView) -> BotAction
    decreases rules.len(),
{
    if rules.len() == 0 {
        BotAction::Nothing
    } else {
        let acc = resolved_action(rules.drop_last(), t);
        let a = rule_action(rules.last(), t);
        if a.spec_rank() > acc.spec_rank() {
            a
        } else {
            acc
        }
    }
}

impl Rule {
    /// The position of the first filter, in order, that `trip` fails.
    pub fn first_failed_filter(&self, trip: &Trip) -> (r: Option<usize>)
        ensures
            r is None <==> rule_matches(*self, trip@),
            r matches Some(k) ==> k < self.filters@.len() && !filter_holds(
                self.filters@[k as int],
                trip@,
            ) && forall|j: int| 0 <= j < k ==> filter_holds(#[trigger] self.filters@[j], trip@),
    {
        let mut i: usize = 0;
        while i < self.filters.len()
            invariant
                i <= self.filters.len(),
                forall|j: int| 0 <= j < i ==> filter_holds(#[trigger] self.filters@[j], trip@),
            decreases self.filters.len() - i,
        {
            if !self.filters[i].eval(trip) {
                return Some(i);
            }
            i = i + 1;
        }
        None
    }

    /// Whether `trip` passes every filter; evaluation stops at the first
    /// filter that fails.
    pub fn eval(&self, trip: &Trip) -> (r: bool)
        ensures
            r == rule_matches(*self, trip@),
    {
        self.first_failed_filter(trip).is_none()
    }

    /// The rule's action when `trip` passes it, else `Nothing`.
    pub fn get_action(&self, trip: &Trip) -> (r: BotAction)
        ensures
            r == rule_action(*self, trip@),
    {
        if self.eval(trip) {
            self.action
        } else {
            BotAction::Nothing
        }
    }
}

/// The action that the whole rule set resolves to for `trip`: the
/// highest-ranked action of the rules that `trip` passes.
pub fn resolve_action(rules: &Vec<Rule>, trip: &Trip) -> (r: BotAction)
    ensures
        r == resolved_action(rules@, trip@),
{
    let mut acc = BotAction::Nothing;
    let mut i: usize = 0;
    while i < rules.len()
        invariant
            i <= rules.len(),
            acc == resolved_action(rules@.take(i as int), trip@),
        decreases rules.len() - i,
    {
        let a = rules[i].get_action(trip);
        assert(rules@.take(i + 1).drop_last() =~= rules@.take(i as int));
        if a.rank() > acc.rank() {
            acc = a;
        }
        i = i + 1;
    }
    assert(rules@.take(rules.len() as int) =~= rules@);
    acc
}

/// A rule without filters matches every trip.
pub proof fn lemma_rule_without_filters_matches(rule: Rule, t: TripView)
    requires
        rule.filters@.len() == 0,
    ensures
        rule_matches(rule, t),
        rule_action(rule, t) == rule.action,
{
}

/// The resolved action outranks or equals what each rule asks for, and is
/// `Nothing` or the action of a rule that the trip passes.
pub proof fn lemma_resolved_is_highest(rules: Seq<Rule>, t: TripView)
    ensures
        forall|k: int|
            0 <= k < rules.len() ==> rule_action(#[trigger] rules[k], t).spec_rank()
                <= resolved_action(rules, t).spec_rank(),
        resolved_action(rules, t) == BotAction::Nothing || exists|k: int|
            0 <= k < rules.len() && rule_matches(#[trigger] rules[k], t)
                && resolved_action(rules, t) == rules[k].action,
        resolved_action(rules, t) != BotAction::Ignore,
    decreases rules.len(),
{
    if rules.len() > 0 {
        let init = rules.drop_last();
        lemma_resolved_is_highest(init, t);
        assert forall|k: int| 0 <= k < rules.len() implies rule_action(
            #[trigger] rules[k],
            t,
        ).spec_rank() <= resolved_action(rules, t).spec_rank() by {
            if k < rules.len() - 1 {
                assert(rules[k] == init[k]);
            }
        }
        if resolved_action(rules, t) != BotAction::Nothing {
            if resolved_action(rules, t) == resolved_action(init, t) {
                let k = choose|k: int|
                    0 <= k < init.len() && rule_matches(#[trigger] init[k], t)
                        && resolved_action(init, t) == init[k].action;
                assert(rules[k] == init[k]);
            } else {
                assert(rule_matches(rules[rules.len() - 1], t));
            }
        }
    }
}

/// The resolved action depends only on which rules are present, not on
/// their order or repetition.
pub proof fn lemma_resolved_ignores_order(a: Seq<Rule>, b: Seq<Rule>, t: TripView)
    requires
        forall|r: Rule| a.contains(r) <==> b.contains(r),
    ensures
        resolved_action(a, t) == resolved_action(b, t),
{
    lemma_resolved_is_highest(a, t);
    lemma_resolved_is_highest(b, t);
    let ra = resolved_action(a, t);
    let rb = resolved_action(b, t);
    if ra != BotAction::Nothing {
        let k = choose|k: int|
            0 <= k < a.len() && rule_matches(#[trigger] a[k], t) && ra == a[k].action;
        assert(a.contains(a[k]));
        let j = choose|j: int| 0 <= j < b.len() && b[j] == a[k];
        assert(rule_action(b[j], t).spec_rank() <= rb.spec_rank());
    }
    if rb != BotAction::Nothing {
        let k = choose|k: int|
            0 <= k < b.len() && rule_matches(#[trigger] b[k], t) && rb == b[k].action;
        assert(b.contains(b[k]));
        let j = choose|j: int| 0 <= j < a.len() && a[j] == b[k];
        assert(rule_action(a[j], t).spec_rank() <= ra.spec_rank());
    }
}

/// An alerting rule that matches wins over a pickup rule that does not, in
/// either order.
pub proof fn lemma_unmatched_pickup_leaves_alert(alert: Rule, pickup: Rule, t: TripView)
    requires
        alert.action == BotAction::Alert,
        rule_matches(alert, t),
        pickup.action == BotAction::Pickup,
        !rule_matches(pickup, t),
    ensures
        resolved_action(seq![alert, pickup], t) == BotAction::Alert,
        resolved_action(seq![pickup, alert], t) == BotAction::Alert,
{
    reveal_with_fuel(resolved_action, 3);
    assert(seq![alert, pickup].drop_last() =~= seq![alert]);
    assert(seq![pickup, alert].drop_last() =~= seq![pickup]);
    assert(seq![alert].drop_last() =~= Seq::<Rule>::empty());
    assert(seq![pickup].drop_last() =~= Seq::<Rule>::empty());
    assert(resolved_action(seq![alert], t) == rule_action(alert, t));
    assert(resolved_action(seq![pickup], t) == rule_action(pickup, t));
}

/// When an alerting rule and a pickup rule both match, pickup wins, in
/// either order.
pub proof fn lemma_matched_pickup_wins(alert: Rule, pickup: Rule, t: TripView)
    requires
        alert.action == BotAction::Alert,
        rule_matches(alert, t),
        pickup.action == BotAction::Pickup,
        rule_matches(pickup, t),
    ensures
        resolved_action(seq![alert, pickup], t) == BotAction::Pickup,
        resolved_action(seq![pickup, alert], t) == BotAction::Pickup,
{
    reveal_with_fuel(resolved_action, 3);
    assert(seq![alert, pickup].drop_last() =~= seq![alert]);
    assert(seq![pickup, alert].drop_last() =~= seq![pickup]);
    assert(seq![alert].drop_last() =~= Seq::<Rule>::empty());
    assert(seq![pickup].drop_last() =~= Seq::<Rule>::empty());
    assert(resolved_action(seq![alert], t) == rule_action(alert, t));
    assert(resolved_action(seq![pickup], t) == rule_action(pickup, t));
}

} // verus!
