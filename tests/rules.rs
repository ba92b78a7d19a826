use hungrychicken::{
    parse_trips, resolve_action, BotAction, Date, Field, Filter, FilterType, Op, Rule, Time, Trip,
};

fn t(hours: u8, minutes: u8) -> Time {
    Time { hours, minutes }
}

fn scenario_trip() -> Trip {
    parse_trips("AB12 15JAN 3 0700 0730 1500 0800 0600 LHR CDG  ").remove(0)
}

fn rule(filters: Vec<Filter>, action: BotAction) -> Rule {
    Rule { name: "test".to_string(), filters, action }
}

#[test]
fn layover_filters_on_scenario_trip() {
    let trip = scenario_trip();
    assert!(Filter::IncludeLayover("LHR".to_string()).eval(&trip));
    assert!(!Filter::ExcludeLayover("LHR".to_string()).eval(&trip));
    assert!(!Filter::IncludeLayover("AMS".to_string()).eval(&trip));
    assert!(Filter::ExcludeLayover("AMS".to_string()).eval(&trip));
}

#[test]
fn empty_rule_matches_every_trip() {
    let empty = rule(vec![], BotAction::Alert);
    assert!(empty.eval(&scenario_trip()));
    let other = parse_trips("ZZ9 02FEB 1 0615 0700 0945 0245 0300 AMS X").remove(0);
    assert!(empty.eval(&other));
    assert_eq!(empty.get_action(&other), BotAction::Alert);
    assert_eq!(empty.first_failed_filter(&other), None);
}

#[test]
fn unmatched_pickup_leaves_alert() {
    let trip = scenario_trip();
    let alert = rule(vec![Filter::IncludeLayover("LHR".to_string())], BotAction::Alert);
    let pickup = rule(vec![Filter::IncludeLayover("AMS".to_string())], BotAction::Pickup);
    assert_eq!(resolve_action(&vec![alert.clone(), pickup.clone()], &trip), BotAction::Alert);
    assert_eq!(resolve_action(&vec![pickup, alert], &trip), BotAction::Alert);
}

#[test]
fn matched_pickup_wins_in_any_order() {
    let trip = scenario_trip();
    let alert = rule(vec![Filter::IncludeLayover("LHR".to_string())], BotAction::Alert);
    let pickup = rule(vec![Filter::NumDays(Op::Eq, 3)], BotAction::Pickup);
    assert_eq!(resolve_action(&vec![alert.clone(), pickup.clone()], &trip), BotAction::Pickup);
    assert_eq!(resolve_action(&vec![pickup, alert], &trip), BotAction::Pickup);
}

#[test]
fn inert_actions_resolve_to_nothing() {
    let trip = scenario_trip();
    assert_eq!(resolve_action(&vec![], &trip), BotAction::Nothing);
    let ignore = rule(vec![], BotAction::Ignore);
    assert_eq!(resolve_action(&vec![ignore.clone()], &trip), BotAction::Nothing);
    let alert = rule(vec![], BotAction::Alert);
    assert_eq!(resolve_action(&vec![ignore, alert], &trip), BotAction::Alert);
    assert_eq!(BotAction::Ignore.rank(), 0);
    assert_eq!(BotAction::Nothing.rank(), 0);
    assert_eq!(BotAction::Alert.rank(), 1);
    assert_eq!(BotAction::Pickup.rank(), 2);
}

#[test]
fn short_circuit_reports_first_failing_filter() {
    let trip = scenario_trip();
    let r = rule(
        vec![
            Filter::IsPrem,
            Filter::IncludeLayover("AMS".to_string()),
            Filter::NumDays(Op::Eq, 3),
        ],
        BotAction::Pickup,
    );
    assert!(!r.eval(&trip));
    assert_eq!(r.first_failed_filter(&trip), Some(0));
    assert_eq!(r.get_action(&trip), BotAction::Nothing);
    let r2 = rule(
        vec![Filter::NumDays(Op::Eq, 3), Filter::IncludeLayover("AMS".to_string())],
        BotAction::Pickup,
    );
    assert_eq!(r2.first_failed_filter(&trip), Some(1));
}

#[test]
fn time_filters() {
    let trip = scenario_trip();
    assert!(Filter::TimeDiff(Field::Arrive, Field::Depart, Op::Eq, t(7, 30)).eval(&trip));
    assert!(Filter::TimeDiff(Field::Arrive, Field::Report, Op::Gt, t(7, 59)).eval(&trip));
    assert!(!Filter::TimeDiff(Field::Arrive, Field::Report, Op::Lt, t(8, 0)).eval(&trip));
    assert!(Filter::TimeDiff(Field::Report, Field::Arrive, Op::Eq, t(4, 0)).eval(&trip));
    assert!(Filter::FieldIs(Field::Report, Op::Lt, t(8, 0)).eval(&trip));
    assert!(Filter::FieldIs(Field::Report, Op::LtEq, t(7, 0)).eval(&trip));
    assert!(!Filter::FieldIs(Field::Report, Op::NEq, t(7, 0)).eval(&trip));
    assert!(Filter::FieldIs(Field::Block, Op::GtEq, t(8, 0)).eval(&trip));
    assert!(!Filter::FieldIs(Field::Credit, Op::Gt, t(6, 0)).eval(&trip));
}

#[test]
fn date_day_premium_and_id_filters() {
    let trip = scenario_trip();
    let d = |month, day| Date { year: 2025, month, day };
    assert!(Filter::DateIs(Op::Eq, d(1, 15)).eval(&trip));
    assert!(Filter::DateIs(Op::Lt, d(2, 1)).eval(&trip));
    assert!(!Filter::DateIs(Op::Gt, d(1, 15)).eval(&trip));
    assert!(Filter::NumDays(Op::LtEq, 3).eval(&trip));
    assert!(!Filter::NumDays(Op::Lt, 3).eval(&trip));
    assert!(!Filter::IsPrem.eval(&trip));
    assert!(Filter::IncludeId("AB12".to_string()).eval(&trip));
    assert!(!Filter::IncludeId("AB1".to_string()).eval(&trip));
}

#[test]
fn filter_names_and_descriptions() {
    let cases = [
        (
            Filter::TimeDiff(Field::Arrive, Field::Depart, Op::GtEq, t(7, 30)),
            "TimeDiff",
            "Arrive - Depart >= 07:30",
        ),
        (Filter::FieldIs(Field::Report, Op::Lt, t(8, 0)), "FieldIs", "Report < 08:00"),
        (
            Filter::DateIs(Op::Eq, Date { year: 2025, month: 1, day: 15 }),
            "DateIs",
            "Date = JAN 15, 2025",
        ),
        (Filter::IncludeLayover("LHR".to_string()), "IncludeLay", "Include [LHR]"),
        (Filter::ExcludeLayover("CDG".to_string()), "ExcludeLay", "Exclude [CDG]"),
        (Filter::NumDays(Op::NEq, 12), "NumDays", "Days != 12"),
        (Filter::IsPrem, "IsPrem", "Is Premium"),
        (Filter::IncludeId("AB12".to_string()), "IsID", "Trip ID is \"AB12\""),
    ];
    for (filter, name, text) in cases {
        assert_eq!(filter.name(), name);
        assert_eq!(filter.as_string(), text);
    }
    assert_eq!(Filter::NumDays(Op::Gt, 255).as_string(), "Days > 255");
}

#[test]
fn new_filters_by_kind() {
    assert_eq!(Filter::from_type(FilterType::NewFilter), None);
    assert_eq!(
        Filter::from_type(FilterType::TimeDiff),
        Some(Filter::TimeDiff(Field::Report, Field::Report, Op::Eq, t(0, 0)))
    );
    assert_eq!(
        Filter::from_type(FilterType::DateIs),
        Some(Filter::DateIs(Op::Eq, Date { year: 2025, month: 1, day: 1 }))
    );
    assert_eq!(Filter::from_type(FilterType::NumDays), Some(Filter::NumDays(Op::Eq, 1)));
    assert_eq!(Filter::from_type(FilterType::IncludeId), Some(Filter::IncludeId(String::new())));
    assert_eq!(FilterType::IncludeLayover.label(), "IncludeLay");
    assert_eq!(FilterType::NewFilter.label(), "NewFilter");
}

#[test]
fn labels_of_actions_fields_and_ops() {
    assert_eq!(BotAction::Nothing.label(), "Do Nothing");
    assert_eq!(BotAction::Pickup.label(), "Pickup");
    assert_eq!(Field::Credit.label(), "Credit");
    assert_eq!(Op::LtEq.symbol(), "<=");
    assert_eq!(Op::NEq.symbol(), "!=");
}

#[test]
fn entries_bind_filter_values() {
    let field_is = Filter::FieldIs(Field::Report, Op::Lt, t(0, 0));
    assert_eq!(field_is.with_entry("08:30"), Filter::FieldIs(Field::Report, Op::Lt, t(8, 30)));
    assert_eq!(field_is.with_entry("0830"), Filter::FieldIs(Field::Report, Op::Lt, t(8, 30)));
    assert_eq!(field_is.with_entry("8:30"), field_is);
    let diff = Filter::TimeDiff(Field::Arrive, Field::Depart, Op::Gt, t(0, 0));
    assert_eq!(
        diff.with_entry("0745"),
        Filter::TimeDiff(Field::Arrive, Field::Depart, Op::Gt, t(7, 45))
    );
    let date = Filter::DateIs(Op::Eq, Date { year: 2025, month: 1, day: 1 });
    assert_eq!(
        date.with_entry("15MAR"),
        Filter::DateIs(Op::Eq, Date { year: 2025, month: 3, day: 15 })
    );
    assert_eq!(date.with_entry("15MRZ"), date);
    let days = Filter::NumDays(Op::Eq, 1);
    assert_eq!(days.with_entry("4"), Filter::NumDays(Op::Eq, 4));
    assert_eq!(days.with_entry("255"), Filter::NumDays(Op::Eq, 255));
    assert_eq!(days.with_entry("256"), days);
    assert_eq!(days.with_entry(""), days);
    assert_eq!(days.with_entry("+4"), days);
    assert_eq!(
        Filter::IncludeLayover(String::new()).with_entry("LHR"),
        Filter::IncludeLayover("LHR".to_string())
    );
    assert_eq!(
        Filter::ExcludeLayover("AMS".to_string()).with_entry("CDG"),
        Filter::ExcludeLayover("CDG".to_string())
    );
    assert_eq!(
        Filter::IncludeId(String::new()).with_entry("AB12"),
        Filter::IncludeId("AB12".to_string())
    );
    assert_eq!(Filter::IsPrem.with_entry("anything"), Filter::IsPrem);
}

#[test]
fn new_filters_carry_default_values() {
    assert_eq!(
        Filter::from_type(FilterType::FieldIs),
        Some(Filter::FieldIs(Field::Report, Op::Eq, t(0, 0)))
    );
    assert_eq!(
        Filter::from_type(FilterType::IncludeLayover),
        Some(Filter::IncludeLayover(String::new()))
    );
    assert_eq!(
        Filter::from_type(FilterType::ExcludeLayover),
        Some(Filter::ExcludeLayover(String::new()))
    );
    assert_eq!(Filter::from_type(FilterType::IsPrem), Some(Filter::IsPrem));
}
