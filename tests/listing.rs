use hungrychicken::{parse_trip_line, parse_trips, Date, Field, ParseTripError, Time, Trip};

fn t(hours: u8, minutes: u8) -> Time {
    Time { hours, minutes }
}

fn sample_trip() -> Trip {
    Trip {
        id: "AB12".to_string(),
        date: Date { year: 2025, month: 1, day: 15 },
        days: 3,
        report: t(7, 0),
        depart: t(7, 30),
        arrive: t(15, 0),
        block: t(8, 0),
        credit: t(6, 0),
        layovers: vec!["LHR".to_string(), "CDG".to_string()],
        premium: false,
    }
}

#[test]
fn parses_scenario_line() {
    let line = "AB12 15JAN 3 0700 0730 1500 0800 0600 LHR CDG  ";
    assert_eq!(parse_trip_line(line), Some(Ok(sample_trip())));
    assert_eq!(parse_trips(line), vec![sample_trip()]);
}

#[test]
fn premium_mark_sets_premium() {
    let trips = parse_trips("ZZ9 02FEB 1 06:15 07:00 09:45 0245 0300 AMS X");
    assert_eq!(trips.len(), 1);
    assert!(trips[0].premium);
    assert_eq!(trips[0].layovers, vec!["AMS".to_string()]);
    assert_eq!(trips[0].report, t(6, 15));
    assert_eq!(trips[0].date, Date { year: 2025, month: 2, day: 2 });
}

#[test]
fn trip_without_layovers() {
    let trips = parse_trips("T_1 28MAR 12 0500 0600 2200 1600 1200");
    assert_eq!(trips.len(), 1);
    assert!(trips[0].layovers.is_empty());
    assert!(!trips[0].premium);
    assert_eq!(trips[0].days, 12);
}

#[test]
fn skips_header_and_footer_lines() {
    let blob = "Open Time Report\nID DATE DAYS REPORT\n\
                AB12 15JAN 3 0700 0730 1500 0800 0600 LHR CDG\n\
                \r\n\
                CD34 16JAN 2 0800 0830 1600 0700 0500 DUB X\r\n\
                Page 1 of 1";
    let trips = parse_trips(blob);
    assert_eq!(trips.len(), 2);
    assert_eq!(trips[0].id, "AB12");
    assert_eq!(trips[1].id, "CD34");
    assert!(trips[1].premium);
    assert_eq!(trips[1].layovers, vec!["DUB".to_string()]);
}

#[test]
fn lines_that_are_not_trips_give_nothing() {
    assert_eq!(parse_trip_line(""), None);
    assert_eq!(parse_trip_line("Page 1 of 1"), None);
    assert_eq!(parse_trip_line("AB12 15JAN x 0700 0730 1500 0800 0600"), None);
    assert_eq!(parse_trip_line("AB12 15JAN 3 0700 0730 1500 0800 0600 LONDON"), None);
    assert_eq!(parse_trip_line("AB12 15JAN 3 0700 0730 1500 0800 0600 X LHR"), None);
    assert_eq!(parse_trip_line("AB-12 15JAN 3 0700 0730 1500 0800 0600"), None);
    assert!(parse_trips("\n\n").is_empty());
}

#[test]
fn malformed_columns_are_reported_and_skipped() {
    let cases = [
        ("AB12 15JAX 3 0700 0730 1500 0800 0600", ParseTripError::Date),
        ("AB12 15JAN 300 0700 0730 1500 0800 0600", ParseTripError::Days),
        ("AB12 15JAN 3 2500 0730 1500 0800 0600", ParseTripError::Report),
        ("AB12 15JAN 3 0700 07x30 1500 0800 0600", ParseTripError::Depart),
        ("AB12 15JAN 3 0700 0730 15:60 0800 0600", ParseTripError::Arrive),
        ("AB12 15JAN 3 0700 0730 1500 800 0600", ParseTripError::Block),
        ("AB12 15JAN 3 0700 0730 1500 0800 60000", ParseTripError::Credit),
    ];
    for (line, err) in cases {
        assert_eq!(parse_trip_line(line), Some(Err(err)));
        assert!(parse_trips(line).is_empty());
    }
    let blob = "AB12 15JAX 3 0700 0730 1500 0800 0600\nCD34 16JAN 2 0800 0830 1600 0700 0500";
    let trips = parse_trips(blob);
    assert_eq!(trips.len(), 1);
    assert_eq!(trips[0].id, "CD34");
}

#[test]
fn largest_day_count_fits() {
    assert_eq!(parse_trips("A 01JAN 255 0000 0000 0000 0000 0000")[0].days, 255);
    assert_eq!(
        parse_trip_line("A 01JAN 256 0000 0000 0000 0000 0000"),
        Some(Err(ParseTripError::Days))
    );
    assert_eq!(parse_trips("A 01JAN 007 0000 0000 0000 0000 0000")[0].days, 7);
}

#[test]
fn get_reads_each_time_column() {
    let trip = sample_trip();
    assert_eq!(trip.get(Field::Report), t(7, 0));
    assert_eq!(trip.get(Field::Depart), t(7, 30));
    assert_eq!(trip.get(Field::Arrive), t(15, 0));
    assert_eq!(trip.get(Field::Block), t(8, 0));
    assert_eq!(trip.get(Field::Credit), t(6, 0));
}

#[test]
fn skipped_records_name_the_failing_column() {
    let blob = "header\nAB12 15JAX 3 0700 0730 1500 0800 0600\n\
                AB12 15JAN 3 0700 0730 1500 0800 0600 LHR\n\
                CD34 16JAN 999 0800 0830 1600 0800 0600";
    assert_eq!(
        hungrychicken::skipped_records(blob),
        vec![ParseTripError::Date, ParseTripError::Days]
    );
    assert!(hungrychicken::skipped_records("AB12 15JAN 3 0700 0730 1500 0800 0600").is_empty());
}
