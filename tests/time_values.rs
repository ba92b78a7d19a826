use hungrychicken::temporal::DEFAULT_YEAR;
use hungrychicken::{month_from_str, Date, ParseDateError, ParseTimeError, Time};

fn t(hours: u8, minutes: u8) -> Time {
    Time { hours, minutes }
}

#[test]
fn parses_four_digit_clock_token() {
    assert_eq!(Time::parse("0730"), Ok(t(7, 30)));
    assert_eq!(Time::parse("2359"), Ok(t(23, 59)));
    assert_eq!(Time::parse("0000"), Ok(t(0, 0)));
}

#[test]
fn parses_colon_clock_token() {
    assert_eq!(Time::parse("07:30"), Ok(t(7, 30)));
    assert_eq!(Time::parse("18:05"), Ok(t(18, 5)));
}

#[test]
fn round_trips_every_clock_value() {
    for h in 0..24u8 {
        for m in 0..60u8 {
            let plain = format!("{:02}{:02}", h, m);
            let colon = format!("{:02}:{:02}", h, m);
            assert_eq!(Time::parse(&plain), Ok(t(h, m)));
            assert_eq!(Time::parse(&colon), Ok(t(h, m)));
            assert_eq!(Time::parse(&t(h, m).to_text()), Ok(t(h, m)));
        }
    }
}

#[test]
fn refuses_tokens_of_other_lengths() {
    for s in ["", "7", "730", "073000", "07:300", "0:730:"] {
        assert_eq!(Time::parse(s), Err(ParseTimeError));
    }
}

#[test]
fn refuses_malformed_clock_tokens() {
    for s in ["2400", "0760", "07-30", "7:30a", "ab12", "+730", "07:3x"] {
        assert_eq!(Time::parse(s), Err(ParseTimeError));
    }
}

#[test]
fn from_num_str_reads_listing_columns() {
    assert_eq!(Time::from_num_str("0800"), Ok(t(8, 0)));
    assert_eq!(Time::from_num_str("800"), Err(ParseTimeError));
}

#[test]
fn difference_without_borrow_is_fieldwise() {
    assert_eq!(t(15, 45) - t(7, 30), t(8, 15));
    assert_eq!(t(15, 0) - t(7, 0), t(8, 0));
    assert_eq!(t(9, 9) - t(9, 9), t(0, 0));
    assert_eq!(t(23, 59) - t(0, 0), t(23, 59));
}

#[test]
fn difference_borrows_an_hour() {
    assert_eq!(t(10, 15) - t(8, 30), t(1, 45));
    assert_eq!(t(15, 0) - t(7, 30), t(7, 30));
}

#[test]
fn difference_rolls_hours_over_twelve() {
    assert_eq!(t(2, 0) - t(5, 0), t(9, 0));
    assert_eq!(t(5, 10) - t(5, 20), t(11, 50));
    assert_eq!(t(1, 0) - t(23, 0), t(2, 0));
    assert_eq!(t(0, 0).diff(t(23, 59)), t(0, 1));
}

#[test]
fn time_order_is_hours_then_minutes() {
    assert!(t(7, 59).lt(&t(8, 0)));
    assert!(t(8, 0).lt(&t(8, 1)));
    assert!(!t(8, 1).lt(&t(8, 1)));
    assert!(!t(9, 0).lt(&t(8, 59)));
}

#[test]
fn time_text_is_zero_padded() {
    assert_eq!(t(7, 5).to_text(), "07:05");
    assert_eq!(t(23, 59).to_text(), "23:59");
    assert_eq!(Time::default(), t(0, 0));
}

#[test]
fn parses_day_and_month_token() {
    assert_eq!(Date::parse("15JAN"), Ok(Date { year: DEFAULT_YEAR, month: 1, day: 15 }));
    assert_eq!(Date::parse("01DEC"), Ok(Date { year: 2025, month: 12, day: 1 }));
}

#[test]
fn refuses_bad_date_tokens() {
    for s in ["15JAX", "1JAN", "15JANX", "15jan", "A5JAN", ""] {
        assert_eq!(Date::parse(s), Err(ParseDateError));
    }
}

#[test]
fn month_abbreviations() {
    let names = [
        "JAN", "FEB", "MAR", "APR", "MAY", "JUN", "JUL", "AUG", "SEP", "OCT", "NOV", "DEC",
    ];
    for (i, name) in names.iter().enumerate() {
        assert_eq!(month_from_str(name), Ok(i as u8 + 1));
    }
    assert_eq!(month_from_str("Dec"), Err(ParseDateError));
    assert_eq!(month_from_str("DECE"), Err(ParseDateError));
}

#[test]
fn date_order_is_calendar_order() {
    let d = |month, day| Date { year: 2025, month, day };
    assert!(d(1, 31).lt(&d(2, 1)));
    assert!(d(3, 1).lt(&d(3, 2)));
    assert!(!d(3, 2).lt(&d(3, 2)));
    assert!(Date { year: 2024, month: 12, day: 31 }.lt(&d(1, 1)));
}

#[test]
fn date_text_and_default() {
    assert_eq!(Date { year: 2025, month: 1, day: 15 }.to_text(), "JAN 15, 2025");
    assert_eq!(Date { year: 7, month: 13, day: 3 }.to_text(), "N/A 03, 0007");
    assert_eq!(Date::default(), Date { year: 2025, month: 1, day: 1 });
}

#[test]
fn from_str_parses_like_parse() {
    assert_eq!("0730".parse::<Time>(), Ok(t(7, 30)));
    assert_eq!("07:30".parse::<Time>(), Ok(t(7, 30)));
    assert_eq!("7:30".parse::<Time>(), Err(ParseTimeError));
    assert_eq!("15JAN".parse::<Date>(), Ok(Date { year: 2025, month: 1, day: 15 }));
    assert_eq!("15JA".parse::<Date>(), Err(ParseDateError));
}

#[test]
fn parse_trait_round_trips_and_refuses() {
    for h in 0..24u8 {
        for m in 0..60u8 {
            assert_eq!(format!("{:02}{:02}", h, m).parse::<Time>(), Ok(t(h, m)));
            assert_eq!(format!("{:02}:{:02}", h, m).parse::<Time>(), Ok(t(h, m)));
            assert_eq!(t(h, m).to_text().parse::<Time>(), Ok(t(h, m)));
        }
    }
    for s in ["", "730", "073000", "2460", "2400", "0760", "aé1", "aé12", "éé:éé", "07:3é"] {
        assert_eq!(s.parse::<Time>(), Err(ParseTimeError));
    }
}

#[test]
fn numeric_and_trait_parsers_agree() {
    for s in ["0000", "0730", "07:30", "2359", "2400", "730", "aé1", "12:3x", ""] {
        assert_eq!(Time::from_num_str(s), s.parse::<Time>());
        assert_eq!(Time::parse(s), s.parse::<Time>());
    }
}

#[test]
fn parse_trait_reads_dates() {
    assert_eq!("15JAN".parse::<Date>(), Ok(Date { year: 2025, month: 1, day: 15 }));
    assert_eq!("31DEC".parse::<Date>(), Ok(Date { year: 2025, month: 12, day: 31 }));
    for s in ["15XYZ", "5JAN", "15JANU", "１5JAN", "15JÄN", ""] {
        assert_eq!(s.parse::<Date>(), Err(ParseDateError));
    }
    let months = ["JAN", "FEB", "MAR", "APR", "MAY", "JUN", "JUL", "AUG", "SEP", "OCT", "NOV", "DEC"];
    for name in months {
        let d = format!("01{}", name).parse::<Date>().unwrap();
        assert!((1..=12).contains(&d.month));
    }
}
