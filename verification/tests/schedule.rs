use chrono::Datelike;
use morningstar::calendar::{
    runs_on_date, weekday_mask, Date, Exception, ServiceException, ServicePattern, FRIDAY, MONDAY,
    SATURDAY, SUNDAY, WEEKENDS, WORKDAYS,
};
use morningstar::timetable::{Journey, StopTime, TimeTable};

fn st(h: u32, m: u32, name: &str) -> StopTime {
    StopTime {
        time: h * 3600 + m * 60,
        stop_name: name.to_string(),
        stop_id: String::new(),
        destination: None,
        stops_to_destination: None,
    }
}

fn day(year: u32, ordinal: u32) -> Date {
    Date::from_yo(year, ordinal).unwrap()
}

fn sample_tt() -> TimeTable {
    let mut tt = TimeTable::new();
    let wd_pattern = ServicePattern {
        weekdays: WORKDAYS,
        start_date: day(2024, 1),
        end_date: day(2024, 75),
    };
    tt.add_pattern("wd1".to_owned(), wd_pattern);
    let we_pattern = ServicePattern { weekdays: WEEKENDS, ..wd_pattern };
    tt.add_pattern("we1".to_owned(), we_pattern);
    tt.add_journey(Journey {
        service_id: "wd1".to_owned(),
        stops: vec![
            st(14, 0, "Église"),
            st(14, 6, "Marché"),
            st(14, 9, "Potato Factory"),
            st(14, 15, "Gare"),
        ],
    });
    tt.add_journey(Journey {
        service_id: "wd1".to_owned(),
        stops: vec![
            st(15, 0, "Église"),
            st(15, 6, "Marché"),
            st(15, 6, "Potato Factory"),
            st(15, 15, "Gare"),
        ],
    });
    tt.add_journey(Journey {
        service_id: "we1".to_owned(),
        stops: vec![
            st(16, 0, "Église"),
            st(16, 6, "Marché"),
            st(16, 9, "Terrain d'airsoft"),
            st(16, 15, "Gare"),
        ],
    });
    tt.add_journey(Journey {
        service_id: "we1".to_owned(),
        stops: vec![
            st(15, 0, "Église"),
            st(15, 6, "Marché"),
            st(15, 6, "Terrain d'airsoft"),
            st(15, 15, "Gare"),
        ],
    });
    tt
}

fn internal_inside_operating_range(tt: &TimeTable) {
    let we_day = day(2024, 7);
    let wd_day = day(2024, 8);
    let journeys = tt.get_journeys_for_day(wd_day);
    for item in &journeys {
        let count = item
            .stops
            .iter()
            .map(|stop_time| &stop_time.stop_name)
            .filter(|stop_name| *stop_name == "Potato Factory")
            .count();
        assert_eq!(count, 1);
    }
    let journeys = tt.get_journeys_for_day(we_day);
    for item in &journeys {
        let count = item
            .stops
            .iter()
            .map(|stop_time| &stop_time.stop_name)
            .filter(|stop_name| *stop_name == "Terrain d'airsoft")
            .count();
        assert_eq!(count, 1);
    }
}

fn internal_outside_operating_range(tt: &TimeTable) {
    let we_day = day(2024, 222);
    let wd_day = day(2024, 223);
    let journeys = tt.get_journeys_for_day(wd_day).len();
    assert_eq!(journeys, 0);
    let journeys = tt.get_journeys_for_day(we_day).len();
    assert_eq!(journeys, 0);
    let d = day(2024, 76);
    let journeys = tt.get_journeys_for_day(d).len();
    assert_eq!(journeys, 0);
}

#[test]
fn inside_operating_range() {
    let tt = sample_tt();
    internal_inside_operating_range(&tt);
}

#[test]
fn outside_operating_range() {
    let tt = sample_tt();
    internal_outside_operating_range(&tt);
}

#[test]
fn a_to_b_journey() {
    let tt = sample_tt();
    let d = day(2024, 7);
    let stoptimes = tt.get_day_stoptimes_from_a_to_b(d, "Marché", "Gare");
    let size = stoptimes.len();
    assert_eq!(size, 2);
    for stoptime in stoptimes {
        assert_eq!(stoptime.0.stop_name, "Marché");
        assert_eq!(stoptime.1.stop_name, "Gare");
    }
}

#[test]
fn a_to_b_journey_wrong_way() {
    let tt = sample_tt();
    let d = day(2024, 7);
    let stoptimes = tt.get_day_stoptimes_from_a_to_b(d, "Gare", "Marché");
    assert_eq!(stoptimes.len(), 0);
}

#[test]
fn a_to_b_journey_non_existant_dest() {
    let tt = sample_tt();
    let d = day(2024, 7);
    let stoptimes = tt.get_day_stoptimes_from_a_to_b(d, "Marché", "Arrêt qui n'existe pas");
    assert_eq!(stoptimes.len(), 0);
}

#[test]
fn a_to_b_journey_non_existant_start() {
    let tt = sample_tt();
    let d = day(2024, 7);
    let stoptimes = tt.get_day_stoptimes_from_a_to_b(d, "Arrêt qui n'existe pas", "Marché");
    assert_eq!(stoptimes.len(), 0);
}

#[test]
fn day_stop_names() {
    let tt = sample_tt();
    let d = day(2024, 7);
    let mut stop_names = tt.get_stops_served_on_day(d);
    stop_names.sort();
    let mut expected = vec!["Église", "Marché", "Gare", "Terrain d'airsoft"];
    expected.sort();
    assert_eq!(stop_names, expected);
    let d = day(2024, 8);
    let mut stop_names = tt.get_stops_served_on_day(d);
    stop_names.sort();
    let mut expected = vec!["Église", "Marché", "Gare", "Potato Factory"];
    expected.sort();
    assert_eq!(stop_names, expected);
}

#[test]
fn weekday_pattern_scenario() {
    // Pattern on weekdays, valid 2024-01-01 through 2024-03-15.
    let mut tt = TimeTable::new();
    tt.add_pattern(
        "s".to_owned(),
        ServicePattern {
            weekdays: WORKDAYS,
            start_date: Date::from_ymd(2024, 1, 1).unwrap(),
            end_date: Date::from_ymd(2024, 3, 15).unwrap(),
        },
    );
    assert!(tt.runs_on("s", Date::from_ymd(2024, 1, 8).unwrap())); // a Monday
    assert!(!tt.runs_on("s", Date::from_ymd(2024, 1, 13).unwrap())); // a Saturday
    assert!(!tt.runs_on("s", Date::from_ymd(2024, 3, 20).unwrap())); // out of range
}

#[test]
fn added_exception_scenario() {
    // No pattern at all; one Added exception on 2024-07-14.
    let mut tt = TimeTable::new();
    tt.add_exception(
        "s2".to_owned(),
        ServiceException {
            date: Date::from_ymd(2024, 7, 14).unwrap(),
            exception_type: Exception::Added,
        },
    );
    assert!(tt.runs_on("s2", Date::from_ymd(2024, 7, 14).unwrap()));
    assert!(!tt.runs_on("s2", Date::from_ymd(2024, 7, 13).unwrap()));
    assert!(!tt.runs_on("s2", Date::from_ymd(2024, 7, 15).unwrap()));
}

#[test]
fn deleted_exception_overrides_pattern() {
    let mut tt = TimeTable::new();
    tt.add_pattern(
        "s".to_owned(),
        ServicePattern {
            weekdays: WORKDAYS,
            start_date: Date::from_ymd(2024, 1, 1).unwrap(),
            end_date: Date::from_ymd(2024, 12, 31).unwrap(),
        },
    );
    let monday = Date::from_ymd(2024, 1, 8).unwrap();
    assert!(tt.runs_on("s", monday));
    tt.add_exception(
        "s".to_owned(),
        ServiceException { date: monday, exception_type: Exception::Deleted },
    );
    assert!(!tt.runs_on("s", monday));
    // Other dates of the pattern are untouched.
    assert!(tt.runs_on("s", Date::from_ymd(2024, 1, 9).unwrap()));
}

#[test]
fn conflicting_exceptions_fall_back_to_pattern() {
    let mut tt = TimeTable::new();
    tt.add_pattern(
        "s".to_owned(),
        ServicePattern {
            weekdays: WORKDAYS,
            start_date: Date::from_ymd(2024, 1, 1).unwrap(),
            end_date: Date::from_ymd(2024, 12, 31).unwrap(),
        },
    );
    let monday = Date::from_ymd(2024, 1, 8).unwrap();
    let saturday = Date::from_ymd(2024, 1, 13).unwrap();
    for d in [monday, saturday] {
        tt.add_exception(
            "s".to_owned(),
            ServiceException { date: d, exception_type: Exception::Added },
        );
        tt.add_exception(
            "s".to_owned(),
            ServiceException { date: d, exception_type: Exception::Deleted },
        );
    }
    // Contradictory exceptions are ignored: the pattern decides.
    assert!(tt.runs_on("s", monday));
    assert!(!tt.runs_on("s", saturday));
}

#[test]
fn between_scenario() {
    // A journey stopping at A 14:00, B 14:06, C 14:09, D 14:15.
    let mut tt = TimeTable::new();
    tt.add_pattern(
        "s".to_owned(),
        ServicePattern {
            weekdays: WORKDAYS | WEEKENDS,
            start_date: Date::from_ymd(2024, 1, 1).unwrap(),
            end_date: Date::from_ymd(2024, 12, 31).unwrap(),
        },
    );
    tt.add_journey(Journey {
        service_id: "s".to_owned(),
        stops: vec![st(14, 0, "A"), st(14, 6, "B"), st(14, 9, "C"), st(14, 15, "D")],
    });
    let d = Date::from_ymd(2024, 1, 8).unwrap();
    let pairs = tt.get_day_stoptimes_from_a_to_b(d, "B", "D");
    assert_eq!(pairs.len(), 1);
    assert_eq!(pairs[0].0.stop_name, "B");
    assert_eq!(pairs[0].0.time, 14 * 3600 + 6 * 60);
    assert_eq!(pairs[0].1.stop_name, "D");
    assert_eq!(pairs[0].1.time, 14 * 3600 + 15 * 60);
    let swapped = tt.get_day_stoptimes_from_a_to_b(d, "D", "B");
    assert_eq!(swapped.len(), 0);
}

#[test]
fn first_occurrence_is_returned() {
    // A journey visiting the same stop name twice: only the earlier call
    // is ever returned.
    let mut tt = TimeTable::new();
    tt.add_pattern(
        "s".to_owned(),
        ServicePattern {
            weekdays: WORKDAYS | WEEKENDS,
            start_date: Date::from_ymd(2024, 1, 1).unwrap(),
            end_date: Date::from_ymd(2024, 12, 31).unwrap(),
        },
    );
    tt.add_journey(Journey {
        service_id: "s".to_owned(),
        stops: vec![st(9, 0, "Loop"), st(9, 10, "Mid"), st(9, 20, "Loop")],
    });
    let d = Date::from_ymd(2024, 1, 8).unwrap();
    let firsts = tt.get_day_stoptimes_from_stop(d, "Loop");
    assert_eq!(firsts.len(), 1);
    assert_eq!(firsts[0].time, 9 * 3600);
}

#[test]
fn sort_orders_journeys_and_stops() {
    let mut tt = TimeTable::new();
    tt.add_journey(Journey {
        service_id: "s".to_owned(),
        stops: vec![st(10, 30, "B"), st(10, 0, "A"), st(11, 0, "C")],
    });
    tt.add_journey(Journey {
        service_id: "s".to_owned(),
        stops: vec![st(8, 15, "A"), st(8, 5, "Z")],
    });
    tt.sort_journeys_and_stops();
    assert_eq!(tt.journeys.len(), 2);
    assert_eq!(tt.journeys[0].stops[0].stop_name, "Z");
    assert_eq!(tt.journeys[0].stops[0].time, 8 * 3600 + 5 * 60);
    assert_eq!(tt.journeys[0].stops[1].time, 8 * 3600 + 15 * 60);
    assert_eq!(tt.journeys[1].stops[0].stop_name, "A");
    let times: Vec<u32> = tt.journeys[1].stops.iter().map(|s| s.time).collect();
    assert_eq!(times, vec![10 * 3600, 10 * 3600 + 30 * 60, 11 * 3600]);
}

#[test]
fn date_numbers_agree_with_chrono() {
    for (y, m, d) in [(2024, 1, 1), (2024, 2, 29), (2024, 3, 15), (1999, 12, 31), (2000, 2, 29)] {
        let ours = Date::from_ymd(y, m, d).unwrap();
        let theirs = chrono::NaiveDate::from_ymd_opt(y as i32, m, d).unwrap();
        assert_eq!(ours.day_number() as i32, theirs.num_days_from_ce());
        let w = {
            // weekday index with Monday as zero
            let mut dt = ours;
            dt.days = ours.day_number();
            dt.weekday()
        };
        assert_eq!(w as u32, theirs.weekday().num_days_from_monday());
    }
    assert!(Date::from_ymd(2023, 2, 29).is_none());
    assert!(Date::from_ymd(2024, 13, 1).is_none());
    assert!(Date::from_ymd(2024, 4, 31).is_none());
}

#[test]
fn mask_from_weekday_flags() {
    assert_eq!(weekday_mask(true, true, true, true, true, false, false), WORKDAYS);
    assert_eq!(weekday_mask(false, false, false, false, false, true, true), WEEKENDS);
    assert_eq!(weekday_mask(false, false, false, false, false, false, false), 0);
    assert_eq!(weekday_mask(true, false, false, false, false, false, true), MONDAY | SUNDAY);
}

#[test]
fn weekday_mask_bits() {
    let monday = Date::from_ymd(2024, 1, 8).unwrap();
    let friday = Date::from_ymd(2024, 1, 12).unwrap();
    let saturday = Date::from_ymd(2024, 1, 13).unwrap();
    assert!(runs_on_date(&monday, MONDAY));
    assert!(!runs_on_date(&monday, SATURDAY));
    assert!(runs_on_date(&friday, WORKDAYS));
    assert!(!runs_on_date(&saturday, WORKDAYS));
    assert!(runs_on_date(&saturday, WEEKENDS));
    assert!(runs_on_date(&saturday, FRIDAY | SATURDAY));
}
