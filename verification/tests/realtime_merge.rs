use chrono::TimeZone;
use morningstar::calendar::Date;
use morningstar::realtime::{
    classify_delta, merge_stoptimes, status_for_call, RealtimeStop, RealtimeStopStatus,
};
use morningstar::timetable::StopTime;

fn paris_ts(y: i32, mo: u32, d: u32, h: u32, mi: u32) -> i64 {
    chrono_tz::Europe::Paris.with_ymd_and_hms(y, mo, d, h, mi, 0).unwrap().timestamp()
}

fn th(h: u32, m: u32, dest: Option<&str>) -> StopTime {
    StopTime {
        time: h * 3600 + m * 60,
        stop_name: "Parc du Bel-Air".to_string(),
        stop_id: "IDFM:123".to_string(),
        destination: dest.map(|d| d.to_string()),
        stops_to_destination: Some(4),
    }
}

#[test]
fn classification_scenario() {
    let aimed = paris_ts(2024, 1, 8, 10, 0);
    assert!(matches!(classify_delta(aimed + 120, aimed), RealtimeStopStatus::Late(2)));
    assert!(matches!(classify_delta(aimed - 60, aimed), RealtimeStopStatus::Early(1)));
    assert!(matches!(classify_delta(aimed, aimed), RealtimeStopStatus::OnTime));
    // Differences under a whole minute are on time.
    assert!(matches!(classify_delta(aimed + 59, aimed), RealtimeStopStatus::OnTime));
    assert!(matches!(classify_delta(aimed - 59, aimed), RealtimeStopStatus::OnTime));
    assert!(matches!(classify_delta(aimed + 60, aimed), RealtimeStopStatus::Late(1)));
}

#[test]
fn status_without_timing() {
    let t = 1700000000i64;
    assert!(matches!(status_for_call(Some(t + 120), Some(t), None), RealtimeStopStatus::Late(2)));
    let other = status_for_call(None, Some(t), Some("delayed".to_string()));
    match other {
        RealtimeStopStatus::Other(text) => assert_eq!(text, "delayed"),
        _ => panic!("expected the textual status to be kept"),
    }
    assert!(matches!(status_for_call(None, None, None), RealtimeStopStatus::Unknown));
}

#[test]
fn merge_matches_live_calls() {
    let today = Date::from_ymd(2024, 1, 8).unwrap();
    let theoretical = vec![th(14, 0, Some("Planned Terminus")), th(14, 6, Some("Planned Terminus"))];
    let aimed = paris_ts(2024, 1, 8, 14, 0);
    let live = vec![RealtimeStop {
        expected_arrival: aimed + 120,
        aimed_arrival: aimed,
        destination: "Gare de Bussy".to_string(),
        status: classify_delta(aimed + 120, aimed),
    }];
    let merged = merge_stoptimes("Europe/Paris", today, &theoretical, &live);
    assert_eq!(merged.len(), 2);
    assert_eq!(merged[0].aimed_arrival, aimed);
    assert_eq!(merged[0].expected_arrival, Some(aimed + 120));
    assert_eq!(merged[0].destination.as_deref(), Some("Gare de Bussy"));
    assert_eq!(merged[0].stops_to_destination, Some(4));
    assert!(matches!(merged[0].status, Some(RealtimeStopStatus::Late(2))));
    assert_eq!(merged[1].aimed_arrival, paris_ts(2024, 1, 8, 14, 6));
    assert_eq!(merged[1].expected_arrival, None);
    assert_eq!(merged[1].destination.as_deref(), Some("Planned Terminus"));
    assert!(merged[1].status.is_none());
}

#[test]
fn merge_drops_nonexistent_local_time() {
    // In Europe/Paris the clock jumps from 02:00 to 03:00 on 2024-03-31:
    // 02:30 does not exist that day and its entry is dropped.
    let today = Date::from_ymd(2024, 3, 31).unwrap();
    let theoretical = vec![th(1, 30, None), th(2, 30, None), th(3, 30, None)];
    let merged = merge_stoptimes("Europe/Paris", today, &theoretical, &vec![]);
    assert_eq!(merged.len(), 2);
    assert_eq!(merged[0].aimed_arrival, paris_ts(2024, 3, 31, 1, 30));
    assert_eq!(merged[1].aimed_arrival, paris_ts(2024, 3, 31, 3, 30));
}

#[test]
fn merge_resolves_ambiguous_local_time_to_earliest() {
    // On 2024-10-27 the hour from 02:00 to 03:00 repeats in Europe/Paris;
    // the merge takes the earliest reading.
    let today = Date::from_ymd(2024, 10, 27).unwrap();
    let theoretical = vec![th(2, 30, None)];
    let merged = merge_stoptimes("Europe/Paris", today, &theoretical, &vec![]);
    assert_eq!(merged.len(), 1);
    let earliest = chrono_tz::Europe::Paris
        .with_ymd_and_hms(2024, 10, 27, 2, 30, 0)
        .earliest()
        .unwrap()
        .timestamp();
    assert_eq!(merged[0].aimed_arrival, earliest);
}

#[test]
fn merge_degrades_without_live_feed() {
    let today = Date::from_ymd(2024, 1, 8).unwrap();
    let theoretical = vec![th(14, 0, Some("A")), th(14, 6, None), th(14, 9, Some("B"))];
    let merged = merge_stoptimes("Europe/Paris", today, &theoretical, &vec![]);
    assert_eq!(merged.len(), 3);
    for (k, record) in merged.iter().enumerate() {
        assert!(record.expected_arrival.is_none());
        assert!(record.status.is_none());
        assert_eq!(record.destination, theoretical[k].destination);
        assert_eq!(record.stops_to_destination, Some(4));
    }
    assert!(merged[0].aimed_arrival < merged[1].aimed_arrival);
    assert!(merged[1].aimed_arrival < merged[2].aimed_arrival);
}

#[test]
fn merge_with_unknown_timezone_yields_nothing() {
    let today = Date::from_ymd(2024, 1, 8).unwrap();
    let theoretical = vec![th(14, 0, None)];
    let merged = merge_stoptimes("Not/AZone", today, &theoretical, &vec![]);
    assert_eq!(merged.len(), 0);
}

#[test]
fn merge_takes_first_matching_live_call() {
    let today = Date::from_ymd(2024, 1, 8).unwrap();
    let theoretical = vec![th(14, 0, None)];
    let aimed = paris_ts(2024, 1, 8, 14, 0);
    let live = vec![
        RealtimeStop {
            expected_arrival: aimed,
            aimed_arrival: aimed,
            destination: "First".to_string(),
            status: RealtimeStopStatus::OnTime,
        },
        RealtimeStop {
            expected_arrival: aimed + 300,
            aimed_arrival: aimed,
            destination: "Second".to_string(),
            status: RealtimeStopStatus::Late(5),
        },
    ];
    let merged = merge_stoptimes("Europe/Paris", today, &theoretical, &live);
    assert_eq!(merged.len(), 1);
    assert_eq!(merged[0].destination.as_deref(), Some("First"));
    assert!(matches!(merged[0].status, Some(RealtimeStopStatus::OnTime)));
}
