use morningstar::mock::{FakeGenerator, MAX_FAKE_BASE, MIN_FAKE_BASE};
use morningstar::realtime::RealtimeStopStatus;

#[test]
fn generated_realtime_stop_is_offset_from_base() {
    let g = FakeGenerator::with_base(1_700_000_040, 3600);
    let rt = g.create_realtime_stop(10, "Dest", 2, RealtimeStopStatus::Late(2));
    assert_eq!(rt.aimed_arrival, 1_700_000_040 + 600);
    assert_eq!(rt.expected_arrival, 1_700_000_040 + 720);
    assert_eq!(rt.destination, "Dest");
    assert!(matches!(rt.status, RealtimeStopStatus::Late(2)));
}

#[test]
fn generated_stop_time_carries_local_time_of_day() {
    let g = FakeGenerator::with_base(1_700_000_040, 3600);
    let st = g.create_stop_time(0, "Stop", "IDFM:1");
    assert_eq!(st.time, ((1_700_000_040u64 + 3600) % 86400) as u32);
    assert_eq!(st.stop_name, "Stop");
    assert_eq!(st.stop_id, "IDFM:1");
    assert!(st.destination.is_none());
    assert!(st.stops_to_destination.is_none());
    let later = g.create_stop_time(10, "Stop", "IDFM:1");
    assert_eq!(later.time, st.time + 600);
}

#[test]
fn fake_lists_have_the_sample_shape() {
    let g = FakeGenerator::with_base(1_700_000_040, 3600);
    let theoretical = g.fake_theorical_with_destination_list();
    assert_eq!(theoretical.len(), 6);
    for st in &theoretical {
        assert_eq!(st.stop_name, "Parc du Bel-Air");
        assert_eq!(st.stop_id, "IDFM:123");
        assert_eq!(st.destination.as_deref(), Some("Gare de Bussy-St-Georges"));
        assert_eq!(st.stops_to_destination, Some(3));
    }
    let live = g.fake_realtime_list();
    assert_eq!(live.len(), 3);
    assert_eq!(live[0].aimed_arrival, 1_700_000_040);
    assert_eq!(live[0].expected_arrival, 1_700_000_040 + 120);
    assert!(matches!(live[0].status, RealtimeStopStatus::Late(2)));
    assert_eq!(live[1].aimed_arrival, 1_700_000_040 + 600);
    assert_eq!(live[1].expected_arrival, 1_700_000_040 + 540);
    assert!(matches!(live[1].status, RealtimeStopStatus::Early(1)));
    assert_eq!(live[2].aimed_arrival, 1_700_000_040 + 1200);
    assert_eq!(live[2].expected_arrival, 1_700_000_040 + 1200);
    assert!(matches!(live[2].status, RealtimeStopStatus::OnTime));
    for rt in &live {
        assert_eq!(rt.destination, "Gare de Bussy");
    }
}

#[test]
fn default_generator_is_anchored_in_range() {
    let g = FakeGenerator::default();
    assert!(MIN_FAKE_BASE <= g.base_instant && g.base_instant <= MAX_FAKE_BASE);
    assert!(-86400 < g.utc_offset_secs && g.utc_offset_secs < 86400);
}
