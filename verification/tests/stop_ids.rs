use morningstar::stop_id::StopId;

#[test]
fn from_gtfs_id_str() {
    let stop_id: StopId = "IDFM:1234".parse().unwrap();
    assert_eq!(stop_id.prim(), "STIF:StopPoint:Q:1234:");
    assert_eq!(stop_id.bare(), "1234");
    assert_eq!(stop_id.gtfs().as_str(), "IDFM:1234");
}

#[test]
fn from_bare_str() {
    let stop_id: StopId = "1234".parse().unwrap();
    assert_eq!(stop_id.prim(), "STIF:StopPoint:Q:1234:");
    assert_eq!(stop_id.bare(), "1234");
}

#[test]
fn from_bare_str_with_suffix() {
    let stop_id: StopId = "1234:".parse().unwrap();
    assert_eq!(stop_id.prim(), "STIF:StopPoint:Q:1234:");
    assert_eq!(stop_id.bare(), "1234");
}

#[test]
fn from_bare_with_prefix() {
    let stop_id: StopId = "STIF:StopPoint:Q:1234".parse().unwrap();
    assert_eq!(stop_id.prim(), "STIF:StopPoint:Q:1234:");
    assert_eq!(stop_id.bare(), "1234");
}

#[test]
fn from_bare_with_both_affixes() {
    let stop_id: StopId = "STIF:StopPoint:Q:1234:".parse().unwrap();
    assert_eq!(stop_id.prim(), "STIF:StopPoint:Q:1234:");
    assert_eq!(stop_id.bare(), "1234");
}

#[test]
fn round_trip_through_all_forms() {
    let from_prim: StopId = "STIF:StopPoint:Q:463641:".parse().unwrap();
    let from_gtfs: StopId = from_prim.gtfs().parse().unwrap();
    let from_bare: StopId = from_gtfs.bare().parse().unwrap();
    assert_eq!(from_bare, from_prim);
    assert_eq!(from_bare.prim(), "STIF:StopPoint:Q:463641:");
    assert_eq!(from_bare.gtfs(), "IDFM:463641");
    assert_eq!(from_bare.bare(), "463641");
}
