//! A generator of sample theoretical and live data, anchored at the current
//! minute, for exercising the merge without a real feed.

use vstd::prelude::*;
use chrono::TimeZone;
use crate::realtime::{RealtimeStop, RealtimeStopStatus, RealtimeStopStatusV};
use crate::timetable::StopTime;

verus! {

/// Lowest base instant the generator accepts: far enough from the epoch
/// that offsets of a day in either direction stay positive.
pub const MIN_FAKE_BASE: i64 = 172800;

/// Highest base instant the generator accepts.
pub const MAX_FAKE_BASE: i64 = 4000000000000;

/// Relies on chrono's `Utc::now` and chrono_tz's Europe/Paris offset
/// lookup: the current instant in seconds of the Unix epoch, and the UTC
/// offset of Europe/Paris at that instant in seconds. A chrono FixedOffset
/// is documented to lie strictly between -86400 and 86400 seconds.
#[verifier::external_body]
fn now_in_paris() -> (r: (i64, i32))
    ensures
        -86400 < r.1 < 86400,
{
    let now = chrono::Utc::now();
    let fixed = chrono_tz::Europe::Paris.from_utc_datetime(&now.naive_utc()).fixed_offset();
    (now.timestamp(), fixed.offset().local_minus_utc())
}

/// Produces sample live and theoretical stop data from one base instant.
pub struct FakeGenerator {
    /// Anchor instant, in seconds of the Unix epoch.
    pub base_instant: i64,
    /// UTC offset of the generator's locale at the anchor, in seconds.
    pub utc_offset_secs: i32,
}

/// The local time of day, in seconds since midnight, reached
/// `minutes_offset` minutes after the generator's anchor.
pub open spec fn spec_local_seconds(g: FakeGenerator, minutes_offset: int) -> int {
    (g.base_instant + 60 * minutes_offset + g.utc_offset_secs) % 86400
}

/// Offsets, in minutes from the anchor, of the sample theoretical list.
pub open spec fn fake_offset(i: int) -> int {
    if i == 0 {
        -38
    } else if i == 1 {
        -8
    } else if i == 2 {
        0
    } else if i == 3 {
        10
    } else if i == 4 {
        20
    } else {
        40
    }
}

impl FakeGenerator {
    pub open spec fn wf(self) -> bool {
        MIN_FAKE_BASE <= self.base_instant <= MAX_FAKE_BASE && -86400 < self.utc_offset_secs
            < 86400
    }

    /// A generator for a chosen anchor instant and UTC offset.
    pub fn with_base(base_instant: i64, utc_offset_secs: i32) -> (r: FakeGenerator)
        requires
            MIN_FAKE_BASE <= base_instant <= MAX_FAKE_BASE,
            -86400 < utc_offset_secs < 86400,
        ensures
            r.wf(),
            r.base_instant == base_instant,
            r.utc_offset_secs == utc_offset_secs,
    {
        FakeGenerator { base_instant, utc_offset_secs }
    }

    /// A live call `minutes_offset` minutes after the anchor, expected
    /// `delay_minutes` after its aimed instant.
    pub fn create_realtime_stop(
        &self,
        minutes_offset: i64,
        destination: &str,
        delay_minutes: i64,
        status: RealtimeStopStatus,
    ) -> (r: RealtimeStop)
        requires
            self.wf(),
            -1440 <= minutes_offset <= 1440,
            -1440 <= delay_minutes <= 1440,
        ensures
            r.aimed_arrival == self.base_instant + 60 * minutes_offset,
            r.expected_arrival == self.base_instant + 60 * minutes_offset + 60 * delay_minutes,
            r.destination@ == destination@,
            r.status == status,
    {
        let aimed = self.base_instant + 60 * minutes_offset;
        let expected = aimed + 60 * delay_minutes;
        RealtimeStop {
            expected_arrival: expected,
            aimed_arrival: aimed,
            destination: destination.to_owned(),
            status,
        }
    }

    /// A theoretical call `minutes_offset` minutes after the anchor, with
    /// no destination data.
    pub fn create_stop_time(&self, minutes_offset: i64, stop_name: &str, stop_id: &str) -> (r:
        StopTime)
        requires
            self.wf(),
            -1440 <= minutes_offset <= 1440,
        ensures
            r.time == spec_local_seconds(*self, minutes_offset as int),
            r.time < 86400,
            r.stop_name@ == stop_name@,
            r.stop_id@ == stop_id@,
            r.destination is None,
            r.stops_to_destination is None,
    {
        let x: u64 = (self.base_instant + 60 * minutes_offset + (self.utc_offset_secs as i64))
            as u64;
        let tod: u32 = (x % 86400) as u32;
        StopTime {
            time: tod,
            stop_name: stop_name.to_owned(),
            stop_id: stop_id.to_owned(),
            destination: None,
            stops_to_destination: None,
        }
    }

    /// A theoretical call with destination data: three stops remain to the
    /// given destination.
    pub fn create_stop_time_with_destination(
        &self,
        minutes_offset: i64,
        stop_name: &str,
        stop_id: &str,
        destination: &str,
    ) -> (r: StopTime)
        requires
            self.wf(),
            -1440 <= minutes_offset <= 1440,
        ensures
            r.time == spec_local_seconds(*self, minutes_offset as int),
            r.time < 86400,
            r.stop_name@ == stop_name@,
            r.stop_id@ == stop_id@,
            r.destination matches Some(d) && d@ == destination@,
            r.stops_to_destination == Some(3u32),
    {
        let x: u64 = (self.base_instant + 60 * minutes_offset + (self.utc_offset_secs as i64))
            as u64;
        let tod: u32 = (x % 86400) as u32;
        StopTime {
            time: tod,
            stop_name: stop_name.to_owned(),
            stop_id: stop_id.to_owned(),
            destination: Some(destination.to_owned()),
            stops_to_destination: Some(3),
        }
    }

    /// The sample theoretical list: six calls at Parc du Bel-Air, bound for
    /// Gare de Bussy-St-Georges, spread around the anchor minute.
    pub fn fake_theorical_with_destination_list(&self) -> (r: Vec<StopTime>)
        requires
            self.wf(),
        ensures
            r@.len() == 6,
            forall|i: int|
                0 <= i < 6 ==> {
                    &&& (#[trigger] r@[i]).time == spec_local_seconds(*self, fake_offset(i))
                    &&& r@[i].stop_name@ == "Parc du Bel-Air"@
                    &&& r@[i].stop_id@ == "IDFM:123"@
                    &&& r@[i].destination matches Some(d) && d@ == "Gare de Bussy-St-Georges"@
                    &&& r@[i].stops_to_destination == Some(3u32)
                },
    {
        let mut out: Vec<StopTime> = Vec::new();
        out.push(
            self.create_stop_time_with_destination(
                -38,
                "Parc du Bel-Air",
                "IDFM:123",
                "Gare de Bussy-St-Georges",
            ),
        );
        out.push(
            self.create_stop_time_with_destination(
                -8,
                "Parc du Bel-Air",
                "IDFM:123",
                "Gare de Bussy-St-Georges",
            ),
        );
        out.push(
            self.create_stop_time_with_destination(
                0,
                "Parc du Bel-Air",
                "IDFM:123",
                "Gare de Bussy-St-Georges",
            ),
        );
        out.push(
            self.create_stop_time_with_destination(
                10,
                "Parc du Bel-Air",
                "IDFM:123",
                "Gare de Bussy-St-Georges",
            ),
        );
        out.push(
            self.create_stop_time_with_destination(
                20,
                "Parc du Bel-Air",
                "IDFM:123",
                "Gare de Bussy-St-Georges",
            ),
        );
        out.push(
            self.create_stop_time_with_destination(
                40,
                "Parc du Bel-Air",
                "IDFM:123",
                "Gare de Bussy-St-Georges",
            ),
        );
        out
    }

    /// The sample live list: three calls bound for Gare de Bussy, two
    /// minutes late, one minute early and on time.
    pub fn fake_realtime_list(&self) -> (r: Vec<RealtimeStop>)
        requires
            self.wf(),
        ensures
            r@.len() == 3,
            r@[0].aimed_arrival == self.base_instant && r@[0].expected_arrival
                == self.base_instant + 120 && r@[0].status@ == RealtimeStopStatusV::Late(2),
            r@[1].aimed_arrival == self.base_instant + 600 && r@[1].expected_arrival
                == self.base_instant + 540 && r@[1].status@ == RealtimeStopStatusV::Early(1),
            r@[2].aimed_arrival == self.base_instant + 1200 && r@[2].expected_arrival
                == self.base_instant + 1200 && r@[2].status@ == RealtimeStopStatusV::OnTime,
            forall|i: int| 0 <= i < 3 ==> (#[trigger] r@[i]).destination@ == "Gare de Bussy"@,
    {
        let mut out: Vec<RealtimeStop> = Vec::new();
        out.push(self.create_realtime_stop(0, "Gare de Bussy", 2, RealtimeStopStatus::Late(2)));
        out.push(self.create_realtime_stop(10, "Gare de Bussy", -1, RealtimeStopStatus::Early(1)));
        out.push(self.create_realtime_stop(20, "Gare de Bussy", 0, RealtimeStopStatus::OnTime));
        out
    }
}

impl Default for FakeGenerator {
    /// A generator anchored at the current minute in Europe/Paris, clamped
    /// into the range its arithmetic is proved for.
    fn default() -> (r: FakeGenerator)
        ensures
            r.wf(),
    {
        let (t, off) = now_in_paris();
        let t0: i64 = if t < 259260 {
            259260
        } else if t > 3999999913540 {
            3999999913540
        } else {
            t
        };
        let lu: u64 = (t0 + (off as i64)) as u64;
        let la: u64 = lu - lu % 60;
        let base: i64 = (la as i64) - (off as i64);
        FakeGenerator { base_instant: base, utc_offset_secs: off }
    }
}

} // verus!
