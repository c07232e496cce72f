//! The real-time merge engine: absolutizes theoretical stop-times with the
//! snapshot's timezone, pairs them with live vehicle calls by aimed instant,
//! and classifies the timing of each matched pair.

use vstd::prelude::*;
use vstd::arithmetic::div_mod::lemma_div_is_ordered;
use crate::calendar::Date;
use crate::timetable::{StopTime, StopTimeV, stop_views};
use crate::tz::{local_instant_of, resolve_local_instant};

verus! {

/// Timing of a live call relative to its schedule, in whole minutes.
pub enum RealtimeStopStatus {
    Early(i64),
    OnTime,
    Late(i64),
    /// A textual status the feed supplied in place of timing.
    Other(String),
    Unknown,
}

/// Mathematical image of a `RealtimeStopStatus`.
pub enum RealtimeStopStatusV {
    Early(i64),
    OnTime,
    Late(i64),
    Other(Seq<char>),
    Unknown,
}

impl View for RealtimeStopStatus {
    type V = RealtimeStopStatusV;

    open spec fn view(&self) -> RealtimeStopStatusV {
        match self {
            RealtimeStopStatus::Early(m) => RealtimeStopStatusV::Early(*m),
            RealtimeStopStatus::OnTime => RealtimeStopStatusV::OnTime,
            RealtimeStopStatus::Late(m) => RealtimeStopStatusV::Late(*m),
            RealtimeStopStatus::Other(s) => RealtimeStopStatusV::Other(s@),
            RealtimeStopStatus::Unknown => RealtimeStopStatusV::Unknown,
        }
    }
}

impl Clone for RealtimeStopStatus {
    fn clone(&self) -> (r: Self)
        ensures
            r@ == self@,
    {
        match self {
            RealtimeStopStatus::Early(m) => RealtimeStopStatus::Early(*m),
            RealtimeStopStatus::OnTime => RealtimeStopStatus::OnTime,
            RealtimeStopStatus::Late(m) => RealtimeStopStatus::Late(*m),
            RealtimeStopStatus::Other(s) => RealtimeStopStatus::Other(s.clone()),
            RealtimeStopStatus::Unknown => RealtimeStopStatus::Unknown,
        }
    }
}

/// One live vehicle call, as fetched from the real-time feed. Instants are
/// seconds of the Unix epoch.
pub struct RealtimeStop {
    pub expected_arrival: i64,
    pub aimed_arrival: i64,
    pub destination: String,
    pub status: RealtimeStopStatus,
}

/// Mathematical image of a `RealtimeStop`.
pub struct RealtimeStopV {
    pub expected_arrival: i64,
    pub aimed_arrival: i64,
    pub destination: Seq<char>,
    pub status: RealtimeStopStatusV,
}

impl View for RealtimeStop {
    type V = RealtimeStopV;

    open spec fn view(&self) -> RealtimeStopV {
        RealtimeStopV {
            expected_arrival: self.expected_arrival,
            aimed_arrival: self.aimed_arrival,
            destination: self.destination@,
            status: self.status@,
        }
    }
}

/// One merged arrival record: the theoretical call, enriched with live data
/// when a matching live call exists.
pub struct StopTimeDto {
    /// Live estimated arrival, when a live call matched.
    pub expected_arrival: Option<i64>,
    /// Scheduled arrival, as an absolute instant.
    pub aimed_arrival: i64,
    /// Destination: the live one when matched, else the theoretical one.
    pub destination: Option<String>,
    /// Remaining stops to the destination; theoretical only.
    pub stops_to_destination: Option<u32>,
    /// Timing status; present only when a live call matched.
    pub status: Option<RealtimeStopStatus>,
}

/// Mathematical image of a `StopTimeDto`.
pub struct StopTimeDtoV {
    pub expected_arrival: Option<i64>,
    pub aimed_arrival: i64,
    pub destination: Option<Seq<char>>,
    pub stops_to_destination: Option<u32>,
    pub status: Option<RealtimeStopStatusV>,
}

impl View for StopTimeDto {
    type V = StopTimeDtoV;

    open spec fn view(&self) -> StopTimeDtoV {
        StopTimeDtoV {
            expected_arrival: self.expected_arrival,
            aimed_arrival: self.aimed_arrival,
            destination: match self.destination {
                Some(ref s) => Some(s@),
                None => None,
            },
            stops_to_destination: self.stops_to_destination,
            status: match self.status {
                Some(ref s) => Some(s@),
                None => None,
            },
        }
    }
}

// ---------------------------------------------------------------------------
// Classification
// ---------------------------------------------------------------------------

/// Whole minutes of a difference in seconds, truncated toward zero.
pub open spec fn whole_minutes(delta: int) -> int {
    if delta >= 0 {
        delta / 60
    } else {
        -((-delta) / 60)
    }
}

/// Status of a matched pair: the sign and magnitude of
/// `expected − aimed` in whole minutes. Zero is on time, a positive
/// difference is late by that many minutes, a negative one early.
pub open spec fn spec_classify(expected: int, aimed: int) -> RealtimeStopStatusV {
    let m = whole_minutes(expected - aimed);
    if m == 0 {
        RealtimeStopStatusV::OnTime
    } else if m > 0 {
        RealtimeStopStatusV::Late(m as i64)
    } else {
        RealtimeStopStatusV::Early((-m) as i64)
    }
}

/// Classifies the timing of a live call from its two instants.
pub fn classify_delta(expected: i64, aimed: i64) -> (r: RealtimeStopStatus)
    ensures
        r@ == spec_classify(expected as int, aimed as int),
{
    if expected >= aimed {
        let diff: u64 = ((expected as i128) - (aimed as i128)) as u64;
        let mins: u64 = diff / 60;
        proof {
            lemma_div_is_ordered(diff as int, u64::MAX as int, 60);
        }
        if mins == 0 {
            RealtimeStopStatus::OnTime
        } else {
            RealtimeStopStatus::Late(mins as i64)
        }
    } else {
        let diff: u64 = ((aimed as i128) - (expected as i128)) as u64;
        let mins: u64 = diff / 60;
        proof {
            lemma_div_is_ordered(diff as int, u64::MAX as int, 60);
        }
        if mins == 0 {
            RealtimeStopStatus::OnTime
        } else {
            RealtimeStopStatus::Early(mins as i64)
        }
    }
}

pub open spec fn opt_str_view(s: Option<String>) -> Option<Seq<char>> {
    match s {
        Some(t) => Some(t@),
        None => None,
    }
}

/// Status for one live call as the feed supplies it: timing when both
/// instants are present; else a textual status wrapped as Other; else
/// Unknown.
pub open spec fn spec_status_for_call(
    expected: Option<i64>,
    aimed: Option<i64>,
    status_text: Option<Seq<char>>,
) -> RealtimeStopStatusV {
    match (expected, aimed) {
        (Some(e), Some(a)) => spec_classify(e as int, a as int),
        _ => match status_text {
            Some(t) => RealtimeStopStatusV::Other(t),
            None => RealtimeStopStatusV::Unknown,
        },
    }
}

/// Builds the status of one live call from what the feed supplied.
pub fn status_for_call(
    expected: Option<i64>,
    aimed: Option<i64>,
    status_text: Option<String>,
) -> (r: RealtimeStopStatus)
    ensures
        r@ == spec_status_for_call(expected, aimed, opt_str_view(status_text)),
{
    match (expected, aimed) {
        (Some(e), Some(a)) => classify_delta(e, a),
        _ => match status_text {
            Some(t) => RealtimeStopStatus::Other(t),
            None => RealtimeStopStatus::Unknown,
        },
    }
}

/// Classification is a pure function of the difference `expected − aimed`:
/// equal differences give equal statuses, whatever the instants.
pub proof fn lemma_classify_depends_on_delta_only(e1: int, a1: int, e2: int, a2: int)
    requires
        e1 - a1 == e2 - a2,
    ensures
        spec_classify(e1, a1) == spec_classify(e2, a2),
{
}

// ---------------------------------------------------------------------------
// The merge
// ---------------------------------------------------------------------------

pub open spec fn live_views(s: Seq<RealtimeStop>) -> Seq<RealtimeStopV> {
    s.map_values(|r: RealtimeStop| r@)
}

pub open spec fn dto_views(s: Seq<StopTimeDto>) -> Seq<StopTimeDtoV> {
    s.map_values(|r: StopTimeDto| r@)
}

/// Index of the first live call aimed exactly at instant `t`, if any.
pub open spec fn first_live_index(live: Seq<RealtimeStopV>, t: i64) -> Option<int>
    decreases live.len(),
{
    if live.len() == 0 {
        None
    } else if live[0].aimed_arrival == t {
        Some(0int)
    } else {
        match first_live_index(live.drop_first(), t) {
            Some(i) => Some(i + 1),
            None => None,
        }
    }
}

/// `first_live_index` points at the first live call aimed at `t`; `None`
/// means no live call is aimed at `t` at all.
pub proof fn lemma_first_live_index(live: Seq<RealtimeStopV>, t: i64)
    ensures
        match first_live_index(live, t) {
            Some(i) => 0 <= i < live.len() && live[i].aimed_arrival == t && forall|j: int|
                0 <= j < i ==> live[j].aimed_arrival != t,
            None => forall|j: int| 0 <= j < live.len() ==> live[j].aimed_arrival != t,
        },
    decreases live.len(),
{
    if live.len() > 0 && live[0].aimed_arrival != t {
        let rest = live.drop_first();
        lemma_first_live_index(rest, t);
        match first_live_index(rest, t) {
            Some(i) => {
                assert(live[i + 1] == rest[i]);
                assert forall|j: int| 0 <= j < i + 1 implies live[j].aimed_arrival != t by {
                    if j > 0 {
                        assert(rest[j - 1] == live[j]);
                    }
                }
            },
            None => {
                assert forall|j: int| 0 <= j < live.len() implies live[j].aimed_arrival != t by {
                    if j > 0 {
                        assert(rest[j - 1] == live[j]);
                    }
                }
            },
        }
    }
}

/// The first live call aimed at `t`, if any.
pub open spec fn spec_matched(live: Seq<RealtimeStopV>, t: i64) -> Option<RealtimeStopV> {
    match first_live_index(live, t) {
        Some(i) => Some(live[i]),
        None => None,
    }
}

/// The merged record for one theoretical entry whose local time resolved to
/// instant `t`. A matched entry carries the live expected arrival, the live
/// destination and a status; an unmatched one carries only theoretical data
/// and no status. The remaining-stop count is theoretical in either case.
pub open spec fn spec_record(st: StopTimeV, t: i64, m: Option<RealtimeStopV>) -> StopTimeDtoV {
    match m {
        Some(rt) => StopTimeDtoV {
            expected_arrival: Some(rt.expected_arrival),
            aimed_arrival: rt.aimed_arrival,
            destination: Some(rt.destination),
            stops_to_destination: st.stops_to_destination,
            status: Some(rt.status),
        },
        None => StopTimeDtoV {
            expected_arrival: None,
            aimed_arrival: t,
            destination: st.destination,
            stops_to_destination: st.stops_to_destination,
            status: None,
        },
    }
}

/// The merge of a theoretical list with a live list: one record per
/// theoretical entry whose local time exists on `day` in timezone `tz`,
/// in input order; entries whose local time does not exist are dropped.
pub open spec fn spec_merge(
    tz: Seq<char>,
    day: Date,
    th: Seq<StopTimeV>,
    live: Seq<RealtimeStopV>,
) -> Seq<StopTimeDtoV>
    decreases th.len(),
{
    if th.len() == 0 {
        Seq::empty()
    } else {
        let rest = spec_merge(tz, day, th.drop_last(), live);
        match local_instant_of(tz, day.days as int, th.last().time as int) {
            Some(t) => rest.push(spec_record(th.last(), t, spec_matched(live, t))),
            None => rest,
        }
    }
}

/// Index of the first live call aimed exactly at `t`.
fn find_live_call(live: &Vec<RealtimeStop>, t: i64) -> (r: Option<usize>)
    ensures
        match r {
            Some(i) => i < live@.len() && first_live_index(live_views(live@), t) == Some(i as int),
            None => first_live_index(live_views(live@), t) is None,
        },
{
    let ghost lv = live_views(live@);
    let mut i: usize = 0;
    while i < live.len()
        invariant
            0 <= i <= live.len(),
            lv == live_views(live@),
            forall|j: int| 0 <= j < i ==> lv[j].aimed_arrival != t,
        decreases live.len() - i,
    {
        if live[i].aimed_arrival == t {
            proof {
                assert(lv[i as int] == live@[i as int]@);
                lemma_first_live_index(lv, t);
            }
            return Some(i);
        }
        i += 1;
    }
    proof {
        lemma_first_live_index(lv, t);
    }
    None
}

/// Merges theoretical stop-times with live calls: each theoretical entry is
/// absolutized on `today` in the timezone named `tz_name`; entries whose
/// local time does not exist are dropped; each remaining entry is paired
/// with the first live call aimed at its instant, if any, and yields one
/// record, in input order. With an empty live list (the degraded mode after
/// a feed failure) every record is theoretical-only.
pub fn merge_stoptimes(
    tz_name: &str,
    today: Date,
    theoretical: &Vec<StopTime>,
    live: &Vec<RealtimeStop>,
) -> (r: Vec<StopTimeDto>)
    requires
        today.wf(),
    ensures
        dto_views(r@) == spec_merge(tz_name@, today, stop_views(theoretical@), live_views(live@)),
{
    let ghost sv = stop_views(theoretical@);
    let ghost lv = live_views(live@);
    let mut out: Vec<StopTimeDto> = Vec::new();
    let mut i: usize = 0;
    while i < theoretical.len()
        invariant
            0 <= i <= theoretical.len(),
            today.wf(),
            sv == stop_views(theoretical@),
            lv == live_views(live@),
            dto_views(out@) == spec_merge(tz_name@, today, sv.subrange(0, i as int), lv),
        decreases theoretical.len() - i,
    {
        let ghost prefix = sv.subrange(0, i as int);
        let ghost prefix1 = sv.subrange(0, i as int + 1);
        let ghost out_before = dto_views(out@);
        let ghost stv = sv[i as int];
        proof {
            assert(prefix1.drop_last() =~= prefix);
            assert(prefix1.last() == stv);
            assert(stv == theoretical@[i as int]@);
        }
        let st = &theoretical[i];
        match resolve_local_instant(tz_name, today, st.time) {
            None => {},
            Some(t) => {
                let dto = match find_live_call(live, t) {
                    Some(ix) => {
                        proof {
                            assert(lv[ix as int] == live@[ix as int]@);
                        }
                        StopTimeDto {
                            expected_arrival: Some(live[ix].expected_arrival),
                            aimed_arrival: live[ix].aimed_arrival,
                            destination: Some(live[ix].destination.clone()),
                            stops_to_destination: st.stops_to_destination,
                            status: Some(live[ix].status.clone()),
                        }
                    },
                    None => StopTimeDto {
                        expected_arrival: None,
                        aimed_arrival: t,
                        destination: match &st.destination {
                            Some(d) => Some(d.clone()),
                            None => None,
                        },
                        stops_to_destination: st.stops_to_destination,
                        status: None,
                    },
                };
                proof {
                    assert(dto@ == spec_record(stv, t, spec_matched(lv, t)));
                }
                out.push(dto);
                proof {
                    assert(dto_views(out@) =~= out_before.push(
                        spec_record(stv, t, spec_matched(lv, t)),
                    ));
                }
            },
        }
        i += 1;
    }
    proof {
        assert(sv.subrange(0, theoretical.len() as int) =~= sv);
    }
    out
}

// ---------------------------------------------------------------------------
// Laws of the merge
// ---------------------------------------------------------------------------

/// A merged record carries a status exactly where some live call is aimed
/// at the record's aimed instant, and a record without a status carries no
/// expected arrival either.
pub proof fn lemma_unmatched_record_has_no_status(
    tz: Seq<char>,
    day: Date,
    th: Seq<StopTimeV>,
    live: Seq<RealtimeStopV>,
)
    ensures
        forall|k: int|
            0 <= k < spec_merge(tz, day, th, live).len() ==> ((#[trigger] spec_merge(
                tz,
                day,
                th,
                live,
            )[k]).status is None <==> first_live_index(
                live,
                spec_merge(tz, day, th, live)[k].aimed_arrival,
            ) is None),
        forall|k: int|
            0 <= k < spec_merge(tz, day, th, live).len() ==> ((#[trigger] spec_merge(
                tz,
                day,
                th,
                live,
            )[k]).status is None ==> spec_merge(tz, day, th, live)[k].expected_arrival is None),
    decreases th.len(),
{
    if th.len() > 0 {
        lemma_unmatched_record_has_no_status(tz, day, th.drop_last(), live);
        match local_instant_of(tz, day.days as int, th.last().time as int) {
            Some(t) => {
                lemma_first_live_index(live, t);
            },
            None => {},
        }
    }
}

/// The degraded mode: with no live calls, every merged record is
/// theoretical-only, with no expected arrival and no status.
pub proof fn lemma_merge_without_live_is_theoretical(tz: Seq<char>, day: Date, th: Seq<StopTimeV>)
    ensures
        forall|k: int|
            0 <= k < spec_merge(tz, day, th, Seq::empty()).len() ==> ((#[trigger] spec_merge(
                tz,
                day,
                th,
                Seq::empty(),
            )[k]).status is None && spec_merge(tz, day, th, Seq::empty())[k].expected_arrival
                is None),
    decreases th.len(),
{
    if th.len() > 0 {
        lemma_merge_without_live_is_theoretical(tz, day, th.drop_last());
    }
}

} // verus!
