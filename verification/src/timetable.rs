//! The timetable snapshot: journeys with their stop-times, the exception
//! collection and the pattern table, plus the calendar resolution that
//! decides which services run on a date and the day-scoped queries over it.

use vstd::prelude::*;
use vstd::multiset::Multiset;
use crate::calendar::{Date, Exception, ServiceException, ServicePattern, pattern_allows};
use crate::exceptions::{
    bucket_or_empty, empty_exceptions, exception_buckets, get_exceptions, insert_exception,
};
use crate::text::str_eq;

verus! {

/// One timed call of a journey at a stop.
pub struct StopTime {
    /// Time of day, in seconds since local midnight.
    pub time: u32,
    /// Exact stop name; names are normalized before they reach this crate.
    pub stop_name: String,
    /// Internal stop identifier.
    pub stop_id: String,
    /// Destination shown for this call, when known.
    pub destination: Option<String>,
    /// Number of stops remaining to that destination, when known.
    pub stops_to_destination: Option<u32>,
}

/// Mathematical image of a `StopTime`.
pub struct StopTimeV {
    pub time: u32,
    pub stop_name: Seq<char>,
    pub stop_id: Seq<char>,
    pub destination: Option<Seq<char>>,
    pub stops_to_destination: Option<u32>,
}

impl View for StopTime {
    type V = StopTimeV;

    open spec fn view(&self) -> StopTimeV {
        StopTimeV {
            time: self.time,
            stop_name: self.stop_name@,
            stop_id: self.stop_id@,
            destination: match self.destination {
                Some(s) => Some(s@),
                None => None,
            },
            stops_to_destination: self.stops_to_destination,
        }
    }
}

impl Clone for StopTime {
    fn clone(&self) -> (r: Self)
        ensures
            r == *self,
    {
        StopTime {
            time: self.time,
            stop_name: self.stop_name.clone(),
            stop_id: self.stop_id.clone(),
            destination: match &self.destination {
                Some(s) => Some(s.clone()),
                None => None,
            },
            stops_to_destination: self.stops_to_destination,
        }
    }
}

/// One bus journey: the service that schedules it and its ordered stops.
pub struct Journey {
    pub service_id: String,
    pub stops: Vec<StopTime>,
}

/// Mathematical image of a `Journey`.
pub struct JourneyV {
    pub service_id: Seq<char>,
    pub stops: Seq<StopTimeV>,
}

pub open spec fn stop_views(stops: Seq<StopTime>) -> Seq<StopTimeV> {
    stops.map_values(|st: StopTime| st@)
}

impl View for Journey {
    type V = JourneyV;

    open spec fn view(&self) -> JourneyV {
        JourneyV { service_id: self.service_id@, stops: stop_views(self.stops@) }
    }
}

impl Clone for Journey {
    fn clone(&self) -> (r: Self)
        ensures
            r@ == self@,
    {
        let stops = self.stops.clone();
        proof {
            assert(stop_views(stops@) =~= stop_views(self.stops@));
        }
        Journey { service_id: self.service_id.clone(), stops }
    }
}

/// The schedule snapshot: journeys, exceptions, patterns and provenance.
/// It is immutable once built; a refresh replaces it wholesale.
pub struct TimeTable {
    pub journeys: Vec<Journey>,
    pub exceptions: multimap::MultiMap<String, ServiceException>,
    pub service_patterns: Vec<(String, ServicePattern)>,
    /// Source locator the snapshot was extracted from.
    pub extracted_from: String,
    /// Extraction instant, in seconds of the Unix epoch.
    pub extracted_on: i64,
    /// Route or line identifier the snapshot covers.
    pub extracted_line_id: String,
    /// IANA timezone name of the line's locale.
    pub timezone: String,
}

/// Mathematical image of a `TimeTable`.
pub struct TimeTableV {
    pub journeys: Seq<JourneyV>,
    pub exceptions: Map<Seq<char>, Seq<ServiceException>>,
    pub patterns: Seq<(Seq<char>, ServicePattern)>,
    pub extracted_from: Seq<char>,
    pub extracted_on: i64,
    pub extracted_line_id: Seq<char>,
    pub timezone: Seq<char>,
}

pub open spec fn journey_views(js: Seq<Journey>) -> Seq<JourneyV> {
    js.map_values(|j: Journey| j@)
}

pub open spec fn pattern_views(ps: Seq<(String, ServicePattern)>) -> Seq<(Seq<char>, ServicePattern)> {
    ps.map_values(|p: (String, ServicePattern)| (p.0@, p.1))
}

impl View for TimeTable {
    type V = TimeTableV;

    open spec fn view(&self) -> TimeTableV {
        TimeTableV {
            journeys: journey_views(self.journeys@),
            exceptions: exception_buckets(self.exceptions),
            patterns: pattern_views(self.service_patterns@),
            extracted_from: self.extracted_from@,
            extracted_on: self.extracted_on,
            extracted_line_id: self.extracted_line_id@,
            timezone: self.timezone@,
        }
    }
}

// ---------------------------------------------------------------------------
// Calendar resolution
// ---------------------------------------------------------------------------

/// Whether the exception collection holds, for service `s`, an exception of
/// kind `k` dated `d`.
pub open spec fn has_exception(
    excs: Map<Seq<char>, Seq<ServiceException>>,
    s: Seq<char>,
    d: Date,
    k: Exception,
) -> bool {
    excs.dom().contains(s) && exists|i: int|
        0 <= i < excs[s].len() && excs[s][i].date == d && excs[s][i].exception_type == k
}

/// The pattern registered for `s`: the first entry of the table whose key
/// is `s`, or `None`. The table never holds two entries for one key when
/// built through this crate, so "first" is also "only".
pub open spec fn find_pattern(
    pats: Seq<(Seq<char>, ServicePattern)>,
    s: Seq<char>,
) -> Option<ServicePattern>
    decreases pats.len(),
{
    if pats.len() == 0 {
        None
    } else if pats[0].0 == s {
        Some(pats[0].1)
    } else {
        find_pattern(pats.drop_first(), s)
    }
}

/// Pattern-only evaluation: the service runs iff it has a pattern whose
/// validity interval contains `d` and whose weekday flag for `d` is set.
pub open spec fn spec_pattern_runs(
    pats: Seq<(Seq<char>, ServicePattern)>,
    s: Seq<char>,
    d: Date,
) -> bool {
    match find_pattern(pats, s) {
        Some(p) => pattern_allows(p, d),
        None => false,
    }
}

/// Whether service `s` runs on date `d`. A single exception kind for the
/// date is authoritative; contradictory kinds cancel out and the pattern
/// decides; no data at all resolves to "does not run".
pub open spec fn spec_runs_on(tt: TimeTableV, s: Seq<char>, d: Date) -> bool {
    let added = has_exception(tt.exceptions, s, d, Exception::Added);
    let deleted = has_exception(tt.exceptions, s, d, Exception::Deleted);
    if added != deleted {
        added
    } else {
        spec_pattern_runs(tt.patterns, s, d)
    }
}

proof fn lemma_find_pattern_at(pats: Seq<(Seq<char>, ServicePattern)>, s: Seq<char>, i: int)
    requires
        0 <= i < pats.len(),
        pats[i].0 == s,
        forall|j: int| 0 <= j < i ==> pats[j].0 != s,
    ensures
        find_pattern(pats, s) == Some(pats[i].1),
    decreases i,
{
    if i > 0 {
        lemma_find_pattern_at(pats.drop_first(), s, i - 1);
    }
}

proof fn lemma_find_pattern_absent(pats: Seq<(Seq<char>, ServicePattern)>, s: Seq<char>)
    requires
        forall|j: int| 0 <= j < pats.len() ==> pats[j].0 != s,
    ensures
        find_pattern(pats, s) is None,
    decreases pats.len(),
{
    if pats.len() > 0 {
        lemma_find_pattern_absent(pats.drop_first(), s);
    }
}

impl TimeTable {
    /// An empty snapshot: no journeys, no exceptions, no patterns, empty
    /// provenance.
    pub fn new() -> (r: TimeTable)
        ensures
            r@.journeys =~= Seq::<JourneyV>::empty(),
            r@.exceptions =~= Map::<Seq<char>, Seq<ServiceException>>::empty(),
            r@.patterns =~= Seq::<(Seq<char>, ServicePattern)>::empty(),
            r@.extracted_from =~= Seq::<char>::empty(),
            r@.extracted_on == 0,
            r@.extracted_line_id =~= Seq::<char>::empty(),
            r@.timezone =~= Seq::<char>::empty(),
    {
        TimeTable {
            journeys: Vec::new(),
            exceptions: empty_exceptions(),
            service_patterns: Vec::new(),
            extracted_from: String::new(),
            extracted_on: 0,
            extracted_line_id: String::new(),
            timezone: String::new(),
        }
    }

    /// Appends a journey to the snapshot.
    pub fn add_journey(&mut self, j: Journey)
        ensures
            final(self)@ == (TimeTableV { journeys: old(self)@.journeys.push(j@), ..old(self)@ }),
    {
        let ghost jv = j@;
        self.journeys.push(j);
        proof {
            assert(journey_views(self.journeys@) =~= old(self)@.journeys.push(jv));
        }
    }

    /// Records an exception for a service.
    pub fn add_exception(&mut self, service_id: String, e: ServiceException)
        ensures
            final(self)@ == (TimeTableV {
                exceptions: old(self)@.exceptions.insert(
                    service_id@,
                    bucket_or_empty(old(self)@.exceptions, service_id@).push(e),
                ),
                ..old(self)@
            }),
    {
        insert_exception(&mut self.exceptions, service_id, e);
    }

    /// Registers the pattern for a service, replacing any existing one:
    /// a service has at most one pattern.
    pub fn add_pattern(&mut self, service_id: String, p: ServicePattern)
        ensures
            find_pattern(final(self)@.patterns, service_id@) == Some(p),
            forall|s: Seq<char>|
                s != service_id@ ==> find_pattern(final(self)@.patterns, s) == find_pattern(
                    old(self)@.patterns,
                    s,
                ),
            final(self)@.journeys == old(self)@.journeys,
            final(self)@.exceptions == old(self)@.exceptions,
            final(self)@.extracted_from == old(self)@.extracted_from,
            final(self)@.extracted_on == old(self)@.extracted_on,
            final(self)@.extracted_line_id == old(self)@.extracted_line_id,
            final(self)@.timezone == old(self)@.timezone,
    {
        let mut i: usize = 0;
        while i < self.service_patterns.len()
            invariant
                0 <= i <= self.service_patterns.len(),
                *self == *old(self),
                forall|j: int|
                    0 <= j < i ==> pattern_views(self.service_patterns@)[j].0 != service_id@,
            decreases self.service_patterns.len() - i,
        {
            if str_eq(self.service_patterns[i].0.as_str(), service_id.as_str()) {
                let ghost before = pattern_views(self.service_patterns@);
                self.service_patterns.set(i, (service_id.clone(), p));
                proof {
                    let after = pattern_views(self.service_patterns@);
                    assert(after =~= before.update(i as int, (service_id@, p)));
                    lemma_find_pattern_update(before, service_id@, p, i as int);
                }
                return ;
            }
            i += 1;
        }
        let ghost before = pattern_views(self.service_patterns@);
        let ghost sid = service_id@;
        self.service_patterns.push((service_id, p));
        proof {
            let after = pattern_views(self.service_patterns@);
            assert(after =~= before.push((sid, p)));
            lemma_find_pattern_push(before, sid, p);
        }
    }

    /// Whether the service runs on `date`, resolving exceptions first and
    /// falling back to the service's pattern.
    pub fn runs_on(&self, service_id: &str, date: Date) -> (r: bool)
        requires
            date.wf(),
        ensures
            r == spec_runs_on(self@, service_id@, date),
    {
        let mut added = false;
        let mut deleted = false;
        match get_exceptions(&self.exceptions, service_id) {
            None => {},
            Some(v) => {
                let ghost bucket = self@.exceptions[service_id@];
                let mut i: usize = 0;
                while i < v.len()
                    invariant
                        0 <= i <= v.len(),
                        v@ == bucket,
                        added == exists|k: int|
                            0 <= k < i && bucket[k].date == date && bucket[k].exception_type
                                == Exception::Added,
                        deleted == exists|k: int|
                            0 <= k < i && bucket[k].date == date && bucket[k].exception_type
                                == Exception::Deleted,
                    decreases v.len() - i,
                {
                    if v[i].date == date {
                        match v[i].exception_type {
                            Exception::Added => {
                                added = true;
                            },
                            Exception::Deleted => {
                                deleted = true;
                            },
                        }
                    }
                    i += 1;
                }
            },
        }
        if added != deleted {
            return added;
        }
        let mut i: usize = 0;
        while i < self.service_patterns.len()
            invariant
                0 <= i <= self.service_patterns.len(),
                forall|j: int| 0 <= j < i ==> self@.patterns[j].0 != service_id@,
                date.wf(),
                added == has_exception(self@.exceptions, service_id@, date, Exception::Added),
                deleted == has_exception(self@.exceptions, service_id@, date, Exception::Deleted),
                added == deleted,
            decreases self.service_patterns.len() - i,
        {
            if str_eq(self.service_patterns[i].0.as_str(), service_id) {
                proof {
                    lemma_find_pattern_at(self@.patterns, service_id@, i as int);
                }
                return self.service_patterns[i].1.allows(&date);
            }
            i += 1;
        }
        proof {
            lemma_find_pattern_absent(self@.patterns, service_id@);
        }
        false
    }
}

impl Default for TimeTable {
    /// The empty snapshot, as `new` builds it.
    fn default() -> (r: TimeTable)
        ensures
            r@.journeys =~= Seq::<JourneyV>::empty(),
            r@.exceptions =~= Map::<Seq<char>, Seq<ServiceException>>::empty(),
            r@.patterns =~= Seq::<(Seq<char>, ServicePattern)>::empty(),
            r@.extracted_from =~= Seq::<char>::empty(),
            r@.extracted_on == 0,
            r@.extracted_line_id =~= Seq::<char>::empty(),
            r@.timezone =~= Seq::<char>::empty(),
    {
        TimeTable::new()
    }
}

proof fn lemma_find_pattern_update(
    pats: Seq<(Seq<char>, ServicePattern)>,
    s: Seq<char>,
    p: ServicePattern,
    i: int,
)
    requires
        0 <= i < pats.len(),
        pats[i].0 == s,
        forall|j: int| 0 <= j < i ==> pats[j].0 != s,
    ensures
        find_pattern(pats.update(i, (s, p)), s) == Some(p),
        forall|t: Seq<char>|
            t != s ==> find_pattern(pats.update(i, (s, p)), t) == find_pattern(pats, t),
    decreases pats.len(),
{
    let updated = pats.update(i, (s, p));
    if i == 0 {
        assert(updated.drop_first() =~= pats.drop_first());
        assert(updated[0].0 == s);
        assert(find_pattern(updated, s) == Some(updated[0].1));
        assert forall|t: Seq<char>| t != s implies find_pattern(updated, t) == find_pattern(
            pats,
            t,
        ) by {
            assert(find_pattern(updated, t) == find_pattern(updated.drop_first(), t));
            assert(find_pattern(pats, t) == find_pattern(pats.drop_first(), t));
        }
    } else {
        lemma_find_pattern_update(pats.drop_first(), s, p, i - 1);
        assert(updated.drop_first() =~= pats.drop_first().update(i - 1, (s, p)));
        assert(updated[0] == pats[0]);
        assert(pats[0].0 != s);
        assert(find_pattern(updated, s) == find_pattern(updated.drop_first(), s));
        assert forall|t: Seq<char>| t != s implies find_pattern(updated, t) == find_pattern(
            pats,
            t,
        ) by {
            if pats[0].0 == t {
                assert(find_pattern(updated, t) == Some(updated[0].1));
                assert(find_pattern(pats, t) == Some(pats[0].1));
            } else {
                assert(find_pattern(updated, t) == find_pattern(updated.drop_first(), t));
                assert(find_pattern(pats, t) == find_pattern(pats.drop_first(), t));
            }
        }
    }
}

proof fn lemma_find_pattern_push(
    pats: Seq<(Seq<char>, ServicePattern)>,
    s: Seq<char>,
    p: ServicePattern,
)
    requires
        forall|j: int| 0 <= j < pats.len() ==> pats[j].0 != s,
    ensures
        find_pattern(pats.push((s, p)), s) == Some(p),
        forall|t: Seq<char>| t != s ==> find_pattern(pats.push((s, p)), t) == find_pattern(pats, t),
    decreases pats.len(),
{
    let pushed = pats.push((s, p));
    if pats.len() == 0 {
        assert(pushed[0].0 == s);
        assert(find_pattern(pushed, s) == Some(pushed[0].1));
        assert forall|t: Seq<char>| t != s implies find_pattern(pushed, t) == find_pattern(
            pats,
            t,
        ) by {
            assert(pushed.drop_first() =~= Seq::<(Seq<char>, ServicePattern)>::empty());
            assert(find_pattern(pushed, t) == find_pattern(pushed.drop_first(), t));
        }
    } else {
        lemma_find_pattern_push(pats.drop_first(), s, p);
        assert(pushed.drop_first() =~= pats.drop_first().push((s, p)));
        assert(pushed[0] == pats[0]);
        assert(pats[0].0 != s);
        assert(find_pattern(pushed, s) == find_pattern(pushed.drop_first(), s));
        assert forall|t: Seq<char>| t != s implies find_pattern(pushed, t) == find_pattern(
            pats,
            t,
        ) by {
            if pats[0].0 == t {
                assert(find_pattern(pushed, t) == Some(pushed[0].1));
                assert(find_pattern(pats, t) == Some(pats[0].1));
            } else {
                assert(find_pattern(pushed, t) == find_pattern(pushed.drop_first(), t));
                assert(find_pattern(pats, t) == find_pattern(pats.drop_first(), t));
            }
        }
    }
}

// ---------------------------------------------------------------------------
// Day-scoped queries
// ---------------------------------------------------------------------------

/// The journeys of `js`, in order, whose service runs on `d` under `tt`.
pub open spec fn running_views(tt: TimeTableV, js: Seq<JourneyV>, d: Date) -> Seq<JourneyV>
    decreases js.len(),
{
    if js.len() == 0 {
        Seq::empty()
    } else {
        let rest = running_views(tt, js.drop_last(), d);
        if spec_runs_on(tt, js.last().service_id, d) {
            rest.push(js.last())
        } else {
            rest
        }
    }
}

/// The journeys that run on `d`, in snapshot order.
pub open spec fn spec_journeys_for_day(tt: TimeTableV, d: Date) -> Seq<JourneyV> {
    running_views(tt, tt.journeys, d)
}

/// Index of the first stop of `stops` named `name`, if any.
pub open spec fn first_stop_index(stops: Seq<StopTimeV>, name: Seq<char>) -> Option<int>
    decreases stops.len(),
{
    if stops.len() == 0 {
        None
    } else if stops[0].stop_name == name {
        Some(0int)
    } else {
        match first_stop_index(stops.drop_first(), name) {
            Some(i) => Some(i + 1),
            None => None,
        }
    }
}

/// `first_stop_index` points at the first match: the stop there carries the
/// name and no earlier stop does; `None` means no stop carries it at all.
pub proof fn lemma_first_stop_index(stops: Seq<StopTimeV>, name: Seq<char>)
    ensures
        match first_stop_index(stops, name) {
            Some(i) => 0 <= i < stops.len() && stops[i].stop_name == name && forall|j: int|
                0 <= j < i ==> stops[j].stop_name != name,
            None => forall|j: int| 0 <= j < stops.len() ==> stops[j].stop_name != name,
        },
    decreases stops.len(),
{
    if stops.len() > 0 && stops[0].stop_name != name {
        let rest = stops.drop_first();
        lemma_first_stop_index(rest, name);
        match first_stop_index(rest, name) {
            Some(i) => {
                assert(stops[i + 1] == rest[i]);
                assert forall|j: int| 0 <= j < i + 1 implies stops[j].stop_name != name by {
                    if j > 0 {
                        assert(rest[j - 1] == stops[j]);
                    }
                }
            },
            None => {
                assert forall|j: int| 0 <= j < stops.len() implies stops[j].stop_name != name by {
                    if j > 0 {
                        assert(rest[j - 1] == stops[j]);
                    }
                }
            },
        }
    }
}

/// The pair a journey contributes to `stoptimes_between(a, b)`: its first
/// stop named `a` and its first stop named `b`, only when the former is
/// strictly earlier.
pub open spec fn spec_pair_for(j: JourneyV, a: Seq<char>, b: Seq<char>) -> Option<
    (StopTimeV, StopTimeV),
> {
    match (first_stop_index(j.stops, a), first_stop_index(j.stops, b)) {
        (Some(ia), Some(ib)) => if j.stops[ia].time < j.stops[ib].time {
            Some((j.stops[ia], j.stops[ib]))
        } else {
            None
        },
        _ => None,
    }
}

/// The pairs contributed by the journeys of `js`, in order.
pub open spec fn pairs_for_journeys(js: Seq<JourneyV>, a: Seq<char>, b: Seq<char>) -> Seq<
    (StopTimeV, StopTimeV),
>
    decreases js.len(),
{
    if js.len() == 0 {
        Seq::empty()
    } else {
        let rest = pairs_for_journeys(js.drop_last(), a, b);
        match spec_pair_for(js.last(), a, b) {
            Some(pr) => rest.push(pr),
            None => rest,
        }
    }
}

pub open spec fn spec_stoptimes_a_to_b(tt: TimeTableV, d: Date, a: Seq<char>, b: Seq<char>) -> Seq<
    (StopTimeV, StopTimeV),
> {
    pairs_for_journeys(spec_journeys_for_day(tt, d), a, b)
}

/// The first stops named `name` of the journeys of `js`, in order;
/// journeys that do not visit the stop contribute nothing.
pub open spec fn firsts_for_journeys(js: Seq<JourneyV>, name: Seq<char>) -> Seq<StopTimeV>
    decreases js.len(),
{
    if js.len() == 0 {
        Seq::empty()
    } else {
        let rest = firsts_for_journeys(js.drop_last(), name);
        match first_stop_index(js.last().stops, name) {
            Some(i) => rest.push(js.last().stops[i]),
            None => rest,
        }
    }
}

pub open spec fn spec_stoptimes_from_stop(tt: TimeTableV, d: Date, name: Seq<char>) -> Seq<
    StopTimeV,
> {
    firsts_for_journeys(spec_journeys_for_day(tt, d), name)
}

/// Whether some stop of `j` carries the name `n`.
pub open spec fn journey_has_stop(j: JourneyV, n: Seq<char>) -> bool {
    exists|k: int| 0 <= k < j.stops.len() && j.stops[k].stop_name == n
}

/// The set of stop names served on `d`: the union of stop names over
/// exactly the journeys whose service runs on `d`.
pub open spec fn spec_stops_served(tt: TimeTableV, d: Date) -> Set<Seq<char>> {
    Set::new(
        |n: Seq<char>|
            exists|i: int|
                0 <= i < tt.journeys.len() && spec_runs_on(tt, tt.journeys[i].service_id, d)
                    && journey_has_stop(tt.journeys[i], n),
    )
}

pub open spec fn pair_views(ps: Seq<(StopTime, StopTime)>) -> Seq<(StopTimeV, StopTimeV)> {
    ps.map_values(|pr: (StopTime, StopTime)| (pr.0@, pr.1@))
}

/// Index of the first stop of `stops` whose name is exactly `name`.
fn find_stop_index(stops: &Vec<StopTime>, name: &str) -> (r: Option<usize>)
    ensures
        match r {
            Some(i) => i < stops@.len() && first_stop_index(stop_views(stops@), name@) == Some(
                i as int,
            ),
            None => first_stop_index(stop_views(stops@), name@) is None,
        },
{
    let ghost sv = stop_views(stops@);
    let mut i: usize = 0;
    while i < stops.len()
        invariant
            0 <= i <= stops.len(),
            sv == stop_views(stops@),
            forall|j: int| 0 <= j < i ==> sv[j].stop_name != name@,
        decreases stops.len() - i,
    {
        if str_eq(stops[i].stop_name.as_str(), name) {
            proof {
                assert(sv[i as int] == stops@[i as int]@);
                assert(sv[i as int].stop_name == name@);
                lemma_first_stop_index(sv, name@);
            }
            return Some(i);
        }
        i += 1;
    }
    proof {
        lemma_first_stop_index(sv, name@);
    }
    None
}

/// The pair this journey contributes to `stoptimes_between(a, b)`, if any.
fn journey_pair(journey: &Journey, a: &str, b: &str) -> (r: Option<(StopTime, StopTime)>)
    ensures
        match r {
            Some(pr) => spec_pair_for(journey@, a@, b@) == Some((pr.0@, pr.1@)),
            None => spec_pair_for(journey@, a@, b@) is None,
        },
{
    proof {
        assert(journey@.stops == stop_views(journey.stops@));
    }
    let ia_opt = find_stop_index(&journey.stops, a);
    let ib_opt = find_stop_index(&journey.stops, b);
    match (ia_opt, ib_opt) {
        (Some(ia), Some(ib)) => {
            proof {
                assert(journey@.stops[ia as int] == journey.stops@[ia as int]@);
                assert(journey@.stops[ib as int] == journey.stops@[ib as int]@);
            }
            if journey.stops[ia].time < journey.stops[ib].time {
                Some((journey.stops[ia].clone(), journey.stops[ib].clone()))
            } else {
                None
            }
        },
        _ => None,
    }
}

/// The first stop of this journey named `name`, if any.
fn journey_first_stop(journey: &Journey, name: &str) -> (r: Option<StopTime>)
    ensures
        match r {
            Some(st) => first_stop_index(journey@.stops, name@) matches Some(i) && journey@.stops[i]
                == st@,
            None => first_stop_index(journey@.stops, name@) is None,
        },
{
    proof {
        assert(journey@.stops == stop_views(journey.stops@));
    }
    match find_stop_index(&journey.stops, name) {
        Some(ix) => {
            proof {
                assert(journey@.stops[ix as int] == journey.stops@[ix as int]@);
            }
            Some(journey.stops[ix].clone())
        },
        None => None,
    }
}

impl TimeTable {
    /// The journeys whose service runs on `day`, in snapshot order.
    pub fn get_journeys_for_day(&self, day: Date) -> (r: Vec<Journey>)
        requires
            day.wf(),
        ensures
            journey_views(r@) == spec_journeys_for_day(self@, day),
    {
        let mut out: Vec<Journey> = Vec::new();
        let mut i: usize = 0;
        while i < self.journeys.len()
            invariant
                0 <= i <= self.journeys.len(),
                day.wf(),
                journey_views(out@) == running_views(
                    self@,
                    self@.journeys.subrange(0, i as int),
                    day,
                ),
            decreases self.journeys.len() - i,
        {
            let ghost prefix = self@.journeys.subrange(0, i as int);
            let ghost prefix1 = self@.journeys.subrange(0, i as int + 1);
            let ghost out_before = journey_views(out@);
            if self.runs_on(self.journeys[i].service_id.as_str(), day) {
                let j = self.journeys[i].clone();
                out.push(j);
            }
            proof {
                assert(prefix1.drop_last() =~= prefix);
                assert(prefix1.last() == self@.journeys[i as int]);
                if spec_runs_on(self@, self@.journeys[i as int].service_id, day) {
                    assert(journey_views(out@) =~= out_before.push(self@.journeys[i as int]));
                } else {
                    assert(journey_views(out@) =~= out_before);
                }
            }
            i += 1;
        }
        proof {
            assert(self@.journeys.subrange(0, self.journeys.len() as int) =~= self@.journeys);
        }
        out
    }

    /// For each journey that runs on `day` and visits a stop named `a` and
    /// one named `b` with the `a` call strictly earlier, the pair of those
    /// two calls. Names match exactly, and only the first occurrence of a
    /// name in a journey is ever considered.
    pub fn get_day_stoptimes_from_a_to_b(&self, day: Date, a: &str, b: &str) -> (r: Vec<
        (StopTime, StopTime),
    >)
        requires
            day.wf(),
        ensures
            pair_views(r@) == spec_stoptimes_a_to_b(self@, day, a@, b@),
            forall|k: int| 0 <= k < r@.len() ==> (#[trigger] r@[k]).0@.time < r@[k].1@.time,
    {
        let mut out: Vec<(StopTime, StopTime)> = Vec::new();
        let mut i: usize = 0;
        while i < self.journeys.len()
            invariant
                0 <= i <= self.journeys.len(),
                day.wf(),
                pair_views(out@) == pairs_for_journeys(
                    running_views(self@, self@.journeys.subrange(0, i as int), day),
                    a@,
                    b@,
                ),
            decreases self.journeys.len() - i,
        {
            let ghost prefix = self@.journeys.subrange(0, i as int);
            let ghost prefix1 = self@.journeys.subrange(0, i as int + 1);
            let ghost out_before = pair_views(out@);
            let ghost jv = self@.journeys[i as int];
            let ghost rv = running_views(self@, prefix, day);
            proof {
                assert(prefix1.drop_last() =~= prefix);
                assert(prefix1.last() == jv);
                assert(jv == self.journeys@[i as int]@);
            }
            if self.runs_on(self.journeys[i].service_id.as_str(), day) {
                match journey_pair(&self.journeys[i], a, b) {
                    Some(pair) => {
                        let ghost prv = (pair.0@, pair.1@);
                        out.push(pair);
                        proof {
                            assert(pair_views(out@) =~= out_before.push(prv));
                        }
                    },
                    None => {},
                }
                proof {
                    assert(running_views(self@, prefix1, day) == rv.push(jv));
                    assert(rv.push(jv).drop_last() =~= rv);
                    assert(rv.push(jv).last() == jv);
                }
            } else {
                proof {
                    assert(running_views(self@, prefix1, day) == rv);
                }
            }
            i += 1;
        }
        proof {
            assert(self@.journeys.subrange(0, self.journeys.len() as int) =~= self@.journeys);
            assert(pair_views(out@) == spec_stoptimes_a_to_b(self@, day, a@, b@));
            lemma_pairs_are_ordered(spec_journeys_for_day(self@, day), a@, b@);
            assert forall|k: int| 0 <= k < out@.len() implies (#[trigger] out@[k]).0@.time
                < out@[k].1@.time by {
                assert(pair_views(out@)[k] == (out@[k].0@, out@[k].1@));
                assert(pairs_for_journeys(spec_journeys_for_day(self@, day), a@, b@)[k].0.time
                    < pairs_for_journeys(spec_journeys_for_day(self@, day), a@, b@)[k].1.time);
            }
        }
        out
    }

    /// For each journey that runs on `day` and visits a stop named
    /// `stop_name`, the first call at that stop. Names match exactly.
    pub fn get_day_stoptimes_from_stop(&self, day: Date, stop_name: &str) -> (r: Vec<StopTime>)
        requires
            day.wf(),
        ensures
            stop_views(r@) == spec_stoptimes_from_stop(self@, day, stop_name@),
    {
        let mut out: Vec<StopTime> = Vec::new();
        let mut i: usize = 0;
        while i < self.journeys.len()
            invariant
                0 <= i <= self.journeys.len(),
                day.wf(),
                stop_views(out@) == firsts_for_journeys(
                    running_views(self@, self@.journeys.subrange(0, i as int), day),
                    stop_name@,
                ),
            decreases self.journeys.len() - i,
        {
            let ghost prefix = self@.journeys.subrange(0, i as int);
            let ghost prefix1 = self@.journeys.subrange(0, i as int + 1);
            let ghost out_before = stop_views(out@);
            let ghost jv = self@.journeys[i as int];
            let ghost rv = running_views(self@, prefix, day);
            proof {
                assert(prefix1.drop_last() =~= prefix);
                assert(prefix1.last() == jv);
                assert(jv == self.journeys@[i as int]@);
            }
            if self.runs_on(self.journeys[i].service_id.as_str(), day) {
                match journey_first_stop(&self.journeys[i], stop_name) {
                    Some(st) => {
                        let ghost stv = st@;
                        out.push(st);
                        proof {
                            assert(stop_views(out@) =~= out_before.push(stv));
                        }
                    },
                    None => {},
                }
                proof {
                    assert(running_views(self@, prefix1, day) == rv.push(jv));
                    assert(rv.push(jv).drop_last() =~= rv);
                    assert(rv.push(jv).last() == jv);
                }
            } else {
                proof {
                    assert(running_views(self@, prefix1, day) == rv);
                }
            }
            i += 1;
        }
        proof {
            assert(self@.journeys.subrange(0, self.journeys.len() as int) =~= self@.journeys);
        }
        out
    }
}

/// Whether some journey among the first `upto` of the snapshot runs on `d`
/// and visits a stop named `n`.
pub open spec fn served_in_first(tt: TimeTableV, d: Date, upto: int, n: Seq<char>) -> bool {
    exists|ji: int|
        0 <= ji < upto && spec_runs_on(tt, tt.journeys[ji].service_id, d) && journey_has_stop(
            tt.journeys[ji],
            n,
        )
}

/// Whether some string of `s` reads `n`.
pub open spec fn seq_contains_name(s: Seq<String>, n: Seq<char>) -> bool {
    exists|k: int| 0 <= k < s.len() && s[k]@ == n
}

/// Whether some string of `v` reads exactly `n`.
fn contains_name(v: &Vec<String>, n: &str) -> (r: bool)
    ensures
        r == seq_contains_name(v@, n@),
{
    let mut k: usize = 0;
    while k < v.len()
        invariant
            0 <= k <= v.len(),
            forall|j: int| 0 <= j < k ==> v@[j]@ != n@,
        decreases v.len() - k,
    {
        if str_eq(v[k].as_str(), n) {
            assert(v@[k as int]@ == n@);
            return true;
        }
        k += 1;
    }
    false
}

impl TimeTable {
    /// The distinct names of the stops served on `day`: a name is listed,
    /// once, iff some journey that runs on `day` visits a stop so named.
    pub fn get_stops_served_on_day(&self, day: Date) -> (r: Vec<String>)
        requires
            day.wf(),
        ensures
            forall|n: Seq<char>| #[trigger]
                spec_stops_served(self@, day).contains(n) <==> seq_contains_name(r@, n),
            forall|k: int, l: int| 0 <= k < l < r@.len() ==> r@[k]@ != r@[l]@,
    {
        let ghost tt = self@;
        let mut out: Vec<String> = Vec::new();
        let mut i: usize = 0;
        while i < self.journeys.len()
            invariant
                0 <= i <= self.journeys.len(),
                day.wf(),
                tt == self@,
                forall|n: Seq<char>| #[trigger]
                    served_in_first(tt, day, i as int, n) <==> seq_contains_name(out@, n),
                forall|k: int, l: int| 0 <= k < l < out@.len() ==> out@[k]@ != out@[l]@,
            decreases self.journeys.len() - i,
        {
            let ghost jv = tt.journeys[i as int];
            proof {
                assert(jv == self.journeys@[i as int]@);
            }
            if self.runs_on(self.journeys[i].service_id.as_str(), day) {
                let journey = &self.journeys[i];
                let mut s: usize = 0;
                while s < journey.stops.len()
                    invariant
                        0 <= s <= journey.stops.len(),
                        day.wf(),
                        tt == self@,
                        jv == journey@,
                        spec_runs_on(tt, jv.service_id, day),
                        forall|n: Seq<char>| #[trigger]
                            seq_contains_name(out@, n) <==> (served_in_first(tt, day, i as int, n)
                                || exists|k: int| 0 <= k < s && jv.stops[k].stop_name == n),
                        forall|k: int, l: int| 0 <= k < l < out@.len() ==> out@[k]@ != out@[l]@,
                    decreases journey.stops.len() - s,
                {
                    let ghost out_before = out@;
                    let name = &journey.stops[s].stop_name;
                    proof {
                        assert(jv.stops[s as int] == journey.stops@[s as int]@);
                        assert(jv.stops[s as int].stop_name == name@);
                    }
                    if !contains_name(&out, name.as_str()) {
                        out.push(name.clone());
                        proof {
                            assert(out@ =~= out_before.push(out@[out@.len() - 1]));
                            assert(out@[out@.len() - 1]@ == name@);
                            assert forall|n: Seq<char>| #[trigger]
                                seq_contains_name(out@, n) <==> (seq_contains_name(out_before, n)
                                    || n == name@) by {
                                if seq_contains_name(out@, n) {
                                    let k = choose|k: int| 0 <= k < out@.len() && out@[k]@ == n;
                                    if k < out_before.len() {
                                        assert(seq_contains_name(out_before, n));
                                    }
                                } else {
                                    assert(!seq_contains_name(out_before, n)) by {
                                        if seq_contains_name(out_before, n) {
                                            let k = choose|k: int|
                                                0 <= k < out_before.len() && out_before[k]@ == n;
                                            assert(out@[k]@ == n);
                                        }
                                    }
                                }
                                if n == name@ {
                                    assert(out@[out@.len() - 1]@ == n);
                                }
                            }
                        }
                    }
                    proof {
                        assert forall|n: Seq<char>| #[trigger]
                            seq_contains_name(out@, n) <==> (served_in_first(tt, day, i as int, n)
                                || exists|k: int|
                                0 <= k < s + 1 && jv.stops[k].stop_name == n) by {
                            if exists|k: int| 0 <= k < s + 1 && jv.stops[k].stop_name == n {
                                let k = choose|k: int|
                                    0 <= k < s + 1 && jv.stops[k].stop_name == n;
                                if k < s {
                                    assert(exists|k2: int|
                                        0 <= k2 < s && jv.stops[k2].stop_name == n);
                                } else {
                                    assert(jv.stops[s as int].stop_name == n);
                                }
                            }
                        }
                    }
                    s += 1;
                }
                proof {
                    assert forall|n: Seq<char>| #[trigger]
                        served_in_first(tt, day, i as int + 1, n) <==> (served_in_first(
                        tt,
                        day,
                        i as int,
                        n,
                    ) || journey_has_stop(jv, n)) by {
                        if served_in_first(tt, day, i as int + 1, n) {
                            let ji = choose|ji: int|
                                0 <= ji < i as int + 1 && spec_runs_on(
                                    tt,
                                    tt.journeys[ji].service_id,
                                    day,
                                ) && journey_has_stop(tt.journeys[ji], n);
                            if ji < i as int {
                                assert(served_in_first(tt, day, i as int, n));
                            } else {
                                assert(journey_has_stop(jv, n));
                            }
                        }
                        if served_in_first(tt, day, i as int, n) {
                            let ji = choose|ji: int|
                                0 <= ji < i as int && spec_runs_on(
                                    tt,
                                    tt.journeys[ji].service_id,
                                    day,
                                ) && journey_has_stop(tt.journeys[ji], n);
                            assert(0 <= ji < i as int + 1 && spec_runs_on(
                                tt,
                                tt.journeys[ji].service_id,
                                day,
                            ) && journey_has_stop(tt.journeys[ji], n));
                        }
                        if journey_has_stop(jv, n) {
                            let ji: int = i as int;
                            assert(0 <= ji < i as int + 1 && spec_runs_on(
                                tt,
                                tt.journeys[ji].service_id,
                                day,
                            ) && journey_has_stop(tt.journeys[ji], n));
                        }
                    }
                }
            } else {
                proof {
                    assert forall|n: Seq<char>| #[trigger]
                        served_in_first(tt, day, i as int + 1, n) <==> served_in_first(
                        tt,
                        day,
                        i as int,
                        n,
                    ) by {
                        if served_in_first(tt, day, i as int + 1, n) {
                            let ji = choose|ji: int|
                                0 <= ji < i as int + 1 && spec_runs_on(
                                    tt,
                                    tt.journeys[ji].service_id,
                                    day,
                                ) && journey_has_stop(tt.journeys[ji], n);
                            assert(ji != i as int);
                            assert(served_in_first(tt, day, i as int, n));
                        }
                        if served_in_first(tt, day, i as int, n) {
                            let ji = choose|ji: int|
                                0 <= ji < i as int && spec_runs_on(
                                    tt,
                                    tt.journeys[ji].service_id,
                                    day,
                                ) && journey_has_stop(tt.journeys[ji], n);
                            assert(0 <= ji < i as int + 1 && spec_runs_on(
                                tt,
                                tt.journeys[ji].service_id,
                                day,
                            ) && journey_has_stop(tt.journeys[ji], n));
                        }
                    }
                }
            }
            i += 1;
        }
        proof {
            assert forall|n: Seq<char>| #[trigger]
                spec_stops_served(self@, day).contains(n) <==> seq_contains_name(out@, n) by {
                assert(spec_stops_served(tt, day).contains(n) == served_in_first(
                    tt,
                    day,
                    tt.journeys.len() as int,
                    n,
                ));
            }
        }
        out
    }
}

/// Every pair returned for `(a, b)` is strictly ordered in time.
pub proof fn lemma_pairs_are_ordered(js: Seq<JourneyV>, a: Seq<char>, b: Seq<char>)
    ensures
        forall|k: int|
            0 <= k < pairs_for_journeys(js, a, b).len() ==> #[trigger] pairs_for_journeys(
                js,
                a,
                b,
            )[k].0.time < pairs_for_journeys(js, a, b)[k].1.time,
    decreases js.len(),
{
    if js.len() > 0 {
        lemma_pairs_are_ordered(js.drop_last(), a, b);
    }
}

/// The between-relation is directional: a journey's pair for `(a, b)` is
/// strictly ordered in time, and a journey that yields a pair for `(a, b)`
/// yields nothing for `(b, a)`.
pub proof fn lemma_between_is_directional(j: JourneyV, a: Seq<char>, b: Seq<char>)
    ensures
        spec_pair_for(j, a, b) matches Some(pr) ==> pr.0.time < pr.1.time,
        spec_pair_for(j, a, b) is Some ==> spec_pair_for(j, b, a) is None,
{
}

/// Membership in the running journeys of `js`: a journey is selected iff it
/// occurs in `js` and its service runs on `d`.
pub proof fn lemma_running_membership(tt: TimeTableV, js: Seq<JourneyV>, d: Date, j: JourneyV)
    ensures
        running_views(tt, js, d).contains(j) <==> (js.contains(j) && spec_runs_on(
            tt,
            j.service_id,
            d,
        )),
    decreases js.len(),
{
    if js.len() > 0 {
        let rest = js.drop_last();
        lemma_running_membership(tt, rest, d, j);
        assert(js.contains(j) <==> (rest.contains(j) || j == js.last())) by {
            if js.contains(j) {
                let k = choose|k: int| 0 <= k < js.len() && js[k] == j;
                if k < js.len() - 1 {
                    assert(rest[k] == j);
                    assert(rest.contains(j));
                }
            }
            if rest.contains(j) {
                let k = choose|k: int| 0 <= k < rest.len() && rest[k] == j;
                assert(js[k] == j);
            }
            if j == js.last() {
                assert(js[js.len() - 1] == j);
            }
        }
        let rv = running_views(tt, rest, d);
        if spec_runs_on(tt, js.last().service_id, d) {
            assert(running_views(tt, js, d) == rv.push(js.last()));
            assert(rv.push(js.last()).contains(j) <==> (rv.contains(j) || j == js.last())) by {
                if rv.push(js.last()).contains(j) {
                    let k = choose|k: int|
                        0 <= k < rv.push(js.last()).len() && rv.push(js.last())[k] == j;
                    if k < rv.len() {
                        assert(rv[k] == j);
                    }
                }
                if rv.contains(j) {
                    let k = choose|k: int| 0 <= k < rv.len() && rv[k] == j;
                    assert(rv.push(js.last())[k] == j);
                }
                if j == js.last() {
                    assert(rv.push(js.last())[rv.len() as int] == j);
                }
            }
        } else {
            assert(running_views(tt, js, d) == rv);
        }
    }
}

/// The set of stops served on a day is the union of stop names over exactly
/// the journeys that run on that day: a name is served iff some journey
/// among `journeys_for_day(d)` visits a stop so named.
pub proof fn lemma_stops_served_union(tt: TimeTableV, d: Date)
    ensures
        spec_stops_served(tt, d) =~= Set::new(
            |n: Seq<char>|
                exists|j: JourneyV| #[trigger]
                    journey_has_stop(j, n) && spec_journeys_for_day(tt, d).contains(j),
        ),
{
    let rhs = Set::new(
        |n: Seq<char>|
            exists|j: JourneyV| #[trigger]
                journey_has_stop(j, n) && spec_journeys_for_day(tt, d).contains(j),
    );
    assert forall|n: Seq<char>| spec_stops_served(tt, d).contains(n) <==> rhs.contains(n) by {
        if spec_stops_served(tt, d).contains(n) {
            let ji = choose|ji: int|
                0 <= ji < tt.journeys.len() && spec_runs_on(tt, tt.journeys[ji].service_id, d)
                    && journey_has_stop(tt.journeys[ji], n);
            let j = tt.journeys[ji];
            assert(tt.journeys.contains(j));
            lemma_running_membership(tt, tt.journeys, d, j);
            assert(journey_has_stop(j, n) && spec_journeys_for_day(tt, d).contains(j));
            assert(rhs.contains(n));
        }
        if rhs.contains(n) {
            let j = choose|j: JourneyV| #[trigger]
                journey_has_stop(j, n) && spec_journeys_for_day(tt, d).contains(j);
            lemma_running_membership(tt, tt.journeys, d, j);
            assert(tt.journeys.contains(j) && spec_runs_on(tt, j.service_id, d));
            let ji = choose|ji: int| 0 <= ji < tt.journeys.len() && tt.journeys[ji] == j;
            assert(spec_runs_on(tt, tt.journeys[ji].service_id, d) && journey_has_stop(
                tt.journeys[ji],
                n,
            ));
            assert(spec_stops_served(tt, d).contains(n));
        }
    }
}

// ---------------------------------------------------------------------------
// Sorting the snapshot
// ---------------------------------------------------------------------------

/// Stops in ascending time order.
pub open spec fn stops_sorted(stops: Seq<StopTimeV>) -> bool {
    forall|i: int, j: int| 0 <= i < j < stops.len() ==> stops[i].time <= stops[j].time
}

/// Journeys in ascending order of their first stop's time.
pub open spec fn journeys_sorted(js: Seq<JourneyV>) -> bool {
    forall|i: int, j: int| 0 <= i < j < js.len() ==> js[i].stops[0].time <= js[j].stops[0].time
}

/// What a journey contains, indifferent to the order of its stops: its
/// service and the multiset of its stop-time records.
pub open spec fn journey_content(j: JourneyV) -> (Seq<char>, Multiset<StopTimeV>) {
    (j.service_id, j.stops.to_multiset())
}

/// What a journey list contains, indifferent to order at both levels.
pub open spec fn journey_contents(js: Seq<JourneyV>) -> Multiset<
    (Seq<char>, Multiset<StopTimeV>),
> {
    js.map_values(|j: JourneyV| journey_content(j)).to_multiset()
}

proof fn lemma_contents_update(js: Seq<JourneyV>, k: int, j2: JourneyV)
    requires
        0 <= k < js.len(),
        journey_content(j2) == journey_content(js[k]),
    ensures
        journey_contents(js.update(k, j2)) == journey_contents(js),
{
    let f = |j: JourneyV| journey_content(j);
    assert(js.update(k, j2).map_values(f) =~= js.map_values(f));
}

proof fn lemma_contents_insert(js: Seq<JourneyV>, k: int, j2: JourneyV)
    requires
        0 <= k <= js.len(),
    ensures
        journey_contents(js.insert(k, j2)) == journey_contents(js).insert(journey_content(j2)),
{
    broadcast use vstd::seq_lib::group_to_multiset_ensures;

    let f = |j: JourneyV| journey_content(j);
    js.insert_ensures(k, j2);
    js.map_values(f).insert_ensures(k, f(j2));
    assert(js.insert(k, j2).map_values(f) =~= js.map_values(f).insert(k, f(j2)));
}

/// The first index of `stops` whose time exceeds `t`; with `stops` sorted,
/// everything before it is at most `t` and everything from it on is
/// greater.
fn insertion_point(stops: &Vec<StopTime>, t: u32) -> (pos: usize)
    requires
        stops_sorted(stop_views(stops@)),
    ensures
        pos <= stops@.len(),
        forall|k: int| 0 <= k < pos ==> stop_views(stops@)[k].time <= t,
        forall|k: int| pos <= k < stops@.len() ==> stop_views(stops@)[k].time > t,
{
    let mut pos: usize = 0;
    while pos < stops.len()
        invariant
            0 <= pos <= stops@.len(),
            stops_sorted(stop_views(stops@)),
            forall|k: int| 0 <= k < pos ==> stop_views(stops@)[k].time <= t,
        decreases stops@.len() - pos,
    {
        if stops[pos].time > t {
            proof {
                assert(stop_views(stops@)[pos as int] == stops@[pos as int]@);
            }
            return pos;
        }
        proof {
            assert(stop_views(stops@)[pos as int] == stops@[pos as int]@);
        }
        pos += 1;
    }
    pos
}

/// A copy of `stops` in ascending time order, with the same records.
fn sort_stops(stops: &Vec<StopTime>) -> (r: Vec<StopTime>)
    ensures
        stops_sorted(stop_views(r@)),
        stop_views(r@).to_multiset() == stop_views(stops@).to_multiset(),
        r@.len() == stops@.len(),
{
    let ghost sv = stop_views(stops@);
    let mut out: Vec<StopTime> = Vec::new();
    proof {
        assert(stop_views(out@) =~= sv.subrange(0, 0));
    }
    let mut i: usize = 0;
    while i < stops.len()
        invariant
            0 <= i <= stops@.len(),
            sv == stop_views(stops@),
            out@.len() == i,
            stops_sorted(stop_views(out@)),
            stop_views(out@).to_multiset() == sv.subrange(0, i as int).to_multiset(),
        decreases stops@.len() - i,
    {
        let x = stops[i].clone();
        let ghost xv = x@;
        proof {
            assert(xv == sv[i as int]);
        }
        let pos = insertion_point(&out, x.time);
        let ghost ov = stop_views(out@);
        let ghost obefore = out@;
        out.insert(pos, x);
        proof {
            broadcast use vstd::seq_lib::group_to_multiset_ensures;

            obefore.insert_ensures(pos as int, x);
            ov.insert_ensures(pos as int, xv);
            assert(stop_views(out@) =~= ov.insert(pos as int, xv));
            let nv = stop_views(out@);
            assert forall|p: int, q: int| 0 <= p < q < nv.len() implies nv[p].time
                <= nv[q].time by {
                if p < pos && q < pos {
                } else if p < pos && q == pos {
                } else if p == pos && q > pos {
                    assert(nv[q] == ov[q - 1]);
                } else if p < pos && q > pos {
                    assert(nv[q] == ov[q - 1]);
                } else {
                    assert(nv[p] == ov[p - 1]);
                    assert(nv[q] == ov[q - 1]);
                }
            }
            assert(sv.subrange(0, i as int + 1) =~= sv.subrange(0, i as int).push(sv[i as int]));
            assert(sv.subrange(0, i as int).push(sv[i as int]).to_multiset() == sv.subrange(
                0,
                i as int,
            ).to_multiset().insert(sv[i as int]));
            assert(nv.to_multiset() == ov.to_multiset().insert(xv));
        }
        i += 1;
    }
    proof {
        assert(sv.subrange(0, stops@.len() as int) =~= sv);
    }
    out
}

/// The first index of `js` whose first stop's time exceeds `t`; with `js`
/// sorted by first stop time, everything before it is at most `t` and
/// everything from it on is greater.
fn journey_insertion_point(js: &Vec<Journey>, t: u32) -> (pos: usize)
    requires
        journeys_sorted(journey_views(js@)),
        forall|k: int| 0 <= k < js@.len() ==> (#[trigger] journey_views(js@)[k]).stops.len() > 0,
    ensures
        pos <= js@.len(),
        forall|k: int| 0 <= k < pos ==> journey_views(js@)[k].stops[0].time <= t,
        forall|k: int| pos <= k < js@.len() ==> journey_views(js@)[k].stops[0].time > t,
{
    let mut pos: usize = 0;
    while pos < js.len()
        invariant
            0 <= pos <= js@.len(),
            journeys_sorted(journey_views(js@)),
            forall|k: int|
                0 <= k < js@.len() ==> (#[trigger] journey_views(js@)[k]).stops.len() > 0,
            forall|k: int| 0 <= k < pos ==> journey_views(js@)[k].stops[0].time <= t,
        decreases js@.len() - pos,
    {
        proof {
            assert(journey_views(js@)[pos as int] == js@[pos as int]@);
            assert(journey_views(js@)[pos as int].stops[0] == stop_views(
                js@[pos as int].stops@,
            )[0]);
        }
        if js[pos].stops[0].time > t {
            return pos;
        }
        pos += 1;
    }
    pos
}

impl TimeTable {
    /// Sorts each journey's stops ascending by time, then the journeys
    /// ascending by their first stop's time. Which journeys the snapshot
    /// holds — each service with its multiset of stop-time records — is
    /// unchanged, as is everything else in the snapshot.
    pub fn sort_journeys_and_stops(&mut self)
        requires
            forall|k: int|
                0 <= k < old(self)@.journeys.len() ==> (#[trigger] old(
                    self,
                )@.journeys[k]).stops.len() > 0,
        ensures
            journeys_sorted(final(self)@.journeys),
            forall|k: int|
                0 <= k < final(self)@.journeys.len() ==> stops_sorted(
                    (#[trigger] final(self)@.journeys[k]).stops,
                ) && final(self)@.journeys[k].stops.len() > 0,
            journey_contents(final(self)@.journeys) == journey_contents(old(self)@.journeys),
            final(self)@.journeys.len() == old(self)@.journeys.len(),
            final(self)@.exceptions == old(self)@.exceptions,
            final(self)@.patterns == old(self)@.patterns,
            final(self)@.extracted_from == old(self)@.extracted_from,
            final(self)@.extracted_on == old(self)@.extracted_on,
            final(self)@.extracted_line_id == old(self)@.extracted_line_id,
            final(self)@.timezone == old(self)@.timezone,
    {
        let mut i: usize = 0;
        while i < self.journeys.len()
            invariant
                0 <= i <= self.journeys@.len(),
                self.journeys@.len() == old(self)@.journeys.len(),
                self.exceptions == old(self).exceptions,
                self.service_patterns == old(self).service_patterns,
                self.extracted_from == old(self).extracted_from,
                self.extracted_on == old(self).extracted_on,
                self.extracted_line_id == old(self).extracted_line_id,
                self.timezone == old(self).timezone,
                forall|k: int|
                    0 <= k < old(self)@.journeys.len() ==> (#[trigger] old(
                        self,
                    )@.journeys[k]).stops.len() > 0,
                forall|k: int|
                    0 <= k < i ==> stops_sorted((#[trigger] self@.journeys[k]).stops)
                        && self@.journeys[k].stops.len() > 0,
                forall|k: int|
                    i <= k < self@.journeys.len() ==> (#[trigger] self@.journeys[k]) == old(
                        self,
                    )@.journeys[k],
                journey_contents(self@.journeys) == journey_contents(old(self)@.journeys),
            decreases self.journeys@.len() - i,
        {
            let ghost before = self@.journeys;
            let sorted = sort_stops(&self.journeys[i].stops);
            let sid = self.journeys[i].service_id.clone();
            let nj = Journey { service_id: sid, stops: sorted };
            let ghost njv = nj@;
            proof {
                assert(before[i as int] == self.journeys@[i as int]@);
                assert(journey_content(njv) == journey_content(before[i as int]));
            }
            self.journeys.set(i, nj);
            proof {
                assert(self@.journeys =~= before.update(i as int, njv));
                lemma_contents_update(before, i as int, njv);
            }
            i += 1;
        }
        let ghost mid = self@.journeys;
        let mut out: Vec<Journey> = Vec::new();
        proof {
            assert(journey_views(out@) =~= mid.subrange(0, 0));
        }
        let mut i2: usize = 0;
        while i2 < self.journeys.len()
            invariant
                0 <= i2 <= self.journeys@.len(),
                mid == self@.journeys,
                forall|k: int|
                    0 <= k < mid.len() ==> stops_sorted((#[trigger] mid[k]).stops)
                        && mid[k].stops.len() > 0,
                out@.len() == i2,
                journeys_sorted(journey_views(out@)),
                forall|k: int|
                    0 <= k < out@.len() ==> stops_sorted((#[trigger] journey_views(out@)[k]).stops)
                        && journey_views(out@)[k].stops.len() > 0,
                journey_contents(journey_views(out@)) == journey_contents(
                    mid.subrange(0, i2 as int),
                ),
            decreases self.journeys@.len() - i2,
        {
            let j = self.journeys[i2].clone();
            let ghost jv = j@;
            proof {
                assert(jv == mid[i2 as int]);
                assert(jv.stops == stop_views(j.stops@));
            }
            let t = j.stops[0].time;
            proof {
                assert(jv.stops[0].time == t);
            }
            let pos = journey_insertion_point(&out, t);
            let ghost ov = journey_views(out@);
            let ghost obefore = out@;
            out.insert(pos, j);
            proof {
                obefore.insert_ensures(pos as int, j);
                ov.insert_ensures(pos as int, jv);
                assert(journey_views(out@) =~= ov.insert(pos as int, jv));
                let nv = journey_views(out@);
                assert forall|p: int, q: int| 0 <= p < q < nv.len() implies nv[p].stops[0].time
                    <= nv[q].stops[0].time by {
                    if p < pos && q < pos {
                    } else if p < pos && q == pos {
                    } else if p == pos && q > pos {
                        assert(nv[q] == ov[q - 1]);
                    } else if p < pos && q > pos {
                        assert(nv[q] == ov[q - 1]);
                    } else {
                        assert(nv[p] == ov[p - 1]);
                        assert(nv[q] == ov[q - 1]);
                    }
                }
                assert forall|k: int| 0 <= k < nv.len() implies stops_sorted(
                    (#[trigger] nv[k]).stops,
                ) && nv[k].stops.len() > 0 by {
                    if k < pos {
                    } else if k == pos {
                    } else {
                        assert(nv[k] == ov[k - 1]);
                    }
                }
                lemma_contents_insert(ov, pos as int, jv);
                broadcast use vstd::seq_lib::group_to_multiset_ensures;

                let f = |x: JourneyV| journey_content(x);
                assert(mid.subrange(0, i2 as int + 1) =~= mid.subrange(0, i2 as int).push(
                    mid[i2 as int],
                ));
                assert(mid.subrange(0, i2 as int + 1).map_values(f) =~= mid.subrange(
                    0,
                    i2 as int,
                ).map_values(f).push(f(mid[i2 as int])));
            }
            i2 += 1;
        }
        proof {
            assert(mid.subrange(0, self.journeys@.len() as int) =~= mid);
        }
        self.journeys = out;
    }
}

// ---------------------------------------------------------------------------
// Laws of calendar resolution
// ---------------------------------------------------------------------------

/// With no exception matching `(s, d)`, the pattern alone decides: the
/// service runs iff `d` lies in the pattern's interval and the weekday
/// flag for `d` is set.
pub proof fn lemma_runs_on_pattern_only(tt: TimeTableV, s: Seq<char>, d: Date, p: ServicePattern)
    requires
        !has_exception(tt.exceptions, s, d, Exception::Added),
        !has_exception(tt.exceptions, s, d, Exception::Deleted),
        find_pattern(tt.patterns, s) == Some(p),
    ensures
        spec_runs_on(tt, s, d) == pattern_allows(p, d),
{
}

/// With no exception matching `(s, d)` and no pattern either, the service
/// does not run.
pub proof fn lemma_runs_on_no_data(tt: TimeTableV, s: Seq<char>, d: Date)
    requires
        !has_exception(tt.exceptions, s, d, Exception::Added),
        !has_exception(tt.exceptions, s, d, Exception::Deleted),
        find_pattern(tt.patterns, s) is None,
    ensures
        !spec_runs_on(tt, s, d),
{
}

/// With exactly one exception kind present for `(s, d)`, that kind is
/// authoritative, whatever the pattern says: Added runs, Deleted does not.
pub proof fn lemma_exception_overrides(tt: TimeTableV, s: Seq<char>, d: Date)
    requires
        has_exception(tt.exceptions, s, d, Exception::Added) != has_exception(
            tt.exceptions,
            s,
            d,
            Exception::Deleted,
        ),
    ensures
        spec_runs_on(tt, s, d) == has_exception(tt.exceptions, s, d, Exception::Added),
{
}

/// With both exception kinds present for `(s, d)`, the contradictory
/// exceptions are ignored and the result equals the pattern-only
/// evaluation.
pub proof fn lemma_conflicting_exceptions_ignored(tt: TimeTableV, s: Seq<char>, d: Date)
    requires
        has_exception(tt.exceptions, s, d, Exception::Added),
        has_exception(tt.exceptions, s, d, Exception::Deleted),
    ensures
        spec_runs_on(tt, s, d) == spec_pattern_runs(tt.patterns, s, d),
{
}

} // verus!
