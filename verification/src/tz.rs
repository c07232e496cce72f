//! Resolution of local civil times to absolute instants, through the
//! timezone database of the outside `chrono-tz` crate.

use vstd::prelude::*;
use chrono::TimeZone;
use crate::calendar::Date;

verus! {

/// The absolute instant (seconds of the Unix epoch) at which the wall clock
/// of the named timezone reads `seconds_of_day` on the day numbered `day`,
/// or `None` when that local time does not exist (a clock-transition gap)
/// or the timezone name is unknown. An ambiguous local time (a repeated
/// hour) resolves to the earliest instant. The result depends on the
/// arguments and the timezone database alone.
pub uninterp spec fn local_instant_of(tz: Seq<char>, day: int, seconds_of_day: int) -> Option<i64>;

/// Relies on chrono_tz's `Tz: FromStr` (lookup of an IANA timezone name)
/// and chrono's `NaiveDate::from_num_days_from_ce_opt`,
/// `NaiveTime::from_num_seconds_from_midnight_opt` and
/// `TimeZone::from_local_datetime`: resolves a local civil time to an
/// absolute instant. A nonexistent local time or an unknown name gives
/// `None`; an ambiguous local time gives its earliest instant.
#[verifier::external_body]
pub fn resolve_local_instant(tz_name: &str, day: Date, seconds_of_day: u32) -> (r: Option<i64>)
    ensures
        r == local_instant_of(tz_name@, day.days as int, seconds_of_day as int),
{
    let tz: chrono_tz::Tz = match tz_name.parse() {
        Ok(t) => t,
        Err(_) => return None,
    };
    let date = chrono::NaiveDate::from_num_days_from_ce_opt(day.days as i32)?;
    let time = chrono::NaiveTime::from_num_seconds_from_midnight_opt(seconds_of_day, 0)?;
    match tz.from_local_datetime(&date.and_time(time)) {
        chrono::LocalResult::None => None,
        chrono::LocalResult::Single(dt) => Some(dt.timestamp()),
        chrono::LocalResult::Ambiguous(earliest, _) => Some(earliest.timestamp()),
    }
}

} // verus!
