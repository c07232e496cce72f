//! The refresh coordinator: the timing state machine that decides when the
//! schedule snapshot is stale, when to start a reimport, and when to retry
//! after a failed one. The import itself runs out of process and the
//! snapshot swap happens in the caller; this module owns only the decisions,
//! as pure functions of the state and the caller-supplied clock readings.

use vstd::prelude::*;

verus! {

/// The reference snapshot time-to-live: twenty minutes.
pub const DEFAULT_TTL_SECS: i64 = 1200;

/// The shortest retry delay after a failed reimport.
pub const RETRY_BASE_SECS: i64 = 30;

/// A generous bound on instants this crate computes with, in seconds of the
/// Unix epoch (far beyond year 9999): keeps deadline arithmetic in range.
pub const MAX_INSTANT: i64 = 4000000000000;

/// The longest accepted time-to-live: one week.
pub const MAX_TTL_SECS: i64 = 604800;

/// Parameters of one import invocation: the feed source, the route to
/// extract, and the destination path of the produced snapshot file. The
/// import runs out of process; this crate only carries its description.
pub struct Invoker {
    pub gtfs_source: String,
    pub route_id: String,
    pub timetable_dest: String,
}

/// The two states of the refresh loop: waiting for a deadline, or with an
/// import in flight.
pub enum RefreshState {
    Waiting { deadline: i64 },
    Reimporting,
}

/// What the caller should do next: start the out-of-process import, or
/// sleep until the given instant and poll again.
pub enum RefreshAction {
    StartImport,
    Sleep { until: i64 },
}

/// The retry delay after `failures` consecutive failed reimports: the base
/// delay doubled per failure, at most five times, and capped at the TTL —
/// always at least one second, never immediate.
pub open spec fn spec_backoff(ttl_secs: i64, failures: u32) -> int {
    let factor: int = if failures >= 6 {
        32
    } else if failures == 5 {
        16
    } else if failures == 4 {
        8
    } else if failures == 3 {
        4
    } else if failures == 2 {
        2
    } else {
        1
    };
    let raw = RETRY_BASE_SECS * factor;
    if raw <= ttl_secs {
        raw
    } else {
        ttl_secs as int
    }
}

/// The timing state machine of the refresh task.
pub struct RefreshCoordinator {
    pub ttl_secs: i64,
    pub state: RefreshState,
    pub failures: u32,
}

impl RefreshCoordinator {
    pub open spec fn wf(self) -> bool {
        1 <= self.ttl_secs <= MAX_TTL_SECS
    }

    /// A coordinator for a snapshot extracted at `extracted_on`: the first
    /// deadline lies one TTL after the extraction instant, not after the
    /// coordinator's own start.
    pub fn new(ttl_secs: i64, extracted_on: i64) -> (r: RefreshCoordinator)
        requires
            1 <= ttl_secs <= MAX_TTL_SECS,
            -MAX_INSTANT <= extracted_on <= MAX_INSTANT,
        ensures
            r.wf(),
            r.ttl_secs == ttl_secs,
            r.failures == 0,
            r.state matches RefreshState::Waiting { deadline } && deadline == extracted_on
                + ttl_secs,
    {
        RefreshCoordinator {
            ttl_secs,
            state: RefreshState::Waiting { deadline: extracted_on + ttl_secs },
            failures: 0,
        }
    }

    /// A coordinator with the reference twenty-minute TTL.
    pub fn with_default_ttl(extracted_on: i64) -> (r: RefreshCoordinator)
        requires
            -MAX_INSTANT <= extracted_on <= MAX_INSTANT,
        ensures
            r.wf(),
            r.ttl_secs == DEFAULT_TTL_SECS,
            r.failures == 0,
            r.state matches RefreshState::Waiting { deadline } && deadline == extracted_on
                + DEFAULT_TTL_SECS,
    {
        RefreshCoordinator::new(DEFAULT_TTL_SECS, extracted_on)
    }

    /// One poll of the waiting loop: once the deadline has elapsed the
    /// coordinator moves to Reimporting and asks for an import; before it,
    /// nothing changes and the caller sleeps until the deadline.
    pub fn poll(&mut self, now: i64) -> (a: RefreshAction)
        requires
            old(self).state is Waiting,
        ensures
            old(self).state matches RefreshState::Waiting { deadline } ==> if now >= deadline {
                &&& final(self).state is Reimporting
                &&& a is StartImport
                &&& final(self).ttl_secs == old(self).ttl_secs
                &&& final(self).failures == old(self).failures
            } else {
                &&& *final(self) == *old(self)
                &&& a == (RefreshAction::Sleep { until: deadline })
            },
    {
        let deadline = match self.state {
            RefreshState::Waiting { deadline } => deadline,
            RefreshState::Reimporting => 0,
        };
        if now >= deadline {
            self.state = RefreshState::Reimporting;
            RefreshAction::StartImport
        } else {
            RefreshAction::Sleep { until: deadline }
        }
    }

    /// A successful reimport installs the new snapshot's extraction instant:
    /// the next deadline lies one TTL after it, and the failure count
    /// resets.
    pub fn import_succeeded(&mut self, new_extracted_on: i64)
        requires
            old(self).state is Reimporting,
            old(self).wf(),
            -MAX_INSTANT <= new_extracted_on <= MAX_INSTANT,
        ensures
            final(self).state matches RefreshState::Waiting { deadline } && deadline
                == new_extracted_on + old(self).ttl_secs,
            final(self).failures == 0,
            final(self).ttl_secs == old(self).ttl_secs,
            final(self).wf(),
    {
        self.state = RefreshState::Waiting { deadline: new_extracted_on + self.ttl_secs };
        self.failures = 0;
    }

    /// A failed reimport keeps the previous snapshot in service and sets a
    /// retry deadline a bounded backoff after `now`: it grows with
    /// consecutive failures, is capped at the TTL, and is never immediate.
    pub fn import_failed(&mut self, now: i64)
        requires
            old(self).state is Reimporting,
            old(self).wf(),
            -MAX_INSTANT <= now <= MAX_INSTANT,
        ensures
            final(self).failures == if old(self).failures < u32::MAX {
                old(self).failures + 1
            } else {
                old(self).failures as int
            },
            final(self).state matches RefreshState::Waiting { deadline } && deadline == now
                + spec_backoff(old(self).ttl_secs, final(self).failures),
            final(self).state matches RefreshState::Waiting { deadline } ==> deadline > now,
            final(self).ttl_secs == old(self).ttl_secs,
            final(self).wf(),
    {
        if self.failures < u32::MAX {
            self.failures = self.failures + 1;
        }
        let factor: i64 = if self.failures >= 6 {
            32
        } else if self.failures == 5 {
            16
        } else if self.failures == 4 {
            8
        } else if self.failures == 3 {
            4
        } else if self.failures == 2 {
            2
        } else {
            1
        };
        let raw = RETRY_BASE_SECS * factor;
        let backoff = if raw <= self.ttl_secs {
            raw
        } else {
            self.ttl_secs
        };
        self.state = RefreshState::Waiting { deadline: now + backoff };
    }
}

/// Seconds from `now` until `deadline`, zero once the deadline has passed:
/// what the refresh task sleeps before polling again.
pub fn seconds_until(now: i64, deadline: i64) -> (r: u64)
    ensures
        r == if deadline > now {
            deadline - now
        } else {
            0int
        },
{
    if deadline > now {
        ((deadline as i128) - (now as i128)) as u64
    } else {
        0
    }
}

} // verus!
