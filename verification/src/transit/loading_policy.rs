//! Which departures are kept when schedules are loaded.
use vstd::prelude::*;

use crate::temporal::DateTime;
use crate::transit::schedule::{Departure, Schedule};

verus! {

/// Policy by which departures are pruned while schedules are read.
#[derive(Clone, Copy, Debug, PartialEq, Eq, Structural)]
pub enum ScheduleLoadingPolicy {
    /// keep every departure
    All,
    /// keep departures leaving within the inclusive range
    InDateRange { start_date: DateTime, end_date: DateTime },
}

impl Default for ScheduleLoadingPolicy {
    fn default() -> (r: ScheduleLoadingPolicy)
        ensures
            r == ScheduleLoadingPolicy::All,
    {
        ScheduleLoadingPolicy::All
    }
}

impl ScheduleLoadingPolicy {
    /// The policy keeps this departure: it does not arrive before it leaves, and it
    /// leaves within the policy's range, if any.
    pub open spec fn admits(self, element: Departure) -> bool {
        &&& element.src_departure_time.nanos <= element.dst_arrival_time.nanos
        &&& match self {
            ScheduleLoadingPolicy::All => true,
            ScheduleLoadingPolicy::InDateRange { start_date, end_date } => {
                element.src_departure_time.nanos <= end_date.nanos && start_date.nanos
                    <= element.src_departure_time.nanos
            },
        }
    }

    /// Inserts `element` into the schedule when the policy keeps it; otherwise the
    /// schedule is left as it was.
    pub fn insert_if_valid(&self, schedule_skiplist: &mut Schedule, element: Departure)
        requires
            old(schedule_skiplist).wf(),
            element.wf(),
            old(schedule_skiplist).departures().len() < usize::MAX,
        ensures
            final(schedule_skiplist).wf(),
            old(schedule_skiplist).all_ordered() ==> final(schedule_skiplist).all_ordered(),
            self.admits(element) ==> final(schedule_skiplist).departures() =~= old(
                schedule_skiplist,
            ).departures().insert(element.key()),
            !self.admits(element) ==> final(schedule_skiplist).departures() =~= old(
                schedule_skiplist,
            ).departures(),
            self.admits(element) ==> final(schedule_skiplist).held() == old(
                schedule_skiplist,
            ).held().push(element.key()),
            !self.admits(element) ==> final(schedule_skiplist).held() == old(
                schedule_skiplist,
            ).held(),
    {
        if element.src_departure_time.nanos > element.dst_arrival_time.nanos {
            return ;
        }
        let should_insert = match self {
            ScheduleLoadingPolicy::All => true,
            ScheduleLoadingPolicy::InDateRange { start_date, end_date } => {
                (element.src_departure_time.nanos <= end_date.nanos) && (start_date.nanos
                    <= element.src_departure_time.nanos)
            },
        };
        if should_insert {
            let ghost before = schedule_skiplist.departures();
            schedule_skiplist.insert(element);
            proof {
                if old(schedule_skiplist).all_ordered() {
                    assert forall|e: (i128, i128)| #[trigger]
                        schedule_skiplist.departures().contains(e) implies e.0 <= e.1 by {
                        if e != element.key() {
                            assert(before.contains(e));
                        }
                    }
                }
            }
        }
    }
}

} // verus!
