//! A single task and the rules that bring a repeating task back to
//! "incomplete" once its due day has begun.
use crate::stamp::{local_midnight, nanos_until, whole_secs, whole_secs_of, Stamp, SECS_PER_DAY};
use vstd::prelude::*;

verus! {

/// Seconds in an hour.
pub const SECS_PER_HOUR: i128 = 3600;

/// A task of the list.
#[derive(Clone, Debug)]
pub struct TodoItem {
    pub text: String,
    pub complete: bool,
    /// When the task was last completed.
    pub complete_date: Option<Stamp>,
    /// Days after the completion day on which the task is due again.
    pub repeat_days: Option<i64>,
}

/// How a completed task stands with respect to its next repetition.
#[derive(Clone, Copy, Debug, PartialEq, Eq, Structural)]
pub enum RepeatStatus {
    /// The due day has begun (or begins within the day).
    DueToday,
    /// The due moment passed this many whole days ago.
    OverdueDays(i128),
    /// The due moment is this far ahead.
    DueIn { days: i128, hours: i128 },
    /// The task repeats but no due moment can be computed.
    NoCompletionDate,
    /// The task does not repeat.
    NoRepeat,
}

/// An optional machine integer as a mathematical one.
pub open spec fn widen(o: Option<i128>) -> Option<int> {
    match o {
        Some(t) => Some(t as int),
        None => None,
    }
}

/// The status shown for a completed task, given its repeat interval and the
/// nanoseconds left until its due moment, if any. The time left is counted
/// in whole seconds, rounded toward zero.
pub open spec fn status_of(repeat: Option<i64>, until: Option<int>) -> RepeatStatus {
    match until {
        Some(t) => {
            let n = whole_secs(t);
            if n <= 0 {
                if (-n) / (SECS_PER_DAY as int) <= 0 {
                    RepeatStatus::DueToday
                } else {
                    RepeatStatus::OverdueDays(((-n) / (SECS_PER_DAY as int)) as i128)
                }
            } else if n / (SECS_PER_DAY as int) >= 1 {
                RepeatStatus::DueIn {
                    days: (n / (SECS_PER_DAY as int)) as i128,
                    hours: ((n % (SECS_PER_DAY as int)) / (SECS_PER_HOUR as int)) as i128,
                }
            } else {
                RepeatStatus::DueToday
            }
        },
        None => if repeat is Some {
            RepeatStatus::NoCompletionDate
        } else {
            RepeatStatus::NoRepeat
        },
    }
}

/// The status for the nanoseconds `until` the due moment (see `status_of`).
pub fn status_from(repeat: Option<i64>, until: Option<i128>) -> (r: RepeatStatus)
    ensures
        r == status_of(repeat, widen(until)),
{
    match until {
        Some(t) => {
            let n = whole_secs_of(t);
            let day = SECS_PER_DAY as i128;
            if n <= 0 {
                let overdue: i128 = (-n) / day;
                if overdue <= 0 {
                    RepeatStatus::DueToday
                } else {
                    RepeatStatus::OverdueDays(overdue)
                }
            } else {
                let days: i128 = n / day;
                if days >= 1 {
                    RepeatStatus::DueIn { days, hours: (n % day) / SECS_PER_HOUR }
                } else {
                    RepeatStatus::DueToday
                }
            }
        },
        None => {
            if repeat.is_some() {
                RepeatStatus::NoCompletionDate
            } else {
                RepeatStatus::NoRepeat
            }
        },
    }
}

impl TodoItem {
    /// The completion stamp, if any, is in range.
    pub open spec fn wf(&self) -> bool {
        self.complete_date matches Some(c) ==> c.wf()
    }

    /// The local day on which a task completed at `c` with a repeat of
    /// `days` days is due again.
    pub open spec fn due_day(c: Stamp, days: i64) -> int {
        c.local_day() + days
    }

    /// `due` is an admissible answer for the task's next due moment: nothing
    /// when the completion stamp or the interval is missing, and otherwise
    /// either local midnight of the due day or nothing (that midnight could
    /// not be resolved in the local zone).
    pub open spec fn due_candidate(&self, due: Option<Stamp>) -> bool {
        match due {
            None => true,
            Some(d) => {
                &&& self.complete_date is Some
                &&& self.repeat_days is Some
                &&& d.wf()
                &&& d.is_local_midnight_of(
                    Self::due_day(self.complete_date->0, self.repeat_days->0),
                )
            },
        }
    }

    /// The task is complete and `now` has reached the due moment `due`.
    pub open spec fn due_with(&self, due: Option<Stamp>, now: Stamp) -> bool {
        self.complete && (due matches Some(d) && now.instant() >= d.instant())
    }

    /// The task after an automatic reset decided with due moment `due`.
    pub open spec fn reset_with(self, due: Option<Stamp>, now: Stamp) -> TodoItem {
        if self.due_with(due, now) {
            TodoItem { complete: false, complete_date: None, ..self }
        } else {
            self
        }
    }

    /// `after` is a possible result of the reset rule applied at `now`,
    /// for some admissible due moment.
    pub open spec fn reset_outcome(&self, after: TodoItem, now: Stamp) -> bool {
        exists|d: Option<Stamp>| self.due_candidate(d) && after == self.reset_with(d, now)
    }

    /// Nanoseconds until the due moment `due`, for a completed task.
    pub open spec fn until_with(&self, due: Option<Stamp>, now: Stamp) -> Option<int> {
        if !self.complete {
            None
        } else {
            match due {
                Some(d) => Some(d.instant() - now.instant()),
                None => None,
            }
        }
    }

    /// A fresh, incomplete task.
    pub fn new(text: String, repeat_days: Option<i64>) -> (r: Self)
        ensures
            r.text == text,
            !r.complete,
            r.complete_date is None,
            r.repeat_days == repeat_days,
    {
        TodoItem { text, complete: false, complete_date: None, repeat_days }
    }

    /// Marks the task complete at `now`.
    pub fn mark_complete(&mut self, now: Stamp)
        ensures
            *final(self) == (TodoItem { complete: true, complete_date: Some(now), ..*old(self) }),
    {
        self.complete = true;
        self.complete_date = Some(now);
    }

    /// Marks the task incomplete and forgets its completion stamp.
    pub fn mark_incomplete(&mut self)
        ensures
            *final(self) == (TodoItem { complete: false, complete_date: None, ..*old(self) }),
    {
        self.complete = false;
        self.complete_date = None;
    }

    /// Local midnight of the due day: the completion's local calendar day
    /// plus the repeat interval. `None` without a completion stamp or an
    /// interval, and when that midnight has no single instant.
    pub fn next_due_start(&self) -> (r: Option<Stamp>)
        requires
            self.wf(),
        ensures
            self.due_candidate(r),
    {
        match self.due_day_number() {
            Some(day) => local_midnight(day),
            None => None,
        }
    }

    /// The local day (day 0 is 1970-01-01) on which the task is due again:
    /// the completion's local day plus the interval. `None` without a
    /// completion stamp or an interval, or when that day is beyond the range
    /// of calendar dates handled.
    pub fn due_day_number(&self) -> (r: Option<i32>)
        requires
            self.wf(),
        ensures
            r == (if self.complete_date is Some && self.repeat_days is Some && i32::MIN
                <= Self::due_day(self.complete_date->0, self.repeat_days->0) <= i32::MAX {
                Some(Self::due_day(self.complete_date->0, self.repeat_days->0) as i32)
            } else {
                None
            }),
    {
        match (self.complete_date, self.repeat_days) {
            (Some(done_at), Some(days)) => {
                match done_at.day().checked_add(days) {
                    Some(due) => {
                        if i32::MIN as i64 <= due && due <= i32::MAX as i64 {
                            Some(due as i32)
                        } else {
                            None
                        }
                    },
                    None => None,
                }
            },
            _ => None,
        }
    }

    /// Whether the task, with due moment `due`, must be reset at `now`.
    pub fn is_due_with(&self, due: Option<Stamp>, now: Stamp) -> (r: bool)
        requires
            now.wf(),
            due matches Some(d) ==> d.wf(),
        ensures
            r == self.due_with(due, now),
    {
        if !self.complete {
            return false;
        }
        match due {
            Some(d) => now.at_or_after(&d),
            None => false,
        }
    }

    /// Whether the task is complete and its due moment has been reached.
    pub fn should_reset(&self, now: Stamp) -> (r: bool)
        requires
            self.wf(),
            now.wf(),
        ensures
            exists|d: Option<Stamp>| self.due_candidate(d) && r == self.due_with(d, now),
            !self.complete ==> !r,
            self.repeat_days is None ==> !r,
            self.complete_date is None ==> !r,
    {
        let due = self.next_due_start();
        let r = self.is_due_with(due, now);
        assert(self.due_candidate(due) && r == self.due_with(due, now));
        r
    }

    /// Resets a due task to incomplete; leaves any other task as it is.
    pub fn reset_if_due(&mut self, now: Stamp)
        requires
            old(self).wf(),
            now.wf(),
        ensures
            old(self).reset_outcome(*final(self), now),
            old(self).repeat_days is None ==> *final(self) == *old(self),
            !old(self).complete ==> *final(self) == *old(self),
            final(self).wf(),
    {
        let due = self.next_due_start();
        self.reset_with_due(due, now);
    }

    /// Resets the task if it is due at `now` with due moment `due`.
    pub fn reset_with_due(&mut self, due: Option<Stamp>, now: Stamp)
        requires
            now.wf(),
            due matches Some(d) ==> d.wf(),
        ensures
            *final(self) == old(self).reset_with(due, now),
    {
        if self.is_due_with(due, now) {
            self.complete = false;
            self.complete_date = None;
        }
    }

    /// Nanoseconds from `now` until the due moment; negative once it has
    /// passed. `None` for an incomplete task or when
    /// there is no due moment.
    pub fn time_until_next_repeat(&self, now: Stamp) -> (r: Option<i128>)
        requires
            self.wf(),
            now.wf(),
        ensures
            exists|d: Option<Stamp>|
                self.due_candidate(d) && widen(r) == self.until_with(d, now),
            !self.complete || self.repeat_days is None ==> r is None,
    {
        if !self.complete {
            assert(self.due_candidate(None));
            return None;
        }
        let due = self.next_due_start();
        let r = match due {
            Some(d) => Some(nanos_until(&d, &now)),
            None => None,
        };
        assert(self.due_candidate(due) && widen(r) == self.until_with(due, now));
        r
    }

    /// The repeat status of the item at `now`.
    pub fn repeat_status(&self, now: Stamp) -> (r: RepeatStatus)
        requires
            self.wf(),
            now.wf(),
        ensures
            exists|d: Option<Stamp>|
                self.due_candidate(d) && r == status_of(self.repeat_days, self.until_with(d, now)),
    {
        let until = self.time_until_next_repeat(now);
        let r = status_from(self.repeat_days, until);
        let ghost d = choose|d: Option<Stamp>|
            self.due_candidate(d) && widen(until) == self.until_with(d, now);
        assert(self.due_candidate(d) && r == status_of(self.repeat_days, self.until_with(d, now)));
        r
    }
}

/// The due moment depends on the completion's calendar day only: two tasks
/// with the same interval, completed on the same local day at any times,
/// have exactly the same admissible due moments, each local midnight of that day plus
/// the interval.
pub proof fn due_moment_ignores_time_of_day(a: TodoItem, b: TodoItem, due: Option<Stamp>)
    requires
        a.complete_date is Some,
        b.complete_date is Some,
        a.complete_date->0.local_day() == b.complete_date->0.local_day(),
        a.repeat_days == b.repeat_days,
    ensures
        a.due_candidate(due) == b.due_candidate(due),
        a.due_candidate(due) && due is Some ==> due->0.is_local_midnight_of(
            a.complete_date->0.local_day() + a.repeat_days->0,
        ),
{
}

/// A task without a repeat interval is never due, whatever the time.
pub proof fn never_due_without_interval(t: TodoItem, due: Option<Stamp>, now: Stamp)
    requires
        t.repeat_days is None,
        t.due_candidate(due),
    ensures
        !t.due_with(due, now),
{
}

/// A task without a repeat interval is left exactly as it is by the
/// automatic reset, however long ago it was completed.
pub proof fn never_reset_without_interval(t: TodoItem, due: Option<Stamp>, now: Stamp)
    requires
        t.repeat_days is None,
        t.due_candidate(due),
    ensures
        t.reset_with(due, now) == t,
{
}

/// Resetting twice at the same moment, with the same due moment, gives what
/// resetting once gives; and once a reset has happened, no later reset at
/// that moment changes the task again, whatever due moment it resolves.
pub proof fn reset_is_idempotent(t: TodoItem, due: Option<Stamp>, again: Option<Stamp>, now: Stamp)
    ensures
        t.reset_with(due, now).reset_with(due, now) == t.reset_with(due, now),
        t.due_with(due, now) ==> t.reset_with(due, now).reset_with(again, now) == t.reset_with(
            due,
            now,
        ),
{
}

/// A complete task is due exactly when it has a due moment and no time is
/// left until it.
pub proof fn due_iff_no_time_left(t: TodoItem, due: Option<Stamp>, now: Stamp)
    ensures
        t.due_with(due, now) <==> (t.until_with(due, now) matches Some(x) && x <= 0),
{
}

/// Moving `now` later by `delta` nanoseconds lowers the time left by `delta`.
pub proof fn time_left_shifts_with_now(t: TodoItem, due: Option<Stamp>, now: Stamp, later: Stamp)
    requires
        t.complete,
        due is Some,
    ensures
        t.until_with(due, later)->0 == t.until_with(due, now)->0 - (later.instant() - now.instant()),
{
}

} // verus!
