use vstd::prelude::*;

verus! {

/// The moment (milliseconds) at which a task is due.
#[derive(Debug, Clone, Copy, PartialEq, Eq, Structural)]
pub struct Deadline {
    /// The moment, in milliseconds, at which the deadline passes.
    pub when: u64,
    pub task_id: u32,
}

/// The abstract state of a deadline: when it passes (milliseconds) and its task.
pub struct DeadlineState {
    pub when: u64,
    pub task_id: u32,
}

impl View for Deadline {
    type V = DeadlineState;

    open spec fn view(&self) -> DeadlineState {
        DeadlineState { when: self.when, task_id: self.task_id }
    }
}

impl Deadline {
    /// A deadline for task `task_id`, `timeout` milliseconds after `now`; a
    /// moment past the last one a `u64` holds is the last one.
    pub fn new(task_id: u32, timeout: u64, now: u64) -> (d: Self)
        ensures
            d@.task_id == task_id,
            d@.when == if now + timeout <= u64::MAX { now + timeout } else { u64::MAX as int },
    {
        let when = if timeout <= u64::MAX - now { now + timeout } else { u64::MAX };
        Deadline { task_id: task_id, when: when }
    }

    /// The moment, in milliseconds, at which the deadline passes.
    pub fn when(&self) -> (w: u64)
        ensures
            w == self@.when,
    {
        self.when
    }

    /// Whether the deadline has passed at `now`: it passes at its own moment.
    pub fn is_expired(&self, now: u64) -> (expired: bool)
        ensures
            expired == (self@.when <= now),
    {
        if self.when <= now {
            return true;
        } else {
            return false;
        }
    }

    /// Whether this deadline comes due before `other`, so that it is served
    /// first: the earliest deadline ranks highest.
    pub fn outranks(&self, other: &Self) -> (first: bool)
        ensures
            first == (self@.when < other@.when),
    {
        self.when < other.when
    }
}

/// Once a deadline has passed it stays passed.
pub proof fn law_deadline_stays_expired(d: Deadline, now: u64, later: u64)
    requires
        d@.when <= now,
        now <= later,
    ensures
        d@.when <= later,
{
}

} // verus!
