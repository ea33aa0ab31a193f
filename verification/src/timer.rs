//! The cooperative scheduler.
//!
//! Timeouts are scheduled as logical tasks against a caller-supplied clock;
//! firing returns the due tokens as events rather than mutating any state,
//! and a cancelled task never fires, so a fired-but-stale timer is a
//! harmless no-op.

use vstd::prelude::*;

verus! {

/// One scheduled timeout.
#[derive(Clone, Copy, PartialEq, Eq, Structural, Debug)]
pub struct ScheduledTask {
    /// The tick at which the task becomes due.
    pub deadline: u64,
    /// The caller's handle for the task.
    pub token: u64,
    /// Whether the task was cancelled before firing.
    pub cancelled: bool,
}

/// Which tasks of `tasks` fire at `now`: the due ones not cancelled, in
/// scheduling order.
pub open spec fn spec_due(tasks: Seq<ScheduledTask>, now: u64) -> Seq<u64>
    decreases tasks.len(),
{
    if tasks.len() == 0 {
        Seq::empty()
    } else {
        let rest = spec_due(tasks.drop_last(), now);
        if tasks.last().deadline <= now && !tasks.last().cancelled {
            rest.push(tasks.last().token)
        } else {
            rest
        }
    }
}

/// Which tasks of `tasks` remain scheduled after `now` fired: those not
/// yet due and not cancelled.
pub open spec fn spec_remaining(tasks: Seq<ScheduledTask>, now: u64) -> Seq<ScheduledTask>
    decreases tasks.len(),
{
    if tasks.len() == 0 {
        Seq::empty()
    } else {
        let rest = spec_remaining(tasks.drop_last(), now);
        if tasks.last().deadline > now && !tasks.last().cancelled {
            rest.push(tasks.last())
        } else {
            rest
        }
    }
}

/// A cooperative scheduler of delayed actions, driven by a logical clock
/// the host advances.
pub struct Scheduler {
    /// The scheduled tasks, in scheduling order.
    pub tasks: Vec<ScheduledTask>,
}

impl Scheduler {
    /// An empty scheduler.
    pub fn new() -> (r: Scheduler)
        ensures
            r.tasks@.len() == 0,
    {
        Scheduler { tasks: Vec::new() }
    }

    /// Schedules `token` to fire at `deadline`.
    pub fn schedule(&mut self, deadline: u64, token: u64)
        ensures
            final(self).tasks@ == old(self).tasks@.push(
                ScheduledTask { deadline, token, cancelled: false },
            ),
    {
        self.tasks.push(ScheduledTask { deadline, token, cancelled: false });
    }

    /// Cancels every scheduled task carrying `token`; its timeout will
    /// never fire.
    pub fn cancel(&mut self, token: u64)
        ensures
            final(self).tasks@.len() == old(self).tasks@.len(),
            forall|i: int|
                0 <= i < old(self).tasks@.len() ==> #[trigger] final(self).tasks@[i] == (if old(
                    self,
                ).tasks@[i].token == token {
                    ScheduledTask { cancelled: true, ..old(self).tasks@[i] }
                } else {
                    old(self).tasks@[i]
                }),
    {
        let mut i: usize = 0;
        while i < self.tasks.len()
            invariant
                i <= self.tasks@.len(),
                self.tasks@.len() == old(self).tasks@.len(),
                forall|j: int|
                    0 <= j < i ==> #[trigger] self.tasks@[j] == (if old(self).tasks@[j].token
                        == token {
                        ScheduledTask { cancelled: true, ..old(self).tasks@[j] }
                    } else {
                        old(self).tasks@[j]
                    }),
                forall|j: int| i <= j < self.tasks@.len() ==> #[trigger] self.tasks@[j] == old(
                    self,
                ).tasks@[j],
            decreases self.tasks.len() - i,
        {
            if self.tasks[i].token == token {
                let t = self.tasks[i];
                self.tasks[i] = ScheduledTask { deadline: t.deadline, token: t.token, cancelled: true };
            }
            i = i + 1;
        }
    }

    /// Fires every task due at `now` that was not cancelled, removing it
    /// and returning its token as a logical event for the host to act on.
    /// Due tasks that were cancelled are dropped without firing.
    pub fn fire_due(&mut self, now: u64) -> (r: Vec<u64>)
        ensures
            r@ == spec_due(old(self).tasks@, now),
            final(self).tasks@ == spec_remaining(old(self).tasks@, now),
    {
        let mut fired: Vec<u64> = Vec::new();
        let mut remaining: Vec<ScheduledTask> = Vec::new();
        let mut i: usize = 0;
        while i < self.tasks.len()
            invariant
                i <= self.tasks@.len(),
                self.tasks@ == old(self).tasks@,
                fired@ == spec_due(self.tasks@.take(i as int), now),
                remaining@ == spec_remaining(self.tasks@.take(i as int), now),
            decreases self.tasks.len() - i,
        {
            let t = self.tasks[i];
            proof {
                assert(self.tasks@.take(i + 1 as int).drop_last() =~= self.tasks@.take(i as int));
                assert(self.tasks@.take(i + 1 as int).last() == self.tasks@[i as int]);
            }
            if t.deadline <= now && !t.cancelled {
                fired.push(t.token);
            } else if t.deadline > now && !t.cancelled {
                remaining.push(t);
            }
            i = i + 1;
        }
        proof {
            assert(self.tasks@.take(self.tasks@.len() as int) =~= self.tasks@);
        }
        self.tasks = remaining;
        fired
    }
}

} // verus!
