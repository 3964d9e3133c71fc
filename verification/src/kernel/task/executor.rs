//! The bookkeeping of the cooperative executor: which tasks live, and which
//! are ready to be polled.
//!
//! The tasks themselves, and the polling, belong to the program around the
//! library; the executor here decides what that program does next.

use vstd::prelude::*;
use std::collections::{BTreeSet, VecDeque};

verus! {

broadcast use vstd::std_specs::btree::group_btree_axioms;

/// Hands out task ids, each larger than the one before.
pub struct TaskIds {
    next: u64,
}

impl TaskIds {
    /// The id that is handed out next.
    pub closed spec fn upcoming(&self) -> u64 {
        self.next
    }

    /// A source of ids that starts at 0.
    pub fn new() -> (ids: TaskIds)
        ensures
            ids.upcoming() == 0,
    {
        TaskIds { next: 0 }
    }

    /// The next id. `None` once every id has been handed out.
    pub fn next_id(&mut self) -> (id: Option<u64>)
        ensures
            id == (if old(self).upcoming() < u64::MAX {
                Some(old(self).upcoming())
            } else {
                None
            }),
            final(self).upcoming() == (if old(self).upcoming() < u64::MAX {
                (old(self).upcoming() + 1) as u64
            } else {
                old(self).upcoming()
            }),
    {
        if self.next == u64::MAX {
            return None;
        }
        let id = self.next;
        self.next = self.next + 1;
        Some(id)
    }
}

/// What the executor does next.
#[derive(Clone, Copy, PartialEq, Eq, Structural, Debug)]
pub enum Step {
    /// Poll the task with this id, with a waker that makes it ready again.
    Poll(u64),
    /// No task is ready: halt the processor until the next interrupt.
    Halt,
    /// The shutdown flag is set: return.
    Exit,
}

/// Why the executor refused a task.
#[derive(Clone, Copy, PartialEq, Eq, Structural, Debug)]
pub enum ExecutorError {
    /// A task with this id lives already.
    DuplicateTask,
}

/// The ids of the ready queue from the first that belongs to a living task
/// on: ids of tasks that are gone are passed over.
pub open spec fn from_first_living(ready: Seq<u64>, tasks: Set<u64>) -> Seq<u64>
    decreases ready.len(),
{
    if ready.len() == 0 {
        ready
    } else if tasks.contains(ready[0]) {
        ready
    } else {
        from_first_living(ready.subrange(1, ready.len() as int), tasks)
    }
}

/// The executor: the ids of the living tasks and the queue of the ids that
/// are ready to be polled.
pub struct Executor {
    tasks: BTreeSet<u64>,
    ready: VecDeque<u64>,
}

impl Executor {
    /// The ids of the living tasks.
    pub closed spec fn living(&self) -> Set<u64> {
        self.tasks@
    }

    /// The queue of ready ids, the next to be polled first.
    pub closed spec fn queue(&self) -> Seq<u64> {
        self.ready@
    }

    /// An executor without tasks.
    pub fn new() -> (executor: Executor)
        ensures
            executor.living() == Set::<u64>::empty(),
            executor.queue() == Seq::<u64>::empty(),
    {
        Executor { tasks: BTreeSet::new(), ready: VecDeque::new() }
    }

    /// Takes a task in: it lives from now on and is ready to be polled.
    pub fn spawn(&mut self, id: u64) -> (r: Result<(), ExecutorError>)
        ensures
            match r {
                Ok(()) => !old(self).living().contains(id) && final(self).living() == old(self).living().insert(id) && final(self).queue() == old(self).queue().push(id),
                Err(e) => e == ExecutorError::DuplicateTask && old(self).living().contains(id) && final(self).living() == old(self).living() && final(self).queue() == old(self).queue(),
            },
    {
        if self.tasks.contains(&id) {
            return Err(ExecutorError::DuplicateTask);
        }
        self.tasks.insert(id);
        self.ready.push_back(id);
        Ok(())
    }

    /// Makes a task ready to be polled; its waker calls this.
    pub fn wake(&mut self, id: u64)
        ensures
            final(self).living() == old(self).living(),
            final(self).queue() == old(self).queue().push(id),
    {
        self.ready.push_back(id);
    }

    /// Notes that a task has run to its end: it lives no longer.
    pub fn task_done(&mut self, id: u64)
        ensures
            final(self).living() == old(self).living().remove(id),
            final(self).queue() == old(self).queue(),
    {
        self.tasks.remove(&id);
    }

    /// Decides what the executor does next. With the shutdown flag set it
    /// returns. Else the ready queue is worked off from its head: ids of
    /// tasks that are gone are dropped, and the first id of a living task is
    /// taken from the queue to be polled. Where no such id is left, the
    /// processor is to halt until an interrupt makes a task ready.
    pub fn next_step(&mut self, stop: bool) -> (step: Step)
        ensures
            final(self).living() == old(self).living(),
            stop ==> step == Step::Exit && final(self).queue() == old(self).queue(),
            !stop ==> {
                let rest = from_first_living(old(self).queue(), old(self).living());
                if rest.len() > 0 {
                    step == Step::Poll(rest[0]) && final(self).queue() == rest.subrange(
                        1,
                        rest.len() as int,
                    )
                } else {
                    step == Step::Halt && final(self).queue() == Seq::<u64>::empty()
                }
            },
    {
        if stop {
            return Step::Exit;
        }
        loop
            invariant
                !stop,
                self.living() == old(self).living(),
                from_first_living(old(self).queue(), old(self).living()) == from_first_living(
                    self.queue(),
                    self.living(),
                ),
            decreases self.ready@.len(),
        {
            match self.ready.pop_front() {
                Some(id) => {
                    if self.tasks.contains(&id) {
                        return Step::Poll(id);
                    }
                },
                None => {
                    assert(self.ready@ =~= Seq::<u64>::empty());
                    return Step::Halt;
                },
            }
        }
    }
}

} // verus!
