//! Timer ticks and the sleeps that count them.

use vstd::prelude::*;
use vstd::std_specs::iter::IteratorSpec;
use std::collections::BTreeMap;

verus! {

broadcast use vstd::std_specs::btree::group_btree_axioms;

/// Timer interrupts per second.
pub const TIMER_FREQUENCY: u16 = 100;

/// Milliseconds between two timer interrupts.
pub const MS_PER_TICK: u64 = 10;

/// Why the timer bookkeeping refused a request.
#[derive(Clone, Copy, PartialEq, Eq, Structural, Debug)]
pub enum TimerError {
    /// A sleep with this id is registered already.
    AlreadyRegistered,
    /// No sleep with this id is registered.
    NoSuchTask,
}

/// The flag between the timer interrupt and the task that counts ticks.
pub struct TimerStream {
    raised: bool,
}

impl TimerStream {
    /// Whether a tick is waiting to be taken.
    pub closed spec fn pending(&self) -> bool {
        self.raised
    }

    /// A stream without a waiting tick.
    pub fn new() -> (stream: TimerStream)
        ensures
            !stream.pending(),
    {
        TimerStream { raised: false }
    }

    /// Takes the waiting tick, if there is one: `Some(())` for a tick, `None`
    /// where the task has to wait for the next one.
    pub fn poll_next(&mut self) -> (tick: Option<()>)
        ensures
            tick is Some <==> old(self).pending(),
            !final(self).pending(),
    {
        if self.raised {
            self.raised = false;
            Some(())
        } else {
            None
        }
    }
}

/// Raises the timer flag; the timer interrupt calls this. Returns `true`
/// where the flag was still raised: the last tick was never taken.
pub fn raise_timer(stream: &mut TimerStream) -> (missed: bool)
    ensures
        missed == old(stream).pending(),
        final(stream).pending(),
{
    let missed = stream.raised;
    stream.raised = true;
    missed
}

/// The number of ticks that a sleep of `ms` milliseconds waits: one tick for
/// every full ten milliseconds, and one at least.
pub open spec fn ticks_for(ms: u64) -> u64 {
    if ms < MS_PER_TICK {
        1
    } else {
        ms / MS_PER_TICK
    }
}

/// The ticks left of a sleep that had `ticks` left, `elapsed` ticks later.
pub open spec fn ticks_left(ticks: u64, elapsed: nat) -> u64 {
    if elapsed >= ticks {
        0
    } else {
        (ticks - elapsed) as u64
    }
}

/// The sleeps that are being counted down: for each id the ticks left.
pub struct TimerTasksManager {
    tasks: BTreeMap<u64, u64>,
}

impl TimerTasksManager {
    /// The ticks left, by the id of the sleep.
    pub closed spec fn view(&self) -> Map<u64, u64> {
        self.tasks@
    }

    /// A manager without sleeps.
    pub fn new() -> (manager: TimerTasksManager)
        ensures
            manager@ == Map::<u64, u64>::empty(),
    {
        TimerTasksManager { tasks: BTreeMap::new() }
    }

    /// The ids of the sleeps, each once, in rising order.
    fn ids(&self) -> (ids: Vec<u64>)
        ensures
            ids@.to_set() == self@.dom(),
            ids@.no_duplicates(),
    {
        let mut ids: Vec<u64> = Vec::new();
        for id in iter: self.tasks.keys()
            invariant
                ids@.len() == iter.index(),
                forall|j: int| 0 <= j < iter.index() ==> ids@[j] == *iter.seq()[j],
        {
            ids.push(*id);
        }
        assert(ids@ =~= self.tasks.keys().remaining().unref());
        ids
    }

    /// Registers the sleep `id` with `ticks` ticks to go.
    pub fn register_task(&mut self, id: u64, ticks: u64) -> (r: Result<(), TimerError>)
        ensures
            match r {
                Ok(()) => !old(self)@.dom().contains(id) && final(self)@ == old(self)@.insert(id, ticks),
                Err(e) => e == TimerError::AlreadyRegistered && old(self)@.dom().contains(id) && final(self)@ == old(self)@,
            },
    {
        if self.tasks.contains_key(&id) {
            return Err(TimerError::AlreadyRegistered);
        }
        self.tasks.insert(id, ticks);
        Ok(())
    }

    /// Counts one tick off every sleep that has ticks left, and returns the
    /// ids of the sleeps that have none left, to be woken.
    pub fn decrement_all(&mut self) -> (due: Vec<u64>)
        ensures
            final(self)@.dom() == old(self)@.dom(),
            forall|id: u64|
                old(self)@.dom().contains(id) ==> #[trigger] final(self)@[id] == ticks_left(
                    old(self)@[id],
                    1,
                ),
            forall|id: u64|
                due@.contains(id) <==> final(self)@.dom().contains(id) && #[trigger] final(self)@[id]
                    == 0,
    {
        let ids = self.ids();
        let mut due: Vec<u64> = Vec::new();
        let mut i: usize = 0;
        while i < ids.len()
            invariant
                i <= ids@.len(),
                ids@.to_set() == old(self)@.dom(),
                ids@.no_duplicates(),
                self@.dom() == old(self)@.dom(),
                forall|j: int| 0 <= j < i ==> self@[#[trigger] ids@[j]] == ticks_left(old(self)@[ids@[j]], 1),
                forall|j: int| i <= j < ids@.len() ==> self@[#[trigger] ids@[j]] == old(self)@[ids@[j]],
                forall|id: u64|
                    due@.contains(id) <==> exists|j: int|
                        0 <= j < i && #[trigger] ids@[j] == id && self@[id] == 0,
            decreases ids@.len() - i,
        {
            let id = ids[i];
            assert(ids@.to_set().contains(id));
            let left = match self.tasks.get(&id) {
                Some(ticks) => *ticks,
                None => 0,
            };
            let ticks = if left > 0 {
                left - 1
            } else {
                0
            };
            let ghost earlier = self@;
            let ghost earlier_due = due@;
            self.tasks.insert(id, ticks);
            if ticks == 0 {
                due.push(id);
            }
            proof {
                assert(self@.dom() =~= old(self)@.dom());
                assert forall|j: int| 0 <= j < i + 1 implies self@[#[trigger] ids@[j]] == ticks_left(
                    old(self)@[ids@[j]],
                    1,
                ) by {
                    if j < i {
                        assert(ids@[j] != ids@[i as int]);
                    }
                }
                assert forall|j: int| i + 1 <= j < ids@.len() implies self@[#[trigger] ids@[j]] == old(
                    self,
                )@[ids@[j]] by {
                    assert(ids@[j] != ids@[i as int]);
                }
                assert forall|key: u64|
                    due@.contains(key) <==> exists|j: int|
                        0 <= j < i + 1 && #[trigger] ids@[j] == key && self@[key] == 0 by {
                    if due@.contains(key) {
                        if earlier_due.contains(key) {
                            let j = choose|j: int|
                                0 <= j < i && #[trigger] ids@[j] == key && earlier[key] == 0;
                            assert(ids@[j] != ids@[i as int]);
                            assert(ids@[j] == key && self@[key] == 0);
                        } else {
                            let k = choose|k: int| 0 <= k < due@.len() && due@[k] == key;
                            if k < earlier_due.len() {
                                assert(earlier_due[k] == key);
                            }
                            assert(ids@[i as int] == key && self@[key] == 0);
                        }
                    }
                    if exists|j: int| 0 <= j < i + 1 && #[trigger] ids@[j] == key && self@[key] == 0 {
                        let j = choose|j: int|
                            0 <= j < i + 1 && #[trigger] ids@[j] == key && self@[key] == 0;
                        if j < i {
                            assert(ids@[j] != ids@[i as int]);
                            assert(ids@[j] == key && earlier[key] == 0);
                            assert(earlier_due.contains(key));
                            let k = choose|k: int| 0 <= k < earlier_due.len() && earlier_due[k] == key;
                            assert(due@[k] == key);
                        } else {
                            assert(due@[due@.len() - 1] == key);
                        }
                    }
                }
            }
            i = i + 1;
        }
        proof {
            assert forall|id: u64| old(self)@.dom().contains(id) implies #[trigger] self@[id]
                == ticks_left(old(self)@[id], 1) by {
                assert(ids@.to_set().contains(id));
                let j = choose|j: int| 0 <= j < ids@.len() && ids@[j] == id;
                assert(self@[ids@[j]] == ticks_left(old(self)@[ids@[j]], 1));
            }
            assert forall|id: u64|
                due@.contains(id) <==> self@.dom().contains(id) && #[trigger] self@[id] == 0 by {
                if due@.contains(id) {
                    let j = choose|j: int| 0 <= j < i && #[trigger] ids@[j] == id && self@[id] == 0;
                    assert(ids@.to_set().contains(ids@[j]));
                }
                if self@.dom().contains(id) && self@[id] == 0 {
                    assert(ids@.to_set().contains(id));
                    let j = choose|j: int| 0 <= j < ids@.len() && ids@[j] == id;
                    assert(ids@[j] == id);
                }
            }
        }
        due
    }

    /// Tells whether the sleep `id` is over, and forgets it if so.
    pub fn check_task(&mut self, id: u64) -> (r: Result<bool, TimerError>)
        ensures
            match r {
                Ok(over) => {
                    &&& old(self)@.dom().contains(id)
                    &&& over == (old(self)@[id] == 0)
                    &&& final(self)@ == (if over {
                        old(self)@.remove(id)
                    } else {
                        old(self)@
                    })
                },
                Err(e) => e == TimerError::NoSuchTask && !old(self)@.dom().contains(id) && final(self)@
                    == old(self)@,
            },
    {
        let left = match self.tasks.get(&id) {
            Some(ticks) => *ticks,
            None => {
                return Err(TimerError::NoSuchTask);
            },
        };
        if left != 0 {
            return Ok(false);
        }
        self.tasks.remove(&id);
        Ok(true)
    }

    /// Tells whether a waker can be registered for the sleep `id`: whether
    /// the sleep is registered.
    pub fn register_waker(&self, id: u64) -> (r: Result<(), TimerError>)
        ensures
            r is Ok <==> self@.dom().contains(id),
            r is Err ==> r->Err_0 == TimerError::NoSuchTask,
    {
        if self.tasks.contains_key(&id) {
            Ok(())
        } else {
            Err(TimerError::NoSuchTask)
        }
    }
}

/// A sleep: the id under which its ticks are counted.
pub struct Sleep {
    pub task_id: u64,
}

impl Sleep {
    /// Starts a sleep of `sleep_for_ms` milliseconds under the id `id`.
    pub fn new(id: u64, sleep_for_ms: u64, manager: &mut TimerTasksManager) -> (r: Result<
        Sleep,
        TimerError,
    >)
        ensures
            match r {
                Ok(sleep) => sleep.task_id == id && !old(manager)@.dom().contains(id) && final(manager)@ == old(manager)@.insert(id, ticks_for(sleep_for_ms)),
                Err(e) => e == TimerError::AlreadyRegistered && old(manager)@.dom().contains(id)
                    && final(manager)@ == old(manager)@,
            },
    {
        let timer_value = if sleep_for_ms < MS_PER_TICK {
            1
        } else {
            sleep_for_ms / MS_PER_TICK
        };
        match manager.register_task(id, timer_value) {
            Ok(()) => Ok(Sleep { task_id: id }),
            Err(e) => Err(e),
        }
    }

    /// Polls the sleep: `true` once its ticks are used up, and then the
    /// manager forgets it.
    pub fn poll(&self, manager: &mut TimerTasksManager) -> (r: Result<bool, TimerError>)
        ensures
            match r {
                Ok(over) => {
                    &&& old(manager)@.dom().contains(self.task_id)
                    &&& over == (old(manager)@[self.task_id] == 0)
                    &&& final(manager)@ == (if over {
                        old(manager)@.remove(self.task_id)
                    } else {
                        old(manager)@
                    })
                },
                Err(e) => e == TimerError::NoSuchTask && !old(manager)@.dom().contains(self.task_id)
                    && final(manager)@ == old(manager)@,
            },
    {
        manager.check_task(self.task_id)
    }
}

/// The ticks of every sleep, `elapsed` ticks later.
pub open spec fn after_ticks(sleeps: Map<u64, u64>, elapsed: nat) -> Map<u64, u64> {
    Map::new(|id: u64| sleeps.dom().contains(id), |id: u64| ticks_left(sleeps[id], elapsed))
}

/// One more tick after `elapsed` ticks is `elapsed + 1` ticks: counting down
/// tick by tick is counting down all at once.
pub proof fn lemma_ticks_add_up(sleeps: Map<u64, u64>, elapsed: nat)
    ensures
        after_ticks(after_ticks(sleeps, elapsed), 1) == after_ticks(sleeps, elapsed + 1),
{
    assert(after_ticks(after_ticks(sleeps, elapsed), 1) =~= after_ticks(sleeps, elapsed + 1));
}

/// A sleep is over after exactly as many ticks as it was started with, and
/// not before: of two sleeps started together the shorter is over first, and
/// a sleep of `ms` milliseconds lasts more than `ms` less one tick.
pub proof fn lemma_sleep_length(ms: u64, elapsed: nat)
    ensures
        ticks_left(ticks_for(ms), elapsed) == 0 <==> elapsed >= ticks_for(ms),
        ticks_for(ms) >= 1,
        ticks_for(ms) * MS_PER_TICK <= ms || ms < MS_PER_TICK,
        ticks_for(ms) * MS_PER_TICK + MS_PER_TICK > ms,
{
}

/// Of two sleeps that start on the same tick, the one asked to last no
/// longer is over no later: whenever the longer is over, so is the shorter.
pub proof fn lemma_shorter_sleep_first(shorter_ms: u64, longer_ms: u64, elapsed: nat)
    requires
        shorter_ms <= longer_ms,
    ensures
        ticks_for(shorter_ms) <= ticks_for(longer_ms),
        ticks_left(ticks_for(longer_ms), elapsed) == 0 ==> ticks_left(ticks_for(shorter_ms), elapsed)
            == 0,
{
}

/// The ticks that sleeps take which are started one after the other, each
/// when the one before is over: the sum of their ticks.
pub open spec fn total_ticks(sleeps: Seq<u64>) -> nat
    decreases sleeps.len(),
{
    if sleeps.len() == 0 {
        0
    } else {
        total_ticks(sleeps.drop_last()) + ticks_for(sleeps.last()) as nat
    }
}

/// `count` sleeps of `ms` milliseconds, one after the other, take `count`
/// times the ticks of one: with ten milliseconds to the tick, more than
/// `count * ms` milliseconds less one tick for each.
pub proof fn lemma_sleeps_in_a_row(ms: u64, count: nat)
    ensures
        total_ticks(Seq::new(count, |i: int| ms)) == count * ticks_for(ms),
        total_ticks(Seq::new(count, |i: int| ms)) * MS_PER_TICK + count * MS_PER_TICK > count * ms
            || count == 0,
    decreases count,
{
    if count > 0 {
        lemma_sleeps_in_a_row(ms, (count - 1) as nat);
        assert(Seq::new(count, |i: int| ms).drop_last() =~= Seq::new((count - 1) as nat, |i: int| ms));
        assert(count * ticks_for(ms) == (count - 1) * ticks_for(ms) + ticks_for(ms))
            by (nonlinear_arith);
        lemma_sleep_length(ms, 0);
        assert(count * ticks_for(ms) * MS_PER_TICK + count * MS_PER_TICK > count * ms)
            by (nonlinear_arith)
            requires
                count > 0,
                ticks_for(ms) * MS_PER_TICK + MS_PER_TICK > ms,
        ;
    }
}

} // verus!
