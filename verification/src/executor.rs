//! The bounded fan-out executor's admission limiter, as a verified state
//! machine.
//!
//! The shell submits one lightweight task per item up front, then drives
//! this machine: a task passes the limiter with [`FanOut::start`] only while
//! fewer than `limit` operations are executing, and always hands its outcome
//! back with [`FanOut::finish`], whether the operation succeeded, returned
//! an error, or was aborted by the runtime. The machine guarantees the
//! invariants the design rests on: never more than `limit` operations past
//! the limiter, each item started and finished exactly once, one item's failure
//! leaving every sibling's record untouched, and exactly one outcome per
//! submitted item when the batch is collected.

use vstd::prelude::*;

verus! {

/// Why one fanned-out item failed.
#[derive(Clone, Debug)]
pub enum Failure {
    /// The operation itself returned an error: an account-level problem.
    Operation(String),
    /// The task running the operation could not complete at all: an
    /// infrastructure problem, distinct from an operation error.
    Abort(String),
}

/// One submitted item's progress through the admission limiter.
#[derive(Debug)]
pub enum SlotState<R> {
    /// Submitted, waiting at the limiter.
    Pending,
    /// Past the limiter, its operation executing.
    Running,
    /// Finished, with the outcome the task handed back.
    Done(Result<R, Failure>),
}

/// How many slots of `s` are currently past the limiter.
pub open spec fn count_running<R>(s: Seq<SlotState<R>>) -> nat
    decreases s.len(),
{
    if s.len() == 0 {
        0
    } else {
        count_running(s.drop_last()) + (if s.last() is Running {
            1nat
        } else {
            0nat
        })
    }
}

/// Every slot of `s` holds an outcome.
pub open spec fn all_done<R>(s: Seq<SlotState<R>>) -> bool {
    forall|i: int| 0 <= i < s.len() ==> s[i] is Done
}

proof fn lemma_count_running_update<R>(s: Seq<SlotState<R>>, i: int, v: SlotState<R>)
    requires
        0 <= i < s.len(),
    ensures
        count_running(s.update(i, v)) == count_running(s) + (if v is Running {
            1int
        } else {
            0int
        }) - (if s[i] is Running {
            1int
        } else {
            0int
        }),
    decreases s.len(),
{
    if i == s.len() - 1 {
        assert(s.update(i, v).drop_last() =~= s.drop_last());
    } else {
        assert(s.update(i, v).drop_last() =~= s.drop_last().update(i, v));
        lemma_count_running_update(s.drop_last(), i, v);
    }
}

/// One fan-out batch: the submitted items, each item's progress, and the
/// admission limiter's counters.
pub struct FanOut<T, R> {
    items: Vec<T>,
    slots: Vec<SlotState<R>>,
    limit: usize,
    in_flight: usize,
    peak: usize,
}

impl<T, R> FanOut<T, R> {
    /// The submitted items, in submission order.
    pub closed spec fn spec_items(self) -> Seq<T> {
        self.items@
    }

    /// Each item's progress, index-paired with the items.
    pub closed spec fn spec_slots(self) -> Seq<SlotState<R>> {
        self.slots@
    }

    /// The limiter's capacity: the most operations allowed past it at once.
    pub closed spec fn spec_limit(self) -> nat {
        self.limit as nat
    }

    /// How many operations are past the limiter right now.
    pub closed spec fn spec_in_flight(self) -> nat {
        self.in_flight as nat
    }

    /// The most operations that were ever past the limiter at one instant.
    pub closed spec fn spec_peak(self) -> nat {
        self.peak as nat
    }

    /// The batch's invariant: one slot per item, a truthful in-flight
    /// counter, and never more operations past the limiter than the limit.
    pub open spec fn wf(self) -> bool {
        &&& self.spec_slots().len() == self.spec_items().len()
        &&& self.spec_limit() >= 1
        &&& self.spec_in_flight() == count_running(self.spec_slots())
        &&& self.spec_in_flight() <= self.spec_peak()
        &&& self.spec_peak() <= self.spec_limit()
    }

    /// Submits a batch: every item accepted up front, none yet past the
    /// limiter.
    pub fn new(items: Vec<T>, limit: usize) -> (r: Self)
        requires
            limit >= 1,
        ensures
            r.wf(),
            r.spec_items() == items@,
            r.spec_limit() == limit as nat,
            r.spec_in_flight() == 0,
            r.spec_peak() == 0,
            forall|i: int| 0 <= i < r.spec_slots().len() ==> r.spec_slots()[i] is Pending,
    {
        let n = items.len();
        let mut slots: Vec<SlotState<R>> = Vec::new();
        let mut k: usize = 0;
        while k < n
            invariant
                k <= n,
                slots@.len() == k,
                count_running(slots@) == 0,
                forall|i: int| 0 <= i < slots@.len() ==> slots@[i] is Pending,
            decreases n - k,
        {
            let ghost before = slots@;
            slots.push(SlotState::Pending);
            proof {
                assert(slots@.drop_last() =~= before);
            }
            k = k + 1;
        }
        FanOut { items, slots, limit, in_flight: 0, peak: 0 }
    }

    /// How many items the batch holds.
    pub fn len(&self) -> (r: usize)
        ensures
            r == self.spec_items().len(),
    {
        self.items.len()
    }

    /// The limiter's capacity.
    pub fn limit(&self) -> (r: usize)
        ensures
            r == self.spec_limit(),
    {
        self.limit
    }

    /// How many operations are past the limiter right now.
    pub fn in_flight(&self) -> (r: usize)
        ensures
            r == self.spec_in_flight(),
    {
        self.in_flight
    }

    /// The most operations that were ever past the limiter at one instant.
    pub fn peak(&self) -> (r: usize)
        ensures
            r == self.spec_peak(),
    {
        self.peak
    }

    /// Whether item `i` may pass the limiter now: it is still waiting and a
    /// slot is free.
    pub fn can_start(&self, i: usize) -> (r: bool)
        ensures
            r <==> (i < self.spec_slots().len() && self.spec_slots()[i as int] is Pending
                && self.spec_in_flight() < self.spec_limit()),
    {
        if i < self.slots.len() && self.in_flight < self.limit {
            match self.slots[i] {
                SlotState::Pending => true,
                _ => false,
            }
        } else {
            false
        }
    }

    /// Item `i` passes the limiter and begins executing. Only a waiting item
    /// may pass, and only while a slot is free, so the number of running
    /// operations never exceeds the limit.
    pub fn start(&mut self, i: usize)
        requires
            old(self).wf(),
            i < old(self).spec_slots().len(),
            old(self).spec_slots()[i as int] is Pending,
            old(self).spec_in_flight() < old(self).spec_limit(),
        ensures
            final(self).wf(),
            final(self).spec_items() == old(self).spec_items(),
            final(self).spec_limit() == old(self).spec_limit(),
            final(self).spec_slots() == old(self).spec_slots().update(
                i as int,
                SlotState::Running,
            ),
            final(self).spec_in_flight() == old(self).spec_in_flight() + 1,
            final(self).spec_peak() == if old(self).spec_in_flight() + 1 > old(self).spec_peak() {
                old(self).spec_in_flight() + 1
            } else {
                old(self).spec_peak()
            },
    {
        proof {
            lemma_count_running_update(self.slots@, i as int, SlotState::Running);
        }
        self.slots[i] = SlotState::Running;
        self.in_flight = self.in_flight + 1;
        if self.in_flight > self.peak {
            self.peak = self.in_flight;
        }
    }

    /// Item `i` hands its outcome back and releases its slot. The slot is
    /// released whatever the outcome was — success, operation error, or
    /// abort — and no sibling's record changes, so one item's failure never
    /// touches another item.
    pub fn finish(&mut self, i: usize, outcome: Result<R, Failure>)
        requires
            old(self).wf(),
            i < old(self).spec_slots().len(),
            old(self).spec_slots()[i as int] is Running,
        ensures
            final(self).wf(),
            final(self).spec_items() == old(self).spec_items(),
            final(self).spec_limit() == old(self).spec_limit(),
            final(self).spec_peak() == old(self).spec_peak(),
            final(self).spec_slots() == old(self).spec_slots().update(
                i as int,
                SlotState::Done(outcome),
            ),
            forall|j: int|
                0 <= j < old(self).spec_slots().len() && j != i ==> final(self).spec_slots()[j]
                    == old(self).spec_slots()[j],
            final(self).spec_in_flight() == old(self).spec_in_flight() - 1,
    {
        proof {
            lemma_count_running_update(self.slots@, i as int, SlotState::Done(outcome));
            assert(count_running(self.slots@) >= 1) by {
                lemma_count_running_update(self.slots@, i as int, SlotState::Pending);
            }
        }
        self.slots[i] = SlotState::Done(outcome);
        self.in_flight = self.in_flight - 1;
    }

    /// Whether every submitted item has produced an outcome.
    pub fn is_done(&self) -> (r: bool)
        ensures
            r <==> all_done(self.spec_slots()),
    {
        let n = self.slots.len();
        let mut k: usize = 0;
        while k < n
            invariant
                k <= n,
                n == self.spec_slots().len(),
                forall|i: int| 0 <= i < k ==> self.spec_slots()[i] is Done,
            decreases n - k,
        {
            match self.slots[k] {
                SlotState::Done(_) => {},
                _ => {
                    return false;
                },
            }
            k = k + 1;
        }
        true
    }

    /// Collects the batch: exactly one outcome per submitted item, each
    /// item paired with the outcome its own task produced.
    pub fn into_outcomes(self) -> (r: Vec<(T, Result<R, Failure>)>)
        requires
            self.wf(),
            all_done(self.spec_slots()),
        ensures
            r@.len() == self.spec_items().len(),
            forall|i: int|
                0 <= i < r@.len() ==> r@[i].0 == self.spec_items()[i] && self.spec_slots()[i]
                    == SlotState::Done(r@[i].1),
    {
        let FanOut { mut items, mut slots, .. } = self;
        let ghost items0 = items@;
        let ghost slots0 = slots@;
        let mut out: Vec<(T, Result<R, Failure>)> = Vec::new();
        while items.len() > 0
            invariant
                slots@.len() == items@.len(),
                out@.len() + items@.len() == items0.len(),
                items@ =~= items0.skip(out@.len() as int),
                slots@ =~= slots0.skip(out@.len() as int),
                all_done(slots0),
                slots0.len() == items0.len(),
                forall|i: int|
                    0 <= i < out@.len() ==> out@[i].0 == items0[i] && slots0[i] == SlotState::Done(
                        out@[i].1,
                    ),
            decreases items.len(),
        {
            let ghost k = out@.len() as int;
            let item = items.remove(0);
            let slot = slots.remove(0);
            proof {
                assert(item == items0[k]);
                assert(slot == slots0[k]);
                assert(items@ =~= items0.skip(k + 1));
                assert(slots@ =~= slots0.skip(k + 1));
            }
            match slot {
                SlotState::Done(o) => {
                    out.push((item, o));
                },
                _ => {
                    proof {
                        assert(slots0[k] is Done);
                    }
                    vstd::pervasive::unreached()
                },
            }
        }
        out
    }
}

/// At every reachable instant the limiter's bound holds: no more operations
/// are past the limiter than the limit allows, and the recorded peak never
/// exceeded it either.
pub proof fn lemma_admission_bounded<T, R>(batch: FanOut<T, R>)
    requires
        batch.wf(),
    ensures
        batch.spec_in_flight() <= batch.spec_limit(),
        batch.spec_peak() <= batch.spec_limit(),
{
}

} // verus!
