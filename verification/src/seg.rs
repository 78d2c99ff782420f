//! A plainer pool: its shared queue is a `SegQueue`, from which a worker moves a handful of tasks
//! into its own queue before it runs any, and its threads have no name or stack size of their own.

use crossbeam::deque::Worker;
use crossbeam::queue::SegQueue;
use std::sync::Arc;
use vstd::prelude::*;

use crate::phase::Event;
use crate::pool::Notify;
use crate::queues;
use crate::queues::{
    backlog, is_tail, is_topped, ledger, lemma_one_more_deal, same_queue, seg_made_with, stealable,
    stealer_of, Deal, Inlet,
};
use crate::worker::{are_seated, seat_workers, Intake, ThreadSettings, WorkerContext};

verus! {

/// A worker that has this many tasks at hand does not top off its own queue.
pub const IDEAL_WORKER_BACKLOG: usize = 8;

/// How many tasks a worker tries to move from the shared queue to its own.
pub const BATCH_GRAB_COUNT: usize = IDEAL_WORKER_BACKLOG / 2;

/// An optional task as a sequence.
pub open spec fn at_most_one(task: Option<u64>) -> Seq<u64> {
    match task {
        Some(t) => seq![t],
        None => Seq::empty(),
    }
}

/// How often a worker is to try again after it has tried to move a task from the shared queue to
/// its own, where it is to try that at all. One that has begun goes on until it has tried often
/// enough; one that has not begins if the shared queue was not empty and its own backlog is short.
pub fn tries_left(left: usize, empty: bool, held: usize) -> (rest: Option<usize>)
    ensures
        rest == (if left > 0 {
            Some((left - 1) as usize)
        } else if !empty && held < IDEAL_WORKER_BACKLOG {
            Some((BATCH_GRAB_COUNT - 1) as usize)
        } else {
            None
        }),
{
    if left > 0 {
        Some(left - 1)
    } else if !empty && held < IDEAL_WORKER_BACKLOG {
        Some(BATCH_GRAB_COUNT - 1)
    } else {
        None
    }
}

/// Adds the task that the shared queue gave, if it gave one, at the back of a worker's own queue.
pub fn take_in(queue: &mut Worker<u64>, task: Option<u64>)
    ensures
        match task {
            Some(t) => {
                &&& backlog(*final(queue)) == backlog(*old(queue)).push(t)
                &&& ledger(*final(queue)) == ledger(*old(queue)).push(Deal::Added(t))
                &&& stealable(stealer_of(*final(queue))).contains(t)
            },
            None => *final(queue) == *old(queue),
        },
        same_queue(*old(queue), *final(queue)),
{
    if let Some(t) = task {
        queues::push(queue, t);
    }
}

impl Intake for SegQueue<u64> {
    open spec fn entered(&self) -> Set<u64> {
        queues::seg_pushed(*self)
    }

    /// A worker whose backlog is short moves a few tasks from the shared queue to the back of its
    /// own, one at a time, and runs none of them before it goes on with its own queue.
    open spec fn tops_off(
        left: usize,
        event: Event,
        before: Seq<u64>,
        after: Seq<u64>,
        batch: Seq<u64>,
    ) -> bool {
        match event {
            Event::Pulled { task, left: rest } => {
                &&& rest == (if left == 0 {
                    BATCH_GRAB_COUNT
                } else {
                    left
                }) - 1
                &&& batch == at_most_one(task)
                &&& is_topped(before, after, batch)
                &&& left == 0 ==> after.len() - batch.len() < IDEAL_WORKER_BACKLOG
                &&& left > 0 ==> after == before + batch
            },
            Event::Filled => {
                &&& left == 0
                &&& is_tail(after, before)
                &&& after.len() >= IDEAL_WORKER_BACKLOG
                &&& batch.len() == 0
            },
            Event::Dry => left == 0 && after == before && batch.len() == 0,
            _ => false,
        }
    }

    /// A worker that has not begun yet looks first whether the shared queue is empty. What the
    /// shared queue then gives is added to the worker's queue, and nothing else.
    open spec fn deals(&self, left: usize, event: Event, batch: Seq<u64>) -> Seq<Deal> {
        match event {
            Event::Dry => seq![self.look(true)],
            Event::Filled => seq![self.look(false)],
            Event::Pulled { task, .. } => {
                let looks = if left == 0 {
                    seq![self.look(false)]
                } else {
                    Seq::empty()
                };
                let draws = looks.push(Deal::Drawn { segments: *self, task });
                match task {
                    Some(t) => draws.push(Deal::Added(t)),
                    None => draws,
                }
            },
            _ => Seq::empty(),
        }
    }

    fn top_off(&self, queue: &mut Worker<u64>, left: usize) -> (event: Event)
        ensures
            event is Pulled || event is Filled || event is Dry,
            left > 0 ==> event is Pulled,
            event is Dry ==> {
                &&& ledger(*final(queue)) == ledger(*old(queue)).push(
                    (Deal::Peeked { segments: *self, empty: true }),
                )
                &&& backlog(*final(queue)) == backlog(*old(queue))
            },
            event is Filled ==> {
                &&& ledger(*final(queue)) == ledger(*old(queue)).push(
                    (Deal::Peeked { segments: *self, empty: false }),
                )
                &&& backlog(*final(queue)).len() >= IDEAL_WORKER_BACKLOG
            },
            event matches Event::Pulled { task, left: rest } ==> {
                let looked = if left > 0 {
                    ledger(*old(queue))
                } else {
                    ledger(*old(queue)).push((Deal::Peeked { segments: *self, empty: false }))
                };
                let drawn = looked.push((Deal::Drawn { segments: *self, task }));
                &&& rest == (if left > 0 {
                    left
                } else {
                    BATCH_GRAB_COUNT
                }) - 1
                &&& match task {
                    Some(t) => {
                        &&& ledger(*final(queue)) == drawn.push(Deal::Added(t))
                        &&& backlog(*final(queue)).last() == t
                        &&& left > 0 ==> backlog(*final(queue)) == backlog(*old(queue)).push(t)
                        &&& 0 < backlog(*final(queue)).len() && (left == 0 ==> backlog(
                            *final(queue),
                        ).len() <= IDEAL_WORKER_BACKLOG)
                    },
                    None => {
                        &&& ledger(*final(queue)) == drawn
                        &&& left > 0 ==> backlog(*final(queue)) == backlog(*old(queue))
                        &&& left == 0 ==> backlog(*final(queue)).len() < IDEAL_WORKER_BACKLOG
                    },
                }
            },
    {
        let ghost before = backlog(*queue);
        let ghost books = ledger(*queue);
        let ghost none = Seq::<u64>::empty();
        assert(before.skip(0) =~= before);
        assert(queues::added(books) + none =~= queues::added(books));
        assert(queues::handed(books) + none =~= queues::handed(books));
        let empty = left == 0 && Intake::is_empty(self, queue);
        let held: usize = if left == 0 && !empty {
            queues::len(queue)
        } else {
            0
        };
        let ghost kept = backlog(*queue);
        let ghost looked = ledger(*queue);
        let rest: usize = match tries_left(left, empty, held) {
            Some(rest) => rest,
            None => {
                let event = if empty {
                    Event::Dry
                } else {
                    Event::Filled
                };
                proof {
                    assert(kept.skip(kept.len() as int) =~= none);
                    assert(kept.take(kept.len() as int) =~= kept);
                    assert(Self::tops_off(left, event, before, kept, none));
                    assert(looked =~= books + self.deals(left, event, none));
                }
                return event;
            },
        };
        let task = queues::seg_pop(self, queue);
        let ghost drawn = ledger(*queue);
        take_in(queue, task);
        let event = Event::Pulled { task, left: rest };
        proof {
            let after = backlog(*queue);
            let batch = at_most_one(task);
            lemma_one_more_deal(looked, Deal::Drawn { segments: *self, task });
            if let Some(t) = task {
                lemma_one_more_deal(drawn, Deal::Added(t));
            }
            assert(ledger(*queue) =~= books + self.deals(left, event, batch));
            assert(after =~= kept + batch);
            assert(after.take(after.len() - batch.len()) =~= kept);
            assert(after.skip(after.len() - batch.len()) =~= batch);
            assert(Self::tops_off(left, event, before, after, batch));
        }
        event
    }

    open spec fn look(&self, empty: bool) -> Deal {
        Deal::Peeked { segments: *self, empty }
    }

    fn is_empty(&self, queue: &mut Worker<u64>) -> (empty: bool) {
        let empty = queues::seg_is_empty(self, queue);
        proof {
            let books = ledger(*old(queue));
            lemma_one_more_deal(books, self.look(empty));
            assert(queues::added(books) + Seq::<u64>::empty() =~= queues::added(books));
            assert(queues::handed(books) + Seq::<u64>::empty() =~= queues::handed(books));
        }
        empty
    }
}

/// The way by which tasks enter a pool, whether it shuts down, and the workers whose threads have
/// not been started yet. A task is known by its number.
pub struct ThreadPool {
    inlet: Inlet<SegQueue<u64>>,
    closing: bool,
    workers: Vec<WorkerContext<SegQueue<u64>>>,
}

impl ThreadPool {
    /// The workers whose threads have not been started yet.
    pub closed spec fn waiting(self) -> Seq<WorkerContext<SegQueue<u64>>> {
        self.workers@
    }

    /// The queue that tasks enter by.
    pub closed spec fn shared_queue(self) -> Arc<SegQueue<u64>> {
        self.inlet.leads_into()
    }

    /// The tasks that were spawned in the pool, in that order: all that ever entered its shared
    /// queue.
    pub closed spec fn spawned(self) -> Seq<u64> {
        self.inlet.posted()
    }

    /// The pool shuts down.
    pub closed spec fn shuts_down(self) -> bool {
        self.closing
    }

    /// What is said of a pool is said of what it holds.
    proof fn law_a_pool_is_what_it_holds(self)
        ensures
            self.waiting() == self.workers@,
            self.shared_queue() == self.inlet.leads_into(),
            self.spawned() == self.inlet.posted(),
            self.shuts_down() == self.closing,
    {
    }

    /// A pool of `num_workers` workers. It does not shut down, and its queues are empty.
    pub fn new(num_workers: usize) -> (pool: Self)
        ensures
            pool.waiting().len() == num_workers,
            are_seated(pool.waiting(), pool.shared_queue(), None, None),
            seg_made_with(*pool.shared_queue()) == Seq::<u64>::empty(),
            pool.spawned() == Seq::<u64>::empty(),
            !pool.shuts_down(),
    {
        let inlet = Inlet::new(queues::new_seg_queue());
        let settings = ThreadSettings { name: None, stack_size: None };
        let workers = seat_workers(num_workers, &inlet.outlet(), &settings);
        ThreadPool { inlet, closing: false, workers }
    }

    /// Hands over the workers whose threads have not been started yet.
    pub fn take_workers(&mut self) -> (workers: Vec<WorkerContext<SegQueue<u64>>>)
        ensures
            workers@ == old(self).waiting(),
            final(self).waiting() == Seq::<WorkerContext<SegQueue<u64>>>::empty(),
            final(self).shared_queue() == old(self).shared_queue(),
            final(self).spawned() == old(self).spawned(),
            final(self).shuts_down() == old(self).shuts_down(),
    {
        let mut workers: Vec<WorkerContext<SegQueue<u64>>> = Vec::new();
        std::mem::swap(&mut self.workers, &mut workers);
        workers
    }

    /// Puts a task in the pool's shared queue, once and after all others. One sleeping worker is to
    /// be woken for it. The caller holds the lock that guards sleeping until it has done that.
    pub fn spawn(&mut self, task: u64) -> (wake: Notify)
        ensures
            wake == Notify::One,
            final(self).spawned() == old(self).spawned().push(task),
            final(self).shared_queue().entered().contains(task),
            final(self).shared_queue() == old(self).shared_queue(),
            final(self).waiting() == old(self).waiting(),
            final(self).shuts_down() == old(self).shuts_down(),
    {
        queues::seg_push(&mut self.inlet, task);
        Notify::One
    }

    /// Shuts the pool down: a worker that is told so and finds no task left leaves its loop. Every
    /// sleeping worker is to be woken for it. The caller holds the lock that guards sleeping.
    pub fn shut_down(&mut self) -> (wake: Notify)
        ensures
            final(self).shuts_down(),
            final(self).shared_queue() == old(self).shared_queue(),
            final(self).spawned() == old(self).spawned(),
            final(self).waiting() == old(self).waiting(),
            wake == Notify::All,
    {
        self.closing = true;
        Notify::All
    }

    /// Whether the pool shuts down, which is what a worker is told when it is about to sleep.
    pub fn is_closing(&self) -> (closing: bool)
        ensures
            closing == self.shuts_down(),
    {
        self.closing
    }
}

} // verus!
