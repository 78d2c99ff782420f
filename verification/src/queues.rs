//! The queues of the `crossbeam` crate that the pool is built on, and what is relied on of them.
//!
//! A [`Worker`] is pushed to and popped from by the one thread that owns it, while other threads
//! take tasks from its front through a [`Stealer`]. What it holds therefore only ever shrinks
//! behind its owner's back, and [`backlog`] names an upper bound: the owner knows a sequence of
//! which the tasks still in the queue are a tail. An [`Injector`] and a [`SegQueue`] are shared by
//! every thread of a pool, so no thread knows what they hold at a given moment. What a thread can
//! know is that a task enters such a queue at all, which is what [`injected`] and [`seg_pushed`]
//! name: the tasks that the queue ever holds. [`stealable`] names the same of a worker's queue, as
//! the other threads see it. What the owner of a queue did with it is on its [`ledger`].
//!
//! Tasks enter a shared queue only by its [`Inlet`], of which there is one, and which is therefore
//! known to have been used so and so often for such and such tasks.

use crossbeam::deque::{Injector, Steal, Stealer, Worker};
use crossbeam::queue::SegQueue;
use std::sync::Arc;
use vstd::prelude::*;

use crate::phase::Reply;

verus! {

/// The queue of one worker thread: `crossbeam::deque::Worker`.
#[verifier::external_type_specification]
#[verifier::external_body]
#[verifier::reject_recursive_types(T)]
pub struct ExWorker<T>(crossbeam::deque::Worker<T>);

/// A handle that takes tasks from the front of another thread's queue:
/// `crossbeam::deque::Stealer`.
#[verifier::external_type_specification]
#[verifier::external_body]
#[verifier::reject_recursive_types(T)]
pub struct ExStealer<T>(crossbeam::deque::Stealer<T>);

/// The shared queue that new tasks enter by: `crossbeam::deque::Injector`.
#[verifier::external_type_specification]
#[verifier::external_body]
#[verifier::reject_recursive_types(T)]
pub struct ExInjector<T>(crossbeam::deque::Injector<T>);

/// A shared first-in first-out queue: `crossbeam::queue::SegQueue`.
#[verifier::external_type_specification]
#[verifier::external_body]
#[verifier::reject_recursive_types(T)]
pub struct ExSegQueue<T>(crossbeam::queue::SegQueue<T>);

/// The most tasks that one worker takes from another at once.
pub const MAX_PEER_BATCH: usize = 32;

/// One dealing of the owner of a queue to get tasks for it or from it, and what came of that.
pub enum Deal {
    /// The owner added a task at the back.
    Added(u64),
    /// The owner asked for the task at the front.
    Popped(Option<u64>),
    /// The owner asked the queue `shared` for at most `limit` tasks. One was handed out, if there
    /// was one, and `batch` was added at the back.
    Fetched { shared: Injector<u64>, limit: usize, reply: Reply, batch: Seq<u64> },
    /// The owner asked the queue `segments` for the task at its front.
    Drawn { segments: SegQueue<u64>, task: Option<u64> },
    /// The owner asked whether the queue `shared` was empty.
    Looked { shared: Injector<u64>, empty: bool },
    /// The owner asked whether the queue `segments` was empty.
    Peeked { segments: SegQueue<u64>, empty: bool },
    /// The owner asked for tasks of the queue that `peer` reaches. One was handed out, if there was
    /// one, and `batch` was added at the back.
    Stolen { peer: Stealer<u64>, reply: Reply, batch: Seq<u64> },
}

impl Deal {
    /// What was added to the owner's queue.
    pub open spec fn batch(self) -> Seq<u64> {
        match self {
            Deal::Added(task) => seq![task],
            Deal::Fetched { batch, .. } => batch,
            Deal::Stolen { batch, .. } => batch,
            _ => Seq::empty(),
        }
    }

    /// What was handed out to the owner to be run.
    pub open spec fn task(self) -> Seq<u64> {
        match self {
            Deal::Popped(Some(task)) => seq![task],
            Deal::Fetched { reply: Reply::Success(task), .. } => seq![task],
            Deal::Stolen { reply: Reply::Success(task), .. } => seq![task],
            _ => Seq::empty(),
        }
    }
}

/// All that was added to a queue, in that order.
pub open spec fn added(ledger: Seq<Deal>) -> Seq<u64>
    decreases ledger.len(),
{
    if ledger.len() == 0 {
        Seq::empty()
    } else {
        added(ledger.drop_last()) + ledger.last().batch()
    }
}

/// All that was handed out to the owner of a queue to be run, in that order.
pub open spec fn handed(ledger: Seq<Deal>) -> Seq<u64>
    decreases ledger.len(),
{
    if ledger.len() == 0 {
        Seq::empty()
    } else {
        handed(ledger.drop_last()) + ledger.last().task()
    }
}

/// One more dealing adds and hands out what it says.
pub(crate) proof fn lemma_one_more_deal(ledger: Seq<Deal>, deal: Deal)
    ensures
        added(ledger.push(deal)) == added(ledger) + deal.batch(),
        handed(ledger.push(deal)) == handed(ledger) + deal.task(),
{
    assert(ledger.push(deal).drop_last() =~= ledger);
}

/// The tasks that a worker's queue can hold, front first, as far as its owner can tell: the tasks
/// that are in the queue are a tail of this sequence, for other threads may have taken some from
/// the front.
pub uninterp spec fn backlog(queue: Worker<u64>) -> Seq<u64>;

/// Whether the queue was made as a first-in first-out queue.
pub uninterp spec fn is_fifo(queue: Worker<u64>) -> bool;

/// The handle by which other threads take tasks from this queue.
pub uninterp spec fn stealer_of(queue: Worker<u64>) -> Stealer<u64>;

/// What the owner of this queue did so far to get tasks for it or from it, from its making on: whom
/// it asked, for what, and what came of that.
pub uninterp spec fn ledger(queue: Worker<u64>) -> Seq<Deal>;

/// The tasks that the queue that this handle reaches ever holds, at any time from its making to its
/// end. This does not change as tasks come and go.
pub uninterp spec fn stealable(handle: Stealer<u64>) -> Set<u64>;

/// The tasks that the shared queue held when it was made.
pub uninterp spec fn injector_made_with(queue: Injector<u64>) -> Seq<u64>;

/// The tasks that the shared queue held when it was made.
pub uninterp spec fn seg_made_with(queue: SegQueue<u64>) -> Seq<u64>;

/// The tasks that the shared queue ever holds, at any time from its making to its end. This does
/// not change as tasks come and go.
pub uninterp spec fn injected(queue: Injector<u64>) -> Set<u64>;

/// The tasks that the shared queue ever holds, at any time from its making to its end. This does
/// not change as tasks come and go.
pub uninterp spec fn seg_pushed(queue: SegQueue<u64>) -> Set<u64>;

/// `after` is what is left of `before` once some tasks have gone from its front.
pub open spec fn is_tail(after: Seq<u64>, before: Seq<u64>) -> bool {
    after.len() <= before.len() && after == before.skip(before.len() - after.len())
}

/// What was added to a queue at the back, as far as it then was longer than before.
pub open spec fn batch_of(before: Worker<u64>, after: Worker<u64>) -> Seq<u64> {
    backlog(after).skip(backlog(before).len() as int)
}

/// `after` is what is left of `before` once some tasks have gone from its front, and then `batch`.
pub open spec fn is_topped(before: Seq<u64>, after: Seq<u64>, batch: Seq<u64>) -> bool {
    &&& batch.len() <= after.len()
    &&& after.skip(after.len() - batch.len()) == batch
    &&& is_tail(after.take(after.len() - batch.len()), before)
}

/// Each of `queue` is one of `tasks`.
pub open spec fn all_in(queue: Seq<u64>, tasks: Set<u64>) -> bool {
    forall|i: int| 0 <= i < queue.len() ==> tasks.contains(#[trigger] queue[i])
}

/// The one way into a shared queue, and all that was ever put in by it, in that order.
pub struct Inlet<Q> {
    queue: Arc<Q>,
    posted: Ghost<Seq<u64>>,
}

impl<Q> Inlet<Q> {
    /// The queue that it leads into.
    pub closed spec fn leads_into(self) -> Arc<Q> {
        self.queue
    }

    /// The tasks that were put in by it, in that order.
    pub closed spec fn posted(self) -> Seq<u64> {
        self.posted@
    }

    /// What is said of an inlet is said of what it holds.
    proof fn law_an_inlet_is_what_it_holds(self)
        ensures
            self.leads_into() == self.queue,
            self.posted() == self.posted@,
    {
    }

    /// The way into a queue that nobody else has yet.
    pub(crate) fn new(queue: Q) -> (inlet: Inlet<Q>)
        ensures
            *inlet.leads_into() == queue,
            inlet.posted() == Seq::<u64>::empty(),
    {
        Inlet { queue: Arc::new(queue), posted: Ghost(Seq::empty()) }
    }

    /// The queue for those who take tasks from it.
    pub(crate) fn outlet(&self) -> (queue: Arc<Q>)
        ensures
            queue == self.leads_into(),
    {
        Arc::clone(&self.queue)
    }
}

/// It is still the same queue: of the same kind, and reached by the same handle.
pub open spec fn same_queue(before: Worker<u64>, after: Worker<u64>) -> bool {
    is_fifo(after) == is_fifo(before) && stealer_of(after) == stealer_of(before)
}

/// `Worker::new_fifo`: a new queue is empty and first-in first-out.
#[verifier::external_body]
pub(crate) fn new_fifo() -> (queue: Worker<u64>)
    ensures
        backlog(queue) == Seq::<u64>::empty(),
        ledger(queue) == Seq::<Deal>::empty(),
        is_fifo(queue),
{
    Worker::new_fifo()
}

/// `Worker::stealer`: the handle of this queue.
#[verifier::external_body]
pub(crate) fn stealer(queue: &Worker<u64>) -> (handle: Stealer<u64>)
    ensures
        handle == stealer_of(*queue),
{
    queue.stealer()
}

/// `Worker::len`: the number of tasks in the queue. From here on the queue is known to hold no
/// more than the last so many of its backlog, because only its owner adds to it.
#[verifier::external_body]
pub(crate) fn len(queue: &mut Worker<u64>) -> (n: usize)
    ensures
        n == backlog(*final(queue)).len(),
        is_tail(backlog(*final(queue)), backlog(*old(queue))),
        ledger(*final(queue)) == ledger(*old(queue)),
        same_queue(*old(queue), *final(queue)),
{
    queue.len()
}

/// `Worker::push`: adds the task at the back.
#[verifier::external_body]
pub(crate) fn push(queue: &mut Worker<u64>, task: u64)
    ensures
        backlog(*final(queue)) == backlog(*old(queue)).push(task),
        ledger(*final(queue)) == ledger(*old(queue)).push(Deal::Added(task)),
        stealable(stealer_of(*final(queue))).contains(task),
        same_queue(*old(queue), *final(queue)),
{
    queue.push(task)
}

/// `Worker::pop` on a first-in first-out queue: takes the task at the front. That is the first of
/// the backlog that no other thread has taken. With `None` the queue is empty, and stays so until
/// its owner adds to it.
#[verifier::external_body]
pub(crate) fn pop(queue: &mut Worker<u64>) -> (task: Option<u64>)
    requires
        is_fifo(*old(queue)),
    ensures
        match task {
            Some(t) => is_tail(seq![t] + backlog(*final(queue)), backlog(*old(queue))),
            None => backlog(*final(queue)) == Seq::<u64>::empty(),
        },
        ledger(*final(queue)) == ledger(*old(queue)).push(Deal::Popped(task)),
        same_queue(*old(queue), *final(queue)),
{
    queue.pop()
}

/// `Injector::steal_batch_with_limit_and_pop`: takes at most `limit` tasks from the shared queue,
/// hands out the first of them and adds the others at the back of `queue`. Where it hands out
/// nothing it adds nothing. It panics on a limit of zero. Which tasks there are to take depends on
/// the other threads, but each of them was in the shared queue.
#[verifier::external_body]
pub(crate) fn steal_global(global: &Injector<u64>, queue: &mut Worker<u64>, limit: usize) -> (reply:
    Reply)
    requires
        limit > 0,
        is_fifo(*old(queue)),
    ensures
        backlog(*final(queue)) == backlog(*old(queue)) + batch_of(*old(queue), *final(queue)),
        match reply {
            Reply::Success(task) => {
                &&& batch_of(*old(queue), *final(queue)).len() < limit
                &&& injected(*global).contains(task)
            },
            _ => batch_of(*old(queue), *final(queue)).len() == 0,
        },
        all_in(batch_of(*old(queue), *final(queue)), injected(*global)),
        all_in(batch_of(*old(queue), *final(queue)), stealable(stealer_of(*final(queue)))),
        ledger(*final(queue)) == ledger(*old(queue)).push(
            (Deal::Fetched {
                shared: *global,
                limit,
                reply,
                batch: batch_of(*old(queue), *final(queue)),
            }),
        ),
        same_queue(*old(queue), *final(queue)),
{
    match global.steal_batch_with_limit_and_pop(queue, limit) {
        Steal::Success(task) => Reply::Success(task),
        Steal::Retry => Reply::Retry,
        Steal::Empty => Reply::Empty,
    }
}

/// `Stealer::steal_batch_and_pop`: takes a batch of at most `MAX_PEER_BATCH` tasks from the front
/// of another thread's queue, hands out the first of them and adds the others at the back of
/// `queue`. Where it hands out nothing it adds nothing. Which tasks there are to take depends on
/// the other threads, but each of them was in that queue.
#[verifier::external_body]
pub(crate) fn steal_peer(peer: &Stealer<u64>, queue: &mut Worker<u64>) -> (reply: Reply)
    requires
        is_fifo(*old(queue)),
    ensures
        backlog(*final(queue)) == backlog(*old(queue)) + batch_of(*old(queue), *final(queue)),
        match reply {
            Reply::Success(task) => {
                &&& batch_of(*old(queue), *final(queue)).len() < MAX_PEER_BATCH
                &&& stealable(*peer).contains(task)
            },
            _ => batch_of(*old(queue), *final(queue)).len() == 0,
        },
        all_in(batch_of(*old(queue), *final(queue)), stealable(*peer)),
        all_in(batch_of(*old(queue), *final(queue)), stealable(stealer_of(*final(queue)))),
        ledger(*final(queue)) == ledger(*old(queue)).push(
            (Deal::Stolen { peer: *peer, reply, batch: batch_of(*old(queue), *final(queue)) }),
        ),
        same_queue(*old(queue), *final(queue)),
{
    match peer.steal_batch_and_pop(queue) {
        Steal::Success(task) => Reply::Success(task),
        Steal::Retry => Reply::Retry,
        Steal::Empty => Reply::Empty,
    }
}

/// `Injector::default`: a new shared queue is empty.
#[verifier::external_body]
pub(crate) fn new_injector() -> (queue: Injector<u64>)
    ensures
        injector_made_with(queue) == Seq::<u64>::empty(),
{
    Injector::default()
}

/// `Injector::push`: adds the task at the back of the shared queue, once. How long it stays there
/// is up to the other threads.
#[verifier::external_body]
pub(crate) fn inject(inlet: &mut Inlet<Injector<u64>>, task: u64)
    ensures
        final(inlet).posted() == old(inlet).posted().push(task),
        final(inlet).leads_into() == old(inlet).leads_into(),
        injected(*final(inlet).leads_into()).contains(task),
{
    inlet.queue.push(task)
}

/// `Injector::is_empty`: whether the shared queue was empty at that moment, as the owner of `queue`
/// asks. Other threads change the shared queue at the same time, but one that never holds a task is
/// always empty. The owner's own queue stays as it is.
#[allow(unused_variables)]
#[verifier::external_body]
pub(crate) fn injector_is_empty(global: &Injector<u64>, queue: &mut Worker<u64>) -> (empty: bool)
    ensures
        !empty ==> injected(*global) != Set::<u64>::empty(),
        backlog(*final(queue)) == backlog(*old(queue)),
        ledger(*final(queue)) == ledger(*old(queue)).push(
            (Deal::Looked { shared: *global, empty }),
        ),
        same_queue(*old(queue), *final(queue)),
{
    global.is_empty()
}

/// `SegQueue::default`: a new shared queue is empty.
#[verifier::external_body]
pub(crate) fn new_seg_queue() -> (queue: SegQueue<u64>)
    ensures
        seg_made_with(queue) == Seq::<u64>::empty(),
{
    SegQueue::default()
}

/// `SegQueue::push`: adds the task at the back of the shared queue, once. How long it stays there
/// is up to the other threads.
#[verifier::external_body]
pub(crate) fn seg_push(inlet: &mut Inlet<SegQueue<u64>>, task: u64)
    ensures
        final(inlet).posted() == old(inlet).posted().push(task),
        final(inlet).leads_into() == old(inlet).leads_into(),
        seg_pushed(*final(inlet).leads_into()).contains(task),
{
    inlet.queue.push(task)
}

/// `SegQueue::pop`: takes the task at the front of the shared queue, if there is one at that
/// moment, for the owner of `queue`. Other threads change the shared queue at the same time. The
/// owner's own queue stays as it is.
#[allow(unused_variables)]
#[verifier::external_body]
pub(crate) fn seg_pop(global: &SegQueue<u64>, queue: &mut Worker<u64>) -> (task: Option<u64>)
    ensures
        task matches Some(t) ==> seg_pushed(*global).contains(t),
        backlog(*final(queue)) == backlog(*old(queue)),
        ledger(*final(queue)) == ledger(*old(queue)).push(
            (Deal::Drawn { segments: *global, task }),
        ),
        same_queue(*old(queue), *final(queue)),
{
    global.pop()
}

/// `SegQueue::is_empty`: whether the shared queue was empty at that moment, as the owner of `queue`
/// asks. Other threads change the shared queue at the same time, but one that never holds a task is
/// always empty. The owner's own queue stays as it is.
#[allow(unused_variables)]
#[verifier::external_body]
pub(crate) fn seg_is_empty(global: &SegQueue<u64>, queue: &mut Worker<u64>) -> (empty: bool)
    ensures
        !empty ==> seg_pushed(*global) != Set::<u64>::empty(),
        backlog(*final(queue)) == backlog(*old(queue)),
        ledger(*final(queue)) == ledger(*old(queue)).push(
            (Deal::Peeked { segments: *global, empty }),
        ),
        same_queue(*old(queue), *final(queue)),
{
    global.is_empty()
}

} // verus!
