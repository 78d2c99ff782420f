//! The pool as a whole: all workers, the queues between them, and how they move.
//!
//! A state lists what every queue holds and where every worker stands. A step is one indivisible
//! thing that happens: a task is spawned, a worker gets a reply from a queue, a thread dies of a
//! panic, the pool shuts down. What a worker does with a reply is [`Phase::after`], which
//! [`Phase::advance`] computes. Spawning, shutting down and the decision to sleep exclude each
//! other, because each is made under the lock that guards sleeping.
//!
//! The laws of the pool, which stand in [`crate::laws`], hold in every state that steps lead to
//! from a new pool. [`crate::scene`] ties them to the code.

use vstd::multiset::Multiset;
use vstd::prelude::*;

use crate::phase::{Event, Phase, Reply};
use crate::pool::{Notify, IDEAL_WORKER_BACKLOG};
use crate::queues::{is_tail, MAX_PEER_BATCH};
use crate::seg;
use crate::seg::at_most_one;
use crate::worker::{task_of, WorkerState};

verus! {

/// By which queue tasks enter the pool.
pub enum Design {
    /// An `Injector`, as in [`crate::pool`].
    Injector,
    /// A `SegQueue`, as in [`crate::seg`].
    Segments,
}

/// A pool at one moment.
pub struct PoolState {
    /// The shared queue, front first.
    pub global: Seq<u64>,
    /// The workers, each with what its own queue holds.
    pub workers: Seq<WorkerState>,
    /// Which workers have lost their thread for good.
    pub fallen: Seq<bool>,
    /// How many threads were ever started for the pool.
    pub threads: nat,
    /// The pool shuts down.
    pub shutdown: bool,
    /// The tasks that were ever spawned, in that order.
    pub spawned: Seq<u64>,
    /// The tasks that workers have begun to run, in that order.
    pub started: Seq<u64>,
    /// The tasks that were run, to the end or to a panic.
    pub finished: Multiset<u64>,
}

/// One thing that happens in a pool.
pub enum Step {
    /// A task is spawned, and one sleeping worker is woken if there is one.
    Spawn { task: u64, woken: Option<int> },
    /// A worker learns of `event`, by which `batch` enters its own queue.
    Act { worker: int, event: Event, batch: Seq<u64> },
    /// A task panics: its thread dies, and another takes over the worker's place and queue.
    Crash { worker: int },
    /// A task panics in a plain pool: its thread dies, and nobody takes over. What is in the
    /// worker's queue stays there for others to steal.
    Fall { worker: int },
    /// The pool shuts down, and every sleeping worker is woken.
    Shutdown,
}

/// A woken worker.
pub open spec fn awoken(worker: WorkerState) -> WorkerState {
    WorkerState { phase: Phase::Fetch, local: worker.local }
}

/// A worker whose thread is gone for good.
pub open spec fn gone(worker: WorkerState) -> WorkerState {
    WorkerState { phase: Phase::Done, local: worker.local }
}

/// The workers after a notification. Where that wakes one of the sleeping workers, it is `woken`.
pub open spec fn notified(
    workers: Seq<WorkerState>,
    wake: Notify,
    woken: Option<int>,
) -> Seq<WorkerState> {
    match wake {
        Notify::One => match woken {
            Some(i) => workers.update(i, awoken(workers[i])),
            None => workers,
        },
        Notify::All => workers.map_values(
            |w: WorkerState|
                if w.phase is Asleep {
                    awoken(w)
                } else {
                    w
                },
        ),
    }
}

impl PoolState {
    /// A new pool of `n` workers.
    pub open spec fn is_new(self, n: int) -> bool {
        &&& self.global == Seq::<u64>::empty()
        &&& self.workers.len() == n
        &&& forall|i: int|
            0 <= i < n ==> #[trigger] self.workers[i] == (WorkerState {
                phase: Phase::Fetch,
                local: Seq::empty(),
            })
        &&& self.fallen == Seq::new(n as nat, |i: int| false)
        &&& self.threads == n
        &&& !self.shutdown
        &&& self.spawned == Seq::<u64>::empty()
        &&& self.started == Seq::<u64>::empty()
        &&& self.finished == Multiset::<u64>::empty()
    }

    /// The pool has a worker of this number.
    pub open spec fn has(self, worker: int) -> bool {
        0 <= worker < self.workers.len()
    }

    /// The worker is in its loop and does not sleep.
    pub open spec fn is_awake(self, worker: int) -> bool {
        self.has(worker) && !(self.workers[worker].phase is Asleep)
            && !(self.workers[worker].phase is Done)
    }

    /// Every worker has left its loop.
    pub open spec fn is_over(self) -> bool {
        forall|i: int| self.has(i) ==> (#[trigger] self.workers[i]).phase is Done
    }

    /// No worker has lost its thread for good.
    pub open spec fn is_whole(self) -> bool {
        forall|i: int| self.has(i) ==> !(#[trigger] self.fallen[i])
    }

    /// A worker of a plain pool that tops off its queue has a task to move: its backlog is short,
    /// and the shared queue holds a task.
    pub open spec fn must_pull(self, worker: int) -> bool {
        &&& self.global.len() > 0
        &&& self.workers[worker].local.len() < seg::IDEAL_WORKER_BACKLOG
    }

    /// The event is one that the worker's own decisions lead to: for how many tasks it asks, and
    /// what it adds to its own queue. Other workers may steal from it between counting its tasks
    /// and asking, so that it may ask for fewer tasks than it lacks by then.
    pub open spec fn decides(
        self,
        worker: int,
        event: Event,
        batch: Seq<u64>,
        design: Design,
    ) -> bool {
        let me = self.workers[worker];
        match event {
            Event::Filled => batch.len() == 0 && match design {
                Design::Injector => me.local.len() >= IDEAL_WORKER_BACKLOG,
                Design::Segments => me.phase is Fetch && me.local.len()
                    >= seg::IDEAL_WORKER_BACKLOG,
            },
            Event::Dry => design is Segments && me.phase is Fetch && batch.len() == 0,
            Event::Global { limit, reply } => {
                &&& design is Injector
                &&& batch.len() < limit
                &&& limit + me.local.len() <= IDEAL_WORKER_BACKLOG
                &&& reply is Success || batch.len() == 0
            },
            Event::Pulled { task, left } => {
                &&& design is Segments
                &&& batch == at_most_one(task)
                &&& match me.phase {
                    Phase::Fill { left: before } => left == before - 1,
                    _ => left == seg::BATCH_GRAB_COUNT - 1 && me.local.len()
                        < seg::IDEAL_WORKER_BACKLOG,
                }
            },
            Event::Peer(reply) => {
                &&& batch.len() < MAX_PEER_BATCH
                &&& reply is Success || batch.len() == 0
            },
            _ => batch.len() == 0,
        }
    }

    /// What the queues and the lock tell the worker is true at this moment. A batch that is on its
    /// way into another worker's queue cannot be seen from outside yet, so that queue may look
    /// empty though it counts as holding the batch. The shared queue may for a moment look as if it
    /// held a task, while a worker that took the last one is still busy with it.
    pub open spec fn replies(
        self,
        worker: int,
        event: Event,
        batch: Seq<u64>,
        design: Design,
    ) -> bool {
        let me = self.workers[worker];
        match event {
            Event::Filled => true,
            Event::Dry => self.global.len() == 0,
            Event::Global { reply, .. } => match reply {
                Reply::Success(task) => {
                    &&& batch.len() < self.global.len()
                    &&& seq![task] + batch == self.global.take(batch.len() + 1int)
                },
                Reply::Retry => true,
                Reply::Empty => self.global.len() == 0,
            },
            Event::Pulled { task, .. } => match task {
                Some(t) => self.global.len() > 0 && t == self.global[0],
                None => self.global.len() == 0,
            },
            Event::Local(Some(task)) => me.local.len() > 0 && task == me.local[0],
            Event::Local(None) => me.local.len() == 0,
            Event::Peer(reply) => {
                let stock = self.workers[me.phase->peer as int].local;
                match reply {
                    Reply::Success(task) => {
                        &&& 1 + 2 * batch.len() <= stock.len()
                        &&& seq![task] + batch == stock.take(batch.len() + 1int)
                    },
                    Reply::Retry | Reply::Empty => true,
                }
            },
            Event::Checked { global_empty, shutdown } => {
                &&& global_empty ==> self.global.len() == 0
                &&& shutdown == self.shutdown
            },
            Event::Woken | Event::Finished => true,
        }
    }

    /// The event can come to the worker now.
    pub open spec fn can_act(
        self,
        worker: int,
        event: Event,
        batch: Seq<u64>,
        design: Design,
    ) -> bool {
        &&& self.has(worker)
        &&& self.workers[worker].phase.admits(event)
        &&& self.decides(worker, event, batch, design)
        &&& self.replies(worker, event, batch, design)
    }

    /// What is left in the shared queue after the event.
    pub open spec fn global_after(self, event: Event, batch: Seq<u64>) -> Seq<u64> {
        match event {
            Event::Global { reply: Reply::Success(_), .. } => self.global.skip(batch.len() + 1int),
            Event::Pulled { .. } => self.global.skip(batch.len() as int),
            _ => self.global,
        }
    }

    /// What is in the worker's own queue after the event.
    pub open spec fn local_after(self, worker: int, event: Event, batch: Seq<u64>) -> Seq<u64> {
        match event {
            Event::Local(Some(_)) => self.workers[worker].local.skip(1),
            _ => self.workers[worker].local + batch,
        }
    }

    /// The workers after the event has come to one of them, who is in `phase` then.
    pub open spec fn workers_after(
        self,
        worker: int,
        event: Event,
        batch: Seq<u64>,
        phase: Phase,
    ) -> Seq<WorkerState> {
        let mine = WorkerState { phase, local: self.local_after(worker, event, batch) };
        match event {
            Event::Peer(Reply::Success(_)) => {
                let peer = self.workers[worker].phase->peer as int;
                let robbed = self.workers[peer];
                let left = WorkerState {
                    phase: robbed.phase,
                    local: robbed.local.skip(batch.len() + 1int),
                };
                self.workers.update(peer, left).update(worker, mine)
            },
            _ => self.workers.update(worker, mine),
        }
    }

    /// The pool after the event has come to the worker, who is in `phase` then.
    pub open spec fn dealt(
        self,
        worker: int,
        event: Event,
        batch: Seq<u64>,
        phase: Phase,
    ) -> PoolState {
        PoolState {
            global: self.global_after(event, batch),
            workers: self.workers_after(worker, event, batch, phase),
            started: self.started + task_of(event),
            finished: if event is Finished {
                self.finished.insert(self.workers[worker].phase->task)
            } else {
                self.finished
            },
            ..self
        }
    }

    /// The pool after the event has come to the worker.
    pub open spec fn acted(self, worker: int, event: Event, batch: Seq<u64>) -> PoolState {
        let phase = self.workers[worker].phase.after(event, worker, self.workers.len() as int);
        self.dealt(worker, event, batch, phase)
    }

    /// To wake one sleeping worker is to wake this one, or none where nobody sleeps.
    pub open spec fn can_wake(self, woken: Option<int>) -> bool {
        match woken {
            Some(i) => self.has(i) && self.workers[i].phase is Asleep,
            None => forall|i: int|
                self.has(i) ==> !((#[trigger] self.workers[i]).phase is Asleep),
        }
    }

    /// The pool goes from this state to `post` by `step`.
    pub open spec fn goes(self, step: Step, post: PoolState, design: Design) -> bool {
        match step {
            Step::Spawn { task, woken } => {
                &&& !self.shutdown
                &&& self.can_wake(woken)
                &&& post == PoolState {
                    global: self.global.push(task),
                    workers: notified(self.workers, Notify::One, woken),
                    spawned: self.spawned.push(task),
                    ..self
                }
            },
            Step::Act { worker, event, batch } => {
                &&& self.can_act(worker, event, batch, design)
                &&& post == self.acted(worker, event, batch)
            },
            Step::Crash { worker } => {
                let me = self.workers[worker];
                &&& design is Injector
                &&& self.has(worker)
                &&& me.phase is Run
                &&& post == PoolState {
                    workers: self.workers.update(worker, awoken(me)),
                    threads: self.threads + 1,
                    finished: self.finished.insert(me.phase->task),
                    ..self
                }
            },
            Step::Fall { worker } => {
                let me = self.workers[worker];
                &&& design is Segments
                &&& self.has(worker)
                &&& me.phase is Run
                &&& post == PoolState {
                    workers: self.workers.update(worker, gone(me)),
                    fallen: self.fallen.update(worker, true),
                    finished: self.finished.insert(me.phase->task),
                    ..self
                }
            },
            Step::Shutdown => post == PoolState {
                workers: notified(self.workers, Notify::All, None),
                shutdown: true,
                ..self
            },
        }
    }

    /// How many times a task is still in the pool: in the shared queue, in a worker's queue, or
    /// being run.
    pub open spec fn pending(self, task: u64) -> nat {
        self.global.to_multiset().count(task) + held(self.workers, task)
    }

    /// A task is in the pool still, or has been run, as many times as it was spawned.
    pub open spec fn is_accounted_for(self, task: u64) -> bool {
        self.spawned.to_multiset().count(task) == self.pending(task) + self.finished.count(task)
    }
}

/// One for a worker that runs the task.
pub open spec fn runs(worker: WorkerState, task: u64) -> nat {
    if worker.phase is Run && worker.phase->task == task {
        1
    } else {
        0
    }
}

/// How many times a worker has a task in its queue or runs it.
pub open spec fn held_by(worker: WorkerState, task: u64) -> nat {
    worker.local.to_multiset().count(task) + runs(worker, task)
}

/// The sum of some figures.
pub open spec fn sum(figures: Seq<nat>) -> nat
    decreases figures.len(),
{
    if figures.len() == 0 {
        0
    } else {
        sum(figures.drop_last()) + figures.last()
    }
}

/// How many times the workers have a task in their queues or run it.
pub open spec fn held(workers: Seq<WorkerState>, task: u64) -> nat {
    sum(workers.map_values(|w: WorkerState| held_by(w, task)))
}

/// The reply of a queue that another thread got in the way of.
pub open spec fn is_retry(event: Event) -> bool {
    match event {
        Event::Global { reply, .. } => reply is Retry,
        Event::Peer(reply) => reply is Retry,
        _ => false,
    }
}

/// One for a worker that runs a task.
pub open spec fn busy(worker: WorkerState) -> nat {
    if worker.phase is Run {
        1
    } else {
        0
    }
}

/// One for a worker that sleeps.
pub open spec fn asleep(worker: WorkerState) -> nat {
    if worker.phase is Asleep {
        1
    } else {
        0
    }
}

/// What is left to do with the tasks of one worker: to run those in its queue, and to end the one
/// that it runs.
pub open spec fn load(worker: WorkerState) -> nat {
    2 * worker.local.len() + (if worker.phase is Run {
        1nat
    } else {
        0nat
    })
}

impl PoolState {
    /// A worker that tops off its queue goes on with that queue next, if it gets no task to run.
    pub open spec fn goes_on_to_drain(self, worker: int, design: Design) -> bool {
        match design {
            Design::Injector => self.global.len() == 0,
            Design::Segments => !self.must_pull(worker),
        }
    }

    /// How far a worker is from leaving its loop while it finds no task, or, as long as there are
    /// tasks in the shared queue, from asking for them.
    pub open spec fn way(self, worker: int, design: Design) -> nat {
        let n = self.workers.len();
        match self.workers[worker].phase {
            Phase::Fetch => if self.goes_on_to_drain(worker, design) {
                n + 3 + seg::BATCH_GRAB_COUNT as nat
            } else {
                0
            },
            Phase::Fill { left } => n + 2 + left as nat,
            Phase::Drain => n + 2,
            Phase::Scan { peer, clear } => {
                let rest = (n - peer) as nat;
                if self.global.len() == 0 && !clear {
                    n + 3 + seg::BATCH_GRAB_COUNT as nat + rest
                } else {
                    rest + 1
                }
            },
            Phase::Park => 1,
            _ => 0,
        }
    }

    /// How many tasks are being run.
    pub open spec fn running(self) -> nat {
        sum(self.workers.map_values(|w: WorkerState| busy(w)))
    }

    /// A task that was begun is being run or has been run, as many times as it was begun.
    pub open spec fn is_followed_up(self, task: u64) -> bool {
        self.started.to_multiset().count(task) == sum(
            self.workers.map_values(|w: WorkerState| runs(w, task)),
        ) + self.finished.count(task)
    }

    /// How many workers sleep.
    pub open spec fn sleepers(self) -> nat {
        sum(self.workers.map_values(|w: WorkerState| asleep(w)))
    }

    /// What is left to do with all tasks of the pool.
    pub open spec fn work(self) -> nat {
        3 * self.global.len() + sum(self.workers.map_values(|w: WorkerState| load(w)))
    }

    /// How far all workers together have to go while none of them gets a task.
    pub open spec fn distance(self, design: Design) -> nat {
        sum(Seq::new(self.workers.len(), |i: int| self.way(i, design)))
    }
}

impl PoolState {
    /// The worker is told that there is a task in the shared queue, though there is none.
    pub open spec fn is_false_alarm(self, event: Event) -> bool {
        event is Checked && !event->global_empty && self.global.len() == 0
    }

    /// By this step a worker gets on: it is not just told to ask again, for what reason ever, or
    /// woken.
    pub open spec fn gets_on(self, step: Step) -> bool {
        match step {
            Step::Act { event, .. } => !is_retry(event) && !(event is Woken)
                && !self.is_false_alarm(event),
            _ => false,
        }
    }
}

/// `states` are what a pool of `n` workers goes through by `steps`, from its beginning on.
pub open spec fn is_run(
    states: Seq<PoolState>,
    steps: Seq<Step>,
    n: int,
    design: Design,
) -> bool {
    &&& states.len() == steps.len() + 1
    &&& states[0].is_new(n)
    &&& forall|i: int|
        #![trigger steps[i]]
        0 <= i < steps.len() ==> states[i].goes(steps[i], states[i + 1], design)
}

/// The most tasks that a worker has in its own queue in this phase.
pub open spec fn most_at_hand(phase: Phase, design: Design) -> int {
    match design {
        Design::Injector => IDEAL_WORKER_BACKLOG - 1,
        Design::Segments => match phase {
            Phase::Fill { left } => seg::IDEAL_WORKER_BACKLOG - 1 + seg::BATCH_GRAB_COUNT - left,
            _ => seg::IDEAL_WORKER_BACKLOG - 1 + seg::BATCH_GRAB_COUNT,
        },
    }
}

/// What every step keeps of one worker.
pub open spec fn worker_inv(s: PoolState, i: int, n: int, design: Design) -> bool {
    let me = s.workers[i];
    &&& me.phase.is_valid(i, n)
    &&& s.shutdown ==> !(me.phase is Asleep)
    &&& me.local.len() <= most_at_hand(me.phase, design)
    &&& me.phase matches Phase::Fill { left } ==> design is Segments && left
        < seg::BATCH_GRAB_COUNT
    &&& if s.fallen[i] {
        design is Segments && me.phase is Done
    } else {
        &&& me.phase.is_drained() ==> me.local.len() == 0
        &&& me.phase is Done ==> s.shutdown && s.global.len() == 0
    }
}

/// What every step keeps.
pub open spec fn inv(s: PoolState, n: int, design: Design) -> bool {
    &&& s.workers.len() == n <= usize::MAX
    &&& s.fallen.len() == n
    &&& is_tail(s.global, s.spawned)
    &&& forall|t: u64| #[trigger] s.is_accounted_for(t)
    &&& forall|t: u64| #[trigger] s.is_followed_up(t)
    &&& forall|i: int|
        #![trigger s.workers[i]]
        #![trigger s.fallen[i]]
        0 <= i < n ==> worker_inv(s, i, n, design)
    &&& n >= 1 && s.global.len() > 0 && s.is_whole() ==> exists|i: int| #[trigger] s.is_awake(i)
    &&& n == 1 && design is Segments ==> s.started + s.workers[0].local + s.global == s.spawned
}

pub(crate) proof fn lemma_sum_update(figures: Seq<nat>, i: int, figure: nat)
    requires
        0 <= i < figures.len(),
    ensures
        sum(figures.update(i, figure)) + figures[i] == sum(figures) + figure,
    decreases figures.len(),
{
    let after = figures.update(i, figure);
    if i == figures.len() - 1 {
        assert(after.drop_last() =~= figures.drop_last());
    } else {
        assert(after.drop_last() =~= figures.drop_last().update(i, figure));
        lemma_sum_update(figures.drop_last(), i, figure);
    }
}

pub(crate) proof fn lemma_worker_update(
    workers: Seq<WorkerState>,
    i: int,
    worker: WorkerState,
    figure: spec_fn(WorkerState) -> nat,
)
    requires
        0 <= i < workers.len(),
    ensures
        sum(workers.update(i, worker).map_values(figure)) + figure(workers[i]) == sum(
            workers.map_values(figure),
        ) + figure(worker),
{
    lemma_sum_update(workers.map_values(figure), i, figure(worker));
    assert(workers.update(i, worker).map_values(figure) =~= workers.map_values(figure).update(
        i,
        figure(worker),
    ));
}

pub(crate) proof fn lemma_held_update(workers: Seq<WorkerState>, i: int, worker: WorkerState, task: u64)
    requires
        0 <= i < workers.len(),
    ensures
        held(workers.update(i, worker), task) + held_by(workers[i], task) == held(workers, task)
            + held_by(worker, task),
        sum(workers.update(i, worker).map_values(|w: WorkerState| runs(w, task))) + runs(
            workers[i],
            task,
        ) == sum(workers.map_values(|w: WorkerState| runs(w, task))) + runs(worker, task),
{
    lemma_worker_update(workers, i, worker, |w: WorkerState| held_by(w, task));
    lemma_worker_update(workers, i, worker, |w: WorkerState| runs(w, task));
}

/// Taking the first `1 + batch.len()` tasks off a queue.
proof fn lemma_taken(queue: Seq<u64>, task: u64, batch: Seq<u64>, t: u64)
    requires
        batch.len() < queue.len(),
        seq![task] + batch == queue.take(batch.len() + 1int),
    ensures
        queue.to_multiset().count(t) == queue.skip(batch.len() + 1int).to_multiset().count(t)
            + batch.to_multiset().count(t) + (if t == task {
            1nat
        } else {
            0nat
        }),
{
    broadcast use vstd::seq_lib::group_to_multiset_ensures;

    let rest = queue.skip(batch.len() + 1int);
    assert(queue =~= (seq![task] + batch) + rest);
    vstd::seq_lib::lemma_multiset_commutative(seq![task] + batch, rest);
    vstd::seq_lib::lemma_multiset_commutative(seq![task], batch);
    lemma_single(task, t);
}

proof fn lemma_single(task: u64, t: u64)
    ensures
        seq![task].to_multiset().count(t) == (if t == task {
            1nat
        } else {
            0nat
        }),
{
    broadcast use vstd::seq_lib::group_to_multiset_ensures;

    assert(seq![task] =~= Seq::<u64>::empty().push(task));
}

proof fn lemma_tail_push(after: Seq<u64>, before: Seq<u64>, task: u64)
    requires
        is_tail(after, before),
    ensures
        is_tail(after.push(task), before.push(task)),
{
    let longer = before.push(task);
    assert(after.push(task) =~= longer.skip(longer.len() - after.len() - 1));
}

pub(crate) proof fn lemma_tail_skip(after: Seq<u64>, before: Seq<u64>, k: int)
    requires
        is_tail(after, before),
        0 <= k <= after.len(),
    ensures
        is_tail(after.skip(k), before),
{
    assert(after.skip(k) =~= before.skip(before.len() - after.len() + k));
}

proof fn lemma_new(s: PoolState, n: int, design: Design)
    requires
        s.is_new(n),
        n <= usize::MAX,
    ensures
        inv(s, n, design),
{
    broadcast use vstd::seq_lib::group_to_multiset_ensures;

    assert(s.global =~= s.spawned.skip(0));
    assert forall|t: u64| s.is_accounted_for(t) && s.is_followed_up(t) by {
        lemma_nothing_held(s.workers, t);
    }
    assert(s.started + Seq::<u64>::empty() + s.global =~= s.spawned);
}

pub(crate) proof fn lemma_sum_nothing(figures: Seq<nat>)
    requires
        forall|i: int| 0 <= i < figures.len() ==> #[trigger] figures[i] == 0,
    ensures
        sum(figures) == 0,
    decreases figures.len(),
{
    if figures.len() > 0 {
        lemma_sum_nothing(figures.drop_last());
    }
}

pub(crate) proof fn lemma_nothing_held(workers: Seq<WorkerState>, task: u64)
    requires
        forall|i: int|
            0 <= i < workers.len() ==> !((#[trigger] workers[i]).phase is Run)
                && workers[i].local.len() == 0,
    ensures
        held(workers, task) == 0,
        sum(workers.map_values(|w: WorkerState| runs(w, task))) == 0,
{
    broadcast use vstd::seq_lib::group_to_multiset_ensures;

    let figures = workers.map_values(|w: WorkerState| held_by(w, task));
    assert forall|i: int| 0 <= i < figures.len() implies #[trigger] figures[i] == 0 by {
        assert(workers[i].local =~= Seq::empty());
    }
    lemma_sum_nothing(figures);
    lemma_sum_nothing(workers.map_values(|w: WorkerState| runs(w, task)));
}

proof fn lemma_spawn(
    s: PoolState,
    task: u64,
    woken: Option<int>,
    post: PoolState,
    n: int,
    design: Design,
)
    requires
        inv(s, n, design),
        s.goes(Step::Spawn { task, woken }, post, design),
    ensures
        inv(post, n, design),
{
    broadcast use vstd::seq_lib::group_to_multiset_ensures;

    assert forall|t: u64| post.is_accounted_for(t) && post.is_followed_up(t) by {
        assert(s.is_accounted_for(t));
        assert(s.is_followed_up(t));
        if let Some(i) = woken {
            lemma_held_update(s.workers, i, awoken(s.workers[i]), t);
        }
    }
    lemma_tail_push(s.global, s.spawned, task);
    assert(post.started + s.workers[0].local + post.global =~= (s.started + s.workers[0].local
        + s.global).push(task));
    assert forall|i: int| 0 <= i < n implies worker_inv(post, i, n, design) by {
        assert(worker_inv(s, i, n, design));
    }
    match woken {
        Some(i) => {
            assert(post.is_awake(i));
        },
        None => {
            if n >= 1 && post.is_whole() {
                assert(s.workers[0] == post.workers[0]);
                assert(!post.fallen[0]);
                assert(worker_inv(s, 0, n, design));
                assert(post.is_awake(0));
            }
        },
    }
}

/// A worker whose task panics leaves everything else as it is.
proof fn lemma_panic(s: PoolState, step: Step, post: PoolState, n: int, design: Design)
    requires
        inv(s, n, design),
        step is Crash || step is Fall,
        s.goes(step, post, design),
    ensures
        inv(post, n, design),
{
    let worker = match step {
        Step::Crash { worker } => worker,
        Step::Fall { worker } => worker,
        _ => 0,
    };
    let next = post.workers[worker];
    assert forall|t: u64| post.is_accounted_for(t) && post.is_followed_up(t) by {
        assert(s.is_accounted_for(t));
        assert(s.is_followed_up(t));
        lemma_held_update(s.workers, worker, next, t);
    }
    assert forall|i: int| 0 <= i < n implies worker_inv(post, i, n, design) by {
        assert(worker_inv(s, i, n, design));
    }
    if step is Crash {
        assert(post.is_awake(worker));
    } else {
        assert(post.fallen[worker]);
    }
}

proof fn lemma_shutdown(s: PoolState, post: PoolState, n: int, design: Design)
    requires
        inv(s, n, design),
        s.goes(Step::Shutdown, post, design),
    ensures
        inv(post, n, design),
{
    assert forall|t: u64| post.is_accounted_for(t) && post.is_followed_up(t) by {
        assert(s.is_accounted_for(t));
        assert(s.is_followed_up(t));
        let figure = |w: WorkerState| held_by(w, t);
        assert(s.workers.map_values(figure) =~= post.workers.map_values(figure));
        let other = |w: WorkerState| runs(w, t);
        assert(s.workers.map_values(other) =~= post.workers.map_values(other));
    }
    assert forall|i: int| 0 <= i < n implies worker_inv(post, i, n, design) by {
        assert(worker_inv(s, i, n, design));
    }
    if n >= 1 && s.global.len() > 0 && post.is_whole() {
        assert forall|i: int| s.has(i) implies !(#[trigger] s.fallen[i]) by {
            assert(!post.fallen[i]);
        }
        let i = choose|i: int| #[trigger] s.is_awake(i);
        assert(post.is_awake(i));
    }
}

/// No event loses a task or makes one up.
proof fn lemma_act_counts(
    s: PoolState,
    worker: int,
    event: Event,
    batch: Seq<u64>,
    n: int,
    design: Design,
    t: u64,
)
    requires
        inv(s, n, design),
        s.can_act(worker, event, batch, design),
    ensures
        s.acted(worker, event, batch).is_accounted_for(t),
        s.acted(worker, event, batch).is_followed_up(t),
{
    broadcast use vstd::seq_lib::group_to_multiset_ensures;

    let me = s.workers[worker];
    let next = me.phase.after(event, worker, n);
    let post = s.acted(worker, event, batch);
    let mine = WorkerState { phase: next, local: s.local_after(worker, event, batch) };
    assert(s.is_accounted_for(t));
    assert(s.is_followed_up(t));
    assert(worker_inv(s, worker, n, design));
    vstd::seq_lib::lemma_multiset_commutative(me.local, batch);
    vstd::seq_lib::lemma_multiset_commutative(s.started, task_of(event));
    if batch.len() == 0 {
        assert(me.local + batch =~= me.local);
        assert(batch =~= Seq::empty());
    }
    match event {
        Event::Global { reply: Reply::Success(task), .. } => {
            lemma_taken(s.global, task, batch, t);
            lemma_single(task, t);
            lemma_held_update(s.workers, worker, mine, t);
        },
        Event::Pulled { task, .. } => {
            if let Some(first) = task {
                assert(seq![first] + Seq::<u64>::empty() =~= s.global.take(1));
                lemma_taken(s.global, first, Seq::empty(), t);
                lemma_single(first, t);
            } else {
                assert(s.global.skip(0) =~= s.global);
            }
            lemma_held_update(s.workers, worker, mine, t);
        },
        Event::Local(Some(task)) => {
            assert(seq![task] + Seq::<u64>::empty() =~= me.local.take(1));
            lemma_taken(me.local, task, Seq::empty(), t);
            lemma_single(task, t);
            lemma_held_update(s.workers, worker, mine, t);
        },
        Event::Peer(Reply::Success(task)) => {
            let peer = me.phase->peer as int;
            let robbed = s.workers[peer];
            let left = WorkerState {
                phase: robbed.phase,
                local: robbed.local.skip(batch.len() + 1int),
            };
            lemma_taken(robbed.local, task, batch, t);
            lemma_single(task, t);
            lemma_held_update(s.workers, peer, left, t);
            lemma_held_update(s.workers.update(peer, left), worker, mine, t);
        },
        _ => {
            lemma_held_update(s.workers, worker, mine, t);
        },
    }
}

proof fn lemma_act(
    s: PoolState,
    worker: int,
    event: Event,
    batch: Seq<u64>,
    n: int,
    design: Design,
)
    requires
        inv(s, n, design),
        s.can_act(worker, event, batch, design),
    ensures
        inv(s.acted(worker, event, batch), n, design),
{
    let post = s.acted(worker, event, batch);
    let me = s.workers[worker];
    assert forall|t: u64| post.is_accounted_for(t) && post.is_followed_up(t) by {
        lemma_act_counts(s, worker, event, batch, n, design, t);
    }
    assert(worker_inv(s, worker, n, design));
    match event {
        Event::Global { reply: Reply::Success(_), .. } => {
            lemma_tail_skip(s.global, s.spawned, batch.len() + 1int);
        },
        Event::Pulled { .. } => {
            lemma_tail_skip(s.global, s.spawned, batch.len() as int);
        },
        _ => {},
    }
    assert forall|i: int| 0 <= i < n implies worker_inv(post, i, n, design) by {
        assert(worker_inv(s, i, n, design));
        if event matches Event::Peer(_) {
            assert(worker_inv(s, me.phase->peer as int, n, design));
        }
    }
    if post.global.len() > 0 {
        assert(post.is_awake(worker));
    }
    if n == 1 && design is Segments {
        assert(post.started + post.workers[0].local + post.global =~= s.started
            + s.workers[0].local + s.global);
    }
}

/// Every state of a run keeps the invariant.
pub(crate) proof fn lemma_run(states: Seq<PoolState>, steps: Seq<Step>, n: int, design: Design, k: int)
    requires
        is_run(states, steps, n, design),
        n <= usize::MAX,
        0 <= k < states.len(),
    ensures
        inv(states[k], n, design),
    decreases k,
{
    if k == 0 {
        lemma_new(states[0], n, design);
    } else {
        lemma_run(states, steps, n, design, k - 1);
        let s = states[k - 1];
        let post = states[k];
        let step = steps[k - 1];
        assert(s.goes(step, post, design));
        match step {
            Step::Spawn { task, woken } => lemma_spawn(s, task, woken, post, n, design),
            Step::Act { worker, event, batch } => lemma_act(s, worker, event, batch, n, design),
            Step::Crash { .. } | Step::Fall { .. } => lemma_panic(s, step, post, n, design),
            Step::Shutdown => lemma_shutdown(s, post, n, design),
        }
    }
}

} // verus!
