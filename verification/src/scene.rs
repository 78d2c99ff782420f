//! The pool as its code plays it: what the queues really hold, and what each worker's own thread
//! knows.
//!
//! The thread of a worker knows of its own queue no more than [`crate::queues::backlog`] says: what
//! is really there is a tail of that. It goes from one phase to the next as the contracts of
//! [`crate::worker::WorkerContext`] say, which is [`moves`], and reports of a queue what that told
//! it, which is on the ledger of its own queue: [`crate::worker::Seat::deals`]. Tasks enter the
//! shared queue only by the [`crate::queues::Inlet`] that the pool has, once for each that is
//! spawned in it, and no worker has that. What is taken on trust here is that the queues and the
//! lock tell the truth: [`PoolState::replies`] says what that is, and [`PoolState::dealt`] what
//! becomes of the queues. Then the pool takes no other steps than those of [`crate::model`], so
//! that every law of [`crate::laws`] holds of it.

use crossbeam::deque::Injector;
use crossbeam::queue::SegQueue;
use vstd::prelude::*;

use crate::laws::law_join_waits_for_all;
use crate::model::{
    awoken, gone, is_run, lemma_run, lemma_tail_skip, notified, worker_inv, Design, PoolState, Step,
};
use crate::phase::{Event, Reply};
use crate::pool::Notify;
use crate::queues::is_tail;
use crate::worker::{moves, WorkerState};

verus! {

/// A pool at one moment, what was spawned in it and whether it shuts down by its own account, and
/// what the threads of its workers know of themselves.
pub struct Scene {
    pub pool: PoolState,
    pub posted: Seq<u64>,
    pub closing: bool,
    pub known: Seq<WorkerState>,
}

/// A worker is where its thread takes it to be, and its queue holds a tail of what its thread
/// knows.
pub open spec fn agrees(actual: WorkerState, known: WorkerState) -> bool {
    actual.phase == known.phase && is_tail(actual.local, known.local)
}

/// What the contracts of a worker say of an event, whichever queue tasks enter the pool by.
pub open spec fn moves_by_contract(
    pre: WorkerState,
    event: Event,
    batch: Seq<u64>,
    post: WorkerState,
    id: int,
    peers: int,
    design: Design,
) -> bool {
    match design {
        Design::Injector => moves::<Injector<u64>>(pre, event, batch, post, id, peers),
        Design::Segments => moves::<SegQueue<u64>>(pre, event, batch, post, id, peers),
    }
}

impl Scene {
    /// A new pool of `n` workers, each of which knows that its queue is empty.
    pub open spec fn is_new(self, n: int) -> bool {
        &&& self.pool.is_new(n)
        &&& self.posted == Seq::<u64>::empty()
        &&& !self.closing
        &&& self.known == self.pool.workers
    }

    /// The account of the pool is the same: nothing was spawned, and it did not shut down.
    pub open spec fn same_account(self, post: Scene) -> bool {
        post.posted == self.posted && post.closing == self.closing
    }

    /// What was spawned in the pool since, by its own account.
    pub open spec fn newly_posted(self, post: Scene) -> Seq<u64> {
        post.posted.skip(self.posted.len() as int)
    }

    /// The pool goes on to `post` by an event that comes to a worker.
    ///
    /// The worker keeps to its contracts, and no other worker learns of it, nor does the pool. The
    /// reply is true at this moment, the queues change by what was taken and added, and the worker
    /// knows of its own queue as before. An event that comes of counting its tasks comes when they
    /// are counted.
    pub open spec fn performs(
        self,
        worker: int,
        event: Event,
        batch: Seq<u64>,
        post: Scene,
        design: Design,
    ) -> bool {
        let next = post.known[worker];
        &&& self.pool.has(worker)
        &&& moves_by_contract(
            self.known[worker],
            event,
            batch,
            next,
            worker,
            self.pool.workers.len() as int,
            design,
        )
        &&& post.known == self.known.update(worker, next)
        &&& self.same_account(post)
        &&& self.pool.replies(worker, event, batch, design)
        &&& post.pool == self.pool.dealt(worker, event, batch, next.phase)
        &&& is_tail(post.pool.workers[worker].local, next.local)
        &&& event is Filled ==> self.pool.workers[worker].local.len() == next.local.len()
    }

    /// The pool goes on to `post` by `step`.
    ///
    /// What is newly spawned by the pool's own account is what enters the shared queue, at the
    /// back, and the pool shuts down when it says so. The contracts say what that account is.
    pub open spec fn plays(self, step: Step, post: Scene, design: Design) -> bool {
        match step {
            Step::Act { worker, event, batch } => self.performs(worker, event, batch, post, design),
            Step::Spawn { task, woken } => {
                &&& post.posted == self.posted.push(task)
                &&& post.closing == self.closing
                &&& post.known == notified(self.known, Notify::One, woken)
                &&& !self.pool.shutdown
                &&& self.pool.can_wake(woken)
                &&& post.pool == PoolState {
                    global: self.pool.global + self.newly_posted(post),
                    workers: notified(self.pool.workers, Notify::One, woken),
                    spawned: self.pool.spawned + self.newly_posted(post),
                    ..self.pool
                }
            },
            Step::Crash { worker } => {
                &&& self.pool.goes(step, post.pool, design)
                &&& post.known == self.known.update(worker, awoken(self.known[worker]))
                &&& self.same_account(post)
            },
            Step::Fall { worker } => {
                &&& self.pool.goes(step, post.pool, design)
                &&& post.known == self.known.update(worker, gone(self.known[worker]))
                &&& self.same_account(post)
            },
            Step::Shutdown => {
                &&& post.closing
                &&& post.posted == self.posted
                &&& post.known == notified(self.known, Notify::All, None)
                &&& post.pool == PoolState {
                    workers: notified(self.pool.workers, Notify::All, None),
                    shutdown: post.closing,
                    ..self.pool
                }
            },
        }
    }

    /// The account of the pool is right, and what every thread knows of its worker.
    pub open spec fn is_right(self) -> bool {
        &&& self.posted == self.pool.spawned
        &&& self.closing == self.pool.shutdown
        &&& self.known.len() == self.pool.workers.len()
        &&& forall|i: int|
            #![trigger self.known[i]]
            #![trigger self.pool.workers[i]]
            0 <= i < self.known.len() ==> agrees(self.pool.workers[i], self.known[i])
    }
}

/// `scenes` are what a pool of `n` workers goes through by `steps`, from its beginning on.
pub open spec fn is_played(scenes: Seq<Scene>, steps: Seq<Step>, n: int, design: Design) -> bool {
    &&& scenes.len() == steps.len() + 1
    &&& scenes[0].is_new(n)
    &&& forall|i: int|
        #![trigger steps[i]]
        0 <= i < steps.len() ==> scenes[i].plays(steps[i], scenes[i + 1], design)
}

/// The pool in each of some scenes.
pub open spec fn pools(scenes: Seq<Scene>) -> Seq<PoolState> {
    scenes.map_values(|scene: Scene| scene.pool)
}

/// A worker that keeps to its contracts decides as the model says.
proof fn lemma_decides(
    pre: Scene,
    worker: int,
    event: Event,
    batch: Seq<u64>,
    post: Scene,
    n: int,
    design: Design,
)
    requires
        pre.is_right(),
        pre.pool.workers.len() == n,
        pre.performs(worker, event, batch, post, design),
        worker_inv(pre.pool, worker, n, design),
    ensures
        pre.pool.goes(Step::Act { worker, event, batch }, post.pool, design),
        post.is_right(),
{
    let actual = pre.pool.workers[worker];
    let mine = pre.known[worker];
    let next = post.known[worker];
    assert(agrees(actual, mine));
    assert(pre.pool.decides(worker, event, batch, design));
    assert forall|i: int| 0 <= i < post.known.len() implies agrees(
        post.pool.workers[i],
        post.known[i],
    ) by {
        assert(agrees(pre.pool.workers[i], pre.known[i]));
        if let Event::Peer(Reply::Success(_)) = event {
            if i != worker && i == actual.phase->peer {
                lemma_tail_skip(pre.pool.workers[i].local, pre.known[i].local, batch.len() + 1int);
            }
        }
    }
}

/// One step of the code is one step of the model.
proof fn lemma_plays(pre: Scene, step: Step, post: Scene, n: int, design: Design)
    requires
        pre.is_right(),
        pre.pool.workers.len() == n,
        pre.plays(step, post, design),
        forall|i: int| #![trigger pre.pool.workers[i]]
            0 <= i < n ==> worker_inv(pre.pool, i, n, design),
    ensures
        pre.pool.goes(step, post.pool, design),
        post.is_right(),
{
    if let Step::Act { worker, event, batch } = step {
        assert(agrees(pre.pool.workers[worker], pre.known[worker]));
        lemma_decides(pre, worker, event, batch, post, n, design);
    } else {
        if let Step::Spawn { task, .. } = step {
            assert(pre.newly_posted(post) =~= seq![task]);
            assert(pre.pool.global + seq![task] =~= pre.pool.global.push(task));
            assert(pre.pool.spawned + seq![task] =~= pre.pool.spawned.push(task));
        }
        assert forall|i: int| 0 <= i < post.known.len() implies agrees(
            post.pool.workers[i],
            post.known[i],
        ) by {
            assert(agrees(pre.pool.workers[i], pre.known[i]));
        }
    }
}

/// Workers that do what their contracts say, on queues that tell the truth, take the steps of the
/// model and no others. All the while each knows where it stands, its queue holds a tail of what it
/// knows, and the pool has right what was spawned in it and whether it shuts down.
pub proof fn law_workers_keep_to_the_model(
    scenes: Seq<Scene>,
    steps: Seq<Step>,
    n: int,
    design: Design,
)
    requires
        is_played(scenes, steps, n, design),
        n <= usize::MAX,
    ensures
        is_run(pools(scenes), steps, n, design),
        forall|k: int| 0 <= k < scenes.len() ==> (#[trigger] scenes[k]).is_right(),
    decreases steps.len(),
{
    let states = pools(scenes);
    if steps.len() == 0 {
        let s = scenes[0];
        assert forall|i: int| 0 <= i < s.known.len() implies agrees(
            s.pool.workers[i],
            s.known[i],
        ) by {
            let local = s.known[i].local;
            assert(local.skip(0) =~= local);
        }
    } else {
        let last = steps.len() - 1;
        let before = scenes.drop_last();
        let so_far = steps.drop_last();
        assert forall|i: int| #![trigger so_far[i]] 0 <= i < so_far.len() implies before[i].plays(
            so_far[i],
            before[i + 1],
            design,
        ) by {
            assert(scenes[i].plays(steps[i], scenes[i + 1], design));
        }
        law_workers_keep_to_the_model(before, so_far, n, design);
        lemma_run(pools(before), so_far, n, design, last);
        assert(before[last] == scenes[last]);
        assert(scenes[last].plays(steps[last], scenes[last + 1], design));
        lemma_plays(scenes[last], steps[last], scenes[last + 1], n, design);
        assert forall|i: int| #![trigger steps[i]] 0 <= i < steps.len() implies states[i].goes(
            steps[i],
            states[i + 1],
            design,
        ) by {
            if i < last {
                assert(pools(before)[i].goes(so_far[i], pools(before)[i + 1], design));
            }
        }
        assert forall|k: int| 0 <= k < scenes.len() implies (#[trigger] scenes[k]).is_right() by {
            if k <= last {
                assert(before[k].is_right());
            }
        }
    }
}

/// When the thread of every worker has left its loop, every task that was ever spawned has been
/// run, exactly as many times as it was spawned. In a plain pool this takes that no thread died of
/// a panic.
pub proof fn law_workers_leave_no_task_behind(
    scenes: Seq<Scene>,
    steps: Seq<Step>,
    n: int,
    design: Design,
    k: int,
)
    requires
        is_played(scenes, steps, n, design),
        1 <= n <= usize::MAX,
        0 <= k < scenes.len(),
        design is Injector || scenes[k].pool.is_whole(),
        forall|i: int| 0 <= i < n ==> (#[trigger] scenes[k].known[i]).phase is Done,
    ensures
        scenes[k].closing,
        scenes[k].pool.finished == scenes[k].posted.to_multiset(),
{
    law_workers_keep_to_the_model(scenes, steps, n, design);
    let states = pools(scenes);
    lemma_run(states, steps, n, design, k);
    assert(scenes[k].is_right());
    assert forall|i: int| states[k].has(i) implies (#[trigger] states[k].workers[i]).phase
        is Done by {
        assert(scenes[k].known[i].phase is Done);
    }
    assert(worker_inv(states[k], 0, n, design));
    law_join_waits_for_all(states, steps, n, design, k);
}

/// A pool runs only the tasks that were spawned in it: one that was spawned in another pool alone
/// is in none of its queues, and none of its workers runs it.
pub proof fn law_a_pool_runs_only_its_own_tasks(
    scenes: Seq<Scene>,
    steps: Seq<Step>,
    n: int,
    design: Design,
    k: int,
    task: u64,
)
    requires
        is_played(scenes, steps, n, design),
        n <= usize::MAX,
        0 <= k < scenes.len(),
        !scenes[k].posted.contains(task),
    ensures
        scenes[k].pool.pending(task) == 0,
        scenes[k].pool.finished.count(task) == 0,
{
    broadcast use vstd::seq_lib::group_to_multiset_ensures;

    law_workers_keep_to_the_model(scenes, steps, n, design);
    lemma_run(pools(scenes), steps, n, design, k);
    assert(scenes[k].is_right());
    assert(pools(scenes)[k].is_accounted_for(task));
}

} // verus!
