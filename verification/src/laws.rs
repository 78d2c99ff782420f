//! The laws of the pool: what holds in every state that the steps of [`crate::model`] lead to from
//! a new pool.
//!
//! A plain pool does not replace a thread that dies of a panic. The laws say where that matters.

use vstd::prelude::*;

use crate::model::{
    asleep, awoken, busy, gone, held_by, inv, is_run, lemma_held_update, lemma_nothing_held,
    lemma_run, lemma_sum_nothing, lemma_sum_update, lemma_worker_update, load, notified, sum,
    worker_inv, Design, PoolState, Step,
};
use crate::phase::{Event, Phase, Reply};
use crate::pool::{Notify, IDEAL_WORKER_BACKLOG};
use crate::queues::is_tail;
use crate::seg;
use crate::seg::at_most_one;
use crate::worker::WorkerState;

verus! {

/// No task is lost and none is made up: whatever was spawned is in the pool still, or has been run,
/// as many times as it was spawned. So no task is run more often than it was spawned.
pub proof fn law_no_task_is_lost(
    states: Seq<PoolState>,
    steps: Seq<Step>,
    n: int,
    design: Design,
    k: int,
)
    requires
        is_run(states, steps, n, design),
        n <= usize::MAX,
        0 <= k < states.len(),
    ensures
        forall|t: u64| #[trigger] states[k].is_accounted_for(t),
        states[k].finished.subset_of(states[k].spawned.to_multiset()),
{
    lemma_run(states, steps, n, design, k);
    let s = states[k];
    assert forall|t: u64| s.finished.count(t) <= s.spawned.to_multiset().count(t) by {
        assert(s.is_accounted_for(t));
    }
}

/// When every worker has left its loop, every task that was ever spawned has been run, exactly as
/// many times as it was spawned, and no queue holds any task. In a plain pool this takes that no
/// thread died of a panic, for the tasks in its queue may then be left there.
pub proof fn law_join_waits_for_all(
    states: Seq<PoolState>,
    steps: Seq<Step>,
    n: int,
    design: Design,
    k: int,
)
    requires
        is_run(states, steps, n, design),
        1 <= n <= usize::MAX,
        0 <= k < states.len(),
        design is Injector || states[k].is_whole(),
        states[k].is_over(),
    ensures
        states[k].finished == states[k].spawned.to_multiset(),
        states[k].global.len() == 0,
        forall|i: int| states[k].has(i) ==> (#[trigger] states[k].workers[i]).local.len() == 0,
{
    broadcast use vstd::seq_lib::group_to_multiset_ensures;

    lemma_run(states, steps, n, design, k);
    let s = states[k];
    lemma_whole(s, n, design);
    assert forall|i: int| 0 <= i < n implies !((#[trigger] s.workers[i]).phase is Run)
        && s.workers[i].local.len() == 0 && s.global.len() == 0 by {
        assert(worker_inv(s, i, n, design));
        assert(!s.fallen[i]);
    }
    assert(s.workers[0].phase is Done);
    assert(s.global =~= Seq::empty());
    assert forall|t: u64| s.finished.count(t) == s.spawned.to_multiset().count(t) by {
        assert(s.is_accounted_for(t));
        lemma_nothing_held(s.workers, t);
    }
    assert(s.finished =~= s.spawned.to_multiset());
}

/// A pool that replaces its threads never loses a worker.
proof fn lemma_whole(s: PoolState, n: int, design: Design)
    requires
        inv(s, n, design),
        design is Injector || s.is_whole(),
    ensures
        s.is_whole(),
{
    assert forall|i: int| s.has(i) implies !(#[trigger] s.fallen[i]) by {
        assert(worker_inv(s, i, n, design));
    }
}

/// A worker leaves its loop only when the pool shuts down, no task is left in the shared queue and
/// none in its own.
pub proof fn law_leaves_only_when_drained(
    states: Seq<PoolState>,
    steps: Seq<Step>,
    n: int,
    design: Design,
    k: int,
    worker: int,
)
    requires
        is_run(states, steps, n, design),
        n <= usize::MAX,
        0 <= k < states.len(),
        0 <= worker < n,
        design is Injector || !states[k].fallen[worker],
        states[k].workers[worker].phase is Done,
    ensures
        states[k].shutdown,
        states[k].global.len() == 0,
        states[k].workers[worker].local.len() == 0,
{
    lemma_run(states, steps, n, design, k);
    assert(worker_inv(states[k], worker, n, design));
}

/// No wakeup is lost: as long as there is a task in the pool, some worker is awake to run it. In a
/// plain pool this takes that no thread died of a panic.
pub proof fn law_no_lost_wakeup(
    states: Seq<PoolState>,
    steps: Seq<Step>,
    n: int,
    design: Design,
    k: int,
    task: u64,
)
    requires
        is_run(states, steps, n, design),
        1 <= n <= usize::MAX,
        0 <= k < states.len(),
        design is Injector || states[k].is_whole(),
        states[k].pending(task) > 0,
    ensures
        exists|i: int| #[trigger] states[k].is_awake(i),
{
    broadcast use vstd::seq_lib::group_to_multiset_ensures;

    lemma_run(states, steps, n, design, k);
    let s = states[k];
    lemma_whole(s, n, design);
    if s.global.len() == 0 {
        assert(s.global =~= Seq::empty());
        if forall|i: int| !#[trigger] s.is_awake(i) {
            assert forall|i: int| 0 <= i < s.workers.len() implies !((
            #[trigger] s.workers[i]).phase is Run) && s.workers[i].local.len() == 0 by {
                assert(!s.is_awake(i));
                assert(worker_inv(s, i, n, design));
                assert(!s.fallen[i]);
            }
            lemma_nothing_held(s.workers, task);
        }
    }
}

/// Once the pool shuts down no worker sleeps, so that none is waited for in vain.
pub proof fn law_nobody_sleeps_through_shutdown(
    states: Seq<PoolState>,
    steps: Seq<Step>,
    n: int,
    design: Design,
    k: int,
    worker: int,
)
    requires
        is_run(states, steps, n, design),
        n <= usize::MAX,
        0 <= k < states.len(),
        0 <= worker < n,
        states[k].shutdown,
    ensures
        !(states[k].workers[worker].phase is Asleep),
{
    lemma_run(states, steps, n, design, k);
    assert(worker_inv(states[k], worker, n, design));
}

/// A worker always lacks at least one task of its ideal backlog, so that it always asks the shared
/// queue for at least one. In a plain pool it has never more at hand than one task less than its
/// ideal backlog and the handful that it then moves.
pub proof fn law_backlog_is_bounded(
    states: Seq<PoolState>,
    steps: Seq<Step>,
    n: int,
    design: Design,
    k: int,
    worker: int,
)
    requires
        is_run(states, steps, n, design),
        n <= usize::MAX,
        0 <= k < states.len(),
        0 <= worker < n,
    ensures
        match design {
            Design::Injector => states[k].workers[worker].local.len() < IDEAL_WORKER_BACKLOG,
            Design::Segments => states[k].workers[worker].local.len() < seg::IDEAL_WORKER_BACKLOG
                + seg::BATCH_GRAB_COUNT,
        },
{
    lemma_run(states, steps, n, design, k);
    assert(worker_inv(states[k], worker, n, design));
}

/// Tasks leave the shared queue in the order in which they were spawned: what is left in it are the
/// tasks that were spawned last.
pub proof fn law_shared_queue_keeps_order(
    states: Seq<PoolState>,
    steps: Seq<Step>,
    n: int,
    design: Design,
    k: int,
)
    requires
        is_run(states, steps, n, design),
        n <= usize::MAX,
        0 <= k < states.len(),
    ensures
        is_tail(states[k].global, states[k].spawned),
{
    lemma_run(states, steps, n, design, k);
}

/// A plain pool of one worker begins its tasks in the order in which they were spawned: those that
/// it has begun, then those in its own queue, then those in the shared queue are all that were
/// spawned.
pub proof fn law_a_lone_plain_worker_keeps_order(
    states: Seq<PoolState>,
    steps: Seq<Step>,
    design: Design,
    k: int,
)
    requires
        is_run(states, steps, 1, design),
        design is Segments,
        0 <= k < states.len(),
    ensures
        states[k].started + states[k].workers[0].local + states[k].global == states[k].spawned,
        states[k].started == states[k].spawned.take(states[k].started.len() as int),
{
    lemma_run(states, steps, 1, design, k);
    let s = states[k];
    assert(s.started =~= s.spawned.take(s.started.len() as int)) by {
        assert(s.spawned =~= s.started + (s.workers[0].local + s.global));
    }
}

/// Every figure is at most one, so that there are at least as many as they add up to.
proof fn lemma_sum_at_most(figures: Seq<nat>)
    requires
        forall|i: int| 0 <= i < figures.len() ==> #[trigger] figures[i] <= 1,
    ensures
        sum(figures) <= figures.len(),
    decreases figures.len(),
{
    if figures.len() > 0 {
        lemma_sum_at_most(figures.drop_last());
    }
}

/// At most as many tasks are run at once as the pool has workers, so that the tasks of a pool of
/// one worker never overlap. Every task that was begun is being run or has been run.
pub proof fn law_no_more_tasks_than_workers(
    states: Seq<PoolState>,
    steps: Seq<Step>,
    n: int,
    design: Design,
    k: int,
)
    requires
        is_run(states, steps, n, design),
        n <= usize::MAX,
        0 <= k < states.len(),
    ensures
        states[k].running() <= n,
        forall|t: u64| #[trigger] states[k].is_followed_up(t),
{
    lemma_run(states, steps, n, design, k);
    lemma_sum_at_most(states[k].workers.map_values(|w: WorkerState| busy(w)));
}

/// A pool keeps its number of workers, whatever its tasks do, and a worker that steals never steals
/// from itself.
pub proof fn law_places_are_kept(
    states: Seq<PoolState>,
    steps: Seq<Step>,
    n: int,
    design: Design,
    k: int,
)
    requires
        is_run(states, steps, n, design),
        n <= usize::MAX,
        0 <= k < states.len(),
    ensures
        states[k].workers.len() == n,
        forall|i: int| 0 <= i < n ==> (#[trigger] states[k].workers[i]).phase.is_valid(i, n),
{
    lemma_run(states, steps, n, design, k);
    assert forall|i: int| 0 <= i < n implies (#[trigger] states[k].workers[i]).phase.is_valid(
        i,
        n,
    ) by {
        assert(worker_inv(states[k], i, n, design));
    }
}

/// How many of the steps are panics after which another thread takes over.
pub open spec fn crashes(steps: Seq<Step>) -> nat
    decreases steps.len(),
{
    if steps.len() == 0 {
        0
    } else {
        crashes(steps.drop_last()) + (if steps.last() is Crash {
            1nat
        } else {
            0nat
        })
    }
}

/// However many tasks have panicked, a pool that replaces its threads has as many workers as it was
/// built with, none of which has lost its thread, and one more thread was started for each panic.
pub proof fn law_panics_are_made_up_for(
    states: Seq<PoolState>,
    steps: Seq<Step>,
    n: int,
    design: Design,
    k: int,
)
    requires
        is_run(states, steps, n, design),
        n <= usize::MAX,
        0 <= k < states.len(),
        design is Injector,
    ensures
        states[k].workers.len() == n,
        states[k].is_whole(),
        states[k].threads == n + crashes(steps.take(k)),
    decreases k,
{
    lemma_run(states, steps, n, design, k);
    lemma_whole(states[k], n, design);
    if k == 0 {
        assert(steps.take(0).len() == 0);
    } else {
        law_panics_are_made_up_for(states, steps, n, design, k - 1);
        assert(states[k - 1].goes(steps[k - 1], states[k], design));
        assert(steps.take(k).drop_last() =~= steps.take(k - 1));
        assert(steps.take(k).last() == steps[k - 1]);
    }
}

/// Spawning a task puts it last in the shared queue and wakes a single sleeping worker, if one
/// exists.
pub proof fn law_spawn_wakes_one(
    pre: PoolState,
    task: u64,
    woken: Option<int>,
    post: PoolState,
    design: Design,
)
    requires
        pre.goes(Step::Spawn { task, woken }, post, design),
    ensures
        post.global == pre.global.push(task),
        post.spawned == pre.spawned.push(task),
        post.sleepers() == (if pre.sleepers() == 0 {
            0
        } else {
            pre.sleepers() - 1
        }),
{
    let figure = |w: WorkerState| asleep(w);
    match woken {
        Some(i) => {
            lemma_worker_update(pre.workers, i, awoken(pre.workers[i]), figure);
        },
        None => {
            let figures = pre.workers.map_values(figure);
            assert forall|i: int| 0 <= i < figures.len() implies #[trigger] figures[i] == 0 by {
                assert(!(pre.workers[i].phase is Asleep));
            }
            lemma_sum_nothing(figures);
        },
    }
}

/// Shutting down wakes every sleeping worker and takes no task away.
pub proof fn law_shutdown_wakes_all(pre: PoolState, post: PoolState, design: Design)
    requires
        pre.goes(Step::Shutdown, post, design),
    ensures
        post.shutdown,
        post.sleepers() == 0,
        forall|t: u64| #[trigger] post.pending(t) == pre.pending(t),
{
    let figures = post.workers.map_values(|w: WorkerState| asleep(w));
    lemma_sum_nothing(figures);
    assert forall|t: u64| #[trigger] post.pending(t) == pre.pending(t) by {
        let figure = |w: WorkerState| held_by(w, t);
        assert(pre.workers.map_values(figure) =~= post.workers.map_values(figure));
    }
}

/// A task can be spawned in a pool at any time before it shuts down, whatever has panicked in it.
pub proof fn law_spawn_never_blocks(pre: PoolState, task: u64, design: Design)
    requires
        !pre.shutdown,
    ensures
        exists|woken: Option<int>, post: PoolState| #[trigger]
            pre.goes(Step::Spawn { task, woken }, post, design),
{
    let woken = if exists|i: int| pre.has(i) && (#[trigger] pre.workers[i]).phase is Asleep {
        Some(choose|i: int| pre.has(i) && (#[trigger] pre.workers[i]).phase is Asleep)
    } else {
        None
    };
    let post = PoolState {
        global: pre.global.push(task),
        workers: notified(pre.workers, Notify::One, woken),
        spawned: pre.spawned.push(task),
        ..pre
    };
    assert(pre.goes(Step::Spawn { task, woken }, post, design));
}

/// A task that panics costs the pool no other task and no worker: the worker's place is taken over
/// with its queue, and only the task that panicked is gone from the pool.
pub proof fn law_crash_costs_one_task(
    pre: PoolState,
    worker: int,
    post: PoolState,
    design: Design,
)
    requires
        pre.goes(Step::Crash { worker }, post, design),
    ensures
        post.workers.len() == pre.workers.len(),
        post.workers[worker] == (WorkerState {
            phase: Phase::Fetch,
            local: pre.workers[worker].local,
        }),
        forall|t: u64| #[trigger]
            pre.pending(t) == post.pending(t) + (if t == pre.workers[worker].phase->task {
                1nat
            } else {
                0nat
            }),
{
    let me = pre.workers[worker];
    assert forall|t: u64| #[trigger]
        pre.pending(t) == post.pending(t) + (if t == me.phase->task {
            1nat
        } else {
            0nat
        }) by {
        lemma_held_update(pre.workers, worker, awoken(me), t);
    }
}

/// In a plain pool a task that panics costs the pool the worker that ran it, but no other task:
/// what is in that worker's queue stays there, where others can steal it.
pub proof fn law_fall_costs_one_task_and_its_worker(
    pre: PoolState,
    worker: int,
    post: PoolState,
    design: Design,
)
    requires
        pre.goes(Step::Fall { worker }, post, design),
    ensures
        post.workers[worker] == (WorkerState {
            phase: Phase::Done,
            local: pre.workers[worker].local,
        }),
        post.global == pre.global,
        forall|i: int|
            pre.has(i) && i != worker ==> #[trigger] post.workers[i] == pre.workers[i],
        forall|t: u64| #[trigger]
            pre.pending(t) == post.pending(t) + (if t == pre.workers[worker].phase->task {
                1nat
            } else {
                0nat
            }),
{
    let me = pre.workers[worker];
    assert forall|t: u64| #[trigger]
        pre.pending(t) == post.pending(t) + (if t == me.phase->task {
            1nat
        } else {
            0nat
        }) by {
        lemma_held_update(pre.workers, worker, gone(me), t);
    }
}

/// A worker that is awake can get on.
proof fn lemma_gets_on(s: PoolState, n: int, design: Design, w: int)
    requires
        inv(s, n, design),
        s.is_awake(w),
    ensures
        exists|step: Step, post: PoolState| #[trigger]
            s.goes(step, post, design) && s.gets_on(step),
{
    let me = s.workers[w];
    let none = Seq::<u64>::empty();
    assert(worker_inv(s, w, n, design));
    let pull = |left: int|
        Event::Pulled {
            task: if s.global.len() > 0 {
                Some(s.global[0])
            } else {
                None
            },
            left: left as usize,
        };
    let event = match me.phase {
        Phase::Fetch => match design {
            Design::Segments => if s.global.len() == 0 {
                Event::Dry
            } else if s.must_pull(w) {
                pull(seg::BATCH_GRAB_COUNT - 1)
            } else {
                Event::Filled
            },
            Design::Injector => {
                let limit = (IDEAL_WORKER_BACKLOG - me.local.len()) as usize;
                if s.global.len() == 0 {
                    Event::Global { limit, reply: Reply::Empty }
                } else {
                    Event::Global { limit, reply: Reply::Success(s.global[0]) }
                }
            },
        },
        Phase::Fill { left } => pull(left - 1),
        Phase::Drain => if me.local.len() == 0 {
            Event::Local(None)
        } else {
            Event::Local(Some(me.local[0]))
        },
        Phase::Scan { peer, .. } => {
            let stock = s.workers[peer as int].local;
            if stock.len() == 0 {
                Event::Peer(Reply::Empty)
            } else {
                Event::Peer(Reply::Success(stock[0]))
            }
        },
        Phase::Park => Event::Checked { global_empty: s.global.len() == 0, shutdown: s.shutdown },
        _ => Event::Finished,
    };
    let batch = match event {
        Event::Pulled { task, .. } => at_most_one(task),
        _ => none,
    };
    if s.global.len() > 0 {
        assert(seq![s.global[0]] + none =~= s.global.take(1));
    }
    if let Phase::Scan { peer, .. } = me.phase {
        let stock = s.workers[peer as int].local;
        if stock.len() > 0 {
            assert(seq![stock[0]] + none =~= stock.take(1));
        }
    }
    let step = Step::Act { worker: w, event, batch };
    assert(s.goes(step, s.acted(w, event, batch), design));
    assert(s.gets_on(step));
}

/// A pool that shuts down never gets stuck: as long as a worker is in its loop, some worker can get
/// on.
pub proof fn law_shutdown_never_blocks(
    states: Seq<PoolState>,
    steps: Seq<Step>,
    n: int,
    design: Design,
    k: int,
)
    requires
        is_run(states, steps, n, design),
        n <= usize::MAX,
        0 <= k < states.len(),
        states[k].shutdown,
        !states[k].is_over(),
    ensures
        exists|step: Step, post: PoolState| #[trigger]
            states[k].goes(step, post, design) && states[k].gets_on(step),
{
    lemma_run(states, steps, n, design, k);
    let s = states[k];
    let w = choose|w: int| s.has(w) && !((#[trigger] s.workers[w]).phase is Done);
    assert(worker_inv(s, w, n, design));
    lemma_gets_on(s, n, design, w);
}

/// Tasks that were spawned stay spawned.
proof fn lemma_spawned_grows(
    states: Seq<PoolState>,
    steps: Seq<Step>,
    n: int,
    design: Design,
    j: int,
    k: int,
    task: u64,
)
    requires
        is_run(states, steps, n, design),
        0 <= j <= k < states.len(),
    ensures
        states[j].spawned.to_multiset().count(task) <= states[k].spawned.to_multiset().count(task),
    decreases k - j,
{
    broadcast use vstd::seq_lib::group_to_multiset_ensures;

    if j < k {
        lemma_spawned_grows(states, steps, n, design, j, k - 1, task);
        assert(states[k - 1].goes(steps[k - 1], states[k], design));
    }
}

/// A task that was spawned gets run, however many tasks have panicked before it or do so after it.
/// Ever after it is in the pool still or has been run; as long as it is in the pool some worker can
/// get on, which by [`law_getting_on_comes_to_an_end`] cannot go on forever without new tasks; and
/// once every worker has left it has been run. In a plain pool this takes that no thread died of a
/// panic.
pub proof fn law_spawned_task_gets_run(
    states: Seq<PoolState>,
    steps: Seq<Step>,
    n: int,
    design: Design,
    j: int,
    k: int,
    task: u64,
    woken: Option<int>,
)
    requires
        is_run(states, steps, n, design),
        1 <= n <= usize::MAX,
        0 <= j < k < states.len(),
        steps[j] == (Step::Spawn { task, woken }),
        design is Injector || states[k].is_whole(),
    ensures
        states[k].pending(task) + states[k].finished.count(task) >= 1,
        states[k].pending(task) > 0 ==> exists|step: Step, post: PoolState| #[trigger]
            states[k].goes(step, post, design) && states[k].gets_on(step),
        states[k].is_over() ==> states[k].finished.count(task) >= 1,
{
    broadcast use vstd::seq_lib::group_to_multiset_ensures;

    lemma_run(states, steps, n, design, k);
    let s = states[k];
    assert(states[j].goes(steps[j], states[j + 1], design));
    lemma_spawned_grows(states, steps, n, design, j + 1, k, task);
    assert(states[j + 1].spawned.to_multiset().count(task) >= 1);
    assert(s.is_accounted_for(task));
    if s.pending(task) > 0 {
        law_no_lost_wakeup(states, steps, n, design, k, task);
        let w = choose|i: int| #[trigger] s.is_awake(i);
        lemma_gets_on(s, n, design, w);
    }
    if s.is_over() {
        law_join_waits_for_all(states, steps, n, design, k);
    }
}

/// A pool of no workers that is given one.
pub open spec fn staffed(s: PoolState) -> PoolState {
    PoolState {
        workers: seq![WorkerState { phase: Phase::Fetch, local: Seq::empty() }],
        fallen: seq![false],
        threads: 1,
        ..s
    }
}

/// Nothing but spawning and shutting down happens in a pool of no workers, and it shuts down for
/// good.
proof fn lemma_without_workers(
    states: Seq<PoolState>,
    steps: Seq<Step>,
    design: Design,
    j: int,
    k: int,
)
    requires
        is_run(states, steps, 0, design),
        0 <= j <= k < states.len(),
        !states[k].shutdown,
    ensures
        !states[j].shutdown,
        j < k ==> steps[j] is Spawn,
    decreases k - j,
{
    if j < k {
        lemma_without_workers(states, steps, design, j + 1, k);
        lemma_run(states, steps, 0, design, j);
        assert(states[j].goes(steps[j], states[j + 1], design));
    }
}

/// A pool of no workers that is given one before it shuts down is then in a state that a pool of
/// one worker can get into, so that whatever holds of that holds of it from there on. In
/// particular, when that worker has left, every task that was ever spawned has been run.
pub proof fn law_a_staffed_pool_is_a_pool_of_one(
    states: Seq<PoolState>,
    steps: Seq<Step>,
    design: Design,
    k: int,
)
    requires
        is_run(states, steps, 0, design),
        0 <= k < states.len(),
        !states[k].shutdown,
    ensures
        exists|others: Seq<PoolState>, same: Seq<Step>| #[trigger]
            is_run(others, same, 1, design) && others.last() == staffed(states[k]),
{
    let others = Seq::new((k + 1) as nat, |i: int| staffed(states[i]));
    let same = steps.take(k);
    assert(others[0].fallen =~= Seq::new(1, |i: int| false));
    assert forall|i: int| #![trigger same[i]] 0 <= i < same.len() implies others[i].goes(
        same[i],
        others[i + 1],
        design,
    ) by {
        lemma_without_workers(states, steps, design, i, k);
        assert(states[i].goes(steps[i], states[i + 1], design));
        lemma_run(states, steps, 0, design, i);
    }
    assert(is_run(others, same, 1, design));
}

/// Getting on comes to an end: whenever a worker gets on, or dies of a panic, there is either less
/// left to do, or as much, and the workers are nearer to sleeping or to leaving their loops. So a
/// pool comes to rest when no more tasks are spawned, and to its end when it shuts down.
pub proof fn law_getting_on_comes_to_an_end(
    states: Seq<PoolState>,
    steps: Seq<Step>,
    n: int,
    design: Design,
    k: int,
)
    requires
        is_run(states, steps, n, design),
        n <= usize::MAX,
        0 <= k < steps.len(),
        states[k].gets_on(steps[k]) || steps[k] is Crash || steps[k] is Fall,
    ensures
        states[k + 1].shutdown == states[k].shutdown,
        decreases_to!(
            states[k].work(), states[k].distance(design) =>
            states[k + 1].work(), states[k + 1].distance(design)
        ),
{
    lemma_run(states, steps, n, design, k);
    lemma_run(states, steps, n, design, k + 1);
    let s = states[k];
    let post = states[k + 1];
    assert(s.goes(steps[k], post, design));
    let f = |w: WorkerState| load(w);
    match steps[k] {
        Step::Crash { worker } => {
            lemma_worker_update(s.workers, worker, awoken(s.workers[worker]), f);
        },
        Step::Fall { worker } => {
            lemma_worker_update(s.workers, worker, gone(s.workers[worker]), f);
        },
        Step::Act { worker, event, batch } => {
            let me = s.workers[worker];
            let mine = post.workers[worker];
            assert(worker_inv(s, worker, n, design));
            assert(worker_inv(post, worker, n, design));
            match event {
                Event::Peer(Reply::Success(_)) => {
                    let peer = me.phase->peer as int;
                    let left = post.workers[peer];
                    lemma_worker_update(s.workers, peer, left, f);
                    lemma_worker_update(s.workers.update(peer, left), worker, mine, f);
                },
                _ => {
                    lemma_worker_update(s.workers, worker, mine, f);
                    if post.work() == s.work() {
                        assert(post.global =~= s.global);
                        let before = Seq::new(n as nat, |i: int| s.way(i, design));
                        let after = Seq::new(n as nat, |i: int| post.way(i, design));
                        assert(after =~= before.update(worker, post.way(worker, design)));
                        lemma_sum_update(before, worker, post.way(worker, design));
                    }
                },
            }
        },
        _ => {},
    }
}

} // verus!
