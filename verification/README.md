# dreadpool

A work-stealing thread pool whose decisions are verified with Verus.

Tasks enter a pool by a queue that all its workers share. A worker loops in the following order:

1. It tops off its own queue from the shared one, up to a target size.
2. It runs a task: the first of those it just took from the shared queue, or else the first of its
   own queue.
3. If it has nothing to run, it steals a batch of tasks from the first other worker that has some.
4. If there is no work on anyone's queue, it decides under a lock what to do: start over if a task
   has come in meanwhile, leave if the pool shuts down, and otherwise sleep until it is woken.

The queues are those of the `crossbeam` crate.

## Layout

- `src/` is the library. It makes every decision and every call on a queue, but starts no thread and
  takes no lock.
  - `pool.rs`: `ThreadPoolBuilder` and `ThreadPool`.
  - `seg.rs`: a plainer pool on a `SegQueue`.
  - `worker.rs`: one worker of either pool, and its way through the loop.
  - `phase.rs`: what a worker does next, one event at a time.
  - `numbering.rs`: the numbers by which tasks are known.
  - `queues.rs`: what is relied on of the `crossbeam` queues.
  - `model.rs`: the pool as a whole, one step at a time.
  - `laws.rs`: what holds of it in every state.
  - `scene.rs`: why the code takes no other steps than the model.
- `app/` is ordinary Rust around it: it starts the threads, runs the closures, sleeps and wakes.
- `tests/` runs the library, on one thread and on many.

## Laws

In every state that the steps of the model lead to from a new pool:

- no task is lost and none is run more often than it was spawned;
- when every worker has left, every task has been run;
- a worker leaves only when the pool shuts down and its own queue and the shared one are empty;
- as long as there is a task, some worker is awake, and one that was spawned gets run;
- no more tasks are run at once than there are workers;
- once the pool shuts down nobody sleeps, somebody can always get on, and getting on comes to an end;
- a task that panics costs the pool neither a worker nor another task.

Code that does what the contracts say takes these steps and no others, provided that the queues and
the lock tell the truth: tasks enter the shared queue only when they are spawned, once each, and what a
worker reports of a queue is what that told it. That `crossbeam`'s queues tell the truth is not proved
here.

The second and the fourth law take a pool that has a worker. A pool may be built with none; when it is
joined it is given one, and is from then on like a pool of one worker.

The plain pool does not replace a thread that dies of a panic, which costs it the worker that ran the
task. What is said here of tasks that are left over, of waking and of getting run takes, for a plain
pool, that no thread has died. A plain pool of one worker runs its tasks in the order in which they
were spawned.
