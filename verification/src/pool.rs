//! A pool and the builder that configures it.

use crossbeam::deque::{Injector, Worker};
use std::sync::Arc;
use vstd::prelude::*;

use crate::phase::Event;
use crate::queues;
use crate::queues::{
    backlog, injector_made_with, is_tail, ledger, lemma_one_more_deal, Deal, Inlet,
};
use crate::worker::{
    are_seated, copy_name, name_view, seat_workers, Intake, ThreadSettings, WorkerContext,
};

verus! {

/// How many tasks a worker likes to have at hand. It tops off its own queue up to here.
pub const IDEAL_WORKER_BACKLOG: usize = 10;

/// The last `n` tasks of a queue.
pub open spec fn last_tasks(queue: Seq<u64>, n: int) -> Seq<u64> {
    queue.skip(queue.len() - n)
}

impl Intake for Injector<u64> {
    open spec fn entered(&self) -> Set<u64> {
        queues::injected(*self)
    }

    /// A worker asks the shared queue for as many tasks as its backlog lacks. The first of those it
    /// gets is handed out to be run, and only the others enter its own queue. A worker with a full
    /// backlog asks for none.
    open spec fn tops_off(
        left: usize,
        event: Event,
        before: Seq<u64>,
        after: Seq<u64>,
        batch: Seq<u64>,
    ) -> bool {
        match event {
            Event::Global { limit, reply } => {
                let held = IDEAL_WORKER_BACKLOG - limit;
                &&& 0 < limit
                &&& 0 <= held <= before.len()
                &&& after == last_tasks(before, held) + batch
                &&& batch.len() < limit
                &&& reply is Success || batch.len() == 0
            },
            Event::Filled => {
                &&& is_tail(after, before)
                &&& after.len() >= IDEAL_WORKER_BACKLOG
                &&& batch.len() == 0
            },
            _ => false,
        }
    }

    /// The shared queue is asked once, for as many tasks as the event says, and what it gave
    /// besides the task that is handed out is what enters the worker's queue.
    open spec fn deals(&self, left: usize, event: Event, batch: Seq<u64>) -> Seq<Deal> {
        match event {
            Event::Global { limit, reply } => seq![
                Deal::Fetched { shared: *self, limit, reply, batch },
            ],
            _ => Seq::empty(),
        }
    }

    fn top_off(&self, queue: &mut Worker<u64>, left: usize) -> (event: Event)
        ensures
            event is Global || event is Filled,
            event is Filled ==> {
                &&& ledger(*final(queue)) == ledger(*old(queue))
                &&& backlog(*final(queue)).len() >= IDEAL_WORKER_BACKLOG
            },
            event matches Event::Global { limit, reply } ==> {
                &&& 0 < limit <= IDEAL_WORKER_BACKLOG
                &&& IDEAL_WORKER_BACKLOG - limit <= backlog(*final(queue)).len()
                    < IDEAL_WORKER_BACKLOG
                &&& ledger(*final(queue)) == ledger(*old(queue)).push(
                    (Deal::Fetched {
                        shared: *self,
                        limit,
                        reply,
                        batch: backlog(*final(queue)).skip(IDEAL_WORKER_BACKLOG - limit),
                    }),
                )
            },
    {
        let held: usize = queues::len(queue);
        let ghost before = backlog(*old(queue));
        let ghost kept = backlog(*queue);
        let ghost books = ledger(*queue);
        let limit: usize = IDEAL_WORKER_BACKLOG.saturating_sub(held);
        if limit == 0 {
            let event = Event::Filled;
            proof {
                let none = Seq::<u64>::empty();
                assert(kept.skip(kept.len() as int) =~= none);
                assert(kept.take(kept.len() as int) =~= kept);
                assert(Self::tops_off(left, event, before, kept, none));
                assert(books + self.deals(left, event, none) =~= books);
                assert(queues::added(books) + none =~= queues::added(books));
                assert(queues::handed(books) + none =~= queues::handed(books));
            }
            return event;
        }
        let reply = queues::steal_global(self, queue, limit);
        let event = Event::Global { limit, reply };
        proof {
            let after = backlog(*queue);
            let batch = after.skip(kept.len() as int);
            lemma_one_more_deal(books, Deal::Fetched { shared: *self, limit, reply, batch });
            assert(after.take(kept.len() as int) =~= kept);
            assert(Self::tops_off(left, event, before, after, batch));
            assert(ledger(*queue) =~= books + self.deals(left, event, batch));
        }
        event
    }

    open spec fn look(&self, empty: bool) -> Deal {
        Deal::Looked { shared: *self, empty }
    }

    fn is_empty(&self, queue: &mut Worker<u64>) -> (empty: bool) {
        let empty = queues::injector_is_empty(self, queue);
        proof {
            let books = ledger(*old(queue));
            lemma_one_more_deal(books, self.look(empty));
            assert(queues::added(books) + Seq::<u64>::empty() =~= queues::added(books));
            assert(queues::handed(books) + Seq::<u64>::empty() =~= queues::handed(books));
        }
        empty
    }
}

/// `num_cpus::get`: the number of logical processors that this machine lets the process use, at
/// least one.
#[verifier::external_body]
fn logical_cpus() -> (n: usize)
    ensures
        n >= 1,
{
    num_cpus::get()
}

/// Asks for a number.
fn ask<F: Fn() -> usize>(count: F) -> (n: usize)
    requires
        call_requires(count, ()),
    ensures
        call_ensures(count, (), n),
{
    count()
}

/// This is what the machine answers when it is asked for the number of its logical processors.
pub closed spec fn is_cpu_count(n: usize) -> bool {
    call_ensures(logical_cpus, (), n)
}

/// Nothing else is a number of logical processors than what was answered, and that is at least one.
proof fn law_processors_are_counted_by_the_machine(n: usize)
    requires
        is_cpu_count(n),
    ensures
        call_ensures(logical_cpus, (), n),
        n >= 1,
{
}

/// The settings of a pool that is yet to be built.
pub struct Settings {
    pub num_threads: Option<usize>,
    pub thread_name: Option<Seq<char>>,
    pub thread_stack_size: Option<usize>,
}

/// Used to generate a configured [`ThreadPool`] by calling `.build()`. Caller can specify number of
/// threads for the pool, a name for logging purposes, and a preferred thread stack size.
pub struct ThreadPoolBuilder {
    num_threads: Option<usize>,
    thread_name: Option<String>,
    thread_stack_size: Option<usize>,
}

impl View for ThreadPoolBuilder {
    type V = Settings;

    closed spec fn view(&self) -> Settings {
        Settings {
            num_threads: self.num_threads,
            thread_name: name_view(self.thread_name),
            thread_stack_size: self.thread_stack_size,
        }
    }
}

impl Default for ThreadPoolBuilder {
    /// A builder with nothing specified.
    fn default() -> (builder: ThreadPoolBuilder)
        ensures
            builder@ == (Settings { num_threads: None, thread_name: None, thread_stack_size: None }),
    {
        ThreadPoolBuilder { num_threads: None, thread_name: None, thread_stack_size: None }
    }
}

impl Clone for ThreadPoolBuilder {
    /// A builder with the same settings.
    fn clone(&self) -> (builder: ThreadPoolBuilder)
        ensures
            builder@ == self@,
    {
        ThreadPoolBuilder {
            num_threads: self.num_threads,
            thread_name: copy_name(&self.thread_name),
            thread_stack_size: self.thread_stack_size,
        }
    }
}

/// Which sleeping workers are to be woken.
#[derive(Clone, Copy, Debug, PartialEq, Eq, Structural)]
pub enum Notify {
    /// One of them, if there is one.
    One,
    /// All of them.
    All,
}

/// The way by which tasks enter a pool, whether it shuts down, the number of its workers, how
/// their threads are to be set up, and the workers whose threads have not been started yet. A task
/// is known by its number.
pub struct ThreadPool {
    inlet: Inlet<Injector<u64>>,
    closing: bool,
    size: usize,
    settings: ThreadSettings,
    workers: Vec<WorkerContext<Injector<u64>>>,
}

impl ThreadPoolBuilder {
    /// What is said of a builder is said of what it holds.
    proof fn law_a_builder_is_what_it_holds(self)
        ensures
            self@.num_threads == self.num_threads,
            self@.thread_stack_size == self.thread_stack_size,
            match self.thread_name {
                Some(text) => self@.thread_name == Some(text@),
                None => self@.thread_name is None,
            },
    {
    }

    /// Used to select the number of threads you want your [`ThreadPool`] to manage. Defaults to the
    /// number of logical CPUs if not specified.
    pub fn with_threads(self, num_threads: usize) -> (builder: Self)
        ensures
            builder@ == (Settings { num_threads: Some(num_threads), ..self@ }),
    {
        ThreadPoolBuilder { num_threads: Some(num_threads), ..self }
    }

    /// Used to give your pool a name for logging purposes.
    pub fn with_thread_name<S: Into<String>>(self, name: S) -> (builder: Self)
        ensures
            exists|text: String|
                {
                    &&& #[trigger] call_ensures(<S as Into<String>>::into, (name,), text)
                    &&& builder@ == (Settings { thread_name: Some(text@), ..self@ })
                },
    {
        self.with_owned_name(name.into())
    }

    /// Used to give your pool a name that is already a `String`.
    pub fn with_owned_name(self, name: String) -> (builder: Self)
        ensures
            builder@ == (Settings { thread_name: Some(name@), ..self@ }),
    {
        ThreadPoolBuilder { thread_name: Some(name), ..self }
    }

    /// Used to specify desired stack size for your worker threads.
    pub fn with_stack_size(self, stack_size: usize) -> (builder: Self)
        ensures
            builder@ == (Settings { thread_stack_size: Some(stack_size), ..self@ }),
    {
        ThreadPoolBuilder { thread_stack_size: Some(stack_size), ..self }
    }

    /// Generates a [`ThreadPool`] with settings specified by the [`ThreadPoolBuilder`]. Without a
    /// number of threads it has one for each logical processor.
    pub fn build(self) -> (pool: ThreadPool)
        ensures
            pool.is_fresh(self@),
            match self@.num_threads {
                Some(n) => pool.waiting().len() == n,
                None => pool.waiting().len() >= 1,
            },
            self@.num_threads is None ==> exists|cpus: usize| #[trigger]
                is_cpu_count(cpus) && pool.waiting().len() == cpus,
    {
        let cpus: usize = ask(logical_cpus);
        assert(is_cpu_count(cpus));
        self.build_on(cpus)
    }

    /// Generates a [`ThreadPool`] with settings specified by the [`ThreadPoolBuilder`], on a
    /// machine of `cpus` logical processors. Without a number of threads it has one for each of
    /// them.
    pub fn build_on(self, cpus: usize) -> (pool: ThreadPool)
        ensures
            pool.is_fresh(self@),
            pool.waiting().len() == (match self@.num_threads {
                Some(n) => n,
                None => cpus,
            }),
    {
        let num_workers: usize = match self.num_threads {
            Some(n) => n,
            None => cpus,
        };
        self.build_workers(num_workers)
    }

    /// Generates a [`ThreadPool`] of `num_workers` workers, whatever number the builder specifies.
    pub fn build_workers(self, num_workers: usize) -> (pool: ThreadPool)
        ensures
            pool.is_fresh(self@),
            pool.waiting().len() == num_workers,
    {
        let inlet = Inlet::new(queues::new_injector());
        let settings = ThreadSettings {
            name: self.thread_name,
            stack_size: self.thread_stack_size,
        };
        let workers = seat_workers(num_workers, &inlet.outlet(), &settings);
        ThreadPool { inlet, closing: false, size: num_workers, settings, workers }
    }
}

impl ThreadPool {
    /// The workers whose threads have not been started yet.
    pub closed spec fn waiting(self) -> Seq<WorkerContext<Injector<u64>>> {
        self.workers@
    }

    /// The queue that tasks enter by.
    pub closed spec fn shared_queue(self) -> Arc<Injector<u64>> {
        self.inlet.leads_into()
    }

    /// The tasks that were spawned in the pool, in that order: all that ever entered its shared
    /// queue.
    pub closed spec fn spawned(self) -> Seq<u64> {
        self.inlet.posted()
    }

    /// The pool shuts down.
    pub closed spec fn shuts_down(self) -> bool {
        self.closing
    }

    /// The number of workers of the pool.
    pub closed spec fn spec_size(self) -> nat {
        self.size as nat
    }

    /// The name that the threads of the pool are to have.
    pub closed spec fn spec_name(self) -> Option<Seq<char>> {
        name_view(self.settings.name)
    }

    /// The stack size that the threads of the pool are to have.
    pub closed spec fn spec_stack_size(self) -> Option<usize> {
        self.settings.stack_size
    }

    /// It is still the same pool: it has the same shared queue, and its threads are set up alike.
    pub open spec fn is_same(self, other: ThreadPool) -> bool {
        &&& self.shared_queue() == other.shared_queue()
        &&& self.spec_name() == other.spec_name()
        &&& self.spec_stack_size() == other.spec_stack_size()
    }

    /// This is `other` with a worker at least: where `other` has none, it has one that is alone in
    /// the pool and stands at the start of its loop.
    pub open spec fn is_staffed(self, other: ThreadPool) -> bool {
        if other.spec_size() == 0 {
            &&& self.spec_size() == 1
            &&& self.waiting().len() == 1
            &&& are_seated(
                self.waiting(),
                other.shared_queue(),
                other.spec_name(),
                other.spec_stack_size(),
            )
        } else {
            self.spec_size() == other.spec_size() && self.waiting() == other.waiting()
        }
    }

    /// A pool as it is built with `settings`: it does not shut down, and its queues are empty.
    pub open spec fn is_fresh(self, settings: Settings) -> bool {
        &&& self.spec_size() == self.waiting().len()
        &&& self.spec_name() == settings.thread_name
        &&& self.spec_stack_size() == settings.thread_stack_size
        &&& are_seated(
            self.waiting(),
            self.shared_queue(),
            settings.thread_name,
            settings.thread_stack_size,
        )
        &&& injector_made_with(*self.shared_queue()) == Seq::<u64>::empty()
        &&& self.spawned() == Seq::<u64>::empty()
        &&& !self.shuts_down()
    }

    /// What is said of a pool is said of what it holds.
    proof fn law_a_pool_is_what_it_holds(self)
        ensures
            self.waiting() == self.workers@,
            self.shared_queue() == self.inlet.leads_into(),
            self.spawned() == self.inlet.posted(),
            self.shuts_down() == self.closing,
            self.spec_size() == self.size,
            self.spec_stack_size() == self.settings.stack_size,
            match self.settings.name {
                Some(text) => self.spec_name() == Some(text@),
                None => self.spec_name() is None,
            },
    {
    }

    /// Returns a blank [`ThreadPoolBuilder`].
    pub fn builder() -> (builder: ThreadPoolBuilder)
        ensures
            builder@ == (Settings { num_threads: None, thread_name: None, thread_stack_size: None }),
    {
        ThreadPoolBuilder::default()
    }

    /// Hands over the workers whose threads have not been started yet.
    pub fn take_workers(&mut self) -> (workers: Vec<WorkerContext<Injector<u64>>>)
        ensures
            workers@ == old(self).waiting(),
            final(self).waiting() == Seq::<WorkerContext<Injector<u64>>>::empty(),
            final(self).is_same(*old(self)),
            final(self).spawned() == old(self).spawned(),
            final(self).spec_size() == old(self).spec_size(),
            final(self).shuts_down() == old(self).shuts_down(),
    {
        let mut workers: Vec<WorkerContext<Injector<u64>>> = Vec::new();
        std::mem::swap(&mut self.workers, &mut workers);
        workers
    }

    /// Puts a task in the pool's shared queue for assignment, once and after all others. One
    /// sleeping worker is to be woken for it. The caller holds the lock that guards sleeping until
    /// it has done that.
    pub fn spawn(&mut self, task: u64) -> (wake: Notify)
        ensures
            wake == Notify::One,
            final(self).spawned() == old(self).spawned().push(task),
            final(self).shared_queue().entered().contains(task),
            final(self).is_same(*old(self)),
            final(self).spec_size() == old(self).spec_size(),
            final(self).waiting() == old(self).waiting(),
            final(self).shuts_down() == old(self).shuts_down(),
    {
        queues::inject(&mut self.inlet, task);
        Notify::One
    }

    /// Shuts the pool down: a worker that is told so and finds no task left leaves its loop. Every
    /// sleeping worker is to be woken for it. The caller holds the lock that guards sleeping.
    pub fn shut_down(&mut self) -> (wake: Notify)
        ensures
            final(self).shuts_down(),
            final(self).is_same(*old(self)),
            final(self).spawned() == old(self).spawned(),
            final(self).spec_size() == old(self).spec_size(),
            final(self).waiting() == old(self).waiting(),
            wake == Notify::All,
    {
        self.closing = true;
        Notify::All
    }

    /// Whether the pool shuts down, which is what a worker is told when it is about to sleep.
    pub fn is_closing(&self) -> (closing: bool)
        ensures
            closing == self.shuts_down(),
    {
        self.closing
    }

    /// Gives a pool that was built with no workers one, whose thread is yet to be started, so that
    /// the tasks that were spawned in it get run.
    pub fn staff(&mut self)
        ensures
            final(self).is_staffed(*old(self)),
            final(self).is_same(*old(self)),
            final(self).spawned() == old(self).spawned(),
            final(self).shuts_down() == old(self).shuts_down(),
    {
        if self.size == 0 {
            self.workers = seat_workers(1, &self.inlet.outlet(), &self.settings);
            self.size = 1;
        }
    }

    /// Shuts the pool down for good, and hands over what is left of it to whoever waits for its
    /// workers. When they have left, all spawned tasks are complete: a pool of no workers is given
    /// one for that.
    pub fn join(self) -> (rest: (ThreadPool, Notify))
        ensures
            rest.0.shuts_down(),
            rest.0.spec_size() >= 1,
            rest.0.is_staffed(self),
            rest.0.is_same(self),
            rest.0.spawned() == self.spawned(),
            rest.1 == Notify::All,
    {
        let mut pool = self;
        pool.staff();
        let wake = pool.shut_down();
        (pool, wake)
    }
}

} // verus!
