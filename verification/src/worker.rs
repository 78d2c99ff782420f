//! One worker of a pool: its own queue, the queues it shares, and a pass through its loop.

use crossbeam::deque::{Stealer, Worker};
use std::sync::Arc;
use vstd::prelude::*;

use crate::passes::law_a_worker_parks_only_after_asking_everyone;
use crate::phase::{Event, Phase, Reply};
use crate::queues;
use crate::queues::{
    added, all_in, backlog, handed, is_fifo, is_tail, is_topped, ledger, lemma_one_more_deal,
    same_queue, stealable, stealer_of, Deal, MAX_PEER_BATCH,
};

verus! {

/// A worker as seen by its own thread: where it stands, and what its own queue can hold.
pub struct WorkerState {
    pub phase: Phase,
    pub local: Seq<u64>,
}

/// The task that an event hands to a worker to be run.
pub open spec fn task_of(event: Event) -> Seq<u64> {
    match event {
        Event::Global { reply: Reply::Success(task), .. } => seq![task],
        Event::Local(Some(task)) => seq![task],
        Event::Peer(Reply::Success(task)) => seq![task],
        _ => Seq::empty(),
    }
}

/// The task that a worker in this phase has to run.
pub open spec fn task_in(phase: Phase) -> Seq<u64> {
    match phase {
        Phase::Run { task, .. } => seq![task],
        _ => Seq::empty(),
    }
}

/// A queue that all workers of a pool share and that tasks enter the pool by.
pub trait Intake: Sized {
    /// The tasks that ever enter the pool by this queue.
    spec fn entered(&self) -> Set<u64>;

    /// What an event of topping off does to the worker's own queue: `batch` is added to it. The
    /// worker was still to move up to `left` tasks, or had not begun yet.
    spec fn tops_off(
        left: usize,
        event: Event,
        before: Seq<u64>,
        after: Seq<u64>,
        batch: Seq<u64>,
    ) -> bool;

    /// What an event of topping off that adds `batch` leaves on the ledger of the worker's queue.
    /// The worker was still to move up to `left` tasks, or had not begun yet.
    spec fn deals(&self, left: usize, event: Event, batch: Seq<u64>) -> Seq<Deal>;

    /// What asking whether this queue is empty leaves on the ledger of the worker's queue.
    spec fn look(&self, empty: bool) -> Deal;

    /// Tops off a worker's own queue from this one, or goes on with that where up to `left` tasks
    /// are still to be moved. Every task that it hands out or adds there has entered the pool by
    /// this queue.
    fn top_off(&self, queue: &mut Worker<u64>, left: usize) -> (event: Event)
        requires
            is_fifo(*old(queue)),
        ensures
            Phase::Fetch.admits(event),
            event matches Event::Pulled { left: rest, .. } ==> (left > 0 ==> rest < left),
            all_in(task_of(event), self.entered()),
            exists|batch: Seq<u64>|
                {
                    &&& #[trigger] Self::tops_off(
                        left,
                        event,
                        backlog(*old(queue)),
                        backlog(*final(queue)),
                        batch,
                    )
                    &&& is_topped(backlog(*old(queue)), backlog(*final(queue)), batch)
                    &&& all_in(batch, self.entered())
                    &&& all_in(batch, stealable(stealer_of(*final(queue))))
                    &&& ledger(*final(queue)) == ledger(*old(queue)) + self.deals(
                        left,
                        event,
                        batch,
                    )
                    &&& added(ledger(*final(queue))) == added(ledger(*old(queue))) + batch
                    &&& handed(ledger(*final(queue))) == handed(ledger(*old(queue))) + task_of(
                        event,
                    )
                },
            same_queue(*old(queue), *final(queue)),
    ;

    /// Whether the queue was empty at that moment, as the worker that owns `queue` asks. One that
    /// no task ever enters is always empty.
    fn is_empty(&self, queue: &mut Worker<u64>) -> (empty: bool)
        ensures
            !empty ==> self.entered() != Set::<u64>::empty(),
            backlog(*final(queue)) == backlog(*old(queue)),
            ledger(*final(queue)) == ledger(*old(queue)).push(self.look(empty)),
            added(ledger(*final(queue))) == added(ledger(*old(queue))),
            handed(ledger(*final(queue))) == handed(ledger(*old(queue))),
            same_queue(*old(queue), *final(queue)),
    ;
}

/// What an event does to the own queue of a worker in `phase`: it adds `batch`.
///
/// - Topping off goes by the shared queue.
/// - The worker's own queue hands out the task at the front; where it hands out none it is empty.
/// - A batch from another worker enters the queue but for its first task.
pub open spec fn effect<G: Intake>(
    phase: Phase,
    event: Event,
    before: Seq<u64>,
    after: Seq<u64>,
    batch: Seq<u64>,
) -> bool {
    match event {
        Event::Filled | Event::Dry | Event::Global { .. } | Event::Pulled { .. } => G::tops_off(
            phase.moves_left(),
            event,
            before,
            after,
            batch,
        ),
        Event::Local(Some(task)) => is_tail(seq![task] + after, before) && batch.len() == 0,
        Event::Local(None) => after == Seq::<u64>::empty() && batch.len() == 0,
        Event::Peer(Reply::Success(_)) => after == before + batch && batch.len() < MAX_PEER_BATCH,
        _ => after == before && batch.len() == 0,
    }
}

/// Worker number `id` of `peers` goes from `pre` to `post` on `event`, which adds `batch` to its
/// own queue.
pub open spec fn moves<G: Intake>(
    pre: WorkerState,
    event: Event,
    batch: Seq<u64>,
    post: WorkerState,
    id: int,
    peers: int,
) -> bool {
    &&& pre.phase.admits(event)
    &&& post.phase == pre.phase.after(event, id, peers)
    &&& effect::<G>(pre.phase, event, pre.local, post.local, batch)
}

/// The place of a worker in its pool: the queue that all workers share, the handles of their own
/// queues by index, and its own index.
pub struct Seat<G> {
    pub global: G,
    pub handles: Seq<Stealer<u64>>,
    pub id: int,
}

impl<G: Intake> Seat<G> {
    /// What an event that adds `batch` leaves on the ledger of the own queue of a worker that sits
    /// here and is in `phase`: which queue was asked for tasks, and what came of that.
    pub open spec fn deals(self, phase: Phase, event: Event, batch: Seq<u64>) -> Seq<Deal> {
        match event {
            Event::Filled | Event::Dry | Event::Global { .. } | Event::Pulled {
                ..
            } => self.global.deals(phase.moves_left(), event, batch),
            Event::Local(task) => seq![Deal::Popped(task)],
            Event::Peer(reply) => seq![
                Deal::Stolen { peer: self.handles[phase->peer as int], reply, batch },
            ],
            Event::Checked { global_empty, .. } => seq![self.global.look(global_empty)],
            _ => Seq::empty(),
        }
    }

    /// The tasks that the queue that is asked for tasks in this phase ever holds.
    pub open spec fn source(self, phase: Phase) -> Set<u64> {
        match phase {
            Phase::Drain => stealable(self.handles[self.id]),
            Phase::Scan { peer, .. } => stealable(self.handles[peer as int]),
            _ => self.global.entered(),
        }
    }
}

/// One event of a pass through the loop, what it adds to the worker's own queue, and the worker
/// before and after it.
pub struct Entry {
    pub before: WorkerState,
    pub event: Event,
    pub batch: Seq<u64>,
    pub after: WorkerState,
}

/// `log` leads a worker that sits at `seat` from `pre` to `post`, and all that it does is to ask
/// queues for tasks.
pub open spec fn leads<G: Intake>(
    seat: Seat<G>,
    pre: WorkerState,
    log: Seq<Entry>,
    post: WorkerState,
) -> bool {
    &&& forall|i: int|
        #![trigger log[i]]
        0 <= i < log.len() ==> {
            &&& log[i].before.phase.asks()
            &&& moves::<G>(
                log[i].before,
                log[i].event,
                log[i].batch,
                log[i].after,
                seat.id,
                seat.handles.len() as int,
            )
            &&& all_in(task_of(log[i].event), seat.source(log[i].before.phase))
            &&& all_in(log[i].batch, seat.source(log[i].before.phase))
        }
    &&& forall|i: int, j: int|
        #![trigger log[i], log[j]]
        0 <= i < log.len() && j == i + 1 && j < log.len() ==> log[i].after == log[j].before
    &&& if log.len() == 0 {
        post == pre
    } else {
        log.first().before == pre && log.last().after == post
    }
}

/// What a log leaves on the ledger of the worker's queue.
pub open spec fn log_deals<G: Intake>(seat: Seat<G>, log: Seq<Entry>) -> Seq<Deal>
    decreases log.len(),
{
    if log.len() == 0 {
        Seq::empty()
    } else {
        let last = log.last();
        log_deals(seat, log.drop_last()) + seat.deals(last.before.phase, last.event, last.batch)
    }
}

/// A log can be continued by one more event.
proof fn lemma_leads_on<G: Intake>(
    seat: Seat<G>,
    pre: WorkerState,
    log: Seq<Entry>,
    entry: Entry,
)
    requires
        leads(seat, pre, log, entry.before),
        entry.before.phase.asks(),
        moves::<G>(
            entry.before,
            entry.event,
            entry.batch,
            entry.after,
            seat.id,
            seat.handles.len() as int,
        ),
        all_in(task_of(entry.event), seat.source(entry.before.phase)),
        all_in(entry.batch, seat.source(entry.before.phase)),
    ensures
        leads(seat, pre, log.push(entry), entry.after),
        log_deals(seat, log.push(entry)) == log_deals(seat, log) + seat.deals(
            entry.before.phase,
            entry.event,
            entry.batch,
        ),
{
    assert(log.push(entry).drop_last() =~= log);
}

/// What is left of a queue once some tasks have gone from its front, and a batch that was added to
/// it, are a tail of all that was ever added.
proof fn lemma_tail_of_all(
    all: Seq<u64>,
    before: Seq<u64>,
    after: Seq<u64>,
    batch: Seq<u64>,
    tasks: Set<u64>,
)
    requires
        is_tail(before, all),
        is_topped(before, after, batch),
        all_in(before, tasks),
        all_in(batch, tasks),
    ensures
        is_tail(after, all + batch),
        all_in(after, tasks),
{
    let kept = after.take(after.len() - batch.len());
    assert(after =~= kept + batch);
    let longer = all + batch;
    assert(kept =~= all.skip(all.len() - kept.len()));
    assert(after =~= longer.skip(longer.len() - after.len()));
    assert forall|i: int| 0 <= i < after.len() implies tasks.contains(#[trigger] after[i]) by {
        if i < kept.len() {
            assert(kept[i] == before[before.len() - kept.len() + i]);
        } else {
            assert(after[i] == batch[i - kept.len()]);
        }
    }
}

/// How the thread of a worker is to be set up.
pub struct ThreadSettings {
    pub name: Option<String>,
    pub stack_size: Option<usize>,
}

/// The view of an optional string.
pub open spec fn name_view(name: Option<String>) -> Option<Seq<char>> {
    match name {
        Some(text) => Some(text@),
        None => None,
    }
}

/// A copy of an optional string.
pub(crate) fn copy_name(name: &Option<String>) -> (copy: Option<String>)
    ensures
        name_view(copy) == name_view(*name),
{
    match name {
        Some(text) => Some(text.clone()),
        None => None,
    }
}

/// Everything that a worker thread needs to operate independently.
pub struct WorkerContext<G> {
    name: Option<String>,
    global: Arc<G>,
    queue: Worker<u64>,
    stealers: Arc<Vec<Stealer<u64>>>,
    id: usize,
    stack_size: Option<usize>,
    phase: Phase,
}

impl<G> View for WorkerContext<G> {
    type V = WorkerState;

    closed spec fn view(&self) -> WorkerState {
        WorkerState { phase: self.phase, local: backlog(self.queue) }
    }
}

impl<G: Intake> WorkerContext<G> {
    /// The worker's index in its pool.
    pub closed spec fn spec_id(self) -> int {
        self.id as int
    }

    /// The handles of the queues of all workers of the pool, by index.
    pub closed spec fn handles(self) -> Seq<Stealer<u64>> {
        self.stealers@
    }

    /// The number of workers of the pool.
    pub open spec fn peers(self) -> int {
        self.handles().len() as int
    }

    /// The handle of this worker's own queue.
    pub closed spec fn handle(self) -> Stealer<u64> {
        stealer_of(self.queue)
    }

    /// The queue that all workers of the pool share.
    pub closed spec fn shared_queue(self) -> Arc<G> {
        self.global
    }

    /// The worker's place in its pool.
    pub open spec fn seat(self) -> Seat<G> {
        Seat { global: *self.shared_queue(), handles: self.handles(), id: self.spec_id() }
    }

    /// What the worker did with its own queue so far.
    pub closed spec fn ledger(self) -> Seq<Deal> {
        ledger(self.queue)
    }

    /// All tasks that the worker was handed to run so far, in that order.
    pub open spec fn handed(self) -> Seq<u64> {
        handed(self.ledger())
    }

    /// The name that the worker's thread is to have.
    pub closed spec fn spec_name(self) -> Option<Seq<char>> {
        name_view(self.name)
    }

    /// The stack size that the worker's thread is to have.
    pub closed spec fn spec_stack_size(self) -> Option<usize> {
        self.stack_size
    }

    /// The worker's own queue is first-in first-out.
    pub closed spec fn runs_in_order(self) -> bool {
        is_fifo(self.queue)
    }

    /// The worker is one of its pool's and knows its own queue among theirs, so that a scan that
    /// leaves out its own index never steals from itself. Where it has left its own queue behind,
    /// it has left it empty. What is in its queue is what was added to that last.
    pub open spec fn wf(self) -> bool {
        &&& self.runs_in_order()
        &&& 0 <= self.spec_id() < self.peers()
        &&& self.handles()[self.spec_id()] == self.handle()
        &&& self@.phase.is_valid(self.spec_id(), self.peers())
        &&& self@.phase.is_drained() ==> self@.local.len() == 0
        &&& is_tail(self@.local, added(self.ledger()))
        &&& all_in(self@.local, stealable(self.handle()))
    }

    /// It is still the same worker of the same pool, with the same queue.
    pub open spec fn same_seat(self, other: WorkerContext<G>) -> bool {
        self.same_place(other) && self.handle() == other.handle()
    }

    /// It has the same place in the same pool.
    pub open spec fn same_place(self, other: WorkerContext<G>) -> bool {
        &&& self.spec_id() == other.spec_id()
        &&& self.handles() == other.handles()
        &&& self.shared_queue() == other.shared_queue()
        &&& self.spec_name() == other.spec_name()
        &&& self.spec_stack_size() == other.spec_stack_size()
    }

    /// What is said of a worker is said of what it holds: its queue, the queues that it shares, its
    /// number and phase, and what its thread is set up with.
    proof fn law_a_worker_is_what_it_holds(self)
        ensures
            self@.phase == self.phase,
            self@.local == backlog(self.queue),
            self.ledger() == ledger(self.queue),
            self.handle() == stealer_of(self.queue),
            self.runs_in_order() == is_fifo(self.queue),
            self.handles() == self.stealers@,
            self.shared_queue() == self.global,
            self.spec_id() == self.id,
            self.spec_stack_size() == self.stack_size,
            match self.name {
                Some(text) => self.spec_name() == Some(text@),
                None => self.spec_name() is None,
            },
    {
    }

    /// Worker number `id` of the pool whose queues `stealers` reaches. It owns `queue` and stands
    /// at the start of its loop.
    pub(crate) fn new(
        id: usize,
        queue: Worker<u64>,
        stealers: &Arc<Vec<Stealer<u64>>>,
        global: &Arc<G>,
        settings: ThreadSettings,
    ) -> (worker: WorkerContext<G>)
        requires
            is_fifo(queue),
            id < stealers@.len(),
            stealers@[id as int] == stealer_of(queue),
            is_tail(backlog(queue), added(ledger(queue))),
            all_in(backlog(queue), stealable(stealer_of(queue))),
        ensures
            worker.wf(),
            worker@ == (WorkerState { phase: Phase::Fetch, local: backlog(queue) }),
            worker.spec_id() == id,
            worker.handles() == stealers@,
            worker.handle() == stealer_of(queue),
            worker.ledger() == ledger(queue),
            worker.shared_queue() == *global,
            worker.spec_name() == name_view(settings.name),
            worker.spec_stack_size() == settings.stack_size,
    {
        WorkerContext {
            name: settings.name,
            global: Arc::clone(global),
            queue,
            stealers: Arc::clone(stealers),
            id,
            stack_size: settings.stack_size,
            phase: Phase::Fetch,
        }
    }

    /// Asks the next queue for a task and goes on to the phase that its reply leads to. The task
    /// that it is handed, and what is added to its own queue, come from the queue that it asked,
    /// and nothing else leaves or enters its queue.
    pub fn step(&mut self) -> (event: Event)
        requires
            old(self).wf(),
            old(self)@.phase.asks(),
        ensures
            final(self).wf(),
            final(self).same_seat(*old(self)),
            exists|batch: Seq<u64>|
                {
                    &&& #[trigger] moves::<G>(
                        old(self)@,
                        event,
                        batch,
                        final(self)@,
                        old(self).spec_id(),
                        old(self).peers(),
                    )
                    &&& all_in(batch, old(self).seat().source(old(self)@.phase))
                    &&& final(self).ledger() == old(self).ledger() + old(self).seat().deals(
                        old(self)@.phase,
                        event,
                        batch,
                    )
                },
            all_in(task_of(event), old(self).seat().source(old(self)@.phase)),
            final(self).handed() == old(self).handed() + task_in(final(self)@.phase),
            event matches Event::Pulled { left, .. } ==> (old(self)@.phase matches Phase::Fill {
                left: before,
            } ==> left < before),
            old(self)@.phase matches Phase::Scan { peer, .. } ==> {
                &&& event is Peer
                &&& final(self).ledger() == old(self).ledger().push(
                    (Deal::Stolen {
                        peer: old(self).handles()[peer as int],
                        reply: event->Peer_0,
                        batch: final(self)@.local.skip(old(self)@.local.len() as int),
                    }),
                )
                &&& final(self)@.local.take(old(self)@.local.len() as int) == old(self)@.local
            },
            old(self)@.phase is Drain ==> {
                &&& event is Local
                &&& final(self).ledger() == old(self).ledger().push(Deal::Popped(event->Local_0))
            },
            !(old(self)@.phase is Scan || old(self)@.phase is Drain) ==> {
                ||| event is Filled
                ||| event is Dry
                ||| event is Global
                ||| event is Pulled
            },
    {
        let ghost before = backlog(self.queue);
        let ghost books = ledger(self.queue);
        let ghost tasks = stealable(stealer_of(self.queue));
        let ghost mut batch = Seq::<u64>::empty();
        let event = match self.phase {
            Phase::Drain => {
                let task = queues::pop(&mut self.queue);
                proof {
                    let after = backlog(self.queue);
                    lemma_one_more_deal(books, Deal::Popped(task));
                    if let Some(t) = task {
                        let front = seq![t] + after;
                        assert(front[0] == before[before.len() - front.len()]);
                        assert(after =~= front.skip(1));
                    }
                    assert(after =~= before.skip(before.len() - after.len()));
                    assert(after.take(after.len() as int) =~= after);
                    assert(after.skip(after.len() as int) =~= batch);
                }
                Event::Local(task)
            },
            Phase::Scan { peer, .. } => {
                let reply = queues::steal_peer(&self.stealers[peer], &mut self.queue);
                proof {
                    let after = backlog(self.queue);
                    batch = after.skip(before.len() as int);
                    lemma_one_more_deal(
                        books,
                        Deal::Stolen { peer: self.stealers@[peer as int], reply, batch },
                    );
                    assert(after.take(before.len() as int) =~= before);
                    assert(before.skip(0) =~= before);
                    if batch.len() == 0 {
                        assert(after =~= before);
                    }
                }
                Event::Peer(reply)
            },
            _ => {
                let left: usize = self.phase.left_to_move();
                let event = self.global.top_off(&mut self.queue, left);
                proof {
                    batch = choose|batch: Seq<u64>|
                        {
                            &&& #[trigger] G::tops_off(
                                left,
                                event,
                                before,
                                backlog(self.queue),
                                batch,
                            )
                            &&& is_topped(before, backlog(self.queue), batch)
                            &&& all_in(batch, self.global.entered())
                            &&& all_in(batch, tasks)
                            &&& ledger(self.queue) == books + self.global.deals(
                                left,
                                event,
                                batch,
                            )
                            &&& added(ledger(self.queue)) == added(books) + batch
                            &&& handed(ledger(self.queue)) == handed(books) + task_of(event)
                        };
                }
                event
            },
        };
        proof {
            lemma_tail_of_all(added(books), before, backlog(self.queue), batch, tasks);
            assert(added(books) + Seq::<u64>::empty() =~= added(books));
            assert(ledger(self.queue) =~= books + old(self).seat().deals(
                old(self)@.phase,
                event,
                batch,
            ));
        }
        self.phase = self.phase.advance(event, self.id, self.stealers.len());
        proof {
            assert(moves::<G>(
                old(self)@,
                event,
                batch,
                self@,
                old(self).spec_id(),
                old(self).peers(),
            ));
            if let Phase::Scan { .. } = old(self)@.phase {
                assert(self@.local.skip(before.len() as int) =~= batch);
                assert(self@.local.take(before.len() as int) =~= before);
            }
        }
        event
    }

    /// Goes once through the loop: asks the shared queue, then the worker's own, then those of the
    /// other workers, until there is a task to run, or every queue was empty and the worker is to
    /// decide whether to sleep, or it is to start over. A worker that is not about to ask any queue
    /// stays where it is. Every task that the worker is handed on the way is the one that it then
    /// has to run.
    pub fn poll(&mut self) -> (phase: Phase)
        requires
            old(self).wf(),
        ensures
            final(self).wf(),
            final(self).same_seat(*old(self)),
            phase == final(self)@.phase,
            !old(self)@.phase.asks() ==> final(self)@ == old(self)@ && final(self).ledger() == old(
                self,
            ).ledger(),
            old(self)@.phase.asks() ==> phase is Fetch || phase is Run || phase is Park,
            old(self)@.phase.asks() ==> final(self).handed() == old(self).handed() + task_in(phase),
            exists|log: Seq<Entry>|
                {
                    &&& #[trigger] leads(old(self).seat(), old(self)@, log, final(self)@)
                    &&& log.len() == 0 <==> !old(self)@.phase.asks()
                    &&& final(self).ledger() == old(self).ledger() + log_deals(
                        old(self).seat(),
                        log,
                    )
                },
            old(self)@.phase.asks() && !(old(self)@.phase is Scan) && phase is Park ==> forall|
                j: int,
            |
                0 <= j < old(self).handles().len() && j != old(self).spec_id()
                    ==> final(self).ledger().skip(old(self).ledger().len() as int).contains(
                    (Deal::Stolen {
                        peer: #[trigger] old(self).handles()[j],
                        reply: Reply::Empty,
                        batch: Seq::empty(),
                    }),
                ),
    {
        let ghost seat = self.seat();
        let ghost books = self.ledger();
        let ghost before_all = self.handed();
        let ghost peers = self.peers();
        let ghost mut log: Seq<Entry> = Seq::empty();
        assert(leads(seat, self@, log, self@));
        assert(self.ledger() =~= books + log_deals(seat, log));
        assert(peers == self.stealers.len());
        if !self.phase.is_asking() {
            return self.phase;
        }
        loop
            invariant_except_break
                self@.phase.asks(),
                self.handed() == before_all,
                log.len() > 0 ==> !(self@.phase is Fetch),
            invariant
                self.wf(),
                self.same_seat(*old(self)),
                seat == old(self).seat(),
                books == old(self).ledger(),
                before_all == old(self).handed(),
                peers == old(self).peers(),
                peers <= usize::MAX,
                old(self)@.phase.asks(),
                leads(seat, old(self)@, log, self@),
                self.ledger() == books + log_deals(seat, log),
            ensures
                log.len() > 0,
                self.handed() == before_all + task_in(self@.phase),
                self@.phase is Fetch || self@.phase is Run || self@.phase is Park,
            decreases
                    if log.len() == 0 {
                        1int
                    } else {
                        0int
                    },
                    self@.phase.questions_left(peers),
        {
            let ghost before = self@;
            let ghost so_far = self.ledger();
            let event = self.step();
            proof {
                let batch = choose|batch: Seq<u64>|
                    {
                        &&& #[trigger] moves::<G>(before, event, batch, self@, seat.id, peers)
                        &&& all_in(batch, seat.source(before.phase))
                        &&& self.ledger() == so_far + seat.deals(before.phase, event, batch)
                    };
                let entry = Entry { before, event, batch, after: self@ };
                lemma_leads_on(seat, old(self)@, log, entry);
                assert(self.ledger() =~= books + log_deals(seat, log.push(entry)));
                log = log.push(entry);
            }
            if !self.phase.is_asking() || self.phase.is_start() {
                break;
            }
            assert(before_all + Seq::<u64>::empty() =~= before_all);
        }
        proof {
            if !(old(self)@.phase is Scan) && self@.phase is Park {
                let since = self.ledger().skip(books.len() as int);
                assert(since =~= log_deals(seat, log));
                assert forall|j: int| 0 <= j < seat.handles.len() && j != seat.id implies since.contains(
                    Deal::Stolen {
                        peer: #[trigger] seat.handles[j],
                        reply: Reply::Empty,
                        batch: Seq::empty(),
                    },
                ) by {
                    law_a_worker_parks_only_after_asking_everyone(
                        seat,
                        old(self)@,
                        log,
                        self@,
                        j,
                    );
                }
            }
        }
        self.phase
    }

    /// Decides, for a worker that found no task anywhere, whether it sleeps: it looks at the shared
    /// queue once more, and does not sleep if a task has meanwhile entered that, and not if the
    /// pool shuts down, in which case it leaves its loop. The caller holds the lock that guards
    /// sleeping, and knows by it whether the pool shuts down.
    pub fn check(&mut self, shutdown: bool) -> (event: Event)
        requires
            old(self).wf(),
            old(self)@.phase is Park,
        ensures
            final(self).wf(),
            final(self).same_seat(*old(self)),
            final(self).ledger() == old(self).ledger().push(
                old(self).shared_queue().look(event->global_empty),
            ),
            final(self).handed() == old(self).handed(),
            moves::<G>(
                old(self)@,
                event,
                Seq::empty(),
                final(self)@,
                old(self).spec_id(),
                old(self).peers(),
            ),
            event is Checked,
            event->shutdown == shutdown,
            final(self)@.phase is Done <==> event->global_empty && shutdown,
            final(self)@.phase is Asleep <==> event->global_empty && !shutdown,
            final(self)@.phase is Fetch <==> !event->global_empty,
            final(self)@.local == old(self)@.local,
            !event->global_empty ==> old(self).shared_queue().entered() != Set::<u64>::empty(),
    {
        let global_empty = self.global.is_empty(&mut self.queue);
        let event = Event::Checked { global_empty, shutdown };
        self.phase = self.phase.advance(event, self.id, self.stealers.len());
        event
    }

    /// Tells a sleeping worker that it was woken: it starts over.
    pub fn woken(&mut self)
        requires
            old(self).wf(),
            old(self)@.phase is Asleep,
        ensures
            final(self).wf(),
            final(self).same_seat(*old(self)),
            final(self)@ == (WorkerState { phase: Phase::Fetch, local: old(self)@.local }),
            final(self).ledger() == old(self).ledger(),
    {
        self.phase = self.phase.advance(Event::Woken, self.id, self.stealers.len());
    }

    /// Tells a worker that its task has been run: it starts over.
    pub fn finished(&mut self)
        requires
            old(self).wf(),
            old(self)@.phase is Run,
        ensures
            final(self).wf(),
            final(self).same_seat(*old(self)),
            final(self)@ == (WorkerState { phase: Phase::Fetch, local: old(self)@.local }),
            final(self).ledger() == old(self).ledger(),
    {
        self.phase = self.phase.advance(Event::Finished, self.id, self.stealers.len());
    }

    /// The worker that takes over when the thread of this one dies of a panic: it has the same
    /// place in the pool, goes on with the same queue, which is left blank here, and starts over.
    pub fn replacement(&mut self) -> (heir: WorkerContext<G>)
        requires
            old(self).wf(),
        ensures
            heir.wf(),
            heir.same_seat(*old(self)),
            heir@ == (WorkerState { phase: Phase::Fetch, local: old(self)@.local }),
            heir.ledger() == old(self).ledger(),
            final(self).same_place(*old(self)),
            final(self)@ == (WorkerState { phase: old(self)@.phase, local: Seq::empty() }),
            final(self).ledger() == Seq::<Deal>::empty(),
    {
        let mut queue = queues::new_fifo();
        std::mem::swap(&mut self.queue, &mut queue);
        WorkerContext::new(
            self.id,
            queue,
            &self.stealers,
            &self.global,
            self.thread_settings(),
        )
    }

    /// The worker's index in its pool.
    pub fn id(&self) -> (id: usize)
        ensures
            id == self.spec_id(),
    {
        self.id
    }

    /// Where the worker stands.
    pub fn phase(&self) -> (phase: Phase)
        ensures
            phase == self@.phase,
    {
        self.phase
    }

    /// How the worker's thread is to be set up.
    pub fn thread_settings(&self) -> (settings: ThreadSettings)
        ensures
            name_view(settings.name) == self.spec_name(),
            settings.stack_size == self.spec_stack_size(),
    {
        ThreadSettings { name: copy_name(&self.name), stack_size: self.stack_size }
    }
}

/// The workers of a new pool that share `global`: each can reach the queues of all the others, is
/// numbered by its position, has the given settings, and stands at the start of its loop with no
/// task of its own.
pub open spec fn are_seated<G: Intake>(
    workers: Seq<WorkerContext<G>>,
    global: Arc<G>,
    name: Option<Seq<char>>,
    stack_size: Option<usize>,
) -> bool {
    forall|i: int|
        0 <= i < workers.len() ==> {
            let worker = #[trigger] workers[i];
            &&& worker.wf()
            &&& worker@ == (WorkerState { phase: Phase::Fetch, local: Seq::empty() })
            &&& worker.ledger() == Seq::<Deal>::empty()
            &&& worker.spec_id() == i
            &&& worker.shared_queue() == global
            &&& worker.handles() == workers.map_values(|w: WorkerContext<G>| w.handle())
            &&& worker.spec_name() == name
            &&& worker.spec_stack_size() == stack_size
        }
}

/// Makes the workers of a new pool, each with a queue of its own.
pub(crate) fn seat_workers<G: Intake>(
    num_workers: usize,
    global: &Arc<G>,
    settings: &ThreadSettings,
) -> (workers: Vec<WorkerContext<G>>)
    ensures
        workers@.len() == num_workers,
        are_seated(
            workers@,
            *global,
            name_view(settings.name),
            settings.stack_size,
        ),
{
    let mut own: Vec<Worker<u64>> = Vec::with_capacity(num_workers);
    let mut handles: Vec<Stealer<u64>> = Vec::with_capacity(num_workers);
    while own.len() < num_workers
        invariant
            own@.len() == handles@.len() <= num_workers,
            forall|i: int|
                0 <= i < own@.len() ==> {
                    &&& is_fifo(#[trigger] own@[i])
                    &&& backlog(own@[i]) == Seq::<u64>::empty()
                    &&& ledger(own@[i]) == Seq::<Deal>::empty()
                    &&& handles@[i] == stealer_of(own@[i])
                },
        decreases num_workers - own.len(),
    {
        let queue = queues::new_fifo();
        handles.push(queues::stealer(&queue));
        own.push(queue);
    }
    let stealers = Arc::new(handles);
    let mut workers: Vec<WorkerContext<G>> = Vec::with_capacity(num_workers);
    let ghost all = own@;
    for queue in iter: own
        invariant
            iter.seq() == all,
            all.len() == num_workers,
            stealers@.len() == num_workers,
            workers@.len() == iter.index(),
            forall|i: int|
                0 <= i < all.len() ==> {
                    &&& is_fifo(#[trigger] all[i])
                    &&& backlog(all[i]) == Seq::<u64>::empty()
                    &&& ledger(all[i]) == Seq::<Deal>::empty()
                    &&& stealers@[i] == stealer_of(all[i])
                },
            forall|i: int|
                0 <= i < workers@.len() ==> {
                    let worker = #[trigger] workers@[i];
                    &&& worker.wf()
                    &&& worker@ == (WorkerState { phase: Phase::Fetch, local: Seq::empty() })
                    &&& worker.ledger() == Seq::<Deal>::empty()
                    &&& worker.spec_id() == i
                    &&& worker.shared_queue() == *global
                    &&& worker.handles() == stealers@
                    &&& worker.handle() == stealers@[i]
                    &&& worker.spec_name() == name_view(settings.name)
                    &&& worker.spec_stack_size() == settings.stack_size
                },
    {
        let id: usize = workers.len();
        let own_settings = ThreadSettings {
            name: copy_name(&settings.name),
            stack_size: settings.stack_size,
        };
        assert(is_tail(backlog(queue), added(ledger(queue)))) by {
            assert(added(ledger(queue)) =~= Seq::<u64>::empty());
            assert(Seq::<u64>::empty().skip(0) =~= Seq::<u64>::empty());
        }
        workers.push(WorkerContext::new(id, queue, &stealers, global, own_settings));
    }
    assert(stealers@ =~= workers@.map_values(|w: WorkerContext<G>| w.handle()));
    workers
}

} // verus!
