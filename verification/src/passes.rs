//! What a pass through the loop of a worker does: which queues it asks, in which order and how
//! often, what it does with each answer, and what of that is on the ledger of its own queue.
//!
//! A pass is a log as [`crate::worker::WorkerContext::poll`] has it.

use crossbeam::deque::{Injector, Stealer, Worker};
use crossbeam::queue::SegQueue;
use std::sync::Arc;
use vstd::prelude::*;

use crate::phase::{Event, Phase, Reply, Source};
use crate::pool;
use crate::pool::{Settings, ThreadPool, ThreadPoolBuilder};
use crate::queues::{
    added, all_in, handed, injected, injector_made_with, is_fifo, is_tail, is_topped, same_queue,
    seg_pushed, stealable, stealer_of, Deal, MAX_PEER_BATCH,
};
use crate::seg;
use crate::worker::{
    are_seated, leads, log_deals, moves, name_view, task_in, task_of, Entry, Intake, Seat,
    WorkerContext, WorkerState,
};

verus! {

/// The numbers that the pools go by.
pub proof fn law_numbers_of_the_pools()
    ensures
        pool::IDEAL_WORKER_BACKLOG == 10,
        seg::IDEAL_WORKER_BACKLOG == 8,
        seg::BATCH_GRAB_COUNT == 4,
        MAX_PEER_BATCH == 32,
{
}

/// A worker asks a queue in four phases and in no other, and each of them has its own answers.
pub proof fn law_who_asks_and_what_is_answered(phase: Phase, event: Event)
    ensures
        phase.asks() <==> match phase {
            Phase::Fetch | Phase::Fill { .. } | Phase::Drain | Phase::Scan { .. } => true,
            Phase::Park | Phase::Run { .. } | Phase::Asleep | Phase::Done => false,
        },
        phase.admits(event) <==> match event {
            Event::Filled | Event::Dry | Event::Global { .. } | Event::Pulled { .. } => phase
                is Fetch || phase is Fill,
            Event::Local(_) => phase is Drain,
            Event::Peer(_) => phase is Scan,
            Event::Checked { .. } => phase is Park,
            Event::Woken => phase is Asleep,
            Event::Finished => phase is Run,
        },
        phase matches Phase::Fill { left } ==> phase.moves_left() == left,
        !(phase is Fill) ==> phase.moves_left() == 0,
        forall|id: int, peers: int| #[trigger]
            phase.is_valid(id, peers) ==> (phase matches Phase::Scan { peer, .. } ==> peer < peers
                && peer != id) && (phase matches Phase::Fill { left } ==> left > 0),
        phase.is_drained() <==> phase is Scan || phase is Park || phase is Asleep || phase is Done,
{
}

/// A worker that was handed a task runs that task next, and says where it got it; one that was
/// handed none runs none.
pub proof fn law_what_is_handed_out_is_run_next<G: Intake>(
    pre: WorkerState,
    event: Event,
    batch: Seq<u64>,
    post: WorkerState,
    id: int,
    peers: int,
)
    requires
        moves::<G>(pre, event, batch, post, id, peers),
    ensures
        match event {
            Event::Global { reply: Reply::Success(t), .. } => post.phase == (Phase::Run {
                task: t,
                source: Source::Global,
            }) && task_of(event) == seq![t] && task_in(post.phase) == seq![t],
            Event::Local(Some(t)) => post.phase == (Phase::Run { task: t, source: Source::Local })
                && task_of(event) == seq![t] && task_in(post.phase) == seq![t],
            Event::Peer(Reply::Success(t)) => post.phase == (Phase::Run {
                task: t,
                source: Source::Peer(pre.phase->peer),
            }) && task_of(event) == seq![t] && task_in(post.phase) == seq![t],
            _ => !(post.phase is Run) && task_of(event).len() == 0 && task_in(post.phase).len()
                == 0,
        },
{
}

/// A worker that got no task while it topped off its queue goes on with topping off as often as it
/// is told, starts over where another thread got in between, and else goes on with its own queue.
pub proof fn law_after_topping_off<G: Intake>(
    pre: WorkerState,
    event: Event,
    batch: Seq<u64>,
    post: WorkerState,
    id: int,
    peers: int,
)
    requires
        moves::<G>(pre, event, batch, post, id, peers),
        pre.phase is Fetch || pre.phase is Fill,
        task_of(event).len() == 0,
    ensures
        post.phase is Fetch <==> (event matches Event::Global { reply, .. } && reply is Retry),
        post.phase is Fill <==> (event matches Event::Pulled { left, .. } && left > 0),
        post.phase matches Phase::Fill { left } ==> left == event->Pulled_left,
        post.phase is Fetch || post.phase is Fill || post.phase is Drain,
{
}

/// A worker that found its own queue empty asks the first of the others, in the order of their
/// numbers, and parks if there are none. A task that it got is the first of those left in its
/// queue.
pub proof fn law_after_the_own_queue<G: Intake>(
    pre: WorkerState,
    event: Event,
    batch: Seq<u64>,
    post: WorkerState,
    id: int,
    peers: int,
    j: int,
)
    requires
        moves::<G>(pre, event, batch, post, id, peers),
        pre.phase is Drain,
        0 <= id < peers <= usize::MAX,
    ensures
        event is Local,
        match event->Local_0 {
            Some(t) => {
                &&& post.local.len() < pre.local.len()
                &&& t == pre.local[pre.local.len() - post.local.len() - 1]
                &&& forall|i: int|
                    0 <= i < post.local.len() ==> #[trigger] post.local[i] == pre.local[pre.local.len()
                        - post.local.len() + i]
            },
            None => {
                &&& post.local.len() == 0
                &&& peers == 1 ==> post.phase is Park
                &&& peers > 1 ==> (post.phase matches Phase::Scan { peer, clear } && {
                    &&& clear
                    &&& peer < peers
                    &&& peer != id
                    &&& 0 <= j < peer ==> j == id
                })
            },
        },
{
    if let Event::Local(Some(t)) = event {
        let front = seq![t] + post.local;
        let tail = pre.local.skip(pre.local.len() - front.len());
        assert(front[0] == tail[0]);
        assert forall|i: int| 0 <= i < post.local.len() implies #[trigger] post.local[i]
            == pre.local[pre.local.len() - post.local.len() + i] by {
            assert(front[i + 1] == tail[i + 1]);
        }
    }
}

/// A worker that got no task from another asks the next of the others, in the order of their
/// numbers, and remembers whether every one of them was empty so far. After the last of them it
/// parks if they were, and else starts over.
pub proof fn law_after_another_queue<G: Intake>(
    pre: WorkerState,
    event: Event,
    batch: Seq<u64>,
    post: WorkerState,
    id: int,
    peers: int,
    j: int,
)
    requires
        moves::<G>(pre, event, batch, post, id, peers),
        pre.phase is Scan,
        pre.phase->peer < peers,
        0 <= id < peers <= usize::MAX,
    ensures
        event is Peer,
        match event->Peer_0 {
            Reply::Success(_) => {
                &&& post.local.len() < pre.local.len() + 32
                &&& pre.local.len() <= post.local.len()
                &&& forall|i: int|
                    0 <= i < pre.local.len() ==> #[trigger] post.local[i] == pre.local[i]
                &&& forall|i: int|
                    0 <= i < batch.len() ==> #[trigger] batch[i] == post.local[pre.local.len() + i]
                &&& batch.len() == post.local.len() - pre.local.len()
            },
            reply => {
                let still_clear = pre.phase->clear && reply is Empty;
                &&& post.local == pre.local
                &&& match post.phase {
                    Phase::Scan { peer, clear } => {
                        &&& clear == still_clear
                        &&& pre.phase->peer < peer < peers
                        &&& peer != id
                        &&& pre.phase->peer < j < peer ==> j == id
                    },
                    Phase::Park => {
                        &&& still_clear
                        &&& pre.phase->peer < j < peers ==> j == id
                    },
                    Phase::Fetch => {
                        &&& !still_clear
                        &&& pre.phase->peer < j < peers ==> j == id
                    },
                    _ => false,
                }
            },
        },
{
}

/// A worker that looks at the shared queue once more before it sleeps leaves if that is empty and
/// the pool shuts down, sleeps if it is empty and the pool does not, and else starts over. So does
/// one that was woken or has run its task. None of this touches its own queue.
pub proof fn law_after_all_else<G: Intake>(
    pre: WorkerState,
    event: Event,
    batch: Seq<u64>,
    post: WorkerState,
    id: int,
    peers: int,
)
    requires
        moves::<G>(pre, event, batch, post, id, peers),
        !pre.phase.asks(),
    ensures
        post.local == pre.local,
        batch.len() == 0,
        match pre.phase {
            Phase::Park => event is Checked && post.phase == (if !event->global_empty {
                Phase::Fetch
            } else if event->shutdown {
                Phase::Done
            } else {
                Phase::Asleep
            }),
            Phase::Asleep => event is Woken && post.phase is Fetch,
            Phase::Run { .. } => event is Finished && post.phase is Fetch,
            _ => false,
        },
{
}

/// A worker asks the shared queue for exactly as many tasks as it lacks to ten, and does not ask
/// only if it lacks none. What it gets besides the task that it runs goes to the back of its own
/// queue.
pub proof fn law_a_worker_tops_off_to_ten(
    left: usize,
    event: Event,
    before: Seq<u64>,
    after: Seq<u64>,
    batch: Seq<u64>,
)
    requires
        <Injector<u64> as Intake>::tops_off(left, event, before, after, batch),
    ensures
        event is Filled || event is Global,
        event is Filled ==> after.len() >= 10 && batch.len() == 0,
        event matches Event::Global { limit, reply } ==> {
            &&& limit > 0
            &&& limit + (after.len() - batch.len()) == 10
            &&& batch.len() < limit
            &&& !(reply is Success) ==> batch.len() == 0
        },
        batch.len() <= after.len() <= before.len() + batch.len(),
        forall|i: int|
            0 <= i < batch.len() ==> #[trigger] batch[i] == after[after.len() - batch.len() + i],
        forall|i: int|
            0 <= i < after.len() - batch.len() ==> #[trigger] after[i] == before[before.len() - (
            after.len() - batch.len()) + i],
{
}

/// A plain worker begins to move tasks only if it lacks some to eight, moves them one at a time to
/// the back of its own queue, and tries that four times once it has begun.
pub proof fn law_a_plain_worker_moves_tasks_to_the_back(
    left: usize,
    event: Event,
    before: Seq<u64>,
    after: Seq<u64>,
    batch: Seq<u64>,
)
    requires
        <SegQueue<u64> as Intake>::tops_off(left, event, before, after, batch),
    ensures
        event is Filled || event is Dry || event is Pulled,
        event is Filled || event is Dry ==> left == 0 && batch.len() == 0,
        event is Filled ==> after.len() >= 8,
        event is Dry ==> after == before,
        event matches Event::Pulled { task, left: rest } ==> {
            &&& left == 0 ==> rest == 3 && after.len() - batch.len() < 8
            &&& left > 0 ==> rest == left - 1 && after.len() == before.len() + batch.len()
            &&& match task {
                Some(t) => batch.len() == 1 && batch[0] == t && after.len() > 0 && after.last()
                    == t,
                None => batch.len() == 0,
            }
        },
        batch.len() <= after.len() <= before.len() + batch.len(),
        forall|i: int|
            0 <= i < after.len() - batch.len() ==> #[trigger] after[i] == before[before.len() - (
            after.len() - batch.len()) + i],
{
    if event is Pulled {
        assert(is_topped(before, after, batch));
        let kept = after.take(after.len() - batch.len());
        assert(after.skip(after.len() - batch.len()) == batch);
        if batch.len() == 1 {
            assert(batch[0] == after.skip(after.len() - 1)[0]);
        }
        assert forall|i: int| 0 <= i < after.len() - batch.len() implies #[trigger] after[i]
            == before[before.len() - (after.len() - batch.len()) + i] by {
            assert(kept[i] == after[i]);
        }
    }
}

/// Every question that a worker puts to another worker's queue is on its ledger as that question:
/// once, to the worker that it scans, with the answer that it goes by. Its own queue likewise.
pub proof fn law_questions_to_workers_are_on_the_ledger<G: Intake>(
    seat: Seat<G>,
    phase: Phase,
    event: Event,
    batch: Seq<u64>,
)
    requires
        phase is Scan || phase is Drain,
        phase.admits(event),
    ensures
        phase matches Phase::Scan { peer, .. } ==> (event matches Event::Peer(reply) && seat.deals(
            phase,
            event,
            batch,
        ) == seq![Deal::Stolen { peer: seat.handles[peer as int], reply, batch }]),
        phase is Drain ==> (event matches Event::Local(task) && seat.deals(phase, event, batch)
            == seq![Deal::Popped(task)]),
{
}

/// Every question that a worker puts to the shared queue is on its ledger as that question: once,
/// to the queue of its pool, for as many tasks as it reports, with the answer that it goes by.
pub proof fn law_questions_to_the_shared_queue_are_on_the_ledger(
    seat: Seat<Injector<u64>>,
    phase: Phase,
    event: Event,
    batch: Seq<u64>,
)
    requires
        phase is Fetch || phase is Fill || phase is Park,
        phase.admits(event),
    ensures
        match event {
            Event::Global { limit, reply } => seat.deals(phase, event, batch) == seq![
                Deal::Fetched { shared: seat.global, limit, reply, batch },
            ],
            Event::Checked { global_empty, .. } => seat.deals(phase, event, batch) == seq![
                Deal::Looked { shared: seat.global, empty: global_empty },
            ],
            Event::Filled => seat.deals(phase, event, batch).len() == 0,
            _ => true,
        },
{
}

/// Every question that a plain worker puts to the shared queue is on its ledger as that question,
/// and so is every task that it moves to its own queue, right after it drew that.
pub proof fn law_questions_to_the_plain_queue_are_on_the_ledger(
    seat: Seat<SegQueue<u64>>,
    phase: Phase,
    event: Event,
    batch: Seq<u64>,
)
    requires
        phase is Fetch || phase is Fill || phase is Park,
        phase.admits(event),
        phase matches Phase::Fill { left } ==> left > 0,
    ensures
        ({
            let deals = seat.deals(phase, event, batch);
            match event {
                Event::Dry => deals == seq![Deal::Peeked { segments: seat.global, empty: true }],
                Event::Filled => deals == seq![
                    Deal::Peeked { segments: seat.global, empty: false },
                ],
                Event::Checked { global_empty, .. } => deals == seq![
                    Deal::Peeked { segments: seat.global, empty: global_empty },
                ],
                Event::Pulled { task, .. } => {
                    let first: int = if phase is Fetch {
                        1
                    } else {
                        0
                    };
                    &&& phase is Fetch ==> deals[0] == (Deal::Peeked {
                        segments: seat.global,
                        empty: false,
                    })
                    &&& deals[first] == (Deal::Drawn { segments: seat.global, task })
                    &&& match task {
                        Some(t) => deals.len() == first + 2 && deals[first + 1] == Deal::Added(t),
                        None => deals.len() == first + 1,
                    }
                },
                _ => true,
            }
        }),
{
}

/// The tasks that a worker is handed come from the queue that it asks: its own, that of the worker
/// that it scans, or the one that it shares with all others, which is told by the tasks that
/// entered it.
pub proof fn law_where_tasks_come_from<G: Intake>(
    seat: Seat<G>,
    phase: Phase,
    shared: Injector<u64>,
    segments: SegQueue<u64>,
)
    ensures
        phase is Drain ==> seat.source(phase) == stealable(seat.handles[seat.id]),
        phase matches Phase::Scan { peer, .. } ==> seat.source(phase) == stealable(
            seat.handles[peer as int],
        ),
        phase is Fetch || phase is Fill ==> seat.source(phase) == seat.global.entered(),
        shared.entered() == injected(shared),
        segments.entered() == seg_pushed(segments),
{
}

/// A worker that looks whether the shared queue is empty has on its ledger which queue it looked at and
/// what it saw, and so it tells two answers and two queues apart.
pub proof fn law_looks_are_on_the_ledger(
    shared: Injector<u64>,
    segments: SegQueue<u64>,
    empty: bool,
)
    ensures
        shared.look(empty) == (Deal::Looked { shared, empty }),
        segments.look(empty) == (Deal::Peeked { segments, empty }),
        shared.look(empty) != shared.look(!empty),
        segments.look(empty) != segments.look(!empty),
{
}

/// A queue stays the same where it keeps its handle and its order.
pub proof fn law_a_queue_stays_the_same(before: Worker<u64>, after: Worker<u64>)
    ensures
        same_queue(before, after) <==> stealer_of(after) == stealer_of(before) && is_fifo(after)
            == is_fifo(before),
{
}

/// What a log leaves on the ledger is what its events leave there, one after the other.
pub proof fn law_a_log_is_on_the_ledger_in_order<G: Intake>(
    seat: Seat<G>,
    log: Seq<Entry>,
    entry: Entry,
)
    ensures
        log_deals(seat, Seq::<Entry>::empty()).len() == 0,
        log_deals(seat, log.push(entry)) == log_deals(seat, log) + seat.deals(
            entry.before.phase,
            entry.event,
            entry.batch,
        ),
{
    assert(log.push(entry).drop_last() =~= log);
}

/// A ledger adds up: a task that was handed out to be run counts as such, whichever queue it came
/// from, and what entered the queue counts as added. Looking and drawing count as neither.
pub proof fn law_a_ledger_adds_up(
    ledger: Seq<Deal>,
    task: u64,
    limit: usize,
    batch: Seq<u64>,
    shared: Injector<u64>,
    segments: SegQueue<u64>,
    peer: Stealer<u64>,
    empty: bool,
)
    ensures
        handed(Seq::<Deal>::empty()).len() == 0,
        added(Seq::<Deal>::empty()).len() == 0,
        handed(ledger.push(Deal::Popped(Some(task)))) == handed(ledger).push(task),
        added(ledger.push(Deal::Popped(Some(task)))) == added(ledger),
        handed(ledger.push(Deal::Popped(None))) == handed(ledger),
        added(ledger.push(Deal::Popped(None))) == added(ledger),
        handed(
            ledger.push(Deal::Fetched { shared, limit, reply: Reply::Success(task), batch }),
        ) == handed(ledger).push(task),
        added(ledger.push(Deal::Fetched { shared, limit, reply: Reply::Success(task), batch }))
            == added(ledger) + batch,
        handed(ledger.push(Deal::Stolen { peer, reply: Reply::Success(task), batch })) == handed(
            ledger,
        ).push(task),
        added(ledger.push(Deal::Stolen { peer, reply: Reply::Success(task), batch })) == added(
            ledger,
        ) + batch,
        handed(ledger.push(Deal::Fetched { shared, limit, reply: Reply::Empty, batch })) == handed(
            ledger,
        ),
        handed(ledger.push(Deal::Fetched { shared, limit, reply: Reply::Retry, batch })) == handed(
            ledger,
        ),
        handed(ledger.push(Deal::Stolen { peer, reply: Reply::Empty, batch })) == handed(ledger),
        handed(ledger.push(Deal::Stolen { peer, reply: Reply::Retry, batch })) == handed(ledger),
        handed(ledger.push(Deal::Added(task))) == handed(ledger),
        added(ledger.push(Deal::Added(task))) == added(ledger).push(task),
        handed(ledger.push(Deal::Drawn { segments, task: Some(task) })) == handed(ledger),
        added(ledger.push(Deal::Drawn { segments, task: Some(task) })) == added(ledger),
        handed(ledger.push(Deal::Looked { shared, empty })) == handed(ledger),
        added(ledger.push(Deal::Looked { shared, empty })) == added(ledger),
        handed(ledger.push(Deal::Peeked { segments, empty })) == handed(ledger),
        added(ledger.push(Deal::Peeked { segments, empty })) == added(ledger),
{
    assert forall|deal: Deal|
        #![trigger ledger.push(deal)]
        ledger.push(deal).drop_last() == ledger by {
        assert(ledger.push(deal).drop_last() =~= ledger);
    }
}

/// A pass but for its last event is one too.
proof fn lemma_pass_before<G: Intake>(
    seat: Seat<G>,
    pre: WorkerState,
    log: Seq<Entry>,
    post: WorkerState,
)
    requires
        leads(seat, pre, log, post),
        log.len() > 0,
    ensures
        leads(seat, pre, log.drop_last(), log.last().before),
        log.last().after == post,
{
    let rest = log.drop_last();
    assert forall|i: int, j: int|
        #![trigger rest[i], rest[j]]
        0 <= i < rest.len() && j == i + 1 && j < rest.len() implies rest[i].after
        == rest[j].before by {
        assert(log[i].after == log[j].before);
    }
    assert forall|i: int| #![trigger rest[i]] 0 <= i < rest.len() implies rest[i] == log[i] by {}
    if rest.len() > 0 {
        assert(log[rest.len() - 1].after == log[rest.len() as int].before);
    }
}

/// In this log worker `j` was asked and gave no task; if `empty`, then because it was empty, as
/// were all that were asked before it.
spec fn was_asked(log: Seq<Entry>, j: int, empty: bool) -> bool {
    exists|i: int|
        0 <= i < log.len() && ((#[trigger] log[i]).before.phase matches Phase::Scan { peer, clear }
            && peer == j && (empty ==> clear)) && (log[i].event == Event::Peer(Reply::Empty) || (
        !empty && log[i].event == Event::Peer(Reply::Retry)))
}

proof fn lemma_was_asked(log: Seq<Entry>, entry: Entry, j: int, empty: bool)
    requires
        was_asked(log, j, empty),
    ensures
        was_asked(log.push(entry), j, empty),
        was_asked(log.push(entry), j, false),
{
    let i = choose|i: int|
        0 <= i < log.len() && ((#[trigger] log[i]).before.phase matches Phase::Scan { peer, clear }
            && peer == j && (empty ==> clear)) && (log[i].event == Event::Peer(Reply::Empty) || (
        !empty && log[i].event == Event::Peer(Reply::Retry)));
    assert(log.push(entry)[i] == log[i]);
}

/// Whoever comes before the worker that is scanned was asked in vain.
proof fn lemma_asked<G: Intake>(
    seat: Seat<G>,
    pre: WorkerState,
    log: Seq<Entry>,
    post: WorkerState,
    j: int,
)
    requires
        leads(seat, pre, log, post),
        !(pre.phase is Scan),
        log.len() > 0,
        0 <= seat.id < seat.handles.len() <= usize::MAX,
        0 <= j < seat.handles.len(),
        j != seat.id,
    ensures
        post.phase matches Phase::Scan { peer, clear } ==> peer < seat.handles.len() && (j < peer
            ==> was_asked(log, j, clear)),
        post.phase is Park ==> was_asked(log, j, true),
        post.phase matches Phase::Run { source: Source::Peer(p), .. } ==> (j < p ==> was_asked(
            log,
            j,
            false,
        )),
    decreases log.len(),
{
    lemma_pass_before(seat, pre, log, post);
    let rest = log.drop_last();
    let last = log.last();
    assert(log[log.len() - 1] == last);
    assert(log =~= rest.push(last));
    if rest.len() > 0 {
        lemma_asked(seat, pre, rest, last.before, j);
    }
    if let Phase::Scan { peer, clear } = last.before.phase {
        assert(rest.len() > 0);
        if j < peer {
            lemma_was_asked(rest, last, j, clear);
        }
        if j == peer && last.event is Peer && !(last.event->Peer_0 is Success) {
            assert(log[log.len() - 1].before.phase == last.before.phase);
            assert(was_asked(log, j, false));
            if clear && last.event == Event::Peer(Reply::Empty) {
                assert(was_asked(log, j, true));
            }
        }
    }
}

/// What was asked of another worker in a pass is on the ledger of the pass.
proof fn lemma_asked_is_on_the_ledger<G: Intake>(
    seat: Seat<G>,
    log: Seq<Entry>,
    i: int,
    peer: usize,
    clear: bool,
    reply: Reply,
)
    requires
        0 <= i < log.len(),
        log[i].before.phase == (Phase::Scan { peer, clear }),
        log[i].event == Event::Peer(reply),
    ensures
        log_deals(seat, log).contains(
            Deal::Stolen { peer: seat.handles[peer as int], reply, batch: log[i].batch },
        ),
    decreases log.len(),
{
    let deal = Deal::Stolen { peer: seat.handles[peer as int], reply, batch: log[i].batch };
    let rest = log.drop_last();
    let last = log.last();
    let so_far = log_deals(seat, rest);
    let more = seat.deals(last.before.phase, last.event, last.batch);
    assert(log_deals(seat, log) == so_far + more);
    if i == log.len() - 1 {
        assert(more[0] == deal);
        assert((so_far + more)[so_far.len() as int] == deal);
    } else {
        assert(rest[i] == log[i]);
        lemma_asked_is_on_the_ledger(seat, rest, i, peer, clear, reply);
        let k = choose|k: int| 0 <= k < so_far.len() && so_far[k] == deal;
        assert((so_far + more)[k] == deal);
    }
}

/// A worker parks only after it has asked every other worker's queue in that pass and each of them
/// was empty: each question stands in the log and on the ledger. This goes for every number of
/// workers.
pub proof fn law_a_worker_parks_only_after_asking_everyone<G: Intake>(
    seat: Seat<G>,
    pre: WorkerState,
    log: Seq<Entry>,
    post: WorkerState,
    j: int,
)
    requires
        leads(seat, pre, log, post),
        pre.phase is Fetch || pre.phase is Fill || pre.phase is Drain,
        post.phase is Park,
        0 <= seat.id < seat.handles.len() <= usize::MAX,
        0 <= j < seat.handles.len(),
        j != seat.id,
    ensures
        exists|i: int|
            {
                &&& 0 <= i < log.len()
                &&& (#[trigger] log[i]).before.phase == (Phase::Scan {
                    peer: j as usize,
                    clear: true,
                })
                &&& log[i].event == Event::Peer(Reply::Empty)
            },
        log_deals(seat, log).contains(
            Deal::Stolen { peer: seat.handles[j], reply: Reply::Empty, batch: Seq::empty() },
        ),
{
    lemma_asked(seat, pre, log, post, j);
    let i = choose|i: int|
        0 <= i < log.len() && ((#[trigger] log[i]).before.phase matches Phase::Scan { peer, clear }
            && peer == j && clear) && log[i].event == Event::Peer(Reply::Empty);
    assert(log[i].before.phase == (Phase::Scan { peer: j as usize, clear: true }));
    lemma_asked_is_on_the_ledger(seat, log, i, j as usize, true, Reply::Empty);
    assert(log[i].batch =~= Seq::empty());
}

/// A worker steals from the first other worker that has some: every other worker of a lower number
/// was asked in that pass before, and gave no task.
pub proof fn law_a_worker_steals_from_the_first_that_has_some<G: Intake>(
    seat: Seat<G>,
    pre: WorkerState,
    log: Seq<Entry>,
    post: WorkerState,
    task: u64,
    victim: usize,
    j: int,
)
    requires
        leads(seat, pre, log, post),
        pre.phase is Fetch || pre.phase is Fill || pre.phase is Drain,
        post.phase == (Phase::Run { task, source: Source::Peer(victim) }),
        0 <= seat.id < seat.handles.len() <= usize::MAX,
        0 <= j < victim,
        j < seat.handles.len(),
        j != seat.id,
    ensures
        log.len() > 0,
        log.last().event == Event::Peer(Reply::Success(task)),
        log.last().before.phase is Scan,
        log.last().before.phase->peer == victim,
        exists|i: int|
            {
                &&& 0 <= i < log.len() - 1
                &&& (#[trigger] log[i]).before.phase is Scan
                &&& log[i].before.phase->peer == j
                &&& log[i].event is Peer
                &&& !(log[i].event->Peer_0 is Success)
            },
        log_deals(seat, log).contains(
            Deal::Stolen {
                peer: seat.handles[victim as int],
                reply: Reply::Success(task),
                batch: log.last().batch,
            },
        ),
{
    lemma_asked(seat, pre, log, post, j);
    lemma_pass_before(seat, pre, log, post);
    let last = log.last();
    assert(log[log.len() - 1] == last);
    let i = choose|i: int|
        0 <= i < log.len() && ((#[trigger] log[i]).before.phase matches Phase::Scan { peer, .. }
            && peer == j) && (log[i].event == Event::Peer(Reply::Empty) || log[i].event
            == Event::Peer(Reply::Retry));
    assert(log[i].before.phase is Scan);
    lemma_asked_is_on_the_ledger(
        seat,
        log,
        log.len() - 1,
        victim,
        last.before.phase->clear,
        Reply::Success(task),
    );
}

/// A worker starts over without a task, and without sleeping, only if some queue told it in that pass
/// to ask again. One that every queue told to be empty goes on to park.
pub proof fn law_a_pass_starts_over_only_on_a_retry<G: Intake>(
    seat: Seat<G>,
    pre: WorkerState,
    log: Seq<Entry>,
    post: WorkerState,
)
    requires
        leads(seat, pre, log, post),
        log.len() > 0,
        !(pre.phase is Scan),
        post.phase is Fetch || (post.phase is Scan && !post.phase->clear),
    ensures
        exists|i: int|
            {
                &&& 0 <= i < log.len()
                &&& {
                    ||| (#[trigger] log[i]).event == Event::Peer(Reply::Retry)
                    ||| log[i].event is Global && log[i].event->reply is Retry
                }
            },
    decreases log.len(),
{
    lemma_pass_before(seat, pre, log, post);
    let rest = log.drop_last();
    let last = log.last();
    assert(log[log.len() - 1] == last);
    let told = last.event == Event::Peer(Reply::Retry) || (last.event is Global
        && last.event->reply is Retry);
    if !told {
        assert(last.before.phase is Scan && !last.before.phase->clear);
        law_a_pass_starts_over_only_on_a_retry(seat, pre, rest, last.before);
        let i = choose|i: int|
            {
                &&& 0 <= i < rest.len()
                &&& {
                    ||| (#[trigger] rest[i]).event == Event::Peer(Reply::Retry)
                    ||| rest[i].event is Global && rest[i].event->reply is Retry
                }
            };
        assert(rest[i] == log[i]);
    }
}

/// A plain worker that has begun to move tasks tries four times before it turns to its own queue,
/// however many workers there are and whatever it gets.
pub proof fn law_a_plain_worker_moves_a_handful(
    seat: Seat<SegQueue<u64>>,
    pre: WorkerState,
    log: Seq<Entry>,
    post: WorkerState,
)
    requires
        leads(seat, pre, log, post),
        log.len() > 0,
        pre.phase is Fetch,
        log[0].event is Pulled,
        post.phase is Fetch || post.phase is Run || post.phase is Park,
    ensures
        log.len() > 4,
        forall|i: int| 0 <= i < 4 ==> (#[trigger] log[i]).event is Pulled,
        log[4].event is Local,
        log[4].before.local.len() >= log[0].batch.len() + log[1].batch.len() + log[2].batch.len()
            + log[3].batch.len(),
{
    assert(log.first() == log[0]);
    assert(log[log.len() - 1] == log.last());
    if log.len() > 1 {
        assert(log[0].after == log[1].before);
        if log.len() > 2 {
            assert(log[1].after == log[2].before);
            if log.len() > 3 {
                assert(log[2].after == log[3].before);
                if log.len() > 4 {
                    assert(log[3].after == log[4].before);
                }
            }
        }
    }
}

/// A worker asks the shared queue first in every pass that it begins at the start of its loop,
/// unless it has ten tasks at hand, and that question is first on the ledger of the pass.
pub proof fn law_the_shared_queue_comes_first(
    seat: Seat<Injector<u64>>,
    pre: WorkerState,
    log: Seq<Entry>,
    post: WorkerState,
)
    requires
        leads(seat, pre, log, post),
        log.len() > 0,
        pre.phase is Fetch,
    ensures
        log[0].event is Filled || log[0].event is Global,
        log[0].event is Filled ==> log[0].after.local.len() >= 10,
        log[0].event matches Event::Global { limit, reply } ==> {
            let batch = log[0].batch;
            &&& limit == 10 - (log[0].after.local.len() - batch.len())
            &&& log_deals(seat, log).len() > 0
            &&& log_deals(seat, log)[0] == (Deal::Fetched {
                shared: seat.global,
                limit,
                reply,
                batch,
            })
        },
{
    assert(log.first() == log[0]);
    lemma_first_deals(seat, log);
    if let Event::Global { limit, reply } = log[0].event {
        let first = seat.deals(log[0].before.phase, log[0].event, log[0].batch);
        assert(first[0] == (Deal::Fetched {
            shared: seat.global,
            limit,
            reply,
            batch: log[0].batch,
        }));
    }
}

/// The ledger of a pass begins with what its first event leaves there.
proof fn lemma_first_deals<G: Intake>(seat: Seat<G>, log: Seq<Entry>)
    requires
        log.len() > 0,
    ensures
        ({
            let first = seat.deals(log[0].before.phase, log[0].event, log[0].batch);
            &&& first.len() <= log_deals(seat, log).len()
            &&& forall|i: int|
                0 <= i < first.len() ==> log_deals(seat, log)[i] == #[trigger] first[i]
        }),
    decreases log.len(),
{
    let rest = log.drop_last();
    if rest.len() > 0 {
        assert(rest[0] == log[0]);
        lemma_first_deals(seat, rest);
    } else {
        assert(log_deals(seat, rest).len() == 0);
        assert(log.last() == log[0]);
    }
}

/// The workers of a new pool: as many places as workers, each numbered by its place, each with the
/// handles of all the others by their numbers and with its own among them, all at the start of
/// their loops with nothing done and nothing at hand, all on the same shared queue, all set up
/// alike.
pub proof fn law_new_workers_are_seated<G: Intake>(
    workers: Seq<WorkerContext<G>>,
    global: Arc<G>,
    name: Option<Seq<char>>,
    stack_size: Option<usize>,
    i: int,
    j: int,
)
    requires
        are_seated(workers, global, name, stack_size),
        0 <= i < workers.len(),
        0 <= j < workers.len(),
    ensures
        workers[i].spec_id() == i,
        workers[i].handles().len() == workers.len(),
        workers[i].handles()[j] == workers[j].handle(),
        workers[i]@.phase is Fetch,
        workers[i]@.local.len() == 0,
        workers[i].ledger().len() == 0,
        workers[i].shared_queue() == global,
        workers[i].spec_name() == name,
        workers[i].spec_stack_size() == stack_size,
        workers[i].wf(),
        workers[i].seat().global == *global,
        workers[i].seat().handles == workers[i].handles(),
        workers[i].seat().id == i,
{
}

/// A pool that was just built is set up as asked, does not shut down, and nothing was spawned in
/// it; its workers share its queue.
pub proof fn law_a_new_pool_is_blank(pool: ThreadPool, settings: Settings)
    requires
        pool.is_fresh(settings),
    ensures
        pool.spawned().len() == 0,
        injector_made_with(*pool.shared_queue()).len() == 0,
        !pool.shuts_down(),
        pool.spec_size() == pool.waiting().len(),
        pool.spec_name() == settings.thread_name,
        pool.spec_stack_size() == settings.thread_stack_size,
        are_seated(
            pool.waiting(),
            pool.shared_queue(),
            settings.thread_name,
            settings.thread_stack_size,
        ),
{
}

/// Whatever pool is staffed has a worker afterwards: one that has none gets exactly one, set up as
/// the pool's are, and any other stays as it is.
pub proof fn law_staffing(before: ThreadPool, after: ThreadPool)
    requires
        after.is_staffed(before),
        after.is_same(before),
    ensures
        after.spec_size() >= 1,
        after.shared_queue() == before.shared_queue(),
        after.spec_name() == before.spec_name(),
        after.spec_stack_size() == before.spec_stack_size(),
        before.spec_size() > 0 ==> after.waiting() == before.waiting() && after.spec_size()
            == before.spec_size(),
        before.spec_size() == 0 ==> {
            &&& after.spec_size() == 1
            &&& after.waiting().len() == 1
            &&& after.waiting()[0].spec_id() == 0
            &&& after.waiting()[0].handles().len() == 1
            &&& after.waiting()[0]@.phase is Fetch
            &&& after.waiting()[0].shared_queue() == before.shared_queue()
            &&& after.waiting()[0].spec_name() == before.spec_name()
            &&& after.waiting()[0].spec_stack_size() == before.spec_stack_size()
        },
{
}

/// A worker that keeps its seat keeps its number, the handles of all workers and its own queue's,
/// the shared queue, and what its thread is set up with.
pub proof fn law_a_seat_is_kept<G: Intake>(before: WorkerContext<G>, after: WorkerContext<G>)
    ensures
        after.same_place(before) <==> {
            &&& after.spec_id() == before.spec_id()
            &&& after.handles() == before.handles()
            &&& after.shared_queue() == before.shared_queue()
            &&& after.spec_name() == before.spec_name()
            &&& after.spec_stack_size() == before.spec_stack_size()
        },
        after.same_seat(before) <==> after.same_place(before) && after.handle() == before.handle(),
        before.peers() == before.handles().len(),
        before.handed() == handed(before.ledger()),
        before.wf() ==> {
            &&& before.runs_in_order()
            &&& 0 <= before.spec_id() < before.handles().len()
            &&& before.handles()[before.spec_id()] == before.handle()
            &&& is_tail(before@.local, added(before.ledger()))
        },
{
}

/// A thread name is the text that it is, or none.
pub proof fn law_names_are_kept(text: String)
    ensures
        name_view(Some(text)) == Some(text@),
        name_view(None::<String>) == None::<Seq<char>>,
{
}

/// A tail is what is left of a queue from some place on, and a queue is among some tasks if each in
/// it is.
pub proof fn law_tails(after: Seq<u64>, before: Seq<u64>, tasks: Set<u64>)
    ensures
        is_tail(after, before) <==> {
            &&& after.len() <= before.len()
            &&& forall|i: int|
                0 <= i < after.len() ==> #[trigger] after[i] == before[before.len() - after.len()
                    + i]
        },
        all_in(after, tasks) <==> forall|i: int|
            0 <= i < after.len() ==> tasks.contains(#[trigger] after[i]),
{
    if after.len() <= before.len() && forall|i: int|
        0 <= i < after.len() ==> #[trigger] after[i] == before[before.len() - after.len() + i] {
        assert(after =~= before.skip(before.len() - after.len()));
    }
}

/// Where no number of threads was set, a pool has as many workers as the machine, when asked, said
/// it has logical processors, whatever else was set; where a number was set it has that many.
pub proof fn law_one_worker_for_each_processor(builder: ThreadPoolBuilder, built: ThreadPool)
    requires
        call_ensures(ThreadPoolBuilder::build, (builder,), built),
    ensures
        builder@.num_threads is None ==> exists|cpus: usize| #[trigger]
            pool::is_cpu_count(cpus) && built.waiting().len() == cpus,
        builder@.num_threads matches Some(n) ==> built.waiting().len() == n,
        built.is_fresh(builder@),
{
}

} // verus!
