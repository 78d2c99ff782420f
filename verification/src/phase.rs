//! What a worker thread does next: the decisions of its loop, one reply of the outside world at a
//! time.

use vstd::prelude::*;

verus! {

/// Where a task that a worker runs came from.
#[derive(Clone, Copy, Debug, PartialEq, Eq, Structural)]
pub enum Source {
    /// The queue that all workers share.
    Global,
    /// The worker's own queue.
    Local,
    /// The queue of the worker with this index.
    Peer(usize),
}

/// What an attempt to take tasks from a queue came to.
#[derive(Clone, Copy, Debug, PartialEq, Eq, Structural)]
pub enum Reply {
    /// The task that was taken.
    Success(u64),
    /// Another thread got in between: the queue may hold tasks.
    Retry,
    /// The queue was empty.
    Empty,
}

/// Where a worker stands in its loop.
#[derive(Clone, Copy, Debug, PartialEq, Eq, Structural)]
pub enum Phase {
    /// It is about to top off its own queue from the shared one.
    Fetch,
    /// It is about to move a task from the shared queue to its own, and does so at most `left`
    /// times in a row.
    Fill { left: usize },
    /// It is about to take a task from its own queue.
    Drain,
    /// It is about to steal from the worker `peer`. `clear` says that every worker asked so far
    /// had an empty queue.
    Scan { peer: usize, clear: bool },
    /// It found no task anywhere and is about to decide, under the lock that guards sleeping,
    /// whether to sleep.
    Park,
    /// It has `task` to run.
    Run { task: u64, source: Source },
    /// It sleeps until it is woken.
    Asleep,
    /// It has left the loop.
    Done,
}

/// What a worker learns between one phase and the next.
#[derive(Clone, Copy, Debug, PartialEq, Eq, Structural)]
pub enum Event {
    /// The worker has enough tasks at hand and did not ask the shared queue for more.
    Filled,
    /// The shared queue was empty and was not asked for tasks.
    Dry,
    /// The shared queue was asked for at most `limit` tasks.
    Global { limit: usize, reply: Reply },
    /// The shared queue was asked for one task, which went to the worker's own queue. The worker
    /// is to do the same up to `left` times more.
    Pulled { task: Option<u64>, left: usize },
    /// The worker's own queue handed out a task, or was empty.
    Local(Option<u64>),
    /// The queue of the worker that is being scanned was asked for tasks.
    Peer(Reply),
    /// Under the lock: whether the shared queue is empty and whether the pool shuts down.
    Checked { global_empty: bool, shutdown: bool },
    /// The sleeping worker was woken.
    Woken,
    /// The task has been run.
    Finished,
}

impl Phase {
    /// The event is one that can come in this phase.
    pub open spec fn admits(self, event: Event) -> bool {
        match self {
            Phase::Fetch | Phase::Fill { .. } => event is Filled || event is Dry || event is Global
                || event is Pulled,
            Phase::Drain => event is Local,
            Phase::Scan { .. } => event is Peer,
            Phase::Park => event is Checked,
            Phase::Run { .. } => event is Finished,
            Phase::Asleep => event is Woken,
            Phase::Done => false,
        }
    }

    /// The next phase of a worker that goes on to ask the workers from index `from` on, out of
    /// `peers` workers of which it is number `id` itself: the first of them that is not itself is
    /// next, and after the last it either found all queues empty or starts over.
    pub open spec fn scan_from(from: int, clear: bool, id: int, peers: int) -> Phase {
        let peer = if from == id { from + 1 } else { from };
        if peer < peers {
            Phase::Scan { peer: peer as usize, clear }
        } else if clear {
            Phase::Park
        } else {
            Phase::Fetch
        }
    }

    /// The phase after `event`, for worker number `id` of `peers`.
    pub open spec fn after(self, event: Event, id: int, peers: int) -> Phase {
        match (self, event) {
            (
                Phase::Fetch | Phase::Fill { .. },
                Event::Global { reply: Reply::Success(task), .. },
            ) => Phase::Run { task, source: Source::Global },
            (
                Phase::Fetch | Phase::Fill { .. },
                Event::Global { reply: Reply::Retry, .. },
            ) => Phase::Fetch,
            (Phase::Fetch | Phase::Fill { .. }, Event::Pulled { left, .. }) => if left > 0 {
                Phase::Fill { left }
            } else {
                Phase::Drain
            },
            (Phase::Fetch | Phase::Fill { .. }, _) => Phase::Drain,
            (Phase::Drain, Event::Local(Some(task))) => Phase::Run { task, source: Source::Local },
            (Phase::Drain, _) => Phase::scan_from(0, true, id, peers),
            (Phase::Scan { peer, .. }, Event::Peer(Reply::Success(task))) => Phase::Run {
                task,
                source: Source::Peer(peer),
            },
            (Phase::Scan { peer, .. }, Event::Peer(Reply::Retry)) => Phase::scan_from(
                peer + 1,
                false,
                id,
                peers,
            ),
            (Phase::Scan { peer, clear }, _) => Phase::scan_from(peer + 1, clear, id, peers),
            (Phase::Park, Event::Checked { global_empty, shutdown }) => if !global_empty {
                Phase::Fetch
            } else if shutdown {
                Phase::Done
            } else {
                Phase::Asleep
            },
            (Phase::Done, _) => Phase::Done,
            _ => Phase::Fetch,
        }
    }

    /// The worker is about to ask some queue for tasks.
    pub open spec fn asks(self) -> bool {
        self is Fetch || self is Fill || self is Drain || self is Scan
    }

    /// How many more queues a worker asks at most before a pass through the loop is over, once it
    /// has asked the shared queue.
    pub open spec fn questions_left(self, peers: int) -> int {
        match self {
            Phase::Fill { left } => peers + 1 + left,
            Phase::Drain => peers + 1,
            Phase::Scan { peer, .. } => peers - peer,
            _ => 0,
        }
    }

    /// Whether the worker is about to ask some queue for tasks.
    pub fn is_asking(&self) -> (yes: bool)
        ensures
            yes == self.asks(),
    {
        matches!(self, Phase::Fetch | Phase::Fill { .. } | Phase::Drain | Phase::Scan { .. })
    }

    /// Whether the worker is at the start of its loop.
    pub fn is_start(&self) -> (yes: bool)
        ensures
            yes == (self is Fetch),
    {
        matches!(self, Phase::Fetch)
    }

    /// The worker got here by finding its own queue empty.
    pub open spec fn is_drained(self) -> bool {
        self is Scan || self is Park || self is Asleep || self is Done
    }

    /// A worker that scans asks another worker, never itself, and one that moves tasks has some
    /// left to move.
    pub open spec fn is_valid(self, id: int, peers: int) -> bool {
        match self {
            Phase::Scan { peer, .. } => peer < peers && peer != id,
            Phase::Fill { left } => left > 0,
            _ => true,
        }
    }

    /// How many times in a row the worker is still to move a task from the shared queue to its own,
    /// once it has begun to.
    pub open spec fn moves_left(self) -> usize {
        match self {
            Phase::Fill { left } => left,
            _ => 0,
        }
    }

    /// How many times in a row the worker is still to move a task from the shared queue to its own,
    /// once it has begun to.
    pub fn left_to_move(&self) -> (left: usize)
        ensures
            left == self.moves_left(),
    {
        match self {
            Phase::Fill { left } => *left,
            _ => 0,
        }
    }

    fn scan(from: usize, clear: bool, id: usize, peers: usize) -> (phase: Phase)
        requires
            from <= peers,
            id < peers,
        ensures
            phase == Phase::scan_from(from as int, clear, id as int, peers as int),
    {
        let peer: usize = if from == id {
            from + 1
        } else {
            from
        };
        if peer < peers {
            Phase::Scan { peer, clear }
        } else if clear {
            Phase::Park
        } else {
            Phase::Fetch
        }
    }

    /// The phase that follows when `event` comes, for worker number `id` of `peers`.
    pub fn advance(self, event: Event, id: usize, peers: usize) -> (next: Phase)
        requires
            id < peers,
            self.admits(event),
            self.is_valid(id as int, peers as int),
        ensures
            next == self.after(event, id as int, peers as int),
            next.is_valid(id as int, peers as int),
    {
        match (self, event) {
            (Phase::Fetch | Phase::Fill { .. }, Event::Global { reply, .. }) => match reply {
                Reply::Success(task) => Phase::Run { task, source: Source::Global },
                Reply::Retry => Phase::Fetch,
                Reply::Empty => Phase::Drain,
            },
            (Phase::Fetch | Phase::Fill { .. }, Event::Pulled { left, .. }) => if left > 0 {
                Phase::Fill { left }
            } else {
                Phase::Drain
            },
            (Phase::Fetch | Phase::Fill { .. }, _) => Phase::Drain,
            (Phase::Drain, Event::Local(Some(task))) => Phase::Run { task, source: Source::Local },
            (Phase::Drain, _) => Phase::scan(0, true, id, peers),
            (Phase::Scan { peer, clear }, Event::Peer(reply)) => match reply {
                Reply::Success(task) => Phase::Run { task, source: Source::Peer(peer) },
                Reply::Retry => Phase::scan(peer + 1, false, id, peers),
                Reply::Empty => Phase::scan(peer + 1, clear, id, peers),
            },
            (Phase::Park, Event::Checked { global_empty, shutdown }) => if !global_empty {
                Phase::Fetch
            } else if shutdown {
                Phase::Done
            } else {
                Phase::Asleep
            },
            _ => Phase::Fetch,
        }
    }
}

} // verus!
