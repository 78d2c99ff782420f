//! Workers that take turns on one thread.

use crossbeam::deque::{Injector, Worker};
use dreadpool::numbering::Numbering;
use dreadpool::phase::{Event, Phase, Reply, Source};
use dreadpool::pool::{Notify, IDEAL_WORKER_BACKLOG};
use dreadpool::worker::{Intake, WorkerContext};
use dreadpool::{seg, ThreadPool, ThreadPoolBuilder};

fn new_pool(num_threads: usize) -> (ThreadPool, Vec<WorkerContext<Injector<u64>>>) {
    let mut pool = ThreadPool::builder().with_threads(num_threads).build();
    let workers = pool.take_workers();
    (pool, workers)
}

/// Polls until the worker does something else than to start over, and tells it that its task has
/// been run.
fn run_one<G: Intake>(worker: &mut WorkerContext<G>) -> Option<(u64, Source)> {
    loop {
        match worker.poll() {
            Phase::Fetch => {}
            Phase::Run { task, source } => {
                worker.finished();
                return Some((task, source));
            }
            _ => return None,
        }
    }
}

#[test]
fn a_builder_keeps_its_settings() {
    let mut pool = ThreadPoolBuilder::default()
        .with_threads(3)
        .with_thread_name("test pool")
        .with_stack_size(4096)
        .build();
    let workers = pool.take_workers();
    assert_eq!(workers.len(), 3);
    for (i, worker) in workers.iter().enumerate() {
        assert_eq!(worker.id(), i);
        assert_eq!(worker.phase(), Phase::Fetch);
        let settings = worker.thread_settings();
        assert_eq!(settings.name.as_deref(), Some("test pool"));
        assert_eq!(settings.stack_size, Some(4096));
    }
    assert!(pool.take_workers().is_empty());
}

#[test]
fn a_blank_builder_asks_for_every_processor() {
    let mut pool = ThreadPool::builder().build();
    let workers = pool.take_workers();
    assert_eq!(workers.len(), num_cpus::get());
    let settings = workers[0].thread_settings();
    assert!(settings.name.is_none());
    assert!(settings.stack_size.is_none());
}

#[test]
fn the_number_of_processors_counts_only_where_no_number_is_set() {
    assert_eq!(ThreadPool::builder().build_on(6).take_workers().len(), 6);
    assert_eq!(ThreadPool::builder().with_threads(2).build_on(6).take_workers().len(), 2);
    assert_eq!(ThreadPool::builder().with_threads(0).build_on(6).take_workers().len(), 0);
}

#[test]
fn a_task_enters_the_shared_queue_once() {
    let (mut pool, mut workers) = new_pool(1);
    pool.spawn(4);
    assert_eq!(run_one(&mut workers[0]), Some((4, Source::Global)));
    assert_eq!(run_one(&mut workers[0]), None);
    let mut plain = seg::ThreadPool::new(1);
    let mut workers = plain.take_workers();
    plain.spawn(5);
    assert_eq!(run_one(&mut workers[0]), Some((5, Source::Local)));
    assert_eq!(run_one(&mut workers[0]), None);
}

#[test]
fn task_numbers_never_recur() {
    let mut numbers = Numbering::default();
    let drawn: Vec<_> = (0..5).map(|_| numbers.draw()).collect();
    assert_eq!(drawn, vec![Some(0), Some(1), Some(2), Some(3), Some(4)]);
}

#[test]
fn the_last_setting_counts_and_a_clone_is_its_own() {
    let builder = ThreadPool::builder().with_threads(5).with_threads(2);
    let other = builder.clone().with_threads(1).with_owned_name(String::from("other"));
    assert_eq!(builder.build().take_workers().len(), 2);
    let workers = other.build().take_workers();
    assert_eq!(workers.len(), 1);
    assert_eq!(workers[0].thread_settings().name.as_deref(), Some("other"));
}

#[test]
fn a_pool_may_have_no_worker() {
    let (mut pool, workers) = new_pool(0);
    assert!(workers.is_empty());
    assert_eq!(pool.spawn(1), Notify::One);
    assert_eq!(pool.spawn(2), Notify::One);
    // whoever waits for the pool is given a worker, without whom nobody would run the tasks
    let (mut pool, wake) = pool.join();
    assert_eq!(wake, Notify::All);
    assert!(pool.is_closing());
    let mut workers = pool.take_workers();
    assert_eq!(workers.len(), 1);
    assert_eq!(run_one(&mut workers[0]), Some((1, Source::Global)));
    assert_eq!(run_one(&mut workers[0]), Some((2, Source::Global)));
    assert_eq!(run_one(&mut workers[0]), None);
    workers[0].check(pool.is_closing());
    assert_eq!(workers[0].phase(), Phase::Done);
}

#[test]
fn only_a_pool_of_no_workers_is_given_one() {
    let builder = ThreadPool::builder().with_thread_name("late").with_stack_size(8192);
    let mut pool = builder.clone().with_threads(2).build();
    assert_eq!(pool.take_workers().len(), 2);
    pool.staff();
    assert!(pool.take_workers().is_empty());
    let mut pool = builder.with_threads(0).build();
    pool.staff();
    assert!(!pool.is_closing());
    let workers = pool.take_workers();
    assert_eq!(workers.len(), 1);
    assert_eq!(workers[0].id(), 0);
    let settings = workers[0].thread_settings();
    assert_eq!(settings.name.as_deref(), Some("late"));
    assert_eq!(settings.stack_size, Some(8192));
    pool.staff();
    assert!(pool.take_workers().is_empty());
}

#[test]
fn tasks_are_fetched_in_the_order_they_were_spawned() {
    let (mut pool, mut workers) = new_pool(1);
    assert_eq!(pool.spawn(11), Notify::One);
    assert_eq!(pool.spawn(22), Notify::One);
    assert_eq!(run_one(&mut workers[0]), Some((11, Source::Global)));
    assert_eq!(run_one(&mut workers[0]), Some((22, Source::Global)));
    assert_eq!(run_one(&mut workers[0]), None);
    assert_eq!(workers[0].phase(), Phase::Park);
}

#[test]
fn a_batch_enters_the_local_queue_in_order() {
    let (mut pool, mut workers) = new_pool(1);
    for task in 1..=6 {
        pool.spawn(task);
    }
    let worker = &mut workers[0];
    // half of the six tasks are taken, the first of which is run
    assert_eq!(
        worker.step(),
        Event::Global { limit: 10, reply: Reply::Success(1) }
    );
    worker.finished();
    // two tasks are in the local queue now, and the next two leave for it together
    assert_eq!(
        worker.step(),
        Event::Global { limit: 8, reply: Reply::Success(4) }
    );
    worker.finished();
    assert_eq!(
        worker.step(),
        Event::Global { limit: 7, reply: Reply::Success(6) }
    );
    worker.finished();
    let rest: Vec<_> = (0..3).map(|_| run_one(worker)).collect();
    assert_eq!(
        rest,
        vec![Some((2, Source::Local)), Some((3, Source::Local)), Some((5, Source::Local))]
    );
    assert_eq!(run_one(worker), None);
}

#[test]
fn a_worker_never_has_a_full_backlog() {
    let (mut pool, mut workers) = new_pool(1);
    for task in 0..200 {
        pool.spawn(task);
    }
    let mut run = 0;
    loop {
        match workers[0].step() {
            Event::Global { limit, reply } => {
                assert!(1 <= limit && limit <= IDEAL_WORKER_BACKLOG);
                if matches!(reply, Reply::Success(_)) {
                    run += 1;
                    workers[0].finished();
                }
            }
            Event::Local(Some(_)) => {
                run += 1;
                workers[0].finished();
            }
            Event::Local(None) => break,
            event => panic!("unexpected {event:?}"),
        }
    }
    assert_eq!(run, 200);
}

#[test]
fn an_idle_worker_steals_from_the_front_of_another() {
    let (mut pool, mut workers) = new_pool(3);
    for task in 1..=8 {
        pool.spawn(task);
    }
    // worker 1 takes the first half, of which it runs one task, and then what is left over
    assert_eq!(run_one(&mut workers[1]), Some((1, Source::Global)));
    assert_eq!(run_one(&mut workers[1]), Some((5, Source::Global)));
    assert_eq!(run_one(&mut workers[1]), Some((7, Source::Global)));
    assert_eq!(run_one(&mut workers[1]), Some((8, Source::Global)));
    // worker 2 asks worker 0 in vain before worker 1
    assert_eq!(run_one(&mut workers[2]), Some((2, Source::Peer(1))));
    assert_eq!(run_one(&mut workers[2]), Some((3, Source::Local)));
}

#[test]
fn every_task_is_run_exactly_once() {
    let (mut pool, mut workers) = new_pool(4);
    let mut seen = vec![0; 100];
    for task in 0..100 {
        pool.spawn(task);
    }
    let mut idle = 0;
    let mut turn = 0;
    while idle < 4 {
        match run_one(&mut workers[turn % 4]) {
            Some((task, _)) => {
                seen[task as usize] += 1;
                idle = 0;
            }
            None => idle += 1,
        }
        turn += 1;
    }
    assert_eq!(seen, vec![1; 100]);
}

#[test]
fn a_parked_worker_sleeps_wakes_and_leaves() {
    let (mut pool, mut workers) = new_pool(1);
    let worker = &mut workers[0];
    assert_eq!(run_one(worker), None);
    assert_eq!(worker.phase(), Phase::Park);
    assert!(!pool.is_closing());
    assert_eq!(worker.check(pool.is_closing()), Event::Checked { global_empty: true, shutdown: false });
    assert_eq!(worker.phase(), Phase::Asleep);
    // a worker that sleeps stays asleep until it is told
    assert_eq!(worker.poll(), Phase::Asleep);
    pool.spawn(3);
    worker.woken();
    assert_eq!(run_one(worker), Some((3, Source::Global)));
    assert_eq!(run_one(worker), None);
    assert_eq!(pool.shut_down(), Notify::All);
    assert!(pool.is_closing());
    assert_eq!(worker.check(true), Event::Checked { global_empty: true, shutdown: true });
    assert_eq!(worker.phase(), Phase::Done);
    assert_eq!(worker.poll(), Phase::Done);
}

#[test]
fn a_task_that_comes_in_the_last_moment_keeps_a_worker_awake() {
    let (mut pool, mut workers) = new_pool(1);
    let worker = &mut workers[0];
    assert_eq!(run_one(worker), None);
    pool.spawn(8);
    pool.shut_down();
    assert_eq!(
        worker.check(pool.is_closing()),
        Event::Checked { global_empty: false, shutdown: true }
    );
    assert_eq!(worker.phase(), Phase::Fetch);
    assert_eq!(run_one(worker), Some((8, Source::Global)));
    assert_eq!(run_one(worker), None);
    worker.check(pool.is_closing());
    assert_eq!(worker.phase(), Phase::Done);
}

#[test]
fn a_replacement_goes_on_with_the_same_queue() {
    let (mut pool, mut workers) = new_pool(2);
    for task in 1..=4 {
        pool.spawn(task);
    }
    assert_eq!(workers[0].poll(), Phase::Run { task: 1, source: Source::Global });
    let mut heir = workers[0].replacement();
    assert_eq!(heir.id(), 0);
    assert_eq!(heir.phase(), Phase::Fetch);
    // the other worker still reaches the queue of the one that died
    assert_eq!(run_one(&mut workers[1]), Some((3, Source::Global)));
    assert_eq!(run_one(&mut workers[1]), Some((4, Source::Global)));
    assert_eq!(run_one(&mut workers[1]), Some((2, Source::Peer(0))));
    assert_eq!(run_one(&mut heir), None);
    // what the heir fetches can be stolen from it in turn
    for task in 5..=8 {
        pool.spawn(task);
    }
    heir.check(false);
    assert_eq!(run_one(&mut heir), Some((5, Source::Global)));
    assert_eq!(run_one(&mut heir), Some((7, Source::Global)));
    assert_eq!(run_one(&mut heir), Some((8, Source::Global)));
    assert_eq!(run_one(&mut workers[1]), Some((6, Source::Peer(0))));
}

#[test]
fn the_plain_pool_moves_a_handful_before_it_runs_any() {
    let mut pool = seg::ThreadPool::new(2);
    let mut workers = pool.take_workers();
    assert_eq!(workers.len(), 2);
    assert!(workers[0].thread_settings().name.is_none());
    for task in 1..=6 {
        assert_eq!(pool.spawn(task), Notify::One);
    }
    let (first, second) = workers.split_at_mut(1);
    let (first, second) = (&mut first[0], &mut second[0]);
    // one task at a time, without looking at the backlog again
    for (task, left) in [(1, 3), (2, 2), (3, 1), (4, 0)] {
        assert_eq!(first.step(), Event::Pulled { task: Some(task), left });
    }
    assert_eq!(first.phase(), Phase::Drain);
    assert_eq!(first.step(), Event::Local(Some(1)));
    first.finished();
    // two tasks are left in the shared queue, and the other worker moves both
    assert_eq!(run_one(second), Some((5, Source::Local)));
    assert_eq!(run_one(second), Some((6, Source::Local)));
    assert_eq!(run_one(second), Some((2, Source::Peer(0))));
    assert_eq!(run_one(second), Some((3, Source::Local)));
    assert_eq!(run_one(first), Some((4, Source::Local)));
    assert_eq!(run_one(first), None);
    assert_eq!(pool.shut_down(), Notify::All);
    first.check(pool.is_closing());
    assert_eq!(first.phase(), Phase::Done);
}

#[test]
fn the_plain_pool_stops_topping_off_at_its_ideal_backlog() {
    let mut pool = seg::ThreadPool::new(1);
    let mut workers = pool.take_workers();
    for task in 0..20 {
        pool.spawn(task);
    }
    let order: Vec<_> = (0..20).map(|_| run_one(&mut workers[0])).collect();
    let expected: Vec<_> = (0..20).map(|task| Some((task, Source::Local))).collect();
    assert_eq!(order, expected);
    assert_eq!(seg::BATCH_GRAB_COUNT, 4);
    assert_eq!(seg::IDEAL_WORKER_BACKLOG, 8);
}

#[test]
fn an_empty_shared_queue_leaves_a_plain_worker_to_its_own() {
    let mut pool = seg::ThreadPool::new(1);
    let mut workers = pool.take_workers();
    assert!(!pool.is_closing());
    assert_eq!(workers[0].step(), Event::Dry);
    assert_eq!(workers[0].phase(), Phase::Drain);
    pool.spawn(7);
    assert_eq!(workers[0].step(), Event::Local(None));
    assert_eq!(workers[0].phase(), Phase::Park);
    assert_eq!(workers[0].check(false), Event::Checked { global_empty: false, shutdown: false });
    // the shared queue runs dry while tasks are being moved, which are tried for all the same
    assert_eq!(workers[0].step(), Event::Pulled { task: Some(7), left: 3 });
    assert_eq!(workers[0].phase(), Phase::Fill { left: 3 });
    assert_eq!(workers[0].step(), Event::Pulled { task: None, left: 2 });
    pool.spawn(8);
    assert_eq!(workers[0].step(), Event::Pulled { task: Some(8), left: 1 });
    assert_eq!(workers[0].step(), Event::Pulled { task: None, left: 0 });
    assert_eq!(run_one(&mut workers[0]), Some((7, Source::Local)));
    assert_eq!(run_one(&mut workers[0]), Some((8, Source::Local)));
}

#[test]
fn a_task_that_is_taken_in_goes_to_the_back() {
    let mut queue = Worker::new_fifo();
    seg::take_in(&mut queue, Some(4));
    seg::take_in(&mut queue, None);
    seg::take_in(&mut queue, Some(5));
    assert_eq!(queue.len(), 2);
    assert_eq!(queue.pop(), Some(4));
    assert_eq!(queue.pop(), Some(5));
    assert_eq!(queue.pop(), None);
}

#[test]
fn a_lone_plain_worker_runs_tasks_in_the_order_they_were_spawned() {
    let mut pool = seg::ThreadPool::new(1);
    let mut workers = pool.take_workers();
    for task in 1..=10 {
        pool.spawn(task);
    }
    pool.shut_down();
    let mut order = Vec::new();
    while let Some((task, _)) = run_one(&mut workers[0]) {
        order.push(task);
    }
    workers[0].check(pool.is_closing());
    assert_eq!(workers[0].phase(), Phase::Done);
    assert_eq!(order, (1..=10).collect::<Vec<u64>>());
}

#[test]
fn a_worker_runs_what_others_hold_before_it_leaves() {
    let (mut pool, mut workers) = new_pool(2);
    for task in 1..=7 {
        pool.spawn(task);
    }
    // the other worker takes some tasks, and its thread gets no further
    assert_eq!(workers[1].poll(), Phase::Run { task: 1, source: Source::Global });
    pool.shut_down();
    let mut seen = Vec::new();
    while let Some((task, _)) = run_one(&mut workers[0]) {
        seen.push(task);
    }
    workers[0].check(pool.is_closing());
    assert_eq!(workers[0].phase(), Phase::Done);
    seen.sort();
    assert_eq!(seen, vec![2, 3, 4, 5, 6, 7]);
}

#[test]
fn two_pools_of_one_builder_share_nothing() {
    let builder = ThreadPool::builder().with_threads(1);
    let mut first = builder.clone().build();
    let mut second = builder.build();
    first.spawn(1);
    assert_eq!(run_one(&mut second.take_workers()[0]), None);
    assert_eq!(run_one(&mut first.take_workers()[0]), Some((1, Source::Global)));
    first.shut_down();
    assert!(first.is_closing());
    assert!(!second.is_closing());
}

#[test]
fn a_plain_worker_begins_to_move_tasks_only_where_it_lacks_some() {
    assert_eq!(seg::tries_left(0, false, 0), Some(3));
    assert_eq!(seg::tries_left(0, false, 7), Some(3));
    assert_eq!(seg::tries_left(0, false, 8), None);
    assert_eq!(seg::tries_left(0, true, 0), None);
    // once it has begun it looks at neither queue again
    assert_eq!(seg::tries_left(3, true, 9), Some(2));
    assert_eq!(seg::tries_left(1, false, 0), Some(0));
}
