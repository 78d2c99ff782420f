//! Pools with real threads: one thread for each worker, which does what the worker says.

use std::collections::HashMap;
use std::sync::{Arc, Condvar, Mutex};
use std::time;

use dreadpool::phase::Phase;
use dreadpool::pool::Notify;
use dreadpool::seg;
use dreadpool::worker::{Intake, WorkerContext};
use dreadpool::ThreadPoolBuilder;

type Task = Box<dyn FnOnce() + Send>;

#[derive(Default)]
struct Floor {
    tasks: Mutex<HashMap<u64, Task>>,
    mcv: (Condvar, Mutex<bool>),
}

impl Floor {
    fn wake(&self, wake: Notify) {
        match wake {
            Notify::One => self.mcv.0.notify_one(),
            Notify::All => self.mcv.0.notify_all(),
        }
    }

    fn work<G: Intake>(&self, worker: &mut WorkerContext<G>) {
        loop {
            match worker.poll() {
                Phase::Run { task, .. } => {
                    let job = self.tasks.lock().unwrap().remove(&task);
                    job.expect("every task is run once")();
                    worker.finished();
                }
                Phase::Park => {
                    let guard = self.mcv.1.lock().unwrap();
                    worker.check(*guard);
                    if worker.phase() == Phase::Asleep {
                        let _guard = self.mcv.0.wait(guard).unwrap();
                        worker.woken();
                    }
                }
                Phase::Done => return,
                _ => {}
            }
        }
    }

    /// Runs a worker, and the one that replaces it when a task panics, and so on.
    fn keep_working<G: Intake + Send + Sync>(&self, worker: WorkerContext<G>) {
        let seat = Mutex::new(worker);
        loop {
            let outcome = crossbeam::scope(|s| {
                s.spawn(|_| self.work(&mut seat.lock().unwrap())).join()
            })
            .unwrap();
            if outcome.is_ok() {
                return;
            }
            seat.clear_poison();
            let mut dead = seat.lock().unwrap();
            let heir = dead.replacement();
            assert_eq!(heir.id(), dead.id());
            *dead = heir;
        }
    }

    fn spawn(&self, number: u64, task: Task, submit: impl FnOnce(u64) -> Notify) {
        let _guard = self.mcv.1.lock().unwrap();
        self.tasks.lock().unwrap().insert(number, task);
        self.wake(submit(number));
    }

    fn shut_down(&self, signal: impl FnOnce() -> (Notify, bool)) {
        let mut closing = self.mcv.1.lock().unwrap();
        let (wake, now) = signal();
        *closing = now;
        self.wake(wake);
    }
}

/// Builds a pool, lets its threads run the tasks, and waits for all of them.
fn run(builder: ThreadPoolBuilder, tasks: Vec<Task>) {
    let floor = Floor::default();
    let mut pool = builder.build();
    crossbeam::scope(|s| {
        for worker in pool.take_workers() {
            s.spawn(|_| floor.keep_working(worker));
        }
        for (number, task) in tasks.into_iter().enumerate() {
            floor.spawn(number as u64, task, |number| pool.spawn(number));
        }
        floor.shut_down(|| (pool.shut_down(), pool.is_closing()));
    })
    .unwrap();
    assert!(floor.tasks.lock().unwrap().is_empty());
}

fn count_up(counter: &Arc<Mutex<usize>>) -> Task {
    let counter = Arc::clone(counter);
    Box::new(move || {
        for _ in 0..rand::random_range(0..=400) {
            std::hint::spin_loop();
        }
        let mut n = counter.lock().unwrap();
        *n += 1;
    })
}

#[test]
fn a_pool_of_no_threads_runs_its_tasks_when_it_is_joined() {
    let counter = Arc::new(Mutex::new(0));
    let floor = Floor::default();
    let mut pool = ThreadPoolBuilder::default().with_threads(0).build();
    floor.spawn(0, count_up(&counter), |number| pool.spawn(number));
    let (mut pool, wake) = pool.join();
    floor.shut_down(|| (wake, pool.is_closing()));
    crossbeam::scope(|s| {
        for worker in pool.take_workers() {
            s.spawn(|_| floor.keep_working(worker));
        }
    })
    .unwrap();
    assert_eq!(*counter.lock().unwrap(), 1);
}

#[test]
fn lib_test_tasks_execute() {
    let expected = 100;
    let num_threads = 3;
    let stack_size = 1024 * 1024; // 1 MB thread stacks
    let builder = ThreadPoolBuilder::default()
        .with_threads(num_threads)
        .with_stack_size(stack_size)
        .with_thread_name("test pool");
    let counter = Arc::new(Mutex::new(0));
    let tasks = (0..expected).map(|_| count_up(&counter)).collect();
    run(builder, tasks);
    assert_eq!(*counter.lock().unwrap(), expected);
}

#[test]
fn test_thread_replacement_on_panic() {
    let counter = Arc::new(Mutex::new(0));
    let mut tasks: Vec<Task> = Vec::new();
    // trigger a panic on one worker
    tasks.push(Box::new(|| panic!("intentional panic")));
    // verify the pool is still functional
    for _ in 0..10 {
        tasks.push(count_up(&counter));
    }
    run(ThreadPoolBuilder::default().with_threads(2), tasks);
    assert_eq!(*counter.lock().unwrap(), 10);
}

#[test]
fn every_worker_may_be_replaced_many_times() {
    let counter = Arc::new(Mutex::new(0));
    let mut tasks: Vec<Task> = Vec::new();
    for _ in 0..10 {
        tasks.push(Box::new(|| panic!("intentional panic")));
        tasks.push(count_up(&counter));
    }
    run(ThreadPoolBuilder::default().with_threads(3), tasks);
    assert_eq!(*counter.lock().unwrap(), 10);
}

fn fib(n: usize) -> usize {
    if n == 1 || n == 0 {
        return 1;
    }
    fib(n - 1) + fib(n - 2)
}

#[test]
fn test_fib() {
    // establish a baseline for singlethreaded fib compute time.
    let start = time::Instant::now();
    let answer = fib(42);
    let baseline = start.elapsed();

    let num_threads = num_cpus::get();
    let num_tasks = num_threads * 3;

    // hand out fibs to the threadpool
    let mut tasks: Vec<Task> = Vec::new();
    for i in 0..num_tasks {
        tasks.push(Box::new(move || {
            let n = fib(42);
            assert_eq!(n, answer);
            println!("[{i}]: {n}");
        }));
    }
    let thread_start = time::Instant::now();
    run(ThreadPoolBuilder::default().with_threads(num_threads), tasks);
    let thread_end = thread_start.elapsed();
    println!(
        "Single thread took: {baseline:?}. Threadpool took {thread_end:?} for {num_tasks} runs"
    );
    assert!(thread_end < baseline * num_tasks as u32);
}

#[test]
fn main_test_tasks_execute() {
    let num_threads = 5;
    let expected = 100;
    let counter = Arc::new(Mutex::new(0));
    let floor = Floor::default();
    let mut pool = seg::ThreadPool::new(num_threads);
    crossbeam::scope(|s| {
        for mut worker in pool.take_workers() {
            let floor = &floor;
            s.spawn(move |_| floor.work(&mut worker));
        }
        for number in 0..expected {
            floor.spawn(number as u64, count_up(&counter), |number| pool.spawn(number));
        }
        floor.shut_down(|| (pool.shut_down(), pool.is_closing()));
    })
    .unwrap();
    assert_eq!(*counter.lock().unwrap(), expected);
}

#[test]
fn sleeping_workers_are_woken_for_later_tasks() {
    let counter = Arc::new(Mutex::new(0));
    let floor = Floor::default();
    let mut pool = ThreadPoolBuilder::default().with_threads(2).build();
    crossbeam::scope(|s| {
        for worker in pool.take_workers() {
            s.spawn(|_| floor.keep_working(worker));
        }
        for number in 0..20 {
            floor.spawn(number, count_up(&counter), |number| pool.spawn(number));
            // wait until the task has been run before there is another one
            while *counter.lock().unwrap() <= number as usize {
                std::hint::spin_loop();
            }
        }
        floor.shut_down(|| (pool.shut_down(), pool.is_closing()));
    })
    .unwrap();
    assert_eq!(*counter.lock().unwrap(), 20);
}
