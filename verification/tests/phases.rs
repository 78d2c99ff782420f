//! The decisions of a worker's loop, one event at a time.

use dreadpool::phase::{Event, Phase, Reply, Source};

#[test]
fn a_task_from_the_shared_queue_is_run_at_once() {
    let event = Event::Global { limit: 10, reply: Reply::Success(7) };
    assert_eq!(
        Phase::Fetch.advance(event, 0, 1),
        Phase::Run { task: 7, source: Source::Global }
    );
}

#[test]
fn a_retry_of_the_shared_queue_starts_over() {
    let event = Event::Global { limit: 10, reply: Reply::Retry };
    assert_eq!(Phase::Fetch.advance(event, 0, 1), Phase::Fetch);
}

#[test]
fn without_a_task_from_the_shared_queue_the_local_one_is_next() {
    let event = Event::Global { limit: 10, reply: Reply::Empty };
    assert_eq!(Phase::Fetch.advance(event, 0, 1), Phase::Drain);
    assert_eq!(Phase::Fetch.advance(Event::Filled, 0, 1), Phase::Drain);
    assert_eq!(Phase::Fetch.advance(Event::Dry, 0, 1), Phase::Drain);
}

#[test]
fn a_task_from_the_local_queue_is_run() {
    assert_eq!(
        Phase::Drain.advance(Event::Local(Some(5)), 1, 3),
        Phase::Run { task: 5, source: Source::Local }
    );
}

#[test]
fn the_scan_goes_through_the_others_in_order() {
    let empty = Event::Peer(Reply::Empty);
    let first = Phase::Drain.advance(Event::Local(None), 1, 4);
    assert_eq!(first, Phase::Scan { peer: 0, clear: true });
    let second = first.advance(empty, 1, 4);
    assert_eq!(second, Phase::Scan { peer: 2, clear: true });
    let third = second.advance(empty, 1, 4);
    assert_eq!(third, Phase::Scan { peer: 3, clear: true });
    assert_eq!(third.advance(empty, 1, 4), Phase::Park);
}

#[test]
fn the_first_and_the_last_worker_leave_themselves_out() {
    assert_eq!(
        Phase::Drain.advance(Event::Local(None), 0, 2),
        Phase::Scan { peer: 1, clear: true }
    );
    let last = Phase::Drain.advance(Event::Local(None), 1, 2);
    assert_eq!(last, Phase::Scan { peer: 0, clear: true });
    assert_eq!(last.advance(Event::Peer(Reply::Empty), 1, 2), Phase::Park);
}

#[test]
fn a_lone_worker_has_nobody_to_steal_from() {
    assert_eq!(Phase::Drain.advance(Event::Local(None), 0, 1), Phase::Park);
}

#[test]
fn a_stolen_task_is_run() {
    let scan = Phase::Scan { peer: 2, clear: false };
    assert_eq!(
        scan.advance(Event::Peer(Reply::Success(9)), 0, 3),
        Phase::Run { task: 9, source: Source::Peer(2) }
    );
}

#[test]
fn a_retry_while_scanning_starts_over_in_the_end() {
    let scan = Phase::Scan { peer: 1, clear: true };
    let next = scan.advance(Event::Peer(Reply::Retry), 0, 3);
    assert_eq!(next, Phase::Scan { peer: 2, clear: false });
    assert_eq!(next.advance(Event::Peer(Reply::Empty), 0, 3), Phase::Fetch);
}

#[test]
fn sleep_is_the_last_resort() {
    let check = |global_empty, shutdown| {
        Phase::Park.advance(Event::Checked { global_empty, shutdown }, 0, 1)
    };
    assert_eq!(check(false, false), Phase::Fetch);
    assert_eq!(check(false, true), Phase::Fetch);
    assert_eq!(check(true, true), Phase::Done);
    assert_eq!(check(true, false), Phase::Asleep);
}

#[test]
fn after_sleep_and_after_a_task_the_loop_starts_over() {
    assert_eq!(Phase::Asleep.advance(Event::Woken, 0, 1), Phase::Fetch);
    let running = Phase::Run { task: 1, source: Source::Local };
    assert_eq!(running.advance(Event::Finished, 0, 1), Phase::Fetch);
}

#[test]
fn only_some_phases_ask_a_queue() {
    assert!(Phase::Fetch.is_asking());
    assert!(Phase::Drain.is_asking());
    assert!(Phase::Scan { peer: 0, clear: true }.is_asking());
    assert!(!Phase::Park.is_asking());
    assert!(!Phase::Asleep.is_asking());
    assert!(!Phase::Done.is_asking());
    assert!(Phase::Fetch.is_start());
    assert!(!Phase::Drain.is_start());
}

#[test]
fn moving_tasks_goes_on_until_none_is_left_to_move() {
    let first = Phase::Fetch.advance(Event::Pulled { task: Some(1), left: 2 }, 0, 1);
    assert_eq!(first, Phase::Fill { left: 2 });
    assert_eq!(first.left_to_move(), 2);
    assert!(first.is_asking());
    assert!(!first.is_start());
    let second = first.advance(Event::Pulled { task: None, left: 1 }, 0, 1);
    assert_eq!(second, Phase::Fill { left: 1 });
    let third = second.advance(Event::Pulled { task: Some(2), left: 0 }, 0, 1);
    assert_eq!(third, Phase::Drain);
    assert_eq!(third.left_to_move(), 0);
}
