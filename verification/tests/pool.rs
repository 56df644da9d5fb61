use std::cell::{Cell, RefCell};
use std::rc::Rc;

use worker_pool::{Action, ThreadPool};

type Job = Box<dyn FnOnce()>;

fn counting(counter: &Rc<Cell<usize>>) -> Job {
    let counter = Rc::clone(counter);
    Box::new(move || counter.set(counter.get() + 1))
}

fn logging(log: &Rc<RefCell<Vec<String>>>, name: &str) -> Job {
    let log = Rc::clone(log);
    let name = name.to_string();
    Box::new(move || {
        log.borrow_mut().push(format!("{} starts", name));
        log.borrow_mut().push(format!("{} ends", name));
    })
}

#[test]
fn lib_new_success() {
    let _pool: ThreadPool<Job> = ThreadPool::new(5);
}

#[test]
fn pool_new_success() {
    let _pool: ThreadPool<Job> = ThreadPool::new(5);
}

#[test]
fn lib_execute_one_success() {
    let mut tp: ThreadPool<Job> = ThreadPool::new(1);
    tp.execute(Box::new(|| println!("Hello world!")));
    tp.shutdown();
}

#[test]
fn pool_execute_one_success() {
    let mut tp: ThreadPool<Job> = ThreadPool::new(1);
    tp.execute(Box::new(|| println!("Hello world!")));
    tp.shutdown();
}

#[test]
fn execute_five_success() {
    let mut tp: ThreadPool<Job> = ThreadPool::new(3);
    tp.execute(Box::new(|| println!("First (#1) job done!")));
    tp.execute(Box::new(|| println!("Second (#2) job done!")));
    tp.execute(Box::new(|| println!("Third (#3) job done!")));
    tp.execute(Box::new(|| println!("Fourth (#4) job done!")));
    tp.execute(Box::new(|| println!("Fifth (#5) job done!")));
    tp.shutdown();
}

#[test]
fn new_pool_has_all_workers_running() {
    for size in [1usize, 2, 5, 64] {
        let pool: ThreadPool<Job> = ThreadPool::new(size);
        assert_eq!(pool.size(), size);
        assert_eq!(pool.live_workers(), size);
        assert_eq!(pool.pending(), 0);
        assert!(pool.is_accepting());
    }
}

#[test]
fn execute_queues_without_running() {
    let counter = Rc::new(Cell::new(0usize));
    let mut pool: ThreadPool<Job> = ThreadPool::new(2);
    pool.execute(counting(&counter));
    pool.execute(counting(&counter));
    assert_eq!(pool.pending(), 2);
    assert_eq!(counter.get(), 0);
    assert_eq!(pool.live_workers(), 2);
    assert!(pool.is_accepting());
}

#[test]
fn five_jobs_on_three_workers_each_run_once() {
    let counter = Rc::new(Cell::new(0usize));
    let slots: Rc<RefCell<Vec<u32>>> = Rc::new(RefCell::new(vec![0; 5]));
    let mut pool: ThreadPool<Job> = ThreadPool::new(3);
    for slot in 0..5usize {
        let counter = Rc::clone(&counter);
        let slots = Rc::clone(&slots);
        pool.execute(Box::new(move || {
            counter.set(counter.get() + 1);
            slots.borrow_mut()[slot] += 1;
        }));
    }
    pool.shutdown();
    assert_eq!(counter.get(), 5);
    assert_eq!(*slots.borrow(), vec![1, 1, 1, 1, 1]);
    assert_eq!(pool.live_workers(), 0);
    assert_eq!(pool.pending(), 0);
}

#[test]
fn one_worker_runs_two_jobs_one_after_the_other() {
    let log = Rc::new(RefCell::new(Vec::new()));
    let mut pool: ThreadPool<Job> = ThreadPool::new(1);
    pool.execute(logging(&log, "A"));
    pool.execute(logging(&log, "B"));
    pool.shutdown();
    assert_eq!(*log.borrow(), vec!["A starts", "A ends", "B starts", "B ends"]);
}

#[test]
fn shutdown_of_an_idle_pool_completes() {
    let mut pool: ThreadPool<Job> = ThreadPool::new(4);
    pool.shutdown();
    assert_eq!(pool.size(), 4);
    assert_eq!(pool.live_workers(), 0);
    assert_eq!(pool.pending(), 0);
    assert!(!pool.is_accepting());
}

#[test]
fn shutdown_twice_changes_nothing() {
    let counter = Rc::new(Cell::new(0usize));
    let mut pool: ThreadPool<Job> = ThreadPool::new(2);
    pool.execute(counting(&counter));
    pool.shutdown();
    pool.shutdown();
    assert_eq!(counter.get(), 1);
    assert_eq!(pool.live_workers(), 0);
    assert_eq!(pool.pending(), 0);
}

#[test]
fn begin_shutdown_queues_one_signal_per_worker() {
    let counter = Rc::new(Cell::new(0usize));
    let mut pool: ThreadPool<Job> = ThreadPool::new(3);
    pool.execute(counting(&counter));
    pool.execute(counting(&counter));
    pool.begin_shutdown();
    assert_eq!(pool.pending(), 2 + 3);
    assert!(!pool.is_accepting());
    assert_eq!(pool.live_workers(), 3);
    pool.begin_shutdown();
    assert_eq!(pool.pending(), 2 + 3);
}

#[test]
fn dispatch_hands_out_jobs_in_submission_order() {
    let log = Rc::new(RefCell::new(Vec::new()));
    let mut pool: ThreadPool<Job> = ThreadPool::new(2);
    for name in ["first", "second", "third", "fourth"] {
        pool.execute(logging(&log, name));
    }
    for worker in [1usize, 0, 0, 1] {
        match pool.dispatch(worker) {
            Action::Run(job) => job(),
            _ => panic!("a job was queued"),
        }
    }
    assert_eq!(
        *log.borrow(),
        vec![
            "first starts",
            "first ends",
            "second starts",
            "second ends",
            "third starts",
            "third ends",
            "fourth starts",
            "fourth ends"
        ]
    );
    assert_eq!(pool.pending(), 0);
    assert_eq!(pool.live_workers(), 2);
}

#[test]
fn dispatch_tells_an_idle_worker_to_wait() {
    let mut pool: ThreadPool<Job> = ThreadPool::new(2);
    assert!(matches!(pool.dispatch(0), Action::Wait));
    assert!(matches!(pool.dispatch(1), Action::Wait));
    assert_eq!(pool.live_workers(), 2);
    assert_eq!(pool.pending(), 0);
}

#[test]
fn dispatch_tells_a_stranger_to_exit() {
    let counter = Rc::new(Cell::new(0usize));
    let mut pool: ThreadPool<Job> = ThreadPool::new(2);
    pool.execute(counting(&counter));
    assert!(matches!(pool.dispatch(2), Action::Exit));
    assert!(matches!(pool.dispatch(usize::MAX), Action::Exit));
    assert_eq!(pool.pending(), 1);
    assert_eq!(pool.live_workers(), 2);
}

#[test]
fn each_worker_receives_exactly_one_signal() {
    let counter = Rc::new(Cell::new(0usize));
    let mut pool: ThreadPool<Job> = ThreadPool::new(3);
    pool.execute(counting(&counter));
    pool.begin_shutdown();

    match pool.dispatch(2) {
        Action::Run(job) => job(),
        _ => panic!("the job stands ahead of the signals"),
    }
    assert_eq!(counter.get(), 1);

    assert!(matches!(pool.dispatch(2), Action::Exit));
    assert_eq!(pool.live_workers(), 2);
    assert_eq!(pool.pending(), 2);

    // A stopped worker takes nothing more.
    assert!(matches!(pool.dispatch(2), Action::Exit));
    assert_eq!(pool.live_workers(), 2);
    assert_eq!(pool.pending(), 2);

    assert!(matches!(pool.dispatch(0), Action::Exit));
    assert!(matches!(pool.dispatch(1), Action::Exit));
    assert_eq!(pool.live_workers(), 0);
    assert_eq!(pool.pending(), 0);
}

#[test]
fn jobs_queued_before_shutdown_run_before_it_returns() {
    let log = Rc::new(RefCell::new(Vec::new()));
    let mut pool: ThreadPool<Job> = ThreadPool::new(2);
    pool.execute(logging(&log, "early"));
    match pool.dispatch(0) {
        Action::Run(job) => job(),
        _ => panic!("a job was queued"),
    }
    pool.execute(logging(&log, "late"));
    pool.execute(logging(&log, "last"));
    pool.shutdown();
    assert_eq!(
        *log.borrow(),
        vec!["early starts", "early ends", "late starts", "late ends", "last starts", "last ends"]
    );
    assert_eq!(pool.live_workers(), 0);
    for worker in 0..2 {
        assert!(matches!(pool.dispatch(worker), Action::Exit));
    }
}

#[test]
fn shutdown_finishes_what_begin_shutdown_started() {
    let counter = Rc::new(Cell::new(0usize));
    let mut pool: ThreadPool<Job> = ThreadPool::new(3);
    for _ in 0..4 {
        pool.execute(counting(&counter));
    }
    pool.begin_shutdown();
    match pool.dispatch(1) {
        Action::Run(job) => job(),
        _ => panic!("a job was queued"),
    }
    pool.shutdown();
    assert_eq!(counter.get(), 4);
    assert_eq!(pool.live_workers(), 0);
    assert_eq!(pool.pending(), 0);
}
