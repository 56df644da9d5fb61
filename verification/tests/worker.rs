use std::cell::RefCell;
use std::rc::Rc;

use worker_pool::{Action, JobQueue, Message, Worker, WorkerState};

type Job = Box<dyn FnOnce()>;

fn noting(log: &Rc<RefCell<Vec<u32>>>, number: u32) -> Job {
    let log = Rc::clone(log);
    Box::new(move || log.borrow_mut().push(number))
}

#[test]
fn new_worker_is_running() {
    let worker = Worker::new(3);
    assert_eq!(worker.id(), 3);
    assert!(worker.is_running());
}

#[test]
fn a_job_leaves_the_worker_running() {
    let mut worker = Worker::new(0);
    assert!(matches!(worker.handle(Message::NewJob(41u32)), Action::Run(41)));
    assert!(worker.is_running());
    assert!(matches!(worker.handle(Message::NewJob(42u32)), Action::Run(42)));
    assert!(worker.is_running());
    assert_eq!(worker.id(), 0);
}

#[test]
fn a_signal_stops_the_worker() {
    let mut worker = Worker::new(8);
    assert!(matches!(worker.handle(Message::<u32>::Terminate), Action::Exit));
    assert!(!worker.is_running());
    assert_eq!(worker.id(), 8);
}

#[test]
fn poll_takes_the_oldest_message() {
    let mut queue: JobQueue<u32> = JobQueue::new();
    assert!(queue.send(Message::NewJob(5)).is_ok());
    assert!(queue.send(Message::Terminate).is_ok());
    assert!(queue.send(Message::NewJob(6)).is_ok());
    let mut worker = Worker::new(1);
    assert!(matches!(worker.poll(&mut queue), Action::Run(5)));
    assert!(worker.is_running());
    assert_eq!(queue.len(), 2);
    assert!(matches!(worker.poll(&mut queue), Action::Exit));
    assert!(!worker.is_running());
    assert_eq!(queue.len(), 1);
}

#[test]
fn poll_waits_when_nothing_is_pending() {
    let mut queue: JobQueue<u32> = JobQueue::new();
    let mut worker = Worker::new(1);
    assert!(matches!(worker.poll(&mut queue), Action::Wait));
    assert!(worker.is_running());
    assert_eq!(queue.len(), 0);
}

#[test]
fn run_stops_at_the_first_signal() {
    let log = Rc::new(RefCell::new(Vec::new()));
    let mut queue: JobQueue<Job> = JobQueue::new();
    assert!(queue.send(Message::NewJob(noting(&log, 1))).is_ok());
    assert!(queue.send(Message::NewJob(noting(&log, 2))).is_ok());
    assert!(queue.send(Message::Terminate).is_ok());
    assert!(queue.send(Message::NewJob(noting(&log, 3))).is_ok());
    assert!(queue.send(Message::Terminate).is_ok());

    let mut first = Worker::new(0);
    first.run(&mut queue);
    assert!(!first.is_running());
    assert_eq!(*log.borrow(), vec![1, 2]);
    assert_eq!(queue.len(), 2);

    let mut second = Worker::new(1);
    second.run(&mut queue);
    assert!(!second.is_running());
    assert_eq!(*log.borrow(), vec![1, 2, 3]);
    assert_eq!(queue.len(), 0);
}

#[test]
fn run_without_a_signal_empties_the_queue_and_stays_running() {
    let log = Rc::new(RefCell::new(Vec::new()));
    let mut queue: JobQueue<Job> = JobQueue::new();
    assert!(queue.send(Message::NewJob(noting(&log, 1))).is_ok());
    assert!(queue.send(Message::NewJob(noting(&log, 2))).is_ok());
    let mut worker = Worker::new(0);
    worker.run(&mut queue);
    assert!(worker.is_running());
    assert_eq!(*log.borrow(), vec![1, 2]);
    assert!(queue.is_empty());
    assert!(queue.is_open());
}

#[test]
fn run_on_a_closed_queue_serves_up_to_the_signal() {
    let log = Rc::new(RefCell::new(Vec::new()));
    let mut queue: JobQueue<Job> = JobQueue::new();
    assert!(queue.send(Message::NewJob(noting(&log, 1))).is_ok());
    assert!(queue.send(Message::Terminate).is_ok());
    queue.close();
    let mut worker = Worker::new(0);
    worker.run(&mut queue);
    assert!(!worker.is_running());
    assert_eq!(*log.borrow(), vec![1]);
    assert!(queue.is_empty());
    assert!(!queue.is_open());
}

#[test]
fn worker_states_compare() {
    assert_eq!(WorkerState::Running, WorkerState::Running);
    assert_ne!(WorkerState::Running, WorkerState::Terminated);
}
