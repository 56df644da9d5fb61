use worker_pool::{JobQueue, Message, RecvError};

#[test]
fn new_queue_is_open_and_empty() {
    let queue: JobQueue<u32> = JobQueue::new();
    assert!(queue.is_open());
    assert!(queue.is_empty());
    assert_eq!(queue.len(), 0);
}

#[test]
fn messages_come_out_in_the_order_they_went_in() {
    let mut queue: JobQueue<u32> = JobQueue::new();
    assert!(queue.send(Message::NewJob(7)).is_ok());
    assert!(queue.send(Message::Terminate).is_ok());
    assert!(queue.send(Message::NewJob(9)).is_ok());
    assert_eq!(queue.len(), 3);
    assert!(!queue.is_empty());
    assert!(matches!(queue.receive(), Ok(Message::NewJob(7))));
    assert!(matches!(queue.receive(), Ok(Message::Terminate)));
    assert!(matches!(queue.receive(), Ok(Message::NewJob(9))));
    assert_eq!(queue.len(), 0);
}

#[test]
fn receive_on_an_open_empty_queue_reports_empty() {
    let mut queue: JobQueue<u32> = JobQueue::new();
    assert!(matches!(queue.receive(), Err(RecvError::Empty)));
    assert!(queue.is_open());
    assert!(queue.send(Message::NewJob(1)).is_ok());
    assert!(matches!(queue.receive(), Ok(Message::NewJob(1))));
    assert!(matches!(queue.receive(), Err(RecvError::Empty)));
}

#[test]
fn send_on_a_closed_queue_hands_the_message_back() {
    let mut queue: JobQueue<u32> = JobQueue::new();
    assert!(queue.send(Message::NewJob(1)).is_ok());
    queue.close();
    assert!(!queue.is_open());
    assert!(matches!(queue.send(Message::NewJob(2)), Err(Message::NewJob(2))));
    assert!(matches!(queue.send(Message::Terminate), Err(Message::Terminate)));
    assert_eq!(queue.len(), 1);
}

#[test]
fn closed_queue_is_drained_before_it_reports_closed() {
    let mut queue: JobQueue<u32> = JobQueue::new();
    assert!(queue.send(Message::NewJob(1)).is_ok());
    assert!(queue.send(Message::NewJob(2)).is_ok());
    queue.close();
    assert!(matches!(queue.receive(), Ok(Message::NewJob(1))));
    assert!(matches!(queue.receive(), Ok(Message::NewJob(2))));
    assert!(matches!(queue.receive(), Err(RecvError::Closed)));
    assert!(matches!(queue.receive(), Err(RecvError::Closed)));
    assert_eq!(RecvError::Closed, RecvError::Closed);
    assert_ne!(RecvError::Closed, RecvError::Empty);
}
