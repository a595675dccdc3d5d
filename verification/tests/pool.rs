use course_work_parallel_computing::channel::{Channel, Received};
use course_work_parallel_computing::inverted_index::InvertedIndex;
use course_work_parallel_computing::scheduler::{Scheduler, Task};
use course_work_parallel_computing::threadpool::ThreadPool;

#[test]
fn test_channel_is_first_in_first_out() {
    let mut channel: Channel<u32> = Channel::new();
    channel.send(1);
    channel.send(2);
    channel.send(3);
    assert_eq!(channel.len(), 3);
    assert!(matches!(channel.receive(), Received::Item(1)));
    assert!(matches!(channel.receive(), Received::Item(2)));
    channel.send(4);
    assert!(matches!(channel.receive(), Received::Item(3)));
    assert!(matches!(channel.receive(), Received::Item(4)));
    assert_eq!(channel.len(), 0);
}

#[test]
fn test_open_empty_channel_tells_the_receiver_to_wait() {
    let mut channel: Channel<u32> = Channel::new();
    assert!(!channel.is_closed());
    assert!(matches!(channel.receive(), Received::Wait));
    assert!(matches!(channel.receive(), Received::Wait));
    channel.send(9);
    assert!(matches!(channel.receive(), Received::Item(9)));
    assert!(matches!(channel.receive(), Received::Wait));
}

#[test]
fn test_closed_channel_is_drained_before_it_says_closed() {
    let mut channel: Channel<&str> = Channel::new();
    channel.send("a");
    channel.send("b");
    channel.close();
    assert!(channel.is_closed());
    assert!(matches!(channel.receive(), Received::Item("a")));
    assert!(matches!(channel.receive(), Received::Item("b")));
    assert!(matches!(channel.receive(), Received::Closed));
    assert!(matches!(channel.receive(), Received::Closed));
    channel.close();
    assert!(channel.is_closed());
}

#[test]
fn test_pool_hands_every_job_out_before_its_workers_stop() {
    let mut pool: ThreadPool<u32> = ThreadPool::new(3);
    assert_eq!(pool.size(), 3);
    for job in 0..5 {
        pool.execute(job);
    }
    assert_eq!(pool.waiting(), 5);
    pool.shutdown();
    pool.shutdown();
    assert!(pool.is_shut_down());
    let mut handed = Vec::new();
    let mut worker = 0;
    while !pool.is_terminated() {
        match pool.next_job(worker) {
            Received::Item(job) => handed.push(job),
            Received::Closed => {}
            Received::Wait => panic!("a pool that is shut down lets nobody wait"),
        }
        worker = (worker + 1) % 3;
    }
    assert_eq!(handed, vec![0, 1, 2, 3, 4]);
    assert_eq!(pool.waiting(), 0);
}

#[test]
fn test_pool_lets_idle_workers_wait_until_shutdown() {
    let mut pool: ThreadPool<u32> = ThreadPool::new(2);
    assert!(matches!(pool.next_job(0), Received::Wait));
    assert!(matches!(pool.next_job(1), Received::Wait));
    assert!(!pool.is_terminated());
    pool.execute(7);
    assert!(matches!(pool.next_job(1), Received::Item(7)));
    pool.shutdown();
    assert!(matches!(pool.next_job(0), Received::Closed));
    assert!(!pool.is_terminated());
    assert!(matches!(pool.next_job(1), Received::Closed));
    assert!(pool.is_terminated());
}

#[test]
fn test_scheduler_carries_tasks_out_on_the_index() {
    let mut index = InvertedIndex::new();
    let mut scheduler = Scheduler::new(2);
    assert_eq!(scheduler.size(), 2);
    scheduler.run(Task::AddDocument(String::from("a.txt")));
    scheduler.run(Task::AddDocument(String::from("missing.txt")));
    scheduler.run(Task::DeleteDocument(0));
    scheduler.run(Task::DeleteDocument(5));
    scheduler.shutdown();
    assert!(scheduler.is_shut_down());

    let mut removed = Vec::new();
    let mut worker = 0;
    loop {
        match scheduler.next_task(worker) {
            Received::Item(task) => {
                let content = match &task {
                    Task::AddDocument(path) if path == "a.txt" => Some("hello world"),
                    _ => None,
                };
                removed.push(task.perform(&mut index, content));
            }
            Received::Closed => {
                if scheduler.is_terminated() {
                    break;
                }
            }
            Received::Wait => panic!("a scheduler that is shut down lets nobody wait"),
        }
        worker = (worker + 1) % 2;
    }
    assert_eq!(removed, vec![None, None, Some(String::from("a.txt")), None]);
    assert_eq!(index.get_document_count(), 0);
    assert_eq!(index.last_document_id(), 1);
    assert!(index.search("hello").is_empty());
}

#[test]
fn test_pool_of_one_worker() {
    let mut pool: ThreadPool<&str> = ThreadPool::new(1);
    assert_eq!(pool.size(), 1);
    assert!(!pool.is_shut_down());
    pool.execute("only");
    assert!(matches!(pool.next_job(0), Received::Item("only")));
    assert!(matches!(pool.next_job(0), Received::Wait));
    pool.shutdown();
    assert!(!pool.is_terminated());
    assert!(matches!(pool.next_job(0), Received::Closed));
    assert!(pool.is_terminated());
}

#[test]
fn test_items_sent_after_close_are_still_handed_out() {
    let mut channel: Channel<u8> = Channel::new();
    channel.close();
    assert!(matches!(channel.receive(), Received::Closed));
    channel.send(3);
    assert!(matches!(channel.receive(), Received::Item(3)));
    assert!(matches!(channel.receive(), Received::Closed));
}
