use rust_lessons::atomic_counter::AtomicCounter;
use rust_lessons::cache::Cache;
use rust_lessons::job_queue::{JobQueue, QueueError, Take};
use rust_lessons::mailbox::{Mailbox, MailboxError, Step};
use rust_lessons::reduce::{combine, fold_slice, reduce, split_point, Combine};

fn drain_jobs(q: &mut JobQueue<u32>) -> Vec<u32> {
    let mut out = Vec::new();
    loop {
        match q.take() {
            Take::Job(j) => out.push(j),
            Take::Wait => panic!("a closed queue never asks to wait"),
            Take::Shutdown => break,
        }
    }
    out
}

#[test]
fn queue_runs_every_submitted_job_once_in_order() {
    let mut q = JobQueue::new();
    for j in 0..1000u32 {
        assert!(q.submit(j).is_ok());
    }
    q.close();
    let ran = drain_jobs(&mut q);
    assert_eq!(ran, (0..1000u32).collect::<Vec<_>>());
    assert!(matches!(q.take(), Take::Shutdown));
    assert!(matches!(q.take(), Take::Shutdown));
}

#[test]
fn queue_with_four_workers_counts_a_thousand_jobs() {
    let mut q = JobQueue::new();
    for j in 0..1000u32 {
        q.submit(j).unwrap();
    }
    q.close();
    let mut counter = 0u32;
    let mut stopped = [false; 4];
    let mut w = 0usize;
    while stopped.iter().any(|s| !s) {
        if !stopped[w] {
            match q.take() {
                Take::Job(_) => counter += 1,
                Take::Wait => panic!("a closed queue never asks to wait"),
                Take::Shutdown => stopped[w] = true,
            }
        }
        w = (w + 1) % 4;
    }
    assert_eq!(counter, 1000);
}

#[test]
fn queue_with_no_jobs_shuts_down_at_once() {
    let mut q: JobQueue<u32> = JobQueue::new();
    assert!(matches!(q.take(), Take::Wait));
    q.close();
    assert!(q.is_closed());
    assert!(matches!(q.take(), Take::Shutdown));
}

#[test]
fn closed_queue_refuses_a_job() {
    let mut q = JobQueue::new();
    q.submit(1u32).unwrap();
    q.close();
    assert_eq!(q.submit(2u32), Err((QueueError::Closed, 2)));
    assert_eq!(q.len(), 1);
    assert_eq!(drain_jobs(&mut q), vec![1]);
}

fn run_actor(m: &mut Mailbox<&'static str>) -> Vec<&'static str> {
    let mut processed = Vec::new();
    loop {
        match m.next_step() {
            Step::Process(item) => processed.push(item),
            Step::Wait => panic!("a stopped mailbox never asks to wait"),
            Step::Finish => break,
        }
    }
    processed
}

#[test]
fn actor_processes_messages_in_send_order() {
    let mut m = Mailbox::new();
    m.send("m1").unwrap();
    m.send("m2").unwrap();
    m.send("m3").unwrap();
    m.request_stop();
    assert_eq!(run_actor(&mut m), vec!["m1", "m2", "m3"]);
    assert!(m.is_finished());
}

#[test]
fn finished_actor_refuses_a_message() {
    let mut m = Mailbox::new();
    m.request_stop();
    assert!(matches!(m.next_step(), Step::Finish));
    assert_eq!(m.send("late"), Err((MailboxError::Closed, "late")));
    assert!(matches!(m.next_step(), Step::Finish));
}

#[test]
fn idle_actor_waits() {
    let mut m: Mailbox<u8> = Mailbox::new();
    assert!(matches!(m.next_step(), Step::Wait));
    assert!(!m.is_finished());
}

#[test]
fn reduce_sums_one_to_ten() {
    let data: Vec<u64> = (1..=10).collect();
    assert_eq!(reduce(&data, 2, Combine::Sum), 55);
    assert_eq!(fold_slice(Combine::Sum, &data), 55);
}

#[test]
fn reduce_matches_the_fold_for_every_threshold() {
    for len in 1..40u64 {
        let data: Vec<u64> = (0..len).map(|i| (i * 7919 + 13) % 101).collect();
        for op in [Combine::Sum, Combine::Product, Combine::Max, Combine::Min] {
            let expected = fold_slice(op, &data);
            for threshold in 1..=(len as usize + 1) {
                assert_eq!(reduce(&data, threshold, op), expected);
            }
        }
    }
}

#[test]
fn reduce_of_one_element_is_that_element() {
    assert_eq!(reduce(&[42], 1, Combine::Product), 42);
    assert_eq!(reduce(&[7, 3], 2, Combine::Min), 3);
}

#[test]
fn combine_wraps_around() {
    assert_eq!(combine(Combine::Sum, u64::MAX, 2), 1);
    assert_eq!(combine(Combine::Product, 1 << 63, 2), 0);
    assert_eq!(combine(Combine::Max, 4, 9), 9);
    assert_eq!(combine(Combine::Min, 4, 9), 4);
}

#[test]
fn split_point_halves_long_ranges_only() {
    assert_eq!(split_point(10, 2), Some(5));
    assert_eq!(split_point(2, 2), None);
    assert_eq!(split_point(3, 2), Some(1));
}

#[test]
fn cache_reads_what_was_written() {
    let mut cache = Cache::new();
    cache.insert("key1", "value1".to_string());
    cache.insert("key2", "value2".to_string());
    assert_eq!(cache.get("key1"), Some(&"value1".to_string()));
    assert_eq!(cache.get("key2"), Some(&"value2".to_string()));
    assert_eq!(cache.get("key3"), None);
    cache.insert("key1", "newer".to_string());
    assert_eq!(cache.get("key1"), Some(&"newer".to_string()));
    assert_eq!(cache.len(), 2);
}

#[test]
fn atomic_counter_returns_each_value_once() {
    let c = AtomicCounter::new();
    let seen: Vec<usize> = (0..1000).map(|_| c.increment()).collect();
    assert_eq!(seen, (0..1000).collect::<Vec<_>>());
    assert_eq!(c.get(), 1000);
}
