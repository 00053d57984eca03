use img_dup::error::Error;
use img_dup::loader::WorkResult;
use img_dup::pool::{channel_capacity, effective_threads, thread_count, CollectWork, ParQueue, SendOutcome};
use img_dup::status::{ImgResults, RunningStatus, StatusUpdater, WorkStatus};

#[test]
fn capacity_is_the_rounded_up_logarithm() {
    assert_eq!(channel_capacity(0), 1);
    assert_eq!(channel_capacity(1), 1);
    assert_eq!(channel_capacity(2), 1);
    assert_eq!(channel_capacity(3), 2);
    assert_eq!(channel_capacity(4), 2);
    assert_eq!(channel_capacity(5), 3);
    assert_eq!(channel_capacity(1024), 10);
    assert_eq!(channel_capacity(1025), 11);
    assert_eq!(channel_capacity(10_000), 14);
    assert_eq!(channel_capacity(usize::MAX), 64);
    assert_eq!(channel_capacity(usize::MAX / 2 + 1), 63);
    assert_eq!(channel_capacity(usize::MAX / 2 + 2), 64);
}

#[test]
fn thread_counts() {
    assert_eq!(effective_threads(Some(3), 8), 3);
    assert_eq!(effective_threads(None, 8), 8);
    assert_eq!(effective_threads(Some(0), 8), 8);
    assert_eq!(effective_threads(None, 0), 1);
    assert_eq!(thread_count(Some(5)), 5);
    assert!(thread_count(None) >= 1);
}

#[test]
fn queue_hands_out_each_path_once_in_order() {
    let mut queue = ParQueue::from_vec(vec!["a", "b", "c"]);
    assert_eq!(queue.len(), 3);
    assert_eq!(queue.pop(), Some("a"));
    assert_eq!(queue.pop(), Some("b"));
    assert_eq!(queue.len(), 1);
    assert_eq!(queue.pop(), Some("c"));
    assert_eq!(queue.pop(), None);
    assert_eq!(queue.pop(), None);
    let mut iter = ParQueue::from_vec(vec![1, 2]).into_iter();
    assert_eq!(iter.next(), Some(1));
    assert_eq!(iter.next(), Some(2));
    assert_eq!(iter.next(), None);
    let mut empty: ParQueue<u8> = ParQueue::from_vec(vec![]);
    assert_eq!(empty.pop(), None);
}

fn failure(path: &str) -> WorkResult {
    Err(Error::io(path.to_string()))
}

#[test]
fn a_worker_keeps_one_result_back_when_the_channel_is_full() {
    let mut worker = CollectWork::new();
    assert!(worker.wants_task());
    assert!(worker.take_overflow().is_none());
    worker.tried(SendOutcome::Full(failure("first")));
    assert!(worker.wants_task());
    let pending = worker.take_overflow().unwrap();
    assert_eq!(pending.unwrap_err().path, "first");
    assert!(worker.take_overflow().is_none());
    worker.flushed(true);
    assert!(worker.wants_task());
    worker.tried(SendOutcome::Sent);
    assert!(worker.wants_task());
    assert!(!worker.is_closed());
}

#[test]
fn a_worker_stops_once_the_receiver_is_gone() {
    let mut worker = CollectWork::new();
    worker.tried(SendOutcome::Closed);
    assert!(worker.is_closed());
    assert!(!worker.wants_task());
    let mut worker = CollectWork::new();
    worker.tried(SendOutcome::Full(failure("kept")));
    let _ = worker.take_overflow();
    worker.flushed(false);
    assert!(!worker.wants_task());
    worker.flushed(true);
    assert!(!worker.wants_task());
}

#[test]
fn cancellation() {
    let paths: Vec<String> = (0..10_000).map(|i| format!("{}.png", i)).collect();
    let capacity = channel_capacity(paths.len());
    let mut queue = ParQueue::from_vec(paths);
    let mut workers: Vec<CollectWork> = (0..4).map(|_| CollectWork::new()).collect();
    let mut channel: Vec<WorkResult> = Vec::new();
    let mut received = 0usize;
    let mut dropped = false;
    let mut attempted = 0usize;
    let mut attempted_after_drop = 0usize;
    let mut running = true;
    while running {
        running = false;
        for worker in workers.iter_mut() {
            if !worker.wants_task() {
                continue;
            }
            let path = match queue.pop() {
                Some(path) => path,
                None => continue,
            };
            running = true;
            attempted += 1;
            if dropped {
                attempted_after_drop += 1;
            }
            let result = failure(&path);
            if let Some(pending) = worker.take_overflow() {
                // a waiting send gets through as soon as the consumer takes one
                if dropped {
                    worker.flushed(false);
                } else {
                    if channel.len() == capacity {
                        channel.remove(0);
                        received += 1;
                    }
                    channel.push(pending);
                    worker.flushed(true);
                }
            }
            if dropped {
                worker.tried(SendOutcome::Closed);
            } else if channel.len() < capacity {
                channel.push(result);
                worker.tried(SendOutcome::Sent);
            } else {
                worker.tried(SendOutcome::Full(result));
            }
            // the consumer takes one result after each task, and leaves after a hundred
            if !dropped && !channel.is_empty() {
                channel.remove(0);
                received += 1;
                if received == 100 {
                    dropped = true;
                }
            }
        }
    }
    assert_eq!(received, 100);
    assert!(attempted_after_drop <= 4);
    assert!(attempted <= 100 + 4);
    assert!(workers.iter().all(|w| w.is_closed()));
    assert!(queue.len() >= 10_000 - 104);
}

#[test]
fn status_counts_every_result() {
    let results: Vec<WorkResult> = vec![failure("a"), failure("b"), failure("c")];
    let status = WorkStatus::summarise(&results);
    assert_eq!(status.count, 0);
    assert_eq!(status.errors, 3);
    assert_eq!(status.count + status.errors, results.len());
    assert_eq!(WorkStatus::summarise(&vec![]), WorkStatus::default());
}

fn success(path: &str, bytes: u64, load: u64, hash: u64) -> WorkResult {
    Ok(img_dup::model::HashedImage {
        image: img_dup::model::Image {
            path: path.to_string(),
            dimensions: (1, 1),
            loaded_size: bytes,
            load_time: load,
        },
        hash: img_dup::bithash::BitHash::from_bools(&vec![true]),
        hash_time: hash,
    })
}

#[test]
fn the_summary_adds_up_bytes_and_times() {
    let results: Vec<WorkResult> = vec![
        success("a", 100, 7, 2),
        failure("b"),
        success("c", 50, 3, 1),
        success("d", 1, 0, 4),
    ];
    let status = WorkStatus::summarise(&results);
    assert_eq!(
        status,
        WorkStatus { count: 3, errors: 1, total_bytes: 151, load_time: 10, hash_time: 7 }
    );
    let capped: Vec<WorkResult> = vec![success("a", u64::MAX, 1, 1), success("b", 5, 1, 1)];
    assert_eq!(WorkStatus::summarise(&capped).total_bytes, u64::MAX);
}

#[test]
fn status_adds_up_and_never_goes_down() {
    let mut status = WorkStatus { count: 2, errors: 1, total_bytes: 100, load_time: 30, hash_time: 8 };
    let before = status;
    status.add(WorkStatus { count: 1, errors: 0, total_bytes: 50, load_time: 10, hash_time: 2 });
    assert_eq!(
        status,
        WorkStatus { count: 3, errors: 1, total_bytes: 150, load_time: 40, hash_time: 10 }
    );
    assert!(status.count >= before.count && status.errors >= before.errors);
    assert_eq!(status.avg_load_ms(), 13);
    assert_eq!(status.avg_hash_ms(), 3);
    let mut full = WorkStatus { count: usize::MAX, errors: 0, total_bytes: u64::MAX, load_time: 1, hash_time: 1 };
    full.add(WorkStatus { count: 1, errors: 1, total_bytes: 1, load_time: 1, hash_time: 1 });
    assert_eq!(full.count, usize::MAX);
    assert_eq!(full.total_bytes, u64::MAX);
    assert_eq!(full.errors, 1);
    let none = WorkStatus::default();
    assert_eq!(none.avg_load_ms(), 0);
    assert_eq!(none.avg_hash_ms(), 0);
    assert_eq!(WorkStatus::delta_of(&failure("x")).errors, 1);
}

#[test]
fn results_are_filed_by_outcome() {
    let mut results = ImgResults::empty();
    assert_eq!(results.total(), 0);
    results.push_result(failure("a"));
    results.push_result(failure("b"));
    assert_eq!(results.total(), 2);
    assert_eq!(results.errors.len(), 2);
    assert_eq!(results.images.len(), 0);
    assert_eq!(results.errors[1].path, "b");
    let status = RunningStatus::from_img_results(&results);
    assert_eq!(status, RunningStatus { done: 2, errors: 2 });
    assert!(status.is_done(2));
    assert!(!status.is_done(3));
}

#[test]
fn snapshots_come_no_more_often_than_the_interval() {
    let mut updater = StatusUpdater::default();
    assert_eq!(updater.interval, 250);
    assert!(updater.update(1000));
    assert!(!updater.update(1100));
    assert!(!updater.update(1249));
    assert!(updater.update(1250));
    assert!(!updater.update(1000));
    assert!(updater.update(1500));
    let mut eager = StatusUpdater::new(0);
    assert!(eager.update(5));
    assert!(eager.update(5));
}
