use std::sync::atomic::Ordering::SeqCst;
use std::sync::{Arc, Mutex};
use threadpools::pool::Task;
use threadpools::tasks::{get_subslice_sum_tasks, next_count, SharedCounterTask, SubsliceSumTask};

#[test]
fn shared_counter_counts_executions() {
    let counter = Arc::new(Mutex::new(0u32));
    let tasks: Vec<SharedCounterTask> =
        (0..2048).map(|_| SharedCounterTask::new(counter.clone())).collect();
    for t in &tasks {
        t.execute();
    }
    assert_eq!(*counter.lock().unwrap(), 2048);
}

#[test]
fn shared_counter_wraps_at_max() {
    let counter = Arc::new(Mutex::new(u32::MAX));
    SharedCounterTask::new(counter.clone()).execute();
    assert_eq!(*counter.lock().unwrap(), 0);
}

#[test]
fn subslice_sum_of_range() {
    let input = Arc::new(vec![1u32, 2, 3, 4, 5]);
    let task = SubsliceSumTask::new(input.clone(), 1, 4);
    assert_eq!(task.compute_sum(), Some(9));
    assert_eq!(task.subslice_sum.load(SeqCst), 0);
    task.execute();
    assert_eq!(task.subslice_sum.load(SeqCst), 9);
}

#[test]
fn empty_subslice_sums_to_zero() {
    let input = Arc::new(vec![4u32, 5]);
    let task = SubsliceSumTask::new(input, 1, 1);
    task.execute();
    assert_eq!(task.subslice_sum.load(SeqCst), 0);
}

#[test]
fn subslice_sum_up_to_u32_max() {
    let input = Arc::new(vec![u32::MAX - 1, 1]);
    let task = SubsliceSumTask::new(input, 0, 2);
    assert_eq!(task.compute_sum(), Some(u32::MAX as u64));
}

#[test]
fn tasks_follow_the_chunks() {
    let input = Arc::new((1..=10u32).collect::<Vec<u32>>());
    let tasks = get_subslice_sum_tasks(input.clone(), 3);
    assert_eq!(tasks.len(), 3);
    let sums: Vec<u64> = tasks.iter().map(|t| t.compute_sum().unwrap()).collect();
    // chunks (0,4), (4,7), (7,10)
    assert_eq!(sums, vec![10, 5 + 6 + 7, 8 + 9 + 10]);
}

#[test]
fn fewer_items_than_tasks() {
    let input = Arc::new(vec![3u32, 4]);
    let tasks = get_subslice_sum_tasks(input, 5);
    assert_eq!(tasks.len(), 2);
    assert_eq!(tasks[0].compute_sum(), Some(3));
    assert_eq!(tasks[1].compute_sum(), Some(4));
}

#[test]
fn no_items_no_tasks() {
    let tasks = get_subslice_sum_tasks(Arc::new(Vec::new()), 4);
    assert!(tasks.is_empty());
}

#[test]
fn chunk_sums_add_up_to_array_sum() {
    let array_size: usize = 4194304;
    let array = Arc::new(vec![1u32; array_size]);
    let tasks = get_subslice_sum_tasks(array.clone(), 4096);
    assert_eq!(tasks.len(), 4096);
    for task in &tasks {
        task.execute();
    }
    let mut total_sum = 0u64;
    for task in tasks.iter() {
        total_sum += task.subslice_sum.load(SeqCst);
    }
    assert_eq!(total_sum, array_size as u64);
}

#[test]
fn next_count_adds_one_and_wraps() {
    assert_eq!(next_count(0), 1);
    assert_eq!(next_count(41), 42);
    assert_eq!(next_count(u32::MAX), 0);
}

#[test]
fn range_outside_array_is_not_summed() {
    let input = Arc::new(vec![1u32, 2, 3]);
    let past_end = SubsliceSumTask::new(input.clone(), 1, 4);
    assert_eq!(past_end.compute_sum(), None);
    past_end.execute();
    assert_eq!(past_end.subslice_sum.load(SeqCst), 0);
    let reversed = SubsliceSumTask::new(input, 2, 1);
    assert_eq!(reversed.compute_sum(), None);
}

#[test]
fn overflowing_sum_is_not_summed() {
    let input = Arc::new(vec![u32::MAX, 1]);
    let task = SubsliceSumTask::new(input.clone(), 0, 2);
    assert_eq!(task.compute_sum(), None);
    task.execute();
    assert_eq!(task.subslice_sum.load(SeqCst), 0);
    assert_eq!(SubsliceSumTask::new(input, 0, 1).compute_sum(), Some(u32::MAX as u64));
}

#[test]
fn tasks_for_any_array() {
    let input = Arc::new(vec![u32::MAX, u32::MAX, 5]);
    let tasks = get_subslice_sum_tasks(input, 2);
    assert_eq!(tasks.len(), 2);
    assert_eq!(tasks[0].compute_sum(), None);
    assert_eq!(tasks[1].compute_sum(), Some(5));
}
