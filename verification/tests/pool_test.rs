use threadpools::pool::{PoolSharedData, WorkerStep};

fn run(step: WorkerStep<u32>) -> Option<u32> {
    match step {
        WorkerStep::Run(t) => Some(t),
        _ => None,
    }
}

#[test]
fn empty_queue_makes_workers_wait() {
    let mut data: PoolSharedData<u32> = PoolSharedData::new();
    assert!(!data.is_shutdown());
    assert!(matches!(data.next_step(), WorkerStep::Wait));
}

#[test]
fn tasks_run_in_order_of_arrival() {
    let mut data = PoolSharedData::new();
    data.push_task(1u32);
    data.push_task(2);
    data.push_task(3);
    assert_eq!(run(data.next_step()), Some(1));
    assert_eq!(run(data.next_step()), Some(2));
    data.push_task(4);
    assert_eq!(run(data.next_step()), Some(3));
    assert_eq!(run(data.next_step()), Some(4));
    assert!(matches!(data.next_step(), WorkerStep::Wait));
}

#[test]
fn shutdown_stops_workers_even_with_tasks_queued() {
    let mut data = PoolSharedData::new();
    data.push_task(7u32);
    data.request_shutdown();
    assert!(data.is_shutdown());
    assert!(matches!(data.next_step(), WorkerStep::Exit));
    data.push_task(8);
    assert!(matches!(data.next_step(), WorkerStep::Exit));
    assert!(matches!(data.next_step(), WorkerStep::Exit));
}

#[test]
fn every_queued_task_is_handed_out_once() {
    let mut data = PoolSharedData::new();
    for i in 0..100u32 {
        data.push_task(i);
    }
    let mut seen = Vec::new();
    while let Some(t) = run(data.next_step()) {
        seen.push(t);
    }
    assert_eq!(seen, (0..100u32).collect::<Vec<u32>>());
}
