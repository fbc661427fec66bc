//! One registry shared by concurrent tasks behind a lock.

use hc_tel::Registry;
use std::sync::atomic::{AtomicUsize, Ordering};
use std::sync::{Arc, Mutex};
use tokio::runtime::{Builder, Runtime};

/// A counter that tasks share: the additions it received.
#[derive(Clone)]
struct Counter {
    additions: Arc<Mutex<Vec<f64>>>,
}

impl Counter {
    fn new() -> Counter {
        Counter { additions: Arc::new(Mutex::new(Vec::new())) }
    }

    fn same_accumulator(&self, other: &Counter) -> bool {
        Arc::ptr_eq(&self.additions, &other.additions)
    }
}

struct Shared {
    registry: Mutex<Registry<Counter>>,
    creations: AtomicUsize,
}

impl Shared {
    fn new() -> Arc<Shared> {
        Arc::new(Shared { registry: Mutex::new(Registry::new()), creations: AtomicUsize::new(0) })
    }

    fn resolve(&self, name: &'static str) -> Counter {
        let mut guard = self.registry.lock().unwrap();
        let create = |_: &'static str| -> Result<Counter, String> {
            self.creations.fetch_add(1, Ordering::SeqCst);
            Ok(Counter::new())
        };
        guard.get_or_create_counter(name, create).unwrap().clone()
    }
}

fn runtime() -> Runtime {
    Builder::new_multi_thread().worker_threads(8).build().unwrap()
}

#[test]
fn hundred_concurrent_first_requests_create_one_instrument() {
    let shared = Shared::new();
    let runtime = runtime();
    let tasks: Vec<_> = (0..100)
        .map(|_| {
            let shared = shared.clone();
            runtime.spawn(async move { shared.resolve("hits") })
        })
        .collect();
    let handles: Vec<Counter> = tasks.into_iter().map(|task| runtime.block_on(task).unwrap()).collect();
    assert_eq!(shared.creations.load(Ordering::SeqCst), 1);
    assert_eq!(handles.len(), 100);
    for handle in &handles {
        assert!(handle.same_accumulator(&handles[0]));
    }
    assert_eq!(shared.registry.lock().unwrap().len(), 1);
}

#[test]
fn concurrent_requests_for_several_names_create_one_instrument_each() {
    let names: [&'static str; 4] = ["hits", "misses", "errors", ""];
    let shared = Shared::new();
    let runtime = runtime();
    let tasks: Vec<_> = (0..64)
        .map(|i| {
            let shared = shared.clone();
            runtime.spawn(async move { (i % 4, shared.resolve(names[i % 4])) })
        })
        .collect();
    let handles: Vec<(usize, Counter)> = tasks.into_iter().map(|task| runtime.block_on(task).unwrap()).collect();
    assert_eq!(shared.creations.load(Ordering::SeqCst), 4);
    assert_eq!(shared.registry.lock().unwrap().len(), 4);
    for (which, handle) in &handles {
        for (other, candidate) in &handles {
            assert_eq!(handle.same_accumulator(candidate), which == other);
        }
    }
}

#[test]
fn concurrent_recordings_are_all_counted() {
    let shared = Shared::new();
    let runtime = runtime();
    let tasks: Vec<_> = (0..8)
        .map(|_| {
            let shared = shared.clone();
            runtime.spawn(async move {
                for step in 0..50 {
                    let counter = shared.resolve("latency");
                    counter.additions.lock().unwrap().push(if step % 2 == 0 { 0.5 } else { 1.5 });
                }
            })
        })
        .collect();
    for task in tasks {
        runtime.block_on(task).unwrap();
    }
    let counter = shared.resolve("latency");
    let additions = counter.additions.lock().unwrap();
    assert_eq!(additions.len(), 400);
    assert_eq!(additions.iter().sum::<f64>(), 400.0);
    assert_eq!(additions.iter().filter(|v| **v == 0.5).count(), 200);
    assert_eq!(shared.creations.load(Ordering::SeqCst), 1);
}

#[test]
fn concurrent_record_calls_under_the_lock_lose_nothing() {
    let shared = Shared::new();
    let runtime = runtime();
    let tasks: Vec<_> = (0..4)
        .map(|worker: i32| {
            let shared = shared.clone();
            runtime.spawn(async move {
                for _ in 0..25 {
                    let mut guard = shared.registry.lock().unwrap();
                    guard
                        .record(
                            "work",
                            2.0,
                            worker,
                            |_| -> Result<Counter, String> { Ok(Counter::new()) },
                            |counter: &Counter, value: f64, _: i32| -> Result<(), String> {
                                counter.additions.lock().unwrap().push(value);
                                Ok(())
                            },
                        )
                        .unwrap();
                }
            })
        })
        .collect();
    for task in tasks {
        runtime.block_on(task).unwrap();
    }
    let guard = shared.registry.lock().unwrap();
    let work = guard.get("work").unwrap();
    assert_eq!(work.additions.lock().unwrap().len(), 100);
    assert_eq!(work.additions.lock().unwrap().iter().sum::<f64>(), 200.0);
    assert_eq!(guard.len(), 1);
}
