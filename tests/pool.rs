use std::collections::HashMap;
use web_server::pool::{JobLedger, PoolError, WorkerAction};

type Job = Box<dyn FnOnce()>;

/// Runs every queued job on the workers in turn until all are finished.
fn drain(ledger: &mut JobLedger, jobs: &mut HashMap<usize, Job>) -> usize {
    let mut runs = 0;
    loop {
        let mut progressed = false;
        for w in 0..ledger.size() {
            if let WorkerAction::Run(id) = ledger.next_action(w) {
                (jobs.remove(&id).unwrap())();
                ledger.finish(w);
                runs += 1;
                progressed = true;
            }
        }
        if !progressed {
            return runs;
        }
    }
}

#[test]
fn pool_of_zero_is_refused() {
    assert_eq!(JobLedger::new(0).err(), Some(PoolError::NoWorkers));
    assert_eq!(PoolError::NoWorkers.message(), "Thread Error: Request 1 or more threads.");
}

#[test]
fn one_worker_runs_two_jobs() {
    let counter = std::rc::Rc::new(std::cell::Cell::new(0));
    let mut ledger = JobLedger::new(1).unwrap();
    let mut jobs: HashMap<usize, Job> = HashMap::new();
    for _ in 0..2 {
        let c = counter.clone();
        let id = ledger.submit().unwrap();
        jobs.insert(id, Box::new(move || c.set(c.get() + 1)));
    }
    ledger.close();
    assert_eq!(drain(&mut ledger, &mut jobs), 2);
    assert_eq!(counter.get(), 2);
    assert_eq!(ledger.next_action(0), WorkerAction::Stop);
}

#[test]
fn every_job_runs_once_whatever_the_pool_size() {
    for size in [1usize, 2, 3, 8] {
        for k in [0usize, 1, 2, 5, 13] {
            let log = std::rc::Rc::new(std::cell::RefCell::new(Vec::new()));
            let mut ledger = JobLedger::new(size).unwrap();
            let mut jobs: HashMap<usize, Job> = HashMap::new();
            for n in 0..k {
                let l = log.clone();
                let id = ledger.submit().unwrap();
                assert_eq!(id, n);
                jobs.insert(id, Box::new(move || l.borrow_mut().push(n)));
            }
            assert_eq!(drain(&mut ledger, &mut jobs), k);
            let mut seen = log.borrow().clone();
            seen.sort();
            assert_eq!(seen, (0..k).collect::<Vec<_>>());
        }
    }
}

#[test]
fn idle_worker_waits_until_closed() {
    let mut ledger = JobLedger::new(2).unwrap();
    assert_eq!(ledger.next_action(1), WorkerAction::Wait);
    assert!(ledger.accepts_jobs());
    ledger.close();
    assert!(!ledger.accepts_jobs());
    assert_eq!(ledger.submit(), None);
    assert_eq!(ledger.next_action(1), WorkerAction::Stop);
}

#[test]
fn queued_jobs_are_handed_out_oldest_first() {
    let mut ledger = JobLedger::new(2).unwrap();
    assert_eq!(ledger.submit(), Some(0));
    assert_eq!(ledger.submit(), Some(1));
    ledger.close();
    assert_eq!(ledger.next_action(1), WorkerAction::Run(0));
    assert!(!ledger.is_idle(1));
    assert_eq!(ledger.next_action(0), WorkerAction::Run(1));
    ledger.finish(0);
    assert_eq!(ledger.next_action(0), WorkerAction::Stop);
    ledger.finish(1);
    assert!(ledger.is_idle(1));
    assert!(!ledger.is_idle(5));
}
