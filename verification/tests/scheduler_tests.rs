use upload_core::discovery::FileEntry;
use upload_core::scheduler::{Scheduler, UploadError};

fn entries(sizes: &[u64]) -> Vec<FileEntry> {
    sizes
        .iter()
        .enumerate()
        .map(|(i, s)| FileEntry { id: i as u64, path: format!("r/f{}", i), size: *s })
        .collect()
}

#[test]
fn cap_one_runs_strictly_one_at_a_time() {
    let mut s = Scheduler::new(entries(&[1, 2, 3, 4, 5]), 1);
    let mut done = 0u64;
    while !s.is_done() {
        assert!(s.in_flight() <= 1);
        if s.can_dispatch() {
            let t = s.dispatch();
            assert!(s.in_flight() <= 1);
            s.on_completion(t.id, Ok(format!("ref{}", t.id)));
            done += 1;
        }
    }
    assert_eq!(done, 5);
    let results = s.into_outcome().unwrap();
    assert_eq!(results.len(), 5);
}

#[test]
fn cap_bounds_in_flight_tasks() {
    let mut s = Scheduler::new(entries(&[1, 2, 3, 4, 5, 6, 7]), 3);
    let mut in_flight_ids: Vec<u64> = Vec::new();
    while !s.is_done() {
        assert!(s.in_flight() <= 3);
        if s.can_dispatch() {
            let t = s.dispatch();
            assert!(s.in_flight() <= 3);
            in_flight_ids.push(t.id);
        } else {
            // Pool full or input drained: one running task finishes.
            let id = in_flight_ids.remove(0);
            s.on_completion(id, Ok(format!("ref{}", id)));
        }
    }
    let results = s.into_outcome().unwrap();
    assert_eq!(results.len(), 7);
}

#[test]
fn failure_stops_dispatch_and_reports_first_error() {
    let mut s = Scheduler::new(entries(&[10, 20, 30]), 2);
    let a = s.dispatch();
    let b = s.dispatch();
    assert!(!s.can_dispatch()); // pool full
    s.on_completion(a.id, Err(UploadError { message: String::from("connection reset") }));
    // Fatal: the third file must not be dispatched past the failure.
    assert!(!s.can_dispatch());
    assert!(!s.is_done()); // one task still in flight is drained first
    s.on_completion(b.id, Ok(String::from("ref-b")));
    assert!(s.is_done());
    // The failed identifier earned no result.
    assert!(s.results.iter().all(|r| r.id != a.id));
    let err = s.into_outcome().unwrap_err();
    assert_eq!(err.message, String::from("connection reset"));
}

#[test]
fn first_of_two_errors_wins() {
    let mut s = Scheduler::new(entries(&[10, 20]), 2);
    let a = s.dispatch();
    let b = s.dispatch();
    s.on_completion(a.id, Err(UploadError { message: String::from("first") }));
    s.on_completion(b.id, Err(UploadError { message: String::from("second") }));
    assert!(s.is_done());
    let err = s.into_outcome().unwrap_err();
    assert_eq!(err.message, String::from("first"));
}

#[test]
fn no_files_is_immediately_done_with_success() {
    let s = Scheduler::new(entries(&[]), 4);
    assert!(s.is_done());
    assert!(!s.can_dispatch());
    let results = s.into_outcome().unwrap();
    assert_eq!(results.len(), 0);
}

#[test]
fn all_successes_give_one_result_per_file() {
    let mut s = Scheduler::new(entries(&[5, 6, 7, 8]), 4);
    let mut ids = Vec::new();
    while s.can_dispatch() {
        ids.push(s.dispatch().id);
    }
    assert_eq!(s.in_flight(), 4);
    for id in ids {
        s.on_completion(id, Ok(format!("ref{}", id)));
    }
    assert!(s.is_done());
    let results = s.into_outcome().unwrap();
    assert_eq!(results.len(), 4);
    for (i, r) in results.iter().enumerate() {
        assert_eq!(r.remote_reference, format!("ref{}", i));
    }
}
