use upload_core::discovery::{default_exclusions, discover, RawEntry};
use upload_core::progress::{Aggregator, ProgressMessage};
use upload_core::reporter::report;
use upload_core::scheduler::{Scheduler, UploadError};

fn raw(path: &str, size: u64) -> RawEntry {
    RawEntry { path: String::from(path), is_dir: false, size }
}

/// Three files of sizes 10, 20 and 30 bytes under a cap of 2; every upload
/// succeeds and reports a single progress message equal to its full size.
#[test]
fn three_files_cap_two_full_run() {
    let raws = vec![
        RawEntry { path: String::from("dir"), is_dir: true, size: 0 },
        raw("dir/a", 10),
        raw("dir/b", 20),
        raw("dir/c", 30),
    ];
    let d = discover(raws, &default_exclusions()).unwrap();
    assert_eq!(d.total_size, 60);

    let mut agg = Aggregator::new(&d.entries, d.total_size);
    let sizes: Vec<(u64, u64)> = d.entries.iter().map(|e| (e.id, e.size)).collect();
    let mut sched = Scheduler::new(d.entries.clone(), 2);
    let mut pool: Vec<u64> = Vec::new();
    let mut signals = 0;
    while !sched.is_done() {
        assert!(sched.in_flight() <= 2);
        if sched.can_dispatch() {
            pool.push(sched.dispatch().id);
        } else {
            let id = pool.remove(0);
            let size = sizes.iter().find(|(i, _)| *i == id).unwrap().1;
            if agg.on_message(&ProgressMessage { id, cumulative_bytes: size }) {
                signals += 1;
            }
            sched.on_completion(id, Ok(format!("https://example.invalid/{}", id)));
        }
    }
    assert_eq!(agg.current_total(), 60);
    assert!(agg.is_finished());
    assert_eq!(signals, 1);

    let results = sched.into_outcome().unwrap();
    let lines = report(&d.entries, &results);
    assert_eq!(lines.len(), 3);
}

/// A directory holding only excluded files: nothing to upload, and the
/// operation still closes as a success with zero report lines.
#[test]
fn only_excluded_files_reports_empty_success() {
    let raws = vec![raw("dir/x.sfv", 4), raw("dir/y.nfo", 5)];
    let d = discover(raws, &default_exclusions()).unwrap();
    assert_eq!(d.entries.len(), 0);
    let sched = Scheduler::new(d.entries.clone(), 4);
    assert!(sched.is_done());
    let results = sched.into_outcome().unwrap();
    let lines = report(&d.entries, &results);
    assert_eq!(lines.len(), 0);
}

/// One of three uploads fails: the overall outcome is a failure, and no
/// success line mentions the failed file.
#[test]
fn one_failure_of_three_fails_the_operation() {
    let raws = vec![raw("dir/a", 10), raw("dir/b", 20), raw("dir/c", 30)];
    let d = discover(raws, &default_exclusions()).unwrap();
    let mut sched = Scheduler::new(d.entries.clone(), 2);
    let mut pool: Vec<u64> = Vec::new();
    let failing = 1u64;
    while !sched.is_done() {
        if sched.can_dispatch() {
            pool.push(sched.dispatch().id);
        } else {
            let id = pool.remove(0);
            if id == failing {
                sched.on_completion(
                    id,
                    Err(UploadError { message: String::from("size mismatch") }),
                );
            } else {
                sched.on_completion(id, Ok(format!("ref{}", id)));
            }
        }
    }
    let lines = report(&d.entries, &sched.results);
    assert!(lines.iter().all(|l| l.path != String::from("dir/b")));
    let err = sched.into_outcome().unwrap_err();
    assert_eq!(err.message, String::from("size mismatch"));
}

/// Cap 1 over 5 files: strictly one task at a time from dispatch to drain.
#[test]
fn cap_one_five_files_serial_execution() {
    let raws = vec![
        raw("d/1", 1),
        raw("d/2", 1),
        raw("d/3", 1),
        raw("d/4", 1),
        raw("d/5", 1),
    ];
    let d = discover(raws, &default_exclusions()).unwrap();
    let mut sched = Scheduler::new(d.entries.clone(), 1);
    while !sched.is_done() {
        assert!(sched.in_flight() <= 1);
        if sched.can_dispatch() {
            let t = sched.dispatch();
            assert_eq!(sched.in_flight(), 1);
            sched.on_completion(t.id, Ok(format!("ref{}", t.id)));
            assert_eq!(sched.in_flight(), 0);
        }
    }
    assert_eq!(sched.into_outcome().unwrap().len(), 5);
}
