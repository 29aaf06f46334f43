use upload_core::discovery::FileEntry;
use upload_core::progress::{Aggregator, ProgressMessage};

fn entries(sizes: &[u64]) -> Vec<FileEntry> {
    sizes
        .iter()
        .enumerate()
        .map(|(i, s)| FileEntry { id: i as u64, path: format!("r/f{}", i), size: *s })
        .collect()
}

#[test]
fn totals_accumulate_across_identifiers() {
    let es = entries(&[10, 20, 30]);
    let mut a = Aggregator::new(&es, 60);
    assert_eq!(a.current_total(), 0);
    assert!(!a.on_message(&ProgressMessage { id: 0, cumulative_bytes: 10 }));
    assert_eq!(a.current_total(), 10);
    assert!(!a.on_message(&ProgressMessage { id: 1, cumulative_bytes: 20 }));
    assert_eq!(a.current_total(), 30);
    assert!(a.on_message(&ProgressMessage { id: 2, cumulative_bytes: 30 }));
    assert_eq!(a.current_total(), 60);
    assert!(a.is_finished());
}

#[test]
fn cumulative_values_overwrite_not_add() {
    let es = entries(&[100]);
    let mut a = Aggregator::new(&es, 100);
    a.on_message(&ProgressMessage { id: 0, cumulative_bytes: 5 });
    assert_eq!(a.current_total(), 5);
    a.on_message(&ProgressMessage { id: 0, cumulative_bytes: 8 });
    // Last write wins: 8, not 5 + 8.
    assert_eq!(a.current_total(), 8);
}

#[test]
fn observed_totals_never_decrease_on_cumulative_stream() {
    let es = entries(&[40, 60]);
    let mut a = Aggregator::new(&es, 100);
    let stream = [(0u64, 10u64), (1, 5), (0, 25), (1, 55), (0, 40), (1, 60)];
    let mut last = 0u128;
    for (id, c) in stream {
        a.on_message(&ProgressMessage { id, cumulative_bytes: c });
        assert!(a.current_total() >= last);
        last = a.current_total();
    }
    assert_eq!(last, 100);
    assert!(a.is_finished());
}

#[test]
fn unknown_identifier_changes_nothing() {
    let es = entries(&[10]);
    let mut a = Aggregator::new(&es, 10);
    assert!(!a.on_message(&ProgressMessage { id: 99, cumulative_bytes: 7 }));
    assert_eq!(a.current_total(), 0);
    assert!(!a.is_finished());
}

#[test]
fn completion_signal_raised_exactly_once() {
    let es = entries(&[10, 20]);
    let mut a = Aggregator::new(&es, 30);
    let mut signals = 0;
    for msg in [
        ProgressMessage { id: 0, cumulative_bytes: 10 },
        ProgressMessage { id: 1, cumulative_bytes: 20 },
        ProgressMessage { id: 0, cumulative_bytes: 10 },
        ProgressMessage { id: 1, cumulative_bytes: 20 },
    ] {
        if a.on_message(&msg) {
            signals += 1;
        }
    }
    assert_eq!(signals, 1);
    assert!(a.is_finished());
}

#[test]
fn short_report_does_not_signal_completion() {
    let es = entries(&[10, 20]);
    let mut a = Aggregator::new(&es, 30);
    assert!(!a.on_message(&ProgressMessage { id: 0, cumulative_bytes: 10 }));
    // The second task reports less than its true final size.
    assert!(!a.on_message(&ProgressMessage { id: 1, cumulative_bytes: 19 }));
    assert_eq!(a.current_total(), 29);
    assert!(!a.is_finished());
}
