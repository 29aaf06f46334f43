use upload_core::discovery::FileEntry;
use upload_core::reporter::report;
use upload_core::scheduler::UploadResult;

fn entries() -> Vec<FileEntry> {
    vec![
        FileEntry { id: 0, path: String::from("r/a.txt"), size: 1 },
        FileEntry { id: 1, path: String::from("r/b.txt"), size: 2 },
        FileEntry { id: 2, path: String::from("r/c.txt"), size: 3 },
    ]
}

#[test]
fn one_line_per_result_in_result_order() {
    let es = entries();
    let results = vec![
        UploadResult { id: 2, remote_reference: String::from("ref-c") },
        UploadResult { id: 0, remote_reference: String::from("ref-a") },
    ];
    let lines = report(&es, &results);
    assert_eq!(lines.len(), 2);
    assert_eq!(lines[0].path, String::from("r/c.txt"));
    assert_eq!(lines[0].remote_reference, String::from("ref-c"));
    assert_eq!(lines[1].path, String::from("r/a.txt"));
    assert_eq!(lines[1].remote_reference, String::from("ref-a"));
}

#[test]
fn no_results_no_lines() {
    let lines = report(&entries(), &Vec::new());
    assert_eq!(lines.len(), 0);
}

#[test]
fn every_line_names_a_discovered_path() {
    let es = entries();
    let results = vec![
        UploadResult { id: 1, remote_reference: String::from("ref-b") },
        UploadResult { id: 2, remote_reference: String::from("ref-c") },
        UploadResult { id: 0, remote_reference: String::from("ref-a") },
    ];
    let lines = report(&es, &results);
    assert_eq!(lines.len(), 3);
    for line in &lines {
        assert!(es.iter().any(|e| e.path == line.path));
    }
}
