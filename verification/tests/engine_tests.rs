use std::io::Write;
use unzip::engine::{aggregate_results, plan_extraction, plan_range, read_index, ExtractionResult, WorkerTask, WriteAction};
use unzip::partition::WorkRange;

/// Builds an in-memory archive: a trailing `/` marks a directory entry.
fn make_zip(entries: &[(&str, &[u8])]) -> Vec<u8> {
    let options = zip::write::SimpleFileOptions::default()
        .compression_method(zip::CompressionMethod::Deflated);
    let mut writer = zip::ZipWriter::new(std::io::Cursor::new(Vec::new()));
    for (name, data) in entries {
        if name.ends_with('/') {
            writer.add_directory(name.trim_end_matches('/'), options).unwrap();
        } else {
            writer.start_file(*name, options).unwrap();
            writer.write_all(data).unwrap();
        }
    }
    writer.finish().unwrap().into_inner()
}

fn path(components: &[&str]) -> Vec<String> {
    components.iter().map(|c| c.to_string()).collect()
}

#[test]
fn end_to_end_plan_matches_archive() {
    let body = b"hello from the archive, compressed well enough to matter".as_slice();
    let top = b"top-level file".as_slice();
    let bytes = make_zip(&[("dir/", b""), ("dir/file.txt", body), ("top.txt", top)]);
    let outcome = plan_extraction(&bytes, 2).unwrap();
    assert_eq!(outcome.result, ExtractionResult::Succeeded);
    let expected = vec![
        WriteAction::MakeDir { path: path(&["dir"]) },
        WriteAction::WriteFile { path: path(&["dir", "file.txt"]), data: body.to_vec() },
        WriteAction::WriteFile { path: path(&["top.txt"]), data: top.to_vec() },
    ];
    assert_eq!(outcome.actions, expected);
}

#[test]
fn worker_counts_plan_identical_writes() {
    let bytes = make_zip(&[
        ("a.txt", b"alpha".as_slice()),
        ("b/", b"".as_slice()),
        ("b/c.txt", b"gamma".as_slice()),
        ("b/d.txt", b"delta".as_slice()),
        ("e.txt", b"epsilon".as_slice()),
    ]);
    let one = plan_extraction(&bytes, 1).unwrap();
    let eight = plan_extraction(&bytes, 8).unwrap();
    assert_eq!(one.result, ExtractionResult::Succeeded);
    assert_eq!(eight.result, ExtractionResult::Succeeded);
    assert_eq!(one.actions, eight.actions);
}

/// In-memory stand-in for a destination tree: path to latest content.
fn apply(tree: &mut Vec<(Vec<String>, Option<Vec<u8>>)>, actions: &[WriteAction]) {
    for action in actions {
        let (path, node) = match action {
            WriteAction::MakeDir { path } => (path.clone(), None),
            WriteAction::WriteFile { path, data } => (path.clone(), Some(data.clone())),
        };
        if let Some(slot) = tree.iter_mut().find(|(p, _)| *p == path) {
            slot.1 = node;
        } else {
            tree.push((path, node));
        }
    }
}

#[test]
fn re_extraction_is_idempotent() {
    let bytes = make_zip(&[("x/", b"".as_slice()), ("x/y.txt", b"payload".as_slice())]);
    let first = plan_extraction(&bytes, 3).unwrap();
    let second = plan_extraction(&bytes, 5).unwrap();
    let mut tree = Vec::new();
    apply(&mut tree, &first.actions);
    let after_first = tree.clone();
    apply(&mut tree, &second.actions);
    assert_eq!(tree, after_first);
}

#[test]
fn traversal_entries_are_skipped() {
    let bytes = make_zip(&[
        ("../evil.txt", b"escape".as_slice()),
        ("ok.txt", b"fine".as_slice()),
        ("a/../../evil2.txt", b"escape again".as_slice()),
    ]);
    let outcome = plan_extraction(&bytes, 2).unwrap();
    assert_eq!(outcome.result, ExtractionResult::Succeeded);
    let expected = vec![WriteAction::WriteFile { path: path(&["ok.txt"]), data: b"fine".to_vec() }];
    assert_eq!(outcome.actions, expected);
}

#[test]
fn resolved_paths_drop_parent_components() {
    let bytes = make_zip(&[("a/../b.txt", b"resolved".as_slice())]);
    let outcome = plan_extraction(&bytes, 1).unwrap();
    let expected = vec![WriteAction::WriteFile { path: path(&["b.txt"]), data: b"resolved".to_vec() }];
    assert_eq!(outcome.actions, expected);
}

#[test]
fn read_index_reports_names_and_dir_flags() {
    let bytes = make_zip(&[("dir/", b"".as_slice()), ("dir/file.txt", b"data".as_slice())]);
    let index = read_index(&bytes).unwrap();
    assert_eq!(index.len(), 2);
    assert_eq!(index[0].name, "dir/");
    assert!(index[0].is_dir);
    assert_eq!(index[1].name, "dir/file.txt");
    assert!(!index[1].is_dir);
}

#[test]
fn worker_range_plans_only_its_entries() {
    let body = b"0123456789".as_slice();
    let bytes = make_zip(&[("a.txt", body), ("b.txt", body), ("c.txt", body)]);
    let (actions, failure) = plan_range(&bytes, WorkRange { start: 1, end: 3 });
    assert!(failure.is_none());
    let names: Vec<&str> = actions
        .iter()
        .map(|a| match a {
            WriteAction::WriteFile { path, .. } => path[0].as_str(),
            WriteAction::MakeDir { path } => path[0].as_str(),
        })
        .collect();
    assert_eq!(names, vec!["b.txt", "c.txt"]);
}

#[test]
fn worker_task_plans_entry_by_entry() {
    let body = b"streamed one entry at a time".as_slice();
    let bytes = make_zip(&[("dir/", b""), ("dir/file.txt", body), ("../evil.txt", body)]);
    let mut task = WorkerTask::start(&bytes).unwrap();
    assert_eq!(task.entry_count(), 3);
    let mut planned = Vec::new();
    for i in 0..task.entry_count() {
        if let Some(action) = task.plan_one(i).unwrap() {
            planned.push(action);
        }
    }
    let expected = vec![
        WriteAction::MakeDir { path: path(&["dir"]) },
        WriteAction::WriteFile { path: path(&["dir", "file.txt"]), data: body.to_vec() },
    ];
    assert_eq!(planned, expected);
    assert_eq!(task.plan_one(17).unwrap(), None);
    assert!(WorkerTask::start(&[0u8; 16]).is_err());
}

#[test]
fn worker_task_fails_only_on_the_unreadable_entry() {
    let options = zip::write::SimpleFileOptions::default()
        .compression_method(zip::CompressionMethod::Stored);
    let mut writer = zip::ZipWriter::new(std::io::Cursor::new(Vec::new()));
    for (name, payload) in [("good-one.txt", "MARKER-A-aaaaaaaaaaaa"), ("bad.txt", "MARKER-B-bbbbbbbbbbbb"), ("good-two.txt", "MARKER-C-cccccccccccc")] {
        writer.start_file(name, options).unwrap();
        writer.write_all(payload.as_bytes()).unwrap();
    }
    let mut bytes = writer.finish().unwrap().into_inner();
    let pos = bytes.windows(9).position(|w| w == b"MARKER-B-").unwrap();
    bytes[pos + 10] = bytes[pos + 10].wrapping_add(1);
    let mut task = WorkerTask::start(&bytes).unwrap();
    assert!(task.plan_one(0).unwrap().is_some());
    assert!(task.plan_one(1).is_err());
    assert!(task.plan_one(2).unwrap().is_some());
}

#[test]
fn range_beyond_the_index_fails_that_worker() {
    let bytes = make_zip(&[("a.txt", b"x".as_slice())]);
    let (actions, failure) = plan_range(&bytes, WorkRange { start: 0, end: 5 });
    assert!(actions.is_empty());
    assert!(failure.is_some());
}

#[test]
fn corrupt_archive_fails_to_open() {
    let garbage = vec![0u8; 64];
    assert!(plan_extraction(&garbage, 2).is_err());
    assert!(read_index(&garbage).is_err());
}

#[test]
fn failure_report_names_failing_workers_in_order() {
    let mut results: Vec<Option<String>> = vec![None; 8];
    results[2] = Some("entry 3: corrupt deflate stream".to_string());
    results[5] = Some("entry 11: unexpected end of data".to_string());
    match aggregate_results(&results) {
        ExtractionResult::Failed(failures) => {
            let workers: Vec<usize> = failures.iter().map(|f| f.worker).collect();
            assert_eq!(workers, vec![2, 5]);
            assert_eq!(failures[0].message, "entry 3: corrupt deflate stream");
            assert_eq!(failures[1].message, "entry 11: unexpected end of data");
        },
        ExtractionResult::Succeeded => panic!("two workers failed"),
    }
}

/// Builds an archive of eight stored (uncompressed) entries, then flips one
/// content byte of entries 2 and 5 so that reading them fails its checksum.
/// With eight workers each owns exactly one entry: the report must name
/// workers 2 and 5 in that order, and the other workers' entries must all
/// be planned.
#[test]
fn two_failing_workers_leave_the_rest_planned() {
    let options = zip::write::SimpleFileOptions::default()
        .compression_method(zip::CompressionMethod::Stored);
    let mut writer = zip::ZipWriter::new(std::io::Cursor::new(Vec::new()));
    let mut payloads = Vec::new();
    for i in 0..8u8 {
        let name = format!("entry-{}.bin", i);
        let payload = format!("PAYLOAD-MARK-{}-{}", i, "x".repeat(32)).into_bytes();
        writer.start_file(&*name, options).unwrap();
        writer.write_all(&payload).unwrap();
        payloads.push(payload);
    }
    let mut bytes = writer.finish().unwrap().into_inner();
    for i in [2usize, 5] {
        let marker = format!("PAYLOAD-MARK-{}-", i).into_bytes();
        let pos = bytes
            .windows(marker.len())
            .position(|w| w == marker.as_slice())
            .unwrap();
        let target = pos + marker.len() + 4;
        bytes[target] = bytes[target].wrapping_add(1);
    }
    let outcome = plan_extraction(&bytes, 8).unwrap();
    match outcome.result {
        ExtractionResult::Failed(failures) => {
            let workers: Vec<usize> = failures.iter().map(|f| f.worker).collect();
            assert_eq!(workers, vec![2, 5]);
        },
        ExtractionResult::Succeeded => panic!("workers 2 and 5 must fail"),
    }
    let expected: Vec<WriteAction> = [0usize, 1, 3, 4, 6, 7]
        .iter()
        .map(|&i| WriteAction::WriteFile {
            path: path(&[&format!("entry-{}.bin", i)]),
            data: payloads[i].clone(),
        })
        .collect();
    assert_eq!(outcome.actions, expected);
}

#[test]
fn all_workers_succeeding_aggregate_to_success() {
    let results: Vec<Option<String>> = vec![None; 8];
    assert_eq!(aggregate_results(&results), ExtractionResult::Succeeded);
}

/// With unique entries, the path sets written by distinct workers are
/// pairwise disjoint.
#[test]
fn workers_never_write_the_same_path() {
    let body = b"collision test body".as_slice();
    let bytes = make_zip(&[
        ("a.txt", body),
        ("b/", b"".as_slice()),
        ("b/c.txt", body),
        ("b/d.txt", body),
        ("e.txt", body),
        ("f.txt", body),
    ]);
    let ranges = unzip::partition::plan_partition(read_index(&bytes).unwrap().len(), 3);
    let mut path_sets: Vec<Vec<Vec<String>>> = Vec::new();
    for range in ranges {
        let (actions, failure) = plan_range(&bytes, range);
        assert!(failure.is_none());
        path_sets.push(
            actions
                .iter()
                .map(|a| match a {
                    WriteAction::MakeDir { path } => path.clone(),
                    WriteAction::WriteFile { path, .. } => path.clone(),
                })
                .collect(),
        );
    }
    for i in 0..path_sets.len() {
        for j in i + 1..path_sets.len() {
            for p in &path_sets[i] {
                assert!(!path_sets[j].contains(p));
            }
        }
    }
}

#[test]
fn zero_workers_yield_empty_success() {
    let bytes = make_zip(&[("a.txt", b"x".as_slice())]);
    let outcome = plan_extraction(&bytes, 0).unwrap();
    assert_eq!(outcome.result, ExtractionResult::Succeeded);
    assert!(outcome.actions.is_empty());
}

#[test]
fn empty_archive_extracts_to_nothing() {
    let bytes = make_zip(&[]);
    let outcome = plan_extraction(&bytes, 4).unwrap();
    assert_eq!(outcome.result, ExtractionResult::Succeeded);
    assert!(outcome.actions.is_empty());
}
