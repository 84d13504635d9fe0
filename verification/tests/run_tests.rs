use file_info::fs_model::{FileData, FsNode};
use file_info::path::FsPath;
use file_info::pipeline::{
    get_timestamp, run_model, split_outcomes, FileOutcome, ProcessingError,
};

fn fs_path(components: &[&str]) -> FsPath {
    FsPath { components: components.iter().map(|c| c.to_string()).collect() }
}

fn file(name: &str, mtime: u64, content: &[u8]) -> FsNode {
    FsNode::File {
        name: name.to_string(),
        data: FileData { meta: Ok(Some(mtime)), content: Ok(content.to_vec()) },
    }
}

fn dir(name: &str, entries: Vec<FsNode>) -> FsNode {
    FsNode::Dir { name: name.to_string(), entries }
}

fn path_of(outcome: &FileOutcome) -> Vec<String> {
    match outcome {
        FileOutcome::Report(r) => r.path.components.clone(),
        FileOutcome::Error(ProcessingError::MetadataError { path, .. }) => path.components.clone(),
        FileOutcome::Error(ProcessingError::DigestError { path, .. }) => path.components.clone(),
    }
}

#[test]
fn timestamp_passes_epoch_seconds_through() {
    assert_eq!(get_timestamp(Some(1234)), 1234);
    assert_eq!(get_timestamp(Some(0)), 0);
}

#[test]
fn timestamp_before_epoch_defaults_to_zero() {
    assert_eq!(get_timestamp(None), 0);
}

#[test]
fn two_files_one_nested_both_reported() {
    // root holds a.txt ("hello", mtime 1000) and b/c.txt ("", mtime 2000)
    let tree = dir(
        "root",
        vec![file("a.txt", 1000, b"hello"), dir("b", vec![file("c.txt", 2000, b"")])],
    );
    let (outs, _reads) = run_model(&tree, &fs_path(&["root"]), &vec![]);
    assert_eq!(outs.len(), 2);
    let (reports, errors) = split_outcomes(outs);
    assert_eq!(errors.len(), 0);
    assert_eq!(reports.len(), 2);
    let a = reports.iter().find(|r| r.path.components == vec!["root", "a.txt"]).unwrap();
    assert_eq!(a.timestamp, 1000);
    assert_eq!(a.digest, "5d41402abc4b2a76b9719d911017c592");
    let c = reports.iter().find(|r| r.path.components == vec!["root", "b", "c.txt"]).unwrap();
    assert_eq!(c.timestamp, 2000);
    assert_eq!(c.digest, "d41d8cd98f00b204e9800998ecf8427e");
}

#[test]
fn excluded_directory_is_pruned_not_read() {
    // root holds skip/x.txt and keep/y.txt; root/skip is excluded
    let tree = dir(
        "root",
        vec![
            dir("skip", vec![file("x.txt", 10, b"xx")]),
            dir("keep", vec![file("y.txt", 20, b"yy")]),
        ],
    );
    let exclusions = vec![fs_path(&["root", "skip"])];
    let (outs, reads) = run_model(&tree, &fs_path(&["root"]), &exclusions);
    assert_eq!(outs.len(), 1);
    assert_eq!(path_of(&outs[0]), vec!["root", "keep", "y.txt"]);
    // the excluded directory's entries are never listed
    let read_paths: Vec<Vec<String>> = reads.iter().map(|p| p.components.clone()).collect();
    assert!(read_paths.contains(&vec!["root".to_string()]));
    assert!(read_paths.contains(&vec!["root".to_string(), "keep".to_string()]));
    for p in &read_paths {
        assert!(!p.starts_with(&["root".to_string(), "skip".to_string()]));
    }
}

#[test]
fn excluded_root_yields_nothing() {
    let tree = dir("root", vec![file("a.txt", 1, b"a")]);
    let exclusions = vec![fs_path(&["root"])];
    let (outs, reads) = run_model(&tree, &fs_path(&["root"]), &exclusions);
    assert_eq!(outs.len(), 0);
    assert_eq!(reads.len(), 0);
}

#[test]
fn unreadable_content_gives_one_digest_error_and_no_report() {
    // a.txt loses its read permission: metadata still works, content fails
    let tree = dir(
        "root",
        vec![
            FsNode::File {
                name: "a.txt".to_string(),
                data: FileData {
                    meta: Ok(Some(30)),
                    content: Err("permission denied".to_string()),
                },
            },
            file("b.txt", 40, b"fine"),
        ],
    );
    let (outs, _) = run_model(&tree, &fs_path(&["root"]), &vec![]);
    assert_eq!(outs.len(), 2);
    let (reports, errors) = split_outcomes(outs);
    assert_eq!(reports.len(), 1);
    assert_eq!(reports[0].path.components, vec!["root", "b.txt"]);
    assert_eq!(errors.len(), 1);
    match &errors[0] {
        ProcessingError::DigestError { path, cause } => {
            assert_eq!(path.components, vec!["root", "a.txt"]);
            assert_eq!(cause, "permission denied");
        }
        other => panic!("expected a digest error, got {:?}", path_components_of(other)),
    }
}

fn path_components_of(e: &ProcessingError) -> Vec<String> {
    match e {
        ProcessingError::MetadataError { path, .. } => path.components.clone(),
        ProcessingError::DigestError { path, .. } => path.components.clone(),
    }
}

#[test]
fn failing_metadata_gives_one_metadata_error_and_no_digest() {
    let tree = dir(
        "root",
        vec![FsNode::File {
            name: "a.txt".to_string(),
            data: FileData {
                meta: Err("stat failed".to_string()),
                content: Ok(b"never read".to_vec()),
            },
        }],
    );
    let (outs, _) = run_model(&tree, &fs_path(&["root"]), &vec![]);
    assert_eq!(outs.len(), 1);
    let (reports, errors) = split_outcomes(outs);
    assert_eq!(reports.len(), 0);
    assert_eq!(errors.len(), 1);
    match &errors[0] {
        ProcessingError::MetadataError { path, cause } => {
            assert_eq!(path.components, vec!["root", "a.txt"]);
            assert_eq!(cause, "stat failed");
        }
        ProcessingError::DigestError { .. } => panic!("metadata failure must not digest"),
    }
}

#[test]
fn only_regular_files_are_reported() {
    let tree = dir(
        "root",
        vec![
            FsNode::Other { name: "link".to_string() },
            FsNode::Unreadable { name: "broken".to_string() },
            dir("empty", vec![]),
            file("real.txt", 7, b"data"),
        ],
    );
    let (outs, _) = run_model(&tree, &fs_path(&["root"]), &vec![]);
    assert_eq!(outs.len(), 1);
    assert_eq!(path_of(&outs[0]), vec!["root", "real.txt"]);
}

#[test]
fn n_readable_files_give_exactly_n_reports() {
    let tree = dir(
        "root",
        vec![
            file("f1", 1, b"one"),
            dir("d1", vec![file("f2", 2, b"two"), file("f3", 3, b"three")]),
            dir("d2", vec![dir("d3", vec![file("f4", 4, b"four")])]),
        ],
    );
    let (outs, _) = run_model(&tree, &fs_path(&["root"]), &vec![]);
    assert_eq!(outs.len(), 4);
    let (reports, errors) = split_outcomes(outs);
    assert_eq!(reports.len(), 4);
    assert_eq!(errors.len(), 0);
    // no path reported twice
    let mut paths: Vec<Vec<String>> = reports.iter().map(|r| r.path.components.clone()).collect();
    paths.sort();
    paths.dedup();
    assert_eq!(paths.len(), 4);
}

#[test]
fn mtime_before_epoch_is_reported_as_zero() {
    let tree = dir(
        "root",
        vec![FsNode::File {
            name: "old.txt".to_string(),
            data: FileData { meta: Ok(None), content: Ok(b"ancient".to_vec()) },
        }],
    );
    let (outs, _) = run_model(&tree, &fs_path(&["root"]), &vec![]);
    let (reports, _) = split_outcomes(outs);
    assert_eq!(reports.len(), 1);
    assert_eq!(reports[0].timestamp, 0);
}
