use file_info::path::{should_ignore, FsPath};

fn fs_path(components: &[&str]) -> FsPath {
    FsPath { components: components.iter().map(|c| c.to_string()).collect() }
}

#[test]
fn empty_exclusion_set_skips_nothing() {
    let p = fs_path(&["root", "a.txt"]);
    assert!(!should_ignore(&p, &vec![]));
}

#[test]
fn exact_match_is_ignored() {
    let p = fs_path(&["root", "skip"]);
    let ignores = vec![fs_path(&["root", "skip"])];
    assert!(should_ignore(&p, &ignores));
}

#[test]
fn descendant_of_exclusion_is_ignored() {
    let p = fs_path(&["root", "skip", "deep", "x.txt"]);
    let ignores = vec![fs_path(&["root", "skip"])];
    assert!(should_ignore(&p, &ignores));
}

#[test]
fn sibling_name_with_same_string_prefix_is_kept() {
    // component semantics: excluding `/foo` must not catch `/foo2`
    let p = fs_path(&["foo2", "x.txt"]);
    let ignores = vec![fs_path(&["foo"])];
    assert!(!should_ignore(&p, &ignores));
}

#[test]
fn any_of_several_exclusions_matches() {
    let ignores = vec![fs_path(&["a"]), fs_path(&["b", "c"])];
    assert!(should_ignore(&fs_path(&["b", "c", "d"]), &ignores));
    assert!(should_ignore(&fs_path(&["a"]), &ignores));
    assert!(!should_ignore(&fs_path(&["b"]), &ignores));
}

#[test]
fn ancestor_of_exclusion_is_not_itself_ignored() {
    let ignores = vec![fs_path(&["root", "skip", "deep"])];
    assert!(!should_ignore(&fs_path(&["root", "skip"]), &ignores));
}

#[test]
fn child_builds_longer_path() {
    let p = fs_path(&["root"]);
    let q = p.child(&"sub".to_string());
    assert_eq!(q.components, vec!["root".to_string(), "sub".to_string()]);
}
