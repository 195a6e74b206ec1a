use aco_seed::{actual_set, expected_set, reconcile, ListedEntry, ProjectPath};

fn path(s: &str) -> ProjectPath {
    ProjectPath::from_absolute(s).unwrap()
}

fn texts(v: &[ProjectPath]) -> Vec<String> {
    let mut out: Vec<String> = v.iter().map(|p| p.to_path_string()).collect();
    out.sort();
    out
}

fn dir(name: &str) -> Option<ListedEntry> {
    Some(ListedEntry { name: name.to_string(), is_dir: true })
}

fn file(name: &str) -> Option<ListedEntry> {
    Some(ListedEntry { name: name.to_string(), is_dir: false })
}

#[test]
fn expected_set_joins_each_dirname_onto_the_root() {
    let root = path("/nas/aco");
    let names = vec!["alpha".to_string(), "beta".to_string()];
    let e = expected_set(&root, &names);
    assert_eq!(texts(&e), vec!["/nas/aco/alpha", "/nas/aco/beta"]);
}

#[test]
fn duplicate_dirnames_give_one_expected_path() {
    let root = path("/nas/aco");
    let names = vec!["alpha".to_string(), "alpha".to_string(), "beta".to_string(), "alpha/".to_string()];
    let e = expected_set(&root, &names);
    assert_eq!(e.len(), 2);
    assert_eq!(texts(&e), vec!["/nas/aco/alpha", "/nas/aco/beta"]);
}

#[test]
fn expected_set_of_no_rows_is_empty() {
    let root = path("/nas/aco");
    assert!(expected_set(&root, &Vec::new()).is_empty());
}

#[test]
fn listing_keeps_directories_and_skips_unreadable_entries() {
    let root = path("/nas/aco");
    let entries = vec![dir("a"), None, file("notes.txt"), dir("c"), None];
    let a = actual_set(&root, &entries);
    assert_eq!(texts(&a), vec!["/nas/aco/a", "/nas/aco/c"]);
}

#[test]
fn listing_of_only_unreadable_entries_is_empty() {
    let root = path("/nas/aco");
    let entries: Vec<Option<ListedEntry>> = vec![None, None];
    assert!(actual_set(&root, &entries).is_empty());
}

#[test]
fn reconcile_keeps_expected_paths_not_present() {
    let e = vec![path("/r/a"), path("/r/b"), path("/r/c")];
    let a = vec![path("/r/b"), path("/r/d")];
    let m = reconcile(&e, &a);
    assert_eq!(texts(&m), vec!["/r/a", "/r/c"]);
}

#[test]
fn reconcile_with_empty_sides() {
    let e = vec![path("/r/a")];
    let none: Vec<ProjectPath> = Vec::new();
    assert_eq!(texts(&reconcile(&e, &none)), vec!["/r/a"]);
    assert!(reconcile(&none, &e).is_empty());
    assert!(reconcile(&e, &e).is_empty());
}

#[test]
fn differently_spelled_paths_are_not_missing() {
    let root = path("/nas/aco");
    let e = expected_set(&root, &vec!["alpha/".to_string(), "./beta".to_string()]);
    let a = actual_set(&root, &vec![dir("alpha"), dir("beta")]);
    assert!(reconcile(&e, &a).is_empty());
}

#[test]
fn relisting_after_seeding_leaves_nothing_missing() {
    let root = path("/nas/aco");
    let e = expected_set(&root, &vec!["alpha".to_string(), "beta".to_string(), "gamma".to_string()]);
    let a = actual_set(&root, &vec![dir("beta")]);
    let m = reconcile(&e, &a);
    assert_eq!(texts(&m), vec!["/nas/aco/alpha", "/nas/aco/gamma"]);
    let relisted = actual_set(&root, &vec![dir("alpha"), dir("beta"), dir("gamma")]);
    assert!(reconcile(&e, &relisted).is_empty());
}

#[test]
fn relisting_after_partial_seeding_leaves_the_failed_path() {
    let root = path("/nas/aco");
    let e = expected_set(&root, &vec!["alpha".to_string(), "beta".to_string()]);
    let relisted = actual_set(&root, &vec![dir("beta")]);
    assert_eq!(texts(&reconcile(&e, &relisted)), vec!["/nas/aco/alpha"]);
}
