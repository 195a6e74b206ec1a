use aco_seed::ProjectPath;

fn path(s: &str) -> ProjectPath {
    ProjectPath::from_absolute(s).unwrap()
}

#[test]
fn spellings_of_one_location_are_equal() {
    let a = path("/data/projects/");
    let b = path("/data//projects");
    let c = path("/data/./projects/.");
    assert_eq!(a, b);
    assert_eq!(a, c);
    assert_eq!(a.to_path_string(), "/data/projects");
}

#[test]
fn distinct_locations_differ() {
    assert_ne!(path("/data/a"), path("/data/b"));
    assert_ne!(path("/data/a"), path("/data/a/b"));
    assert_ne!(path("/data/.."), path("/data"));
}

#[test]
fn relative_text_is_refused() {
    assert!(ProjectPath::from_absolute("data/projects").is_none());
    assert!(ProjectPath::from_absolute("").is_none());
}

#[test]
fn root_is_written_as_one_separator() {
    assert_eq!(path("/").to_path_string(), "/");
    assert_eq!(path("///").to_path_string(), "/");
}

#[test]
fn join_appends_a_relative_name() {
    let root = path("/nas/aco");
    assert_eq!(root.join("2021_smith").to_path_string(), "/nas/aco/2021_smith");
    assert_eq!(root.join("a/b").to_path_string(), "/nas/aco/a/b");
    assert_eq!(root.join("").to_path_string(), "/nas/aco");
}

#[test]
fn join_with_trailing_separator_is_the_same_path() {
    let root = path("/nas/aco");
    assert_eq!(root.join("2021_smith/"), root.join("2021_smith"));
    assert_eq!(root.join("2021_smith//"), root.join("2021_smith"));
}

#[test]
fn join_with_absolute_name_replaces_the_root() {
    let root = path("/nas/aco");
    assert_eq!(root.join("/elsewhere/x").to_path_string(), "/elsewhere/x");
}

#[test]
fn rebase_maps_template_entries_under_the_target() {
    let seed = path("/templates/seed");
    let target = path("/nas/aco/2021_smith");
    let entry = path("/templates/seed/docs/readme.txt");
    let moved = entry.rebase(&seed, &target).unwrap();
    assert_eq!(moved.to_path_string(), "/nas/aco/2021_smith/docs/readme.txt");
    assert_eq!(seed.rebase(&seed, &target).unwrap(), target);
}

#[test]
fn rebase_refuses_entries_outside_the_template() {
    let seed = path("/templates/seed");
    let target = path("/nas/aco/x");
    assert!(path("/templates/seeds/a").rebase(&seed, &target).is_none());
    assert!(path("/templates").rebase(&seed, &target).is_none());
}

#[test]
fn written_path_reads_back_as_itself() {
    for text in ["/", "/nas", "/nas/aco/2021_smith", "//nas/./aco//"] {
        let p = path(text);
        let back = ProjectPath::from_absolute(&p.to_path_string()).unwrap();
        assert_eq!(back, p);
    }
}
