use aco_seed::{ProjectPath, SeedRun};

fn path(s: &str) -> ProjectPath {
    ProjectPath::from_absolute(s).unwrap()
}

#[test]
fn failure_on_first_target_does_not_stop_the_second() {
    let mut run = SeedRun::new(vec![path("/r/alpha"), path("/r/beta")]);
    assert_eq!(run.next_target().unwrap(), path("/r/alpha"));
    run.record(false);
    assert!(!run.is_finished());
    assert_eq!(run.next_target().unwrap(), path("/r/beta"));
    run.record(true);
    assert!(run.is_finished());
    assert!(run.next_target().is_none());
    assert_eq!(run.failures(), vec![path("/r/alpha")]);
    assert_eq!(run.seeded(), vec![path("/r/beta")]);
    assert_eq!(run.exit_code(), 1);
}

#[test]
fn run_without_failures_exits_with_zero() {
    let mut run = SeedRun::new(vec![path("/r/alpha"), path("/r/beta")]);
    run.record(true);
    run.record(true);
    assert!(run.failures().is_empty());
    assert_eq!(run.seeded().len(), 2);
    assert_eq!(run.exit_code(), 0);
}

#[test]
fn run_over_nothing_is_finished_at_once() {
    let run = SeedRun::new(Vec::new());
    assert!(run.is_finished());
    assert!(run.next_target().is_none());
    assert_eq!(run.exit_code(), 0);
}
