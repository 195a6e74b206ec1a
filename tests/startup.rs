use aco_seed::{resolve_checked, ConfigError, ConfigKey, DbConfig, PathError, ProjectPath};

fn some(s: &str) -> Option<String> {
    Some(s.to_string())
}

#[test]
fn connection_string_names_every_setting() {
    let c = DbConfig::from_settings(some("db.local"), some("5432"), some("aims"), some("aco"), some("pw"))
        .unwrap();
    assert_eq!(c.connection_string(), "host=db.local port=5432 dbname=aims user=aco password=pw");
}

#[test]
fn first_missing_setting_is_reported() {
    let r = DbConfig::from_settings(some("h"), None, some("d"), None, some("w"));
    assert_eq!(r.unwrap_err(), ConfigError::Missing(ConfigKey::Port));
    let r = DbConfig::from_settings(None, None, None, None, None);
    assert_eq!(r.unwrap_err(), ConfigError::Missing(ConfigKey::Host));
    let r = DbConfig::from_settings(some("h"), some("p"), some("d"), some("u"), None);
    assert_eq!(r.unwrap_err(), ConfigError::Missing(ConfigKey::Password));
    let r = DbConfig::from_settings(some("h"), some("p"), None, some("u"), some("w"));
    assert_eq!(r.unwrap_err(), ConfigError::Missing(ConfigKey::Name));
    let r = DbConfig::from_settings(some("h"), some("p"), some("d"), None, some("w"));
    assert_eq!(r.unwrap_err(), ConfigError::Missing(ConfigKey::User));
}

#[test]
fn resolved_directory_is_accepted() {
    let p = resolve_checked("nas/../nas/aco", Ok("/nas/aco".to_string()), true).unwrap();
    assert_eq!(p, ProjectPath::from_absolute("/nas/aco").unwrap());
}

#[test]
fn unresolvable_path_names_path_and_cause() {
    let r = resolve_checked("/missing", Err("No such file or directory".to_string()), false);
    match r {
        Err(PathError::Unresolved { path, cause }) => {
            assert_eq!(path, "/missing");
            assert_eq!(cause, "No such file or directory");
        }
        other => panic!("unexpected {:?}", other),
    }
}

#[test]
fn file_is_not_a_directory() {
    let r = resolve_checked("notes.txt", Ok("/home/u/notes.txt".to_string()), false);
    assert!(matches!(r, Err(PathError::NotADirectory { ref path }) if path == "notes.txt"));
}

#[test]
fn relative_resolved_form_is_refused() {
    let r = resolve_checked("x", Ok("x".to_string()), true);
    assert!(matches!(r, Err(PathError::Relative { ref path }) if path == "x"));
}
