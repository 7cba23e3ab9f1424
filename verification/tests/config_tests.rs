use muserv::config::{default_config_path, Config, ConfigError, LibraryConfig};

fn lib(name: &str, path: &str) -> LibraryConfig {
    LibraryConfig { name: name.to_string(), path: path.to_string() }
}

fn config(libraries: Vec<LibraryConfig>, library_path: Option<&str>) -> Config {
    Config {
        db_path: "db.sqlite".to_string(),
        bind: "127.0.0.1:8080".to_string(),
        auth_token: None,
        libraries,
        library_path: library_path.map(|s| s.to_string()),
    }
}

#[test]
fn legacy_path_becomes_main() {
    let mut c = config(vec![], Some("/music"));
    assert!(c.normalize().is_ok());
    assert_eq!(c.libraries.len(), 1);
    assert_eq!(c.libraries[0].name, "main");
    assert_eq!(c.libraries[0].path, "/music");
    assert!(c.library_path.is_none());
}

#[test]
fn legacy_path_ignored_when_libraries_given() {
    let mut c = config(vec![lib("a", "/a")], Some("/music"));
    assert!(c.normalize().is_ok());
    assert_eq!(c.libraries.len(), 1);
    assert_eq!(c.library_path.as_deref(), Some("/music"));
}

#[test]
fn no_libraries_refused() {
    let mut c = config(vec![], None);
    let e = c.normalize().err().unwrap();
    assert!(matches!(e, ConfigError::NoLibraries));
    assert_eq!(e.message(), "config has no libraries \u{2014} add at least one [[library]] section");
}

#[test]
fn empty_name_refused() {
    let mut c = config(vec![lib("ok", "/a"), lib("   ", "/b")], None);
    let e = c.normalize().err().unwrap();
    assert!(matches!(e, ConfigError::EmptyName));
    assert_eq!(e.message(), "library has empty name");
}

#[test]
fn duplicate_trimmed_name_refused() {
    let mut c = config(vec![lib("jazz", "/a"), lib(" jazz ", "/b")], None);
    let e = c.normalize().err().unwrap();
    assert_eq!(e.message(), "duplicate library name: jazz");
}

#[test]
fn first_problem_reported() {
    let mut c = config(vec![lib("a", "/a"), lib("a", "/b"), lib("", "/c")], None);
    assert_eq!(c.normalize().err().unwrap().message(), "duplicate library name: a");
}

#[test]
fn normalize_twice() {
    let mut c = config(vec![], Some("/music"));
    assert!(c.normalize().is_ok());
    assert!(c.normalize().is_ok());
    assert_eq!(c.libraries.len(), 1);
}

#[test]
fn open_api_detection() {
    let mut c = config(vec![], None);
    assert!(!c.api_is_open());
    c.bind = "0.0.0.0:8080".to_string();
    assert!(c.api_is_open());
    c.bind = "localhost:1".to_string();
    assert!(!c.api_is_open());
    c.bind = "[::1]:1".to_string();
    assert!(!c.api_is_open());
    c.bind = "0.0.0.0:8080".to_string();
    c.auth_token = Some("t".to_string());
    assert!(!c.api_is_open());
}

#[test]
fn config_path_defaults() {
    assert_eq!(default_config_path(Some("/x".into()), Some("/h".into())), "/x/muserv/config.toml");
    assert_eq!(default_config_path(Some("/x/".into()), None), "/x/muserv/config.toml");
    assert_eq!(default_config_path(Some("".into()), Some("/h".into())), "/h/.config/muserv/config.toml");
    assert_eq!(default_config_path(None, None), ".config/muserv/config.toml");
    assert_eq!(default_config_path(None, Some("".into())), ".config/muserv/config.toml");
}
