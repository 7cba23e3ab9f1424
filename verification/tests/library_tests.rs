use muserv::config::LibraryConfig;
use muserv::libraries::{libraries_to_scan, require_library, sync_entries, Library};

fn lib(id: i64, name: &str) -> Library {
    Library { id, name: name.to_string(), root_path: format!("/m/{name}") }
}

#[test]
fn root_is_root_path() {
    assert_eq!(lib(1, "a").root(), "/m/a");
}

#[test]
fn require_library_finds_by_id() {
    let libs = vec![lib(1, "a"), lib(2, "b")];
    let l = require_library(&libs, 2).ok().unwrap();
    assert_eq!(l.name, "b");
    let e = require_library(&libs, 3).err().unwrap();
    assert_eq!(e.status, 404);
    assert_eq!(e.message, "library not found");
}

#[test]
fn scan_selection() {
    let libs = vec![lib(1, "a"), lib(2, "b"), lib(3, "a")];
    assert_eq!(libraries_to_scan(&libs, None).unwrap().len(), 3);
    let v = libraries_to_scan(&libs, Some("a")).unwrap();
    assert_eq!(v.iter().map(|l| l.id).collect::<Vec<_>>(), vec![1, 3]);
    assert!(libraries_to_scan(&libs, Some("c")).is_none());
    assert!(libraries_to_scan(&vec![], None).is_none());
}

#[test]
fn sync_trims_names() {
    let cfg = vec![
        LibraryConfig { name: " a ".into(), path: "/a".into() },
        LibraryConfig { name: "b".into(), path: "/b".into() },
    ];
    let e = sync_entries(&cfg);
    assert_eq!(e[0].name, "a");
    assert_eq!(e[0].path, "/a");
    assert_eq!(e[1].name, "b");
}
