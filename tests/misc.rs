use safe_remove::args::{FileStat, Flags, RemoveCondBuilder, TimeCondition};
use safe_remove::config::Config;
use safe_remove::error::{Error, ErrorKind};
use safe_remove::file_manager::{FileManager, FileMetadata};
use safe_remove::paths::{file_name_of, join, suffixed_name};
use safe_remove::srm::{Removal, Srm};

#[test]
fn path_helpers() {
    assert_eq!(file_name_of("/a/b/c.txt"), "c.txt");
    assert_eq!(file_name_of("c.txt"), "c.txt");
    assert_eq!(join("/a", "b"), "/a/b");
    assert_eq!(join("/a/", "b"), "/a/b");
    assert_eq!(join("/a", "/b"), "/b");
    assert_eq!(join("", "b"), "b");
    assert_eq!(suffixed_name("a.tar.gz", "1"), "a.tar_1.gz");
    assert_eq!(suffixed_name(".bashrc", "1"), ".bashrc_1");
    assert_eq!(suffixed_name("Makefile", "1"), "Makefile_1");
}

#[test]
fn file_manager_paths() {
    let m = FileManager::with_home("/home/u".to_string());
    assert_eq!(m.get_trash_dir(), "/home/u/.local/share/srm/trash");
    assert_eq!(m.get_metadata_file_path(), "/home/u/.local/share/srm/metadata.json");
}

#[test]
fn file_manager_selects_due_files() {
    let m = FileManager::with_home("/home/u".to_string());
    let rule = RemoveCondBuilder::new()
        .set_size_limit(30 * 1024)
        .set_time_condition(TimeCondition::Duration(24))
        .build();
    let rec = |name: &str| FileMetadata {
        file_name: name.to_string(),
        size: 0,
        created_at: 0,
        safe_deleted_at: 0,
        checksum: String::new(),
        remove_condition: rule,
    };
    let records = vec![rec("big"), rec("/abs/old"), rec("fresh")];
    let stats = vec![
        FileStat { size: 40 * 1024, created_at: 1000 },
        FileStat { size: 1, created_at: 0 },
        FileStat { size: 1, created_at: 1000 },
    ];
    let due = m.find_files_to_remove(&records, &stats, 86_401);
    assert_eq!(due, vec!["/home/u/big".to_string(), "/abs/old".to_string()]);
}

#[test]
fn config_keys_and_retention() {
    let mut c = Config::new();
    assert_eq!(c.retention_secs(None).unwrap(), 604800);
    assert_eq!(c.retention_secs(Some("30m")).unwrap(), 1800);
    assert_eq!(c.get("default_duration").unwrap(), None);
    c.set("default_duration", "12h".to_string()).unwrap();
    assert_eq!(c.get("default_duration").unwrap(), Some("12h".to_string()));
    assert_eq!(c.retention_secs(None).unwrap(), 43200);
    assert_eq!(c.retention_secs(Some("1d")).unwrap(), 86400);
    let e = c.set("colour", "red".to_string()).unwrap_err();
    assert!(matches!(e.kind, ErrorKind::InvalidArg(_)));
    assert!(c.get("colour").is_err());
    c.set("default_duration", "soon".to_string()).unwrap();
    let e = c.retention_secs(None).unwrap_err();
    assert!(matches!(e.kind, ErrorKind::InvalidArg(_)));
}

#[test]
fn legacy_actions() {
    let s = Srm::new();
    let mut f = Flags::default();
    assert_eq!(s.action_for(&f, true), Removal::Store);
    f.store = false;
    assert_eq!(s.action_for(&f, false), Removal::RemoveFile);
    assert_eq!(s.action_for(&f, true), Removal::RefuseDirectory);
    f.recursive = true;
    assert_eq!(s.action_for(&f, true), Removal::RemoveTree);
}

#[test]
fn error_carries_its_message() {
    let e = Error::new(ErrorKind::NotFound("gone".to_string()));
    assert_eq!(e.message(), "gone");
}

#[test]
fn config_error_messages() {
    let mut c = Config::new();
    let e = c.set("colour", "red".to_string()).unwrap_err();
    assert!(matches!(&e.kind, ErrorKind::InvalidArg(m) if m == "Unknown key: colour"));
    let e = c.get("size").unwrap_err();
    assert!(matches!(&e.kind, ErrorKind::InvalidArg(m) if m == "Unknown key: size"));
    let e = c.retention_secs(Some("soon")).unwrap_err();
    assert!(matches!(&e.kind, ErrorKind::InvalidArg(m)
        if m == "Error parsing duration 'soon': invalid digit found in string"));
}
