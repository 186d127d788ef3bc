use safe_remove::checksum::checksum_of;
use safe_remove::codec::{decode_metadata, encode_metadata};
use safe_remove::error::ErrorKind;
use safe_remove::storage::{expiry_time, SafeFile, StorageManager};

fn entry(orig: &str, moved: &str, at: i64) -> SafeFile {
    SafeFile {
        original_path: orig.to_string(),
        moved_path: moved.to_string(),
        deleted_at: at,
        trashed_at: at - 10,
        created_at: 5,
        checksum: String::new(),
    }
}

fn store(files: Vec<SafeFile>) -> StorageManager {
    StorageManager::new("/safe".to_string(), "/safe/metadata".to_string(), files).unwrap()
}

fn paths(v: &[SafeFile]) -> Vec<String> {
    v.iter().map(|f| f.moved_path.clone()).collect()
}

const JAN_1_2024_NOON: i64 = 1_704_110_400;

#[test]
fn trash_then_sweep_before_and_after_expiry() {
    let mut s = store(vec![]);
    let now = JAN_1_2024_NOON;
    let dest = s.destination_for("/tmp/a.txt", false, now).unwrap();
    assert_eq!(dest, "/safe/a.txt");
    let secs = safe_remove::utils::parse_duration("1h").unwrap();
    let at = expiry_time(now, secs).unwrap();
    assert_eq!(at, now + 3600);
    s.add_file(entry("/tmp/a.txt", &dest, at)).unwrap();

    let due = s.sweep_plan(now);
    assert_eq!(due, vec![false]);
    let report = s.cleanup(now, &vec![true]);
    assert!(report.purged.is_empty());
    assert_eq!(paths(&report.retained), vec!["/safe/a.txt".to_string()]);
    assert_eq!(s.safe_files.len(), 1);

    let later = now + 3601;
    assert_eq!(s.sweep_plan(later), vec![true]);
    let report = s.cleanup(later, &vec![true]);
    assert_eq!(paths(&report.purged), vec!["/safe/a.txt".to_string()]);
    assert!(s.safe_files.is_empty());
    assert!(s.find_safe_file("a.txt").is_none());
}

#[test]
fn colliding_names_get_a_time_stamp() {
    let mut s = store(vec![]);
    let now = JAN_1_2024_NOON;
    let first = s.destination_for("/home/u/docs/report.txt", false, now).unwrap();
    assert_eq!(first, "/safe/report.txt");
    s.add_file(entry("/home/u/docs/report.txt", &first, now + 10)).unwrap();
    let second = s.destination_for("/home/u/other/report.txt", true, now).unwrap();
    assert_eq!(second, "/safe/report_20240101120000.txt");
    s.add_file(entry("/home/u/other/report.txt", &second, now + 10)).unwrap();
    assert_eq!(s.safe_files.len(), 2);
    assert_ne!(s.safe_files[0].moved_path, s.safe_files[1].moved_path);
}

#[test]
fn tracked_name_alone_forces_a_stamp() {
    let s = store(vec![entry("/x/notes", "/safe/notes", 5)]);
    let d = s.destination_for("/y/notes", false, JAN_1_2024_NOON).unwrap();
    assert_eq!(d, "/safe/notes_20240101120000");
    let e = s.destination_for("/y/", false, JAN_1_2024_NOON).unwrap_err();
    assert!(matches!(e.kind, ErrorKind::InvalidArg(_)));
}

#[test]
fn stored_paths_stay_distinct() {
    let mut s = store(vec![]);
    let now = JAN_1_2024_NOON;
    for dir in ["/a", "/b", "/c"] {
        let orig = format!("{}/data.bin", dir);
        let occupied = s.find_safe_file("data.bin").is_some();
        match s.destination_for(&orig, occupied, now) {
            Ok(dest) => {
                let _ = s.add_file(entry(&orig, &dest, now));
            }
            Err(_) => {}
        }
    }
    let e = s.add_file(entry("/d/data.bin", "/safe/data.bin", now)).unwrap_err();
    assert!(matches!(e.kind, ErrorKind::DestinationOccupied(_)));
    let mut seen = paths(&s.safe_files);
    let n = seen.len();
    seen.sort();
    seen.dedup();
    assert_eq!(seen.len(), n);
    assert_eq!(n, 2);
}

#[test]
fn restore_of_unknown_name_is_not_found() {
    let s = store(vec![entry("/x/a", "/safe/a", 5), entry("/x/b", "/safe/b", 6)]);
    let e = s.plan_restore("missing.txt", false).unwrap_err();
    assert!(matches!(e.kind, ErrorKind::NotFound(_)));
    assert_eq!(s.safe_files.len(), 2);
    let ok = s.plan_restore("b", false).unwrap();
    assert_eq!(ok.original_path, "/x/b");
    let e = s.plan_restore("b", true).unwrap_err();
    assert!(matches!(e.kind, ErrorKind::DestinationOccupied(_)));
}

#[test]
fn force_clean_with_one_file_missing() {
    let mut s = store(vec![
        entry("/x/a", "/safe/a", i64::MAX),
        entry("/x/b", "/safe/b", i64::MAX),
        entry("/x/c", "/safe/c", i64::MAX),
    ]);
    let report = s.cleanup_all_files(&vec![true, false, true]);
    assert_eq!(paths(&report.purged), vec!["/safe/a".to_string(), "/safe/c".to_string()]);
    assert_eq!(paths(&report.failed), vec!["/safe/b".to_string()]);
    assert!(report.retained.is_empty());
    assert_eq!(paths(&s.safe_files), vec!["/safe/b".to_string()]);
}

#[test]
fn second_sweep_at_same_time_purges_nothing() {
    let mut s = store(vec![entry("/x/a", "/safe/a", 10), entry("/x/b", "/safe/b", 20), entry("/x/c", "/safe/c", 30)]);
    let first = s.cleanup(25, &vec![true, true, true]);
    assert_eq!(first.purged.len(), 2);
    let due = s.sweep_plan(25);
    assert_eq!(due, vec![false]);
    let second = s.cleanup(25, &vec![true]);
    assert!(second.purged.is_empty());
}

#[test]
fn failed_purge_is_retried() {
    let mut s = store(vec![entry("/x/a", "/safe/a", 10), entry("/x/b", "/safe/b", 20)]);
    let first = s.cleanup(15, &vec![false, true]);
    assert!(first.purged.is_empty());
    assert_eq!(paths(&first.failed), vec!["/safe/a".to_string()]);
    assert_eq!(paths(&first.retained), vec!["/safe/b".to_string()]);
    let second = s.cleanup(15, &vec![true, true]);
    assert_eq!(paths(&second.purged), vec!["/safe/a".to_string()]);
    assert_eq!(paths(&s.safe_files), vec!["/safe/b".to_string()]);
}

#[test]
fn expiry_never_reverts() {
    let s = store(vec![entry("/x/a", "/safe/a", 100)]);
    assert_eq!(s.sweep_plan(99), vec![false]);
    for t in [100i64, 101, 5000, i64::MAX] {
        assert_eq!(s.sweep_plan(t), vec![true]);
    }
}

#[test]
fn trash_then_restore_gives_back_the_store() {
    let mut s = store(vec![entry("/x/a", "/safe/a", 100)]);
    let content = b"report body".to_vec();
    let mut f = entry("/home/u/r.txt", "/safe/r.txt", 200);
    f.checksum = checksum_of(&content);
    s.add_file(f).unwrap();
    let found = s.plan_restore("r.txt", false).unwrap();
    assert_eq!(found.original_path, "/home/u/r.txt");
    assert!(found.content_intact(&content));
    assert!(!found.content_intact(&b"report bodY".to_vec()));
    s.remove_file(&found.moved_path);
    assert_eq!(paths(&s.safe_files), vec!["/safe/a".to_string()]);
}

#[test]
fn sha256_of_hello() {
    assert_eq!(
        checksum_of(&b"hello".to_vec()),
        "2cf24dba5fb0a30e26e83b2ac5b9e29e1b161e5c1fa7425e73043362938b9824"
    );
}

#[test]
fn duplicate_paths_are_refused_on_load() {
    let r = StorageManager::new(
        "/safe".to_string(),
        "/m".to_string(),
        vec![entry("/x/a", "/safe/a", 1), entry("/y/a", "/safe/a", 2)],
    );
    assert!(matches!(r, Err(e) if matches!(e.kind, ErrorKind::ParseError(_))));
}

#[test]
fn lookup_and_names() {
    let s = store(vec![entry("/x/a.txt", "/safe/a.txt", 1), entry("/x/b", "/safe/b", 2)]);
    assert!(s.is_tracked("/safe/b"));
    assert!(!s.is_tracked("/safe/c"));
    assert_eq!(s.find_safe_file("b").unwrap().original_path, "/x/b");
    assert_eq!(s.stored_names(), vec!["a.txt".to_string(), "b".to_string()]);
    assert_eq!(s.get_safe_files().len(), 2);
}

#[test]
fn expiry_overflow_is_an_error() {
    assert_eq!(expiry_time(10, 5).unwrap(), 15);
    assert!(expiry_time(i64::MAX, 1).is_err());
    assert_eq!(expiry_time(-10, 10).unwrap(), 0);
}

#[test]
fn metadata_round_trip() {
    let files = vec![
        SafeFile {
            original_path: "/home/u/we:ird\nname 12:x".to_string(),
            moved_path: "/safe/we:ird\nname 12:x".to_string(),
            deleted_at: -42,
            trashed_at: i64::MIN,
            created_at: 0,
            checksum: "abc".to_string(),
        },
        SafeFile {
            original_path: "/tmp/é ü.txt".to_string(),
            moved_path: "/safe/é ü_20240101120000.txt".to_string(),
            deleted_at: i64::MIN,
            trashed_at: -1,
            created_at: i64::MAX,
            checksum: String::new(),
        },
        entry("/a", "/safe/a", i64::MAX),
    ];
    let text = encode_metadata(&files);
    let back = decode_metadata(&text).unwrap();
    assert_eq!(back.len(), files.len());
    for (a, b) in files.iter().zip(back.iter()) {
        assert_eq!(a.original_path, b.original_path);
        assert_eq!(a.moved_path, b.moved_path);
        assert_eq!(a.deleted_at, b.deleted_at);
        assert_eq!(a.trashed_at, b.trashed_at);
        assert_eq!(a.created_at, b.created_at);
        assert_eq!(a.checksum, b.checksum);
    }
    assert_eq!(decode_metadata("").unwrap().len(), 0);
    assert_eq!(encode_metadata(&vec![]), "");
}

#[test]
fn metadata_format() {
    let text = encode_metadata(&vec![SafeFile {
        original_path: "/t/a".to_string(),
        moved_path: "/s/a".to_string(),
        deleted_at: 7,
        trashed_at: 3,
        created_at: -2,
        checksum: "ff".to_string(),
    }]);
    assert_eq!(text, "4:/t/a4:/s/a7:3:-2:2:ff\n");
}

#[test]
fn malformed_metadata_is_refused() {
    for bad in [
        "x",
        "4:/t/a4:/s/a7:3:-2:2:ff",
        "04:/t/a4:/s/a7:3:-2:2:ff\n",
        "4:/t/a4:/s/a-0:3:-2:2:ff\n",
        "9:/t/a\n",
        "4:/t/a4:/s/a+7:3:-2:2:ff\n",
        "4:/t/a4:/s/a7:2:ff\n",
    ] {
        let e = decode_metadata(bad).unwrap_err();
        assert!(matches!(e.kind, ErrorKind::ParseError(_)));
    }
}

#[test]
fn same_file_name_in_another_directory_is_refused() {
    let mut s = store(vec![entry("/x/a", "/safe/a", 1)]);
    let e = s.add_file(entry("/y/a", "/elsewhere/a", 2)).unwrap_err();
    assert!(matches!(e.kind, ErrorKind::DestinationOccupied(_)));
    assert!(s.has_name("a"));
    assert!(!s.has_name("b"));
    let r = StorageManager::new("/safe".to_string(), "/m".to_string(), vec![entry("/x/a", "/s1/a", 1), entry("/y/a", "/s2/a", 2)]);
    assert!(r.is_err());
}
