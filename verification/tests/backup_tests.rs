use moesniper::backup::{
    backup_file_name, count_recent, get_path_hash, hash_text, latest_backup_name, lock_file_name,
    select_purged_backups, BackupEntry,
};

const SEC: u128 = 1_000_000_000;
const DAY: u128 = 86_400 * SEC;

fn entry(name: &str, modified_nanos: u128) -> BackupEntry {
    BackupEntry { name: name.to_string(), modified_nanos }
}

#[test]
fn path_hash_is_lower_hex_and_deterministic() {
    let a = get_path_hash("/tmp/some/file.txt");
    let b = get_path_hash("/tmp/some/file.txt");
    assert_eq!(a, b);
    assert!(!a.is_empty() && a.len() <= 16);
    assert!(a.chars().all(|c| c.is_ascii_hexdigit() && !c.is_ascii_uppercase()));
    assert_ne!(get_path_hash("/tmp/a"), get_path_hash("/tmp/b"));
    assert_eq!(hash_text(0), "0");
    assert_eq!(hash_text(0xdead_beef), "deadbeef");
    assert_eq!(hash_text(u64::MAX), "ffffffffffffffff");
}

#[test]
fn names_of_backups_and_locks() {
    assert_eq!(backup_file_name("/tmp/dir/file.txt", "abc", 42), "abc.file.txt.42");
    assert_eq!(backup_file_name("/", "abc", 7), "abc.unknown.7");
    assert_eq!(lock_file_name("abc"), "sniper.abc.lock");
}

#[test]
fn purge_by_count_keeps_newest() {
    let entries = vec![
        entry("h.f.3", 30),
        entry("h.f.1", 10),
        entry("other.f.0", 0),
        entry("h.f.5", 50),
        entry("h.f.2", 20),
        entry("h.f.4", 40),
    ];
    let purged = select_purged_backups(&entries, "h", 100, 3, 0);
    assert_eq!(purged, vec!["h.f.1".to_string(), "h.f.2".to_string()]);
    assert!(select_purged_backups(&entries, "h", 100, 5, 0).is_empty());
    assert!(select_purged_backups(&entries, "h", 100, 0, 0).is_empty());
}

#[test]
fn purge_by_age() {
    let now = 100 * DAY;
    let entries = vec![entry("h.a", now - 31 * DAY), entry("h.b", now - 30 * DAY), entry("h.c", now)];
    assert_eq!(select_purged_backups(&entries, "h", now, 0, 30), vec!["h.a".to_string()]);
    assert!(select_purged_backups(&entries, "h", now, 0, 36500).is_empty());
    // A modification time after `now` has age zero.
    let future = vec![entry("h.x", now + DAY)];
    assert!(select_purged_backups(&future, "h", now, 0, 1).is_empty());
}

#[test]
fn recent_backups() {
    let now = 1_000 * SEC;
    let entries = vec![
        entry("h.1", now - 10 * SEC),
        entry("h.2", now - 100 * SEC),
        entry("h.3", now),
        entry("x.4", now),
    ];
    assert_eq!(count_recent(&entries, "h", now, 60), 2);
    assert_eq!(count_recent(&entries, "h", now, 0), 0);
    assert_eq!(count_recent(&entries, "h", now, 5_000), 3);
}

#[test]
fn latest_backup() {
    let entries = vec![entry("h.f.100", 1), entry("h.f.300", 3), entry("z.f.999", 9), entry("h.f.200", 2)];
    assert_eq!(latest_backup_name(&entries, "h"), Some("h.f.300".to_string()));
    assert_eq!(latest_backup_name(&entries, "q"), None);
    assert_eq!(latest_backup_name(&Vec::new(), "h"), None);
}

#[test]
fn later_backups_sort_last() {
    let a = backup_file_name("/tmp/file.rs", "abc", 1_700_000_000_000_000_009);
    let b = backup_file_name("/tmp/file.rs", "abc", 1_700_000_000_000_000_010);
    assert!(a < b);
    let entries = vec![entry(&b, 1), entry(&a, 2)];
    assert_eq!(latest_backup_name(&entries, "abc"), Some(b));
}
