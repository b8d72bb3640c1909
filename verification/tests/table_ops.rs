use fstab::{FsEntry, FsTab};

fn entry(spec: &str, mount: &str, vfs: &str, opts: &[&str], dump: bool, fsck: u16) -> FsEntry {
    FsEntry {
        fs_spec: spec.to_string(),
        mountpoint: mount.to_string(),
        vfs_type: vfs.to_string(),
        mount_options: opts.iter().map(|s| s.to_string()).collect(),
        dump,
        fsck_order: fsck,
    }
}

fn base_content() -> String {
    "/dev/sda1 / ext4 rw 0 1\nUUID=be8a49b9-91a3-48df-b91b-20a0b409ba0f /mnt/raid ext4 user 0 1\n/dev/sda3 none swap sw 0 0\n".to_string()
}

#[test]
fn upsert_fresh_insert() {
    let tab = FsTab::new("/fake");
    let content = base_content();
    let e = entry("/dev/sdb1", "/srv", "xfs", &["defaults"], false, 2);
    let (new_content, fresh) = tab.add_entry(&content, e.clone()).unwrap();
    assert!(fresh);
    let entries = tab.parse_entries(&new_content).unwrap();
    assert_eq!(entries.len(), 4);
    assert_eq!(entries[3], e);
}

#[test]
fn upsert_exact_replace_moves_to_end() {
    let tab = FsTab::new("/fake");
    let content = base_content();
    let e = entry("/dev/sda1", "/", "ext4", &["rw"], false, 1);
    let (new_content, fresh) = tab.add_entry(&content, e.clone()).unwrap();
    assert!(!fresh);
    let entries = tab.parse_entries(&new_content).unwrap();
    assert_eq!(entries.len(), 3);
    assert_eq!(entries[2], e);
    assert_eq!(entries[0].fs_spec, "UUID=be8a49b9-91a3-48df-b91b-20a0b409ba0f");
}

#[test]
fn upsert_same_device_different_fields_keeps_both() {
    let tab = FsTab::new("/fake");
    let content = base_content();
    // Same device as the first record, different mount point: not equal,
    // so the old record stays and the new one is appended.
    let e = entry("/dev/sda1", "/new", "ext4", &["rw"], false, 1);
    let (new_content, fresh) = tab.add_entry(&content, e.clone()).unwrap();
    assert!(fresh);
    let entries = tab.parse_entries(&new_content).unwrap();
    assert_eq!(entries.len(), 4);
    assert_eq!(entries[0].mountpoint, "/");
    assert_eq!(entries[3], e);
}

#[test]
fn add_entry_fails_on_bad_table() {
    let tab = FsTab::new("/fake");
    let e = entry("/dev/sdb1", "/srv", "xfs", &["defaults"], false, 2);
    let r = tab.add_entry("a b c d 0 bad\n", e);
    assert!(r.is_err());
}

#[test]
fn remove_entry_match_found() {
    let tab = FsTab::new("/fake");
    let content = base_content();
    let r = tab
        .remove_entry(&content, "UUID=be8a49b9-91a3-48df-b91b-20a0b409ba0f")
        .unwrap();
    let new_content = r.expect("a record should have been removed");
    let entries = tab.parse_entries(&new_content).unwrap();
    assert_eq!(entries.len(), 2);
    assert_eq!(entries[0].fs_spec, "/dev/sda1");
    assert_eq!(entries[1].fs_spec, "/dev/sda3");
}

#[test]
fn remove_entry_no_match() {
    let tab = FsTab::new("/fake");
    let content = base_content();
    let r = tab.remove_entry(&content, "/dev/nope").unwrap();
    assert!(r.is_none());
}

#[test]
fn remove_entry_only_first_of_duplicates() {
    let tab = FsTab::new("/fake");
    let content = "/dev/dup /a ext4 rw 0 1\n/dev/dup /b ext4 rw 0 1\n";
    let new_content = tab.remove_entry(content, "/dev/dup").unwrap().unwrap();
    let entries = tab.parse_entries(&new_content).unwrap();
    assert_eq!(entries.len(), 1);
    assert_eq!(entries[0].mountpoint, "/b");
}

#[test]
fn bulk_upsert_matches_sequential_upserts() {
    let tab = FsTab::new("/fake");
    let content = base_content();
    let e1 = entry("/dev/sda1", "/", "ext4", &["rw"], false, 1);
    let e2 = entry("/dev/sdb1", "/srv", "xfs", &["defaults"], false, 2);

    let bulk = tab.add_entries(&content, vec![e1.clone(), e2.clone()]).unwrap();

    let (step1, _) = tab.add_entry(&content, e1).unwrap();
    let (step2, _) = tab.add_entry(&step1, e2).unwrap();

    assert_eq!(bulk, step2);
}

#[test]
fn bulk_upsert_replaces_within_batch() {
    let tab = FsTab::new("/fake");
    let e = entry("/dev/sdc1", "/opt", "ext4", &["rw"], false, 2);
    let out = tab.add_entries("", vec![e.clone(), e.clone()]).unwrap();
    let entries = tab.parse_entries(&out).unwrap();
    assert_eq!(entries.len(), 1);
    assert_eq!(entries[0], e);
}

#[test]
fn upsert_list_operations() {
    let mut table = vec![
        entry("/dev/sda1", "/", "ext4", &["rw"], false, 1),
        entry("/dev/sda2", "/home", "ext4", &["rw"], false, 2),
    ];
    let fresh = fstab::table::upsert_entry(&mut table, entry("/dev/sda2", "/home", "ext4", &["rw"], false, 2));
    assert!(!fresh);
    assert_eq!(table.len(), 2);
    assert_eq!(table[1].fs_spec, "/dev/sda2");
    let found = fstab::table::remove_matching(&mut table, "/dev/sda1");
    assert!(found);
    assert_eq!(table.len(), 1);
}

#[test]
fn location_and_default() {
    let tab = FsTab::new("/tmp/fstab");
    assert_eq!(tab.location(), "/tmp/fstab");
    let d = FsTab::default();
    assert_eq!(d.location(), "/etc/fstab");
}
