use fstab::{FsEntry, FsTab, ParseError};

fn entry(spec: &str, mount: &str, vfs: &str, opts: &[&str], dump: bool, fsck: u16) -> FsEntry {
    FsEntry {
        fs_spec: spec.to_string(),
        mountpoint: mount.to_string(),
        vfs_type: vfs.to_string(),
        mount_options: opts.iter().map(|s| s.to_string()).collect(),
        dump,
        fsck_order: fsck,
    }
}

#[test]
fn test_parser() {
    let expected_results = vec![
        FsEntry {
            fs_spec: "/dev/mapper/xubuntu--vg--ssd-root".to_string(),
            mountpoint: "/".to_string(),
            vfs_type: "ext4".to_string(),
            mount_options: vec!["noatime".to_string(), "errors=remount-ro".to_string()],
            dump: false,
            fsck_order: 1,
        },
        FsEntry {
            fs_spec: "UUID=378f3c86-b21a-4172-832d-e2b3d4bc7511".to_string(),
            mountpoint: "/boot".to_string(),
            vfs_type: "ext2".to_string(),
            mount_options: vec!["defaults".to_string()],
            dump: false,
            fsck_order: 2,
        },
        FsEntry {
            fs_spec: "/dev/mapper/xubuntu--vg--ssd-swap_1".to_string(),
            mountpoint: "none".to_string(),
            vfs_type: "swap".to_string(),
            mount_options: vec!["sw".to_string()],
            dump: false,
            fsck_order: 0,
        },
        FsEntry {
            fs_spec: "UUID=be8a49b9-91a3-48df-b91b-20a0b409ba0f".to_string(),
            mountpoint: "/mnt/raid".to_string(),
            vfs_type: "ext4".to_string(),
            mount_options: vec!["errors=remount-ro".to_string(), "user".to_string()],
            dump: false,
            fsck_order: 1,
        },
    ];
    let input = r#"
# /etc/fstab: static file system information.
#
# Use 'blkid' to print the universally unique identifier for a
# device; this may be used with UUID= as a more robust way to name devices
# that works even if disks are added and removed. See fstab(5).
#
# <file system> <mount point>   <type>  <options>       <dump>  <pass>
/dev/mapper/xubuntu--vg--ssd-root /               ext4    noatime,errors=remount-ro 0       1
# /boot was on /dev/sda1 during installation
UUID=378f3c86-b21a-4172-832d-e2b3d4bc7511 /boot           ext2    defaults        0       2
/dev/mapper/xubuntu--vg--ssd-swap_1 none            swap    sw              0       0
UUID=be8a49b9-91a3-48df-b91b-20a0b409ba0f /mnt/raid ext4 errors=remount-ro,user 0 1
# tmpfs /tmp tmpfs rw,nosuid,nodev
"#;
    let fstab = FsTab::new("/fake");
    let results = fstab.parse_entries(input).unwrap();
    println!("Result: {:?}", results);
    assert_eq!(results, expected_results);
}

#[test]
fn lenient_skip_wrong_width() {
    let fstab = FsTab::new("/fake");
    // Five tokens, then seven tokens: both skipped, no error.
    let input = "/dev/sda1 / ext4 defaults 0\n/dev/sda2 /home ext4 defaults 0 2 extra\n/dev/sda3 /srv ext4 defaults 0 2\n";
    let results = fstab.parse_entries(input).unwrap();
    assert_eq!(results.len(), 1);
    assert_eq!(results[0].fs_spec, "/dev/sda3");
}

#[test]
fn comment_always_skipped() {
    let fstab = FsTab::new("/fake");
    // A comment with exactly six fields, and one with a bad number: both
    // skipped before any field is looked at.
    let input = "#dev /mnt ext4 defaults 0 1\n#dev /mnt ext4 defaults 0 nope\n";
    let results = fstab.parse_entries(input).unwrap();
    assert!(results.is_empty());
}

#[test]
fn blank_lines_skipped() {
    let fstab = FsTab::new("/fake");
    let input = "\n\n/dev/sda1 / ext4 defaults 0 1\n\n";
    let results = fstab.parse_entries(input).unwrap();
    assert_eq!(results.len(), 1);
}

#[test]
fn fatal_non_numeric_check_order() {
    let fstab = FsTab::new("/fake");
    let input = "/dev/sda1 / ext4 defaults 0 1\n/dev/sda2 /home ext4 defaults 0 nope\n";
    let result = fstab.parse_entries(input);
    assert!(matches!(result, Err(ParseError::InvalidCheckOrder)));
}

#[test]
fn fatal_out_of_range_check_order() {
    let fstab = FsTab::new("/fake");
    let input = "/dev/sda1 / ext4 defaults 0 65536\n";
    let result = fstab.parse_entries(input);
    assert!(matches!(result, Err(ParseError::InvalidCheckOrder)));
    let fine = fstab.parse_entries("/dev/sda1 / ext4 defaults 0 65535\n").unwrap();
    assert_eq!(fine[0].fsck_order, 65535);
}

#[test]
fn fatal_negative_check_order() {
    let fstab = FsTab::new("/fake");
    let result = fstab.parse_entries("/dev/sda1 / ext4 defaults 0 -1\n");
    assert!(matches!(result, Err(ParseError::InvalidCheckOrder)));
}

#[test]
fn plus_signed_check_order_accepted() {
    // `u16::from_str` accepts a leading plus sign, so the parser does too.
    let fstab = FsTab::new("/fake");
    let results = fstab.parse_entries("/dev/sda1 / ext4 defaults 0 +2\n").unwrap();
    assert_eq!(results[0].fsck_order, 2);
}

#[test]
fn dump_any_nonzero_token_is_true() {
    let fstab = FsTab::new("/fake");
    let results = fstab
        .parse_entries("a / ext4 defaults 0 1\nb /x ext4 defaults 1 1\nc /y ext4 defaults 7 1\n")
        .unwrap();
    assert!(!results[0].dump);
    assert!(results[1].dump);
    assert!(results[2].dump);
}

#[test]
fn options_split_on_every_comma() {
    let fstab = FsTab::new("/fake");
    let results = fstab.parse_entries("a / ext4 rw,,noatime 0 1\n").unwrap();
    assert_eq!(
        results[0].mount_options,
        vec!["rw".to_string(), "".to_string(), "noatime".to_string()]
    );
}

#[test]
fn unterminated_last_line_parsed() {
    let fstab = FsTab::new("/fake");
    let results = fstab.parse_entries("a / ext4 rw 0 1").unwrap();
    assert_eq!(results.len(), 1);
    assert_eq!(results[0].mount_options, vec!["rw".to_string()]);
}

#[test]
fn encoder_exact_output() {
    let entries = vec![
        entry("/dev/sda1", "/", "ext4", &["rw", "noatime"], false, 1),
        entry("UUID=abc", "/boot", "ext2", &["defaults"], true, 2),
    ];
    let content = fstab::writer::encode_entries(&entries);
    assert_eq!(
        content,
        "/dev/sda1 / ext4 rw,noatime 0 1\nUUID=abc /boot ext2 defaults 1 2\n"
    );
}

#[test]
fn round_trip_on_values() {
    let entries = vec![
        entry("/dev/sda1", "/", "ext4", &["rw", "errors=remount-ro"], false, 1),
        entry("UUID=abc", "none", "swap", &["sw"], true, 0),
        entry("LABEL=data", "/mnt/data", "xfs", &["defaults"], false, 2),
    ];
    let content = fstab::writer::encode_entries(&entries);
    let fstab = FsTab::new("/fake");
    let reparsed = fstab.parse_entries(&content).unwrap();
    assert_eq!(reparsed, entries);
}

#[test]
fn check_entry_accepts_and_rejects() {
    assert!(fstab::entry::check_entry(&entry("/dev/sda1", "/", "ext4", &["rw"], false, 1)));
    // White space inside a field would shift columns on the wire.
    assert!(!fstab::entry::check_entry(&entry("/dev/sd a1", "/", "ext4", &["rw"], false, 1)));
    // A device beginning like a comment would vanish on reread.
    assert!(!fstab::entry::check_entry(&entry("#dev", "/", "ext4", &["rw"], false, 1)));
    // A lone empty option encodes as an empty column.
    assert!(!fstab::entry::check_entry(&entry("/dev/sda1", "/", "ext4", &[""], false, 1)));
    // A comma inside an option would split into two on reread.
    assert!(!fstab::entry::check_entry(&entry("/dev/sda1", "/", "ext4", &["a,b"], false, 1)));
    assert!(fstab::entry::check_entry(&entry("/dev/sda1", "/", "ext4", &["a", ""], false, 1)));
}
